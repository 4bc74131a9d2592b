//! Google Trends: the trend of one query, or the comparison of several.
//!
//! The charts do not always load when one tab is used again and again, so every
//! attempt opens a tab of its own, and a tab in which the chart does not load is
//! closed before the next attempt.
use vstd::prelude::*;

use crate::encode::{
    address_of, is_inert, lemma_three_parts, query_pairs, query_part, url_encoded, urlencode,
};
use crate::json::{
    bool_field, field, field_or_null, outcome_view, put, quoted, quoted_list, text_field,
    texts_view, views, Json, JsonView,
};
use crate::names::{lemma_param_names, lemma_result_names};
use crate::recipes::{
    bears_only, bears_text, lemma_picks_more, lemma_picks_same, picks, runs, script_call,
    script_view, Call, CallView, Progress, ProgressView,
};
use crate::text::{
    all_space, blank, contains, join, join_texts, law_joined_is_split_again, law_trimming,
    lemma_trimmed, occurs, split, split_text, texts, is_tight, trim, trimmed,
};

verus! {

pub const DEFAULT_DATE: &'static str = "today 1-m";

pub const DEFAULT_GEO: &'static str = "Worldwide";

/// What is taken where nothing was given.
pub open spec fn or_default(given: Seq<char>, default: Seq<char>) -> Seq<char> {
    if trimmed(given).len() == 0 {
        default
    } else {
        given
    }
}

fn given_or(given: &str, default: &str) -> (r: String)
    ensures
        r@ == or_default(given@, default@),
{
    if blank(given) {
        default.to_owned()
    } else {
        given.to_owned()
    }
}

/// The page of a query.
pub open spec fn explore_page(query: Seq<char>, date: Seq<char>, geo: Seq<char>) -> Seq<char> {
    "https://trends.google.com/explore?q="@ + url_encoded(query) + "&date="@ + url_encoded(date)
        + "&geo="@ + url_encoded(geo)
}

fn explore_url(query: &str, date: &str, geo: &str) -> (r: String)
    ensures
        r@ == explore_page(query@, date@, geo@),
{
    let mut url = "https://trends.google.com/explore?q=".to_owned();
    url.append(urlencode(query).as_str());
    url.append("&date=");
    url.append(urlencode(date).as_str());
    url.append("&geo=");
    url.append(urlencode(geo).as_str());
    url
}

proof fn lemma_address()
    ensures
        forall|i: int|
            0 <= i < "https://trends.google.com/explore"@.len() ==> #[trigger] "https://trends.google.com/explore"@[i] != '?' && "https://trends.google.com/explore"@[i] != '#',
{
    reveal_strlit("https://trends.google.com/explore");
    let s = "https://trends.google.com/explore"@;
    assert forall|i: int| 0 <= i < s.len() implies #[trigger] s[i] != '?' && s[i] != '#' by {
        assert(i == 0 || i == 1 || i == 2 || i == 3 || i == 4 || i == 5 || i == 6 || i == 7 || i == 8 || i == 9 || i == 10 || i == 11 || i == 12 || i == 13 || i == 14 || i == 15 || i == 16 || i == 17 || i == 18 || i == 19 || i == 20 || i == 21 || i == 22 || i == 23 || i == 24 || i == 25 || i == 26 || i == 27 || i == 28 || i == 29 || i == 30 || i == 31 || i == 32);
    }
}

/// The page of a query carries what was asked for: the query, the dates and the
/// region, each under its own name, and nothing else.
pub proof fn law_page_of_a_query(query: Seq<char>, date: Seq<char>, geo: Seq<char>)
    ensures
        address_of(explore_page(query, date, geo)) == "https://trends.google.com/explore"@,
        query_pairs(explore_page(query, date, geo)) == seq![
            ("q"@, query),
            ("date"@, date),
            ("geo"@, geo),
        ],
{
    let base = "https://trends.google.com/explore"@;
    lemma_address();
    reveal_strlit("https://trends.google.com/explore");
    reveal_strlit("https://trends.google.com/explore?q=");
    reveal_strlit("q");
    reveal_strlit("&date=");
    reveal_strlit("date");
    reveal_strlit("&geo=");
    reveal_strlit("geo");
    assert(is_inert("date"@)) by {
        let s = "date"@;
        assert forall|i: int| 0 <= i < s.len() implies #[trigger] s[i] != '?' && s[i] != '#' && s[i]
            != '&' && s[i] != '=' && s[i] != '/' by {
            assert(i == 0 || i == 1 || i == 2 || i == 3);
        }
    }
    assert(is_inert("geo"@)) by {
        let s = "geo"@;
        assert forall|i: int| 0 <= i < s.len() implies #[trigger] s[i] != '?' && s[i] != '#' && s[i]
            != '&' && s[i] != '=' && s[i] != '/' by {
            assert(i == 0 || i == 1 || i == 2);
        }
    }
    lemma_three_parts(base, "q"@, query, "date"@, date, "geo"@, geo);
    assert("https://trends.google.com/explore?q="@ =~= base + seq!['?'] + "q"@ + seq!['=']);
    assert("&date="@ =~= seq!['&'] + "date"@ + seq!['=']);
    assert("&geo="@ =~= seq!['&'] + "geo"@ + seq!['=']);
    assert(explore_page(query, date, geo) =~= base + seq!['?'] + (query_part("q"@, query) + seq!['&']
        + (query_part("date"@, date) + seq!['&'] + query_part("geo"@, geo))));
}

/// Different queries, dates or regions have different pages.
pub proof fn law_pages_differ(
    query_a: Seq<char>,
    date_a: Seq<char>,
    geo_a: Seq<char>,
    query_b: Seq<char>,
    date_b: Seq<char>,
    geo_b: Seq<char>,
)
    requires
        explore_page(query_a, date_a, geo_a) == explore_page(query_b, date_b, geo_b),
    ensures
        query_a == query_b,
        date_a == date_b,
        geo_a == geo_b,
{
    law_page_of_a_query(query_a, date_a, geo_a);
    law_page_of_a_query(query_b, date_b, geo_b);
    let a = query_pairs(explore_page(query_a, date_a, geo_a));
    let b = query_pairs(explore_page(query_b, date_b, geo_b));
    assert(a[0] == b[0] && a[1] == b[1] && a[2] == b[2]);
    assert(a[0] == ("q"@, query_a) && a[1] == ("date"@, date_a) && a[2] == ("geo"@, geo_a));
    assert(b[0] == ("q"@, query_b) && b[1] == ("date"@, date_b) && b[2] == ("geo"@, geo_b));
}

/// The dates that a reading is about: those that were given, or the last month.
pub open spec fn dates_asked_for(date: Seq<char>) -> Seq<char> {
    if all_space(date) {
        "today 1-m"@
    } else {
        date
    }
}

/// The region that a reading is about: the one that was given, or the whole world.
pub open spec fn region_asked_for(geo: Seq<char>) -> Seq<char> {
    if all_space(geo) {
        "Worldwide"@
    } else {
        geo
    }
}

/// What is taken where nothing was given is the last month, worldwide; what was given
/// is taken as it is.
pub proof fn law_defaults(date: Seq<char>, geo: Seq<char>)
    ensures
        or_default(date, DEFAULT_DATE@) == dates_asked_for(date),
        or_default(geo, DEFAULT_GEO@) == region_asked_for(geo),
{
    law_trimming(date);
    law_trimming(geo);
}

// ---------------------------------------------------------------------------
// Scripts
// ---------------------------------------------------------------------------

/// The script that reads the chart and the tables of one query: what stands
/// before the dates that were asked for.
pub const TRENDS_SCRIPT_HEAD: &'static str = r#"(async () => {
  const sleep = (ms) => new Promise((r) => setTimeout(r, ms));
  const deadline = Date.now() + 20000;
  // Trends 是固定高度的应用壳，滚动要同时覆盖 window 和内部滚动容器，懒加载才触发
  const scrollAll = () => {
    window.scrollTo(0, document.body.scrollHeight);
    Array.from(document.querySelectorAll('div')).forEach((el) => {
      if (el.scrollHeight > el.clientHeight + 50) el.scrollTop = el.scrollHeight;
    });
  };
  // 打开后先等 2~3 秒让页面完成首屏渲染，再按 20%/50%/80%/100% 分段下滑，
  // 每段间隔 500ms，避免一打开页面就直接跳到底部
  const stagedScroll = async () => {
    await sleep(2000 + Math.random() * 1000);
    for (const pct of [0.2, 0.5, 0.8, 1]) {
      const maxY = document.body.scrollHeight - window.innerHeight;
      window.scrollTo(0, Math.max(0, maxY * pct));
      Array.from(document.querySelectorAll('div')).forEach((el) => {
        if (el.scrollHeight > el.clientHeight + 50) el.scrollTop = el.scrollHeight * pct;
      });
      await sleep(500);
    }
  };
  await stagedScroll();
  let svg = null;
  let line = null;
  while (Date.now() < deadline) {
    svg = Array.from(document.querySelectorAll('svg')).find((s) => s.getBoundingClientRect().width > 100);
    if (svg) {
      const vbW = (svg.getAttribute('viewBox') || '0 0 1384 320').split(/[\s,]+/).map(Number)[2] || 1280;
      line = Array.from(svg.querySelectorAll('path'))
        .filter((p) => {
          const d = p.getAttribute('d') || '';
          if (d.length < 1500) return false;
          const nums = (d.match(/-?[\d.]+/g) || []).map(Number);
          // 曲线横跨整个绘图区（0~1280，viewBox 宽 1384，右侧留标签区），图标路径远小于此
          return nums.length > 4 && nums[0] <= 2 && nums[nums.length - 2] >= Math.min(vbW - 5, 1000);
        })[0] || null;
    }
    // 等表格行不是骨架：至少 20 个已填充内容的查询单元格
    const filledRows = Array.from(document.querySelectorAll('table tbody tr td:nth-child(2)'))
      .filter((td) => (td.textContent || '').trim().length > 0).length;
    if (line && filledRows >= 20) break;
    scrollAll();
    await sleep(300);
  }
  if (!line) return { error: 'trend chart not loaded' };

  // --- 趋势曲线：解析 path 坐标，再按 y 轴刻度校准成 0-100 ---
  const d = line.getAttribute('d');
  const cmds = d.match(/[MC]/g) || [];
  const nums = (d.match(/-?[\d.]+/g) || []).map(Number);
  let ni = 0;
  const ys = [];
  for (const c of cmds) {
    if (c === 'M') { ys.push(nums[ni + 1]); ni += 2; }
    else { ys.push(nums[ni + 5]); ni += 6; }
  }
  const vb = (svg.getAttribute('viewBox') || '0 0 1384 320').split(/[\s,]+/).map(Number);
  const svgTop = svg.getBoundingClientRect().y;
  const labelY = {};
  Array.from(document.querySelectorAll('svg text')).forEach((t) => {
    const v = t.textContent.trim();
    if (v === '0' && labelY['0'] == null) labelY['0'] = t.getBoundingClientRect().y - svgTop;
    if (v === '100' && labelY['100'] == null) labelY['100'] = t.getBoundingClientRect().y - svgTop;
  });
  const y0 = labelY['0'] != null ? labelY['0'] : (vb[3] || 320);
  const y100 = labelY['100'] != null ? labelY['100'] : 0;
  const span = (y0 - y100) || 1;
  const values = ys.map((y) => Math.max(0, Math.min(100, Math.round(((y0 - y) / span) * 100))));

  // --- 日期：按 date 参数 + 点数推导粒度（日/周/月） ---
  const DATE_SPEC = "#;

/// What stands after the dates.
pub const TRENDS_SCRIPT_TAIL: &'static str = r#";
  const fmt = (dd) => dd.getFullYear() + '-' + String(dd.getMonth() + 1).padStart(2, '0') + '-' + String(dd.getDate()).padStart(2, '0');
  const buildDates = (spec, n) => {
    const now = new Date();
    let end = new Date(now.getFullYear(), now.getMonth(), now.getDate());
    let start = null;
    const m = spec.match(/^today\s+(\d+)-([my])$/);
    if (m) {
      const k = parseInt(m[1], 10);
      start = new Date(end);
      if (m[2] === 'm') start.setMonth(end.getMonth() - k);
      else start.setFullYear(end.getFullYear() - k);
    } else if (spec === 'all') {
      start = new Date(2004, 0, 1);
    } else {
      const dm = spec.match(/^(\d{4}-\d{2}-\d{2})\s+(\d{4}-\d{2}-\d{2})$/);
      if (dm) { start = new Date(dm[1]); end = new Date(dm[2]); }
    }
    if (!start || n <= 0) return Array(n).fill(null);
    const days = Math.round((end - start) / 86400000);
    const back = (offset) => new Date(end.getFullYear(), end.getMonth(), end.getDate() - offset);
    // Google 的采样点以今天为终点往前排，日期从终点倒推而不是从起点正推
    if (Math.abs(n - days) <= 2) return Array.from({ length: n }, (_, i) => fmt(back(n - 1 - i)));
    const weekly = Math.round(days / 7);
    if (Math.abs(n - weekly) <= 2) return Array.from({ length: n }, (_, i) => fmt(back((n - 1 - i) * 7)));
    return Array.from({ length: n }, (_, i) => fmt(back(Math.round(((n - 1 - i) * days) / (n - 1 || 1)))));
  };
  const dates = buildDates(DATE_SPEC, values.length);
  const trend = values.map((v, i) => ({ date: dates[i] || null, value: v }));

  // --- 关键词表：按卡片标题分类（热门/上升/区域），各表自动翻页直到按钮禁用 ---
  // --- 表格分类：表头定大类，widget 卡片标题细分 top/rising/region，全走元素结构定位 ---
  const headerOf = (t) => Array.from(t.querySelectorAll('thead th')).map((th) => th.textContent.trim()).join(' ');
  const isRegionHeader = (t) => /指数和区域|region/i.test(headerOf(t));
  const isQueryHeader = (t) => !isRegionHeader(t) && /查询|query|term/i.test(headerOf(t));
  // widget 卡片标题：从表格向上爬，遇到含多张表的容器即视为已爬出卡片
  const cardTitleOf = (table) => {
    let el = table;
    for (let i = 0; i < 12 && el; i++) {
      el = el.parentElement;
      if (!el) break;
      if (el.querySelectorAll('table').length > 1) break;
      const h = Array.from(el.querySelectorAll('h1,h2,h3,h4,[role="heading"]')).map((x) => x.textContent.trim()).find(Boolean);
      if (h) return h;
    }
    return '';
  };
  const kindOf = (t) => {
    if (isRegionHeader(t)) return 'region';
    if (!isQueryHeader(t)) return null;
    const title = cardTitleOf(t);
    if (/上升|rising/i.test(title)) return 'rising';
    if (/热门|top|most/i.test(title)) return 'top';
    return 'unknown';
  };
  // 热度值：新版页面把数字放在 data-search-interest / aria-label 里，旧版在 title 上
  const interestOf = (el) => {
    if (!el) return null;
    const dsi = el.getAttribute('data-search-interest');
    if (dsi != null && /^\d+$/.test(dsi.trim())) return parseInt(dsi, 10);
    const m = (el.getAttribute('aria-label') || '').match(/(\d+)\s*$/);
    return m ? parseInt(m[1], 10) : null;
  };
  const parseQueryRow = (tr, i) => {
    const cells = Array.from(tr.querySelectorAll('td'));
    if (cells.length < 4) return null;
    const query = (cells[1].querySelector('.Z9Uqw') || cells[1]).textContent.trim();
    if (!query) return null;
    const rankText = (cells[0].textContent || '').trim();
    const rank = /^\d+$/.test(rankText) ? parseInt(rankText, 10) : i + 1;
    const interest = interestOf(cells[2].querySelector('[role="img"]'));
    const chgCell = cells[3];
    const chgTxt = chgCell ? ((chgCell.querySelector('.VYi2zf') || chgCell).textContent || '').trim() : '';
    const pm = chgTxt.match(/([+-−])\s*([\d,.]+)\s*%/);
    let change = null;
    if (pm) change = ((pm[1] === '-' || pm[1] === '−') ? '-' : '+') + pm[2] + '%';
    else if (/暴增|突破|breakout/i.test(chgTxt)) change = 'breakout';
    else if (/没有变化|无变化|no change/i.test(chgTxt)) change = '+0%';
    return { rank, query, interest: Number.isFinite(interest) ? interest : null, change };
  };
  const parseRegionRow = (tr, i) => {
    const cells = Array.from(tr.querySelectorAll('td'));
    if (cells.length < 3) return null;
    const nameEl = cells[1].querySelector('[role="button"]') || cells[1];
    const region = nameEl.textContent.trim();
    if (!region) return null;
    const bar = cells[2].querySelector('[role="img"]');
    const rankText = (cells[0].textContent || '').trim();
    const rank = /^\d+$/.test(rankText) ? parseInt(rankText, 10) : i + 1;
    return { rank, region, geo_code: (bar && bar.getAttribute('data-geo-code')) || null, interest: Number.isFinite(interestOf(bar)) ? interestOf(bar) : null };
  };
  // 翻页按钮定位：从表格向上找第一层恰好只有一颗翻页按钮的祖先容器；若该层有多颗，
  // 用元素归属判定——按钮向上找到的「单表容器」装的是不是当前这张表（不依赖坐标）
  const isNextBtn = (b) => /下一页|next page|next/i.test(b.getAttribute('aria-label') || '');
  const ownsTable = (btn, table) => {
    let p = btn;
    for (let j = 0; j < 10 && p; j++) {
      p = p.parentElement;
      if (!p) break;
      const inner = p.querySelectorAll('table');
      if (inner.length === 1) return inner[0] === table;
    }
    return false;
  };
  const nextBtnFor = (table) => {
    let el = table;
    for (let i = 0; i < 10 && el; i++) {
      el = el.parentElement;
      if (!el) break;
      const btns = Array.from(el.querySelectorAll('button')).filter(isNextBtn);
      if (btns.length === 1) return btns[0];
      if (btns.length > 1) return btns.find((b) => ownsTable(b, table)) || null;
    }
    // 兜底：整页只有一颗翻页按钮时直接用
    const allBtns = Array.from(document.querySelectorAll('button')).filter(isNextBtn);
    return allBtns.length === 1 ? allBtns[0] : null;
  };
  const isDisabled = (btn) => !btn || btn.disabled || btn.getAttribute('aria-disabled') === 'true' || btn.hasAttribute('disabled');
  // 点击翻页后 Google 会整体重渲染、替换 table 节点，所以每页都重新按结构解析表格引用
  const resolveTable = (kind) => Array.from(document.querySelectorAll('table')).find((t) => kindOf(t) === kind);
  const collect = async (getTable, parseRow) => {
    const seen = new Set();
    const rows = [];
    // 页数上限只作保险（区域表实测可达 14+ 页），正常由「按钮禁用」终止翻页
    for (let p = 0; p < 30; p++) {
      const table = getTable();
      if (!table) break;
      for (const r of Array.from(table.querySelectorAll('tbody tr')).map(parseRow)) {
        if (r && !seen.has(r.rank)) { rows.push(r); seen.add(r.rank); }
      }
      const nextBtn = nextBtnFor(table);
      if (isDisabled(nextBtn)) break;
      nextBtn.click();
      // 等翻页完成：以「非空行数恢复到上一页水平」为准，避免新页面渲染到一半就被采走
      const filledRows = (t) => Array.from(t.querySelectorAll('tbody tr')).filter((tr) => /^\d+$/.test(((tr.querySelector('td') || {}).textContent || '').trim())).length;
      const prevCount = filledRows(table);
      const deadline = Date.now() + 5000;
      while (Date.now() < deadline) {
        const fresh = getTable();
        const fr = fresh ? Array.from(fresh.querySelectorAll('tbody tr')).map(parseRow).find(Boolean) : null;
        const ready = fresh && filledRows(fresh) >= prevCount && fr && !seen.has(fr.rank);
        if (ready || (nextBtn && !nextBtn.isConnected)) break;
        await sleep(300);
      }
    }
    return rows;
  };
  let top = await collect(() => resolveTable('top'), parseQueryRow);
  let rising = await collect(() => resolveTable('rising'), parseQueryRow);
  const regions = await collect(() => resolveTable('region'), parseRegionRow);
  // 兜底：卡片标题匹配不到时（界面文案变化），未分类的查询表按文档顺序当 top/rising
  if (!top.length && !rising.length) {
    const posTable = (idx) => {
      let ts = Array.from(document.querySelectorAll('table')).filter((t) => kindOf(t) === 'unknown');
      if (!ts.length) ts = Array.from(document.querySelectorAll('table')).filter(isQueryHeader);
      return ts[idx]; // DOM 文档顺序兜底，不做坐标排序
    };
    if (!top.length) top = await collect(() => posTable(0), parseQueryRow);
    if (!rising.length) rising = await collect(() => posTable(1), parseQueryRow);
  }
  const tablesAvailable = top.length > 0 || rising.length > 0;
  return { trend, top, rising, regions, tables_available: tablesAvailable };
})()"#;

/// The script for one query, with the dates as a string literal in it.
pub open spec fn trends_script_text(date: Seq<char>) -> Seq<char> {
    TRENDS_SCRIPT_HEAD@ + quoted(date) + TRENDS_SCRIPT_TAIL@
}

/// The script for one query.
pub fn trends_script(date: &str) -> (r: String)
    ensures
        r@ == trends_script_text(date@),
{
    let mut script = TRENDS_SCRIPT_HEAD.to_owned();
    script.append(Json::text(date).to_text().as_str());
    script.append(TRENDS_SCRIPT_TAIL);
    script
}

/// The script that reads the lines of a comparison: what stands before the terms.
pub const COMPARE_SCRIPT_HEAD: &'static str = r#"(async () => {
  const sleep = (ms) => new Promise((r) => setTimeout(r, ms));
  const TERMS = "#;

/// What stands between the terms and the dates that were asked for.
pub const COMPARE_SCRIPT_MIDDLE: &'static str = r#";
  const N = TERMS.length;
  const deadline = Date.now() + 20000;
  const scrollAll = () => {
    window.scrollTo(0, document.body.scrollHeight);
    Array.from(document.querySelectorAll('div')).forEach((el) => {
      if (el.scrollHeight > el.clientHeight + 50) el.scrollTop = el.scrollHeight;
    });
  };
  // 打开后先等 2~3 秒让页面完成首屏渲染，再按 20%/50%/80%/100% 分段下滑，
  // 每段间隔 500ms，避免一打开页面就直接跳到底部
  const stagedScroll = async () => {
    await sleep(2000 + Math.random() * 1000);
    for (const pct of [0.2, 0.5, 0.8, 1]) {
      const maxY = document.body.scrollHeight - window.innerHeight;
      window.scrollTo(0, Math.max(0, maxY * pct));
      Array.from(document.querySelectorAll('div')).forEach((el) => {
        if (el.scrollHeight > el.clientHeight + 50) el.scrollTop = el.scrollHeight * pct;
      });
      await sleep(500);
    }
  };
  await stagedScroll();
  let svg = null;
  let lines = null;
  while (Date.now() < deadline) {
    svg = Array.from(document.querySelectorAll('svg')).find((s) => s.getBoundingClientRect().width > 100);
    if (svg) {
      // 每条线画了两遍（inverse mask 与普通 mask），取 inverse 的一套，mask 序号即线序
      lines = Array.from(svg.querySelectorAll('path')).filter((p) => {
        const d = p.getAttribute('d') || '';
        const m = p.getAttribute('mask') || '';
        return d.length > 1500 && m.includes('inverse-mask');
      });
      if (lines.length === N) break;
    }
    scrollAll();
    await sleep(300);
  }
  if (!lines || lines.length !== N) {
    return { error: 'comparison chart not loaded (expected ' + N + ' lines, got ' + (lines ? lines.length : 0) + ')' };
  }
  const maskIdx = (p) => {
    const m = (p.getAttribute('mask') || '').match(/timeline-inverse-mask-\d+-(\d+)/);
    return m ? parseInt(m[1], 10) : 0;
  };
  lines.sort((a, b) => maskIdx(a) - maskIdx(b));

  const parseLine = (p) => {
    const d = p.getAttribute('d');
    const cmds = d.match(/[MC]/g) || [];
    const nums = (d.match(/-?[\d.]+/g) || []).map(Number);
    let ni = 0;
    const ys = [];
    for (const c of cmds) {
      if (c === 'M') { ys.push(nums[ni + 1]); ni += 2; }
      else { ys.push(nums[ni + 5]); ni += 6; }
    }
    return ys;
  };
  const vb = (svg.getAttribute('viewBox') || '0 0 1384 320').split(/[\s,]+/).map(Number);
  const svgTop = svg.getBoundingClientRect().y;
  const labelY = {};
  Array.from(document.querySelectorAll('svg text')).forEach((t) => {
    const v = t.textContent.trim();
    if (v === '0' && labelY['0'] == null) labelY['0'] = t.getBoundingClientRect().y - svgTop;
    if (v === '100' && labelY['100'] == null) labelY['100'] = t.getBoundingClientRect().y - svgTop;
  });
  const y0 = labelY['0'] != null ? labelY['0'] : (vb[3] || 320);
  const y100 = labelY['100'] != null ? labelY['100'] : 0;
  const span = (y0 - y100) || 1;
  const toValue = (y) => Math.max(0, Math.min(100, Math.round(((y0 - y) / span) * 100)));

  // 日期：与单查询一致，从今天倒推
  const DATE_SPEC = "#;

/// What stands after the dates.
pub const COMPARE_SCRIPT_TAIL: &'static str = r#";
  const fmt = (dd) => dd.getFullYear() + '-' + String(dd.getMonth() + 1).padStart(2, '0') + '-' + String(dd.getDate()).padStart(2, '0');
  const buildDates = (spec, n) => {
    const now = new Date();
    let end = new Date(now.getFullYear(), now.getMonth(), now.getDate());
    let start = null;
    const m = spec.match(/^today\s+(\d+)-([my])$/);
    if (m) {
      const k = parseInt(m[1], 10);
      start = new Date(end);
      if (m[2] === 'm') start.setMonth(end.getMonth() - k);
      else start.setFullYear(end.getFullYear() - k);
    } else if (spec === 'all') {
      start = new Date(2004, 0, 1);
    } else {
      const dm = spec.match(/^(\d{4}-\d{2}-\d{2})\s+(\d{4}-\d{2}-\d{2})$/);
      if (dm) { start = new Date(dm[1]); end = new Date(dm[2]); }
    }
    if (!start || n <= 0) return Array(n).fill(null);
    const days = Math.round((end - start) / 86400000);
    const back = (offset) => new Date(end.getFullYear(), end.getMonth(), end.getDate() - offset);
    if (Math.abs(n - days) <= 2) return Array.from({ length: n }, (_, i) => fmt(back(n - 1 - i)));
    const weekly = Math.round(days / 7);
    if (Math.abs(n - weekly) <= 2) return Array.from({ length: n }, (_, i) => fmt(back((n - 1 - i) * 7)));
    return Array.from({ length: n }, (_, i) => fmt(back(Math.round(((n - 1 - i) * days) / (n - 1 || 1)))));
  };

  const counts = lines.map(parseLine);
  const n = counts[0].length;
  const dates = buildDates(DATE_SPEC, n);
  const series = TERMS.map((term, i) => {
    const trend = counts[i].map((y, j) => ({ date: dates[j] || null, value: toValue(y) }));
    return { term, trend };
  });
  return { series };
})()"#;

/// The script for a comparison, with the terms and the dates as literals in it.
pub open spec fn compare_script_text(terms: Seq<Seq<char>>, date: Seq<char>) -> Seq<char> {
    COMPARE_SCRIPT_HEAD@ + quoted_list(terms) + COMPARE_SCRIPT_MIDDLE@ + quoted(date)
        + COMPARE_SCRIPT_TAIL@
}

/// The script for a comparison.
pub fn compare_script(terms: &Vec<String>, date: &str) -> (r: String)
    ensures
        r@ == compare_script_text(texts(terms@), date@),
{
    let list = Json::text_array(terms);
    let literal = list.to_text();
    assert(list@ == texts_view(texts(terms@)));
    let mut script = COMPARE_SCRIPT_HEAD.to_owned();
    script.append(literal.as_str());
    script.append(COMPARE_SCRIPT_MIDDLE);
    script.append(Json::text(date).to_text().as_str());
    script.append(COMPARE_SCRIPT_TAIL);
    script
}

// ---------------------------------------------------------------------------
// Loading a chart
// ---------------------------------------------------------------------------

/// Which chart is loaded.
#[derive(Debug, Clone, Copy, PartialEq, Eq, Structural)]
pub enum Chart {
    /// The trend of one query.
    Trend,
    /// The lines of a comparison.
    Comparison,
}

/// How far an attempt is. `J` is the type of the values that it keeps.
#[derive(Debug)]
pub enum Attempt<J> {
    /// The page is being opened in a new tab.
    Opening,
    /// The script is running.
    Running { tab_id: J },
    /// The chart was not there; the tab is being closed.
    Closing { tab_id: J, got: J },
}

/// The loading of a chart, in up to three attempts.
#[derive(Debug)]
pub struct Loader {
    chart: Chart,
    url: String,
    script: String,
    round: u8,
    attempt: Attempt<Json>,
}

/// The mathematical form of the loading of a chart.
pub struct LoaderView {
    pub chart: Chart,
    pub url: Seq<char>,
    pub script: Seq<char>,
    /// The number of the attempt, from 0.
    pub round: u8,
    pub attempt: Attempt<JsonView>,
}

impl View for Attempt<Json> {
    type V = Attempt<JsonView>;

    open spec fn view(&self) -> Attempt<JsonView> {
        match self {
            Attempt::Opening => Attempt::Opening,
            Attempt::Running { tab_id } => Attempt::Running { tab_id: tab_id@ },
            Attempt::Closing { tab_id, got } => Attempt::Closing { tab_id: tab_id@, got: got@ },
        }
    }
}

impl View for Loader {
    type V = LoaderView;

    closed spec fn view(&self) -> LoaderView {
        LoaderView {
            chart: self.chart,
            url: self.url@,
            script: self.script@,
            round: self.round,
            attempt: self.attempt@,
        }
    }
}

/// How the loading of a chart goes on.
#[derive(Debug)]
pub enum Load {
    /// A command is to be carried out.
    Ask(Loader, Call),
    /// A command failed.
    Failed(String),
    /// The script's result, and the tab it ran in.
    Loaded(Json, Json),
}

/// The mathematical form of how the loading of a chart goes on.
pub enum LoadView {
    Ask(LoaderView, CallView),
    Failed(Seq<char>),
    Loaded(JsonView, JsonView),
}

impl View for Load {
    type V = LoadView;

    open spec fn view(&self) -> LoadView {
        match self {
            Load::Ask(loader, call) => LoadView::Ask(loader@, call@),
            Load::Failed(e) => LoadView::Failed(e@),
            Load::Loaded(tab_id, data) => LoadView::Loaded(tab_id@, data@),
        }
    }
}

/// The label of the command that opens the page.
pub open spec fn open_label(chart: Chart) -> Seq<char> {
    match chart {
        Chart::Trend => "gt1"@,
        Chart::Comparison => "gtc1"@,
    }
}

/// The label of the command that runs the script.
pub open spec fn run_label(chart: Chart) -> Seq<char> {
    match chart {
        Chart::Trend => "gt2"@,
        Chart::Comparison => "gtc2"@,
    }
}

/// The label of the command that closes the tab.
pub open spec fn close_label(chart: Chart) -> Seq<char> {
    match chart {
        Chart::Trend => "gt3"@,
        Chart::Comparison => "gtc3"@,
    }
}

/// By what the script's error says that the chart was not there.
pub open spec fn missing_mark(chart: Chart) -> Seq<char> {
    match chart {
        Chart::Trend => "trend chart not loaded"@,
        Chart::Comparison => "chart not loaded"@,
    }
}

/// Opening a page in a new tab.
pub open spec fn new_tab_view(id: Seq<char>, url: Seq<char>) -> CallView {
    CallView {
        id,
        method: "new_tab"@,
        params: JsonView::Object(Map::empty().insert("url"@, JsonView::Text(url))),
    }
}

/// Closing a tab.
pub open spec fn close_tab_view(id: Seq<char>, tab_id: JsonView) -> CallView {
    CallView {
        id,
        method: "close_tab"@,
        params: JsonView::Object(Map::empty().insert("tab_id"@, tab_id)),
    }
}

/// Whether the script says that the chart was not there.
pub open spec fn chart_missing(chart: Chart, got: JsonView) -> bool {
    match text_field(got, "error"@) {
        Some(error) => occurs(error, missing_mark(chart)),
        None => false,
    }
}

/// How an attempt begins.
pub open spec fn open_round(l: LoaderView, round: u8) -> LoadView {
    LoadView::Ask(
        LoaderView { round, attempt: Attempt::Opening, ..l },
        new_tab_view(open_label(l.chart), l.url),
    )
}

/// What follows an attempt in which the chart was not there: another one, or,
/// after the third, what the script said.
pub open spec fn after_missing(l: LoaderView, tab_id: JsonView, got: JsonView) -> LoadView {
    if l.round >= 2 {
        LoadView::Loaded(tab_id, got)
    } else {
        open_round(l, (l.round + 1) as u8)
    }
}

/// How the loading of a chart goes on after each command. That a tab could not be
/// closed does not matter.
pub open spec fn load_next(l: LoaderView, reply: Result<JsonView, Seq<char>>) -> LoadView {
    match (l.attempt, reply) {
        (Attempt::Closing { tab_id, got }, _) => after_missing(l, tab_id, got),
        (_, Err(e)) => LoadView::Failed(e),
        (Attempt::Opening, Ok(nav)) => {
            let tab_id = field_or_null(nav, "tab_id"@);
            LoadView::Ask(
                LoaderView { attempt: Attempt::Running { tab_id }, ..l },
                script_view(run_label(l.chart), l.script, tab_id),
            )
        },
        (Attempt::Running { tab_id }, Ok(resp)) => {
            let got = field_or_null(resp, "result"@);
            if !chart_missing(l.chart, got) {
                LoadView::Loaded(tab_id, got)
            } else if tab_id is Int || tab_id is Float {
                LoadView::Ask(
                    LoaderView { attempt: Attempt::Closing { tab_id, got }, ..l },
                    close_tab_view(close_label(l.chart), tab_id),
                )
            } else {
                after_missing(l, tab_id, got)
            }
        },
    }
}

fn new_tab_call(id: &'static str, url: &str) -> (r: Call)
    ensures
        r@ == new_tab_view(id@, url@),
{
    let mut entries: Vec<(String, Json)> = Vec::new();
    put(&mut entries, "url", Json::text(url));
    Call { id, method: "new_tab", params: Json::Object(entries) }
}

fn close_tab_call(id: &'static str, tab_id: Json) -> (r: Call)
    ensures
        r@ == close_tab_view(id@, tab_id@),
{
    let mut entries: Vec<(String, Json)> = Vec::new();
    put(&mut entries, "tab_id", tab_id);
    Call { id, method: "close_tab", params: Json::Object(entries) }
}

impl Loader {
    /// Begins to load a chart.
    fn start(chart: Chart, url: String, script: String) -> (r: (Loader, Call))
        ensures
            r.0@ == (LoaderView {
                chart,
                url: url@,
                script: script@,
                round: 0,
                attempt: Attempt::Opening,
            }),
            r.1@ == new_tab_view(open_label(chart), url@),
    {
        let call = Loader::open_call(chart, url.as_str());
        (Loader { chart, url, script, round: 0, attempt: Attempt::Opening }, call)
    }

    fn open_call(chart: Chart, url: &str) -> (r: Call)
        ensures
            r@ == new_tab_view(open_label(chart), url@),
    {
        match chart {
            Chart::Trend => new_tab_call("gt1", url),
            Chart::Comparison => new_tab_call("gtc1", url),
        }
    }

    fn again(self, tab_id: Json, got: Json) -> (r: Load)
        ensures
            r@ == after_missing(self@, tab_id@, got@),
    {
        if self.round >= 2 {
            Load::Loaded(tab_id, got)
        } else {
            let call = Loader::open_call(self.chart, self.url.as_str());
            Load::Ask(
                Loader {
                    chart: self.chart,
                    url: self.url,
                    script: self.script,
                    round: self.round + 1,
                    attempt: Attempt::Opening,
                },
                call,
            )
        }
    }

    fn is_missing(&self, got: &Json) -> (r: bool)
        ensures
            r == chart_missing(self@.chart, got@),
    {
        match got.get_str("error") {
            Some(error) => match self.chart {
                Chart::Trend => contains(error, "trend chart not loaded"),
                Chart::Comparison => contains(error, "chart not loaded"),
            },
            None => false,
        }
    }

    /// Goes on with what the last command brought.
    pub fn step(self, reply: Result<Json, String>) -> (r: Load)
        ensures
            r@ == load_next(self@, outcome_view(reply)),
    {
        let Loader { chart, url, script, round, attempt } = self;
        match attempt {
            Attempt::Closing { tab_id, got } => {
                Loader { chart, url, script, round, attempt: Attempt::Opening }.again(tab_id, got)
            },
            Attempt::Opening => match reply {
                Ok(nav) => {
                    let tab_id = nav.get_or_null("tab_id");
                    let call = match chart {
                        Chart::Trend => script_call("gt2", script.as_str(), tab_id.clone()),
                        Chart::Comparison => script_call("gtc2", script.as_str(), tab_id.clone()),
                    };
                    let attempt = Attempt::Running { tab_id };
                    Load::Ask(Loader { chart, url, script, round, attempt }, call)
                },
                Err(e) => Load::Failed(e),
            },
            Attempt::Running { tab_id } => match reply {
                Ok(resp) => {
                    let got = resp.get_or_null("result");
                    let loader = Loader { chart, url, script, round, attempt: Attempt::Opening };
                    if !loader.is_missing(&got) {
                        Load::Loaded(tab_id, got)
                    } else if tab_id.is_number() {
                        let call = match chart {
                            Chart::Trend => close_tab_call("gt3", tab_id.clone()),
                            Chart::Comparison => close_tab_call("gtc3", tab_id.clone()),
                        };
                        let attempt = Attempt::Closing { tab_id, got };
                        Load::Ask(
                            Loader {
                                chart: loader.chart,
                                url: loader.url,
                                script: loader.script,
                                round: loader.round,
                                attempt,
                            },
                            call,
                        )
                    } else {
                        loader.again(tab_id, got)
                    }
                },
                Err(e) => Load::Failed(e),
            },
        }
    }
}

/// How many commands a loading can still ask for.
pub open spec fn commands_left(l: LoaderView) -> int {
    3 * (2 - l.round) + match l.attempt {
        Attempt::Opening => 2int,
        Attempt::Running { tab_id } => 1int,
        Attempt::Closing { tab_id, got } => 0int,
    }
}

/// A loading ends: every command that it asks for leaves it fewer to ask for, and
/// it begins with at most eight more to come.
pub proof fn law_loading_ends(l: LoaderView, reply: Result<JsonView, Seq<char>>)
    requires
        l.round <= 2,
    ensures
        commands_left(l) <= 8,
        load_next(l, reply) matches LoadView::Ask(next, call) ==> {
            &&& next.round <= 2
            &&& 0 <= commands_left(next) < commands_left(l)
        },
{
}

/// At most three tabs are opened: a new one is asked for only by going on to the
/// next of three rounds.
pub proof fn law_at_most_three_tabs(l: LoaderView, reply: Result<JsonView, Seq<char>>)
    requires
        l.round <= 2,
    ensures
        load_next(l, reply) matches LoadView::Ask(next, call) ==> {
            &&& call.method == "new_tab"@ ==> next.round == l.round + 1 && next.round <= 2
            &&& call.method != "new_tab"@ ==> next.round == l.round
        },
{
    reveal_strlit("new_tab");
    reveal_strlit("run_script");
    reveal_strlit("close_tab");
    assert("new_tab"@.len() == 7 && "run_script"@.len() == 10 && "close_tab"@.len() == 9);
}

/// A tab in which the chart is missing is closed before anything else is done.
pub proof fn law_useless_tab_is_closed(l: LoaderView, resp: JsonView, tab: int)
    requires
        l.attempt == (Attempt::Running { tab_id: JsonView::Int(tab) }),
        chart_missing(l.chart, field_or_null(resp, "result"@)),
    ensures
        load_next(l, Ok(resp)) matches LoadView::Ask(next, call) && call == close_tab_view(
            close_label(l.chart),
            JsonView::Int(tab),
        ),
{
}

/// How far a loading is after `n` replies.
pub open spec fn load_after(
    chart: Chart,
    url: Seq<char>,
    script: Seq<char>,
    replies: Seq<Result<JsonView, Seq<char>>>,
    n: nat,
) -> LoadView
    decreases n,
{
    if n == 0 {
        LoadView::Ask(
            LoaderView { chart, url, script, round: 0, attempt: Attempt::Opening },
            new_tab_view(open_label(chart), url),
        )
    } else {
        match load_after(chart, url, script, replies, (n - 1) as nat) {
            LoadView::Ask(l, _) => load_next(l, replies[n - 1]),
            over => over,
        }
    }
}

/// Whether a command opens a page in a new tab.
pub open spec fn opens(call: CallView, url: Seq<char>) -> bool {
    &&& call.method == "new_tab"@
    &&& bears_text(call, "url"@, url)
    &&& bears_only(call, set!["url"@])
}

/// Whether a command closes a tab.
pub open spec fn closes(call: CallView, tab_id: JsonView) -> bool {
    &&& call.method == "close_tab"@
    &&& field(call.params, "tab_id"@) == Some(tab_id)
    &&& bears_only(call, set!["tab_id"@])
}

/// How many tabs have been opened up to the command that follows `n` replies.
pub open spec fn tabs_opened(
    chart: Chart,
    url: Seq<char>,
    script: Seq<char>,
    replies: Seq<Result<JsonView, Seq<char>>>,
    n: nat,
) -> int
    decreases n,
{
    let before = if n == 0 {
        0
    } else {
        tabs_opened(chart, url, script, replies, (n - 1) as nat)
    };
    match load_after(chart, url, script, replies, n) {
        LoadView::Ask(_, call) => if call.method == "new_tab"@ {
            before + 1
        } else {
            before
        },
        _ => before,
    }
}

/// What the script has said, according to its reply.
pub open spec fn said(reply: Result<JsonView, Seq<char>>) -> JsonView {
    match reply {
        Ok(resp) => match field(resp, "result"@) {
            Some(v) => v,
            None => JsonView::Null,
        },
        Err(_) => JsonView::Null,
    }
}

/// Whether the script has said that the chart was not there.
pub open spec fn said_missing(chart: Chart, got: JsonView) -> bool {
    field(got, "error"@) matches Some(JsonView::Text(error)) && occurs(
        error,
        match chart {
            Chart::Trend => "trend chart not loaded"@,
            Chart::Comparison => "chart not loaded"@,
        },
    )
}

proof fn lemma_methods()
    ensures
        "new_tab"@.len() == 7,
        "run_script"@.len() == 10,
        "close_tab"@.len() == 9,
{
    reveal_strlit("new_tab");
    reveal_strlit("run_script");
    reveal_strlit("close_tab");
}

#[verifier::rlimit(40)]
proof fn lemma_loading(
    chart: Chart,
    url: Seq<char>,
    script: Seq<char>,
    replies: Seq<Result<JsonView, Seq<char>>>,
    n: nat,
)
    requires
        n <= replies.len(),
        load_after(chart, url, script, replies, n) is Ask,
    ensures
        ({
            let l = load_after(chart, url, script, replies, n)->Ask_0;
            let call = load_after(chart, url, script, replies, n)->Ask_1;
            &&& l.chart == chart && l.url == url && l.script == script
            &&& l.round + 1 == tabs_opened(chart, url, script, replies, n)
            &&& l.round <= 2
            &&& match l.attempt {
                Attempt::Opening => opens(call, url),
                Attempt::Running { tab_id } => n > 0 && (replies[n - 1] matches Ok(nav) && runs(
                    call,
                    script,
                    nav,
                ) && tab_id == field_or_null(nav, "tab_id"@)),
                Attempt::Closing { tab_id, got } => n > 0 && closes(call, tab_id) && got == said(
                    replies[n - 1],
                ),
            }
        }),
    decreases n,
{
    lemma_param_names();
    lemma_methods();
    if n > 0 {
        let m = (n - 1) as nat;
        lemma_loading(chart, url, script, replies, m);
    }
}

/// How the loading of a chart goes on after the command that follows `n` replies. A
/// page that was opened has the script run in the tab that the browser has named. What
/// the script has said ends the loading, unless it says that the chart was not there:
/// the tab is closed, where it has a number, and the same page is opened again, until
/// it has been opened three times. That a tab could not be closed does not matter; any
/// other command that fails ends the loading with its error.
#[verifier::rlimit(40)]
pub proof fn law_loading_goes_on(
    chart: Chart,
    url: Seq<char>,
    script: Seq<char>,
    replies: Seq<Result<JsonView, Seq<char>>>,
    n: nat,
)
    requires
        n < replies.len(),
        load_after(chart, url, script, replies, n) is Ask,
    ensures
        ({
            let call = load_after(chart, url, script, replies, n)->Ask_1;
            let next = load_after(chart, url, script, replies, n + 1);
            let reply = replies[n as int];
            let tab_id = field(call.params, "tab_id"@)->0;
            let again = |got: JsonView|
                if tabs_opened(chart, url, script, replies, n) < 3 {
                    next matches LoadView::Ask(_, c) && opens(c, url)
                } else {
                    next == LoadView::Loaded(tab_id, got)
                };
            &&& n == 0 ==> opens(call, url)
            &&& call.method == "new_tab"@ || call.method == "run_script"@ || call.method
                == "close_tab"@
            &&& call.method == "new_tab"@ ==> match reply {
                Ok(nav) => next matches LoadView::Ask(_, c) && runs(c, script, nav),
                Err(e) => next == LoadView::Failed(e),
            }
            &&& call.method == "run_script"@ ==> match reply {
                Ok(_) => if !said_missing(chart, said(reply)) {
                    next == LoadView::Loaded(tab_id, said(reply))
                } else if tab_id is Int || tab_id is Float {
                    next matches LoadView::Ask(_, c) && closes(c, tab_id)
                } else {
                    again(said(reply))
                },
                Err(e) => next == LoadView::Failed(e),
            }
            &&& call.method == "close_tab"@ ==> n > 0 && again(said(replies[n - 1]))
        }),
{
    lemma_param_names();
    lemma_methods();
    lemma_loading(chart, url, script, replies, n);
    if load_after(chart, url, script, replies, n + 1) is Ask {
        lemma_loading(chart, url, script, replies, n + 1);
    }
}

// ---------------------------------------------------------------------------
// One query
// ---------------------------------------------------------------------------

/// The reading of the trend of a query.
#[derive(Debug)]
pub struct GoogleTrends {
    query: String,
    date: String,
    geo: String,
    loader: Loader,
}

/// The mathematical form of the reading of a trend.
pub struct GoogleTrendsView {
    pub query: Seq<char>,
    pub date: Seq<char>,
    pub geo: Seq<char>,
    pub loader: LoaderView,
}

impl View for GoogleTrends {
    type V = GoogleTrendsView;

    closed spec fn view(&self) -> GoogleTrendsView {
        GoogleTrendsView {
            query: self.query@,
            date: self.date@,
            geo: self.geo@,
            loader: self.loader@,
        }
    }
}

/// How the reading of a trend begins.
pub open spec fn googletrends_start(query: Seq<char>, date: Seq<char>, geo: Seq<char>) -> ProgressView<
    GoogleTrendsView,
> {
    let date = or_default(date, DEFAULT_DATE@);
    let geo = or_default(geo, DEFAULT_GEO@);
    let url = explore_page(query, date, geo);
    ProgressView::Ask(
        GoogleTrendsView {
            query,
            date,
            geo,
            loader: LoaderView {
                chart: Chart::Trend,
                url,
                script: trends_script_text(date),
                round: 0,
                attempt: Attempt::Opening,
            },
        },
        new_tab_view("gt1"@, url),
    )
}

/// The value under a key, or an empty list.
pub open spec fn field_or_list(v: JsonView, key: Seq<char>) -> JsonView {
    match field(v, key) {
        Some(x) => x,
        None => JsonView::Array(Seq::empty()),
    }
}

pub fn get_or_list(v: &Json, key: &str) -> (r: Json)
    ensures
        r@ == field_or_list(v@, key@),
{
    match v.get(key) {
        Some(x) => x.clone(),
        None => {
            let none: Vec<Json> = Vec::new();
            assert(views(none@) =~= Seq::empty());
            Json::array(none)
        },
    }
}

/// What is added where the page had no tables.
pub const NO_TABLES_NOTE: &'static str =
    "当前会话 Google 显示的是 Gemini 变体界面，热门/上升关键词表未渲染（趋势数据不受影响）；如在经典界面下运行则会返回完整表格";

/// What is made of the result of the script.
pub open spec fn trend_outcome(
    query: Seq<char>,
    date: Seq<char>,
    geo: Seq<char>,
    tab_id: JsonView,
    data: JsonView,
) -> Result<JsonView, Seq<char>> {
    match text_field(data, "error"@) {
        Some(error) => Err("googletrends: "@ + error),
        None => {
            let out = Map::empty().insert("tab_id"@, tab_id).insert(
                "query"@,
                JsonView::Text(query),
            ).insert("date"@, JsonView::Text(date)).insert("geo"@, JsonView::Text(geo)).insert(
                "trend"@,
                field_or_list(data, "trend"@),
            ).insert("top"@, field_or_list(data, "top"@)).insert(
                "rising"@,
                field_or_list(data, "rising"@),
            ).insert("regions"@, field_or_list(data, "regions"@));
            Ok(
                JsonView::Object(
                    if bool_field(data, "tables_available"@) == Some(true) {
                        out
                    } else {
                        out.insert("note"@, JsonView::Text(NO_TABLES_NOTE@))
                    },
                ),
            )
        },
    }
}

/// How the reading of a trend goes on after each command.
pub open spec fn googletrends_next(
    state: GoogleTrendsView,
    reply: Result<JsonView, Seq<char>>,
) -> ProgressView<GoogleTrendsView> {
    match load_next(state.loader, reply) {
        LoadView::Ask(loader, call) => ProgressView::Ask(GoogleTrendsView { loader, ..state }, call),
        LoadView::Failed(e) => ProgressView::Done(Err(e)),
        LoadView::Loaded(tab_id, data) => ProgressView::Done(
            trend_outcome(state.query, state.date, state.geo, tab_id, data),
        ),
    }
}

/// The reading of a trend begins with the page of what was asked for, in a new tab.
pub proof fn law_trend_begins(query: Seq<char>, date: Seq<char>, geo: Seq<char>)
    ensures
        googletrends_start(query, date, geo) matches ProgressView::Ask(_, call) && {
            &&& call.method == "new_tab"@
            &&& bears_only(call, set!["url"@])
            &&& field(call.params, "url"@) matches Some(JsonView::Text(url)) && address_of(url)
                == "https://trends.google.com/explore"@ && query_pairs(url) == seq![
                ("q"@, query),
                ("date"@, dates_asked_for(date)),
                ("geo"@, region_asked_for(geo)),
            ]
        },
{
    law_defaults(date, geo);
    law_page_of_a_query(query, dates_asked_for(date), region_asked_for(geo));
}

/// How far the reading of a trend is after `n` replies.
pub open spec fn trend_after(
    query: Seq<char>,
    date: Seq<char>,
    geo: Seq<char>,
    replies: Seq<Result<JsonView, Seq<char>>>,
    n: nat,
) -> ProgressView<GoogleTrendsView>
    decreases n,
{
    if n == 0 {
        googletrends_start(query, date, geo)
    } else {
        match trend_after(query, date, geo, replies, (n - 1) as nat) {
            ProgressView::Ask(state, _) => googletrends_next(state, replies[n - 1]),
            over => over,
        }
    }
}

/// The trend that is returned is the trend that was asked for: every page that is
/// opened is that of the query, the dates and the region, the script is given the
/// dates, and what is made of its result names the same query, dates and region.
pub proof fn law_trend_is_the_one_asked_for(
    query: Seq<char>,
    date: Seq<char>,
    geo: Seq<char>,
    replies: Seq<Result<JsonView, Seq<char>>>,
    n: nat,
) -> (url: Seq<char>)
    requires
        n <= replies.len(),
    ensures
        address_of(url) == "https://trends.google.com/explore"@,
        query_pairs(url) == seq![
            ("q"@, query),
            ("date"@, dates_asked_for(date)),
            ("geo"@, region_asked_for(geo)),
        ],
        ({
            let script = TRENDS_SCRIPT_HEAD@ + quoted(dates_asked_for(date)) + TRENDS_SCRIPT_TAIL@;
            match load_after(Chart::Trend, url, script, replies, n) {
                LoadView::Ask(_, call) => trend_after(
                    query,
                    date,
                    geo,
                    replies,
                    n,
                ) matches ProgressView::Ask(_, c) && c == call,
                LoadView::Failed(e) => trend_after(query, date, geo, replies, n) == ProgressView::<
                    GoogleTrendsView,
                >::Done(Err(e)),
                LoadView::Loaded(tab_id, data) => trend_after(query, date, geo, replies, n)
                    == ProgressView::<GoogleTrendsView>::Done(
                    trend_outcome(
                        query,
                        dates_asked_for(date),
                        region_asked_for(geo),
                        tab_id,
                        data,
                    ),
                ),
            }
        }),
{
    law_defaults(date, geo);
    law_page_of_a_query(query, dates_asked_for(date), region_asked_for(geo));
    lemma_trend_after(query, date, geo, replies, n);
    explore_page(query, dates_asked_for(date), region_asked_for(geo))
}

proof fn lemma_trend_after(
    query: Seq<char>,
    date: Seq<char>,
    geo: Seq<char>,
    replies: Seq<Result<JsonView, Seq<char>>>,
    n: nat,
)
    requires
        n <= replies.len(),
    ensures
        ({
            let date_used = dates_asked_for(date);
            let geo_used = region_asked_for(geo);
            let url = explore_page(query, date_used, geo_used);
            let script = TRENDS_SCRIPT_HEAD@ + quoted(date_used) + TRENDS_SCRIPT_TAIL@;
            trend_after(query, date, geo, replies, n) == match load_after(
                Chart::Trend,
                url,
                script,
                replies,
                n,
            ) {
                LoadView::Ask(loader, call) => ProgressView::Ask(
                    GoogleTrendsView { query, date: date_used, geo: geo_used, loader },
                    call,
                ),
                LoadView::Failed(e) => ProgressView::Done(Err(e)),
                LoadView::Loaded(tab_id, data) => ProgressView::Done(
                    trend_outcome(query, date_used, geo_used, tab_id, data),
                ),
            }
        }),
    decreases n,
{
    law_defaults(date, geo);
    if n > 0 {
        lemma_trend_after(query, date, geo, replies, (n - 1) as nat);
    }
}

/// What is returned of a trend: the tab, what was asked for, and the trend, the top
/// and the rising queries and the regions as the script has found them, or empty
/// lists; with a note where the page had no tables. What the script says is wrong is
/// the error.
pub proof fn law_outcome_of_a_trend(
    query: Seq<char>,
    date: Seq<char>,
    geo: Seq<char>,
    tab_id: JsonView,
    data: JsonView,
)
    ensures
        match field(data, "error"@) {
            Some(JsonView::Text(error)) => trend_outcome(query, date, geo, tab_id, data) == Err::<
                JsonView,
                Seq<char>,
            >("googletrends: "@ + error),
            _ => trend_outcome(query, date, geo, tab_id, data) matches Ok(out) && {
                &&& field(out, "tab_id"@) == Some(tab_id)
                &&& field(out, "query"@) == Some(JsonView::Text(query))
                &&& field(out, "date"@) == Some(JsonView::Text(date))
                &&& field(out, "geo"@) == Some(JsonView::Text(geo))
                &&& forall|name: Seq<char>|
                    name == "trend"@ || name == "top"@ || name == "rising"@ || name == "regions"@
                        ==> #[trigger] field(out, name) == Some(
                        match field(data, name) {
                            Some(v) => v,
                            None => JsonView::Array(Seq::empty()),
                        },
                    )
                &&& field(out, "note"@) == if field(data, "tables_available"@) == Some(
                    JsonView::Bool(true),
                ) {
                    None
                } else {
                    Some(
                        JsonView::Text(
                            "当前会话 Google 显示的是 Gemini 变体界面，热门/上升关键词表未渲染（趋势数据不受影响）；如在经典界面下运行则会返回完整表格"@,
                        ),
                    )
                }
                &&& forall|name: Seq<char>| #[trigger]
                    field(out, name) is Some ==> name == "tab_id"@ || name == "query"@ || name
                        == "date"@ || name == "geo"@ || name == "trend"@ || name == "top"@ || name
                        == "rising"@ || name == "regions"@ || name == "note"@
            },
        },
{
    lemma_result_names();
}

/// Begins to read the trend of a query. Its outcome holds the tab, the query, the
/// dates and the region that were asked for, the trend, the top and rising
/// queries, and the regions.
pub fn googletrends(query: &str, date: &str, geo: &str) -> (r: Progress<GoogleTrends>)
    ensures
        r@ == googletrends_start(query@, date@, geo@),
{
    let date = given_or(date, DEFAULT_DATE);
    let geo = given_or(geo, DEFAULT_GEO);
    let url = explore_url(query, date.as_str(), geo.as_str());
    let script = trends_script(date.as_str());
    let (loader, call) = Loader::start(Chart::Trend, url, script);
    Progress::Ask(GoogleTrends { query: query.to_owned(), date, geo, loader }, call)
}

fn trend_result(query: &str, date: &str, geo: &str, tab_id: Json, data: Json) -> (r: Result<
    Json,
    String,
>)
    ensures
        outcome_view(r) == trend_outcome(query@, date@, geo@, tab_id@, data@),
{
    if let Some(error) = data.get_str("error") {
        let mut text = "googletrends: ".to_owned();
        text.append(error);
        return Err(text);
    }
    let mut entries: Vec<(String, Json)> = Vec::new();
    put(&mut entries, "tab_id", tab_id);
    put(&mut entries, "query", Json::text(query));
    put(&mut entries, "date", Json::text(date));
    put(&mut entries, "geo", Json::text(geo));
    put(&mut entries, "trend", get_or_list(&data, "trend"));
    put(&mut entries, "top", get_or_list(&data, "top"));
    put(&mut entries, "rising", get_or_list(&data, "rising"));
    put(&mut entries, "regions", get_or_list(&data, "regions"));
    let tables = match data.get_bool("tables_available") {
        Some(b) => b,
        None => false,
    };
    if !tables {
        put(&mut entries, "note", Json::text(NO_TABLES_NOTE));
    }
    Ok(Json::Object(entries))
}

impl GoogleTrends {
    /// Goes on with what the last command brought.
    pub fn step(self, reply: Result<Json, String>) -> (r: Progress<GoogleTrends>)
        ensures
            r@ == googletrends_next(self@, outcome_view(reply)),
    {
        let GoogleTrends { query, date, geo, loader } = self;
        match loader.step(reply) {
            Load::Ask(loader, call) => Progress::Ask(GoogleTrends { query, date, geo, loader }, call),
            Load::Failed(e) => Progress::Done(Err(e)),
            Load::Loaded(tab_id, data) => Progress::Done(
                trend_result(query.as_str(), date.as_str(), geo.as_str(), tab_id, data),
            ),
        }
    }
}

// ---------------------------------------------------------------------------
// A comparison
// ---------------------------------------------------------------------------

/// The comparison of several queries.
#[derive(Debug)]
pub struct GoogleTrendsCompare {
    terms: Vec<String>,
    date: String,
    geo: String,
    loader: Loader,
}

/// The mathematical form of a comparison.
pub struct GoogleTrendsCompareView {
    pub terms: Seq<Seq<char>>,
    pub date: Seq<char>,
    pub geo: Seq<char>,
    pub loader: LoaderView,
}

impl View for GoogleTrendsCompare {
    type V = GoogleTrendsCompareView;

    closed spec fn view(&self) -> GoogleTrendsCompareView {
        GoogleTrendsCompareView {
            terms: texts(self.terms@),
            date: self.date@,
            geo: self.geo@,
            loader: self.loader@,
        }
    }
}

/// The terms without white space around them; blank ones are left out.
pub open spec fn clean_terms(terms: Seq<Seq<char>>) -> Seq<Seq<char>>
    decreases terms.len(),
{
    if terms.len() == 0 {
        Seq::empty()
    } else if trimmed(terms.last()).len() > 0 {
        clean_terms(terms.drop_last()).push(trimmed(terms.last()))
    } else {
        clean_terms(terms.drop_last())
    }
}

/// How a comparison begins: there has to be a term.
pub open spec fn googletrends_compare_start(
    terms: Seq<Seq<char>>,
    date: Seq<char>,
    geo: Seq<char>,
) -> ProgressView<GoogleTrendsCompareView> {
    let date = or_default(date, DEFAULT_DATE@);
    let geo = or_default(geo, DEFAULT_GEO@);
    let url = explore_page(join(clean_terms(terms), ","@), date, geo);
    if terms.len() == 0 {
        ProgressView::Done(Err("googletrends-compare: 至少需要一个关键词"@))
    } else {
        ProgressView::Ask(
            GoogleTrendsCompareView {
                terms,
                date,
                geo,
                loader: LoaderView {
                    chart: Chart::Comparison,
                    url,
                    script: compare_script_text(terms, date),
                    round: 0,
                    attempt: Attempt::Opening,
                },
            },
            new_tab_view("gtc1"@, url),
        )
    }
}

/// What is made of the result of the script.
pub open spec fn compare_outcome(
    terms: Seq<Seq<char>>,
    date: Seq<char>,
    geo: Seq<char>,
    tab_id: JsonView,
    data: JsonView,
) -> Result<JsonView, Seq<char>> {
    match text_field(data, "error"@) {
        Some(error) => Err("googletrends-compare: "@ + error),
        None => Ok(
            JsonView::Object(
                Map::empty().insert("tab_id"@, tab_id).insert("terms"@, texts_view(terms)).insert(
                    "date"@,
                    JsonView::Text(date),
                ).insert("geo"@, JsonView::Text(geo)).insert(
                    "series"@,
                    field_or_list(data, "series"@),
                ),
            ),
        ),
    }
}

/// How a comparison goes on after each command.
pub open spec fn googletrends_compare_next(
    state: GoogleTrendsCompareView,
    reply: Result<JsonView, Seq<char>>,
) -> ProgressView<GoogleTrendsCompareView> {
    match load_next(state.loader, reply) {
        LoadView::Ask(loader, call) => ProgressView::Ask(
            GoogleTrendsCompareView { loader, ..state },
            call,
        ),
        LoadView::Failed(e) => ProgressView::Done(Err(e)),
        LoadView::Loaded(tab_id, data) => ProgressView::Done(
            compare_outcome(state.terms, state.date, state.geo, tab_id, data),
        ),
    }
}

/// Terms are taken without white space around them, in their order; blank ones are left
/// out, and no others.
pub proof fn law_terms(terms: Seq<Seq<char>>) -> (at: Seq<int>)
    ensures
        picks(at, terms.len() as int, |i: int| !all_space(terms[i])),
        clean_terms(terms).len() == at.len(),
        forall|k: int|
            0 <= k < at.len() ==> #[trigger] clean_terms(terms)[k] == trimmed(terms[at[k]]),
    decreases terms.len(),
{
    let wanted = |i: int| !all_space(terms[i]);
    if terms.len() == 0 {
        let none = Seq::<int>::empty();
        assert(picks(none, 0, wanted));
        none
    } else {
        let front = terms.drop_last();
        let n = front.len() as int;
        let before = law_terms(front);
        lemma_picks_same(before, n, |i: int| !all_space(front[i]), wanted);
        lemma_picks_more(before, n, wanted);
        law_trimming(terms[n]);
        let now = clean_terms(terms);
        if wanted(n) {
            let at = before.push(n);
            assert forall|k: int| 0 <= k < at.len() implies #[trigger] now[k] == trimmed(
                terms[at[k]],
            ) by {
                if k < before.len() {
                    assert(clean_terms(front)[k] == trimmed(front[before[k]]));
                }
            }
            at
        } else {
            assert forall|k: int| 0 <= k < before.len() implies #[trigger] now[k] == trimmed(
                terms[before[k]],
            ) by {
                assert(clean_terms(front)[k] == trimmed(front[before[k]]));
            }
            before
        }
    }
}

/// A comparison begins with the page of what was asked for, in a new tab.
pub proof fn law_comparison_begins(terms: Seq<Seq<char>>, date: Seq<char>, geo: Seq<char>)
    requires
        terms.len() > 0,
    ensures
        googletrends_compare_start(terms, date, geo) matches ProgressView::Ask(_, call) && {
            &&& call.method == "new_tab"@
            &&& bears_only(call, set!["url"@])
            &&& field(call.params, "url"@) matches Some(JsonView::Text(url)) && address_of(url)
                == "https://trends.google.com/explore"@ && query_pairs(url) == seq![
                ("q"@, join(clean_terms(terms), seq![','])),
                ("date"@, dates_asked_for(date)),
                ("geo"@, region_asked_for(geo)),
            ]
        },
{
    reveal_strlit(",");
    assert(","@ =~= seq![',']);
    law_defaults(date, geo);
    law_page_of_a_query(
        join(clean_terms(terms), seq![',']),
        dates_asked_for(date),
        region_asked_for(geo),
    );
}

/// How far a comparison is after `n` replies.
pub open spec fn comparison_after(
    terms: Seq<Seq<char>>,
    date: Seq<char>,
    geo: Seq<char>,
    replies: Seq<Result<JsonView, Seq<char>>>,
    n: nat,
) -> ProgressView<GoogleTrendsCompareView>
    decreases n,
{
    if n == 0 {
        googletrends_compare_start(terms, date, geo)
    } else {
        match comparison_after(terms, date, geo, replies, (n - 1) as nat) {
            ProgressView::Ask(state, _) => googletrends_compare_next(state, replies[n - 1]),
            over => over,
        }
    }
}

/// The comparison that is returned is the one that was asked for: every page that is
/// opened is that of the terms, with commas between them, of the dates and of the
/// region, the script is given the terms and the dates, and what is made of its result
/// names the same terms, dates and region. Without a term there is no comparison.
pub proof fn law_comparison_is_the_one_asked_for(
    terms: Seq<Seq<char>>,
    date: Seq<char>,
    geo: Seq<char>,
    replies: Seq<Result<JsonView, Seq<char>>>,
    n: nat,
) -> (url: Seq<char>)
    requires
        n <= replies.len(),
    ensures
        address_of(url) == "https://trends.google.com/explore"@,
        query_pairs(url) == seq![
            ("q"@, join(clean_terms(terms), seq![','])),
            ("date"@, dates_asked_for(date)),
            ("geo"@, region_asked_for(geo)),
        ],
        terms.len() == 0 ==> comparison_after(terms, date, geo, replies, n) == ProgressView::<
            GoogleTrendsCompareView,
        >::Done(Err("googletrends-compare: 至少需要一个关键词"@)),
        terms.len() > 0 ==> {
            let script = COMPARE_SCRIPT_HEAD@ + quoted_list(terms) + COMPARE_SCRIPT_MIDDLE@ + quoted(
                dates_asked_for(date),
            ) + COMPARE_SCRIPT_TAIL@;
            match load_after(Chart::Comparison, url, script, replies, n) {
                LoadView::Ask(_, call) => comparison_after(
                    terms,
                    date,
                    geo,
                    replies,
                    n,
                ) matches ProgressView::Ask(_, c) && c == call,
                LoadView::Failed(e) => comparison_after(terms, date, geo, replies, n)
                    == ProgressView::<GoogleTrendsCompareView>::Done(Err(e)),
                LoadView::Loaded(tab_id, data) => comparison_after(terms, date, geo, replies, n)
                    == ProgressView::<GoogleTrendsCompareView>::Done(
                    compare_outcome(
                        terms,
                        dates_asked_for(date),
                        region_asked_for(geo),
                        tab_id,
                        data,
                    ),
                ),
            }
        },
{
    reveal_strlit(",");
    assert(","@ =~= seq![',']);
    let q = join(clean_terms(terms), seq![',']);
    law_defaults(date, geo);
    law_page_of_a_query(q, dates_asked_for(date), region_asked_for(geo));
    lemma_comparison_after(terms, date, geo, replies, n);
    explore_page(q, dates_asked_for(date), region_asked_for(geo))
}

proof fn lemma_comparison_after(
    terms: Seq<Seq<char>>,
    date: Seq<char>,
    geo: Seq<char>,
    replies: Seq<Result<JsonView, Seq<char>>>,
    n: nat,
)
    requires
        n <= replies.len(),
    ensures
        terms.len() == 0 ==> comparison_after(terms, date, geo, replies, n) == ProgressView::<
            GoogleTrendsCompareView,
        >::Done(Err("googletrends-compare: 至少需要一个关键词"@)),
        terms.len() > 0 ==> {
            let date_used = dates_asked_for(date);
            let geo_used = region_asked_for(geo);
            let url = explore_page(join(clean_terms(terms), ","@), date_used, geo_used);
            let script = COMPARE_SCRIPT_HEAD@ + quoted_list(terms) + COMPARE_SCRIPT_MIDDLE@ + quoted(
                date_used,
            ) + COMPARE_SCRIPT_TAIL@;
            comparison_after(terms, date, geo, replies, n) == match load_after(
                Chart::Comparison,
                url,
                script,
                replies,
                n,
            ) {
                LoadView::Ask(loader, call) => ProgressView::Ask(
                    GoogleTrendsCompareView { terms, date: date_used, geo: geo_used, loader },
                    call,
                ),
                LoadView::Failed(e) => ProgressView::Done(Err(e)),
                LoadView::Loaded(tab_id, data) => ProgressView::Done(
                    compare_outcome(terms, date_used, geo_used, tab_id, data),
                ),
            }
        },
    decreases n,
{
    law_defaults(date, geo);
    if n > 0 {
        lemma_comparison_after(terms, date, geo, replies, (n - 1) as nat);
    }
}

/// What is returned of a comparison: the tab, what was asked for, and the series as the
/// script has found them, or an empty list. What the script says is wrong is the error.
pub proof fn law_outcome_of_a_comparison(
    terms: Seq<Seq<char>>,
    date: Seq<char>,
    geo: Seq<char>,
    tab_id: JsonView,
    data: JsonView,
)
    ensures
        match field(data, "error"@) {
            Some(JsonView::Text(error)) => compare_outcome(terms, date, geo, tab_id, data) == Err::<
                JsonView,
                Seq<char>,
            >("googletrends-compare: "@ + error),
            _ => compare_outcome(terms, date, geo, tab_id, data) matches Ok(out) && {
                &&& field(out, "tab_id"@) == Some(tab_id)
                &&& field(out, "terms"@) matches Some(JsonView::Array(list)) && list.len()
                    == terms.len() && forall|k: int|
                    0 <= k < list.len() ==> #[trigger] list[k] == JsonView::Text(terms[k])
                &&& field(out, "date"@) == Some(JsonView::Text(date))
                &&& field(out, "geo"@) == Some(JsonView::Text(geo))
                &&& field(out, "series"@) == Some(
                    match field(data, "series"@) {
                        Some(v) => v,
                        None => JsonView::Array(Seq::empty()),
                    },
                )
                &&& forall|name: Seq<char>| #[trigger]
                    field(out, name) is Some ==> name == "tab_id"@ || name == "terms"@ || name
                        == "date"@ || name == "geo"@ || name == "series"@
            },
        },
{
    lemma_result_names();
}

fn cleaned(terms: &Vec<String>) -> (r: Vec<String>)
    ensures
        texts(r@) == clean_terms(texts(terms@)),
{
    let ghost all = texts(terms@);
    let mut out: Vec<String> = Vec::new();
    let mut i: usize = 0;
    assert(texts(out@) =~= clean_terms(all.take(0)));
    while i < terms.len()
        invariant
            i <= terms@.len(),
            all == texts(terms@),
            texts(out@) == clean_terms(all.take(i as int)),
        decreases terms.len() - i,
    {
        assert(all.take(i + 1).drop_last() =~= all.take(i as int));
        assert(all.take(i + 1).last() == terms@[i as int]@);
        let term = trim(terms[i].as_str());
        if !term.as_str().is_empty() {
            let ghost before = texts(out@);
            let ghost t = term@;
            out.push(term);
            assert(texts(out@) =~= before.push(t));
        }
        i += 1;
    }
    assert(all.take(terms@.len() as int) =~= all);
    out
}

/// Begins a comparison. Its outcome holds the tab, the terms, the dates and the
/// region that were asked for, and one series for each term.
pub fn googletrends_compare(terms: Vec<String>, date: &str, geo: &str) -> (r: Progress<
    GoogleTrendsCompare,
>)
    ensures
        r@ == googletrends_compare_start(texts(terms@), date@, geo@),
{
    if terms.len() == 0 {
        return Progress::Done(Err("googletrends-compare: 至少需要一个关键词".to_owned()));
    }
    let date = given_or(date, DEFAULT_DATE);
    let geo = given_or(geo, DEFAULT_GEO);
    let query = join_texts(&cleaned(&terms), ",");
    let url = explore_url(query.as_str(), date.as_str(), geo.as_str());
    let script = compare_script(&terms, date.as_str());
    let (loader, call) = Loader::start(Chart::Comparison, url, script);
    Progress::Ask(GoogleTrendsCompare { terms, date, geo, loader }, call)
}

fn compare_result(terms: &Vec<String>, date: &str, geo: &str, tab_id: Json, data: Json) -> (r: Result<
    Json,
    String,
>)
    ensures
        outcome_view(r) == compare_outcome(texts(terms@), date@, geo@, tab_id@, data@),
{
    if let Some(error) = data.get_str("error") {
        let mut text = "googletrends-compare: ".to_owned();
        text.append(error);
        return Err(text);
    }
    let mut entries: Vec<(String, Json)> = Vec::new();
    put(&mut entries, "tab_id", tab_id);
    put(&mut entries, "terms", Json::text_array(terms));
    put(&mut entries, "date", Json::text(date));
    put(&mut entries, "geo", Json::text(geo));
    put(&mut entries, "series", get_or_list(&data, "series"));
    Ok(Json::Object(entries))
}

impl GoogleTrendsCompare {
    /// Goes on with what the last command brought.
    pub fn step(self, reply: Result<Json, String>) -> (r: Progress<GoogleTrendsCompare>)
        ensures
            r@ == googletrends_compare_next(self@, outcome_view(reply)),
    {
        let GoogleTrendsCompare { terms, date, geo, loader } = self;
        match loader.step(reply) {
            Load::Ask(loader, call) => Progress::Ask(
                GoogleTrendsCompare { terms, date, geo, loader },
                call,
            ),
            Load::Failed(e) => Progress::Done(Err(e)),
            Load::Loaded(tab_id, data) => Progress::Done(
                compare_result(&terms, date.as_str(), geo.as_str(), tab_id, data),
            ),
        }
    }
}

// ---------------------------------------------------------------------------
// Terms as they are typed
// ---------------------------------------------------------------------------

/// The terms in a list in which one entry may hold several, with commas between
/// them.
pub open spec fn typed_terms(list: Seq<Seq<char>>) -> Seq<Seq<char>>
    decreases list.len(),
{
    if list.len() == 0 {
        Seq::empty()
    } else {
        typed_terms(list.drop_last()) + clean_terms(split(list.last(), ','))
    }
}

/// Terms that are typed in one entry, with commas between them, are found again.
pub proof fn law_typed_terms(terms: Seq<Seq<char>>)
    requires
        terms.len() > 0,
        forall|i: int|
            0 <= i < terms.len() ==> (#[trigger] terms[i]).len() > 0 && is_tight(terms[i])
                && !terms[i].contains(','),
    ensures
        typed_terms(seq![join(terms, seq![','])]) == terms,
{
    law_joined_is_split_again(terms, ',');
    lemma_clean_stays(terms);
    let list = seq![join(terms, seq![','])];
    assert(list.drop_last() =~= Seq::<Seq<char>>::empty());
    assert(typed_terms(list.drop_last()) =~= Seq::<Seq<char>>::empty());
    assert(typed_terms(list) =~= terms);
}

proof fn lemma_clean_stays(terms: Seq<Seq<char>>)
    requires
        forall|i: int| 0 <= i < terms.len() ==> (#[trigger] terms[i]).len() > 0 && is_tight(terms[i]),
    ensures
        clean_terms(terms) == terms,
    decreases terms.len(),
{
    if terms.len() > 0 {
        let front = terms.drop_last();
        assert forall|i: int| 0 <= i < front.len() implies (#[trigger] front[i]).len() > 0 && is_tight(
            front[i],
        ) by {
            assert(front[i] == terms[i]);
        }
        lemma_clean_stays(front);
        assert(terms[terms.len() - 1].len() > 0);
        lemma_trimmed(terms.last());
        assert(front.push(terms.last()) =~= terms);
    }
}

/// The terms of several entries follow each other as the entries do.
pub proof fn law_entries_follow_each_other(a: Seq<Seq<char>>, b: Seq<Seq<char>>)
    ensures
        typed_terms(a + b) == typed_terms(a) + typed_terms(b),
    decreases b.len(),
{
    if b.len() > 0 {
        law_entries_follow_each_other(a, b.drop_last());
        assert((a + b).drop_last() =~= a + b.drop_last());
        assert((a + b).last() == b.last());
        assert(typed_terms(a + b) =~= typed_terms(a) + typed_terms(b));
    } else {
        assert(a + b =~= a);
        assert(typed_terms(a) + typed_terms(b) =~= typed_terms(a));
    }
}

/// Takes the terms as they are typed.
pub fn split_terms(list: &Vec<String>) -> (r: Vec<String>)
    ensures
        texts(r@) == typed_terms(texts(list@)),
{
    let ghost all = texts(list@);
    let mut out: Vec<String> = Vec::new();
    let mut i: usize = 0;
    assert(texts(out@) =~= typed_terms(all.take(0)));
    while i < list.len()
        invariant
            i <= list@.len(),
            all == texts(list@),
            texts(out@) == typed_terms(all.take(i as int)),
        decreases list.len() - i,
    {
        assert(all.take(i + 1).drop_last() =~= all.take(i as int));
        assert(all.take(i + 1).last() == list@[i as int]@);
        let mut part = cleaned(&split_text(list[i].as_str(), ','));
        let ghost before = texts(out@);
        let ghost more = texts(part@);
        out.append(&mut part);
        assert(texts(out@) =~= before + more);
        i += 1;
    }
    assert(all.take(list@.len() as int) =~= all);
    out
}

} // verus!
