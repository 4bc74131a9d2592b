//! Query.Domains: which domains of a name are taken, and what the others cost.
//!
//! The page is opened, its list of suffixes is set where another one is wanted,
//! the name is typed in, and the rows that come in are read.
use vstd::prelude::*;
use vstd::utf8::is_ascii_chars;

use crate::json::{
    bool_field, field, field_or_null, items_field, outcome_view, put, quoted, text_field,
    texts_view, views, Json, JsonView,
};
use crate::names::{lemma_param_names, lemma_result_names};
use crate::recipes::googletrends::{field_or_list, get_or_list};
use crate::recipes::{
    bears_only, bears_text, carries, in_tab, lemma_picks_more, lemma_picks_same, navigate_call,
    navigate_view, picks, runs, script_call, script_view, Call, CallView, Progress, ProgressView,
};
use crate::target::{law_locator_locates, locates, locator, locator_view};
use crate::text::{
    after, all_space, chars_of, decimal, decimal_text, is_space, join, join_texts, law_trimming,
    law_two_words, lemma_split_first, lemma_tail_after, lemma_trimmed, lemma_up_to_append,
    occurs_at, prefix_up_to, same, spaceless, split, split_text, split_words, tail_after, text_of,
    texts, trim, trimmed, up_to, words,
};

verus! {

pub const HOME: &'static str = "https://query.domains/zh-hans";

/// Where the name is typed in.
pub const KEYWORD_INPUT: &'static str = "input.bc-input__input";

/// What opens the editor of suffixes.
pub const TLD_TRIGGER: &'static str = "div.flex.items-center.gap-3.mr-3 span.cursor-pointer";

/// The editor of suffixes, one on each line.
pub const TLD_TEXTAREA: &'static str = "textarea.bc-textarea__input";

// ---------------------------------------------------------------------------
// Suffixes
// ---------------------------------------------------------------------------

/// What `str::to_lowercase` makes of a text.
pub uninterp spec fn lowercase_text(s: Seq<char>) -> Seq<char>;

/// An ASCII letter in lower case.
pub open spec fn ascii_lower(c: char) -> char {
    if 'A' <= c <= 'Z' {
        (c as u8 + 32) as char
    } else {
        c
    }
}

/// `str::to_lowercase` of the standard library. What it returns is a function of
/// the text; in an ASCII text it changes exactly the capital letters.
#[verifier::external_body]
fn lowercase(s: &str) -> (r: String)
    ensures
        r@ == lowercase_text(s@),
        is_ascii_chars(s@) ==> r@ == ascii_lowered(s@),
{
    s.to_lowercase()
}

/// The text without the dots at its beginning.
pub open spec fn without_dots(s: Seq<char>) -> Seq<char>
    decreases s.len(),
{
    if s.len() > 0 && s[0] == '.' {
        without_dots(s.drop_first())
    } else {
        s
    }
}

/// A suffix as it is asked for: without white space around it, without dots
/// before it, in lower case.
pub open spec fn suffix_text(given: Seq<char>) -> Seq<char> {
    lowercase_text(without_dots(trimmed(given)))
}

/// The suffixes of a list; what is empty is left out.
pub open spec fn suffix_texts(given: Seq<Seq<char>>) -> Seq<Seq<char>>
    decreases given.len(),
{
    if given.len() == 0 {
        Seq::empty()
    } else {
        let suffix = suffix_text(given.last());
        if suffix.len() > 0 {
            suffix_texts(given.drop_last()).push(suffix)
        } else {
            suffix_texts(given.drop_last())
        }
    }
}

/// A text with its capital ASCII letters made small.
pub open spec fn ascii_lowered(s: Seq<char>) -> Seq<char> {
    s.map_values(|c: char| ascii_lower(c))
}

/// Whether each suffix of a list that is in ASCII has its capital letters made
/// small, and nothing else changed, when it is put in lower case.
pub open spec fn lowers_ascii(given: Seq<Seq<char>>) -> bool {
    forall|i: int|
        0 <= i < given.len() && is_ascii_chars(without_dots(trimmed(#[trigger] given[i])))
            ==> suffix_text(given[i]) == ascii_lowered(without_dots(trimmed(given[i])))
}

/// The suffixes that the page asks for by itself.
pub open spec fn default_suffixes() -> Seq<Seq<char>> {
    seq![
        "com"@,
        "ai"@,
        "org"@,
        "net"@,
        "cn"@,
        "info"@,
        "app"@,
        "io"@,
        "xyz"@,
        "co"@,
        "run"@,
        "me"@,
        "pro"@,
        "top"@,
    ]
}

/// The suffixes that are asked for: those of the list, or those of the page where
/// the list is empty.
pub open spec fn wanted_suffixes(given: Seq<Seq<char>>) -> Seq<Seq<char>> {
    if given.len() == 0 {
        default_suffixes()
    } else {
        suffix_texts(given)
    }
}

/// The suffixes that the page asks for by itself.
pub fn default_tlds() -> (r: Vec<String>)
    ensures
        texts(r@) == default_suffixes(),
{
    let mut out: Vec<String> = Vec::new();
    out.push("com".to_owned());
    out.push("ai".to_owned());
    out.push("org".to_owned());
    out.push("net".to_owned());
    out.push("cn".to_owned());
    out.push("info".to_owned());
    out.push("app".to_owned());
    out.push("io".to_owned());
    out.push("xyz".to_owned());
    out.push("co".to_owned());
    out.push("run".to_owned());
    out.push("me".to_owned());
    out.push("pro".to_owned());
    out.push("top".to_owned());
    assert(texts(out@) =~= default_suffixes());
    out
}

fn strip_dots(s: &str) -> (r: String)
    ensures
        r@ == without_dots(s@),
{
    let cs = chars_of(s);
    let len: usize = cs.len();
    let mut from: usize = 0;
    assert(cs@ =~= cs@.subrange(0, len as int));
    while from < len && cs[from] == '.'
        invariant
            from <= len == cs@.len(),
            without_dots(cs@) == without_dots(cs@.subrange(from as int, len as int)),
        decreases len - from,
    {
        assert(cs@.subrange(from as int, len as int).drop_first() =~= cs@.subrange(
            from + 1,
            len as int,
        ));
        from += 1;
    }
    text_of(&cs, from, len)
}

fn suffixes(given: &Vec<String>) -> (r: Vec<String>)
    ensures
        texts(r@) == suffix_texts(texts(given@)),
        lowers_ascii(texts(given@)),
{
    let ghost all = texts(given@);
    let mut out: Vec<String> = Vec::new();
    let mut i: usize = 0;
    assert(texts(out@) =~= suffix_texts(all.take(0)));
    while i < given.len()
        invariant
            i <= given@.len(),
            all == texts(given@),
            texts(out@) == suffix_texts(all.take(i as int)),
            lowers_ascii(all.take(i as int)),
        decreases given.len() - i,
    {
        assert(all.take(i + 1).drop_last() =~= all.take(i as int));
        assert(all.take(i + 1).last() == given@[i as int]@);
        let suffix = lowercase(strip_dots(trim(given[i].as_str()).as_str()).as_str());
        assert(lowers_ascii(all.take(i + 1))) by {
            let now = all.take(i + 1);
            assert forall|j: int|
                0 <= j < now.len() && is_ascii_chars(
                    without_dots(trimmed(#[trigger] now[j])),
                ) implies suffix_text(now[j]) == ascii_lowered(without_dots(trimmed(now[j]))) by {
                if j < i {
                    assert(now[j] == all.take(i as int)[j]);
                }
            }
        }
        if !suffix.as_str().is_empty() {
            let ghost before = texts(out@);
            let ghost s = suffix@;
            out.push(suffix);
            assert(texts(out@) =~= before.push(s));
        }
        i += 1;
    }
    assert(all.take(given@.len() as int) =~= all);
    out
}

/// The suffixes that the page asks for by itself.
pub proof fn law_usual_suffixes()
    ensures
        wanted_suffixes(Seq::empty()) == seq![
            "com"@,
            "ai"@,
            "org"@,
            "net"@,
            "cn"@,
            "info"@,
            "app"@,
            "io"@,
            "xyz"@,
            "co"@,
            "run"@,
            "me"@,
            "pro"@,
            "top"@,
        ],
{
}

/// A suffix is what is given without white space around it and without the dots
/// before it, in lower case.
pub proof fn law_suffix(given: Seq<char>) -> (dots: Seq<char>)
    ensures
        forall|i: int| 0 <= i < dots.len() ==> #[trigger] dots[i] == '.',
        ({
            let bare = without_dots(trimmed(given));
            &&& trimmed(given) == dots + bare
            &&& bare.len() > 0 ==> bare[0] != '.'
            &&& suffix_text(given) == lowercase_text(bare)
        }),
{
    lemma_without_dots(trimmed(given))
}

proof fn lemma_without_dots(s: Seq<char>) -> (dots: Seq<char>)
    ensures
        forall|i: int| 0 <= i < dots.len() ==> #[trigger] dots[i] == '.',
        s == dots + without_dots(s),
        without_dots(s).len() > 0 ==> without_dots(s)[0] != '.',
    decreases s.len(),
{
    if s.len() > 0 && s[0] == '.' {
        let rest = lemma_without_dots(s.drop_first());
        let dots = seq!['.'] + rest;
        let bare = without_dots(s);
        assert(s =~= seq!['.'] + s.drop_first());
        assert(seq!['.'] + (rest + bare) =~= dots + bare);
        dots
    } else {
        assert(Seq::<char>::empty() + s =~= s);
        Seq::empty()
    }
}

/// The suffixes that are asked for are those that are given, each in its form, in
/// their order; what is empty is left out, and nothing else.
pub proof fn law_given_suffixes(given: Seq<Seq<char>>) -> (at: Seq<int>)
    requires
        given.len() > 0,
    ensures
        picks(at, given.len() as int, |i: int| suffix_text(given[i]).len() > 0),
        wanted_suffixes(given).len() == at.len(),
        forall|k: int|
            0 <= k < at.len() ==> #[trigger] wanted_suffixes(given)[k] == suffix_text(given[at[k]]),
{
    lemma_given_suffixes(given)
}

proof fn lemma_given_suffixes(given: Seq<Seq<char>>) -> (at: Seq<int>)
    ensures
        picks(at, given.len() as int, |i: int| suffix_text(given[i]).len() > 0),
        suffix_texts(given).len() == at.len(),
        forall|k: int|
            0 <= k < at.len() ==> #[trigger] suffix_texts(given)[k] == suffix_text(given[at[k]]),
    decreases given.len(),
{
    let wanted = |i: int| suffix_text(given[i]).len() > 0;
    if given.len() == 0 {
        let none = Seq::<int>::empty();
        assert(picks(none, 0, wanted));
        none
    } else {
        let front = given.drop_last();
        let n = front.len() as int;
        let before = lemma_given_suffixes(front);
        lemma_picks_same(before, n, |i: int| suffix_text(front[i]).len() > 0, wanted);
        lemma_picks_more(before, n, wanted);
        let now = suffix_texts(given);
        if wanted(n) {
            let at = before.push(n);
            assert forall|k: int| 0 <= k < at.len() implies #[trigger] now[k] == suffix_text(
                given[at[k]],
            ) by {
                if k < before.len() {
                    assert(suffix_texts(front)[k] == suffix_text(front[before[k]]));
                }
            }
            at
        } else {
            assert forall|k: int| 0 <= k < before.len() implies #[trigger] now[k] == suffix_text(
                given[before[k]],
            ) by {
                assert(suffix_texts(front)[k] == suffix_text(front[before[k]]));
            }
            before
        }
    }
}

fn same_list(a: &Vec<String>, b: &Vec<String>) -> (r: bool)
    ensures
        r == (texts(a@) == texts(b@)),
{
    if a.len() != b.len() {
        assert(texts(a@).len() != texts(b@).len());
        return false;
    }
    let mut i: usize = 0;
    while i < a.len()
        invariant
            i <= a@.len() == b@.len(),
            forall|k: int| 0 <= k < i ==> #[trigger] a@[k]@ == b@[k]@,
        decreases a.len() - i,
    {
        if !same(a[i].as_str(), b[i].as_str()) {
            assert(texts(a@)[i as int] != texts(b@)[i as int]);
            return false;
        }
        i += 1;
    }
    assert(texts(a@) =~= texts(b@));
    true
}

// ---------------------------------------------------------------------------
// Prices
// ---------------------------------------------------------------------------

pub open spec fn is_digit(c: char) -> bool {
    '0' <= c <= '9'
}

/// Whether nothing but digits is in a text.
pub open spec fn all_digits(s: Seq<char>) -> bool {
    forall|i: int| 0 <= i < s.len() ==> is_digit(#[trigger] s[i])
}

/// A text without a sign before it.
pub open spec fn without_sign(s: Seq<char>) -> Seq<char> {
    if s.len() > 0 && (s[0] == '+' || s[0] == '-') {
        s.drop_first()
    } else {
        s
    }
}

/// Digits, with a point before, among or after them.
pub open spec fn is_mantissa(s: Seq<char>) -> bool {
    let parts = split(s, '.');
    &&& parts.len() <= 2
    &&& forall|i: int| 0 <= i < parts.len() ==> all_digits(#[trigger] parts[i])
    &&& s.len() > parts.len() - 1
}

/// A decimal number, with an exponent after an `e` or without one.
pub open spec fn is_decimal(s: Seq<char>) -> bool {
    let mantissa = up_to(s, "eE"@);
    let exponent = without_sign(s.skip(mantissa.len() as int + 1));
    &&& is_mantissa(mantissa)
    &&& mantissa.len() < s.len() ==> exponent.len() > 0 && all_digits(exponent)
}

/// Whether two texts are the same but for the case of ASCII letters; the second
/// one is in lower case.
pub open spec fn is_word(s: Seq<char>, word: Seq<char>) -> bool {
    ascii_lowered(s) == word
}

/// Whether a text can be read as a floating-point number: a sign or none, then a
/// decimal number, an infinity or `nan`.
pub open spec fn is_number(s: Seq<char>) -> bool {
    let t = without_sign(s);
    is_decimal(t) || is_word(t, "inf"@) || is_word(t, "infinity"@) || is_word(t, "nan"@)
}

/// The text without commas.
pub open spec fn without_commas(s: Seq<char>) -> Seq<char>
    decreases s.len(),
{
    if s.len() == 0 {
        Seq::empty()
    } else if s.last() == ',' {
        without_commas(s.drop_last())
    } else {
        without_commas(s.drop_last()).push(s.last())
    }
}

/// Two to four capital letters.
pub open spec fn is_currency(s: Seq<char>) -> bool {
    2 <= s.len() <= 4 && forall|i: int| 0 <= i < s.len() ==> 'A' <= #[trigger] s[i] <= 'Z'
}

/// Whether a badge is a price: a number and a currency, such as `3 USD`.
pub open spec fn is_price(s: Seq<char>) -> bool {
    let parts = words(trimmed(s));
    parts.len() == 2 && is_number(without_commas(parts[0])) && is_currency(parts[1])
}

fn digits_only(s: &str) -> (r: bool)
    ensures
        r == all_digits(s@),
{
    let cs = chars_of(s);
    let mut i: usize = 0;
    while i < cs.len()
        invariant
            i <= cs@.len(),
            cs@ == s@,
            forall|k: int| 0 <= k < i ==> is_digit(#[trigger] s@[k]),
        decreases cs.len() - i,
    {
        if !('0' <= cs[i] && cs[i] <= '9') {
            assert(!is_digit(s@[i as int]));
            return false;
        }
        i += 1;
    }
    true
}

fn strip_sign(s: &str) -> (r: String)
    ensures
        r@ == without_sign(s@),
{
    let cs = chars_of(s);
    let len: usize = cs.len();
    if len > 0 && (cs[0] == '+' || cs[0] == '-') {
        let rest = text_of(&cs, 1, len);
        assert(rest@ =~= s@.drop_first());
        rest
    } else {
        s.to_owned()
    }
}

fn mantissa_ok(s: &str) -> (r: bool)
    ensures
        r == is_mantissa(s@),
{
    let parts = split_text(s, '.');
    let ghost all = texts(parts@);
    if parts.len() > 2 {
        return false;
    }
    let mut i: usize = 0;
    while i < parts.len()
        invariant
            i <= parts@.len(),
            all == texts(parts@),
            all == split(s@, '.'),
            forall|k: int| 0 <= k < i ==> all_digits(#[trigger] all[k]),
        decreases parts.len() - i,
    {
        assert(all[i as int] == parts@[i as int]@);
        if !digits_only(parts[i].as_str()) {
            return false;
        }
        i += 1;
    }
    let len: usize = chars_of(s).len();
    len >= parts.len()
}

fn decimal_ok(s: &str) -> (r: bool)
    ensures
        r == is_decimal(s@),
{
    let cs = chars_of(s);
    let len: usize = cs.len();
    let mantissa = prefix_up_to(s, "eE");
    let cut: usize = chars_of(mantissa.as_str()).len();
    if !mantissa_ok(mantissa.as_str()) {
        return false;
    }
    if cut >= len {
        return true;
    }
    let tail = text_of(&cs, cut + 1, len);
    assert(tail@ =~= s@.skip(cut + 1));
    let exponent = strip_sign(tail.as_str());
    !exponent.as_str().is_empty() && digits_only(exponent.as_str())
}

fn lower_char(c: char) -> (r: char)
    ensures
        r == ascii_lower(c),
{
    if 'A' <= c && c <= 'Z' {
        (c as u8 + 32) as char
    } else {
        c
    }
}

fn word_ok(s: &str, word: &str) -> (r: bool)
    ensures
        r == is_word(s@, word@),
{
    let cs = chars_of(s);
    let mut out = String::new();
    let mut i: usize = 0;
    while i < cs.len()
        invariant
            i <= cs@.len(),
            cs@ == s@,
            out@ == ascii_lowered(s@.take(i as int)),
        decreases cs.len() - i,
    {
        out.push(lower_char(cs[i]));
        i += 1;
        assert(out@ =~= ascii_lowered(s@.take(i as int)));
    }
    assert(s@.take(s@.len() as int) =~= s@);
    same(out.as_str(), word)
}

fn number_ok(s: &str) -> (r: bool)
    ensures
        r == is_number(s@),
{
    let t = strip_sign(s);
    decimal_ok(t.as_str()) || word_ok(t.as_str(), "inf") || word_ok(t.as_str(), "infinity")
        || word_ok(t.as_str(), "nan")
}

fn strip_commas(s: &str) -> (r: String)
    ensures
        r@ == without_commas(s@),
{
    let cs = chars_of(s);
    let mut out = String::new();
    let mut i: usize = 0;
    assert(out@ =~= without_commas(cs@.take(0)));
    while i < cs.len()
        invariant
            i <= cs@.len(),
            out@ == without_commas(cs@.take(i as int)),
        decreases cs.len() - i,
    {
        assert(cs@.take(i + 1).drop_last() =~= cs@.take(i as int));
        assert(cs@.take(i + 1).last() == cs@[i as int]);
        if cs[i] != ',' {
            out.push(cs[i]);
        }
        i += 1;
    }
    assert(cs@.take(cs@.len() as int) =~= s@);
    out
}

fn currency_ok(s: &str) -> (r: bool)
    ensures
        r == is_currency(s@),
{
    let cs = chars_of(s);
    if cs.len() < 2 || cs.len() > 4 {
        return false;
    }
    let mut i: usize = 0;
    while i < cs.len()
        invariant
            i <= cs@.len(),
            cs@ == s@,
            forall|k: int| 0 <= k < i ==> 'A' <= #[trigger] s@[k] <= 'Z',
        decreases cs.len() - i,
    {
        if !('A' <= cs[i] && cs[i] <= 'Z') {
            assert(!('A' <= s@[i as int] <= 'Z'));
            return false;
        }
        i += 1;
    }
    true
}

/// Whether a badge is a price, such as `3 USD` or `30 CNY`, and not something
/// like `29 days ago`, `2016` or `DR 30`.
pub fn is_price_badge(s: &str) -> (r: bool)
    ensures
        r == is_price(s@),
{
    let parts = split_words(trim(s).as_str());
    let ghost all = words(trimmed(s@));
    if parts.len() != 2 {
        assert(texts(parts@).len() == parts@.len());
        return false;
    }
    assert(all[0] == parts@[0]@ && all[1] == parts@[1]@);
    number_ok(strip_commas(parts[0].as_str()).as_str()) && currency_ok(parts[1].as_str())
}

proof fn lemma_digits_are_a_number(d: Seq<char>)
    requires
        d.len() > 0,
        all_digits(d),
    ensures
        is_number(d),
        without_commas(d) == d,
        spaceless(d),
    decreases d.len(),
{
    lemma_without_commas(d);
    assert(is_digit(d[0]));
    assert(without_sign(d) == d);
    reveal_strlit("eE");
    assert("eE"@ =~= seq!['e', 'E']);
    assert forall|i: int| 0 <= i < d.len() implies !"eE"@.contains(#[trigger] d[i]) by {
        assert(is_digit(d[i]));
    }
    let none = Seq::<char>::empty();
    lemma_up_to_append(d, none, "eE"@);
    assert(d + none =~= d);
    assert(d + up_to(none, "eE"@) =~= d);
    assert forall|i: int| 0 <= i < d.len() implies #[trigger] d[i] != '.' by {
        assert(is_digit(d[i]));
    }
    lemma_split_first(d, none, '.');
    assert(is_mantissa(d));
    assert forall|i: int| 0 <= i < d.len() implies !is_space(#[trigger] d[i]) by {
        assert(is_digit(d[i]));
    }
}

proof fn lemma_without_commas(d: Seq<char>)
    requires
        all_digits(d),
    ensures
        without_commas(d) == d,
    decreases d.len(),
{
    if d.len() > 0 {
        let front = d.drop_last();
        assert forall|i: int| 0 <= i < front.len() implies is_digit(#[trigger] front[i]) by {
            assert(front[i] == d[i]);
        }
        lemma_without_commas(front);
        assert(is_digit(d[d.len() - 1]));
        assert(front.push(d.last()) =~= d);
    }
}

/// A number in digits and two to four capital letters are a price.
pub proof fn law_prices(number: Seq<char>, currency: Seq<char>)
    requires
        number.len() > 0,
        all_digits(number),
        2 <= currency.len() <= 4,
        forall|i: int| 0 <= i < currency.len() ==> 'A' <= #[trigger] currency[i] <= 'Z',
    ensures
        is_price(number + seq![' '] + currency),
{
    let s = number + seq![' '] + currency;
    lemma_digits_are_a_number(number);
    assert forall|i: int| 0 <= i < currency.len() implies !is_space(#[trigger] currency[i]) by {
        assert('A' <= currency[i] <= 'Z');
    }
    law_two_words(number, currency);
    assert(s[0] == number[0] && s.last() == currency[currency.len() - 1]);
    assert(!is_space(number[0]) && !is_space(currency[currency.len() - 1]));
    lemma_trimmed(s);
}

/// What is a price is two words: a number, commas aside, and two to four capital
/// letters.
pub proof fn law_what_is_no_price(s: Seq<char>)
    ensures
        is_price(s) ==> {
            let parts = words(trimmed(s));
            &&& parts.len() == 2
            &&& 2 <= parts[1].len() <= 4
            &&& forall|i: int| 0 <= i < parts[1].len() ==> 'A' <= #[trigger] parts[1][i] <= 'Z'
            &&& is_number(without_commas(parts[0]))
        },
{
}

// ---------------------------------------------------------------------------
// Scripts
// ---------------------------------------------------------------------------

/// The script that waits for the place where the name is typed in.
pub const WAIT_SCRIPT: &'static str = r#"(async () => {
  const sleep = (ms) => new Promise((r) => setTimeout(r, ms));
  const deadline = Date.now() + 10000;
  while (Date.now() < deadline) {
    if (document.querySelector('input.bc-input__input')) return { ready: true };
    await sleep(200);
  }
  return { ready: false };
})()"#;

/// The script that reads the rows: what stands before the name.
pub const EXTRACT_SCRIPT_HEAD: &'static str = r#"(async () => {
  const sleep = (ms) => new Promise((r) => setTimeout(r, ms));
  const deadline = Date.now() + 20000;
  const kw = "#;

/// What stands between the name and the number of rows that are expected.
pub const EXTRACT_SCRIPT_MIDDLE: &'static str = r#";
  const want = "#;

/// What stands after that number.
pub const EXTRACT_SCRIPT_TAIL: &'static str = r#";
  const read = () => Array.from(document.querySelectorAll('div.group.relative'))
    .filter((r) => {
      const d = r.querySelector('.font-medium');
      const t = (d && (d.title || d.textContent)) || '';
      return t.toLowerCase().startsWith(kw + '.');
    })
    .map((r) => {
      const d = r.querySelector('.font-medium');
      const dot = r.querySelector('.w-2.h-2.rounded-full');
      const cls = dot ? (dot.className || '') : '';
      let status = 'unavailable';
      if (cls.includes('green')) status = 'available';
      else if (cls.includes('amber') || cls.includes('yellow')) status = 'uncertain';
      const badgeBox = r.querySelector('div.flex.items-center.gap-1.flex-shrink-0');
      const spans = badgeBox
        ? Array.from(badgeBox.querySelectorAll('span'))
        : Array.from(r.querySelectorAll('span')).filter((s) => !s.closest('.font-medium'));
      const badges = spans
        .map((s) => (s.textContent || '').trim())
        .filter((t) => t.length > 0 && !t.includes('Domain Rating'));
      return {
        domain: (d && (d.title || d.textContent.trim())) || r.textContent.trim().split(/\\s+/)[0],
        status,
        badges: [...new Set(badges)],
      };
    });
  let rows = [];
  let lastSig = '';
  let stableSince = 0;
  while (Date.now() < deadline) {
    rows = read();
    const sig = rows.map((r) => r.status + '|' + r.badges.join(',')).join(';');
    const done = rows.length >= want && rows.every((r) => r.badges.length > 0 && r.status !== 'uncertain');
    if (done) break;
    if (sig !== lastSig) {
      lastSig = sig;
      stableSince = Date.now();
    } else if (rows.length > 0 && Date.now() - stableSince > 3000) {
      break;
    }
    await sleep(300);
  }
  return {
    rows,
    complete: rows.length >= want && rows.every((r) => r.badges.length > 0 && r.status !== 'uncertain'),
  };
})()"#;

/// The script that reads the rows of a name, with the name as a string literal in
/// it.
pub open spec fn extract_script_text(query: Seq<char>, expected: nat) -> Seq<char> {
    EXTRACT_SCRIPT_HEAD@ + quoted(query) + EXTRACT_SCRIPT_MIDDLE@ + decimal(expected)
        + EXTRACT_SCRIPT_TAIL@
}

/// The script that reads the rows of a name.
pub fn extract_script(query: &str, expected: usize) -> (r: String)
    ensures
        r@ == extract_script_text(query@, expected as nat),
{
    let mut script = EXTRACT_SCRIPT_HEAD.to_owned();
    script.append(Json::text(query).to_text().as_str());
    script.append(EXTRACT_SCRIPT_MIDDLE);
    script.append(decimal_text(expected as u64).as_str());
    script.append(EXTRACT_SCRIPT_TAIL);
    script
}

// ---------------------------------------------------------------------------
// Rows
// ---------------------------------------------------------------------------

/// The first badge that is a price; `null` where none is.
pub open spec fn first_price(badges: Seq<JsonView>) -> JsonView
    decreases badges.len(),
{
    if badges.len() == 0 {
        JsonView::Null
    } else {
        match badges[0] {
            JsonView::Text(s) => if is_price(s) {
                badges[0]
            } else {
                first_price(badges.drop_first())
            },
            _ => first_price(badges.drop_first()),
        }
    }
}

/// The price among the badges of a row.
pub open spec fn row_price(badges: JsonView) -> JsonView {
    match badges {
        JsonView::Array(items) => first_price(items),
        _ => JsonView::Null,
    }
}

/// The state of a domain: what is neither available nor uncertain is unavailable.
pub open spec fn row_status(row: JsonView) -> Seq<char> {
    if text_field(row, "status"@) == Some("available"@) {
        "available"@
    } else if text_field(row, "status"@) == Some("uncertain"@) {
        "uncertain"@
    } else {
        "unavailable"@
    }
}

/// What follows the first dot of a domain.
pub open spec fn domain_suffix(domain: JsonView) -> Seq<char> {
    match domain {
        JsonView::Text(d) => match tail_after(d, "."@) {
            Some(suffix) => suffix,
            None => ""@,
        },
        _ => ""@,
    }
}

/// What is made of a row.
pub open spec fn domain_view(row: JsonView) -> JsonView {
    let domain = field_or_null(row, "domain"@);
    let badges = field_or_list(row, "badges"@);
    JsonView::Object(
        Map::empty().insert("domain"@, domain).insert(
            "tld"@,
            JsonView::Text(domain_suffix(domain)),
        ).insert("status"@, JsonView::Text(row_status(row))).insert(
            "available"@,
            JsonView::Bool(row_status(row) == "available"@),
        ).insert("price"@, row_price(badges)).insert("badges"@, badges),
    )
}

fn price_of(badges: &Json) -> (r: Json)
    ensures
        r@ == row_price(badges@),
{
    match badges.as_array() {
        Some(items) => {
            let ghost all = views(items@);
            let mut i: usize = 0;
            assert(all.skip(0) =~= all);
            while i < items.len()
                invariant
                    i <= items@.len(),
                    all == views(items@),
                    badges@ == JsonView::Array(all),
                    first_price(all) == first_price(all.skip(i as int)),
                decreases items.len() - i,
            {
                assert(all.skip(i as int)[0] == items@[i as int]@);
                assert(all.skip(i as int).drop_first() =~= all.skip(i + 1));
                let found = match items[i].as_str() {
                    Some(s) => is_price_badge(s),
                    None => false,
                };
                if found {
                    return items[i].clone();
                }
                i += 1;
            }
            Json::Null
        },
        None => Json::Null,
    }
}

fn suffix_of(domain: &Json) -> (r: String)
    ensures
        r@ == domain_suffix(domain@),
{
    match domain.as_str() {
        Some(d) => match after(d, ".") {
            Some(suffix) => suffix,
            None => "".to_owned(),
        },
        None => "".to_owned(),
    }
}

fn status_of(row: &Json) -> (r: &'static str)
    ensures
        r@ == row_status(row@),
{
    match row.get_str("status") {
        Some(s) => if same(s, "available") {
            "available"
        } else if same(s, "uncertain") {
            "uncertain"
        } else {
            "unavailable"
        },
        None => "unavailable",
    }
}

fn domain_row(row: &Json) -> (r: Json)
    ensures
        r@ == domain_view(row@),
{
    let domain = row.get_or_null("domain");
    let badges = get_or_list(row, "badges");
    let status = status_of(row);
    let suffix = suffix_of(&domain);
    let price = price_of(&badges);
    let mut entries: Vec<(String, Json)> = Vec::new();
    put(&mut entries, "domain", domain);
    put(&mut entries, "tld", Json::Text(suffix));
    put(&mut entries, "status", Json::text(status));
    put(&mut entries, "available", Json::Bool(same(status, "available")));
    put(&mut entries, "price", price);
    put(&mut entries, "badges", badges);
    Json::Object(entries)
}

fn domain_rows(rows: &Vec<Json>) -> (r: Vec<Json>)
    ensures
        views(r@) == views(rows@).map_values(|row: JsonView| domain_view(row)),
{
    let mut out: Vec<Json> = Vec::new();
    let mut i: usize = 0;
    while i < rows.len()
        invariant
            i <= rows@.len(),
            out@.len() == i,
            forall|k: int| 0 <= k < i ==> (#[trigger] out@[k])@ == domain_view(rows@[k]@),
        decreases rows.len() - i,
    {
        out.push(domain_row(&rows[i]));
        i += 1;
    }
    assert(views(out@) =~= views(rows@).map_values(|row: JsonView| domain_view(row)));
    out
}

/// A price is one of the badges of its row, and the first of them that is a
/// price; there is none exactly where no badge is a price.
pub proof fn law_price_is_first_price(badges: Seq<JsonView>)
    ensures
        match first_price(badges) {
            JsonView::Text(s) => is_price(s) && exists|i: int|
                0 <= i < badges.len() && #[trigger] badges[i] == JsonView::Text(s) && forall|j: int|
                    0 <= j < i ==> (#[trigger] badges[j] matches JsonView::Text(t) ==> !is_price(t)),
            v => v == JsonView::Null && forall|j: int|
                0 <= j < badges.len() ==> (#[trigger] badges[j] matches JsonView::Text(t)
                    ==> !is_price(t)),
        },
    decreases badges.len(),
{
    if badges.len() > 0 {
        let rest = badges.drop_first();
        law_price_is_first_price(rest);
        let here = badges[0] matches JsonView::Text(t) && is_price(t);
        assert forall|j: int| 0 <= j < badges.len() && j > 0 implies #[trigger] badges[j] == rest[j
            - 1] by {}
        if here {
            assert(badges[0] == first_price(badges));
        } else {
            assert(first_price(badges) == first_price(rest));
            match first_price(rest) {
                JsonView::Text(s) => {
                    let k = choose|i: int|
                        0 <= i < rest.len() && #[trigger] rest[i] == JsonView::Text(s) && forall|j: int|
                            0 <= j < i ==> (#[trigger] rest[j] matches JsonView::Text(t)
                                ==> !is_price(t));
                    assert(badges[k + 1] == JsonView::Text(s));
                    assert forall|j: int| 0 <= j < k + 1 implies (#[trigger] badges[j] matches JsonView::Text(
                        t,
                    ) ==> !is_price(t)) by {
                        if j > 0 {
                            assert(badges[j] == rest[j - 1]);
                        }
                    }
                },
                _ => {
                    assert forall|j: int| 0 <= j < badges.len() implies (#[trigger] badges[j] matches JsonView::Text(
                        t,
                    ) ==> !is_price(t)) by {
                        if j > 0 {
                            assert(badges[j] == rest[j - 1]);
                        }
                    }
                },
            }
        }
    }
}

/// Whether a suffix is what stands behind the first dot of a domain; it is empty where
/// there is no dot.
pub open spec fn is_suffix_of(suffix: Seq<char>, domain: Seq<char>) -> bool {
    if domain.contains('.') {
        exists|name: Seq<char>|
            domain == #[trigger] (name + seq!['.'] + suffix) && !name.contains('.')
    } else {
        suffix.len() == 0
    }
}

/// What is returned of a row: its domain and its badges as they are, the suffix behind
/// the first dot of the domain, its state, whether that is `available`, and the first
/// badge that is a price.
pub proof fn law_domain_of_a_row(row: JsonView)
    ensures
        ({
            let out = domain_view(row);
            let stated = match field(row, "status"@) {
                Some(JsonView::Text(t)) => t,
                _ => ""@,
            };
            &&& carries(out, row, "domain"@)
            &&& field(out, "badges"@) == Some(
                match field(row, "badges"@) {
                    Some(v) => v,
                    None => JsonView::Array(Seq::empty()),
                },
            )
            &&& field(out, "status"@) == Some(
                JsonView::Text(
                    if stated == "available"@ {
                        "available"@
                    } else if stated == "uncertain"@ {
                        "uncertain"@
                    } else {
                        "unavailable"@
                    },
                ),
            )
            &&& field(out, "available"@) == Some(JsonView::Bool(stated == "available"@))
            &&& field(out, "price"@) == Some(
                match field(row, "badges"@) {
                    Some(JsonView::Array(badges)) => first_price(badges),
                    _ => JsonView::Null,
                },
            )
            &&& field(out, "tld"@) matches Some(JsonView::Text(suffix)) && match field(
                row,
                "domain"@,
            ) {
                Some(JsonView::Text(d)) => is_suffix_of(suffix, d),
                _ => suffix.len() == 0,
            }
            &&& forall|name: Seq<char>| #[trigger]
                field(out, name) is Some ==> name == "domain"@ || name == "tld"@ || name == "status"@
                    || name == "available"@ || name == "price"@ || name == "badges"@
        }),
{
    lemma_result_names();
    reveal_strlit("");
    reveal_strlit("available");
    reveal_strlit("uncertain");
    reveal_strlit("unavailable");
    assert(""@.len() == 0 && "available"@.len() == 9 && "uncertain"@.len() == 9
        && "unavailable"@.len() == 11);
    assert("available"@[0] == 'a' && "uncertain"@[0] == 'u');
    if let Some(JsonView::Text(d)) = field(row, "domain"@) {
        lemma_domain_suffix(d);
    }
}

proof fn lemma_domain_suffix(d: Seq<char>)
    ensures
        is_suffix_of(domain_suffix(JsonView::Text(d)), d),
{
    reveal_strlit("");
    reveal_strlit(".");
    assert("."@ =~= seq!['.']);
    if d.contains('.') {
        let at = d.index_of_first('.')->0;
        d.index_of_first_ensures('.');
        assert(d.subrange(at, at + 1) =~= "."@);
        assert forall|j: int| 0 <= j < at implies !#[trigger] occurs_at(d, "."@, j) by {
            if occurs_at(d, "."@, j) {
                assert(d.subrange(j, j + 1)[0] == d[j]);
            }
        }
        lemma_tail_after(d, "."@, at);
        let name = d.take(at);
        let suffix = domain_suffix(JsonView::Text(d));
        assert(suffix == d.skip(at + 1));
        assert(d =~= name + seq!['.'] + suffix);
        assert(!name.contains('.')) by {
            if name.contains('.') {
                let i = name.index_of('.');
                assert(d[i] == '.');
            }
        }
    } else {
        assert forall|j: int| !#[trigger] occurs_at(d, "."@, j) by {
            if occurs_at(d, "."@, j) {
                assert(d.subrange(j, j + 1)[0] == d[j]);
                assert(d.contains(d[j]));
            }
        }
    }
}

// ---------------------------------------------------------------------------
// The recipe
// ---------------------------------------------------------------------------

/// How far a query is.
#[derive(Debug, Clone, Copy, PartialEq, Eq, Structural)]
pub enum Stage {
    /// The page is being opened.
    Opening,
    /// The place where the name is typed in is waited for.
    Waiting,
    /// The editor of suffixes is being opened.
    Customising,
    /// The suffixes are being set.
    Editing,
    /// The suffixes are being confirmed.
    Confirming,
    /// The name is being typed in.
    Typing,
    /// The query is being started.
    Submitting,
    /// The rows are being read.
    Extracting,
}

/// A query for the domains of a name.
#[derive(Debug)]
pub struct QueryDomains {
    query: String,
    tlds: Vec<String>,
    stage: Stage,
    tab_id: Json,
}

/// The mathematical form of a query.
pub struct QueryDomainsView {
    pub query: Seq<char>,
    pub tlds: Seq<Seq<char>>,
    pub stage: Stage,
    pub tab_id: JsonView,
}

impl View for QueryDomains {
    type V = QueryDomainsView;

    closed spec fn view(&self) -> QueryDomainsView {
        QueryDomainsView {
            query: self.query@,
            tlds: texts(self.tlds@),
            stage: self.stage,
            tab_id: self.tab_id@,
        }
    }
}

/// How a query for a name with some suffixes begins. It needs a name, and between
/// one and twenty suffixes.
pub open spec fn query_outcome(query: Seq<char>, wanted: Seq<Seq<char>>, tab: Option<i32>) -> ProgressView<
    QueryDomainsView,
> {
    let name = trimmed(query);
    if name.len() == 0 {
        ProgressView::Done(Err("querydomains: 关键词不能为空"@))
    } else if wanted.len() == 0 {
        ProgressView::Done(Err("querydomains: TLD 列表为空"@))
    } else if wanted.len() > 20 {
        ProgressView::Done(Err("querydomains: 一次最多检查 20 个 TLD"@))
    } else {
        ProgressView::Ask(
            QueryDomainsView {
                query: name,
                tlds: wanted,
                stage: Stage::Opening,
                tab_id: JsonView::Null,
            },
            navigate_view("qd1"@, HOME@, tab),
        )
    }
}

/// How a query begins, with the suffixes as they are given.
pub open spec fn querydomains_start(
    query: Seq<char>,
    tlds: Seq<Seq<char>>,
    tab: Option<i32>,
) -> ProgressView<QueryDomainsView> {
    query_outcome(query, wanted_suffixes(tlds), tab)
}

/// A command on an element of the tab.
pub open spec fn element_view(
    id: Seq<char>,
    method: Seq<char>,
    target: JsonView,
    tab_id: JsonView,
) -> CallView {
    CallView {
        id,
        method,
        params: JsonView::Object(
            Map::empty().insert("target"@, target).insert("tab_id"@, tab_id),
        ),
    }
}

/// A command that puts a value into an element of the tab.
pub open spec fn set_value_view(
    id: Seq<char>,
    selector: Seq<char>,
    value: Seq<char>,
    tab_id: JsonView,
) -> CallView {
    CallView {
        id,
        method: "set_value"@,
        params: JsonView::Object(
            Map::empty().insert("target"@, locator_view("css"@, selector, None)).insert(
                "value"@,
                JsonView::Text(value),
            ).insert("tab_id"@, tab_id),
        ),
    }
}

/// The command that presses the Enter key where the name is typed in.
pub open spec fn submit_view(tab_id: JsonView) -> CallView {
    CallView {
        id: "qd6"@,
        method: "press_key"@,
        params: JsonView::Object(
            Map::empty().insert("key"@, JsonView::Text("Enter"@)).insert(
                "target"@,
                locator_view("css"@, KEYWORD_INPUT@, None),
            ).insert("tab_id"@, tab_id),
        ),
    }
}

/// What is made of the rows.
pub open spec fn domains_outcome(state: QueryDomainsView, resp: JsonView) -> JsonView {
    let data = field_or_null(resp, "result"@);
    JsonView::Object(
        Map::empty().insert("tab_id"@, state.tab_id).insert(
            "query"@,
            JsonView::Text(state.query),
        ).insert("tlds"@, texts_view(state.tlds)).insert(
            "complete"@,
            JsonView::Bool(bool_field(data, "complete"@) == Some(true)),
        ).insert(
            "results"@,
            JsonView::Array(
                items_field(data, "rows"@).map_values(|row: JsonView| domain_view(row)),
            ),
        ),
    )
}

/// The typing in of the name.
pub open spec fn enter_name(state: QueryDomainsView) -> ProgressView<QueryDomainsView> {
    ProgressView::Ask(
        QueryDomainsView { stage: Stage::Typing, ..state },
        set_value_view("qd5"@, KEYWORD_INPUT@, state.query, state.tab_id),
    )
}

/// How a query goes on after each command. The suffixes are set only where they
/// are not those of the page.
pub open spec fn querydomains_next(
    state: QueryDomainsView,
    reply: Result<JsonView, Seq<char>>,
) -> ProgressView<QueryDomainsView> {
    let tab_id = state.tab_id;
    match (state.stage, reply) {
        (_, Err(e)) => ProgressView::Done(Err(e)),
        (Stage::Opening, Ok(nav)) => {
            let tab_id = field_or_null(nav, "tab_id"@);
            ProgressView::Ask(
                QueryDomainsView { stage: Stage::Waiting, tab_id, ..state },
                script_view("qdw"@, WAIT_SCRIPT@, tab_id),
            )
        },
        (Stage::Waiting, Ok(resp)) => if bool_field(field_or_null(resp, "result"@), "ready"@)
            != Some(true) {
            ProgressView::Done(Err("querydomains: 首页关键词输入框未就绪"@))
        } else if state.tlds == default_suffixes() {
            enter_name(state)
        } else {
            ProgressView::Ask(
                QueryDomainsView { stage: Stage::Customising, ..state },
                element_view("qd2"@, "click"@, locator_view("css"@, TLD_TRIGGER@, None), tab_id),
            )
        },
        (Stage::Customising, Ok(_)) => ProgressView::Ask(
            QueryDomainsView { stage: Stage::Editing, ..state },
            set_value_view("qd3"@, TLD_TEXTAREA@, join(state.tlds, seq!['\n']), tab_id),
        ),
        (Stage::Editing, Ok(_)) => ProgressView::Ask(
            QueryDomainsView { stage: Stage::Confirming, ..state },
            element_view("qd4"@, "click"@, locator_view("text"@, "Confirm"@, None), tab_id),
        ),
        (Stage::Confirming, Ok(_)) => enter_name(state),
        (Stage::Typing, Ok(_)) => ProgressView::Ask(
            QueryDomainsView { stage: Stage::Submitting, ..state },
            submit_view(tab_id),
        ),
        (Stage::Submitting, Ok(_)) => ProgressView::Ask(
            QueryDomainsView { stage: Stage::Extracting, ..state },
            script_view("qd7"@, extract_script_text(state.query, state.tlds.len()), tab_id),
        ),
        (Stage::Extracting, Ok(resp)) => ProgressView::Done(Ok(domains_outcome(state, resp))),
    }
}

/// Begins a query with suffixes that are in their final form.
pub fn begin_query(query: &str, wanted: Vec<String>, tab: Option<i32>) -> (r: Progress<QueryDomains>)
    ensures
        r@ == query_outcome(query@, texts(wanted@), tab),
{
    let name = trim(query);
    if name.as_str().is_empty() {
        return Progress::Done(Err("querydomains: 关键词不能为空".to_owned()));
    }
    assert(texts(wanted@).len() == wanted@.len());
    if wanted.len() == 0 {
        return Progress::Done(Err("querydomains: TLD 列表为空".to_owned()));
    }
    if wanted.len() > 20 {
        return Progress::Done(Err("querydomains: 一次最多检查 20 个 TLD".to_owned()));
    }
    let state = QueryDomains {
        query: name,
        tlds: wanted,
        stage: Stage::Opening,
        tab_id: Json::Null,
    };
    Progress::Ask(state, navigate_call("qd1", HOME, tab))
}

/// Begins a query. Its outcome holds the tab, the name, the suffixes, whether all
/// rows came in, and the state and the price of each domain. Suffixes in ASCII are
/// asked for with their capital letters made small.
pub fn querydomains(query: &str, tlds: &Vec<String>, tab: Option<i32>) -> (r: Progress<QueryDomains>)
    ensures
        r@ == querydomains_start(query@, texts(tlds@), tab),
        lowers_ascii(texts(tlds@)),
{
    let wanted = if tlds.len() == 0 {
        default_tlds()
    } else {
        suffixes(tlds)
    };
    begin_query(query, wanted, tab)
}

fn click_call(id: &'static str, target: Json, tab_id: Json) -> (r: Call)
    ensures
        r@ == element_view(id@, "click"@, target@, tab_id@),
{
    let mut entries: Vec<(String, Json)> = Vec::new();
    put(&mut entries, "target", target);
    put(&mut entries, "tab_id", tab_id);
    Call { id, method: "click", params: Json::Object(entries) }
}

fn set_value_call(id: &'static str, selector: &str, value: &str, tab_id: Json) -> (r: Call)
    ensures
        r@ == set_value_view(id@, selector@, value@, tab_id@),
{
    let mut entries: Vec<(String, Json)> = Vec::new();
    put(&mut entries, "target", locator("css", selector, None));
    put(&mut entries, "value", Json::text(value));
    put(&mut entries, "tab_id", tab_id);
    Call { id, method: "set_value", params: Json::Object(entries) }
}

fn submit_call(tab_id: Json) -> (r: Call)
    ensures
        r@ == submit_view(tab_id@),
{
    let mut entries: Vec<(String, Json)> = Vec::new();
    put(&mut entries, "key", Json::text("Enter"));
    put(&mut entries, "target", locator("css", KEYWORD_INPUT, None));
    put(&mut entries, "tab_id", tab_id);
    Call { id: "qd6", method: "press_key", params: Json::Object(entries) }
}

/// Whether the page has said that the name can be typed in.
fn is_ready(resp: &Json) -> (r: bool)
    ensures
        r == (bool_field(field_or_null(resp@, "result"@), "ready"@) == Some(true)),
{
    match resp.get_or_null("result").get_bool("ready") {
        Some(b) => b,
        None => false,
    }
}

fn newline() -> (r: String)
    ensures
        r@ == seq!['\n'],
{
    let mut s = String::new();
    s.push('\n');
    assert(s@ =~= seq!['\n']);
    s
}

impl QueryDomains {
    fn at(self, stage: Stage) -> (r: QueryDomains)
        ensures
            r@ == (QueryDomainsView { stage, ..self@ }),
    {
        QueryDomains { query: self.query, tlds: self.tlds, stage, tab_id: self.tab_id }
    }

    fn typing(self) -> (r: Progress<QueryDomains>)
        ensures
            r@ == enter_name(self@),
    {
        let call = set_value_call("qd5", KEYWORD_INPUT, self.query.as_str(), self.tab_id.clone());
        Progress::Ask(self.at(Stage::Typing), call)
    }

    fn finish(self, resp: Json) -> (r: Json)
        ensures
            r@ == domains_outcome(self@, resp@),
    {
        let data = resp.get_or_null("result");
        let rows = data.get_items("rows");
        let complete = match data.get_bool("complete") {
            Some(b) => b,
            None => false,
        };
        let mut entries: Vec<(String, Json)> = Vec::new();
        let list = Json::text_array(&self.tlds);
        put(&mut entries, "tab_id", self.tab_id);
        put(&mut entries, "query", Json::Text(self.query));
        put(&mut entries, "tlds", list);
        put(&mut entries, "complete", Json::Bool(complete));
        put(&mut entries, "results", Json::array(domain_rows(&rows)));
        Json::Object(entries)
    }

    /// Goes on with what the last command brought.
    pub fn step(self, reply: Result<Json, String>) -> (r: Progress<QueryDomains>)
        ensures
            r@ == querydomains_next(self@, outcome_view(reply)),
    {
        let value = match reply {
            Ok(value) => value,
            Err(e) => {
                return Progress::Done(Err(e));
            },
        };
        match self.stage {
            Stage::Opening => {
                let tab_id = value.get_or_null("tab_id");
                let call = script_call("qdw", WAIT_SCRIPT, tab_id.clone());
                let next = QueryDomains {
                    query: self.query,
                    tlds: self.tlds,
                    stage: Stage::Waiting,
                    tab_id,
                };
                Progress::Ask(next, call)
            },
            Stage::Waiting => {
                if !is_ready(&value) {
                    return Progress::Done(
                        Err("querydomains: 首页关键词输入框未就绪".to_owned()),
                    );
                }
                if same_list(&self.tlds, &default_tlds()) {
                    return self.typing();
                }
                let call = click_call(
                    "qd2",
                    locator("css", TLD_TRIGGER, None),
                    self.tab_id.clone(),
                );
                Progress::Ask(self.at(Stage::Customising), call)
            },
            Stage::Customising => {
                let lines = join_texts(&self.tlds, newline().as_str());
                let call = set_value_call("qd3", TLD_TEXTAREA, lines.as_str(), self.tab_id.clone());
                Progress::Ask(self.at(Stage::Editing), call)
            },
            Stage::Editing => {
                let call = click_call("qd4", locator("text", "Confirm", None), self.tab_id.clone());
                Progress::Ask(self.at(Stage::Confirming), call)
            },
            Stage::Confirming => self.typing(),
            Stage::Typing => {
                let call = submit_call(self.tab_id.clone());
                Progress::Ask(self.at(Stage::Submitting), call)
            },
            Stage::Submitting => {
                let script = extract_script(self.query.as_str(), self.tlds.len());
                let call = script_call("qd7", script.as_str(), self.tab_id.clone());
                assert(texts(self.tlds@).len() == self.tlds@.len());
                Progress::Ask(self.at(Stage::Extracting), call)
            },
            Stage::Extracting => Progress::Done(Ok(self.finish(value))),
        }
    }
}

/// A query that is begun has a name and between one and twenty suffixes, none of
/// them empty, and keeps them to the end.
pub proof fn law_query_is_sound(
    query: Seq<char>,
    tlds: Seq<Seq<char>>,
    tab: Option<i32>,
    state: QueryDomainsView,
    reply: Result<JsonView, Seq<char>>,
)
    ensures
        querydomains_start(query, tlds, tab) matches ProgressView::Ask(begun, call) ==> {
            &&& begun.query.len() > 0
            &&& 1 <= begun.tlds.len() <= 20
            &&& forall|i: int| 0 <= i < begun.tlds.len() ==> #[trigger] begun.tlds[i].len() > 0
        },
        querydomains_next(state, reply) matches ProgressView::Ask(next, call) ==> {
            &&& next.query == state.query
            &&& next.tlds == state.tlds
        },
{
    lemma_suffixes_filled(tlds);
    lemma_default_filled();
}

/// The place of a stage in a query.
pub open spec fn stage_number(stage: Stage) -> int {
    match stage {
        Stage::Opening => 0,
        Stage::Waiting => 1,
        Stage::Customising => 2,
        Stage::Editing => 3,
        Stage::Confirming => 4,
        Stage::Typing => 5,
        Stage::Submitting => 6,
        Stage::Extracting => 7,
    }
}

/// A query ends: every command brings it to a later stage. The suffixes are
/// touched only where they are not those of the page.
pub proof fn law_query_ends(state: QueryDomainsView, reply: Result<JsonView, Seq<char>>)
    ensures
        querydomains_next(state, reply) matches ProgressView::Ask(next, call) ==> {
            &&& stage_number(state.stage) < stage_number(next.stage) <= 7
            &&& next.stage is Customising ==> state.tlds != default_suffixes()
        },
{
}

proof fn lemma_suffixes_filled(given: Seq<Seq<char>>)
    ensures
        forall|i: int|
            0 <= i < suffix_texts(given).len() ==> #[trigger] suffix_texts(given)[i].len() > 0,
    decreases given.len(),
{
    if given.len() > 0 {
        let before = suffix_texts(given.drop_last());
        let now = suffix_texts(given);
        lemma_suffixes_filled(given.drop_last());
        assert forall|i: int| 0 <= i < now.len() implies #[trigger] now[i].len() > 0 by {
            if i < before.len() {
                assert(now[i] == before[i]);
            }
        }
    }
}

proof fn lemma_default_filled()
    ensures
        forall|i: int|
            0 <= i < default_suffixes().len() ==> #[trigger] default_suffixes()[i].len() > 0,
{
    reveal_strlit("com");
    reveal_strlit("ai");
    reveal_strlit("org");
    reveal_strlit("net");
    reveal_strlit("cn");
    reveal_strlit("info");
    reveal_strlit("app");
    reveal_strlit("io");
    reveal_strlit("xyz");
    reveal_strlit("co");
    reveal_strlit("run");
    reveal_strlit("me");
    reveal_strlit("pro");
    reveal_strlit("top");
}

// ---------------------------------------------------------------------------
// The whole course of a query
// ---------------------------------------------------------------------------

/// A query begins with opening the page, in the tab that was given, unless there is
/// no name or there are no suffixes or more than twenty.
pub proof fn law_query_begins(query: Seq<char>, given: Seq<Seq<char>>, tab: Option<i32>)
    ensures
        ({
            let wanted = wanted_suffixes(given);
            let begun = querydomains_start(query, given, tab);
            if all_space(query) {
                begun == ProgressView::<QueryDomainsView>::Done(
                    Err("querydomains: 关键词不能为空"@),
                )
            } else if wanted.len() == 0 {
                begun == ProgressView::<QueryDomainsView>::Done(
                    Err("querydomains: TLD 列表为空"@),
                )
            } else if wanted.len() > 20 {
                begun == ProgressView::<QueryDomainsView>::Done(
                    Err("querydomains: 一次最多检查 20 个 TLD"@),
                )
            } else {
                begun matches ProgressView::Ask(_, call) && {
                    &&& call.method == "navigate"@
                    &&& bears_text(call, "url"@, "https://query.domains/zh-hans"@)
                    &&& in_tab(call, tab)
                    &&& bears_only(call, set!["url"@, "tab_id"@])
                }
            }
        }),
{
    lemma_param_names();
    law_trimming(query);
}

/// How far a query is after `n` replies.
pub open spec fn query_after(
    query: Seq<char>,
    given: Seq<Seq<char>>,
    tab: Option<i32>,
    replies: Seq<Result<JsonView, Seq<char>>>,
    n: nat,
) -> ProgressView<QueryDomainsView>
    decreases n,
{
    if n == 0 {
        querydomains_start(query, given, tab)
    } else {
        match query_after(query, given, tab, replies, (n - 1) as nat) {
            ProgressView::Ask(state, _) => querydomains_next(state, replies[n - 1]),
            ProgressView::Done(outcome) => ProgressView::Done(outcome),
        }
    }
}

/// Whether a command puts a value into the element of the tab that a CSS selector
/// finds.
pub open spec fn puts(
    call: CallView,
    selector: Seq<char>,
    value: Seq<char>,
    nav: JsonView,
) -> bool {
    &&& call.method == "set_value"@
    &&& field(call.params, "target"@) matches Some(target) && locates(
        target,
        "css"@,
        selector,
        None,
    )
    &&& bears_text(call, "value"@, value)
    &&& carries(call.params, nav, "tab_id"@)
    &&& bears_only(call, set!["target"@, "value"@, "tab_id"@])
}

/// Whether a command clicks on an element of the tab.
pub open spec fn clicks(call: CallView, by: Seq<char>, value: Seq<char>, nav: JsonView) -> bool {
    &&& call.method == "click"@
    &&& field(call.params, "target"@) matches Some(target) && locates(target, by, value, None)
    &&& carries(call.params, nav, "tab_id"@)
    &&& bears_only(call, set!["target"@, "tab_id"@])
}

/// Whether a command presses Enter where the name is typed in.
pub open spec fn submits(call: CallView, nav: JsonView) -> bool {
    &&& call.method == "press_key"@
    &&& bears_text(call, "key"@, "Enter"@)
    &&& field(call.params, "target"@) matches Some(target) && locates(
        target,
        "css"@,
        "input.bc-input__input"@,
        None,
    )
    &&& carries(call.params, nav, "tab_id"@)
    &&& bears_only(call, set!["key"@, "target"@, "tab_id"@])
}

/// Whether a command is number `n` of a query, from the second one on, which runs in
/// the tab that the browser has named. With suffixes of its own, the query opens the
/// editor of suffixes, puts them into it, one on each line, and confirms them before
/// the name is typed in.
pub open spec fn is_query_command(
    call: CallView,
    n: int,
    own_suffixes: bool,
    name: Seq<char>,
    wanted: Seq<Seq<char>>,
    nav: JsonView,
) -> bool {
    let typed = if own_suffixes {
        5
    } else {
        2int
    };
    if n == 1 {
        runs(call, WAIT_SCRIPT@, nav)
    } else if own_suffixes && n == 2 {
        clicks(call, "css"@, "div.flex.items-center.gap-3.mr-3 span.cursor-pointer"@, nav)
    } else if own_suffixes && n == 3 {
        puts(call, "textarea.bc-textarea__input"@, join(wanted, seq!['\n']), nav)
    } else if own_suffixes && n == 4 {
        clicks(call, "text"@, "Confirm"@, nav)
    } else if n == typed {
        puts(call, "input.bc-input__input"@, name, nav)
    } else if n == typed + 1 {
        submits(call, nav)
    } else {
        n == typed + 2 && runs(
            call,
            EXTRACT_SCRIPT_HEAD@ + quoted(name) + EXTRACT_SCRIPT_MIDDLE@ + decimal(wanted.len())
                + EXTRACT_SCRIPT_TAIL@,
            nav,
        )
    }
}

/// The stage in which a query is that has asked for its command number `n`.
spec fn stage_at(n: int, own_suffixes: bool) -> Stage {
    if n == 0 {
        Stage::Opening
    } else if n == 1 {
        Stage::Waiting
    } else if own_suffixes {
        if n == 2 {
            Stage::Customising
        } else if n == 3 {
            Stage::Editing
        } else if n == 4 {
            Stage::Confirming
        } else if n == 5 {
            Stage::Typing
        } else if n == 6 {
            Stage::Submitting
        } else {
            Stage::Extracting
        }
    } else {
        if n == 2 {
            Stage::Typing
        } else if n == 3 {
            Stage::Submitting
        } else {
            Stage::Extracting
        }
    }
}

/// The number of commands of a query.
pub open spec fn query_length(own_suffixes: bool) -> int {
    if own_suffixes {
        8
    } else {
        5
    }
}

#[verifier::rlimit(60)]
proof fn lemma_query_command(state: QueryDomainsView, reply: Result<JsonView, Seq<char>>, n: int)
    requires
        0 <= n < query_length(state.tlds != default_suffixes()),
        state.stage == stage_at(n, state.tlds != default_suffixes()),
    ensures
        querydomains_next(state, reply) matches ProgressView::Ask(next, call) ==> {
            let own = state.tlds != default_suffixes();
            let nav = if n == 0 {
                reply->Ok_0
            } else {
                JsonView::Object(map!["tab_id"@ => state.tab_id])
            };
            &&& reply is Ok
            &&& n + 1 < query_length(own)
            &&& next.query == state.query && next.tlds == state.tlds
            &&& next.stage == stage_at(n + 1, own)
            &&& n > 0 ==> next.tab_id == state.tab_id
            &&& n == 0 ==> next.tab_id == field_or_null(reply->Ok_0, "tab_id"@)
            &&& is_query_command(call, n + 1, own, state.query, state.tlds, nav)
        },
{
    lemma_param_names();
    law_locator_locates(
        "css"@,
        "div.flex.items-center.gap-3.mr-3 span.cursor-pointer"@,
        None,
    );
    law_locator_locates("css"@, "textarea.bc-textarea__input"@, None);
    law_locator_locates("css"@, "input.bc-input__input"@, None);
    law_locator_locates("text"@, "Confirm"@, None);
}

/// The same tab is named by what names it.
proof fn lemma_same_tab(
    call: CallView,
    n: int,
    own: bool,
    name: Seq<char>,
    wanted: Seq<Seq<char>>,
    a: JsonView,
    b: JsonView,
)
    requires
        field_or_null(a, "tab_id"@) == field_or_null(b, "tab_id"@),
        is_query_command(call, n, own, name, wanted, a),
    ensures
        is_query_command(call, n, own, name, wanted, b),
{
    assert(carries(call.params, a, "tab_id"@) == carries(call.params, b, "tab_id"@));
}

proof fn lemma_query_after(
    query: Seq<char>,
    given: Seq<Seq<char>>,
    tab: Option<i32>,
    replies: Seq<Result<JsonView, Seq<char>>>,
    n: nat,
)
    requires
        querydomains_start(query, given, tab) is Ask,
        n <= replies.len(),
        query_after(query, given, tab, replies, n) is Ask,
    ensures
        ({
            let wanted = wanted_suffixes(given);
            let own = wanted != default_suffixes();
            let (state, call) = (
                query_after(query, given, tab, replies, n)->Ask_0,
                query_after(query, given, tab, replies, n)->Ask_1,
            );
            &&& n < query_length(own)
            &&& state.query == trimmed(query)
            &&& state.tlds == wanted
            &&& state.stage == stage_at(n as int, own)
            &&& n > 0 ==> {
                &&& replies[0] is Ok
                &&& state.tab_id == field_or_null(replies[0]->Ok_0, "tab_id"@)
                &&& is_query_command(
                    call,
                    n as int,
                    own,
                    trimmed(query),
                    wanted,
                    replies[0]->Ok_0,
                )
            }
        }),
    decreases n,
{
    if n > 0 {
        let m = (n - 1) as nat;
        assert(query_after(query, given, tab, replies, m) is Ask);
        lemma_query_after(query, given, tab, replies, m);
        let before = query_after(query, given, tab, replies, m)->Ask_0;
        lemma_query_command(before, replies[m as int], m as int);
        if m > 0 {
            let call = query_after(query, given, tab, replies, n)->Ask_1;
            let named = JsonView::Object(map!["tab_id"@ => before.tab_id]);
            assert(field_or_null(named, "tab_id"@) == before.tab_id);
            lemma_same_tab(
                call,
                n as int,
                wanted_suffixes(given) != default_suffixes(),
                trimmed(query),
                wanted_suffixes(given),
                named,
                replies[0]->Ok_0,
            );
        }
    }
}

/// The commands of a query come in their order, and all of them run in the tab that
/// the browser has named when the page was opened.
pub proof fn law_commands_of_a_query(
    query: Seq<char>,
    given: Seq<Seq<char>>,
    tab: Option<i32>,
    replies: Seq<Result<JsonView, Seq<char>>>,
    n: nat,
)
    requires
        querydomains_start(query, given, tab) is Ask,
        0 < n <= replies.len(),
    ensures
        query_after(query, given, tab, replies, n) matches ProgressView::Ask(_, call) ==> (
        replies[0] matches Ok(nav) && is_query_command(
            call,
            n as int,
            wanted_suffixes(given) != wanted_suffixes(Seq::empty()),
            trimmed(query),
            wanted_suffixes(given),
            nav,
        )),
{
    if query_after(query, given, tab, replies, n) is Ask {
        lemma_query_after(query, given, tab, replies, n);
    }
}

/// The suffixes go into the editor of suffixes, and only the name goes where the name
/// is typed in: of the commands of a query that put a value anywhere, there is one
/// with the suffixes, where they are not those of the page, and it comes before the
/// one with the name.
pub proof fn law_suffixes_go_into_their_editor(
    query: Seq<char>,
    given: Seq<Seq<char>>,
    tab: Option<i32>,
    replies: Seq<Result<JsonView, Seq<char>>>,
    n: nat,
)
    requires
        querydomains_start(query, given, tab) is Ask,
        n <= replies.len(),
    ensures
        query_after(query, given, tab, replies, n) matches ProgressView::Ask(_, call) ==> {
            let own_suffixes = wanted_suffixes(given) != wanted_suffixes(Seq::empty());
            call.method == "set_value"@ ==> {
                let target = field(call.params, "target"@)->0;
                ||| {
                    &&& own_suffixes && n == 3
                    &&& locates(target, "css"@, "textarea.bc-textarea__input"@, None)
                    &&& bears_text(call, "value"@, join(wanted_suffixes(given), seq!['\n']))
                }
                ||| {
                    &&& n == if own_suffixes {
                        5nat
                    } else {
                        2nat
                    }
                    &&& locates(target, "css"@, "input.bc-input__input"@, None)
                    &&& bears_text(call, "value"@, trimmed(query))
                }
            }
        },
{
    reveal_strlit("set_value");
    reveal_strlit("navigate");
    reveal_strlit("run_script");
    reveal_strlit("click");
    reveal_strlit("press_key");
    assert("set_value"@.len() == 9 && "navigate"@.len() == 8 && "run_script"@.len() == 10
        && "click"@.len() == 5 && "press_key"@.len() == 9);
    assert("set_value"@[0] == 's' && "press_key"@[0] == 'p');
    if query_after(query, given, tab, replies, n) is Ask {
        lemma_query_after(query, given, tab, replies, n);
    }
}

/// A query goes on as long as its commands succeed and the page is ready: it asks for
/// the next command until there is none, and ends with its outcome. It ends with the
/// error of the command that fails, or because the page is not ready.
pub proof fn law_query_goes_on(
    query: Seq<char>,
    given: Seq<Seq<char>>,
    tab: Option<i32>,
    replies: Seq<Result<JsonView, Seq<char>>>,
    n: nat,
)
    requires
        querydomains_start(query, given, tab) is Ask,
        n < replies.len(),
        query_after(query, given, tab, replies, n) is Ask,
    ensures
        ({
            let last = query_length(wanted_suffixes(given) != wanted_suffixes(Seq::empty())) - 1;
            let ready = match replies[n as int] {
                Ok(resp) => field(resp, "result"@) matches Some(result) && field(
                    result,
                    "ready"@,
                ) == Some(JsonView::Bool(true)),
                Err(_) => false,
            };
            match query_after(query, given, tab, replies, n + 1) {
                ProgressView::Ask(_, _) => n < last && replies[n as int] is Ok && (n == 1 ==> ready),
                ProgressView::Done(Ok(_)) => n == last && replies[n as int] is Ok,
                ProgressView::Done(Err(e)) => match replies[n as int] {
                    Err(error) => e == error,
                    Ok(_) => n == 1 && !ready && e == "querydomains: 首页关键词输入框未就绪"@,
                },
            }
        }),
{
    lemma_query_after(query, given, tab, replies, n);
}

/// The outcome of a query: the tab, the name, the suffixes that were asked for,
/// whether all rows have come in, and what is made of each row, in their order.
#[verifier::rlimit(40)]
pub proof fn law_outcome_of_a_query(
    query: Seq<char>,
    given: Seq<Seq<char>>,
    tab: Option<i32>,
    replies: Seq<Result<JsonView, Seq<char>>>,
    n: nat,
)
    requires
        querydomains_start(query, given, tab) is Ask,
        n < replies.len(),
        query_after(query, given, tab, replies, n) is Ask,
        query_after(query, given, tab, replies, n + 1) matches ProgressView::Done(Ok(_)),
    ensures
        query_after(query, given, tab, replies, n + 1) matches ProgressView::Done(Ok(out)) && (
        replies[0] matches Ok(nav) && (replies[n as int] matches Ok(resp) && {
            let data = match field(resp, "result"@) {
                Some(v) => v,
                None => JsonView::Null,
            };
            let rows = match field(data, "rows"@) {
                Some(JsonView::Array(rows)) => rows,
                _ => Seq::empty(),
            };
            let wanted = wanted_suffixes(given);
            &&& carries(out, nav, "tab_id"@)
            &&& field(out, "query"@) == Some(JsonView::Text(trimmed(query)))
            &&& field(out, "tlds"@) matches Some(JsonView::Array(tlds)) && tlds.len() == wanted.len()
                && forall|k: int|
                0 <= k < tlds.len() ==> #[trigger] tlds[k] == JsonView::Text(wanted[k])
            &&& field(out, "complete"@) == Some(
                JsonView::Bool(field(data, "complete"@) == Some(JsonView::Bool(true))),
            )
            &&& field(out, "results"@) matches Some(JsonView::Array(results)) && results.len()
                == rows.len() && forall|k: int|
                0 <= k < rows.len() ==> #[trigger] results[k] == domain_view(rows[k])
            &&& forall|key: Seq<char>| #[trigger]
                field(out, key) is Some ==> key == "tab_id"@ || key == "query"@ || key == "tlds"@
                    || key == "complete"@ || key == "results"@
        })),
{
    lemma_query_after(query, given, tab, replies, n);
    lemma_result_names();
}

} // verus!
