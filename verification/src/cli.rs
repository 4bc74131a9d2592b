//! The commands of the command line, as requests to the browser.
use vstd::prelude::*;

use crate::json::{
    entries_view, field, opt_text_view, put, texts_view, Json, JsonView,
};
use crate::names::lemma_param_names;
use crate::params::{
    element_entries, element_in_tab, index_param, index_value, millis_param, millis_value,
    put_opt, switch_param, switch_value, tab_entries, tab_only, text_param, text_value, with,
    Params,
};
use crate::recipes::{bears_only, bears_text, in_tab, Call, CallView};
use crate::target::{
    law_locator_locates, locates, locator_view, match_number, optional_locator, optional_target,
    Target,
};
use crate::text::{
    after, all_space, join, law_joined_is_split_again, law_trimming, lemma_tail_after, lemma_trimmed, lemma_up_to_append,
    occurs_at, opt_text, prefix_up_to, split, split_text, tail_after, texts, is_tight, trim, trimmed,
    up_to,
};
use crate::wire::text_ref;

verus! {

/// A command that is a single request. Coordinates and distances are carried as
/// the numbers they were read as.
#[allow(inconsistent_fields)]
#[derive(Debug)]
pub enum Cmd {
    ListTabs,
    CloseTab { tab: Option<i32> },
    CloseAutoTabs,
    NewTab { url: Option<String> },
    ActivateTab { tab: Option<i32> },
    Navigate { url: String, tab: Option<i32> },
    Click { target: Target, new_tab: bool, timeout: Option<u64>, tab: Option<i32> },
    ClickAt { x: Json, y: Json, tab: Option<i32> },
    PressKey {
        key: String,
        modifiers: Vec<String>,
        target: Option<String>,
        by: String,
        index: Option<usize>,
        wait_load: bool,
        tab: Option<i32>,
    },
    RunScript { code: String, tab: Option<i32> },
    Scroll {
        dx: Json,
        dy: Json,
        target: Option<String>,
        by: String,
        index: Option<usize>,
        smooth: bool,
        tab: Option<i32>,
    },
    SetValue { target: Target, value: String, tab: Option<i32> },
    Check { target: Target, uncheck: bool, tab: Option<i32> },
    SelectOption {
        target: Target,
        value: Option<String>,
        text: Option<String>,
        option_index: Option<usize>,
        tab: Option<i32>,
    },
    Clear { target: Target, tab: Option<i32> },
    GetValue { target: Target, tab: Option<i32> },
    Scrape {
        item: String,
        fields: Option<String>,
        title: Option<String>,
        link: Option<String>,
        desc: Option<String>,
        timeout: Option<u64>,
        tab: Option<i32>,
    },
    GetPageContent { tab: Option<i32> },
    GetPageMarkdown { url: Option<String>, selector: Option<String>, tab: Option<i32> },
}

// ---------------------------------------------------------------------------
// Fields
// ---------------------------------------------------------------------------

/// What is wrong with a field that is not a name, a colon and a selector.
pub open spec fn bad_field_text(part: Seq<char>) -> Seq<char> {
    "字段格式应为 字段名:选择器，实际为："@ + part
}

/// The name and the selector of a field: what stands before and behind its first
/// colon, neither of them empty.
pub open spec fn field_parts(part: Seq<char>) -> Option<(Seq<char>, Seq<char>)> {
    match tail_after(part, ":"@) {
        Some(tail) => {
            let name = trimmed(up_to(part, ":"@));
            let selector = trimmed(tail);
            if name.len() > 0 && selector.len() > 0 {
                Some((name, selector))
            } else {
                None
            }
        },
        None => None,
    }
}

/// The fields in the pieces of a list; the first bad piece is reported. Blank
/// pieces are passed over, and of two fields with one name the later counts.
pub open spec fn fields_in(parts: Seq<Seq<char>>) -> Result<Params, Seq<char>>
    decreases parts.len(),
{
    if parts.len() == 0 {
        Ok(Map::empty())
    } else {
        let part = trimmed(parts.last());
        match fields_in(parts.drop_last()) {
            Err(e) => Err(e),
            Ok(fields) => if part.len() == 0 {
                Ok(fields)
            } else {
                match field_parts(part) {
                    Some((name, selector)) => Ok(fields.insert(name, JsonView::Text(selector))),
                    None => Err(bad_field_text(part)),
                }
            },
        }
    }
}

/// The fields of a list `name:selector,name:selector@attribute`; there has to be
/// one.
pub open spec fn fields_outcome(input: Seq<char>) -> Result<Params, Seq<char>> {
    match fields_in(split(input, ',')) {
        Err(e) => Err(e),
        Ok(fields) => if fields.dom() == Set::<Seq<char>>::empty() {
            Err("--fields 不能为空"@)
        } else {
            Ok(fields)
        },
    }
}

fn bad_field(part: &str) -> (r: String)
    ensures
        r@ == bad_field_text(part@),
{
    let mut error = "字段格式应为 字段名:选择器，实际为：".to_owned();
    error.append(part);
    error
}

fn split_field(part: &str) -> (r: Option<(String, String)>)
    ensures
        match r {
            Some((name, selector)) => Some((name@, selector@)),
            None => None::<(Seq<char>, Seq<char>)>,
        } == field_parts(part@),
{
    match after(part, ":") {
        Some(tail) => {
            let name = trim(prefix_up_to(part, ":").as_str());
            let selector = trim(tail.as_str());
            if name.as_str().is_empty() || selector.as_str().is_empty() {
                None
            } else {
                Some((name, selector))
            }
        },
        None => None,
    }
}

/// Reads a list of fields.
pub fn parse_fields(input: &str) -> (r: Result<Json, String>)
    ensures
        match fields_outcome(input@) {
            Ok(fields) => r matches Ok(j) && j@ == JsonView::Object(fields),
            Err(e) => r matches Err(x) && x@ == e,
        },
{
    let parts = split_text(input, ',');
    let ghost all = texts(parts@);
    let mut entries: Vec<(String, Json)> = Vec::new();
    let mut i: usize = 0;
    assert(all.take(0).len() == 0);
    while i < parts.len()
        invariant
            i <= parts@.len(),
            all == texts(parts@),
            all == split(input@, ','),
            fields_in(all.take(i as int)) == Ok::<Params, Seq<char>>(entries_view(entries@)),
            entries@.len() > 0 ==> entries_view(entries@).dom() != Set::<Seq<char>>::empty(),
        decreases parts.len() - i,
    {
        proof {
            assert(all.take(i + 1).drop_last() =~= all.take(i as int));
            assert(all.take(i + 1).last() == parts@[i as int]@);
        }
        let part = trim(parts[i].as_str());
        if !part.as_str().is_empty() {
            match split_field(part.as_str()) {
                Some((name, selector)) => {
                    put(&mut entries, name.as_str(), Json::Text(selector));
                    assert(entries_view(entries@).dom().contains(name@));
                },
                None => {
                    let error = bad_field(part.as_str());
                    proof {
                        lemma_error_stays(all, i as int + 1);
                    }
                    return Err(error);
                },
            }
        }
        i += 1;
    }
    assert(all.take(parts@.len() as int) =~= all);
    if entries.len() == 0 {
        assert(entries_view(entries@).dom() =~= Set::<Seq<char>>::empty());
        return Err("--fields 不能为空".to_owned());
    }
    Ok(Json::Object(entries))
}

proof fn lemma_error_stays(parts: Seq<Seq<char>>, n: int)
    requires
        0 <= n <= parts.len(),
        fields_in(parts.take(n)) is Err,
    ensures
        fields_in(parts) == fields_in(parts.take(n)),
    decreases parts.len(),
{
    if n == parts.len() {
        assert(parts.take(n) =~= parts);
    } else {
        assert(parts.drop_last().take(n) =~= parts.take(n));
        lemma_error_stays(parts.drop_last(), n);
    }
}

/// Every field that is read has a name and a selector, and there is one.
pub proof fn law_fields_are_filled(input: Seq<char>)
    ensures
        fields_outcome(input) matches Ok(fields) ==> {
            &&& fields.dom() != Set::<Seq<char>>::empty()
            &&& forall|name: Seq<char>| #[trigger]
                fields.contains_key(name) ==> name.len() > 0 && (fields[name] matches JsonView::Text(
                    selector,
                ) && selector.len() > 0)
        },
{
    lemma_fields_filled(split(input, ','));
}

proof fn lemma_fields_filled(parts: Seq<Seq<char>>)
    ensures
        fields_in(parts) matches Ok(fields) ==> forall|name: Seq<char>| #[trigger]
            fields.contains_key(name) ==> name.len() > 0 && (fields[name] matches JsonView::Text(
                selector,
            ) && selector.len() > 0),
    decreases parts.len(),
{
    if parts.len() > 0 {
        lemma_fields_filled(parts.drop_last());
    }
}

/// A field is what stands before and behind a first colon, without the white space
/// around it, and neither of them is blank; what has no colon is no field.
pub proof fn law_parts_of_a_field(part: Seq<char>)
    ensures
        !part.contains(':') ==> field_parts(part) is None,
        part.contains(':') ==> exists|a: Seq<char>, b: Seq<char>|
            part == #[trigger] (a + seq![':'] + b) && !a.contains(':') && field_parts(part) == if all_space(
                a,
            ) || all_space(b) {
                None
            } else {
                Some((trimmed(a), trimmed(b)))
            },
{
    reveal_strlit(":");
    assert(":"@ =~= seq![':']);
    if part.contains(':') {
        part.index_of_first_ensures(':');
        let at = part.index_of_first(':')->0;
        let a = part.take(at);
        let b = part.skip(at + 1);
        assert(part =~= a + seq![':'] + b);
        assert(!a.contains(':')) by {
            if a.contains(':') {
                let i = a.index_of(':');
                assert(part[i] == ':');
            }
        }
        assert(part.subrange(at, at + 1) =~= ":"@);
        assert forall|j: int| 0 <= j < at implies !#[trigger] occurs_at(part, ":"@, j) by {
            if occurs_at(part, ":"@, j) {
                assert(part.subrange(j, j + 1)[0] == part[j]);
            }
        }
        lemma_tail_after(part, ":"@, at);
        assert forall|i: int| 0 <= i < a.len() implies !":"@.contains(#[trigger] a[i]) by {
            assert(a.contains(a[i]));
        }
        let rest = seq![':'] + b;
        lemma_up_to_append(a, rest, ":"@);
        assert(a + rest =~= part);
        assert(":"@.contains(rest[0])) by {
            assert(":"@[0] == ':');
        }
        assert(a + up_to(rest, ":"@) =~= a);
        law_trimming(a);
        law_trimming(b);
    } else {
        assert forall|j: int| !#[trigger] occurs_at(part, ":"@, j) by {
            if occurs_at(part, ":"@, j) {
                assert(part.subrange(j, j + 1)[0] == part[j]);
                assert(part.contains(part[j]));
            }
        }
    }
}

/// Whether a piece of a list of fields is neither blank nor a field.
pub open spec fn is_bad_piece(piece: Seq<char>) -> bool {
    !all_space(piece) && field_parts(trimmed(piece)) is None
}

proof fn lemma_bad_fields(pieces: Seq<Seq<char>>)
    ensures
        match fields_in(pieces) {
            Ok(fields) => {
                &&& forall|i: int| 0 <= i < pieces.len() ==> !is_bad_piece(#[trigger] pieces[i])
                &&& fields.dom() == Set::<Seq<char>>::empty() <==> forall|i: int|
                    0 <= i < pieces.len() ==> all_space(#[trigger] pieces[i])
            },
            Err(e) => exists|i: int|
                0 <= i < pieces.len() && is_bad_piece(#[trigger] pieces[i]) && e
                    == "字段格式应为 字段名:选择器，实际为："@ + trimmed(pieces[i]) && forall|j: int|
                    0 <= j < i ==> !is_bad_piece(#[trigger] pieces[j]),
        },
    decreases pieces.len(),
{
    if pieces.len() == 0 {
        assert(fields_in(pieces)->Ok_0.dom() =~= Set::<Seq<char>>::empty());
    } else {
        let front = pieces.drop_last();
        let n = front.len() as int;
        lemma_bad_fields(front);
        law_trimming(pieces[n]);
        assert forall|i: int| 0 <= i < n implies front[i] == #[trigger] pieces[i] by {}
        match fields_in(front) {
            Ok(fields) => {
                assert forall|i: int| 0 <= i < n implies !is_bad_piece(#[trigger] pieces[i]) by {
                    assert(front[i] == pieces[i]);
                }
                if is_bad_piece(pieces[n]) {
                    assert(fields_in(pieces) is Err);
                } else if all_space(pieces[n]) {
                    if forall|i: int| 0 <= i < n ==> all_space(#[trigger] front[i]) {
                        assert forall|i: int| 0 <= i < pieces.len() implies all_space(
                            #[trigger] pieces[i],
                        ) by {
                            if i < n {
                                assert(front[i] == pieces[i]);
                            }
                        }
                    } else {
                        let i = choose|i: int| 0 <= i < n && !all_space(#[trigger] front[i]);
                        assert(!all_space(pieces[i]));
                    }
                } else {
                    let (name, _) = field_parts(trimmed(pieces[n]))->0;
                    assert(fields_in(pieces)->Ok_0.dom().contains(name));
                    assert(!all_space(pieces[n]));
                }
            },
            Err(e) => {
                let i = choose|i: int|
                    0 <= i < front.len() && is_bad_piece(#[trigger] front[i]) && e
                        == "字段格式应为 字段名:选择器，实际为："@ + trimmed(front[i]) && forall|j: int|
                        0 <= j < i ==> !is_bad_piece(#[trigger] front[j]);
                assert(is_bad_piece(pieces[i]));
                assert forall|j: int| 0 <= j < i implies !is_bad_piece(#[trigger] pieces[j]) by {
                    assert(front[j] == pieces[j]);
                }
            },
        }
    }
}

/// A list of fields is refused where one of its pieces is neither blank nor a field,
/// and the first of those is named; and where all of them are blank.
pub proof fn law_bad_fields(input: Seq<char>)
    ensures
        ({
            let pieces = split(input, ',');
            match fields_outcome(input) {
                Ok(_) => (forall|i: int| 0 <= i < pieces.len() ==> !is_bad_piece(#[trigger] pieces[i]))
                    && exists|i: int| 0 <= i < pieces.len() && !all_space(#[trigger] pieces[i]),
                Err(e) => {
                    ||| e == "--fields 不能为空"@ && forall|i: int|
                        0 <= i < pieces.len() ==> all_space(#[trigger] pieces[i])
                    ||| exists|i: int|
                        0 <= i < pieces.len() && is_bad_piece(#[trigger] pieces[i]) && e
                            == "字段格式应为 字段名:选择器，实际为："@ + trimmed(pieces[i]) && forall|j: int|
                            0 <= j < i ==> !is_bad_piece(#[trigger] pieces[j])
                },
            }
        }),
{
    lemma_bad_fields(split(input, ','));
}

/// A list of fields as it is typed: each a name, a colon and a selector.
pub open spec fn typed_fields(names: Seq<Seq<char>>, selectors: Seq<Seq<char>>) -> Seq<Seq<char>> {
    Seq::new(names.len(), |i: int| names[i] + seq![':'] + selectors[i])
}

proof fn lemma_typed_field(name: Seq<char>, selector: Seq<char>)
    requires
        name.len() > 0 && is_tight(name) && !name.contains(':'),
        selector.len() > 0 && is_tight(selector),
    ensures
        ({
            let part = name + seq![':'] + selector;
            &&& trimmed(part) == part
            &&& field_parts(part) == Some((name, selector))
        }),
{
    let part = name + seq![':'] + selector;
    let at = name.len() as int;
    reveal_strlit(":");
    assert(":"@ =~= seq![':']);
    assert(part[0] == name[0] && part.last() == selector.last());
    lemma_trimmed(part);
    lemma_trimmed(name);
    lemma_trimmed(selector);
    assert(part.subrange(at, at + 1) =~= ":"@);
    assert forall|j: int| 0 <= j < at implies !#[trigger] occurs_at(part, ":"@, j) by {
        if occurs_at(part, ":"@, j) {
            assert(part.subrange(j, j + 1)[0] == name[j]);
            assert(name.contains(name[j]));
        }
    }
    lemma_tail_after(part, ":"@, at);
    assert(part.skip(at + 1) =~= selector);
    assert forall|i: int| 0 <= i < name.len() implies !":"@.contains(#[trigger] name[i]) by {
        assert(name.contains(name[i]));
    }
    let rest = seq![':'] + selector;
    lemma_up_to_append(name, rest, ":"@);
    assert(name + rest =~= part);
    assert(":"@.contains(rest[0])) by {
        assert(":"@[0] == ':');
    }
    assert(name + up_to(rest, ":"@) =~= name);
}

/// One more field is one more entry.
proof fn lemma_one_more_field(parts: Seq<Seq<char>>, name: Seq<char>, selector: Seq<char>)
    requires
        parts.len() > 0,
        fields_in(parts.drop_last()) is Ok,
        parts.last() == name + seq![':'] + selector,
        name.len() > 0 && is_tight(name) && !name.contains(':'),
        selector.len() > 0 && is_tight(selector),
    ensures
        fields_in(parts) == Ok::<Params, Seq<char>>(
            fields_in(parts.drop_last())->Ok_0.insert(name, JsonView::Text(selector)),
        ),
{
    lemma_typed_field(name, selector);
}

#[verifier::rlimit(40)]
#[verifier::spinoff_prover]
proof fn lemma_typed_fields(names: Seq<Seq<char>>, selectors: Seq<Seq<char>>)
    requires
        names.len() == selectors.len(),
        forall|i: int|
            0 <= i < names.len() ==> (#[trigger] names[i]).len() > 0 && is_tight(names[i])
                && !names[i].contains(':'),
        forall|i: int|
            0 <= i < selectors.len() ==> (#[trigger] selectors[i]).len() > 0 && is_tight(selectors[i]),
    ensures
        fields_in(typed_fields(names, selectors)) matches Ok(fields) && {
            &&& forall|name: Seq<char>| #[trigger]
                fields.contains_key(name) <==> names.contains(name)
            &&& forall|i: int|
                0 <= i < names.len() && (forall|j: int|
                    i < j < names.len() ==> names[j] != names[i]) ==> fields[#[trigger] names[i]]
                    == JsonView::Text(selectors[i])
        },
    decreases names.len(),
{
    let parts = typed_fields(names, selectors);
    if names.len() > 0 {
        let n = names.len() - 1;
        let front = names.drop_last();
        assert forall|i: int| 0 <= i < front.len() implies (#[trigger] front[i]).len() > 0 && is_tight(
            front[i],
        ) && !front[i].contains(':') by {
            assert(front[i] == names[i]);
        }
        let chosen = selectors.drop_last();
        assert forall|i: int| 0 <= i < chosen.len() implies (#[trigger] chosen[i]).len() > 0
            && is_tight(chosen[i]) by {
            assert(chosen[i] == selectors[i]);
        }
        lemma_typed_fields(front, chosen);
        assert(parts.drop_last() =~= typed_fields(front, chosen));
        assert(parts.last() == names[n] + seq![':'] + selectors[n]);
        assert(names[n].len() > 0 && selectors[n].len() > 0);
        lemma_one_more_field(parts, names[n], selectors[n]);
        let before = fields_in(parts.drop_last())->Ok_0;
        let fields = fields_in(parts)->Ok_0;
        assert(fields == before.insert(names[n], JsonView::Text(selectors[n])));
        assert forall|name: Seq<char>| #[trigger] fields.contains_key(name) <==> names.contains(
            name,
        ) by {
            if before.contains_key(name) {
                let i = front.index_of(name);
                assert(names[i] == name);
            }
            if name == names[n] {
                assert(names.contains(names[n]));
            }
            if names.contains(name) && name != names[n] {
                let i = names.index_of(name);
                assert(front[i] == name);
            }
        }
        assert forall|i: int|
            0 <= i < names.len() && (forall|j: int| i < j < names.len() ==> names[j] != names[i])
            implies fields[#[trigger] names[i]] == JsonView::Text(selectors[i]) by {
            if i < n {
                assert(names[n] != names[i]);
                assert(front[i] == names[i]);
                assert forall|j: int| i < j < front.len() implies front[j] != front[i] by {
                    assert(names[j] != names[i]);
                }
                assert(before[front[i]] == JsonView::Text(chosen[i]));
            }
        }
    } else {
        assert(parts.len() == 0);
    }
}

/// A list of fields is read as it was typed: every name that stands in it, with the
/// selector behind its first colon, colons and `@` in the selector included; of
/// two fields with one name the later counts, and no other field is there.
pub proof fn law_typed_fields_are_read(names: Seq<Seq<char>>, selectors: Seq<Seq<char>>)
    requires
        names.len() == selectors.len() > 0,
        forall|i: int|
            0 <= i < names.len() ==> (#[trigger] names[i]).len() > 0 && is_tight(names[i])
                && !names[i].contains(':') && !names[i].contains(','),
        forall|i: int|
            0 <= i < selectors.len() ==> (#[trigger] selectors[i]).len() > 0 && is_tight(selectors[i])
                && !selectors[i].contains(','),
    ensures
        fields_outcome(join(typed_fields(names, selectors), seq![','])) matches Ok(fields) && {
            &&& forall|name: Seq<char>| #[trigger]
                fields.contains_key(name) <==> names.contains(name)
            &&& forall|i: int|
                0 <= i < names.len() && (forall|j: int|
                    i < j < names.len() ==> names[j] != names[i]) ==> fields[#[trigger] names[i]]
                    == JsonView::Text(selectors[i])
        },
{
    let parts = typed_fields(names, selectors);
    assert forall|i: int| 0 <= i < parts.len() implies !(#[trigger] parts[i]).contains(',') by {
        let part = names[i] + seq![':'] + selectors[i];
        assert(names[i].len() > 0 && selectors[i].len() > 0);
        assert forall|k: int| 0 <= k < part.len() implies part[k] != ',' by {
            if k < names[i].len() {
                assert(names[i].contains(names[i][k]));
            } else if k > names[i].len() {
                let d = k - names[i].len() - 1;
                assert(part[k] == selectors[i][d]);
                assert(selectors[i].contains(selectors[i][d]));
            }
        }
    }
    law_joined_is_split_again(parts, ',');
    lemma_typed_fields(names, selectors);
    let fields = fields_in(parts)->Ok_0;
    assert(names.contains(names[0]));
    assert(fields.contains_key(names[0]));
    assert(fields.dom().contains(names[0]));
}

// ---------------------------------------------------------------------------
// Commands
// ---------------------------------------------------------------------------

/// The request with a method and parameters.
pub open spec fn cli_call(method: Seq<char>, params: Params) -> CallView {
    CallView { id: "c1"@, method, params: JsonView::Object(params) }
}

/// The parameter that locates the element of a target.
pub open spec fn target_view(target: Target) -> JsonView {
    locator_view(target.by@, target.value@, match_number(target.index))
}

/// The parameters of a scrape without its fields.
pub open spec fn scrape_rest(
    params: Params,
    title: Option<String>,
    link: Option<String>,
    desc: Option<String>,
    timeout: Option<u64>,
) -> Params {
    with(
        with(
            with(with(params, "title"@, text_param(title)), "link"@, text_param(link)),
            "desc"@,
            text_param(desc),
        ),
        "timeout"@,
        millis_param(timeout),
    )
}

/// The request that a command stands for; only a bad list of fields has none.
pub open spec fn command_outcome(cmd: Cmd) -> Result<CallView, Seq<char>> {
    match cmd {
        Cmd::ListTabs => Ok(cli_call("list_tabs"@, Map::empty())),
        Cmd::CloseTab { tab } => Ok(cli_call("close_tab"@, tab_only(tab))),
        Cmd::CloseAutoTabs => Ok(cli_call("close_auto_tabs"@, Map::empty())),
        Cmd::NewTab { url } => Ok(
            cli_call("new_tab"@, Map::empty().insert("url"@, opt_text_view(opt_text(url)))),
        ),
        Cmd::ActivateTab { tab } => Ok(cli_call("activate_tab"@, tab_only(tab))),
        Cmd::Navigate { url, tab } => Ok(
            cli_call("navigate"@, tab_only(tab).insert("url"@, JsonView::Text(url@))),
        ),
        Cmd::Click { target, new_tab, timeout, tab } => Ok(
            cli_call(
                "click"@,
                with(
                    with(
                        element_in_tab(target_view(target), tab),
                        "new_tab"@,
                        switch_param(new_tab),
                    ),
                    "timeout"@,
                    millis_param(timeout),
                ),
            ),
        ),
        Cmd::ClickAt { x, y, tab } => Ok(
            cli_call("click_at"@, tab_only(tab).insert("x"@, x@).insert("y"@, y@)),
        ),
        Cmd::PressKey { key, modifiers, target, by, index, wait_load, tab } => Ok(
            cli_call(
                "press_key"@,
                with(
                    with(
                        with(
                            tab_only(tab).insert("key"@, JsonView::Text(key@)),
                            "modifiers"@,
                            if modifiers@.len() > 0 {
                                Some(texts_view(texts(modifiers@)))
                            } else {
                                None
                            },
                        ),
                        "wait_load"@,
                        switch_param(wait_load),
                    ),
                    "target"@,
                    optional_locator(opt_text(target), by@, match_number(index)),
                ),
            ),
        ),
        Cmd::RunScript { code, tab } => Ok(
            cli_call("run_script"@, tab_only(tab).insert("code"@, JsonView::Text(code@))),
        ),
        Cmd::Scroll { dx, dy, target, by, index, smooth, tab } => Ok(
            cli_call(
                "scroll"@,
                with(
                    tab_only(tab).insert("dx"@, dx@).insert("dy"@, dy@).insert(
                        "smooth"@,
                        JsonView::Bool(smooth),
                    ),
                    "target"@,
                    optional_locator(opt_text(target), by@, match_number(index)),
                ),
            ),
        ),
        Cmd::SetValue { target, value, tab } => Ok(
            cli_call(
                "set_value"@,
                element_in_tab(target_view(target), tab).insert(
                    "value"@,
                    JsonView::Text(value@),
                ),
            ),
        ),
        Cmd::Check { target, uncheck, tab } => Ok(
            cli_call(
                "check"@,
                element_in_tab(target_view(target), tab).insert(
                    "checked"@,
                    JsonView::Bool(!uncheck),
                ),
            ),
        ),
        Cmd::SelectOption { target, value, text, option_index, tab } => Ok(
            cli_call(
                "select_option"@,
                with(
                    with(
                        with(
                            element_in_tab(target_view(target), tab),
                            "value"@,
                            text_param(value),
                        ),
                        "text"@,
                        text_param(text),
                    ),
                    "index"@,
                    index_param(option_index),
                ),
            ),
        ),
        Cmd::Clear { target, tab } => Ok(
            cli_call("clear"@, element_in_tab(target_view(target), tab)),
        ),
        Cmd::GetValue { target, tab } => Ok(
            cli_call("get_value"@, element_in_tab(target_view(target), tab)),
        ),
        Cmd::Scrape { item, fields, title, link, desc, timeout, tab } => {
            let params = tab_only(tab).insert("item"@, JsonView::Text(item@));
            match fields {
                None => Ok(
                    cli_call("scrape"@, scrape_rest(params, title, link, desc, timeout)),
                ),
                Some(list) => match fields_outcome(list@) {
                    Ok(named) => Ok(
                        cli_call(
                            "scrape"@,
                            scrape_rest(
                                params.insert("fields"@, JsonView::Object(named)),
                                title,
                                link,
                                desc,
                                timeout,
                            ),
                        ),
                    ),
                    Err(e) => Err(e),
                },
            }
        },
        Cmd::GetPageContent { tab } => Ok(cli_call("get_page_content"@, tab_only(tab))),
        Cmd::GetPageMarkdown { url, selector, tab } => Ok(
            cli_call(
                "get_page_markdown"@,
                with(
                    with(tab_only(tab), "url"@, text_param(url)),
                    "selector"@,
                    text_param(selector),
                ),
            ),
        ),
    }
}

/// The tab that a command names, if it can name one.
pub open spec fn tab_of(cmd: Cmd) -> Option<Option<i32>> {
    match cmd {
        Cmd::ListTabs => None,
        Cmd::CloseAutoTabs => None,
        Cmd::NewTab { .. } => None,
        Cmd::CloseTab { tab } => Some(tab),
        Cmd::ActivateTab { tab } => Some(tab),
        Cmd::Navigate { tab, .. } => Some(tab),
        Cmd::Click { tab, .. } => Some(tab),
        Cmd::ClickAt { tab, .. } => Some(tab),
        Cmd::PressKey { tab, .. } => Some(tab),
        Cmd::RunScript { tab, .. } => Some(tab),
        Cmd::Scroll { tab, .. } => Some(tab),
        Cmd::SetValue { tab, .. } => Some(tab),
        Cmd::Check { tab, .. } => Some(tab),
        Cmd::SelectOption { tab, .. } => Some(tab),
        Cmd::Clear { tab, .. } => Some(tab),
        Cmd::GetValue { tab, .. } => Some(tab),
        Cmd::Scrape { tab, .. } => Some(tab),
        Cmd::GetPageContent { tab } => Some(tab),
        Cmd::GetPageMarkdown { tab, .. } => Some(tab),
    }
}

/// Every command that can name a tab acts in the tab that it names, and in the
/// active one where it names none; the others name no tab.
#[verifier::rlimit(40)]
pub proof fn law_commands_act_in_their_tab(cmd: Cmd)
    ensures
        command_outcome(cmd) matches Ok(call) ==> match tab_of(cmd) {
            Some(tab) => in_tab(call, tab),
            None => field(call.params, "tab_id"@) is None,
        },
{
    lemma_param_names();
}

/// The element that a command works on, if it names one: how it is found, by what,
/// and which match is meant.
pub open spec fn element_of(cmd: Cmd) -> Option<(Seq<char>, Seq<char>, Option<usize>)> {
    match cmd {
        Cmd::Click { target, .. } => Some((target.by@, target.value@, target.index)),
        Cmd::SetValue { target, .. } => Some(
            (target.by@, target.value@, target.index),
        ),
        Cmd::Check { target, .. } => Some((target.by@, target.value@, target.index)),
        Cmd::SelectOption { target, .. } => Some(
            (target.by@, target.value@, target.index),
        ),
        Cmd::Clear { target, .. } => Some((target.by@, target.value@, target.index)),
        Cmd::GetValue { target, .. } => Some(
            (target.by@, target.value@, target.index),
        ),
        Cmd::PressKey { target: Some(value), by, index, .. } => Some(
            (by@, value@, index),
        ),
        Cmd::Scroll { target: Some(value), by, index, .. } => Some(
            (by@, value@, index),
        ),
        _ => None,
    }
}

/// Every command that names an element works on that element, and no other command
/// on any.
#[verifier::rlimit(40)]
pub proof fn law_commands_work_on_their_element(cmd: Cmd)
    ensures
        command_outcome(cmd) matches Ok(call) ==> match element_of(cmd) {
            Some((by, value, index)) => field(call.params, "target"@) matches Some(target)
                && locates(
                target,
                by,
                value,
                match index {
                    Some(i) => Some(i as int),
                    None => None,
                },
            ),
            None => field(call.params, "target"@) is None,
        },
{
    lemma_param_names();
    if let Some((by, value, index)) = element_of(cmd) {
        law_locator_locates(by, value, match_number(index));
    }
}

/// The command of the browser that a command of the command line stands for, and
/// the names of the parameters that it can bear.
pub open spec fn request_form(cmd: Cmd) -> (Seq<char>, Set<Seq<char>>) {
    match cmd {
        Cmd::ListTabs => ("list_tabs"@, set![]),
        Cmd::CloseTab { .. } => ("close_tab"@, set!["tab_id"@]),
        Cmd::CloseAutoTabs => ("close_auto_tabs"@, set![]),
        Cmd::NewTab { .. } => ("new_tab"@, set!["url"@]),
        Cmd::ActivateTab { .. } => ("activate_tab"@, set!["tab_id"@]),
        Cmd::Navigate { .. } => ("navigate"@, set!["url"@, "tab_id"@]),
        Cmd::Click { .. } => ("click"@, set!["target"@, "new_tab"@, "timeout"@, "tab_id"@]),
        Cmd::ClickAt { .. } => ("click_at"@, set!["x"@, "y"@, "tab_id"@]),
        Cmd::PressKey { .. } => (
            "press_key"@,
            set!["key"@, "modifiers"@, "wait_load"@, "target"@, "tab_id"@],
        ),
        Cmd::RunScript { .. } => ("run_script"@, set!["code"@, "tab_id"@]),
        Cmd::Scroll { .. } => ("scroll"@, set!["dx"@, "dy"@, "smooth"@, "target"@, "tab_id"@]),
        Cmd::SetValue { .. } => ("set_value"@, set!["target"@, "value"@, "tab_id"@]),
        Cmd::Check { .. } => ("check"@, set!["target"@, "checked"@, "tab_id"@]),
        Cmd::SelectOption { .. } => (
            "select_option"@,
            set!["target"@, "value"@, "text"@, "index"@, "tab_id"@],
        ),
        Cmd::Clear { .. } => ("clear"@, set!["target"@, "tab_id"@]),
        Cmd::GetValue { .. } => ("get_value"@, set!["target"@, "tab_id"@]),
        Cmd::Scrape { .. } => (
            "scrape"@,
            set!["item"@, "fields"@, "title"@, "link"@, "desc"@, "timeout"@, "tab_id"@],
        ),
        Cmd::GetPageContent { .. } => ("get_page_content"@, set!["tab_id"@]),
        Cmd::GetPageMarkdown { .. } => ("get_page_markdown"@, set!["url"@, "selector"@, "tab_id"@]),
    }
}

/// A command stands for the command of the browser with its name, and bears nothing
/// that does not belong to it.
#[verifier::rlimit(40)]
pub proof fn law_commands_keep_their_form(cmd: Cmd)
    ensures
        command_outcome(cmd) matches Ok(call) ==> call.id == "c1"@ && call.method == request_form(
            cmd,
        ).0 && bears_only(call, request_form(cmd).1),
{
}

/// Whether what is given stands under a name, and nothing where nothing is given.
pub open spec fn given_as(call: CallView, name: Seq<char>, given: Option<JsonView>) -> bool {
    field(call.params, name) == given
}

/// Each argument of a command stands under its own name: a text as it is, a switch
/// only where it is on, and what is not given nowhere.
#[verifier::rlimit(60)]
pub proof fn law_commands_bear_their_arguments(cmd: Cmd)
    ensures
        command_outcome(cmd) matches Ok(call) ==> match cmd {
            Cmd::NewTab { url } => given_as(
                call,
                "url"@,
                Some(
                    match url {
                        Some(u) => JsonView::Text(u@),
                        None => JsonView::Null,
                    },
                ),
            ),
            Cmd::Navigate { url, .. } => bears_text(call, "url"@, url@),
            Cmd::Click { new_tab, timeout, .. } => {
                &&& given_as(
                    call,
                    "new_tab"@,
                    if new_tab {
                        Some(JsonView::Bool(true))
                    } else {
                        None
                    },
                )
                &&& match timeout {
                    Some(t) => given_as(call, "timeout"@, Some(JsonView::Int(t as int))),
                    None => given_as(call, "timeout"@, None),
                }
            },
            Cmd::ClickAt { x, y, .. } => given_as(call, "x"@, Some(x@)) && given_as(
                call,
                "y"@,
                Some(y@),
            ),
            Cmd::PressKey { key, modifiers, wait_load, .. } => {
                &&& bears_text(call, "key"@, key@)
                &&& if modifiers@.len() > 0 {
                    field(call.params, "modifiers"@) matches Some(JsonView::Array(list))
                        && list.len() == modifiers@.len() && forall|i: int|
                        0 <= i < list.len() ==> #[trigger] list[i] == JsonView::Text(modifiers@[i]@)
                } else {
                    given_as(call, "modifiers"@, None)
                }
                &&& given_as(
                    call,
                    "wait_load"@,
                    if wait_load {
                        Some(JsonView::Bool(true))
                    } else {
                        None
                    },
                )
            },
            Cmd::RunScript { code, .. } => bears_text(call, "code"@, code@),
            Cmd::Scroll { dx, dy, smooth, .. } => {
                &&& given_as(call, "dx"@, Some(dx@))
                &&& given_as(call, "dy"@, Some(dy@))
                &&& given_as(call, "smooth"@, Some(JsonView::Bool(smooth)))
            },
            Cmd::SetValue { value, .. } => bears_text(call, "value"@, value@),
            Cmd::Check { uncheck, .. } => given_as(
                call,
                "checked"@,
                Some(JsonView::Bool(!uncheck)),
            ),
            Cmd::SelectOption { value, text, option_index, .. } => {
                &&& match value {
                    Some(v) => bears_text(call, "value"@, v@),
                    None => given_as(call, "value"@, None),
                }
                &&& match text {
                    Some(t) => bears_text(call, "text"@, t@),
                    None => given_as(call, "text"@, None),
                }
                &&& match option_index {
                    Some(n) => given_as(call, "index"@, Some(JsonView::Int(n as int))),
                    None => given_as(call, "index"@, None),
                }
            },
            Cmd::GetPageMarkdown { url, selector, .. } => {
                &&& match url {
                    Some(u) => bears_text(call, "url"@, u@),
                    None => given_as(call, "url"@, None),
                }
                &&& match selector {
                    Some(q) => bears_text(call, "selector"@, q@),
                    None => given_as(call, "selector"@, None),
                }
            },
            _ => true,
        },
{
    lemma_param_names();
}

/// A scrape bears the selector of its items, the fields that its list names, and
/// the older selectors of title, link and description under their own names.
#[verifier::rlimit(40)]
pub proof fn law_scrape_bears_its_selectors(
    item: String,
    fields: Option<String>,
    title: Option<String>,
    link: Option<String>,
    desc: Option<String>,
    timeout: Option<u64>,
    tab: Option<i32>,
)
    ensures
        match command_outcome(Cmd::Scrape { item, fields, title, link, desc, timeout, tab }) {
            Ok(call) => {
                &&& bears_text(call, "item"@, item@)
                &&& match fields {
                    Some(list) => fields_outcome(list@) matches Ok(named) && given_as(
                        call,
                        "fields"@,
                        Some(JsonView::Object(named)),
                    ),
                    None => given_as(call, "fields"@, None),
                }
                &&& match title {
                    Some(t) => bears_text(call, "title"@, t@),
                    None => given_as(call, "title"@, None),
                }
                &&& match link {
                    Some(l) => bears_text(call, "link"@, l@),
                    None => given_as(call, "link"@, None),
                }
                &&& match desc {
                    Some(d) => bears_text(call, "desc"@, d@),
                    None => given_as(call, "desc"@, None),
                }
                &&& match timeout {
                    Some(t) => given_as(call, "timeout"@, Some(JsonView::Int(t as int))),
                    None => given_as(call, "timeout"@, None),
                }
            },
            Err(e) => fields matches Some(list) && fields_outcome(list@) == Err::<Params, Seq<char>>(
                e,
            ),
        },
{
    lemma_param_names();
}

/// Only a bad list of fields leaves a command without a request.
pub proof fn law_only_bad_fields_fail(cmd: Cmd)
    ensures
        command_outcome(cmd) is Err ==> (cmd matches Cmd::Scrape { fields: Some(list), .. }
            && fields_outcome(list@) is Err),
{
}

fn cli(method: &'static str, entries: Vec<(String, Json)>) -> (r: Call)
    ensures
        r@ == cli_call(method@, entries_view(entries@)),
{
    Call { id: "c1", method, params: Json::Object(entries) }
}

/// The request that a command stands for.
pub fn command(cmd: Cmd) -> (r: Result<Call, String>)
    ensures
        match command_outcome(cmd) {
            Ok(call) => r matches Ok(c) && c@ == call,
            Err(e) => r matches Err(x) && x@ == e,
        },
{
    match cmd {
        Cmd::ListTabs => Ok(cli("list_tabs", Vec::new())),
        Cmd::CloseTab { tab } => Ok(cli("close_tab", tab_entries(tab))),
        Cmd::CloseAutoTabs => Ok(cli("close_auto_tabs", Vec::new())),
        Cmd::NewTab { url } => {
            let mut entries: Vec<(String, Json)> = Vec::new();
            put(&mut entries, "url", Json::opt_text(text_ref(&url)));
            Ok(cli("new_tab", entries))
        },
        Cmd::ActivateTab { tab } => Ok(cli("activate_tab", tab_entries(tab))),
        Cmd::Navigate { url, tab } => {
            let mut entries = tab_entries(tab);
            put(&mut entries, "url", Json::Text(url));
            Ok(cli("navigate", entries))
        },
        Cmd::Click { target, new_tab, timeout, tab } => {
            let mut entries = element_entries(target.locator(), tab);
            put_opt(&mut entries, "new_tab", switch_value(new_tab));
            put_opt(&mut entries, "timeout", millis_value(timeout));
            Ok(cli("click", entries))
        },
        Cmd::ClickAt { x, y, tab } => {
            let mut entries = tab_entries(tab);
            put(&mut entries, "x", x);
            put(&mut entries, "y", y);
            Ok(cli("click_at", entries))
        },
        Cmd::PressKey { key, modifiers, target, by, index, wait_load, tab } => {
            let mut entries = tab_entries(tab);
            put(&mut entries, "key", Json::Text(key));
            if modifiers.len() > 0 {
                put(&mut entries, "modifiers", Json::text_array(&modifiers));
            }
            put_opt(&mut entries, "wait_load", switch_value(wait_load));
            put_opt(
                &mut entries,
                "target",
                optional_target(text_ref(&target), by.as_str(), index),
            );
            Ok(cli("press_key", entries))
        },
        Cmd::RunScript { code, tab } => {
            let mut entries = tab_entries(tab);
            put(&mut entries, "code", Json::Text(code));
            Ok(cli("run_script", entries))
        },
        Cmd::Scroll { dx, dy, target, by, index, smooth, tab } => {
            let mut entries = tab_entries(tab);
            put(&mut entries, "dx", dx);
            put(&mut entries, "dy", dy);
            put(&mut entries, "smooth", Json::Bool(smooth));
            put_opt(
                &mut entries,
                "target",
                optional_target(text_ref(&target), by.as_str(), index),
            );
            Ok(cli("scroll", entries))
        },
        Cmd::SetValue { target, value, tab } => {
            let mut entries = element_entries(target.locator(), tab);
            put(&mut entries, "value", Json::Text(value));
            Ok(cli("set_value", entries))
        },
        Cmd::Check { target, uncheck, tab } => {
            let mut entries = element_entries(target.locator(), tab);
            put(&mut entries, "checked", Json::Bool(!uncheck));
            Ok(cli("check", entries))
        },
        Cmd::SelectOption { target, value, text, option_index, tab } => {
            let mut entries = element_entries(target.locator(), tab);
            put_opt(&mut entries, "value", text_value(value));
            put_opt(&mut entries, "text", text_value(text));
            put_opt(&mut entries, "index", index_value(option_index));
            Ok(cli("select_option", entries))
        },
        Cmd::Clear { target, tab } => Ok(cli("clear", element_entries(target.locator(), tab))),
        Cmd::GetValue { target, tab } => {
            Ok(cli("get_value", element_entries(target.locator(), tab)))
        },
        Cmd::Scrape { item, fields, title, link, desc, timeout, tab } => {
            let mut entries = tab_entries(tab);
            put(&mut entries, "item", Json::Text(item));
            if let Some(list) = fields {
                match parse_fields(list.as_str()) {
                    Ok(named) => put(&mut entries, "fields", named),
                    Err(e) => {
                        return Err(e);
                    },
                }
            }
            put_opt(&mut entries, "title", text_value(title));
            put_opt(&mut entries, "link", text_value(link));
            put_opt(&mut entries, "desc", text_value(desc));
            put_opt(&mut entries, "timeout", millis_value(timeout));
            Ok(cli("scrape", entries))
        },
        Cmd::GetPageContent { tab } => Ok(cli("get_page_content", tab_entries(tab))),
        Cmd::GetPageMarkdown { url, selector, tab } => {
            let mut entries = tab_entries(tab);
            put_opt(&mut entries, "url", text_value(url));
            put_opt(&mut entries, "selector", text_value(selector));
            Ok(cli("get_page_markdown", entries))
        },
    }
}

} // verus!
