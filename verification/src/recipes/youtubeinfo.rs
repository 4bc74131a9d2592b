//! The details of a YouTube video.
//!
//! They are read from the data that the page of the video carries, so nothing has
//! to be rendered, scrolled or clicked.
use vstd::prelude::*;

use crate::encode::{
    address_of, is_plain, law_plain_text_unchanged, lemma_one_part, query_pairs, query_part, Place,
};
use crate::json::{bool_field, field, field_or_null, outcome_view, put, text_field, Json, JsonView};
use crate::names::{lemma_param_names, lemma_result_names};
use crate::recipes::{
    bears_only, bears_text, carries, in_tab, navigate_call, navigate_view, script_call,
    script_view, Progress, ProgressView,
};
use crate::text::{
    after, all_space, law_trimming, begins, chars_of, first_at, is_space, lemma_first_at_append, lemma_tail_after, lemma_trimmed,
    lemma_trimmed_between_spaces, lemma_up_to_append, occurs, occurs_at, opt_text, prefix_up_to,
    tail_after, trim, trimmed, up_to,
};

verus! {

// ---------------------------------------------------------------------------
// The address of a video
// ---------------------------------------------------------------------------

/// The characters of a video id.
pub open spec fn is_id_char(c: char) -> bool {
    ||| 'a' <= c <= 'z'
    ||| 'A' <= c <= 'Z'
    ||| '0' <= c <= '9'
    ||| c == '-'
    ||| c == '_'
}

/// A video id has eleven characters.
pub open spec fn is_video_id(s: Seq<char>) -> bool {
    s.len() == 11 && forall|i: int| 0 <= i < s.len() ==> is_id_char(#[trigger] s[i])
}

/// The address of the page of a video.
pub open spec fn watch_page(id: Seq<char>) -> Seq<char> {
    "https://www.youtube.com/watch?v="@ + id
}

/// The id behind the first `marker` in a text, up to one of `stops`, if there is
/// anything.
pub open spec fn marked_id(s: Seq<char>, marker: Seq<char>, stops: Seq<char>) -> Option<Seq<char>> {
    match tail_after(s, marker) {
        Some(tail) => {
            let id = trimmed(up_to(tail, stops));
            if id.len() > 0 {
                Some(id)
            } else {
                None
            }
        },
        None => None,
    }
}

/// The id of the video that an input names: the input itself, or what follows the
/// first of the markers that has something behind it.
pub open spec fn video_id(s: Seq<char>) -> Option<Seq<char>> {
    if is_video_id(s) {
        Some(s)
    } else if marked_id(s, "watch?v="@, "&"@) is Some {
        marked_id(s, "watch?v="@, "&"@)
    } else if marked_id(s, "youtu.be/"@, "/?#"@) is Some {
        marked_id(s, "youtu.be/"@, "/?#"@)
    } else if marked_id(s, "/shorts/"@, "/?#"@) is Some {
        marked_id(s, "/shorts/"@, "/?#"@)
    } else if marked_id(s, "/embed/"@, "/?#"@) is Some {
        marked_id(s, "/embed/"@, "/?#"@)
    } else {
        marked_id(s, "/live/"@, "/?#"@)
    }
}

/// The page of the video that an input names, or what is wrong with the input.
pub open spec fn watch_outcome(input: Seq<char>) -> Result<Seq<char>, Seq<char>> {
    let s = trimmed(input);
    if s.len() == 0 {
        Err("视频 URL 或 ID 不能为空"@)
    } else {
        match video_id(s) {
            Some(id) => Ok(watch_page(id)),
            None => Err(
                "无法从 '"@ + s
                    + "' 识别视频 ID，请提供 watch URL（https://www.youtube.com/watch?v=...）或 11 位视频 ID"@,
            ),
        }
    }
}

/// The view of a text or an error.
pub open spec fn text_outcome(r: Result<String, String>) -> Result<Seq<char>, Seq<char>> {
    match r {
        Ok(s) => Ok(s@),
        Err(e) => Err(e@),
    }
}

fn id_char(c: char) -> (r: bool)
    ensures
        r == is_id_char(c),
{
    ('a' <= c && c <= 'z') || ('A' <= c && c <= 'Z') || ('0' <= c && c <= '9') || c == '-' || c
        == '_'
}

fn looks_like_id(s: &str) -> (r: bool)
    ensures
        r == is_video_id(s@),
{
    let cs = chars_of(s);
    if cs.len() != 11 {
        return false;
    }
    let mut i: usize = 0;
    while i < cs.len()
        invariant
            i <= cs@.len(),
            cs@ == s@,
            forall|k: int| 0 <= k < i ==> is_id_char(#[trigger] s@[k]),
        decreases cs.len() - i,
    {
        if !id_char(cs[i]) {
            assert(!is_id_char(s@[i as int]));
            return false;
        }
        i += 1;
    }
    true
}

fn id_behind(s: &str, marker: &str, stops: &str) -> (r: Option<String>)
    ensures
        opt_text(r) == marked_id(s@, marker@, stops@),
{
    match after(s, marker) {
        Some(tail) => {
            let id = trim(prefix_up_to(tail.as_str(), stops).as_str());
            if id.as_str().is_empty() {
                None
            } else {
                Some(id)
            }
        },
        None => None,
    }
}

fn find_id(s: &str) -> (r: Option<String>)
    ensures
        opt_text(r) == video_id(s@),
{
    if looks_like_id(s) {
        return Some(s.to_owned());
    }
    if let Some(id) = id_behind(s, "watch?v=", "&") {
        return Some(id);
    }
    if let Some(id) = id_behind(s, "youtu.be/", "/?#") {
        return Some(id);
    }
    if let Some(id) = id_behind(s, "/shorts/", "/?#") {
        return Some(id);
    }
    if let Some(id) = id_behind(s, "/embed/", "/?#") {
        return Some(id);
    }
    id_behind(s, "/live/", "/?#")
}

/// The page of the video that an input names: an id, or one of the usual forms of
/// address.
pub fn watch_url(input: &str) -> (r: Result<String, String>)
    ensures
        text_outcome(r) == watch_outcome(input@),
{
    let s = trim(input);
    if s.as_str().is_empty() {
        return Err("视频 URL 或 ID 不能为空".to_owned());
    }
    match find_id(s.as_str()) {
        Some(id) => {
            let mut url = "https://www.youtube.com/watch?v=".to_owned();
            url.append(id.as_str());
            Ok(url)
        },
        None => {
            let mut error = "无法从 '".to_owned();
            error.append(s.as_str());
            error.append("' 识别视频 ID，请提供 watch URL（https://www.youtube.com/watch?v=...）或 11 位视频 ID");
            Err(error)
        },
    }
}

// ---------------------------------------------------------------------------
// Every form of address names the same video
// ---------------------------------------------------------------------------

/// Whether a text ends an id: it is empty, or begins with one of `stops`.
pub open spec fn ends_id(tail: Seq<char>, stops: Seq<char>) -> bool {
    tail.len() == 0 || stops.contains(tail[0])
}

/// An id behind the first place of a marker is found, whatever follows it.
pub proof fn law_marked_id(
    before: Seq<char>,
    marker: Seq<char>,
    id: Seq<char>,
    tail: Seq<char>,
    stops: Seq<char>,
)
    requires
        is_video_id(id),
        first_at(before + marker + id + tail, marker, before.len() as int),
        stops == "&"@ || stops == "/?#"@,
        ends_id(tail, stops),
    ensures
        marked_id(before + marker + id + tail, marker, stops) == Some(id),
{
    let s = before + marker + id + tail;
    lemma_tail_after(s, marker, before.len() as int);
    assert(s.skip((before.len() + marker.len()) as int) =~= id + tail);
    reveal_strlit("&");
    reveal_strlit("/?#");
    assert forall|i: int| 0 <= i < id.len() implies !stops.contains(#[trigger] id[i]) by {
        assert(is_id_char(id[i]));
    }
    lemma_up_to_append(id, tail, stops);
    assert(id + up_to(tail, stops) =~= id);
    assert(is_id_char(id[0]) && is_id_char(id[10]));
    lemma_trimmed(id);
}

/// Whatever stands behind the first place of a marker, up to one of the stops, is taken
/// for the id, be it one or not.
pub proof fn law_marked_text(
    before: Seq<char>,
    marker: Seq<char>,
    text: Seq<char>,
    tail: Seq<char>,
    stops: Seq<char>,
)
    requires
        text.len() > 0 && tight(text),
        forall|i: int| 0 <= i < text.len() ==> !stops.contains(#[trigger] text[i]),
        first_at(before + marker + text + tail, marker, before.len() as int),
        ends_id(tail, stops),
    ensures
        marked_id(before + marker + text + tail, marker, stops) == Some(text),
{
    let s = before + marker + text + tail;
    lemma_tail_after(s, marker, before.len() as int);
    assert(s.skip((before.len() + marker.len()) as int) =~= text + tail);
    lemma_up_to_append(text, tail, stops);
    assert(text + up_to(tail, stops) =~= text);
    lemma_trimmed(text);
}

/// Behind `watch?v=` everything up to the next parameter is taken, be it an id or not.
pub proof fn law_watch_takes_all(before: Seq<char>, text: Seq<char>, tail: Seq<char>)
    requires
        unquestioned(before),
        text.len() > 0 && tight(text) && !text.contains('&'),
        ends_id(tail, "&"@),
    ensures
        video_id(before + "watch?v="@ + text + tail) == Some(text),
{
    let marker = "watch?v="@;
    let s = before + marker + text + tail;
    let at = before.len() as int;
    reveal_strlit("watch?v=");
    reveal_strlit("&");
    assert("&"@ =~= seq!['&']);
    assert forall|i: int| 0 <= i < text.len() implies !"&"@.contains(#[trigger] text[i]) by {
        assert(text.contains(text[i]));
    }
    assert(s.subrange(at, at + 8) =~= marker);
    assert forall|j: int| 0 <= j < at implies !#[trigger] occurs_at(s, marker, j) by {
        if occurs_at(s, marker, j) {
            assert(s.subrange(j, j + 8)[5] == s[j + 5]);
            assert(s[j + 5] == '?');
            if j + 5 < at {
                assert(before[j + 5] == '?');
            } else {
                assert(s[j + 5] == marker[j + 5 - at]);
            }
        }
    }
    law_marked_text(before, marker, text, tail, "&"@);
    assert(s[at + 5] == '?');
    assert(!is_video_id(s));
}

/// Whether no question mark stands in a text.
pub open spec fn unquestioned(s: Seq<char>) -> bool {
    forall|i: int| 0 <= i < s.len() ==> #[trigger] s[i] != '?'
}

proof fn lemma_no_watch(s: Seq<char>)
    requires
        unquestioned(s),
    ensures
        !occurs(s, "watch?v="@),
{
    reveal_strlit("watch?v=");
    assert forall|j: int| !#[trigger] occurs_at(s, "watch?v="@, j) by {
        if occurs_at(s, "watch?v="@, j) {
            assert(s.subrange(j, j + 8)[5] == s[j + 5]);
        }
    }
}

/// A `watch` address names the video that its `v` gives: whatever the host, and
/// whatever other parameters follow.
pub proof fn law_watch_address(before: Seq<char>, id: Seq<char>, tail: Seq<char>)
    requires
        unquestioned(before),
        is_video_id(id),
        ends_id(tail, "&"@),
    ensures
        video_id(before + "watch?v="@ + id + tail) == Some(id),
{
    let marker = "watch?v="@;
    let s = before + marker + id + tail;
    let at = before.len() as int;
    reveal_strlit("watch?v=");
    assert(s.subrange(at, at + 8) =~= marker);
    assert forall|j: int| 0 <= j < at implies !#[trigger] occurs_at(s, marker, j) by {
        if occurs_at(s, marker, j) {
            assert(s.subrange(j, j + 8)[5] == s[j + 5]);
            assert(s[j + 5] == '?');
            if j + 5 < at {
                assert(before[j + 5] == '?');
            } else {
                assert(s[j + 5] == marker[j + 5 - at]);
            }
        }
    }
    law_marked_id(before, marker, id, tail, "&"@);
    assert(s[at + 5] == '?');
    assert(!is_video_id(s));
}

/// The prefixes of the short forms of address.
pub open spec fn short_prefix(kind: int) -> Seq<char> {
    if kind == 0 {
        "https://youtu.be/"@
    } else if kind == 1 {
        "https://www.youtube.com/shorts/"@
    } else if kind == 2 {
        "https://www.youtube.com/embed/"@
    } else {
        "https://www.youtube.com/live/"@
    }
}

/// Where the slashes stand in a short address, and that it has no question mark.
#[verifier::rlimit(40)]
proof fn lemma_slashes(id: Seq<char>, kind: int)
    requires
        is_video_id(id),
        0 <= kind <= 3,
    ensures
        unquestioned(short_prefix(kind) + id),
        forall|j: int|
            0 <= j < (short_prefix(kind) + id).len() && #[trigger] (short_prefix(kind) + id)[j] == '/'
                ==> j == 6 || j == 7 || (kind == 0 && j == 16) || (kind > 0 && j == 23) || (kind == 1
                && j == 30) || (kind == 2 && j == 29) || (kind == 3 && j == 28),
{
    let p = short_prefix(kind);
    let s = p + id;
    reveal_strlit("https://youtu.be/");
    reveal_strlit("https://www.youtube.com/shorts/");
    reveal_strlit("https://www.youtube.com/embed/");
    reveal_strlit("https://www.youtube.com/live/");
    assert forall|j: int| 0 <= j < s.len() implies #[trigger] s[j] != '?' && (s[j] == '/' ==> j == 6
        || j == 7 || (kind == 0 && j == 16) || (kind > 0 && j == 23) || (kind == 1 && j == 30) || (
    kind == 2 && j == 29) || (kind == 3 && j == 28)) by {
        if j >= p.len() {
            assert(s[j] == id[j - p.len()]);
            assert(is_id_char(id[j - p.len()]));
        } else {
            assert(s[j] == p[j]);
            assert(j == 0 || j == 1 || j == 2 || j == 3 || j == 4 || j == 5 || j == 6 || j == 7 || j == 8 || j == 9 || j == 10 || j == 11 || j == 12 || j == 13 || j == 14 || j == 15 || j == 16 || j == 17 || j == 18 || j == 19 || j == 20 || j == 21 || j == 22 || j == 23 || j == 24 || j == 25 || j == 26 || j == 27 || j == 28 || j == 29 || j == 30);
        }
    }
}

/// Where the markers stand in a short address.
#[verifier::rlimit(40)]
proof fn lemma_markers(id: Seq<char>, kind: int)
    requires
        is_video_id(id),
        0 <= kind <= 3,
    ensures
        ({
            let s = short_prefix(kind) + id;
            &&& kind == 0 ==> first_at(s, "youtu.be/"@, 8) && s.skip(17) == id
            &&& kind > 0 ==> !occurs(s, "youtu.be/"@)
            &&& kind == 1 ==> first_at(s, "/shorts/"@, 23) && s.skip(31) == id
            &&& kind > 1 ==> !occurs(s, "/shorts/"@)
            &&& kind == 2 ==> first_at(s, "/embed/"@, 23) && s.skip(30) == id
            &&& kind > 2 ==> !occurs(s, "/embed/"@)
            &&& kind == 3 ==> first_at(s, "/live/"@, 23) && s.skip(29) == id
        }),
{
    let p = short_prefix(kind);
    let s = p + id;
    lemma_slashes(id, kind);
    reveal_strlit("https://youtu.be/");
    reveal_strlit("https://www.youtube.com/shorts/");
    reveal_strlit("https://www.youtube.com/embed/");
    reveal_strlit("https://www.youtube.com/live/");
    reveal_strlit("youtu.be/");
    reveal_strlit("/shorts/");
    reveal_strlit("/embed/");
    reveal_strlit("/live/");
    assert(s.skip(p.len() as int) =~= id);
    assert forall|j: int| #[trigger] occurs_at(s, "youtu.be/"@, j) implies kind == 0 && j == 8 by {
        assert(s.subrange(j, j + 9)[8] == s[j + 8]);
        assert(s.subrange(j, j + 9)[0] == s[j]);
        assert(s[j + 8] == '/');
        assert(s[15] == p[15] && s[8] == p[8]);
        assert(kind > 0 ==> s[22] == p[22] && s[21] == p[21] && s[20] == p[20]);
    }
    assert forall|j: int| #[trigger] occurs_at(s, "/shorts/"@, j) implies kind == 1 && j == 23 by {
        assert(s.subrange(j, j + 8)[0] == s[j]);
        assert(s.subrange(j, j + 8)[7] == s[j + 7]);
        assert(s[j] == '/' && s[j + 7] == '/');
    }
    assert forall|j: int| #[trigger] occurs_at(s, "/embed/"@, j) implies kind == 2 && j == 23 by {
        assert(s.subrange(j, j + 7)[0] == s[j]);
        assert(s.subrange(j, j + 7)[6] == s[j + 6]);
        assert(s[j] == '/' && s[j + 6] == '/');
    }
    assert forall|j: int| #[trigger] occurs_at(s, "/live/"@, j) implies kind == 3 && j == 23 by {
        assert(s.subrange(j, j + 6)[0] == s[j]);
        assert(s.subrange(j, j + 6)[5] == s[j + 5]);
        assert(s[j] == '/' && s[j + 5] == '/');
    }
    assert(kind == 0 ==> s.subrange(8, 17) =~= "youtu.be/"@);
    assert(kind == 1 ==> s.subrange(23, 31) =~= "/shorts/"@);
    assert(kind == 2 ==> s.subrange(23, 30) =~= "/embed/"@);
    assert(kind == 3 ==> s.subrange(23, 29) =~= "/live/"@);
}

/// The markers of the short forms of address.
pub open spec fn short_marker(kind: int) -> Seq<char> {
    if kind == 0 {
        "youtu.be/"@
    } else if kind == 1 {
        "/shorts/"@
    } else if kind == 2 {
        "/embed/"@
    } else {
        "/live/"@
    }
}

/// What is found behind the markers that are looked for before that of a short
/// form of address.
pub open spec fn id_before(s: Seq<char>, kind: int) -> Option<Seq<char>> {
    if marked_id(s, "watch?v="@, "&"@) is Some {
        marked_id(s, "watch?v="@, "&"@)
    } else if kind > 0 && marked_id(s, "youtu.be/"@, "/?#"@) is Some {
        marked_id(s, "youtu.be/"@, "/?#"@)
    } else if kind > 1 && marked_id(s, "/shorts/"@, "/?#"@) is Some {
        marked_id(s, "/shorts/"@, "/?#"@)
    } else if kind > 2 && marked_id(s, "/embed/"@, "/?#"@) is Some {
        marked_id(s, "/embed/"@, "/?#"@)
    } else {
        None
    }
}

/// The id behind the first marker of a short form of address is found, whatever
/// stands before the marker and behind the id, unless a marker that is looked for
/// earlier stands somewhere in the address and has another id behind it.
pub proof fn law_marked_address(before: Seq<char>, kind: int, id: Seq<char>, tail: Seq<char>)
    requires
        is_video_id(id),
        0 <= kind <= 3,
        ends_id(tail, "/?#"@),
        first_at(before + short_marker(kind) + id + tail, short_marker(kind), before.len() as int),
    ensures
        video_id(before + short_marker(kind) + id + tail) == match id_before(
            before + short_marker(kind) + id + tail,
            kind,
        ) {
            Some(other) => Some(other),
            None => Some(id),
        },
{
    let marker = short_marker(kind);
    let s = before + marker + id + tail;
    law_marked_id(before, marker, id, tail, "/?#"@);
    reveal_strlit("youtu.be/");
    reveal_strlit("/shorts/");
    reveal_strlit("/embed/");
    reveal_strlit("/live/");
    assert(s[before.len() + marker.len() - 1] == marker[marker.len() - 1]);
    assert(s[before.len() + marker.len() - 1] == '/');
    assert(!is_video_id(s));
}

/// Behind the first marker of a short form of address everything up to the end of the
/// segment is taken, be it an id or not, unless a marker that is looked for earlier has
/// something behind it.
pub proof fn law_short_form_takes_all(
    before: Seq<char>,
    kind: int,
    text: Seq<char>,
    tail: Seq<char>,
)
    requires
        0 <= kind <= 3,
        text.len() > 0 && tight(text),
        !text.contains('/') && !text.contains('?') && !text.contains('#'),
        ends_id(tail, "/?#"@),
        first_at(
            before + short_marker(kind) + text + tail,
            short_marker(kind),
            before.len() as int,
        ),
    ensures
        video_id(before + short_marker(kind) + text + tail) == match id_before(
            before + short_marker(kind) + text + tail,
            kind,
        ) {
            Some(other) => Some(other),
            None => Some(text),
        },
{
    let marker = short_marker(kind);
    let s = before + marker + text + tail;
    reveal_strlit("/?#");
    assert("/?#"@ =~= seq!['/', '?', '#']);
    assert forall|i: int| 0 <= i < text.len() implies !"/?#"@.contains(#[trigger] text[i]) by {
        assert(text.contains(text[i]));
    }
    law_marked_text(before, marker, text, tail, "/?#"@);
    reveal_strlit("youtu.be/");
    reveal_strlit("/shorts/");
    reveal_strlit("/embed/");
    reveal_strlit("/live/");
    assert(s[before.len() + marker.len() - 1] == marker[marker.len() - 1]);
    assert(s[before.len() + marker.len() - 1] == '/');
    assert(!is_video_id(s));
}

/// Whether no marker stands in a text, apart from the one that is looked for last.
pub open spec fn unmarked(s: Seq<char>) -> bool {
    &&& !occurs(s, "watch?v="@)
    &&& !occurs(s, "youtu.be/"@)
    &&& !occurs(s, "/shorts/"@)
    &&& !occurs(s, "/embed/"@)
}

/// A marker that stands neither in an address without its tail nor in its id and
/// its tail stands nowhere in the address.
proof fn lemma_not_across(p: Seq<char>, id: Seq<char>, tail: Seq<char>, marker: Seq<char>)
    requires
        p.len() > 0,
        p.last() == '/',
        is_video_id(id),
        0 < marker.len() <= 12,
        forall|i: int| 0 < i < marker.len() - 1 ==> #[trigger] marker[i] != '/',
        !occurs(p + id, marker),
        !occurs(id + tail, marker),
    ensures
        !occurs(p + id + tail, marker),
{
    let s = p + id + tail;
    let n = marker.len() as int;
    assert forall|j: int| !#[trigger] occurs_at(s, marker, j) by {
        if occurs_at(s, marker, j) {
            if j >= p.len() {
                let k = j - p.len();
                assert((id + tail).subrange(k, k + n) =~= s.subrange(j, j + n));
                assert(occurs_at(id + tail, marker, k));
            } else if j + n <= p.len() + 11 {
                assert((p + id).subrange(j, j + n) =~= s.subrange(j, j + n));
                assert(occurs_at(p + id, marker, j));
            } else {
                let i = p.len() - 1 - j;
                assert(s.subrange(j, j + n)[i] == s[p.len() - 1]);
                assert(s[p.len() - 1] == p.last());
                assert(marker[i] == '/');
            }
        }
    }
}

/// No marker that is looked for earlier stands in a short address whose id and
/// tail hold none.
#[verifier::rlimit(40)]
proof fn lemma_unmarked(id: Seq<char>, kind: int, tail: Seq<char>)
    requires
        is_video_id(id),
        0 <= kind <= 3,
        unmarked(id + tail),
    ensures
        id_before(short_prefix(kind) + id + tail, kind) is None,
{
    let p = short_prefix(kind);
    lemma_slashes(id, kind);
    lemma_no_watch(p + id);
    lemma_markers(id, kind);
    assert(p.len() > 0 && p.last() == '/') by {
        reveal_strlit("https://youtu.be/");
        reveal_strlit("https://www.youtube.com/shorts/");
        reveal_strlit("https://www.youtube.com/embed/");
        reveal_strlit("https://www.youtube.com/live/");
    }
    reveal_strlit("watch?v=");
    reveal_strlit("youtu.be/");
    reveal_strlit("/shorts/");
    reveal_strlit("/embed/");
    lemma_not_across(p, id, tail, "watch?v="@);
    if kind > 0 {
        lemma_not_across(p, id, tail, "youtu.be/"@);
    }
    if kind > 1 {
        lemma_not_across(p, id, tail, "/shorts/"@);
    }
    if kind > 2 {
        lemma_not_across(p, id, tail, "/embed/"@);
    }
}

/// A short address is its host, its marker, the id and what follows, and the
/// marker stands nowhere earlier.
#[verifier::rlimit(40)]
proof fn lemma_short_address(id: Seq<char>, kind: int, tail: Seq<char>) -> (before: Seq<char>)
    requires
        is_video_id(id),
        0 <= kind <= 3,
    ensures
        short_prefix(kind) + id + tail == before + short_marker(kind) + id + tail,
        first_at(
            before + short_marker(kind) + id + tail,
            short_marker(kind),
            before.len() as int,
        ),
{
    let p = short_prefix(kind);
    let s = p + id;
    let marker = short_marker(kind);
    let head = if kind == 0 {
        8
    } else {
        23int
    };
    lemma_markers(id, kind);
    reveal_strlit("youtu.be/");
    reveal_strlit("/shorts/");
    reveal_strlit("/embed/");
    reveal_strlit("/live/");
    assert(s.take(head) + marker + id =~= s) by {
        assert(s.subrange(head, head + marker.len()) == marker);
        assert(s.skip(head + marker.len()) =~= id);
        assert(s =~= s.take(head) + s.subrange(head, head + marker.len()) + s.skip(
            head + marker.len(),
        ));
    }
    lemma_first_at_append(s, tail, marker, head);
    s.take(head)
}

/// The short forms of address, like the id itself, all name the same video,
/// whatever path, parameters or fragment follow the id, as long as no other marker
/// stands among them.
pub proof fn law_short_addresses(id: Seq<char>, kind: int, tail: Seq<char>)
    requires
        is_video_id(id),
        0 <= kind <= 3,
        ends_id(tail, "/?#"@),
        unmarked(id + tail),
    ensures
        video_id(id) == Some(id),
        video_id(short_prefix(kind) + id + tail) == Some(id),
{
    lemma_unmarked(id, kind, tail);
    let before = lemma_short_address(id, kind, tail);
    law_marked_address(before, kind, id, tail);
}

/// Where no marker stands behind an id, none begins in the id either, unless a
/// `?v=` follows directly.
#[verifier::rlimit(40)]
pub proof fn law_unmarked_tail(id: Seq<char>, tail: Seq<char>)
    requires
        is_video_id(id),
        ends_id(tail, "/?#"@),
        unmarked(tail),
        !begins(tail, "?v="@),
    ensures
        unmarked(id + tail),
{
    let s = id + tail;
    reveal_strlit("/?#");
    reveal_strlit("?v=");
    reveal_strlit("watch?v=");
    reveal_strlit("youtu.be/");
    reveal_strlit("/shorts/");
    reveal_strlit("/embed/");
    assert forall|i: int| 0 <= i < 11 implies is_id_char(#[trigger] s[i]) by {
        assert(s[i] == id[i]);
    }
    assert(tail.len() > 0 ==> s[11] == tail[0]);
    assert forall|j: int| #[trigger] occurs_at(s, "watch?v="@, j) implies j >= 11 by {
        let m = s.subrange(j, j + 8);
        assert(m[0] == s[j] && m[1] == s[j + 1] && m[2] == s[j + 2] && m[3] == s[j + 3] && m[4]
            == s[j + 4] && m[5] == s[j + 5] && m[6] == s[j + 6] && m[7] == s[j + 7]);
        if j < 11 {
            assert(j + 5 == 11);
            assert(tail[1] == s[12] && tail[2] == s[13]);
            assert(tail.subrange(0, 3) =~= "?v="@);
        }
    }
    assert forall|j: int| #[trigger] occurs_at(s, "youtu.be/"@, j) implies j >= 11 by {
        let m = s.subrange(j, j + 9);
        assert(m[0] == s[j] && m[1] == s[j + 1] && m[2] == s[j + 2] && m[3] == s[j + 3] && m[4]
            == s[j + 4] && m[5] == s[j + 5]);
    }
    assert forall|j: int| #[trigger] occurs_at(s, "/shorts/"@, j) implies j >= 11 by {
        assert(s.subrange(j, j + 8)[0] == s[j]);
    }
    assert forall|j: int| #[trigger] occurs_at(s, "/embed/"@, j) implies j >= 11 by {
        assert(s.subrange(j, j + 7)[0] == s[j]);
    }
    lemma_only_behind(id, tail, "watch?v="@);
    lemma_only_behind(id, tail, "youtu.be/"@);
    lemma_only_behind(id, tail, "/shorts/"@);
    lemma_only_behind(id, tail, "/embed/"@);
}

proof fn lemma_only_behind(a: Seq<char>, b: Seq<char>, pat: Seq<char>)
    requires
        forall|j: int| #[trigger] occurs_at(a + b, pat, j) ==> j >= a.len(),
        !occurs(b, pat),
    ensures
        !occurs(a + b, pat),
{
    assert forall|j: int| !#[trigger] occurs_at(a + b, pat, j) by {
        if occurs_at(a + b, pat, j) {
            let k = j - a.len();
            assert(b.subrange(k, k + pat.len()) =~= (a + b).subrange(j, j + pat.len()));
            assert(occurs_at(b, pat, k));
        }
    }
}

/// White space around what names a video makes no difference.
pub proof fn law_space_makes_no_difference(a: Seq<char>, input: Seq<char>, b: Seq<char>)
    requires
        forall|i: int| 0 <= i < a.len() ==> is_space(#[trigger] a[i]),
        forall|i: int| 0 <= i < b.len() ==> is_space(#[trigger] b[i]),
    ensures
        watch_outcome(a + input + b) == watch_outcome(input),
{
    lemma_trimmed_between_spaces(a, input, b);
}

/// Whether a text neither begins nor ends with white space.
pub open spec fn tight(s: Seq<char>) -> bool {
    s.len() > 0 ==> !is_space(s[0]) && !is_space(s.last())
}

proof fn lemma_outcome(s: Seq<char>, id: Seq<char>)
    requires
        s.len() > 0,
        tight(s),
        video_id(s) == Some(id),
    ensures
        watch_outcome(s) == Ok::<Seq<char>, Seq<char>>(watch_page(id)),
{
    lemma_trimmed(s);
}

/// The page of a video is opened for its `watch` address on any host, with any
/// other parameters behind the id.
pub proof fn law_watch_addresses_agree(before: Seq<char>, id: Seq<char>, tail: Seq<char>)
    requires
        unquestioned(before),
        is_video_id(id),
        ends_id(tail, "&"@),
        tight(before),
        tight(tail),
    ensures
        watch_outcome(before + "watch?v="@ + id + tail) == Ok::<Seq<char>, Seq<char>>(
            watch_page(id),
        ),
{
    let s = before + "watch?v="@ + id + tail;
    law_watch_address(before, id, tail);
    reveal_strlit("watch?v=");
    assert(is_id_char(id[10]));
    assert(s[0] == if before.len() > 0 {
        before[0]
    } else {
        'w'
    });
    assert(s.last() == if tail.len() > 0 {
        tail.last()
    } else {
        id[10]
    });
    lemma_outcome(s, id);
}

/// Whatever form of address names a video, the same page is opened; the address
/// of that page is one of the forms.
#[verifier::rlimit(40)]
pub proof fn law_watch_forms_agree(id: Seq<char>, kind: int, tail: Seq<char>)
    requires
        is_video_id(id),
        0 <= kind <= 3,
        ends_id(tail, "/?#"@),
        unmarked(id + tail),
        tight(tail),
    ensures
        watch_outcome(id) == Ok::<Seq<char>, Seq<char>>(watch_page(id)),
        watch_outcome(watch_page(id)) == Ok::<Seq<char>, Seq<char>>(watch_page(id)),
        watch_outcome(short_prefix(kind) + id + tail) == Ok::<Seq<char>, Seq<char>>(watch_page(id)),
{
    law_short_addresses(id, kind, tail);
    assert(is_id_char(id[0]) && is_id_char(id[10]));
    lemma_outcome(id, id);
    let s = short_prefix(kind) + id + tail;
    assert(s[0] == 'h') by {
        reveal_strlit("https://youtu.be/");
        reveal_strlit("https://www.youtube.com/shorts/");
        reveal_strlit("https://www.youtube.com/embed/");
        reveal_strlit("https://www.youtube.com/live/");
    }
    assert(s.last() == if tail.len() > 0 {
        tail.last()
    } else {
        id[10]
    });
    lemma_outcome(s, id);
    lemma_page_is_a_form(id);
}

proof fn lemma_page_is_a_form(id: Seq<char>)
    requires
        is_video_id(id),
    ensures
        watch_outcome(watch_page(id)) == Ok::<Seq<char>, Seq<char>>(watch_page(id)),
{
    reveal_strlit("https://www.youtube.com/");
    reveal_strlit("watch?v=");
    reveal_strlit("https://www.youtube.com/watch?v=");
    let host = "https://www.youtube.com/"@;
    let none = Seq::<char>::empty();
    assert(host + "watch?v="@ =~= "https://www.youtube.com/watch?v="@);
    assert(host + "watch?v="@ + id + none =~= watch_page(id));
    assert forall|i: int| 0 <= i < host.len() implies #[trigger] host[i] != '?' by {
        assert(host.len() == 24);
        assert(i == 0 || i == 1 || i == 2 || i == 3 || i == 4 || i == 5 || i == 6 || i == 7 || i == 8 || i == 9 || i == 10 || i == 11 || i == 12 || i == 13 || i == 14 || i == 15 || i == 16 || i == 17 || i == 18 || i == 19 || i == 20 || i == 21 || i == 22 || i == 23);
    }
    law_watch_addresses_agree(host, id, none);
}

proof fn lemma_address()
    ensures
        forall|i: int|
            0 <= i < "https://www.youtube.com/watch"@.len() ==> #[trigger] "https://www.youtube.com/watch"@[i] != '?' && "https://www.youtube.com/watch"@[i] != '#',
{
    reveal_strlit("https://www.youtube.com/watch");
    let s = "https://www.youtube.com/watch"@;
    assert forall|i: int| 0 <= i < s.len() implies #[trigger] s[i] != '?' && s[i] != '#' by {
        assert(i == 0 || i == 1 || i == 2 || i == 3 || i == 4 || i == 5 || i == 6 || i == 7 || i == 8 || i == 9 || i == 10 || i == 11 || i == 12 || i == 13 || i == 14 || i == 15 || i == 16 || i == 17 || i == 18 || i == 19 || i == 20 || i == 21 || i == 22 || i == 23 || i == 24 || i == 25 || i == 26 || i == 27 || i == 28);
    }
}

proof fn lemma_id_is_plain(c: char)
    requires
        is_id_char(c),
    ensures
        is_plain(Place::Query, c),
{
}

/// The page of a video is its `watch` page, with the id as `v` and nothing else.
pub proof fn law_page_of_a_video(id: Seq<char>)
    requires
        is_video_id(id),
    ensures
        address_of(watch_page(id)) == "https://www.youtube.com/watch"@,
        query_pairs(watch_page(id)) == seq![("v"@, id)],
{
    let base = "https://www.youtube.com/watch"@;
    lemma_address();
    reveal_strlit("https://www.youtube.com/watch");
    reveal_strlit("https://www.youtube.com/watch?v=");
    reveal_strlit("v");
    assert forall|i: int| 0 <= i < id.len() implies is_plain(Place::Query, #[trigger] id[i]) by {
        lemma_id_is_plain(id[i]);
    }
    law_plain_text_unchanged(Place::Query, id);
    lemma_one_part(base, "v"@, id);
    assert("https://www.youtube.com/watch?v="@ =~= base + seq!['?'] + "v"@ + seq!['=']);
    assert(watch_page(id) =~= base + seq!['?'] + query_part("v"@, id));
}

/// An input in which there is nothing, and one that is no id and has none of the
/// markers, is answered what is wrong with it.
pub proof fn law_unknown_videos(input: Seq<char>)
    ensures
        all_space(input) ==> watch_outcome(input) == Err::<Seq<char>, Seq<char>>(
            "视频 URL 或 ID 不能为空"@,
        ),
        ({
            let s = trimmed(input);
            s.len() > 0 && !is_video_id(s) && !occurs(s, "watch?v="@) && !occurs(s, "youtu.be/"@)
                && !occurs(s, "/shorts/"@) && !occurs(s, "/embed/"@) && !occurs(s, "/live/"@)
                ==> watch_outcome(input) == Err::<Seq<char>, Seq<char>>(
                "无法从 '"@ + s
                    + "' 识别视频 ID，请提供 watch URL（https://www.youtube.com/watch?v=...）或 11 位视频 ID"@,
            )
        }),
{
    law_trimming(input);
}

// ---------------------------------------------------------------------------
// The recipe
// ---------------------------------------------------------------------------

/// The script that collects the details in the page.
pub const EXTRACT_SCRIPT: &'static str = r#"(async () => {
  const html = document.documentElement.outerHTML;
  const grab = (name) => {
    const start = html.indexOf('var ' + name + ' = {');
    if (start < 0) return null;
    const objStart = html.indexOf('{', start);
    let depth = 0;
    let inStr = false;
    let esc = false;
    let end = -1;
    for (let j = objStart; j < html.length; j++) {
      const ch = html[j];
      if (inStr) {
        if (esc) esc = false;
        else if (ch === '\\') esc = true;
        else if (ch === '"') inStr = false;
        continue;
      }
      if (ch === '"') inStr = true;
      else if (ch === '{') depth++;
      else if (ch === '}') {
        depth--;
        if (depth === 0) { end = j; break; }
      }
    }
    if (end < 0) return null;
    try { return JSON.parse(html.slice(objStart, end + 1)); } catch (e) { return null; }
  };
  const walk = (o, cb) => {
    if (!o || typeof o !== 'object') return;
    if (Array.isArray(o)) { for (const v of o) walk(v, cb); return; }
    cb(o);
    for (const k of Object.keys(o)) walk(o[k], cb);
  };
  const initial = grab('ytInitialData');
  const player = grab('ytInitialPlayerResponse');
  if (!player || !player.videoDetails) {
    return { ok: false, reason: 'no ytInitialPlayerResponse' };
  }
  const status = player.playabilityStatus && player.playabilityStatus.status;
  if (status && status !== 'OK' && status !== 'LOGIN_REQUIRED') {
    return { ok: false, reason: 'unplayable: ' + status };
  }
  const vd = player.videoDetails || {};
  const videoId = vd.videoId || null;
  const title = vd.title || null;
  const parsedLength = parseInt(vd.lengthSeconds, 10);
  const durationSeconds = Number.isFinite(parsedLength) ? parsedLength : null;
  const fmtDuration = (s) => {
    if (s === null) return null;
    const h = Math.floor(s / 3600);
    const m = Math.floor((s % 3600) / 60);
    const sec = s % 60;
    const mm = String(m).padStart(2, '0');
    const ss = String(sec).padStart(2, '0');
    return h > 0 ? h + ':' + mm + ':' + ss : Number(m) + ':' + ss;
  };

  // ---- ytInitialData：作者 / 订阅数 / 点赞数 ----
  let author = null;
  let authorUrl = null;
  let subscriberText = null;
  let likeRaw = null;
  if (initial) {
    walk(initial, (o) => {
      if (author) return;
      const v = o.videoOwnerRenderer;
      if (!v) return;
      if (v.title && v.title.runs) {
        author = v.title.runs.map((r) => r.text || '').join('');
      }
      const nav = v.navigationEndpoint && v.navigationEndpoint.commandMetadata
        && v.navigationEndpoint.commandMetadata.webCommandMetadata;
      if (nav && nav.url) {
        authorUrl = nav.url.indexOf('http') === 0 ? nav.url : 'https://www.youtube.com' + nav.url;
      }
    });
    walk(initial, (o) => {
      if (subscriberText) return;
      const v = o.videoOwnerRenderer;
      if (!v || !v.subscriberCountText) return;
      const s = v.subscriberCountText;
      const t = s.simpleText || (s.runs ? s.runs.map((r) => r.text || '').join('') : null);
      if (typeof t === 'string') subscriberText = t;
    });
    // 新版点赞按钮：iconName=LIKE 的 buttonViewModel.title 直接就是计数（如 "1.2万"）
    walk(initial, (o) => {
      if (likeRaw) return;
      if (o.buttonViewModel && o.buttonViewModel.iconName === 'LIKE' && o.buttonViewModel.title) {
        likeRaw = o.buttonViewModel.title;
      }
    });
    if (!likeRaw) {
      walk(initial, (o) => {
        if (likeRaw) return;
        const d = o.likeButtonStateData;
        if (d && typeof d.likeCount === 'string') {
          const digits = d.likeCount.replace(/[^0-9]/g, '');
          if (digits.length > 0) likeRaw = d.likeCount;
        }
      });
    }
    if (!likeRaw) {
      walk(initial, (o) => {
        if (likeRaw) return;
        const t = o.accessibilityText
          || (o.toggleButtonViewModel && o.toggleButtonViewModel.defaultButtonViewModel
              && o.toggleButtonViewModel.defaultButtonViewModel.accessibility
              && o.toggleButtonViewModel.defaultButtonViewModel.accessibility.text);
        if (typeof t === 'string' && /like|赞|喜欢/i.test(t) && /[0-9]/.test(t)) likeRaw = t;
      });
    }
  }

  // ---- InnerTube key / context / visitorData（页面内调接口用）----
  const keyM = html.match(/"INNERTUBE_API_KEY":"([^"]+)"/);
  const visitorM = html.match(/"VISITOR_DATA":"([^"]+)"/);
  let context = null;
  const ctxStart = html.indexOf('"INNERTUBE_CONTEXT":');
  if (ctxStart >= 0) {
    const start = html.indexOf('{', ctxStart);
    let depth = 0;
    let inStr = false;
    let esc = false;
    let end = -1;
    for (let j = start; j < html.length; j++) {
      const ch = html[j];
      if (inStr) {
        if (esc) esc = false;
        else if (ch === '\\') esc = true;
        else if (ch === '"') inStr = false;
        continue;
      }
      if (ch === '"') inStr = true;
      else if (ch === '{') depth++;
      else if (ch === '}') {
        depth--;
        if (depth === 0) { end = j; break; }
      }
    }
    if (end > 0) {
      try { context = JSON.parse(html.slice(start, end + 1)); } catch (e) { context = null; }
    }
  }
  const api = async (endpoint, body) => {
    if (!keyM || !context) return { j: null };
    try {
      const r = await fetch('/youtubei/v1/' + endpoint + '?key=' + encodeURIComponent(keyM[1]), {
        method: 'POST',
        headers: { 'content-type': 'application/json' },
        body: JSON.stringify(body),
      });
      let j = null;
      try { j = await r.json(); } catch (e) { j = null; }
      return { j: j };
    } catch (e) { return { j: null }; }
  };

  // ---- 评论数：用 InnerTube next + comments-section continuation ----
  let commentText = null;
  if (initial && keyM && context) {
    const toks = [];
    let lastTid = null;
    walk(initial, (o) => {
      if (o.targetId) lastTid = o.targetId;
      const c = o.continuationItemRenderer;
      if (c && c.continuationEndpoint && c.continuationEndpoint.continuationCommand) {
        const tok = c.continuationEndpoint.continuationCommand.token;
        if (tok) toks.push({ tok: tok, tid: lastTid });
      }
    });
    toks.sort((a, b) => (a.tid === 'comments-section' ? -1 : 1) - (b.tid === 'comments-section' ? -1 : 1));
    for (const t of toks.slice(0, 4)) {
      const r = await api('next', { context: context, continuation: t.tok });
      if (!r.j) continue;
      let ct = null;
      walk(r.j, (o) => {
        if (ct) return;
        if (o.commentsHeaderRenderer && o.commentsHeaderRenderer.countText) {
          const c = o.commentsHeaderRenderer.countText;
          const v = c.simpleText || (c.runs ? c.runs.map((x) => x.text || '').join('') : null);
          if (typeof v === 'string' && /[0-9]/.test(v)) ct = v;
        }
      });
      if (ct) { commentText = ct; break; }
    }
  }
  if (!commentText && initial) {
    walk(initial, (o) => {
      if (commentText) return;
      const h = o.commentsHeaderRenderer;
      if (h && h.countText) {
        const c = h.countText;
        const t = c.simpleText || (c.runs ? c.runs.map((r) => r.text || '').join('') : null);
        if (typeof t === 'string' && /[0-9]/.test(t)) commentText = t;
      }
    });
  }

  // ---- 字幕：页面内嵌轨道优先，失败则 android_vr 客户端兜底（yt-dlp 同款）----
  const nameOf = (t) => t.name
    ? (t.name.simpleText || (t.name.runs ? t.name.runs.map((r) => r.text || '').join('') : null))
    : null;
  const fetchTrack = async (t) => {
    let base = t.baseUrl || '';
    base = base.replace(/[?&]fmt=[^&]*/g, '');
    base += (base.indexOf('?') >= 0 ? '&' : '?') + 'fmt=json3';
    let text = null;
    let error = null;
    try {
      const r = await fetch(base, { credentials: 'include' });
      if (!r.ok) throw new Error('HTTP ' + r.status);
      const j = await r.json();
      const parts = [];
      for (const ev of (j.events || [])) {
        if (Array.isArray(ev.segs)) {
          for (const s of ev.segs) if (s.utf8) parts.push(s.utf8);
        }
      }
      text = parts.join('').replace(/\s+/g, ' ').trim();
      if (!text) error = 'empty transcript';
    } catch (e) {
      error = e && e.message ? e.message : String(e);
    }
    return {
      language_code: t.languageCode || null,
      name: nameOf(t),
      kind: t.kind || null,
      text: text,
      error: error,
    };
  };
  const embeddedTracks = (player.captions && player.captions.playerCaptionsTracklistRenderer
    && player.captions.playerCaptionsTracklistRenderer.captionTracks) || [];
  let captions = [];
  for (const t of embeddedTracks) captions.push(await fetchTrack(t));
  if (!captions.some((c) => c.text) && keyM && context && visitorM) {
    const vr = await api('player', {
      context: {
        client: {
          clientName: 'ANDROID_VR',
          clientVersion: '1.65.10',
          deviceMake: 'Oculus',
          deviceModel: 'Quest 3',
          androidSdkVersion: 32,
          userAgent: 'com.google.android.apps.youtube.vr.oculus/1.65.10 (Linux; U; Android 12L; eureka-user Build/SQ3A.220605.009.A1) gzip',
          osName: 'Android',
          osVersion: '12L',
          visitorData: visitorM[1],
          hl: 'en',
          gl: 'US',
        },
      },
      videoId: videoId,
      contentCheckOk: true,
      racyCheckOk: true,
    });
    if (vr.j && !vr.j.error) {
      const vrTracks = (vr.j.captions && vr.j.captions.playerCaptionsTracklistRenderer
        && vr.j.captions.playerCaptionsTracklistRenderer.captionTracks) || [];
      const vrCaps = [];
      for (const t of vrTracks) vrCaps.push(await fetchTrack(t));
      if (vrCaps.some((c) => c.text)) captions = vrCaps;
    }
  }

  const parseCount = (s) => {
    if (!s) return null;
    const m = String(s).match(/([0-9][0-9,]*\.?[0-9]*)\s*([万亿KMB])?/i);
    if (!m) return null;
    const n = parseFloat(m[1].replace(/,/g, ''));
    if (!Number.isFinite(n)) return null;
    const mult = {
      k: 1000, m: 1000000, b: 1000000000,
      '万': 10000, '亿': 100000000,
    }[m[2] ? m[2].toLowerCase() : ''];
    return mult ? Math.round(n * mult) : Math.round(n);
  };

  return {
    ok: true,
    video: {
      url: videoId ? 'https://www.youtube.com/watch?v=' + videoId : null,
      title: title,
      author: author,
      author_url: authorUrl,
      duration: fmtDuration(durationSeconds),
      duration_seconds: durationSeconds,
      like_count: parseCount(likeRaw),
      like_count_text: likeRaw,
      comment_count: parseCount(commentText),
      comment_count_text: commentText,
      subscriber_count: parseCount(subscriberText),
      subscriber_count_text: subscriberText,
      captions: captions,
    },
  };
})()"#;

/// How far the reading of a video is. `J` is the type of the values that it keeps.
#[derive(Debug)]
pub enum VideoInfo<J> {
    /// The page of the video is being opened.
    Opening,
    /// The details are being read.
    Reading { tab_id: J },
}

impl View for VideoInfo<Json> {
    type V = VideoInfo<JsonView>;

    open spec fn view(&self) -> VideoInfo<JsonView> {
        match self {
            VideoInfo::Opening => VideoInfo::Opening,
            VideoInfo::Reading { tab_id } => VideoInfo::Reading { tab_id: tab_id@ },
        }
    }
}

/// How the reading of a video begins.
pub open spec fn youtubeinfo_start(video: Seq<char>, tab: Option<i32>) -> ProgressView<
    VideoInfo<JsonView>,
> {
    match watch_outcome(video) {
        Ok(url) => ProgressView::Ask(VideoInfo::Opening, navigate_view("yiv1"@, url, tab)),
        Err(e) => ProgressView::Done(Err(e)),
    }
}

/// The reason that a script gives for having found nothing.
pub open spec fn reason_given(result: JsonView) -> Seq<char> {
    match text_field(result, "reason"@) {
        Some(reason) => reason,
        None => "unknown"@,
    }
}

/// What is made of the result of the script.
pub open spec fn video_outcome(tab_id: JsonView, result: JsonView) -> Result<JsonView, Seq<char>> {
    if bool_field(result, "ok"@) == Some(true) {
        Ok(
            JsonView::Object(
                Map::empty().insert("tab_id"@, tab_id).insert(
                    "video"@,
                    field_or_null(result, "video"@),
                ),
            ),
        )
    } else {
        Err(
            "YouTube 视频数据缺失（"@ + reason_given(result)
                + "），可能是视频不可用/地区限制/验证墙；确认浏览器能正常打开该视频后重试"@,
        )
    }
}

/// How the reading of a video goes on after each command.
pub open spec fn youtubeinfo_next(
    state: VideoInfo<JsonView>,
    reply: Result<JsonView, Seq<char>>,
) -> ProgressView<VideoInfo<JsonView>> {
    match (state, reply) {
        (_, Err(e)) => ProgressView::Done(Err(e)),
        (VideoInfo::Opening, Ok(nav)) => {
            let tab_id = field_or_null(nav, "tab_id"@);
            ProgressView::Ask(
                VideoInfo::Reading { tab_id },
                script_view("yiv2"@, EXTRACT_SCRIPT@, tab_id),
            )
        },
        (VideoInfo::Reading { tab_id }, Ok(fetched)) => ProgressView::Done(
            video_outcome(tab_id, field_or_null(fetched, "result"@)),
        ),
    }
}

/// The reading of a video opens the page that its input names, in the tab that was
/// given, runs the script in the tab that the browser has named, and returns that tab
/// and the video that the script has found. Where it has found none, the reason is in
/// the error. A command that fails ends the reading with its error.
#[verifier::rlimit(40)]
pub proof fn law_reading_of_a_video(
    video: Seq<char>,
    tab: Option<i32>,
    nav: JsonView,
    fetched: JsonView,
    error: Seq<char>,
)
    ensures
        match watch_outcome(video) {
            Err(e) => youtubeinfo_start(video, tab) == ProgressView::<VideoInfo<JsonView>>::Done(
                Err(e),
            ),
            Ok(page) => youtubeinfo_start(video, tab) matches ProgressView::Ask(opening, call) && {
                let result = match field(fetched, "result"@) {
                    Some(v) => v,
                    None => JsonView::Null,
                };
                &&& call.method == "navigate"@
                &&& bears_text(call, "url"@, page)
                &&& in_tab(call, tab)
                &&& bears_only(call, set!["url"@, "tab_id"@])
                &&& youtubeinfo_next(opening, Err(error)) == ProgressView::<
                    VideoInfo<JsonView>,
                >::Done(Err(error))
                &&& youtubeinfo_next(opening, Ok(nav)) matches ProgressView::Ask(reading, script) && {
                    &&& script.method == "run_script"@
                    &&& carries(script.params, nav, "tab_id"@)
                    &&& bears_text(script, "code"@, EXTRACT_SCRIPT@)
                    &&& bears_only(script, set!["code"@, "tab_id"@])
                    &&& youtubeinfo_next(reading, Err(error)) == ProgressView::<
                        VideoInfo<JsonView>,
                    >::Done(Err(error))
                    &&& field(result, "ok"@) == Some(JsonView::Bool(true)) ==> (youtubeinfo_next(
                        reading,
                        Ok(fetched),
                    ) matches ProgressView::Done(Ok(out)) && carries(out, nav, "tab_id"@)
                        && carries(out, result, "video"@) && (forall|name: Seq<char>| #[trigger]
                        field(out, name) is Some ==> name == "tab_id"@ || name == "video"@))
                    &&& field(result, "ok"@) != Some(JsonView::Bool(true)) ==> youtubeinfo_next(
                        reading,
                        Ok(fetched),
                    ) == ProgressView::<VideoInfo<JsonView>>::Done(
                        Err(
                            "YouTube 视频数据缺失（"@ + (match field(result, "reason"@) {
                                Some(JsonView::Text(reason)) => reason,
                                _ => "unknown"@,
                            }) + "），可能是视频不可用/地区限制/验证墙；确认浏览器能正常打开该视频后重试"@,
                        ),
                    )
                }
            },
        },
{
    lemma_param_names();
    lemma_result_names();
}

/// The reason that a script gives for having found nothing.
pub fn reason_of(result: &Json) -> (r: String)
    ensures
        r@ == reason_given(result@),
{
    match result.get_str("reason") {
        Some(reason) => reason.to_owned(),
        None => "unknown".to_owned(),
    }
}

/// Whether a script says that it has found something.
pub fn is_ok(result: &Json) -> (r: bool)
    ensures
        r == (bool_field(result@, "ok"@) == Some(true)),
{
    match result.get_bool("ok") {
        Some(b) => b,
        None => false,
    }
}

/// Begins the reading of a video. Its outcome is `{ "tab_id": ..., "video": ... }`.
pub fn youtubeinfo(video: &str, tab: Option<i32>) -> (r: Progress<VideoInfo<Json>>)
    ensures
        r@ == youtubeinfo_start(video@, tab),
{
    match watch_url(video) {
        Ok(url) => Progress::Ask(VideoInfo::Opening, navigate_call("yiv1", url.as_str(), tab)),
        Err(e) => Progress::Done(Err(e)),
    }
}

impl VideoInfo<Json> {
    /// Goes on with what the last command brought.
    pub fn step(self, reply: Result<Json, String>) -> (r: Progress<VideoInfo<Json>>)
        ensures
            r@ == youtubeinfo_next(self@, outcome_view(reply)),
    {
        let value = match reply {
            Ok(value) => value,
            Err(e) => {
                return Progress::Done(Err(e));
            },
        };
        match self {
            VideoInfo::Opening => {
                let tab_id = value.get_or_null("tab_id");
                let call = script_call("yiv2", EXTRACT_SCRIPT, tab_id.clone());
                Progress::Ask(VideoInfo::Reading { tab_id }, call)
            },
            VideoInfo::Reading { tab_id } => {
                let result = value.get_or_null("result");
                if is_ok(&result) {
                    let mut entries: Vec<(String, Json)> = Vec::new();
                    put(&mut entries, "tab_id", tab_id);
                    put(&mut entries, "video", result.get_or_null("video"));
                    Progress::Done(Ok(Json::Object(entries)))
                } else {
                    let mut error = "YouTube 视频数据缺失（".to_owned();
                    error.append(reason_of(&result).as_str());
                    error.append("），可能是视频不可用/地区限制/验证墙；确认浏览器能正常打开该视频后重试");
                    Progress::Done(Err(error))
                }
            },
        }
    }
}

} // verus!
