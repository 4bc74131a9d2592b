//! The videos of a YouTube channel.
//!
//! They are read from the data that the page of the channel carries and, where
//! that is not enough, from the continuations of it.
use vstd::prelude::*;

use crate::encode::{
    decoded, enc_segment, is_inert, is_plain, law_encoded_is_inert, law_plain_text_unchanged,
    law_text_is_read_back, segment_encoded, Place,
};
use crate::json::{
    bool_field, field, field_or_null, items_field, outcome_view, put, views, Json, JsonView,
};
use crate::names::{lemma_param_names, lemma_result_names};
use crate::recipes::youtubeinfo::{ends_id, is_ok, reason_given, reason_of, text_outcome};
use crate::recipes::youtubesearch::at_least_one;
use crate::recipes::{
    bears_only, bears_text, carries, in_tab, navigate_call, navigate_view, script_call,
    script_view, Progress, ProgressView,
};
use crate::target::{law_locator_locates, locates, locator, locator_view};
use crate::text::{
    after, begins, decimal, decimal_text, is_space, join, join_texts, law_joined_is_split_again,
    lemma_split_first,
    lemma_tail_after, lemma_trim_end_append, lemma_trim_end_prefix, lemma_trimmed,
    lemma_up_to_append, occurs_at, prefix_up_to, same, split, split_text, strip_prefix, tail_after,
    texts, is_tight, trim, trim_end, trim_start, trimmed, up_to,
};

verus! {

// ---------------------------------------------------------------------------
// The address of a channel
// ---------------------------------------------------------------------------

/// The address of the videos of a channel.
pub open spec fn channel_page(base: Seq<char>) -> Seq<char> {
    "https://www.youtube.com/"@ + base + "/videos"@
}

/// What an input is answered that names no channel.
pub open spec fn no_channel_text(input: Seq<char>) -> Seq<char> {
    "无法从 '"@ + input
        + "' 识别频道 handle，请提供如 https://www.youtube.com/@handle/videos 或 @handle"@
}

/// An address without its scheme.
pub open spec fn without_scheme(s: Seq<char>) -> Seq<char> {
    if begins(s, "http://"@) {
        s.skip("http://"@.len() as int)
    } else if begins(s, "https://"@) {
        s.skip("https://"@.len() as int)
    } else {
        s
    }
}

/// The pieces that are not empty.
pub open spec fn filled(parts: Seq<Seq<char>>) -> Seq<Seq<char>>
    decreases parts.len(),
{
    if parts.len() == 0 {
        Seq::empty()
    } else if parts.last().len() > 0 {
        filled(parts.drop_last()).push(parts.last())
    } else {
        filled(parts.drop_last())
    }
}

/// The segments of the path that follows the host: what lies between slashes, up
/// to a query or a fragment.
pub open spec fn path_segments(tail: Seq<char>) -> Seq<Seq<char>> {
    filled(split(trimmed(up_to("/"@ + tail, "?#"@)), '/'))
}

/// How many segments name a channel: a handle is one, and `c`, `user` and
/// `channel` are followed by a name.
pub open spec fn naming_segments(segments: Seq<Seq<char>>) -> int {
    if begins(segments[0], "@"@) {
        1
    } else if (segments[0] == "c"@ || segments[0] == "user"@ || segments[0] == "channel"@)
        && segments.len() >= 2 {
        2
    } else {
        1
    }
}

/// The segments, encoded and with slashes between them.
pub open spec fn encoded_path(segments: Seq<Seq<char>>) -> Seq<char> {
    join(segments.map_values(|s: Seq<char>| segment_encoded(s)), "/"@)
}

/// The page of the channel that an input names, or what is wrong with the input.
pub open spec fn videos_outcome(input: Seq<char>) -> Result<Seq<char>, Seq<char>> {
    let s = trimmed(input);
    let rest = without_scheme(s);
    if s.len() == 0 {
        Err("频道 URL 或 handle 不能为空"@)
    } else if rest == "youtube.com"@ || rest == "www.youtube.com"@ {
        Err(no_channel_text(s))
    } else {
        match tail_after(rest, "/"@) {
            None => Ok(channel_page(segment_encoded(rest))),
            Some(tail) => {
                let segments = path_segments(tail);
                if segments.len() == 0 {
                    Err(no_channel_text(s))
                } else {
                    Ok(channel_page(encoded_path(segments.take(naming_segments(segments)))))
                }
            },
        }
    }
}

fn no_channel(input: &str) -> (r: String)
    ensures
        r@ == no_channel_text(input@),
{
    let mut error = "无法从 '".to_owned();
    error.append(input);
    error.append("' 识别频道 handle，请提供如 https://www.youtube.com/@handle/videos 或 @handle");
    error
}

fn page_of(base: &str) -> (r: String)
    ensures
        r@ == channel_page(base@),
{
    let mut url = "https://www.youtube.com/".to_owned();
    url.append(base);
    url.append("/videos");
    url
}

fn strip_scheme(s: &str) -> (r: String)
    ensures
        r@ == without_scheme(s@),
{
    match strip_prefix(s, "http://") {
        Some(rest) => rest,
        None => match strip_prefix(s, "https://") {
            Some(rest) => rest,
            None => s.to_owned(),
        },
    }
}

fn segments_of(tail: &str) -> (r: Vec<String>)
    ensures
        texts(r@) == path_segments(tail@),
{
    let mut path = "/".to_owned();
    path.append(tail);
    let path = trim(prefix_up_to(path.as_str(), "?#").as_str());
    let parts = split_text(path.as_str(), '/');
    let ghost all = texts(parts@);
    let mut out: Vec<String> = Vec::new();
    let mut i: usize = 0;
    assert(texts(out@) =~= filled(all.take(0)));
    while i < parts.len()
        invariant
            i <= parts@.len(),
            all == texts(parts@),
            texts(out@) == filled(all.take(i as int)),
        decreases parts.len() - i,
    {
        assert(all.take(i + 1).drop_last() =~= all.take(i as int));
        assert(all.take(i + 1).last() == parts@[i as int]@);
        if !parts[i].as_str().is_empty() {
            let ghost before = texts(out@);
            out.push(parts[i].clone());
            assert(texts(out@) =~= before.push(parts@[i as int]@));
        }
        i += 1;
    }
    assert(all.take(parts@.len() as int) =~= all);
    out
}

/// The page of the videos of the channel that an input names: a handle, or one of
/// the usual forms of address.
pub fn videos_url(input: &str) -> (r: Result<String, String>)
    ensures
        text_outcome(r) == videos_outcome(input@),
{
    let s = trim(input);
    if s.as_str().is_empty() {
        return Err("频道 URL 或 handle 不能为空".to_owned());
    }
    let rest = strip_scheme(s.as_str());
    if same(rest.as_str(), "youtube.com") || same(rest.as_str(), "www.youtube.com") {
        return Err(no_channel(s.as_str()));
    }
    let tail = match after(rest.as_str(), "/") {
        Some(tail) => tail,
        None => {
            return Ok(page_of(enc_segment(rest.as_str()).as_str()));
        },
    };
    let segments = segments_of(tail.as_str());
    let ghost all = texts(segments@);
    if segments.len() == 0 {
        return Err(no_channel(s.as_str()));
    }
    assert(all[0] == segments@[0]@);
    let first = segments[0].as_str();
    let is_handle = match strip_prefix(first, "@") {
        Some(_) => true,
        None => false,
    };
    let is_pair = same(first, "c") || same(first, "user") || same(first, "channel");
    let count: usize = if !is_handle && is_pair && segments.len() >= 2 {
        2
    } else {
        1
    };
    let mut encoded: Vec<String> = Vec::new();
    encoded.push(enc_segment(first));
    if count == 2 {
        encoded.push(enc_segment(segments[1].as_str()));
    }
    let base = join_texts(&encoded, "/");
    proof {
        assert(count == naming_segments(all));
        assert(texts(encoded@) =~= all.take(count as int).map_values(
            |s: Seq<char>| segment_encoded(s),
        ));
    }
    Ok(page_of(base.as_str()))
}

// ---------------------------------------------------------------------------
// Every form of address names the same channel
// ---------------------------------------------------------------------------

/// Whether a text can stand behind the `@` of a handle as it is.
pub open spec fn is_handle(h: Seq<char>) -> bool {
    forall|i: int| 0 <= i < h.len() ==> is_plain(Place::Query, #[trigger] h[i])
}

/// Whether no slash stands in a text.
pub open spec fn slashless(s: Seq<char>) -> bool {
    forall|i: int| 0 <= i < s.len() ==> #[trigger] s[i] != '/'
}

proof fn lemma_handle_char(c: char)
    requires
        is_plain(Place::Query, c),
    ensures
        is_plain(Place::Segment, c),
        c != '/' && c != '?' && c != '#',
        !is_space(c),
{
}

proof fn lemma_filled_append(a: Seq<Seq<char>>, b: Seq<Seq<char>>)
    ensures
        filled(a + b) == filled(a) + filled(b),
    decreases b.len(),
{
    if b.len() > 0 {
        assert((a + b).drop_last() =~= a + b.drop_last());
        assert((a + b).last() == b.last());
        lemma_filled_append(a, b.drop_last());
        assert(filled(a + b) =~= filled(a) + filled(b));
    } else {
        assert(a + b =~= a);
        assert(filled(a) + filled(b) =~= filled(a));
    }
}

/// The first segment of a path that begins with a handle is the handle.
#[verifier::rlimit(40)]
proof fn lemma_handle_segment(h: Seq<char>, tail: Seq<char>)
    requires
        is_handle(h),
        ends_id(tail, "/?#"@),
    ensures
        path_segments("@"@ + h + tail).len() > 0,
        path_segments("@"@ + h + tail)[0] == "@"@ + h,
{
    reveal_strlit("/");
    reveal_strlit("@");
    reveal_strlit("?#");
    reveal_strlit("/?#");
    let name = "@"@ + h;
    let a = "/"@ + name;
    assert("/"@ + (name + tail) =~= a + tail);
    assert forall|i: int| 0 <= i < a.len() implies !"?#"@.contains(#[trigger] a[i]) by {
        if i >= 2 {
            assert(a[i] == h[i - 2]);
            lemma_handle_char(h[i - 2]);
        }
    }
    lemma_up_to_append(a, tail, "?#"@);
    let u = up_to(tail, "?#"@);
    if tail.len() > 0 {
        assert("?#"@[0] == '?' && "?#"@[1] == '#');
        assert(u.len() > 0 ==> u[0] == '/');
    }
    assert(!is_space(a.last())) by {
        if h.len() > 0 {
            assert(a.last() == h[h.len() - 1]);
            lemma_handle_char(h[h.len() - 1]);
        }
    }
    lemma_trim_end_append(a, u);
    lemma_trim_end_prefix(u);
    let v = trim_end(u);
    assert((a + u)[0] == '/');
    assert(trimmed(a + u) == a + v);
    let none = Seq::<char>::empty();
    assert forall|i: int| 0 <= i < name.len() implies #[trigger] name[i] != '/' by {
        if i >= 1 {
            assert(name[i] == h[i - 1]);
            lemma_handle_char(h[i - 1]);
        }
    }
    assert(a + v =~= none + seq!['/'] + (name + v));
    lemma_split_first(none, name + v, '/');
    let rest = split(name + v, '/');
    if v.len() > 0 {
        assert(v[0] == '/');
        let w = v.drop_first();
        assert(name + v =~= name + seq!['/'] + w);
        lemma_split_first(name, w, '/');
        lemma_filled_append(seq![name], split(w, '/'));
    } else {
        assert(name + v =~= name);
        lemma_split_first(name, none, '/');
    }
    reveal_with_fuel(filled, 2);
    assert(filled(seq![name]) =~= seq![name]) by {
        assert(seq![name].drop_last() =~= Seq::<Seq<char>>::empty());
    }
    assert(filled(seq![none]) =~= Seq::<Seq<char>>::empty()) by {
        assert(seq![none].drop_last() =~= Seq::<Seq<char>>::empty());
    }
    lemma_filled_append(seq![none], rest);
}

/// A handle, with its `@`, is made of characters that stand for themselves in a
/// path.
proof fn lemma_handle_name(h: Seq<char>)
    requires
        is_handle(h),
    ensures
        ("@"@ + h).len() == h.len() + 1,
        ("@"@ + h)[0] == '@',
        slashless("@"@ + h),
        !is_space(("@"@ + h).last()),
        segment_encoded("@"@ + h) == "@"@ + h,
{
    reveal_strlit("@");
    let name = "@"@ + h;
    assert forall|i: int| 0 <= i < name.len() implies is_plain(Place::Segment, #[trigger] name[i])
        && name[i] != '/' && !is_space(name[i]) by {
        if i >= 1 {
            assert(name[i] == h[i - 1]);
            lemma_handle_char(h[i - 1]);
        }
    }
    law_plain_text_unchanged(Place::Segment, name);
    assert(!is_space(name[name.len() - 1]));
}

/// An input that begins with `@` has no scheme, and is not a bare host.
proof fn lemma_no_scheme(name: Seq<char>)
    requires
        name.len() > 0,
        name[0] == '@',
    ensures
        without_scheme(name) == name,
        name != "youtube.com"@,
        name != "www.youtube.com"@,
{
    reveal_strlit("http://");
    reveal_strlit("https://");
    reveal_strlit("youtube.com");
    reveal_strlit("www.youtube.com");
    if begins(name, "http://"@) {
        assert(name.subrange(0, 7)[0] == name[0]);
    }
    if begins(name, "https://"@) {
        assert(name.subrange(0, 8)[0] == name[0]);
    }
    assert("youtube.com"@[0] == 'y' && "www.youtube.com"@[0] == 'w');
}

/// The scheme is cut off an address whose host is followed by a handle.
#[verifier::rlimit(40)]
proof fn lemma_scheme(scheme: Seq<char>, host: Seq<char>, rest: Seq<char>)
    requires
        scheme == ""@ || scheme == "http://"@ || scheme == "https://"@,
        slashless(host),
        rest.len() >= host.len() + 2,
        rest.take(host.len() as int) == host,
        rest[host.len() as int] == '/',
        rest[host.len() as int + 1] != '/',
    ensures
        without_scheme(scheme + rest) == rest,
{
    reveal_strlit("");
    reveal_strlit("http://");
    reveal_strlit("https://");
    let n = host.len() as int;
    let s = scheme + rest;
    if scheme.len() == 0 {
        assert(s =~= rest);
        if begins(s, "http://"@) {
            assert(s.subrange(0, 7)[5] == s[5] && s.subrange(0, 7)[6] == s[6]);
            if n > 5 {
                assert(host[5] == rest.take(n)[5]);
            }
            assert(s.subrange(0, 7)[n] == s[n] && s.subrange(0, 7)[n + 1] == s[n + 1]);
        }
        if begins(s, "https://"@) {
            assert(s.subrange(0, 8)[6] == s[6] && s.subrange(0, 8)[7] == s[7]);
            if n > 6 {
                assert(host[6] == rest.take(n)[6]);
            }
            assert(s.subrange(0, 8)[n] == s[n] && s.subrange(0, 8)[n + 1] == s[n + 1]);
        }
    } else if scheme == "http://"@ {
        assert(s.subrange(0, 7) =~= "http://"@);
        assert(s.skip(7) =~= rest);
    } else {
        assert(s.subrange(0, 8) =~= "https://"@);
        assert(s.subrange(0, 7)[4] == s[4]);
        assert(s[4] == 's');
        assert(s.skip(8) =~= rest);
    }
}

/// A handle is found behind the host of an address.
proof fn lemma_behind_host(host: Seq<char>, tail: Seq<char>)
    requires
        slashless(host),
    ensures
        tail_after(host + "/"@ + tail, "/"@) == Some(tail),
        host + "/"@ + tail != "youtube.com"@,
        host + "/"@ + tail != "www.youtube.com"@,
{
    reveal_strlit("/");
    let rest = host + "/"@ + tail;
    let n = host.len() as int;
    assert(rest[n] == '/');
    assert(rest.subrange(n, n + 1) =~= "/"@);
    assert forall|j: int| 0 <= j < n implies !#[trigger] occurs_at(rest, "/"@, j) by {
        if occurs_at(rest, "/"@, j) {
            assert(rest.subrange(j, j + 1)[0] == rest[j]);
            assert(rest[j] == host[j]);
        }
    }
    lemma_tail_after(rest, "/"@, n);
    assert(rest.skip(n + 1) =~= tail);
    lemma_no_slash_in_hosts(n);
}

/// A handle alone opens its page of videos.
pub proof fn law_handle_alone(h: Seq<char>)
    requires
        is_handle(h),
    ensures
        videos_outcome("@"@ + h) == Ok::<Seq<char>, Seq<char>>(channel_page("@"@ + h)),
        videos_outcome("@"@ + h) == Ok::<Seq<char>, Seq<char>>(
            "https://www.youtube.com/"@ + ("@"@ + h) + "/videos"@,
        ),
{
    let name = "@"@ + h;
    lemma_handle_name(h);
    lemma_trimmed(name);
    lemma_no_scheme(name);
    reveal_strlit("/");
    assert forall|j: int| !#[trigger] occurs_at(name, "/"@, j) by {
        if occurs_at(name, "/"@, j) {
            assert(name.subrange(j, j + 1)[0] == name[j]);
        }
    }
}

/// White space at the end of an address is white space at the end of what follows
/// its handle.
#[verifier::rlimit(40)]
proof fn lemma_trimmed_address(
    scheme: Seq<char>,
    host: Seq<char>,
    name: Seq<char>,
    tail: Seq<char>,
)
    requires
        scheme == ""@ || scheme == "http://"@ || scheme == "https://"@,
        host.len() > 0 && !is_space(host[0]),
        name.len() > 0 && !is_space(name.last()),
    ensures
        trimmed(scheme + (host + "/"@ + (name + tail))) == scheme + (host + "/"@ + (name + trim_end(
            tail,
        ))),
{
    reveal_strlit("");
    reveal_strlit("http://");
    reveal_strlit("https://");
    let input = scheme + (host + "/"@ + (name + tail));
    let front = scheme + (host + "/"@ + name);
    let t = trim_end(tail);
    assert(input =~= front + tail);
    assert(scheme + (host + "/"@ + (name + t)) =~= front + t);
    assert(front.last() == name.last());
    lemma_trim_end_append(front, tail);
    assert(input[0] == if scheme.len() > 0 {
        scheme[0]
    } else {
        host[0]
    });
    assert(trim_start(input) == input);
}

/// A path that begins with a handle names the channel of the handle.
proof fn lemma_handle_path(h: Seq<char>, t: Seq<char>)
    requires
        is_handle(h),
        ends_id(t, "/?#"@),
    ensures
        ({
            let segments = path_segments("@"@ + h + t);
            &&& segments.len() > 0
            &&& encoded_path(segments.take(naming_segments(segments))) == "@"@ + h
        }),
{
    let name = "@"@ + h;
    lemma_handle_name(h);
    lemma_handle_segment(h, t);
    let segments = path_segments(name + t);
    assert(begins(segments[0], "@"@)) by {
        reveal_strlit("@");
        assert(name.subrange(0, 1) =~= "@"@);
    }
    let coded = segments.take(1).map_values(|x: Seq<char>| segment_encoded(x));
    assert(coded.len() == 1 && coded[0] == name);
}

/// Whatever the scheme and the host before a handle, and whatever path, query or
/// fragment after it, the same page of videos is opened as for the handle alone.
#[verifier::rlimit(40)]
pub proof fn law_handle_forms_agree(
    scheme: Seq<char>,
    host: Seq<char>,
    h: Seq<char>,
    tail: Seq<char>,
)
    requires
        scheme == ""@ || scheme == "http://"@ || scheme == "https://"@,
        host.len() > 0 && slashless(host) && !is_space(host[0]),
        is_handle(h),
        ends_id(tail, "/?#"@),
    ensures
        videos_outcome(scheme + (host + "/"@ + ("@"@ + h + tail))) == videos_outcome("@"@ + h),
{
    let name = "@"@ + h;
    let t = trim_end(tail);
    let rest = host + "/"@ + (name + t);
    lemma_handle_name(h);
    law_handle_alone(h);
    lemma_trim_end_prefix(tail);
    assert(ends_id(t, "/?#"@));
    lemma_trimmed_address(scheme, host, name, tail);
    assert(rest.take(host.len() as int) =~= host);
    assert(rest[host.len() as int] == '/' && rest[host.len() as int + 1] == '@') by {
        reveal_strlit("/");
        assert((name + t)[0] == name[0]);
    }
    lemma_scheme(scheme, host, rest);
    lemma_behind_host(host, name + t);
    lemma_handle_path(h, t);
}

/// The segments of a path that begins with two segments.
#[verifier::rlimit(40)]
proof fn lemma_two_segments(first: Seq<char>, second: Seq<char>, tail: Seq<char>)
    requires
        first.len() > 0 && is_handle(first),
        second.len() > 0 && is_handle(second),
        ends_id(tail, "/?#"@),
    ensures
        path_segments(first + seq!['/'] + second + tail).len() >= 2,
        path_segments(first + seq!['/'] + second + tail)[0] == first,
        path_segments(first + seq!['/'] + second + tail)[1] == second,
{
    reveal_strlit("/");
    reveal_strlit("?#");
    reveal_strlit("/?#");
    let path = first + seq!['/'] + second;
    let a = "/"@ + path;
    assert("/"@ + (path + tail) =~= a + tail);
    assert forall|i: int| 0 <= i < a.len() implies !"?#"@.contains(#[trigger] a[i]) by {
        if 1 <= i <= first.len() {
            assert(a[i] == first[i - 1]);
            lemma_handle_char(first[i - 1]);
        } else if i > first.len() + 1 {
            assert(a[i] == second[i - first.len() - 2]);
            lemma_handle_char(second[i - first.len() - 2]);
        }
    }
    lemma_up_to_append(a, tail, "?#"@);
    let u = up_to(tail, "?#"@);
    if tail.len() > 0 {
        assert("?#"@[0] == '?' && "?#"@[1] == '#');
        assert(u.len() > 0 ==> u[0] == '/');
    }
    assert(!is_space(a.last())) by {
        assert(a.last() == second[second.len() - 1]);
        lemma_handle_char(second[second.len() - 1]);
    }
    lemma_trim_end_append(a, u);
    lemma_trim_end_prefix(u);
    let v = trim_end(u);
    assert((a + u)[0] == '/');
    assert(trimmed(a + u) == a + v);
    let none = Seq::<char>::empty();
    assert forall|i: int| 0 <= i < first.len() implies #[trigger] first[i] != '/' by {
        lemma_handle_char(first[i]);
    }
    assert forall|i: int| 0 <= i < second.len() implies #[trigger] second[i] != '/' by {
        lemma_handle_char(second[i]);
    }
    let after_first = second + v;
    let after_slash = first + seq!['/'] + after_first;
    assert(a + v =~= none + seq!['/'] + after_slash);
    lemma_split_first(none, after_slash, '/');
    lemma_split_first(first, after_first, '/');
    let rest = split(after_first, '/');
    if v.len() > 0 {
        assert(v[0] == '/');
        let w = v.drop_first();
        assert(after_first =~= second + seq!['/'] + w);
        lemma_split_first(second, w, '/');
        lemma_filled_append(seq![second], split(w, '/'));
    } else {
        assert(after_first =~= second);
        lemma_split_first(second, none, '/');
    }
    reveal_with_fuel(filled, 2);
    assert(filled(seq![first]) =~= seq![first]) by {
        assert(seq![first].drop_last() =~= Seq::<Seq<char>>::empty());
    }
    assert(filled(seq![second]) =~= seq![second]) by {
        assert(seq![second].drop_last() =~= Seq::<Seq<char>>::empty());
    }
    assert(filled(seq![none]) =~= Seq::<Seq<char>>::empty()) by {
        assert(seq![none].drop_last() =~= Seq::<Seq<char>>::empty());
    }
    lemma_filled_append(seq![none], seq![first] + rest);
    lemma_filled_append(seq![first], rest);
    assert(filled(rest).len() > 0 && filled(rest)[0] == second);
}

proof fn lemma_handle_encoded(h: Seq<char>)
    requires
        is_handle(h),
    ensures
        segment_encoded(h) == h,
{
    assert forall|i: int| 0 <= i < h.len() implies is_plain(Place::Segment, #[trigger] h[i]) by {
        lemma_handle_char(h[i]);
    }
    law_plain_text_unchanged(Place::Segment, h);
}

/// An address under `c`, `user` or `channel` opens the page of the channel that is
/// named behind it, whatever the scheme and the host before it, and whatever path,
/// query or fragment after it.
#[verifier::rlimit(60)]
pub proof fn law_named_channels(
    scheme: Seq<char>,
    host: Seq<char>,
    under: Seq<char>,
    name: Seq<char>,
    tail: Seq<char>,
)
    requires
        scheme == ""@ || scheme == "http://"@ || scheme == "https://"@,
        host.len() > 0 && slashless(host) && !is_space(host[0]),
        under == "c"@ || under == "user"@ || under == "channel"@,
        name.len() > 0 && is_handle(name),
        ends_id(tail, "/?#"@),
    ensures
        videos_outcome(scheme + (host + "/"@ + (under + seq!['/'] + name + tail))) == Ok::<
            Seq<char>,
            Seq<char>,
        >("https://www.youtube.com/"@ + under + seq!['/'] + name + "/videos"@),
{
    let path = under + seq!['/'] + name;
    let t = trim_end(tail);
    let rest = host + "/"@ + (path + t);
    lemma_under(under);
    lemma_trim_end_prefix(tail);
    assert(ends_id(t, "/?#"@));
    lemma_handle_char(name[name.len() - 1]);
    assert(path.last() == name[name.len() - 1]);
    lemma_trimmed_address(scheme, host, path, tail);
    assert(rest.take(host.len() as int) =~= host);
    assert(rest[host.len() as int] == '/' && rest[host.len() as int + 1] != '/') by {
        reveal_strlit("/");
        lemma_handle_char(under[0]);
        assert((path + t)[0] == under[0]);
    }
    lemma_scheme(scheme, host, rest);
    lemma_behind_host(host, path + t);
    lemma_two_segments(under, name, t);
    let segments = path_segments(path + t);
    assert(!begins(segments[0], "@"@)) by {
        reveal_strlit("@");
        if begins(under, "@"@) {
            assert(under.subrange(0, 1)[0] == under[0]);
        }
    }
    assert(naming_segments(segments) == 2);
    lemma_handle_encoded(under);
    lemma_handle_encoded(name);
    let coded = segments.take(2).map_values(|x: Seq<char>| segment_encoded(x));
    assert(coded =~= seq![under, name]);
    reveal_with_fuel(join, 3);
    reveal_strlit("/");
    assert(coded.drop_last() =~= seq![under]);
    assert("/"@ =~= seq!['/']);
    assert(join(coded, "/"@) =~= under + seq!['/'] + name);
    assert(channel_page(path) =~= "https://www.youtube.com/"@ + under + seq!['/'] + name
        + "/videos"@);
}

proof fn lemma_under(under: Seq<char>)
    requires
        under == "c"@ || under == "user"@ || under == "channel"@,
    ensures
        under.len() > 0,
        is_handle(under),
        under[0] != '@',
{
    reveal_strlit("c");
    reveal_strlit("user");
    reveal_strlit("channel");
    assert forall|i: int| 0 <= i < under.len() implies is_plain(Place::Query, #[trigger] under[i]) by {
        assert(i == 0 || i == 1 || i == 2 || i == 3 || i == 4 || i == 5 || i == 6);
    }
}

/// Whether a text can be a segment of a path: nothing in it ends the segment, and it
/// does not end with white space.
pub open spec fn is_segment(s: Seq<char>) -> bool {
    &&& s.len() > 0 && !is_space(s.last())
    &&& forall|i: int| 0 <= i < s.len() ==> #[trigger] s[i] != '/' && s[i] != '?' && s[i] != '#'
}

/// The first segment of a path.
#[verifier::rlimit(40)]
proof fn lemma_first_segment(first: Seq<char>, tail: Seq<char>)
    requires
        is_segment(first),
        ends_id(tail, "/?#"@),
    ensures
        path_segments(first + tail).len() > 0,
        path_segments(first + tail)[0] == first,
{
    reveal_strlit("/");
    reveal_strlit("?#");
    reveal_strlit("/?#");
    let a = "/"@ + first;
    assert("/"@ + (first + tail) =~= a + tail);
    assert forall|i: int| 0 <= i < a.len() implies !"?#"@.contains(#[trigger] a[i]) by {
        if i >= 1 {
            assert(a[i] == first[i - 1]);
        }
    }
    lemma_up_to_append(a, tail, "?#"@);
    let u = up_to(tail, "?#"@);
    if tail.len() > 0 {
        assert("?#"@[0] == '?' && "?#"@[1] == '#');
        assert(u.len() > 0 ==> u[0] == '/');
    }
    assert(a.last() == first.last());
    lemma_trim_end_append(a, u);
    lemma_trim_end_prefix(u);
    let v = trim_end(u);
    assert((a + u)[0] == '/');
    assert(trimmed(a + u) == a + v);
    let none = Seq::<char>::empty();
    assert(a + v =~= none + seq!['/'] + (first + v));
    lemma_split_first(none, first + v, '/');
    let rest = split(first + v, '/');
    if v.len() > 0 {
        assert(v[0] == '/');
        let w = v.drop_first();
        assert(first + v =~= first + seq!['/'] + w);
        lemma_split_first(first, w, '/');
        lemma_filled_append(seq![first], split(w, '/'));
    } else {
        assert(first + v =~= first);
        lemma_split_first(first, none, '/');
    }
    reveal_with_fuel(filled, 2);
    assert(filled(seq![first]) =~= seq![first]) by {
        assert(seq![first].drop_last() =~= Seq::<Seq<char>>::empty());
    }
    assert(filled(seq![none]) =~= Seq::<Seq<char>>::empty()) by {
        assert(seq![none].drop_last() =~= Seq::<Seq<char>>::empty());
    }
    lemma_filled_append(seq![none], rest);
}

/// The first segment behind a host, be it a handle or a name, and whatever characters
/// stand in it, is the channel whose page is opened, unless it is `c`, `user` or
/// `channel`: the page is read as having that name.
#[verifier::rlimit(60)]
pub proof fn law_first_segment_names_the_channel(
    scheme: Seq<char>,
    host: Seq<char>,
    first: Seq<char>,
    tail: Seq<char>,
)
    requires
        scheme == ""@ || scheme == "http://"@ || scheme == "https://"@,
        host.len() > 0 && slashless(host) && !is_space(host[0]),
        is_segment(first),
        first != "c"@ && first != "user"@ && first != "channel"@,
        ends_id(tail, "/?#"@),
    ensures
        videos_outcome(scheme + (host + "/"@ + (first + tail))) matches Ok(page) && exists|
            name: Seq<char>,
        |
            page == "https://www.youtube.com/"@ + name + "/videos"@ && #[trigger] is_inert(name)
                && decoded(Place::Segment, name) == first,
{
    let t = trim_end(tail);
    let rest = host + "/"@ + (first + t);
    lemma_trim_end_prefix(tail);
    assert(ends_id(t, "/?#"@));
    lemma_trimmed_address(scheme, host, first, tail);
    assert(rest.take(host.len() as int) =~= host);
    assert(rest[host.len() as int] == '/' && rest[host.len() as int + 1] != '/') by {
        reveal_strlit("/");
        assert((first + t)[0] == first[0]);
    }
    lemma_scheme(scheme, host, rest);
    lemma_behind_host(host, first + t);
    lemma_first_segment(first, t);
    let segments = path_segments(first + t);
    assert(naming_segments(segments) == 1);
    let name = segment_encoded(first);
    let coded = segments.take(1).map_values(|x: Seq<char>| segment_encoded(x));
    assert(coded.len() == 1 && coded[0] == name);
    law_encoded_is_inert(first);
    law_text_is_read_back(first);
    assert(is_inert(name));
}

/// The path of a page is read as the segments that it was made of, whatever characters
/// stand in them.
pub proof fn law_path_is_read_back(segments: Seq<Seq<char>>)
    requires
        segments.len() > 0,
    ensures
        split(encoded_path(segments), '/').len() == segments.len(),
        forall|k: int|
            0 <= k < segments.len() ==> decoded(
                Place::Segment,
                #[trigger] split(encoded_path(segments), '/')[k],
            ) == segments[k],
{
    reveal_strlit("/");
    assert("/"@ =~= seq!['/']);
    let coded = segments.map_values(|s: Seq<char>| segment_encoded(s));
    assert forall|k: int| 0 <= k < coded.len() implies !(#[trigger] coded[k]).contains('/') by {
        law_encoded_is_inert(segments[k]);
        if coded[k].contains('/') {
            let i = coded[k].index_of('/');
            assert(coded[k][i] != '/');
        }
    }
    law_joined_is_split_again(coded, '/');
    assert forall|k: int| 0 <= k < segments.len() implies decoded(
        Place::Segment,
        #[trigger] split(encoded_path(segments), '/')[k],
    ) == segments[k] by {
        law_text_is_read_back(segments[k]);
        assert(coded[k] == segment_encoded(segments[k]));
    }
}

/// A name without a slash is the name of a channel as it is: the page that is opened
/// is read as having that name. The bare host is none, and nothing is none.
pub proof fn law_bare_names(input: Seq<char>)
    requires
        slashless(input),
        is_tight(input),
    ensures
        input.len() == 0 ==> videos_outcome(input) == Err::<Seq<char>, Seq<char>>(
            "频道 URL 或 handle 不能为空"@,
        ),
        input == "youtube.com"@ || input == "www.youtube.com"@ ==> videos_outcome(input) == Err::<
            Seq<char>,
            Seq<char>,
        >(
            "无法从 '"@ + input
                + "' 识别频道 handle，请提供如 https://www.youtube.com/@handle/videos 或 @handle"@,
        ),
        input.len() > 0 && input != "youtube.com"@ && input != "www.youtube.com"@ ==> (
        videos_outcome(input) matches Ok(page) && exists|name: Seq<char>|
            page == "https://www.youtube.com/"@ + name + "/videos"@ && #[trigger] is_inert(name)
                && decoded(Place::Segment, name) == input),
{
    lemma_trimmed(input);
    reveal_strlit("/");
    reveal_strlit("http://");
    reveal_strlit("https://");
    reveal_strlit("youtube.com");
    reveal_strlit("www.youtube.com");
    if begins(input, "http://"@) {
        assert(input.subrange(0, 7)[5] == input[5]);
    }
    if begins(input, "https://"@) {
        assert(input.subrange(0, 8)[6] == input[6]);
    }
    assert forall|j: int| !#[trigger] occurs_at(input, "/"@, j) by {
        if occurs_at(input, "/"@, j) {
            assert(input.subrange(j, j + 1)[0] == input[j]);
        }
    }
    let name = segment_encoded(input);
    law_encoded_is_inert(input);
    law_text_is_read_back(input);
    assert(is_inert(name));
}

proof fn lemma_no_slash_in_hosts(n: int)
    ensures
        0 <= n < "youtube.com"@.len() ==> "youtube.com"@[n] != '/',
        0 <= n < "www.youtube.com"@.len() ==> "www.youtube.com"@[n] != '/',
{
    reveal_strlit("youtube.com");
    reveal_strlit("www.youtube.com");
    if 0 <= n < 15 {
        assert(n == 0 || n == 1 || n == 2 || n == 3 || n == 4 || n == 5 || n == 6 || n == 7 || n == 8 || n == 9 || n == 10 || n == 11 || n == 12 || n == 13 || n == 14);
    }
}

// ---------------------------------------------------------------------------
// The recipe
// ---------------------------------------------------------------------------

/// The script that collects the videos in the page: what stands before the number
/// of videos that are wanted.
pub const EXTRACT_SCRIPT_HEAD: &'static str = r#"(async () => {
  const MAX = "#;

/// What stands after that number.
pub const EXTRACT_SCRIPT_TAIL: &'static str = r#";
  const html = document.documentElement.outerHTML;
  const m = html.match(/var ytInitialData = (\{.*?\});<\/script>/s);
  if (!m) return { ok: false, reason: 'no ytInitialData' };
  let data = null;
  try { data = JSON.parse(m[1]); } catch (e) { return { ok: false, reason: 'ytInitialData parse failed' }; }

  const walk = (o, cb) => {
    if (!o || typeof o !== 'object') return;
    if (Array.isArray(o)) { for (const v of o) walk(v, cb); return; }
    cb(o);
    for (const k of Object.keys(o)) walk(o[k], cb);
  };
  const textOf = (t) => {
    if (!t) return null;
    if (typeof t === 'string') return t;
    if (t.simpleText) return t.simpleText;
    if (t.runs) return t.runs.map((r) => r.text || '').join('');
    if (typeof t.content === 'string') return t.content;
    return null;
  };
  const parseCount = (s) => {
    if (!s) return null;
    const mm = String(s).match(/([0-9][0-9,]*\.?[0-9]*)\s*([万亿KMB])?/i);
    if (!mm) return null;
    const n = parseFloat(mm[1].replace(/,/g, ''));
    if (!Number.isFinite(n)) return null;
    const mult = { k: 1000, m: 1000000, b: 1000000000, '万': 10000, '亿': 100000000 }[mm[2] ? mm[2].toLowerCase() : ''];
    return mult ? Math.round(n * mult) : Math.round(n);
  };

  // ---- 频道名称 / 频道 URL ----
  let channelName = null;
  let channelUrl = null;
  walk(data, (o) => {
    if (o.channelMetadataRenderer) {
      const r = o.channelMetadataRenderer;
      if (!channelName && r.title) channelName = r.title;
      if (r.vanityChannelUrl) {
        channelUrl = r.vanityChannelUrl.startsWith('http') ? r.vanityChannelUrl : 'https://www.youtube.com' + r.vanityChannelUrl;
      } else if (!channelUrl && r.channelUrl) {
        channelUrl = r.channelUrl;
      }
    }
  });
  if (!channelName) {
    walk(data, (o) => {
      if (channelName) return;
      const t = o.c4TabbedHeaderRenderer && o.c4TabbedHeaderRenderer.title;
      if (t) channelName = textOf(t);
    });
  }
  if (!channelName) {
    walk(data, (o) => {
      if (channelName) return;
      const h = o.pageHeaderViewModel;
      if (h && h.title) channelName = textOf(h.title);
    });
  }

  // ---- 订阅数（旧 c4TabbedHeaderRenderer 或新版 contentMetadataViewModel）----
  let subscriberRaw = null;
  walk(data, (o) => {
    if (subscriberRaw) return;
    const s = o.c4TabbedHeaderRenderer && o.c4TabbedHeaderRenderer.subscriberCountText;
    if (s) {
      const t = textOf(s);
      if (t && t.trim()) subscriberRaw = t.trim();
    }
  });
  if (!subscriberRaw) {
    walk(data, (o) => {
      if (subscriberRaw) return;
      const rows = o.contentMetadataViewModel && o.contentMetadataViewModel.metadataRows;
      if (!rows) return;
      for (const row of rows) {
        for (const part of (row.metadataParts || [])) {
          const t = textOf(part.text);
          if (t && /\d/.test(t) && /订阅|subscriber/i.test(t)) { subscriberRaw = t.trim(); return; }
        }
      }
    });
  }

  // ---- 视频列表：videoRenderer / gridVideoRenderer + continuation 续取 ----
  const items = [];
  const seenUrls = new Set();
  const pushVideo = (v) => {
    if (!v || !v.videoId) return;
    const title = textOf(v.title);
    if (!title) return;
    const url = 'https://www.youtube.com/watch?v=' + v.videoId;
    if (seenUrls.has(url)) return;
    seenUrls.add(url);
    items.push({
      title,
      url,
      views: textOf(v.viewCountText),
      views_count: parseCount(textOf(v.viewCountText)),
      duration: textOf(v.lengthText),
      published: textOf(v.publishedTimeText),
    });
  };
  const pushLockup = (l) => {
    if (!l || !l.contentId || !l.metadata || !l.metadata.lockupMetadataViewModel) return;
    const m = l.metadata.lockupMetadataViewModel;
    const title = m.title && textOf(m.title);
    if (!title) return;
    const url = 'https://www.youtube.com/watch?v=' + l.contentId;
    if (seenUrls.has(url)) return;
    let views = null;
    let published = null;
    const rows = m.metadata && m.metadata.contentMetadataViewModel && m.metadata.contentMetadataViewModel.metadataRows;
    if (rows) {
      for (const row of rows) {
        for (const part of (row.metadataParts || [])) {
          const t = textOf(part.text);
          if (!t) continue;
          if (!views && /\d/.test(t) && /次观看|观看|views/i.test(t)) views = t;
          else if (!published && /前|ago|天|小时|分钟|周|月|年|昨天|today|yesterday/i.test(t)) published = t;
        }
      }
    }
    let duration = null;
    walk(l, (o) => {
      if (duration) return;
      const b = o.thumbnailBadgeViewModel;
      if (b && typeof b.text === 'string' && /^\d{1,2}:\d{2}(:\d{2})?$/.test(b.text)) {
        duration = b.text;
      }
    });
    seenUrls.add(url);
    items.push({
      title,
      url,
      views,
      views_count: parseCount(views),
      duration,
      published,
    });
  };
  const extract = (root) => {
    const out = { tokens: [] };
    walk(root, (o) => {
      if (o.videoRenderer) pushVideo(o.videoRenderer);
      else if (o.gridVideoRenderer) pushVideo(o.gridVideoRenderer);
      else if (o.lockupViewModel) pushLockup(o.lockupViewModel);
      const c = o.continuationItemRenderer;
      if (c && c.continuationEndpoint && c.continuationEndpoint.continuationCommand) {
        const tok = c.continuationEndpoint.continuationCommand.token;
        if (tok) out.tokens.push(tok);
      }
    });
    return out;
  };

  const first = extract(data);
  const keyM = html.match(/"INNERTUBE_API_KEY":"([^"]+)"/);
  let context = null;
  const ctxStart = html.indexOf('"INNERTUBE_CONTEXT":');
  if (ctxStart >= 0) {
    const start = html.indexOf('{', ctxStart);
    let depth = 0, inStr = false, esc = false, end = -1;
    for (let j = start; j < html.length; j++) {
      const ch = html[j];
      if (inStr) {
        if (esc) esc = false;
        else if (ch === '\\') esc = true;
        else if (ch === '"') inStr = false;
        continue;
      }
      if (ch === '"') inStr = true;
      else if (ch === '{') depth++;
      else if (ch === '}') {
        depth--;
        if (depth === 0) { end = j; break; }
      }
    }
    if (end > 0) {
      try { context = JSON.parse(html.slice(start, end + 1)); } catch (e) { context = null; }
    }
  }
  const api = async (tok) => {
    if (!keyM || !context) return null;
    try {
      const r = await fetch('/youtubei/v1/browse?key=' + encodeURIComponent(keyM[1]), {
        method: 'POST',
        headers: { 'content-type': 'application/json' },
        body: JSON.stringify({ context, continuation: tok }),
      });
      const j = await r.json();
      if (!j || j.error) return null;
      return j;
    } catch (e) { return null; }
  };

  const queue = [];
  const seenTokens = new Set();
  const enqueue = (tok) => {
    if (tok && !seenTokens.has(tok)) { seenTokens.add(tok); queue.push(tok); }
  };
  for (const t of first.tokens) enqueue(t);
  let rounds = 0;
  while (items.length < MAX && queue.length > 0 && rounds < 20) {
    const tok = queue.shift();
    const j = await api(tok);
    if (!j) break;
    const next = extract(j);
    for (const t of next.tokens) enqueue(t);
    rounds++;
  }

  // ---- 标题兜底校验 ----
  // YouTube 频道页数据在部分会话/变体下会把超长标题截断（实测英文标题被截到
  // 100 字符，甚至只剩几个单词）。oEmbed 是 YouTube 官方接口，返回完整规范
  // 标题，且与页面同源可直接 fetch。仅当页面标题疑似截断（长度 >= 100 或含
  // 省略号）或 oEmbed 标题明显更长时才替换，正常标题不受影响。
  const looksTruncated = (t) => !t || t.length >= 100 || /…|\.\.\./.test(t);
  const oembedTitle = async (url) => {
    try {
      const r = await fetch('https://www.youtube.com/oembed?url=' + encodeURIComponent(url) + '&format=json', { signal: AbortSignal.timeout(5000) });
      if (!r.ok) return null;
      const j = await r.json();
      return j && typeof j.title === 'string' && j.title.trim() ? j.title.trim() : null;
    } catch (e) { return null; }
  };
  const targets = items.slice(0, MAX);
  let cursor = 0;
  const worker = async () => {
    while (cursor < targets.length) {
      const i = cursor++;
      const it = targets[i];
      const full = await oembedTitle(it.url);
      if (full && (looksTruncated(it.title) || full.length > (it.title || '').length)) {
        it.title = full;
      }
    }
  };
  await Promise.all(Array.from({ length: Math.min(6, targets.length) }, worker));

  return {
    ok: true,
    channel: {
      name: channelName,
      url: channelUrl,
      subscriber_count: parseCount(subscriberRaw),
      subscriber_count_text: subscriberRaw,
    },
    items: items.slice(0, MAX),
    total: items.length,
    rounds,
  };
})()"#;

/// The links of the videos, in the order of the videos.
pub const VIDEO_TARGET: &'static str = "a#video-title-link, a#video-title";

/// The script that collects up to `max` videos.
pub open spec fn extract_script_text(max: nat) -> Seq<char> {
    EXTRACT_SCRIPT_HEAD@ + decimal(max) + EXTRACT_SCRIPT_TAIL@
}

fn extract_script(max: usize) -> (r: String)
    ensures
        r@ == extract_script_text(max as nat),
{
    let mut script = EXTRACT_SCRIPT_HEAD.to_owned();
    script.append(decimal_text(max as u64).as_str());
    script.append(EXTRACT_SCRIPT_TAIL);
    script
}

/// How far the reading of a channel is. `J` is the type of the values that it
/// keeps.
#[derive(Debug)]
pub enum ChannelInfo<J> {
    /// The page of the channel is being opened.
    Opening { max: usize },
    /// The videos are being read.
    Reading { tab_id: J },
}

impl View for ChannelInfo<Json> {
    type V = ChannelInfo<JsonView>;

    open spec fn view(&self) -> ChannelInfo<JsonView> {
        match self {
            ChannelInfo::Opening { max } => ChannelInfo::Opening { max: *max },
            ChannelInfo::Reading { tab_id } => ChannelInfo::Reading { tab_id: tab_id@ },
        }
    }
}

/// How the reading of a channel begins.
pub open spec fn youtuberinfo_start(channel: Seq<char>, max: usize, tab: Option<i32>) -> ProgressView<
    ChannelInfo<JsonView>,
> {
    match videos_outcome(channel) {
        Ok(url) => ProgressView::Ask(
            ChannelInfo::Opening { max: at_least_one(max) },
            navigate_view("ytbi1"@, url, tab),
        ),
        Err(e) => ProgressView::Done(Err(e)),
    }
}

/// A video: the fields of an item, and where to click for it.
pub open spec fn channel_video(item: JsonView, index: int) -> JsonView {
    JsonView::Object(
        Map::empty().insert("title"@, field_or_null(item, "title"@)).insert(
            "url"@,
            field_or_null(item, "url"@),
        ).insert("views"@, field_or_null(item, "views"@)).insert(
            "views_count"@,
            field_or_null(item, "views_count"@),
        ).insert("duration"@, field_or_null(item, "duration"@)).insert(
            "published"@,
            field_or_null(item, "published"@),
        ).insert("target"@, locator_view("css"@, VIDEO_TARGET@, Some(index))),
    )
}

/// What is made of the result of the script.
pub open spec fn channel_outcome(tab_id: JsonView, result: JsonView) -> Result<JsonView, Seq<char>> {
    if bool_field(result, "ok"@) == Some(true) {
        let items = items_field(result, "items"@);
        Ok(
            JsonView::Object(
                Map::empty().insert("tab_id"@, tab_id).insert(
                    "channel"@,
                    field_or_null(result, "channel"@),
                ).insert(
                    "videos"@,
                    JsonView::Array(Seq::new(items.len(), |i: int| channel_video(items[i], i))),
                ),
            ),
        )
    } else {
        Err(
            "YouTube 频道数据缺失（"@ + reason_given(result)
                + "），可能是频道不存在/地区限制/验证墙；确认浏览器能正常打开该频道后重试"@,
        )
    }
}

/// How the reading of a channel goes on after each command.
pub open spec fn youtuberinfo_next(
    state: ChannelInfo<JsonView>,
    reply: Result<JsonView, Seq<char>>,
) -> ProgressView<ChannelInfo<JsonView>> {
    match (state, reply) {
        (_, Err(e)) => ProgressView::Done(Err(e)),
        (ChannelInfo::Opening { max }, Ok(nav)) => {
            let tab_id = field_or_null(nav, "tab_id"@);
            ProgressView::Ask(
                ChannelInfo::Reading { tab_id },
                script_view("ytbi2"@, extract_script_text(max as nat), tab_id),
            )
        },
        (ChannelInfo::Reading { tab_id }, Ok(fetched)) => ProgressView::Done(
            channel_outcome(tab_id, field_or_null(fetched, "result"@)),
        ),
    }
}

/// Whether a video is made of an item, as the one with a number: it bears each of the
/// fields of the item under its own name, or `null` where the item has none, and says
/// where to click: on the link with its number.
pub open spec fn is_video_of(video: JsonView, item: JsonView, number: int) -> bool {
    &&& forall|name: Seq<char>|
        name == "title"@ || name == "url"@ || name == "views"@ || name == "views_count"@ || name
            == "duration"@ || name == "published"@ ==> #[trigger] carries(video, item, name)
    &&& field(video, "target"@) matches Some(target) && locates(
        target,
        "css"@,
        "a#video-title-link, a#video-title"@,
        Some(number),
    )
    &&& forall|name: Seq<char>| #[trigger]
        field(video, name) is Some ==> name == "title"@ || name == "url"@ || name == "views"@ || name
            == "views_count"@ || name == "duration"@ || name == "published"@ || name == "target"@
}

/// The outcome of the reading of a channel names the tab, bears the channel as the
/// script has found it, and holds one video for each of the items, in their order.
pub proof fn law_videos_are_made_of_items(nav: JsonView, result: JsonView)
    requires
        field(result, "ok"@) == Some(JsonView::Bool(true)),
    ensures
        channel_outcome(field_or_null(nav, "tab_id"@), result) matches Ok(out) && {
            let items = match field(result, "items"@) {
                Some(JsonView::Array(items)) => items,
                _ => Seq::empty(),
            };
            &&& carries(out, nav, "tab_id"@)
            &&& carries(out, result, "channel"@)
            &&& field(out, "videos"@) matches Some(JsonView::Array(videos)) && videos.len()
                == items.len() && forall|k: int|
                0 <= k < items.len() ==> is_video_of(#[trigger] videos[k], items[k], k)
            &&& forall|name: Seq<char>| #[trigger]
                field(out, name) is Some ==> name == "tab_id"@ || name == "channel"@ || name
                    == "videos"@
        },
{
    lemma_result_names();
    let out = channel_outcome(field_or_null(nav, "tab_id"@), result)->Ok_0;
    let items = items_field(result, "items"@);
    let videos = Seq::new(items.len(), |i: int| channel_video(items[i], i));
    assert(field(out, "videos"@) == Some(JsonView::Array(videos)));
    assert forall|k: int| 0 <= k < items.len() implies is_video_of(
        #[trigger] videos[k],
        items[k],
        k,
    ) by {
        law_locator_locates("css"@, "a#video-title-link, a#video-title"@, Some(k));
    }
}

/// The reading of a channel opens the page that its input names, in the tab that was
/// given, and runs the script in the tab that the browser has named, for as many
/// videos as are wanted and at least one. Where it has found nothing, the reason is in
/// the error. A command that fails ends the reading with its error.
#[verifier::rlimit(40)]
pub proof fn law_reading_of_a_channel(
    channel: Seq<char>,
    max: usize,
    tab: Option<i32>,
    nav: JsonView,
    fetched: JsonView,
    error: Seq<char>,
)
    ensures
        match videos_outcome(channel) {
            Err(e) => youtuberinfo_start(channel, max, tab) == ProgressView::<
                ChannelInfo<JsonView>,
            >::Done(Err(e)),
            Ok(page) => youtuberinfo_start(channel, max, tab) matches ProgressView::Ask(
                opening,
                call,
            ) && {
                let wanted: nat = if max == 0 {
                    1
                } else {
                    max as nat
                };
                let result = match field(fetched, "result"@) {
                    Some(v) => v,
                    None => JsonView::Null,
                };
                &&& call.method == "navigate"@
                &&& bears_text(call, "url"@, page)
                &&& in_tab(call, tab)
                &&& bears_only(call, set!["url"@, "tab_id"@])
                &&& youtuberinfo_next(opening, Err(error)) == ProgressView::<
                    ChannelInfo<JsonView>,
                >::Done(Err(error))
                &&& youtuberinfo_next(opening, Ok(nav)) matches ProgressView::Ask(reading, script)
                    && {
                    &&& script.method == "run_script"@
                    &&& carries(script.params, nav, "tab_id"@)
                    &&& bears_text(
                        script,
                        "code"@,
                        EXTRACT_SCRIPT_HEAD@ + decimal(wanted) + EXTRACT_SCRIPT_TAIL@,
                    )
                    &&& bears_only(script, set!["code"@, "tab_id"@])
                    &&& youtuberinfo_next(reading, Err(error)) == ProgressView::<
                        ChannelInfo<JsonView>,
                    >::Done(Err(error))
                    &&& field(result, "ok"@) == Some(JsonView::Bool(true)) ==> youtuberinfo_next(
                        reading,
                        Ok(fetched),
                    ) == ProgressView::<ChannelInfo<JsonView>>::Done(
                        channel_outcome(field_or_null(nav, "tab_id"@), result),
                    )
                    &&& field(result, "ok"@) != Some(JsonView::Bool(true)) ==> youtuberinfo_next(
                        reading,
                        Ok(fetched),
                    ) == ProgressView::<ChannelInfo<JsonView>>::Done(
                        Err(
                            "YouTube 频道数据缺失（"@ + (match field(result, "reason"@) {
                                Some(JsonView::Text(reason)) => reason,
                                _ => "unknown"@,
                            }) + "），可能是频道不存在/地区限制/验证墙；确认浏览器能正常打开该频道后重试"@,
                        ),
                    )
                }
            },
        },
{
    lemma_param_names();
    lemma_result_names();
}

/// Begins the reading of a channel. Its outcome is
/// `{ "tab_id": ..., "channel": ..., "videos": [...] }`.
pub fn youtuberinfo(channel: &str, max: usize, tab: Option<i32>) -> (r: Progress<ChannelInfo<Json>>)
    ensures
        r@ == youtuberinfo_start(channel@, max, tab),
{
    let max: usize = if max == 0 {
        1
    } else {
        max
    };
    match videos_url(channel) {
        Ok(url) => Progress::Ask(
            ChannelInfo::Opening { max },
            navigate_call("ytbi1", url.as_str(), tab),
        ),
        Err(e) => Progress::Done(Err(e)),
    }
}

fn video_list(items: &Vec<Json>) -> (r: Vec<Json>)
    ensures
        views(r@) == Seq::new(
            items@.len(),
            |i: int| channel_video(views(items@)[i], i),
        ),
{
    let mut out: Vec<Json> = Vec::new();
    let mut i: usize = 0;
    while i < items.len()
        invariant
            i <= items@.len(),
            out@.len() == i,
            forall|k: int| 0 <= k < i ==> (#[trigger] out@[k])@ == channel_video(items@[k]@, k),
        decreases items.len() - i,
    {
        let item = &items[i];
        let mut entries: Vec<(String, Json)> = Vec::new();
        put(&mut entries, "title", item.get_or_null("title"));
        put(&mut entries, "url", item.get_or_null("url"));
        put(&mut entries, "views", item.get_or_null("views"));
        put(&mut entries, "views_count", item.get_or_null("views_count"));
        put(&mut entries, "duration", item.get_or_null("duration"));
        put(&mut entries, "published", item.get_or_null("published"));
        put(&mut entries, "target", locator("css", VIDEO_TARGET, Some(i)));
        out.push(Json::Object(entries));
        i += 1;
    }
    assert(views(out@) =~= Seq::new(items@.len(), |i: int| channel_video(views(items@)[i], i)));
    out
}

impl ChannelInfo<Json> {
    /// Goes on with what the last command brought.
    pub fn step(self, reply: Result<Json, String>) -> (r: Progress<ChannelInfo<Json>>)
        ensures
            r@ == youtuberinfo_next(self@, outcome_view(reply)),
    {
        let value = match reply {
            Ok(value) => value,
            Err(e) => {
                return Progress::Done(Err(e));
            },
        };
        match self {
            ChannelInfo::Opening { max } => {
                let tab_id = value.get_or_null("tab_id");
                let call = script_call("ytbi2", extract_script(max).as_str(), tab_id.clone());
                Progress::Ask(ChannelInfo::Reading { tab_id }, call)
            },
            ChannelInfo::Reading { tab_id } => {
                let result = value.get_or_null("result");
                if is_ok(&result) {
                    let items = result.get_items("items");
                    let videos = video_list(&items);
                    proof {
                        let all = items_field(result@, "items"@);
                        assert(all == views(items@));
                        assert(views(videos@) =~= Seq::new(
                            all.len(),
                            |i: int| channel_video(all[i], i),
                        ));
                    }
                    let mut entries: Vec<(String, Json)> = Vec::new();
                    put(&mut entries, "tab_id", tab_id);
                    put(&mut entries, "channel", result.get_or_null("channel"));
                    put(&mut entries, "videos", Json::array(videos));
                    Progress::Done(Ok(Json::Object(entries)))
                } else {
                    let mut error = "YouTube 频道数据缺失（".to_owned();
                    error.append(reason_of(&result).as_str());
                    error.append("），可能是频道不存在/地区限制/验证墙；确认浏览器能正常打开该频道后重试");
                    Progress::Done(Err(error))
                }
            },
        }
    }
}

} // verus!
