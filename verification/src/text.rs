//! Text as sequences of characters: trimming, splitting, searching and the
//! digits of numbers. Everything here is stated over `Seq<char>`, the view of
//! `&str` and `String`.
use vstd::prelude::*;

verus! {

/// `String::push` of the standard library: it appends one character.
pub assume_specification[ String::push ](s: &mut String, c: char)
    ensures
        final(s)@ == old(s)@.push(c),
;

/// The texts that a list of strings holds.
pub open spec fn texts(list: Seq<String>) -> Seq<Seq<char>> {
    list.map_values(|s: String| s@)
}

/// The text behind an optional string.
pub open spec fn opt_text(s: Option<String>) -> Option<Seq<char>> {
    match s {
        Some(s) => Some(s@),
        None => None,
    }
}

/// The text behind an optional string slice.
pub open spec fn opt_str(s: Option<&str>) -> Option<Seq<char>> {
    match s {
        Some(s) => Some(s@),
        None => None,
    }
}

/// Whether two texts are the same.
pub fn same(a: &str, b: &str) -> (r: bool)
    ensures
        r == (a@ == b@),
{
    a.to_owned() == b.to_owned()
}

/// The characters of a text.
pub fn chars_of(s: &str) -> (r: Vec<char>)
    ensures
        r@ == s@,
{
    let mut out: Vec<char> = Vec::new();
    for c in it: s.chars()
        invariant
            out@ == s@.take(it.index()),
            it.seq() == s@,
    {
        out.push(c);
    }
    out
}

/// The text made of the characters at `from..to`.
pub fn text_of(cs: &Vec<char>, from: usize, to: usize) -> (r: String)
    requires
        from <= to <= cs@.len(),
    ensures
        r@ == cs@.subrange(from as int, to as int),
{
    let mut out = String::new();
    let mut i: usize = from;
    while i < to
        invariant
            from <= i <= to <= cs@.len(),
            out@ == cs@.subrange(from as int, i as int),
        decreases to - i,
    {
        out.push(cs[i]);
        i += 1;
        assert(out@ =~= cs@.subrange(from as int, i as int));
    }
    out
}

// ---------------------------------------------------------------------------
// White space
// ---------------------------------------------------------------------------

/// The characters with the Unicode property `White_Space`.
pub open spec fn is_space(c: char) -> bool {
    ||| '\u{9}' <= c <= '\u{d}'
    ||| c == ' '
    ||| c == '\u{85}'
    ||| c == '\u{a0}'
    ||| c == '\u{1680}'
    ||| '\u{2000}' <= c <= '\u{200a}'
    ||| c == '\u{2028}'
    ||| c == '\u{2029}'
    ||| c == '\u{202f}'
    ||| c == '\u{205f}'
    ||| c == '\u{3000}'
}

/// White space is what Unicode counts as such: the control characters from tab to
/// carriage return, the next-line character, the spaces and the separators of lines and
/// paragraphs.
pub proof fn law_white_space(c: char)
    ensures
        is_space(c) <==> ({
            let n = c as int;
            ||| 9 <= n <= 13
            ||| n == 0x20 || n == 0x85 || n == 0xa0 || n == 0x1680
            ||| 0x2000 <= n <= 0x200a
            ||| n == 0x2028 || n == 0x2029 || n == 0x202f || n == 0x205f || n == 0x3000
        }),
{
}

pub fn space_char(c: char) -> (r: bool)
    ensures
        r == is_space(c),
{
    ('\u{9}' <= c && c <= '\u{d}') || c == ' ' || c == '\u{85}' || c == '\u{a0}' || c == '\u{1680}'
        || ('\u{2000}' <= c && c <= '\u{200a}') || c == '\u{2028}' || c == '\u{2029}' || c
        == '\u{202f}' || c == '\u{205f}' || c == '\u{3000}'
}

/// The text without its leading white space.
pub open spec fn trim_start(s: Seq<char>) -> Seq<char>
    decreases s.len(),
{
    if s.len() > 0 && is_space(s[0]) {
        trim_start(s.drop_first())
    } else {
        s
    }
}

/// The text without its trailing white space.
pub open spec fn trim_end(s: Seq<char>) -> Seq<char>
    decreases s.len(),
{
    if s.len() > 0 && is_space(s.last()) {
        trim_end(s.drop_last())
    } else {
        s
    }
}

/// The text without white space at either end.
pub open spec fn trimmed(s: Seq<char>) -> Seq<char> {
    trim_end(trim_start(s))
}

/// A text without white space at its ends is left as it is.
pub proof fn lemma_trimmed(s: Seq<char>)
    requires
        s.len() > 0 ==> !is_space(s[0]) && !is_space(s.last()),
    ensures
        trimmed(s) == s,
{
}

/// What is left of a text at its beginning is what it began with.
pub proof fn lemma_trim_end_prefix(s: Seq<char>)
    ensures
        trim_end(s).len() <= s.len(),
        trim_end(s) == s.take(trim_end(s).len() as int),
    decreases s.len(),
{
    if s.len() > 0 && is_space(s.last()) {
        lemma_trim_end_prefix(s.drop_last());
        let n = trim_end(s).len() as int;
        assert(s.take(n) =~= s.drop_last().take(n));
    } else {
        assert(s =~= s.take(s.len() as int));
    }
}

/// White space at the end of a text is cut off up to the first other character.
pub proof fn lemma_trim_end_append(a: Seq<char>, b: Seq<char>)
    requires
        a.len() > 0,
        !is_space(a.last()),
    ensures
        trim_end(a + b) == a + trim_end(b),
    decreases b.len(),
{
    if b.len() > 0 {
        assert((a + b).last() == b.last());
        assert((a + b).drop_last() =~= a + b.drop_last());
        lemma_trim_end_append(a, b.drop_last());
    } else {
        assert(a + b =~= a);
    }
}

proof fn lemma_trim_start_spaces(a: Seq<char>, s: Seq<char>)
    requires
        forall|i: int| 0 <= i < a.len() ==> is_space(#[trigger] a[i]),
    ensures
        trim_start(a + s) == trim_start(s),
    decreases a.len(),
{
    if a.len() > 0 {
        let rest = a.drop_first();
        assert forall|i: int| 0 <= i < rest.len() implies is_space(#[trigger] rest[i]) by {
            assert(rest[i] == a[i + 1]);
        }
        lemma_trim_start_spaces(rest, s);
        assert((a + s)[0] == a[0]);
        assert((a + s).drop_first() =~= rest + s);
    } else {
        assert(a + s =~= s);
    }
}

proof fn lemma_trim_end_spaces(s: Seq<char>, b: Seq<char>)
    requires
        forall|i: int| 0 <= i < b.len() ==> is_space(#[trigger] b[i]),
    ensures
        trim_end(s + b) == trim_end(s),
    decreases b.len(),
{
    if b.len() > 0 {
        let rest = b.drop_last();
        assert forall|i: int| 0 <= i < rest.len() implies is_space(#[trigger] rest[i]) by {
            assert(rest[i] == b[i]);
        }
        lemma_trim_end_spaces(s, rest);
        assert((s + b).last() == b[b.len() - 1]);
        assert((s + b).drop_last() =~= s + rest);
    } else {
        assert(s + b =~= s);
    }
}

proof fn lemma_trimmed_before_spaces(s: Seq<char>, b: Seq<char>)
    requires
        forall|i: int| 0 <= i < b.len() ==> is_space(#[trigger] b[i]),
    ensures
        trimmed(s + b) == trimmed(s),
    decreases s.len(),
{
    if s.len() == 0 {
        let none = Seq::<char>::empty();
        assert(s =~= none);
        assert(s + b =~= b + none);
        lemma_trim_start_spaces(b, none);
    } else if is_space(s[0]) {
        assert((s + b)[0] == s[0]);
        assert((s + b).drop_first() =~= s.drop_first() + b);
        lemma_trimmed_before_spaces(s.drop_first(), b);
    } else {
        assert((s + b)[0] == s[0]);
        lemma_trim_end_spaces(s, b);
    }
}

/// White space around a text makes no difference once it is trimmed.
pub proof fn lemma_trimmed_between_spaces(a: Seq<char>, s: Seq<char>, b: Seq<char>)
    requires
        forall|i: int| 0 <= i < a.len() ==> is_space(#[trigger] a[i]),
        forall|i: int| 0 <= i < b.len() ==> is_space(#[trigger] b[i]),
    ensures
        trimmed(a + s + b) == trimmed(s),
{
    assert(a + s + b =~= a + (s + b));
    lemma_trim_start_spaces(a, s + b);
    lemma_trimmed_before_spaces(s, b);
}

/// Whether nothing but white space is in a text.
pub open spec fn all_space(s: Seq<char>) -> bool {
    forall|i: int| 0 <= i < s.len() ==> is_space(#[trigger] s[i])
}

/// Whether a text neither begins nor ends with white space.
pub open spec fn is_tight(s: Seq<char>) -> bool {
    s.len() > 0 ==> !is_space(s[0]) && !is_space(s.last())
}

proof fn lemma_trim_start_cuts(s: Seq<char>) -> (n: int)
    ensures
        0 <= n <= s.len(),
        all_space(s.take(n)),
        trim_start(s) == s.skip(n),
        n < s.len() ==> !is_space(s[n]),
    decreases s.len(),
{
    if s.len() > 0 && is_space(s[0]) {
        let m = lemma_trim_start_cuts(s.drop_first());
        assert(s.skip(m + 1) =~= s.drop_first().skip(m));
        assert forall|i: int| 0 <= i < s.take(m + 1).len() implies is_space(
            #[trigger] s.take(m + 1)[i],
        ) by {
            if i > 0 {
                assert(s.take(m + 1)[i] == s.drop_first().take(m)[i - 1]);
            }
        }
        m + 1
    } else {
        assert(s.skip(0) =~= s);
        0
    }
}

proof fn lemma_trim_end_cuts(s: Seq<char>) -> (n: int)
    ensures
        0 <= n <= s.len(),
        all_space(s.skip(n)),
        trim_end(s) == s.take(n),
        n > 0 ==> !is_space(s[n - 1]),
    decreases s.len(),
{
    if s.len() > 0 && is_space(s.last()) {
        let n = lemma_trim_end_cuts(s.drop_last());
        assert(s.take(n) =~= s.drop_last().take(n));
        assert forall|i: int| 0 <= i < s.skip(n).len() implies is_space(#[trigger] s.skip(n)[i]) by {
            if i < s.skip(n).len() - 1 {
                assert(s.skip(n)[i] == s.drop_last().skip(n)[i]);
            }
        }
        n
    } else {
        assert(s.take(s.len() as int) =~= s);
        s.len() as int
    }
}

/// Trimming takes white space from both ends of a text, all that is there, and
/// nothing else.
pub proof fn law_trimming(s: Seq<char>)
    ensures
        exists|a: Seq<char>, b: Seq<char>|
            all_space(a) && all_space(b) && s == #[trigger] (a + trimmed(s) + b),
        is_tight(trimmed(s)),
        trimmed(s).len() == 0 <==> all_space(s),
{
    let n = lemma_trim_start_cuts(s);
    let t = s.skip(n);
    let m = lemma_trim_end_cuts(t);
    let a = s.take(n);
    let b = t.skip(m);
    assert(s =~= a + t.take(m) + b);
    assert(trimmed(s) == t.take(m));
    if m > 0 {
        assert(t[0] == s[n]);
        assert(t.take(m)[0] == t[0] && t.take(m).last() == t[m - 1]);
    } else {
        assert forall|i: int| 0 <= i < s.len() implies is_space(#[trigger] s[i]) by {
            if i < n {
                assert(s[i] == a[i]);
            } else {
                assert(s[i] == b[i - n]);
            }
        }
    }
}

/// Cuts the white space off both ends.
pub fn trim(s: &str) -> (r: String)
    ensures
        r@ == trimmed(s@),
{
    let cs = chars_of(s);
    let len: usize = cs.len();
    let mut from: usize = 0;
    assert(cs@ =~= cs@.subrange(0, len as int));
    while from < len && space_char(cs[from])
        invariant
            from <= len == cs@.len(),
            trim_start(cs@) == trim_start(cs@.subrange(from as int, len as int)),
        decreases len - from,
    {
        assert(cs@.subrange(from as int, len as int).drop_first() =~= cs@.subrange(
            from + 1,
            len as int,
        ));
        from += 1;
    }
    assert(trim_start(cs@) == cs@.subrange(from as int, len as int));
    let mut to: usize = len;
    while from < to && space_char(cs[to - 1])
        invariant
            from <= to <= len == cs@.len(),
            trim_end(trim_start(cs@)) == trim_end(cs@.subrange(from as int, to as int)),
        decreases to,
    {
        assert(cs@.subrange(from as int, to as int).drop_last() =~= cs@.subrange(
            from as int,
            to - 1,
        ));
        to -= 1;
    }
    text_of(&cs, from, to)
}

/// Whether nothing but white space is in the text.
pub fn blank(s: &str) -> (r: bool)
    ensures
        r == (trimmed(s@).len() == 0),
{
    let t = trim(s);
    t.as_str().is_empty()
}

// ---------------------------------------------------------------------------
// Splitting and joining
// ---------------------------------------------------------------------------

/// The pieces between the occurrences of `sep`: one more than there are
/// occurrences, and empty where two of them touch.
pub open spec fn split(s: Seq<char>, sep: char) -> Seq<Seq<char>>
    decreases s.len(),
{
    if s.len() == 0 {
        seq![Seq::<char>::empty()]
    } else {
        let before = split(s.drop_last(), sep);
        if s.last() == sep {
            before.push(Seq::<char>::empty())
        } else {
            before.drop_last().push(before.last().push(s.last()))
        }
    }
}

pub proof fn lemma_split_nonempty(s: Seq<char>, sep: char)
    ensures
        split(s, sep).len() > 0,
    decreases s.len(),
{
    if s.len() > 0 {
        lemma_split_nonempty(s.drop_last(), sep);
    }
}

/// A text is split at its first separator first.
pub proof fn lemma_split_first(a: Seq<char>, b: Seq<char>, sep: char)
    requires
        forall|i: int| 0 <= i < a.len() ==> #[trigger] a[i] != sep,
    ensures
        split(a, sep) == seq![a],
        split(a + seq![sep] + b, sep) == seq![a] + split(b, sep),
    decreases a.len() + b.len(),
{
    let s = a + seq![sep] + b;
    if b.len() > 0 {
        lemma_split_first(a, b.drop_last(), sep);
        lemma_split_nonempty(b.drop_last(), sep);
        let front = split(b.drop_last(), sep);
        assert(s.drop_last() =~= a + seq![sep] + b.drop_last());
        assert(s.last() == b.last());
        if b.last() == sep {
            assert((seq![a] + front).push(Seq::<char>::empty()) =~= seq![a] + front.push(
                Seq::<char>::empty(),
            ));
        } else {
            assert((seq![a] + front).drop_last() =~= seq![a] + front.drop_last());
            assert((seq![a] + front).last() == front.last());
            assert((seq![a] + front.drop_last()).push(front.last().push(b.last())) =~= seq![a]
                + front.drop_last().push(front.last().push(b.last())));
        }
    } else {
        if a.len() > 0 {
            lemma_split_first(a.drop_last(), b, sep);
            assert(a[a.len() - 1] != sep);
            assert(split(a.drop_last(), sep) =~= seq![a.drop_last()]);
            assert(seq![a.drop_last()].drop_last() =~= Seq::<Seq<char>>::empty());
            assert(a.drop_last().push(a.last()) =~= a);
            assert(split(a, sep) =~= seq![a]);
        } else {
            assert(a =~= Seq::<char>::empty());
            assert(split(a, sep) =~= seq![a]);
        }
        assert(s.drop_last() =~= a);
        assert(s.last() == sep);
        assert(split(b, sep) =~= seq![Seq::<char>::empty()]);
        assert(split(s, sep) =~= seq![a] + split(b, sep));
    }
}

/// Splits a text at every occurrence of `sep`.
pub fn split_text(s: &str, sep: char) -> (r: Vec<String>)
    ensures
        texts(r@) == split(s@, sep),
        r@.len() > 0,
{
    let cs = chars_of(s);
    let len: usize = cs.len();
    let mut out: Vec<String> = Vec::new();
    let mut piece = String::new();
    let mut i: usize = 0;
    assert(texts(out@).push(piece@) =~= split(cs@.take(0), sep));
    while i < len
        invariant
            i <= len == cs@.len(),
            texts(out@).push(piece@) == split(cs@.take(i as int), sep),
        decreases len - i,
    {
        let ghost before = split(cs@.take(i as int), sep);
        let ghost done = texts(out@);
        let ghost open = piece@;
        assert(cs@.take(i + 1).drop_last() =~= cs@.take(i as int));
        assert(cs@.take(i + 1).last() == cs@[i as int]);
        if cs[i] == sep {
            out.push(piece);
            piece = String::new();
            assert(texts(out@) =~= done.push(open));
        } else {
            piece.push(cs[i]);
            assert(before.drop_last() =~= done);
            assert(before.last() == open);
        }
        i += 1;
    }
    assert(cs@.take(len as int) =~= s@);
    let ghost done = texts(out@);
    let ghost open = piece@;
    out.push(piece);
    assert(texts(out@) =~= done.push(open));
    out
}

/// The texts joined, with `sep` between neighbours.
pub open spec fn join(parts: Seq<Seq<char>>, sep: Seq<char>) -> Seq<char>
    decreases parts.len(),
{
    if parts.len() == 0 {
        Seq::<char>::empty()
    } else if parts.len() == 1 {
        parts[0]
    } else {
        join(parts.drop_last(), sep) + sep + parts.last()
    }
}

/// Joins texts, with `sep` between neighbours.
pub fn join_texts(parts: &Vec<String>, sep: &str) -> (r: String)
    ensures
        r@ == join(texts(parts@), sep@),
{
    let mut out = String::new();
    let mut i: usize = 0;
    let ghost all = texts(parts@);
    while i < parts.len()
        invariant
            i <= parts@.len(),
            all == texts(parts@),
            out@ == join(all.take(i as int), sep@),
        decreases parts.len() - i,
    {
        proof {
            assert(all.take(i + 1).drop_last() =~= all.take(i as int));
            assert(all.take(i + 1).last() == parts@[i as int]@);
        }
        if i > 0 {
            out.append(sep);
        }
        out.append(parts[i].as_str());
        assert(out@ =~= join(all.take(i + 1), sep@));
        i += 1;
    }
    assert(all.take(parts@.len() as int) =~= all);
    out
}

proof fn lemma_split_last(a: Seq<char>, b: Seq<char>, sep: char)
    requires
        !b.contains(sep),
    ensures
        split(a + seq![sep] + b, sep) == split(a, sep).push(b),
    decreases b.len(),
{
    let s = a + seq![sep] + b;
    if b.len() == 0 {
        assert(s.drop_last() =~= a);
        assert(s.last() == sep);
        assert(b =~= Seq::<char>::empty());
    } else {
        assert forall|c: char| b.drop_last().contains(c) implies b.contains(c) by {
            let i = b.drop_last().index_of(c);
            assert(b[i] == c);
        }
        lemma_split_last(a, b.drop_last(), sep);
        assert(s.drop_last() =~= a + seq![sep] + b.drop_last());
        assert(s.last() == b[b.len() - 1]);
        assert(b.contains(b[b.len() - 1]));
        assert(split(a, sep).push(b.drop_last()).drop_last() =~= split(a, sep));
        assert(b.drop_last().push(b.last()) =~= b);
    }
}

/// Splitting undoes joining: pieces in which the separator does not stand are found
/// again, in their order.
pub proof fn law_joined_is_split_again(parts: Seq<Seq<char>>, sep: char)
    requires
        parts.len() > 0,
        forall|i: int| 0 <= i < parts.len() ==> !(#[trigger] parts[i]).contains(sep),
    ensures
        split(join(parts, seq![sep]), sep) == parts,
    decreases parts.len(),
{
    let last = parts.last();
    assert(!parts[parts.len() - 1].contains(sep));
    if parts.len() == 1 {
        assert forall|i: int| 0 <= i < last.len() implies #[trigger] last[i] != sep by {
            assert(last.contains(last[i]));
        }
        lemma_split_first(last, Seq::<char>::empty(), sep);
        assert(seq![last] =~= parts);
    } else {
        let front = parts.drop_last();
        assert forall|i: int| 0 <= i < front.len() implies !(#[trigger] front[i]).contains(sep) by {
            assert(front[i] == parts[i]);
        }
        law_joined_is_split_again(front, sep);
        lemma_split_last(join(front, seq![sep]), last, sep);
        assert(front.push(last) =~= parts);
    }
}

/// Joining undoes splitting, and the separator stands in none of the pieces.
pub proof fn law_split_is_joined_again(s: Seq<char>, sep: char)
    ensures
        join(split(s, sep), seq![sep]) == s,
        forall|i: int| 0 <= i < split(s, sep).len() ==> !(#[trigger] split(s, sep)[i]).contains(sep),
    decreases s.len(),
{
    let now = split(s, sep);
    if s.len() == 0 {
        assert(join(now, seq![sep]) =~= s);
    } else {
        let front = s.drop_last();
        let before = split(front, sep);
        law_split_is_joined_again(front, sep);
        lemma_split_nonempty(front, sep);
        assert(front.push(s.last()) =~= s);
        if s.last() == sep {
            assert(now.drop_last() =~= before);
            assert(join(now, seq![sep]) =~= s);
            assert forall|i: int| 0 <= i < now.len() implies !(#[trigger] now[i]).contains(sep) by {
                if i < before.len() {
                    assert(now[i] == before[i]);
                }
            }
        } else {
            let piece = before.last().push(s.last());
            assert(now.drop_last() =~= before.drop_last());
            assert(now.last() == piece);
            assert(!before[before.len() - 1].contains(sep));
            assert forall|i: int| 0 <= i < now.len() implies !(#[trigger] now[i]).contains(sep) by {
                if i < before.len() - 1 {
                    assert(now[i] == before[i]);
                } else {
                    assert forall|j: int| 0 <= j < piece.len() implies piece[j] != sep by {
                        if j < before.last().len() {
                            assert(before.last().contains(before.last()[j]));
                        }
                    }
                }
            }
            assert(join(now, seq![sep]) =~= s);
        }
    }
}

/// The words of a text: its longest pieces without white space.
pub open spec fn words(s: Seq<char>) -> Seq<Seq<char>>
    decreases s.len(),
{
    if s.len() == 0 {
        Seq::<Seq<char>>::empty()
    } else {
        let before = words(s.drop_last());
        if is_space(s.last()) {
            before
        } else if s.len() == 1 || is_space(s[s.len() - 2]) {
            before.push(seq![s.last()])
        } else {
            before.drop_last().push(before.last().push(s.last()))
        }
    }
}

/// Whether there is no white space in a text.
pub open spec fn spaceless(s: Seq<char>) -> bool {
    forall|i: int| 0 <= i < s.len() ==> !is_space(#[trigger] s[i])
}

/// A word is not empty, and there is no white space in it.
pub proof fn law_words(s: Seq<char>)
    ensures
        forall|k: int|
            0 <= k < words(s).len() ==> (#[trigger] words(s)[k]).len() > 0 && spaceless(words(s)[k]),
        s.len() > 0 && !is_space(s.last()) ==> words(s).len() > 0,
    decreases s.len(),
{
    if s.len() > 0 {
        let front = s.drop_last();
        let before = words(front);
        let now = words(s);
        law_words(front);
        assert forall|k: int| 0 <= k < now.len() implies (#[trigger] now[k]).len() > 0 && spaceless(
            now[k],
        ) by {
            if k < before.len() && now[k] == before[k] {
            } else if s.len() == 1 || is_space(s[s.len() - 2]) {
            } else {
                assert(front.last() == s[s.len() - 2]);
                assert(spaceless(before[before.len() - 1]));
            }
        }
    }
}

/// A text without white space is one word.
pub proof fn law_one_word(a: Seq<char>)
    requires
        a.len() > 0,
        spaceless(a),
    ensures
        words(a) == seq![a],
    decreases a.len(),
{
    let front = a.drop_last();
    assert(!is_space(a[a.len() - 1]));
    if a.len() == 1 {
        assert(words(front) =~= Seq::<Seq<char>>::empty());
        assert(seq![a.last()] =~= a);
        assert(words(a) =~= seq![a]);
    } else {
        assert forall|i: int| 0 <= i < front.len() implies !is_space(#[trigger] front[i]) by {
            assert(front[i] == a[i]);
        }
        law_one_word(front);
        assert(!is_space(a[a.len() - 2]));
        assert(front.push(a.last()) =~= a);
        assert(seq![front].drop_last() =~= Seq::<Seq<char>>::empty());
        assert(words(a) =~= seq![a]);
    }
}

/// Two texts without white space, with a space between them, are two words.
pub proof fn law_two_words(a: Seq<char>, b: Seq<char>)
    requires
        a.len() > 0 && spaceless(a),
        b.len() > 0 && spaceless(b),
    ensures
        words(a + seq![' '] + b) == seq![a, b],
    decreases b.len(),
{
    let s = a + seq![' '] + b;
    let front = s.drop_last();
    assert(s.last() == b[b.len() - 1]);
    if b.len() == 1 {
        law_one_word(a);
        let spaced = a + seq![' '];
        assert(front =~= spaced);
        assert(spaced.drop_last() =~= a);
        assert(is_space(spaced.last()));
        assert(words(spaced) == words(a));
        assert(!is_space(s.last()));
        assert(s[s.len() - 2] == ' ');
        assert(seq![b[0]] =~= b);
        assert(words(s) =~= seq![a, b]);
    } else {
        let c = b.drop_last();
        assert forall|i: int| 0 <= i < c.len() implies !is_space(#[trigger] c[i]) by {
            assert(c[i] == b[i]);
        }
        law_two_words(a, c);
        assert(front =~= a + seq![' '] + c);
        assert(s[s.len() - 2] == b[b.len() - 2]);
        assert(c.push(b.last()) =~= b);
        assert(seq![a, c].drop_last() =~= seq![a]);
        assert(words(s) =~= seq![a, b]);
    }
}

/// Splits a text into its words.
pub fn split_words(s: &str) -> (r: Vec<String>)
    ensures
        texts(r@) == words(s@),
{
    let cs = chars_of(s);
    let len: usize = cs.len();
    let mut out: Vec<String> = Vec::new();
    let mut word = String::new();
    let mut i: usize = 0;
    assert(texts(out@) =~= words(cs@.take(0)));
    while i < len
        invariant
            i <= len == cs@.len(),
            (word@.len() > 0) == (i > 0 && !is_space(cs@[i - 1])),
            word@.len() == 0 ==> texts(out@) == words(cs@.take(i as int)),
            word@.len() > 0 ==> texts(out@).push(word@) == words(cs@.take(i as int)),
        decreases len - i,
    {
        let ghost before = words(cs@.take(i as int));
        let ghost done = texts(out@);
        let ghost open = word@;
        assert(cs@.take(i + 1).drop_last() =~= cs@.take(i as int));
        assert(cs@.take(i + 1).last() == cs@[i as int]);
        if space_char(cs[i]) {
            if !word.as_str().is_empty() {
                out.push(word);
                word = String::new();
                assert(texts(out@) =~= done.push(open));
            }
        } else {
            word.push(cs[i]);
            proof {
                if open.len() > 0 {
                    assert(before.drop_last() =~= done);
                    assert(before.last() == open);
                } else {
                    assert(word@ =~= seq![cs@[i as int]]);
                }
            }
        }
        i += 1;
    }
    assert(cs@.take(len as int) =~= s@);
    let ghost done = texts(out@);
    let ghost open = word@;
    if !word.as_str().is_empty() {
        out.push(word);
        assert(texts(out@) =~= done.push(open));
    }
    out
}

/// The part of the text before the first character that is one of `stops`;
/// the whole text where there is none.
pub open spec fn up_to(s: Seq<char>, stops: Seq<char>) -> Seq<char>
    decreases s.len(),
{
    if s.len() == 0 || stops.contains(s[0]) {
        Seq::<char>::empty()
    } else {
        seq![s[0]] + up_to(s.drop_first(), stops)
    }
}

/// Text without any of the stops is passed over.
pub proof fn lemma_up_to_append(a: Seq<char>, b: Seq<char>, stops: Seq<char>)
    requires
        forall|i: int| 0 <= i < a.len() ==> !stops.contains(#[trigger] a[i]),
    ensures
        up_to(a + b, stops) == a + up_to(b, stops),
    decreases a.len(),
{
    if a.len() > 0 {
        let rest = a.drop_first();
        assert forall|i: int| 0 <= i < rest.len() implies !stops.contains(#[trigger] rest[i]) by {
            assert(rest[i] == a[i + 1]);
        }
        lemma_up_to_append(rest, b, stops);
        assert(!stops.contains(a[0]));
        assert((a + b)[0] == a[0]);
        assert((a + b).drop_first() =~= rest + b);
        assert(seq![a[0]] + (rest + up_to(b, stops)) =~= a + up_to(b, stops));
    } else {
        assert(a + b =~= b);
        assert(a + up_to(b, stops) =~= up_to(b, stops));
    }
}

/// What stands before the first of some characters holds none of them, and one of
/// them follows where anything follows.
pub proof fn law_up_to(s: Seq<char>, stops: Seq<char>)
    ensures
        up_to(s, stops).len() <= s.len(),
        up_to(s, stops) == s.take(up_to(s, stops).len() as int),
        forall|i: int| 0 <= i < up_to(s, stops).len() ==> !stops.contains(#[trigger] s[i]),
        up_to(s, stops).len() < s.len() ==> stops.contains(s[up_to(s, stops).len() as int]),
    decreases s.len(),
{
    let u = up_to(s, stops);
    if s.len() > 0 && !stops.contains(s[0]) {
        let rest = s.drop_first();
        law_up_to(rest, stops);
        let v = up_to(rest, stops);
        assert(u =~= s.take(u.len() as int)) by {
            assert forall|i: int| 0 <= i < u.len() implies u[i] == s[i] by {
                if i > 0 {
                    assert(v[i - 1] == rest.take(v.len() as int)[i - 1]);
                }
            }
        }
        assert forall|i: int| 0 <= i < u.len() implies !stops.contains(#[trigger] s[i]) by {
            if i > 0 {
                assert(s[i] == rest[i - 1]);
            }
        }
        if u.len() < s.len() {
            assert(s[u.len() as int] == rest[v.len() as int]);
        }
    } else {
        assert(s.take(0) =~= u);
    }
}

fn is_one_of(c: char, stops: &Vec<char>) -> (r: bool)
    ensures
        r == stops@.contains(c),
{
    let mut i: usize = 0;
    while i < stops.len()
        invariant
            i <= stops@.len(),
            forall|j: int| 0 <= j < i ==> stops@[j] != c,
        decreases stops.len() - i,
    {
        if stops[i] == c {
            assert(stops@[i as int] == c);
            return true;
        }
        i += 1;
    }
    false
}

/// The part of a text before the first of the characters in `stops`.
pub fn prefix_up_to(s: &str, stops: &str) -> (r: String)
    ensures
        r@ == up_to(s@, stops@),
{
    let cs = chars_of(s);
    let marks = chars_of(stops);
    let len: usize = cs.len();
    let mut i: usize = 0;
    assert(cs@.skip(0) =~= cs@);
    assert(cs@.take(0) + up_to(cs@.skip(0), marks@) =~= up_to(cs@, marks@));
    while i < len && !is_one_of(cs[i], &marks)
        invariant
            i <= len == cs@.len(),
            up_to(cs@, marks@) == cs@.take(i as int) + up_to(cs@.skip(i as int), marks@),
        decreases len - i,
    {
        let ghost tail = cs@.skip(i as int);
        assert(tail[0] == cs@[i as int]);
        assert(tail.drop_first() =~= cs@.skip(i + 1));
        assert(cs@.take(i as int) + (seq![cs@[i as int]] + up_to(cs@.skip(i + 1), marks@))
            =~= cs@.take(i + 1) + up_to(cs@.skip(i + 1), marks@));
        i += 1;
    }
    proof {
        if i < len {
            assert(cs@.skip(i as int)[0] == cs@[i as int]);
        }
        assert(cs@.take(i as int) + Seq::<char>::empty() =~= cs@.subrange(0, i as int));
    }
    text_of(&cs, 0, i)
}

// ---------------------------------------------------------------------------
// Searching
// ---------------------------------------------------------------------------

/// Whether `pat` stands in the text at position `at`.
pub open spec fn occurs_at(s: Seq<char>, pat: Seq<char>, at: int) -> bool {
    0 <= at && at + pat.len() <= s.len() && s.subrange(at, at + pat.len()) == pat
}

/// Whether `pat` stands anywhere in the text.
pub open spec fn occurs(s: Seq<char>, pat: Seq<char>) -> bool {
    exists|at: int| #[trigger] occurs_at(s, pat, at)
}

/// Whether `at` is the first position at which `pat` stands in the text.
pub open spec fn first_at(s: Seq<char>, pat: Seq<char>, at: int) -> bool {
    &&& occurs_at(s, pat, at)
    &&& forall|j: int| 0 <= j < at ==> !#[trigger] occurs_at(s, pat, j)
}

fn stands_at(cs: &Vec<char>, pat: &Vec<char>, at: usize) -> (r: bool)
    requires
        at <= cs@.len(),
    ensures
        r == occurs_at(cs@, pat@, at as int),
{
    let len: usize = cs.len();
    if pat.len() > len - at {
        return false;
    }
    let mut j: usize = 0;
    while j < pat.len()
        invariant
            j <= pat@.len(),
            at + pat@.len() <= len == cs@.len(),
            forall|k: int| 0 <= k < j ==> cs@[at + k] == pat@[k],
        decreases pat.len() - j,
    {
        if cs[at + j] != pat[j] {
            assert(cs@.subrange(at as int, at + pat@.len())[j as int] == cs@[at + j]);
            return false;
        }
        j += 1;
    }
    assert(cs@.subrange(at as int, at + pat@.len()) =~= pat@);
    true
}

/// The first position of `pat` among the characters of a text.
pub fn find_chars(cs: &Vec<char>, pat: &Vec<char>) -> (r: Option<usize>)
    ensures
        match r {
            Some(at) => first_at(cs@, pat@, at as int),
            None => !occurs(cs@, pat@),
        },
{
    let len: usize = cs.len();
    let mut at: usize = 0;
    loop
        invariant
            at <= len == cs@.len(),
            forall|j: int| 0 <= j < at ==> !#[trigger] occurs_at(cs@, pat@, j),
        decreases len - at,
    {
        if stands_at(cs, pat, at) {
            return Some(at);
        }
        if at == len {
            assert(forall|j: int| !#[trigger] occurs_at(cs@, pat@, j));
            return None;
        }
        at += 1;
    }
}

/// Whether `pat` stands anywhere in the text.
pub fn contains(s: &str, pat: &str) -> (r: bool)
    ensures
        r == occurs(s@, pat@),
{
    match find_chars(&chars_of(s), &chars_of(pat)) {
        Some(_) => true,
        None => false,
    }
}

/// What follows the first occurrence of `pat` in the text, if it occurs.
pub open spec fn tail_after(s: Seq<char>, pat: Seq<char>) -> Option<Seq<char>> {
    if occurs(s, pat) {
        Some(s.skip((choose|at: int| first_at(s, pat, at)) + pat.len()))
    } else {
        None
    }
}

/// `tail_after` is what follows the one first position of `pat`.
pub proof fn lemma_tail_after(s: Seq<char>, pat: Seq<char>, at: int)
    requires
        first_at(s, pat, at),
    ensures
        tail_after(s, pat) == Some(s.skip(at + pat.len())),
{
    let chosen = choose|at: int| first_at(s, pat, at);
    assert(first_at(s, pat, chosen));
    assert(occurs_at(s, pat, at));
    assert(occurs_at(s, pat, chosen));
}

/// What follows a text does not change where something first stands in it.
pub proof fn lemma_first_at_append(s: Seq<char>, more: Seq<char>, pat: Seq<char>, at: int)
    requires
        first_at(s, pat, at),
    ensures
        first_at(s + more, pat, at),
{
    let t = s + more;
    assert(t.subrange(at, at + pat.len()) =~= s.subrange(at, at + pat.len()));
    assert forall|j: int| 0 <= j < at implies !#[trigger] occurs_at(t, pat, j) by {
        assert(t.subrange(j, j + pat.len()) =~= s.subrange(j, j + pat.len()));
        assert(!occurs_at(s, pat, j));
    }
}

/// What follows the first occurrence of `pat`, if it occurs.
pub fn after(s: &str, pat: &str) -> (r: Option<String>)
    ensures
        opt_text(r) == tail_after(s@, pat@),
{
    let cs = chars_of(s);
    let marks = chars_of(pat);
    match find_chars(&cs, &marks) {
        Some(at) => {
            let len: usize = cs.len();
            let tail = text_of(&cs, at + marks.len(), len);
            proof {
                lemma_tail_after(s@, pat@, at as int);
                assert(tail@ =~= s@.skip(at + pat@.len()));
            }
            Some(tail)
        },
        None => None,
    }
}

/// Whether the text begins with `prefix`.
pub open spec fn begins(s: Seq<char>, prefix: Seq<char>) -> bool {
    occurs_at(s, prefix, 0)
}

/// The text without a leading `prefix`, if it begins with it.
pub fn strip_prefix(s: &str, prefix: &str) -> (r: Option<String>)
    ensures
        match r {
            Some(rest) => begins(s@, prefix@) && rest@ == s@.skip(prefix@.len() as int),
            None => !begins(s@, prefix@),
        },
{
    let cs = chars_of(s);
    let head = chars_of(prefix);
    if stands_at(&cs, &head, 0) {
        let rest = text_of(&cs, head.len(), cs.len());
        assert(rest@ =~= s@.skip(prefix@.len() as int));
        Some(rest)
    } else {
        None
    }
}

// ---------------------------------------------------------------------------
// Numbers as text
// ---------------------------------------------------------------------------

/// The character of a digit below sixteen, in lower case.
pub open spec fn digit(d: int) -> char {
    if d < 10 {
        ('0' as u32 + d) as char
    } else {
        ('a' as u32 + d - 10) as char
    }
}

/// The digits of a number in base `base`, most significant first.
pub open spec fn numeral(n: nat, base: nat) -> Seq<char>
    decreases n,
{
    if base < 2 || n < base {
        seq![digit(n as int)]
    } else {
        proof {
            vstd::arithmetic::div_mod::lemma_div_decreases(n as int, base as int);
        }
        numeral(n / base, base).push(digit((n % base) as int))
    }
}

/// A number in decimal.
pub open spec fn decimal(n: nat) -> Seq<char> {
    numeral(n, 10)
}

pub fn digit_char(d: u8) -> (r: char)
    requires
        d < 16,
    ensures
        r == digit(d as int),
{
    if d < 10 {
        (0x30 + d) as char
    } else {
        (0x61 + (d - 10)) as char
    }
}

fn numeral_text(n: u128, base: u128) -> (r: String)
    requires
        2 <= base <= 16,
    ensures
        r@ == numeral(n as nat, base as nat),
    decreases n,
{
    if n < base {
        let mut out = String::new();
        out.push(digit_char(n as u8));
        assert(out@ =~= numeral(n as nat, base as nat));
        out
    } else {
        proof {
            vstd::arithmetic::div_mod::lemma_div_decreases(n as int, base as int);
            vstd::arithmetic::div_mod::lemma_mod_bound(n as int, base as int);
        }
        let mut out = numeral_text(n / base, base);
        out.push(digit_char((n % base) as u8));
        out
    }
}

proof fn lemma_digit(a: int, b: int)
    requires
        0 <= a < 16,
        0 <= b < 16,
    ensures
        digit(a) != '-',
        digit(a) == digit(b) ==> a == b,
{
}

/// There is no dash in a number, and it has a digit.
pub proof fn lemma_numeral_dashless(n: nat, base: nat)
    requires
        2 <= base <= 16,
    ensures
        numeral(n, base).len() > 0,
        forall|i: int| 0 <= i < numeral(n, base).len() ==> #[trigger] numeral(n, base)[i] != '-',
    decreases n,
{
    if n < base {
        lemma_digit(n as int, n as int);
    } else {
        vstd::arithmetic::div_mod::lemma_div_decreases(n as int, base as int);
        vstd::arithmetic::div_mod::lemma_mod_bound(n as int, base as int);
        lemma_numeral_dashless(n / base, base);
        lemma_digit((n % base) as int, 0);
        let front = numeral(n / base, base);
        let all = numeral(n, base);
        assert forall|i: int| 0 <= i < all.len() implies #[trigger] all[i] != '-' by {
            if i < front.len() {
                assert(all[i] == front[i]);
            }
        }
    }
}

/// Different numbers are written differently.
pub proof fn law_numeral_injective(a: nat, b: nat, base: nat)
    requires
        2 <= base <= 16,
        numeral(a, base) == numeral(b, base),
    ensures
        a == b,
    decreases a + b,
{
    if a >= base {
        vstd::arithmetic::div_mod::lemma_div_decreases(a as int, base as int);
        vstd::arithmetic::div_mod::lemma_mod_bound(a as int, base as int);
        vstd::arithmetic::div_mod::lemma_fundamental_div_mod(a as int, base as int);
        lemma_numeral_dashless(a / base, base);
    }
    if b >= base {
        vstd::arithmetic::div_mod::lemma_div_decreases(b as int, base as int);
        vstd::arithmetic::div_mod::lemma_mod_bound(b as int, base as int);
        vstd::arithmetic::div_mod::lemma_fundamental_div_mod(b as int, base as int);
        lemma_numeral_dashless(b / base, base);
    }
    let last_a = if a < base {
        a as int
    } else {
        (a % base) as int
    };
    let last_b = if b < base {
        b as int
    } else {
        (b % base) as int
    };
    assert(numeral(a, base).last() == digit(last_a));
    assert(numeral(b, base).last() == digit(last_b));
    lemma_digit(last_a, last_b);
    if a >= base && b >= base {
        assert(numeral(a, base).drop_last() =~= numeral(a / base, base));
        assert(numeral(b, base).drop_last() =~= numeral(b / base, base));
        law_numeral_injective(a / base, b / base, base);
    } else {
        assert(numeral(a, base).len() == numeral(b, base).len());
    }
}

/// What stands before and after the last dash of a text is determined by it.
pub proof fn lemma_last_dash(a1: Seq<char>, n1: Seq<char>, a2: Seq<char>, n2: Seq<char>)
    requires
        a1 + seq!['-'] + n1 == a2 + seq!['-'] + n2,
        forall|i: int| 0 <= i < n1.len() ==> #[trigger] n1[i] != '-',
        forall|i: int| 0 <= i < n2.len() ==> #[trigger] n2[i] != '-',
    ensures
        a1 == a2,
        n1 == n2,
{
    let s = a1 + seq!['-'] + n1;
    let t = a2 + seq!['-'] + n2;
    assert(s.len() == t.len());
    assert(s[a1.len() as int] == '-');
    assert(t[a2.len() as int] == '-');
    if a1.len() > a2.len() {
        assert(t[a1.len() as int] == n2[a1.len() - a2.len() - 1]);
    }
    if a2.len() > a1.len() {
        assert(s[a2.len() as int] == n1[a2.len() - a1.len() - 1]);
    }
    assert(a1 =~= s.take(a1.len() as int));
    assert(a2 =~= t.take(a2.len() as int));
    assert(n1 =~= s.skip(a1.len() as int + 1));
    assert(n2 =~= t.skip(a2.len() as int + 1));
}

/// A number in decimal.
pub fn decimal_text(n: u64) -> (r: String)
    ensures
        r@ == decimal(n as nat),
{
    numeral_text(n as u128, 10)
}

/// A number in hexadecimal, in lower case.
pub fn hex_text(n: u128) -> (r: String)
    ensures
        r@ == numeral(n as nat, 16),
{
    numeral_text(n, 16)
}

} // verus!
