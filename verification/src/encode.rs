//! Percent-encoding of texts for the query and for the path of a URL.
use vstd::prelude::*;
use vstd::utf8::*;

use crate::text::{
    lemma_split_first, lemma_tail_after, lemma_up_to_append, occurs_at, split, tail_after, up_to,
};

verus! {

/// Where in a URL a text goes.
#[derive(Clone, Copy)]
pub enum Place {
    /// A value in the query: a space becomes `+`.
    Query,
    /// A segment of the path: `@` stays readable.
    Segment,
}

/// The bytes that stand for themselves wherever they are put.
pub open spec fn is_unreserved(b: u8) -> bool {
    ||| 0x41 <= b <= 0x5a
    ||| 0x61 <= b <= 0x7a
    ||| 0x30 <= b <= 0x39
    ||| b == 0x2d
    ||| b == 0x5f
    ||| b == 0x2e
    ||| b == 0x7e
}

/// The bytes that stand for themselves in a place.
pub open spec fn is_kept(place: Place, b: u8) -> bool {
    is_unreserved(b) || (place is Segment && b == 0x40)
}

/// A digit below sixteen, in upper case.
pub open spec fn upper_digit(d: int) -> char {
    if d < 10 {
        (0x30 + d) as char
    } else {
        (0x41 + d - 10) as char
    }
}

/// What stands for one byte.
pub open spec fn byte_code(place: Place, b: u8) -> Seq<char> {
    if is_kept(place, b) {
        seq![b as char]
    } else if place is Query && b == 0x20 {
        seq!['+']
    } else {
        seq!['%', upper_digit(b as int / 16), upper_digit(b as int % 16)]
    }
}

/// What stands for several bytes.
pub open spec fn byte_codes(place: Place, bytes: Seq<u8>) -> Seq<char>
    decreases bytes.len(),
{
    if bytes.len() == 0 {
        Seq::<char>::empty()
    } else {
        byte_codes(place, bytes.drop_last()) + byte_code(place, bytes.last())
    }
}

/// What stands for a text: the codes of its UTF-8 bytes.
pub open spec fn url_encoded(s: Seq<char>) -> Seq<char> {
    byte_codes(Place::Query, encode_utf8(s))
}

/// What stands for a text in the path of a URL.
pub open spec fn segment_encoded(s: Seq<char>) -> Seq<char> {
    byte_codes(Place::Segment, encode_utf8(s))
}

fn upper_digit_char(d: u8) -> (r: char)
    requires
        d < 16,
    ensures
        r == upper_digit(d as int),
{
    if d < 10 {
        (0x30 + d) as char
    } else {
        (0x41 + (d - 10)) as char
    }
}

fn kept(place: Place, b: u8) -> (r: bool)
    ensures
        r == is_kept(place, b),
{
    (0x41 <= b && b <= 0x5a) || (0x61 <= b && b <= 0x7a) || (0x30 <= b && b <= 0x39) || b == 0x2d
        || b == 0x5f || b == 0x2e || b == 0x7e || (match place {
        Place::Segment => b == 0x40,
        Place::Query => false,
    })
}

fn encode(place: Place, input: &str) -> (r: String)
    ensures
        r@ == byte_codes(place, encode_utf8(input@)),
{
    let bytes = input.as_bytes();
    let mut out = String::new();
    let mut i: usize = 0;
    while i < bytes.len()
        invariant
            i <= bytes@.len(),
            out@ == byte_codes(place, bytes@.take(i as int)),
        decreases bytes.len() - i,
    {
        let b: u8 = bytes[i];
        let ghost before = out@;
        assert(bytes@.take(i + 1).drop_last() =~= bytes@.take(i as int));
        assert(bytes@.take(i + 1).last() == b);
        let plus: bool = match place {
            Place::Query => b == 0x20,
            Place::Segment => false,
        };
        if kept(place, b) {
            out.push(b as char);
        } else if plus {
            out.push('+');
        } else {
            out.push('%');
            out.push(upper_digit_char(b / 16));
            out.push(upper_digit_char(b % 16));
        }
        assert(out@ =~= before + byte_code(place, b));
        i += 1;
    }
    assert(bytes@.take(bytes@.len() as int) =~= bytes@);
    out
}

/// Encodes a text for the query of a URL: letters, digits and `-_.~` stand for
/// themselves, a space becomes `+`, and every other byte of the UTF-8 form
/// becomes `%XX`.
pub fn urlencode(input: &str) -> (r: String)
    ensures
        r@ == url_encoded(input@),
{
    encode(Place::Query, input)
}

/// Encodes a segment of a path: letters, digits and `-_.~@` stand for
/// themselves, and every other byte of the UTF-8 form becomes `%XX`.
pub fn enc_segment(input: &str) -> (r: String)
    ensures
        r@ == segment_encoded(input@),
{
    encode(Place::Segment, input)
}

// ---------------------------------------------------------------------------
// Laws
// ---------------------------------------------------------------------------

/// The characters that an encoded text is made of.
pub open spec fn is_url_char(place: Place, c: char) -> bool {
    ||| c == '%'
    ||| place is Query && c == '+'
    ||| (c as int) < 128 && is_kept(place, c as u8)
}

/// An encoded text holds nothing but unreserved characters, `%`, and `+` (in a
/// query) or `@` (in a path). None of them has a meaning in a URL, so an
/// encoded text never ends the part of the URL that it stands in.
pub proof fn law_encoded_alphabet(place: Place, bytes: Seq<u8>)
    ensures
        forall|i: int|
            0 <= i < byte_codes(place, bytes).len() ==> is_url_char(
                place,
                #[trigger] byte_codes(place, bytes)[i],
            ),
    decreases bytes.len(),
{
    if bytes.len() > 0 {
        law_encoded_alphabet(place, bytes.drop_last());
        let front = byte_codes(place, bytes.drop_last());
        let code = byte_code(place, bytes.last());
        assert forall|i: int| 0 <= i < byte_codes(place, bytes).len() implies is_url_char(
            place,
            #[trigger] byte_codes(place, bytes)[i],
        ) by {
            if i < front.len() {
                assert(byte_codes(place, bytes)[i] == front[i]);
            } else {
                assert(byte_codes(place, bytes)[i] == code[i - front.len()]);
            }
        }
    }
}

proof fn lemma_codes_from_front(place: Place, bytes: Seq<u8>)
    requires
        bytes.len() > 0,
    ensures
        byte_codes(place, bytes) == byte_code(place, bytes[0]) + byte_codes(
            place,
            bytes.drop_first(),
        ),
    decreases bytes.len(),
{
    if bytes.len() == 1 {
        assert(bytes.drop_last() =~= Seq::<u8>::empty());
        assert(bytes.drop_first() =~= Seq::<u8>::empty());
        assert(byte_codes(place, bytes) =~= byte_code(place, bytes[0]) + byte_codes(
            place,
            bytes.drop_first(),
        ));
    } else {
        let front = bytes.drop_last();
        lemma_codes_from_front(place, front);
        assert(front.drop_first() =~= bytes.drop_first().drop_last());
        assert(bytes.drop_first().last() == bytes.last());
        assert(byte_codes(place, bytes) =~= byte_code(place, bytes[0]) + byte_codes(
            place,
            bytes.drop_first(),
        ));
    }
}

proof fn lemma_upper_digit_injective(a: int, b: int)
    requires
        0 <= a < 16,
        0 <= b < 16,
        upper_digit(a) == upper_digit(b),
    ensures
        a == b,
{
}

/// The encoding can be undone: different bytes never give the same text.
#[verifier::rlimit(40)]
pub proof fn law_encoding_injective(place: Place, a: Seq<u8>, b: Seq<u8>)
    requires
        byte_codes(place, a) == byte_codes(place, b),
    ensures
        a == b,
    decreases a.len() + b.len(),
{
    if a.len() > 0 {
        lemma_codes_from_front(place, a);
    }
    if b.len() > 0 {
        lemma_codes_from_front(place, b);
    }
    if a.len() == 0 || b.len() == 0 {
        assert(a.len() > 0 ==> byte_code(place, a[0]).len() > 0);
        assert(b.len() > 0 ==> byte_code(place, b[0]).len() > 0);
        assert(a.len() > 0 ==> byte_codes(place, a).len() > 0);
        assert(b.len() > 0 ==> byte_codes(place, b).len() > 0);
        assert(a.len() == 0 ==> byte_codes(place, a).len() == 0);
        assert(b.len() == 0 ==> byte_codes(place, b).len() == 0);
        assert(a =~= b);
    } else {
        let ca = byte_code(place, a[0]);
        let cb = byte_code(place, b[0]);
        let ta = byte_codes(place, a.drop_first());
        let tb = byte_codes(place, b.drop_first());
        let whole = ca + ta;
        assert(whole == cb + tb);
        assert(whole[0] == ca[0] && whole[0] == cb[0]);
        if ca.len() == 3 {
            assert(whole[1] == ca[1] && whole[1] == cb[1]);
            assert(whole[2] == ca[2] && whole[2] == cb[2]);
            lemma_upper_digit_injective(a[0] as int / 16, b[0] as int / 16);
            lemma_upper_digit_injective(a[0] as int % 16, b[0] as int % 16);
        }
        assert(a[0] == b[0]);
        assert(ta =~= whole.skip(ca.len() as int));
        assert(tb =~= whole.skip(cb.len() as int));
        law_encoding_injective(place, a.drop_first(), b.drop_first());
        assert(a =~= seq![a[0]] + a.drop_first());
        assert(b =~= seq![b[0]] + b.drop_first());
    }
}

/// Different queries are never encoded the same way.
pub proof fn law_urlencode_injective(a: Seq<char>, b: Seq<char>)
    requires
        url_encoded(a) == url_encoded(b),
    ensures
        a == b,
{
    law_encoding_injective(Place::Query, encode_utf8(a), encode_utf8(b));
    encode_utf8_decode_utf8(a);
    encode_utf8_decode_utf8(b);
}

/// Whether a character stands for itself in a place.
pub open spec fn is_plain(place: Place, c: char) -> bool {
    (c as int) < 128 && is_kept(place, c as u8)
}

proof fn lemma_plain_char(place: Place, c: char)
    requires
        is_plain(place, c),
    ensures
        '\0' <= c <= '\u{7f}',
        (c as u8) as char == c,
        byte_code(place, c as u8) == seq![c],
{
}

proof fn lemma_codes_of_plain(place: Place, s: Seq<char>, bytes: Seq<u8>)
    requires
        bytes.len() == s.len(),
        forall|i: int| 0 <= i < s.len() ==> bytes[i] == #[trigger] s[i] as u8,
        forall|i: int| 0 <= i < s.len() ==> is_plain(place, #[trigger] s[i]),
    ensures
        byte_codes(place, bytes) == s,
    decreases s.len(),
{
    if s.len() > 0 {
        let c = s.last();
        assert(is_plain(place, s[s.len() - 1]));
        assert forall|i: int| 0 <= i < s.drop_last().len() implies bytes.drop_last()[i]
            == #[trigger] s.drop_last()[i] as u8 && is_plain(place, s.drop_last()[i]) by {
            assert(s.drop_last()[i] == s[i]);
        }
        lemma_codes_of_plain(place, s.drop_last(), bytes.drop_last());
        lemma_plain_char(place, c);
        assert(s =~= s.drop_last().push(c));
    }
}

/// A text made of characters that stand for themselves is left as it is.
pub proof fn law_plain_text_unchanged(place: Place, s: Seq<char>)
    requires
        forall|i: int| 0 <= i < s.len() ==> is_plain(place, #[trigger] s[i]),
    ensures
        byte_codes(place, encode_utf8(s)) == s,
{
    assert(is_ascii_chars(s)) by {
        assert forall|i: int| 0 <= i < s.len() implies '\0' <= #[trigger] s[i] <= '\u{7f}' by {
            lemma_plain_char(place, s[i]);
        }
    }
    is_ascii_chars_encode_utf8(s);
    lemma_codes_of_plain(place, s, encode_utf8(s));
}

// ---------------------------------------------------------------------------
// Reading addresses
// ---------------------------------------------------------------------------

/// The value of a hexadecimal digit.
pub open spec fn hex_value(c: char) -> int {
    if '0' <= c <= '9' {
        c as int - 0x30
    } else if 'A' <= c <= 'F' {
        c as int - 0x41 + 10
    } else {
        c as int - 0x61 + 10
    }
}

/// The bytes that an encoded text stands for, as whoever is sent an address reads
/// them: `%` and two digits are a byte, `+` is a space in a query, and any other
/// character is itself.
pub open spec fn decoded_bytes(place: Place, s: Seq<char>) -> Seq<u8>
    decreases s.len(),
{
    if s.len() == 0 {
        Seq::empty()
    } else if s[0] == '%' && s.len() >= 3 {
        seq![(16 * hex_value(s[1]) + hex_value(s[2])) as u8] + decoded_bytes(place, s.skip(3))
    } else if place is Query && s[0] == '+' {
        seq![0x20u8] + decoded_bytes(place, s.skip(1))
    } else {
        seq![s[0] as u8] + decoded_bytes(place, s.skip(1))
    }
}

/// The text that an encoded text stands for.
pub open spec fn decoded(place: Place, s: Seq<char>) -> Seq<char> {
    decode_utf8(decoded_bytes(place, s))
}

proof fn lemma_hex_digits(b: u8)
    ensures
        0 <= b as int / 16 < 16,
        0 <= b as int % 16 < 16,
        hex_value(upper_digit(b as int / 16)) == b as int / 16,
        hex_value(upper_digit(b as int % 16)) == b as int % 16,
        (16 * (b as int / 16) + b as int % 16) == b,
{
}

proof fn lemma_kept_char(place: Place, b: u8)
    requires
        is_kept(place, b),
    ensures
        (b as char) as u8 == b,
        b as char != '%',
        b as char != '+',
{
}

/// Whoever reads an encoded text gets the bytes that were encoded.
pub proof fn law_bytes_are_read_back(place: Place, bytes: Seq<u8>)
    ensures
        decoded_bytes(place, byte_codes(place, bytes)) == bytes,
    decreases bytes.len(),
{
    if bytes.len() > 0 {
        let b = bytes[0];
        let rest = bytes.drop_first();
        let code = byte_code(place, b);
        let tail = byte_codes(place, rest);
        lemma_codes_from_front(place, bytes);
        law_bytes_are_read_back(place, rest);
        let all = code + tail;
        assert(all[0] == code[0]);
        if is_kept(place, b) {
            lemma_kept_char(place, b);
            assert(all.skip(1) =~= tail);
        } else if place is Query && b == 0x20 {
            assert(all.skip(1) =~= tail);
        } else {
            lemma_hex_digits(b);
            assert(all[1] == code[1] && all[2] == code[2]);
            assert(all.skip(3) =~= tail);
        }
        assert(seq![b] + rest =~= bytes);
    } else {
        assert(bytes =~= Seq::<u8>::empty());
    }
}

/// Whoever reads an encoded text gets the text that was encoded.
pub proof fn law_text_is_read_back(s: Seq<char>)
    ensures
        decoded(Place::Query, url_encoded(s)) == s,
        decoded(Place::Segment, segment_encoded(s)) == s,
{
    law_bytes_are_read_back(Place::Query, encode_utf8(s));
    law_bytes_are_read_back(Place::Segment, encode_utf8(s));
    encode_utf8_decode_utf8(s);
}

/// The part of an address before its query.
pub open spec fn address_of(url: Seq<char>) -> Seq<char> {
    up_to(url, "?#"@)
}

/// A part of a query as its name and its value.
pub open spec fn query_pair(part: Seq<char>) -> (Seq<char>, Seq<char>) {
    (
        up_to(part, "="@),
        match tail_after(part, "="@) {
            Some(value) => decoded(Place::Query, value),
            None => Seq::empty(),
        },
    )
}

/// The names and the values in the query of an address, in their order.
pub open spec fn query_pairs(url: Seq<char>) -> Seq<(Seq<char>, Seq<char>)> {
    match tail_after(url, "?"@) {
        Some(query) => split(up_to(query, "#"@), '&').map_values(
            |part: Seq<char>| query_pair(part),
        ),
        None => Seq::empty(),
    }
}

/// Whether a text can stand in an address without ending any part of it.
pub open spec fn is_inert(s: Seq<char>) -> bool {
    forall|i: int|
        0 <= i < s.len() ==> #[trigger] s[i] != '?' && s[i] != '#' && s[i] != '&' && s[i] != '='
            && s[i] != '/'
}

proof fn lemma_url_char(c: char)
    requires
        is_url_char(Place::Query, c) || is_url_char(Place::Segment, c),
    ensures
        c != '?' && c != '#' && c != '&' && c != '=' && c != '/',
{
}

/// An encoded text can stand in an address without ending any part of it.
pub proof fn law_encoded_is_inert(s: Seq<char>)
    ensures
        is_inert(url_encoded(s)),
        is_inert(segment_encoded(s)),
{
    law_encoded_alphabet(Place::Query, encode_utf8(s));
    law_encoded_alphabet(Place::Segment, encode_utf8(s));
    let q = url_encoded(s);
    let p = segment_encoded(s);
    assert forall|i: int| 0 <= i < q.len() implies #[trigger] q[i] != '?' && q[i] != '#' && q[i]
        != '&' && q[i] != '=' && q[i] != '/' by {
        lemma_url_char(q[i]);
    }
    assert forall|i: int| 0 <= i < p.len() implies #[trigger] p[i] != '?' && p[i] != '#' && p[i]
        != '&' && p[i] != '=' && p[i] != '/' by {
        lemma_url_char(p[i]);
    }
}

/// A name and a value as they stand in a query.
pub open spec fn query_part(name: Seq<char>, value: Seq<char>) -> Seq<char> {
    name + seq!['='] + url_encoded(value)
}

proof fn lemma_query_part(name: Seq<char>, value: Seq<char>)
    requires
        is_inert(name),
    ensures
        query_pair(query_part(name, value)) == (name, value),
        forall|i: int|
            0 <= i < query_part(name, value).len() ==> #[trigger] query_part(name, value)[i] != '&'
                && query_part(name, value)[i] != '#',
{
    let part = query_part(name, value);
    let v = url_encoded(value);
    let at = name.len() as int;
    law_encoded_is_inert(value);
    law_text_is_read_back(value);
    reveal_strlit("=");
    assert("="@ =~= seq!['=']);
    assert forall|i: int| 0 <= i < part.len() implies #[trigger] part[i] != '&' && part[i] != '#' by {
        if i < at {
            assert(part[i] == name[i]);
        } else if i > at {
            assert(part[i] == v[i - at - 1]);
        }
    }
    assert(part.subrange(at, at + 1) =~= "="@);
    assert forall|j: int| 0 <= j < at implies !#[trigger] occurs_at(part, "="@, j) by {
        if occurs_at(part, "="@, j) {
            assert(part.subrange(j, j + 1)[0] == name[j]);
        }
    }
    lemma_tail_after(part, "="@, at);
    assert(part.skip(at + 1) =~= v);
    let rest = seq!['='] + v;
    assert(name + rest =~= part);
    lemma_up_to_append(name, rest, "="@);
    assert("="@.contains(rest[0])) by {
        assert("="@[0] == '=');
    }
    assert(name + up_to(rest, "="@) =~= name);
}

/// The query of an address that is made of an address without one, a question mark
/// and parts is read as those parts.
proof fn lemma_query(base: Seq<char>, query: Seq<char>)
    requires
        forall|i: int| 0 <= i < base.len() ==> #[trigger] base[i] != '?' && base[i] != '#',
        forall|i: int| 0 <= i < query.len() ==> #[trigger] query[i] != '#',
    ensures
        address_of(base + seq!['?'] + query) == base,
        query_pairs(base + seq!['?'] + query) == split(query, '&').map_values(
            |part: Seq<char>| query_pair(part),
        ),
{
    let url = base + seq!['?'] + query;
    let at = base.len() as int;
    reveal_strlit("?");
    reveal_strlit("#");
    reveal_strlit("?#");
    assert("?"@ =~= seq!['?'] && "#"@ =~= seq!['#'] && "?#"@ =~= seq!['?', '#']);
    assert(url.subrange(at, at + 1) =~= "?"@);
    assert forall|j: int| 0 <= j < at implies !#[trigger] occurs_at(url, "?"@, j) by {
        if occurs_at(url, "?"@, j) {
            assert(url.subrange(j, j + 1)[0] == base[j]);
        }
    }
    lemma_tail_after(url, "?"@, at);
    assert(url.skip(at + 1) =~= query);
    let none = Seq::<char>::empty();
    lemma_up_to_append(query, none, "#"@);
    assert(query + none =~= query);
    assert(query + up_to(none, "#"@) =~= query);
    let rest = seq!['?'] + query;
    assert(base + rest =~= url);
    lemma_up_to_append(base, rest, "?#"@);
    assert("?#"@.contains(rest[0])) by {
        assert("?#"@[0] == '?');
    }
    assert(base + up_to(rest, "?#"@) =~= base);
}

/// An address with a query of one part is read as what it was made of.
pub proof fn lemma_one_part(base: Seq<char>, name: Seq<char>, value: Seq<char>)
    requires
        forall|i: int| 0 <= i < base.len() ==> #[trigger] base[i] != '?' && base[i] != '#',
        is_inert(name),
    ensures
        address_of(base + seq!['?'] + query_part(name, value)) == base,
        query_pairs(base + seq!['?'] + query_part(name, value)) == seq![(name, value)],
{
    let a = query_part(name, value);
    lemma_query_part(name, value);
    lemma_query(base, a);
    lemma_split_first(a, Seq::empty(), '&');
    assert(seq![a].map_values(|part: Seq<char>| query_pair(part)) =~= seq![(name, value)]);
}

/// An address with a query of two parts is read as what it was made of.
pub proof fn lemma_two_parts(
    base: Seq<char>,
    name: Seq<char>,
    value: Seq<char>,
    name2: Seq<char>,
    value2: Seq<char>,
)
    requires
        forall|i: int| 0 <= i < base.len() ==> #[trigger] base[i] != '?' && base[i] != '#',
        is_inert(name),
        is_inert(name2),
    ensures
        ({
            let url = base + seq!['?'] + (query_part(name, value) + seq!['&'] + query_part(
                name2,
                value2,
            ));
            &&& address_of(url) == base
            &&& query_pairs(url) == seq![(name, value), (name2, value2)]
        }),
{
    let a = query_part(name, value);
    let b = query_part(name2, value2);
    let query = a + seq!['&'] + b;
    lemma_query_part(name, value);
    lemma_query_part(name2, value2);
    assert forall|i: int| 0 <= i < query.len() implies #[trigger] query[i] != '#' by {
        if i < a.len() {
            assert(query[i] == a[i]);
        } else if i > a.len() {
            assert(query[i] == b[i - a.len() - 1]);
        }
    }
    lemma_query(base, query);
    lemma_split_first(a, b, '&');
    lemma_split_first(b, Seq::empty(), '&');
    assert(split(query, '&') =~= seq![a, b]);
    assert(seq![a, b].map_values(|part: Seq<char>| query_pair(part)) =~= seq![
        (name, value),
        (name2, value2),
    ]);
}

/// An address with a query of three parts is read as what it was made of.
pub proof fn lemma_three_parts(
    base: Seq<char>,
    name: Seq<char>,
    value: Seq<char>,
    name2: Seq<char>,
    value2: Seq<char>,
    name3: Seq<char>,
    value3: Seq<char>,
)
    requires
        forall|i: int| 0 <= i < base.len() ==> #[trigger] base[i] != '?' && base[i] != '#',
        is_inert(name),
        is_inert(name2),
        is_inert(name3),
    ensures
        ({
            let url = base + seq!['?'] + (query_part(name, value) + seq!['&'] + (query_part(
                name2,
                value2,
            ) + seq!['&'] + query_part(name3, value3)));
            &&& address_of(url) == base
            &&& query_pairs(url) == seq![(name, value), (name2, value2), (name3, value3)]
        }),
{
    let a = query_part(name, value);
    let b = query_part(name2, value2);
    let c = query_part(name3, value3);
    let bc = b + seq!['&'] + c;
    let query = a + seq!['&'] + bc;
    lemma_query_part(name, value);
    lemma_query_part(name2, value2);
    lemma_query_part(name3, value3);
    assert forall|i: int| 0 <= i < bc.len() implies #[trigger] bc[i] != '#' by {
        if i < b.len() {
            assert(bc[i] == b[i]);
        } else if i > b.len() {
            assert(bc[i] == c[i - b.len() - 1]);
        }
    }
    assert forall|i: int| 0 <= i < query.len() implies #[trigger] query[i] != '#' by {
        if i < a.len() {
            assert(query[i] == a[i]);
        } else if i > a.len() {
            assert(query[i] == bc[i - a.len() - 1]);
        }
    }
    lemma_query(base, query);
    lemma_split_first(a, bc, '&');
    lemma_split_first(b, c, '&');
    lemma_split_first(c, Seq::empty(), '&');
    assert(split(query, '&') =~= seq![a, b, c]);
    assert(seq![a, b, c].map_values(|part: Seq<char>| query_pair(part)) =~= seq![
        (name, value),
        (name2, value2),
        (name3, value3),
    ]);
}

} // verus!
