//! Character-level operations on `&str`, implemented on the UTF-8 bytes.
//!
//! Contracts speak of the characters (`s@`). The implementations look at bytes and cut at byte
//! offsets, so every operation is linear in the text it inspects and borrows its result from it.

use vstd::prelude::*;
use vstd::string::StringSliceAdditionalSpecFns;

verus! {

/// True for a character that UTF-8 encodes as the single byte of the same value.
pub open spec fn is_ascii_char(c: char) -> bool {
    c as int <= 0x7f
}

/// `c` with `A`..`Z` mapped to `a`..`z`, and every other character unchanged.
pub open spec fn lower_char(c: char) -> char {
    if 'A' <= c <= 'Z' {
        (c as int + 32) as char
    } else {
        c
    }
}

/// `text` with every ASCII capital letter replaced by its small letter.
pub open spec fn lowered(text: Seq<char>) -> Seq<char> {
    text.map_values(|c: char| lower_char(c))
}

/// Two texts have the same small letters exactly if they are as long as each other and agree at
/// every place, up to the case of ASCII letters.
pub proof fn law_lowered_texts(a: Seq<char>, b: Seq<char>)
    ensures
        lowered(a) == lowered(b) <==> a.len() == b.len() && forall|k: int|
            0 <= k < a.len() ==> {
                ||| #[trigger] a[k] == b[k]
                ||| 'A' <= a[k] <= 'Z' && b[k] as int == a[k] as int + 32
                ||| 'A' <= b[k] <= 'Z' && a[k] as int == b[k] as int + 32
            },
{
    if lowered(a) == lowered(b) {
        assert(lowered(a).len() == a.len());
        assert(lowered(b).len() == b.len());
        assert forall|k: int| 0 <= k < a.len() implies {
            ||| #[trigger] a[k] == b[k]
            ||| 'A' <= a[k] <= 'Z' && b[k] as int == a[k] as int + 32
            ||| 'A' <= b[k] <= 'Z' && a[k] as int == b[k] as int + 32
        } by {
            assert(lowered(a)[k] == lowered(b)[k]);
            lemma_lower_char(a[k], b[k]);
        }
    } else if a.len() == b.len() && forall|k: int|
        0 <= k < a.len() ==> {
            ||| #[trigger] a[k] == b[k]
            ||| 'A' <= a[k] <= 'Z' && b[k] as int == a[k] as int + 32
            ||| 'A' <= b[k] <= 'Z' && a[k] as int == b[k] as int + 32
        } {
        assert forall|k: int| 0 <= k < a.len() implies #[trigger] lowered(a)[k] == lowered(
            b,
        )[k] by {
            assert(a[k] == a[k]);
            lemma_lower_char(a[k], b[k]);
        }
        assert(lowered(a) == lowered(b));
    }
}

/// Two characters have the same small letter exactly if they are equal up to ASCII case.
proof fn lemma_lower_char(c: char, d: char)
    ensures
        lower_char(c) == lower_char(d) <==> {
            ||| c == d
            ||| 'A' <= c <= 'Z' && d as int == c as int + 32
            ||| 'A' <= d <= 'Z' && c as int == d as int + 32
        },
{
}

/// `lower_char` on the encoding: every byte outside `A`..`Z` is unchanged.
spec fn lower_byte(b: u8) -> u8 {
    if 0x41 <= b <= 0x5a {
        (b + 32) as u8
    } else {
        b
    }
}

spec fn lowered_bytes(bytes: Seq<u8>) -> Seq<u8> {
    bytes.map_values(|b: u8| lower_byte(b))
}

/// An ASCII character is encoded as one byte, its own value; any other one in two or more bytes
/// that are all outside ASCII.
proof fn lemma_scalar_bytes(c: char)
    ensures
        0 <= c as int,
        is_ascii_char(c) ==> vstd::utf8::encode_scalar(c as u32) == seq![c as u8],
        !is_ascii_char(c) ==> vstd::utf8::encode_scalar(c as u32).len() >= 2,
        !is_ascii_char(c) ==> forall|i: int|
            0 <= i < vstd::utf8::encode_scalar(c as u32).len()
                ==> #[trigger] vstd::utf8::encode_scalar(c as u32)[i] >= 0x80,
{
    let v = c as u32;
    vstd::utf8::char_is_scalar(c);
    if is_ascii_char(c) {
        assert(vstd::utf8::leading_byte_width_1(v) == v as u8) by (bit_vector)
            requires
                v <= 0x7f,
        ;
    } else {
        assert(vstd::utf8::leading_byte_width_2(v) >= 0x80
            && vstd::utf8::leading_byte_width_3(v) >= 0x80
            && vstd::utf8::leading_byte_width_4(v) >= 0x80
            && vstd::utf8::last_continuation_byte(v) >= 0x80
            && vstd::utf8::second_last_continuation_byte(v) >= 0x80
            && vstd::utf8::third_last_continuation_byte(v) >= 0x80) by (bit_vector);
    }
}

/// A text is determined by its encoding.
pub proof fn lemma_encoding_injective(a: Seq<char>, b: Seq<char>)
    requires
        vstd::utf8::encode_utf8(a) == vstd::utf8::encode_utf8(b),
    ensures
        a == b,
{
    vstd::utf8::encode_utf8_decode_utf8(a);
    vstd::utf8::encode_utf8_decode_utf8(b);
}

/// The encoding of a non-empty text is that of its first character, then that of the rest.
proof fn lemma_encoding_of_first(t: Seq<char>)
    requires
        t.len() > 0,
    ensures
        vstd::utf8::encode_utf8(t) == vstd::utf8::encode_utf8(t.take(1))
            + vstd::utf8::encode_utf8(t.skip(1)),
        vstd::utf8::encode_utf8(t.take(1)) == vstd::utf8::encode_scalar(t[0] as u32),
{
    reveal_with_fuel(vstd::utf8::encode_utf8, 2);
    assert(t.drop_first() == t.skip(1));
    assert(t.take(1).drop_first().len() == 0);
    assert(vstd::utf8::encode_utf8(t.take(1)) == vstd::utf8::encode_scalar(t[0] as u32));
}

/// The encodings of two texts, one after the other, are the encoding of their concatenation.
proof fn lemma_encoding_of_concat(a: Seq<char>, b: Seq<char>)
    ensures
        vstd::utf8::encode_utf8(a + b) == vstd::utf8::encode_utf8(a) + vstd::utf8::encode_utf8(b),
    decreases a.len(),
{
    if a.len() == 0 {
        assert(a + b == b);
    } else {
        lemma_encoding_of_first(a);
        lemma_encoding_of_first(a + b);
        lemma_encoding_of_concat(a.skip(1), b);
        assert((a + b).skip(1) == a.skip(1) + b);
        assert((a + b).take(1) == a.take(1));
    }
}

/// The first byte of an encoding tells an ASCII first character.
proof fn lemma_first_byte(t: Seq<char>)
    ensures
        (vstd::utf8::encode_utf8(t).len() == 0) == (t.len() == 0),
        t.len() > 0 && is_ascii_char(t[0]) ==> vstd::utf8::encode_utf8(t)[0] == t[0] as u8,
        t.len() > 0 && !is_ascii_char(t[0]) ==> vstd::utf8::encode_utf8(t)[0] >= 0x80,
{
    if t.len() > 0 {
        lemma_encoding_of_first(t);
        lemma_scalar_bytes(t[0]);
    }
}

/// An ASCII character occurs in a text exactly if its byte occurs in the encoding.
proof fn lemma_ascii_occurs(t: Seq<char>, c: char)
    requires
        is_ascii_char(c),
    ensures
        t.contains(c) == vstd::utf8::encode_utf8(t).contains(c as u8),
    decreases t.len(),
{
    let bytes = vstd::utf8::encode_utf8(t);
    if t.len() == 0 {
    } else {
        let head = vstd::utf8::encode_scalar(t[0] as u32);
        let tail = vstd::utf8::encode_utf8(t.skip(1));
        lemma_encoding_of_first(t);
        lemma_scalar_bytes(t[0]);
        lemma_ascii_occurs(t.skip(1), c);
        if t.contains(c) {
            let k = choose|k: int| 0 <= k < t.len() && t[k] == c;
            if k == 0 {
                assert(bytes[0] == c as u8);
            } else {
                assert(t.skip(1)[k - 1] == c);
                let j = choose|j: int| 0 <= j < tail.len() && tail[j] == c as u8;
                assert(bytes[head.len() + j] == c as u8);
            }
        }
        if bytes.contains(c as u8) {
            let j = choose|j: int| 0 <= j < bytes.len() && bytes[j] == c as u8;
            if j < head.len() {
                assert(head[j] == c as u8);
                assert(t[0] == c);
            } else {
                assert(tail[j - head.len()] == c as u8);
                let k = choose|k: int| 0 <= k < t.skip(1).len() && t.skip(1)[k] == c;
                assert(t[k + 1] == c);
            }
        }
    }
}

/// A text whose encoding stays within ASCII is an ASCII text.
proof fn lemma_ascii_bytes(t: Seq<char>)
    requires
        forall|i: int|
            0 <= i < vstd::utf8::encode_utf8(t).len() ==> #[trigger] vstd::utf8::encode_utf8(t)[i]
                < 0x80,
    ensures
        vstd::utf8::is_ascii_chars(t),
    decreases t.len(),
{
    if t.len() > 0 {
        let bytes = vstd::utf8::encode_utf8(t);
        let head = vstd::utf8::encode_scalar(t[0] as u32);
        let tail = vstd::utf8::encode_utf8(t.skip(1));
        lemma_encoding_of_first(t);
        lemma_scalar_bytes(t[0]);
        assert(bytes[0] == head[0]);
        assert forall|i: int| 0 <= i < tail.len() implies #[trigger] tail[i] < 0x80 by {
            assert(bytes[head.len() + i] == tail[i]);
        }
        lemma_ascii_bytes(t.skip(1));
        assert forall|i: int| 0 <= i < t.len() implies '\0' <= #[trigger] t[i] <= '\u{7f}' by {
            if i > 0 {
                assert(t.skip(1)[i - 1] == t[i]);
            }
        }
    }
}

/// Lowering a text lowers its encoding byte by byte.
proof fn lemma_lowered_encoding(t: Seq<char>)
    ensures
        vstd::utf8::encode_utf8(lowered(t)) == lowered_bytes(vstd::utf8::encode_utf8(t)),
    decreases t.len(),
{
    if t.len() == 0 {
        assert(lowered(t).len() == 0);
        assert(lowered_bytes(vstd::utf8::encode_utf8(t)).len() == 0);
    } else {
        let low = lowered(t);
        lemma_encoding_of_first(t);
        lemma_encoding_of_first(low);
        lemma_scalar_bytes(t[0]);
        lemma_scalar_bytes(low[0]);
        lemma_lowered_encoding(t.skip(1));
        assert(low.skip(1) == lowered(t.skip(1)));
        let head = vstd::utf8::encode_scalar(t[0] as u32);
        assert(vstd::utf8::encode_scalar(low[0] as u32) == lowered_bytes(head));
        assert(lowered_bytes(vstd::utf8::encode_utf8(t)) == lowered_bytes(head) + lowered_bytes(
            vstd::utf8::encode_utf8(t.skip(1)),
        ));
    }
}

/// True for `0`..`9`.
pub open spec fn is_digit_char(c: char) -> bool {
    '0' <= c <= '9'
}

/// True for a non-empty text of ASCII digits.
pub open spec fn digit_run(text: Seq<char>) -> bool {
    &&& text.len() > 0
    &&& forall|i: int| 0 <= i < text.len() ==> is_digit_char(#[trigger] text[i])
}

/// True if `text` is a non-empty run of ASCII digits, e.g. a `Short` token's text for `-20`
/// (the `-N` count shorthand of git, head and tail). Exposed so that a caller who needs to tell
/// "this `Short` token is a digit-run flag" from "this `Short` token is a single flag letter"
/// uses the predicate that decided clustering.
pub fn is_digit_run(text: &str) -> (yes: bool)
    ensures
        yes == digit_run(text@),
        yes == (text@.len() > 0 && forall|i: int|
            0 <= i < text@.len() ==> '0' <= #[trigger] text@[i] <= '9'),
{
    let bytes = text.as_bytes();
    let n: usize = bytes.len();
    proof {
        lemma_first_byte(text@);
    }
    let mut i: usize = 0;
    while i < n
        invariant
            n == bytes@.len(),
            bytes@ == text.spec_bytes(),
            i <= n,
            forall|j: int| 0 <= j < i ==> 0x30 <= #[trigger] bytes@[j] <= 0x39,
        decreases n - i,
    {
        let b: u8 = bytes[i];
        if b < 0x30 || b > 0x39 {
            proof {
                if digit_run(text@) {
                    vstd::utf8::is_ascii_chars_encode_utf8(text@);
                    assert(is_digit_char(text@[i as int]));
                    assert(text@[i as int] as u8 == bytes@[i as int]);
                }
            }
            return false;
        }
        i += 1;
    }
    proof {
        lemma_ascii_bytes(text@);
        vstd::utf8::is_ascii_chars_encode_utf8(text@);
        assert forall|k: int| 0 <= k < text@.len() implies is_digit_char(#[trigger] text@[k]) by {
            lemma_scalar_bytes(text@[k]);
            assert(text@[k] as u8 == bytes@[k]);
        }
    }
    n > 0
}

/// True if `a` and `b` hold the same characters.
pub fn same_text(a: &str, b: &str) -> (yes: bool)
    ensures
        yes == (a@ == b@),
{
    let x = a.as_bytes();
    let y = b.as_bytes();
    if x.len() != y.len() {
        return false;
    }
    let n: usize = x.len();
    let mut i: usize = 0;
    while i < n
        invariant
            n == x@.len(),
            n == y@.len(),
            x@ == a.spec_bytes(),
            y@ == b.spec_bytes(),
            i <= n,
            forall|j: int| 0 <= j < i ==> x@[j] == y@[j],
        decreases n - i,
    {
        if x[i] != y[i] {
            return false;
        }
        i += 1;
    }
    proof {
        assert(x@ == y@);
        lemma_encoding_injective(a@, b@);
    }
    true
}

/// `b` with the byte of an ASCII capital letter replaced by that of the small letter.
fn to_lower_byte(b: u8) -> (r: u8)
    ensures
        r == lower_byte(b),
{
    if 0x41 <= b && b <= 0x5a {
        b + 32
    } else {
        b
    }
}

/// True if `a` and `b` hold the same characters up to the case of ASCII letters.
pub fn same_text_ignoring_case(a: &str, b: &str) -> (yes: bool)
    ensures
        yes == (lowered(a@) == lowered(b@)),
        yes == (a@.len() == b@.len() && forall|k: int|
            0 <= k < a@.len() ==> {
                ||| #[trigger] a@[k] == b@[k]
                ||| 'A' <= a@[k] <= 'Z' && b@[k] as int == a@[k] as int + 32
                ||| 'A' <= b@[k] <= 'Z' && a@[k] as int == b@[k] as int + 32
            }),
{
    let x = a.as_bytes();
    let y = b.as_bytes();
    proof {
        law_lowered_texts(a@, b@);
        lemma_lowered_encoding(a@);
        lemma_lowered_encoding(b@);
    }
    let ghost low_x = lowered_bytes(x@);
    let ghost low_y = lowered_bytes(y@);
    if x.len() != y.len() {
        assert(low_x.len() != low_y.len());
        return false;
    }
    let n: usize = x.len();
    let mut i: usize = 0;
    while i < n
        invariant
            n == x@.len(),
            n == y@.len(),
            low_x == lowered_bytes(x@),
            low_y == lowered_bytes(y@),
            low_x == vstd::utf8::encode_utf8(lowered(a@)),
            low_y == vstd::utf8::encode_utf8(lowered(b@)),
            i <= n,
            forall|j: int| 0 <= j < i ==> low_x[j] == low_y[j],
        decreases n - i,
    {
        if to_lower_byte(x[i]) != to_lower_byte(y[i]) {
            proof {
                assert(low_x[i as int] != low_y[i as int]);
                law_lowered_texts(a@, b@);
            }
            return false;
        }
        i += 1;
    }
    proof {
        assert(low_x == low_y);
        lemma_encoding_injective(lowered(a@), lowered(b@));
    }
    true
}

/// Cuts `s` at the byte offset `mid`.
fn cut<'a>(s: &'a str, mid: usize) -> (r: (&'a str, &'a str))
    requires
        vstd::utf8::is_char_boundary(s.spec_bytes(), mid as int),
        mid <= s.spec_bytes().len(),
    ensures
        s@ == r.0@ + r.1@,
        r.0.spec_bytes() == s.spec_bytes().take(mid as int),
        r.1.spec_bytes() == s.spec_bytes().skip(mid as int),
{
    let r = s.split_at(mid);
    proof {
        lemma_encoding_of_concat(r.0@, r.1@);
        assert(r.0.spec_bytes() == s.spec_bytes().take(mid as int));
        assert(r.1.spec_bytes() == s.spec_bytes().skip(mid as int));
        assert(r.0.spec_bytes() + r.1.spec_bytes() == s.spec_bytes());
        lemma_encoding_injective(r.0@ + r.1@, s@);
    }
    r
}

/// The first character of `s`, as a text of its own, and what follows it.
pub fn split_first<'a>(s: &'a str) -> (r: (&'a str, &'a str))
    requires
        s@.len() > 0,
    ensures
        r.0@ == s@.take(1),
        r.1@ == s@.skip(1),
{
    let bytes = s.as_bytes();
    proof {
        lemma_first_byte(s@);
        lemma_encoding_of_first(s@);
        vstd::utf8::encode_utf8_first_scalar(s@);
        vstd::utf8::encode_utf8_valid_utf8(s@);
        reveal_with_fuel(vstd::utf8::is_char_boundary, 2);
    }
    let b: u8 = bytes[0];
    let width: usize = if b < 0x80 {
        1
    } else if b < 0xe0 {
        2
    } else if b < 0xf0 {
        3
    } else {
        4
    };
    assert(width == vstd::utf8::length_of_first_scalar(bytes@));
    let r = cut(s, width);
    proof {
        assert(r.0.spec_bytes() == vstd::utf8::encode_utf8(s@.take(1)));
        assert(r.1.spec_bytes() == vstd::utf8::encode_utf8(s@.skip(1)));
        lemma_encoding_injective(r.0@, s@.take(1));
        lemma_encoding_injective(r.1@, s@.skip(1));
    }
    r
}

/// `s` without its first character, if that is the ASCII character `c`.
pub fn strip_char<'a>(s: &'a str, c: char) -> (r: Option<&'a str>)
    requires
        is_ascii_char(c),
    ensures
        r is Some <==> s@.len() > 0 && s@[0] == c,
        r matches Some(rest) ==> rest@ == s@.skip(1),
{
    let bytes = s.as_bytes();
    proof {
        lemma_first_byte(s@);
        if s@.len() > 0 {
            lemma_scalar_bytes(s@[0]);
        }
    }
    if bytes.len() == 0 || bytes[0] != c as u8 {
        None
    } else {
        Some(split_first(s).1)
    }
}

/// Cuts `s` at its first `c` or `d`: what stands before that character, and what follows it.
pub fn split_at_either<'a>(s: &'a str, c: char, d: char) -> (r: Option<(&'a str, &'a str)>)
    requires
        is_ascii_char(c),
        is_ascii_char(d),
    ensures
        r is Some <==> s@.contains(c) || s@.contains(d),
        r matches Some((before, after)) ==> {
            &&& !before@.contains(c)
            &&& !before@.contains(d)
            &&& s@ == before@.push(c) + after@ || s@ == before@.push(d) + after@
        },
{
    let bytes = s.as_bytes();
    let n: usize = bytes.len();
    let mut i: usize = 0;
    while i < n
        invariant
            is_ascii_char(c),
            is_ascii_char(d),
            n == bytes@.len(),
            bytes@ == s.spec_bytes(),
            i <= n,
            forall|j: int| 0 <= j < i ==> bytes@[j] != c as u8 && bytes@[j] != d as u8,
        decreases n - i,
    {
        if bytes[i] == c as u8 || bytes[i] == d as u8 {
            let ghost found: char = if bytes@[i as int] == c as u8 { c } else { d };
            proof {
                vstd::utf8::encode_utf8_valid_utf8(s@);
                vstd::utf8::is_char_boundary_iff_not_is_continuation_byte(bytes@, i as int);
            }
            let (before, rest) = cut(s, i);
            proof {
                lemma_ascii_occurs(before@, c);
                lemma_ascii_occurs(before@, d);
                lemma_first_byte(rest@);
                lemma_scalar_bytes(rest@[0]);
                assert(rest.spec_bytes()[0] == bytes@[i as int]);
                assert(rest@[0] == found);
            }
            let after = split_first(rest).1;
            proof {
                assert(s@ == before@.push(found) + after@);
                assert(s@[before@.len() as int] == found);
            }
            return Some((before, after));
        }
        i += 1;
    }
    proof {
        lemma_ascii_occurs(s@, c);
        lemma_ascii_occurs(s@, d);
    }
    None
}

} // verus!
