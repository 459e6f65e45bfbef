//! Avatar URL derivation: every profile's avatar is a templated
//! image-service URL seeded with the percent-encoded user name.

use vstd::prelude::*;
use vstd::string::StrSliceExecFns;
use vstd::string::StringExecFns;
use vstd::utf8::encode_scalar;
use crate::strutil::chars_to_string;

verus! {

/// Digit `n` as an uppercase hexadecimal character.
pub open spec fn hex_upper(n: int) -> char
    recommends
        0 <= n < 16,
{
    if n == 0 {
        '0'
    } else if n == 1 {
        '1'
    } else if n == 2 {
        '2'
    } else if n == 3 {
        '3'
    } else if n == 4 {
        '4'
    } else if n == 5 {
        '5'
    } else if n == 6 {
        '6'
    } else if n == 7 {
        '7'
    } else if n == 8 {
        '8'
    } else if n == 9 {
        '9'
    } else if n == 10 {
        'A'
    } else if n == 11 {
        'B'
    } else if n == 12 {
        'C'
    } else if n == 13 {
        'D'
    } else if n == 14 {
        'E'
    } else {
        'F'
    }
}

/// An unreserved URI character (letter, digit, `-`, `.`, `_`, `~`):
/// kept verbatim by percent-encoding.
pub open spec fn is_unreserved(c: char) -> bool {
    let u = c as u32;
    (0x41 <= u && u <= 0x5A)  // 'A'..'Z'
    || (0x61 <= u && u <= 0x7A)  // 'a'..'z'
    || (0x30 <= u && u <= 0x39)  // '0'..'9'
    || u == 0x2D  // '-'
    || u == 0x2E  // '.'
    || u == 0x5F  // '_'
    || u == 0x7E  // '~'
}

/// Byte `b` as a percent escape, `%XX` with uppercase hex digits.
pub open spec fn percent_byte(b: u8) -> Seq<char> {
    seq!['%', hex_upper(b as int / 16), hex_upper(b as int % 16)]
}

/// Each byte of `bs` as a percent escape, concatenated.
pub open spec fn percent_bytes(bs: Seq<u8>) -> Seq<char>
    decreases bs.len(),
{
    if bs.len() == 0 {
        Seq::empty()
    } else {
        percent_byte(bs[0]) + percent_bytes(bs.drop_first())
    }
}

/// A character as it appears percent-encoded: unreserved characters
/// stand as themselves, every other character as the percent escapes
/// of its UTF-8 bytes.
pub open spec fn url_encode_char(c: char) -> Seq<char> {
    if is_unreserved(c) {
        seq![c]
    } else {
        percent_bytes(encode_scalar(c as u32))
    }
}

/// The percent-encoding of a character sequence.
pub open spec fn url_encode(s: Seq<char>) -> Seq<char>
    decreases s.len(),
{
    if s.len() == 0 {
        Seq::empty()
    } else {
        url_encode_char(s[0]) + url_encode(s.drop_first())
    }
}

/// The fixed image-service prefix every avatar URL starts with.
pub open spec fn avatar_prefix() -> Seq<char> {
    "https://api.dicebear.com/7.x/adventurer-neutral/svg?seed="@
}

/// The avatar URL derived from a user name.
pub open spec fn avatar_url_spec(name: Seq<char>) -> Seq<char> {
    avatar_prefix() + url_encode(name)
}

/// Digit `n` as an uppercase hexadecimal character.
fn hex_upper_char(n: u8) -> (c: char)
    requires
        n < 16,
    ensures
        c == hex_upper(n as int),
{
    if n == 0 {
        '0'
    } else if n == 1 {
        '1'
    } else if n == 2 {
        '2'
    } else if n == 3 {
        '3'
    } else if n == 4 {
        '4'
    } else if n == 5 {
        '5'
    } else if n == 6 {
        '6'
    } else if n == 7 {
        '7'
    } else if n == 8 {
        '8'
    } else if n == 9 {
        '9'
    } else if n == 10 {
        'A'
    } else if n == 11 {
        'B'
    } else if n == 12 {
        'C'
    } else if n == 13 {
        'D'
    } else if n == 14 {
        'E'
    } else {
        'F'
    }
}

proof fn lemma_percent_bytes1(b1: u8)
    ensures
        percent_bytes(seq![b1]) == percent_byte(b1),
{
    assert(seq![b1].drop_first() =~= Seq::<u8>::empty());
    assert(percent_bytes(Seq::<u8>::empty()) =~= Seq::<char>::empty());
    assert(percent_bytes(seq![b1]) =~= percent_byte(b1));
}

proof fn lemma_percent_bytes2(b1: u8, b2: u8)
    ensures
        percent_bytes(seq![b1, b2]) == percent_byte(b1) + percent_byte(b2),
{
    lemma_percent_bytes1(b2);
    assert(seq![b1, b2].drop_first() =~= seq![b2]);
    assert(percent_bytes(seq![b1, b2]) =~= percent_byte(b1) + percent_byte(b2));
}

proof fn lemma_percent_bytes3(b1: u8, b2: u8, b3: u8)
    ensures
        percent_bytes(seq![b1, b2, b3]) == percent_byte(b1) + percent_byte(b2) + percent_byte(b3),
{
    lemma_percent_bytes2(b2, b3);
    assert(seq![b1, b2, b3].drop_first() =~= seq![b2, b3]);
    assert(percent_bytes(seq![b1, b2, b3]) =~= percent_byte(b1) + percent_byte(b2) + percent_byte(
        b3,
    ));
}

proof fn lemma_percent_bytes4(b1: u8, b2: u8, b3: u8, b4: u8)
    ensures
        percent_bytes(seq![b1, b2, b3, b4]) == percent_byte(b1) + percent_byte(b2) + percent_byte(
            b3,
        ) + percent_byte(b4),
{
    lemma_percent_bytes3(b2, b3, b4);
    assert(seq![b1, b2, b3, b4].drop_first() =~= seq![b2, b3, b4]);
    assert(percent_bytes(seq![b1, b2, b3, b4]) =~= percent_byte(b1) + percent_byte(b2)
        + percent_byte(b3) + percent_byte(b4));
}

/// Appends the percent escape of one byte.
fn push_percent_byte(out: &mut Vec<char>, b: u8)
    ensures
        final(out)@ == old(out)@ + percent_byte(b),
{
    out.push('%');
    out.push(hex_upper_char(b / 16));
    out.push(hex_upper_char(b % 16));
    proof {
        assert(final(out)@ =~= old(out)@ + percent_byte(b));
    }
}

/// Appends the percent-encoded form of one character.
fn push_url_encoded_char(out: &mut Vec<char>, c: char)
    ensures
        final(out)@ == old(out)@ + url_encode_char(c),
{
    let u = c as u32;
    if (0x41 <= u && u <= 0x5A) || (0x61 <= u && u <= 0x7A) || (0x30 <= u && u <= 0x39) || u
        == 0x2D || u == 0x2E || u == 0x5F || u == 0x7E {
        out.push(c);
        proof {
            assert(final(out)@ =~= old(out)@ + url_encode_char(c));
        }
    } else if u < 0x80 {
        let b1: u8 = #[verifier::truncate] ((u & 0x7F) as u8);
        push_percent_byte(out, b1);
        proof {
            assert(encode_scalar(u) =~= seq![b1]);
            lemma_percent_bytes1(b1);
            assert(final(out)@ =~= old(out)@ + url_encode_char(c));
        }
    } else if u < 0x800 {
        let b1: u8 = 0xC0 | (#[verifier::truncate] (((u >> 6) & 0x1F) as u8));
        let b2: u8 = 0x80 | (#[verifier::truncate] ((u & 0x3F) as u8));
        push_percent_byte(out, b1);
        push_percent_byte(out, b2);
        proof {
            assert(encode_scalar(u) =~= seq![b1, b2]);
            lemma_percent_bytes2(b1, b2);
            assert(final(out)@ =~= old(out)@ + url_encode_char(c));
        }
    } else if u < 0x10000 {
        let b1: u8 = 0xE0 | (#[verifier::truncate] (((u >> 12) & 0x0F) as u8));
        let b2: u8 = 0x80 | (#[verifier::truncate] (((u >> 6) & 0x3F) as u8));
        let b3: u8 = 0x80 | (#[verifier::truncate] ((u & 0x3F) as u8));
        push_percent_byte(out, b1);
        push_percent_byte(out, b2);
        push_percent_byte(out, b3);
        proof {
            assert(u < 0xD800 || 0xE000 <= u);
            assert(encode_scalar(u) =~= seq![b1, b2, b3]);
            lemma_percent_bytes3(b1, b2, b3);
            assert(final(out)@ =~= old(out)@ + url_encode_char(c));
        }
    } else {
        let b1: u8 = 0xF0 | (#[verifier::truncate] (((u >> 18) & 0x7) as u8));
        let b2: u8 = 0x80 | (#[verifier::truncate] (((u >> 12) & 0x3F) as u8));
        let b3: u8 = 0x80 | (#[verifier::truncate] (((u >> 6) & 0x3F) as u8));
        let b4: u8 = 0x80 | (#[verifier::truncate] ((u & 0x3F) as u8));
        push_percent_byte(out, b1);
        push_percent_byte(out, b2);
        push_percent_byte(out, b3);
        push_percent_byte(out, b4);
        proof {
            assert(encode_scalar(u) =~= seq![b1, b2, b3, b4]);
            lemma_percent_bytes4(b1, b2, b3, b4);
            assert(final(out)@ =~= old(out)@ + url_encode_char(c));
        }
    }
}

/// Appends the percent-encoding of the characters of `name` from
/// position `i` on.
fn push_url_encoded(name: &Vec<char>, i: usize, out: &mut Vec<char>)
    requires
        i <= name@.len(),
    ensures
        final(out)@ == old(out)@ + url_encode(name@.skip(i as int)),
    decreases name@.len() - i,
{
    if i < name.len() {
        push_url_encoded_char(out, name[i]);
        push_url_encoded(name, i + 1, out);
        proof {
            assert(name@.skip(i as int).drop_first() =~= name@.skip(i + 1 as int));
            assert(final(out)@ =~= old(out)@ + url_encode(name@.skip(i as int)));
        }
    } else {
        proof {
            assert(name@.skip(i as int) =~= Seq::<char>::empty());
        }
    }
}

/// The avatar URL for a user name: the fixed image-service prefix with
/// the percent-encoded name as the seed.
pub fn avatar_url(name: &str) -> (r: String)
    ensures
        r@ == avatar_url_spec(name@),
{
    let chars = crate::strutil::str_chars(name);
    let mut encoded: Vec<char> = Vec::new();
    push_url_encoded(&chars, 0, &mut encoded);
    proof {
        assert(chars@.skip(0) =~= chars@);
    }
    let mut url = String::from_str("https://api.dicebear.com/7.x/adventurer-neutral/svg?seed=");
    let tail = chars_to_string(&encoded);
    url.append(tail.as_str());
    url
}

} // verus!
