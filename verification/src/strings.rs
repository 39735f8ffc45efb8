//! Lossy UTF-8 reading for tag names and string values.
//!
//! The wire format carries strings as raw bytes. Reading never fails:
//! every well-formed scalar encoding yields its character, and each
//! maximal subpart of an ill-formed sequence is replaced by one U+FFFD —
//! the substitution `String::from_utf8_lossy` performs. [`lossy_chars_of`]
//! is the specification of that reading, and on valid UTF-8 it agrees with
//! [`vstd::utf8::decode_utf8`], so strings round-trip through their
//! encoding unchanged.

use vstd::prelude::*;
use vstd::utf8::*;

verus! {

broadcast use vstd::seq::group_seq_axioms;

/// The replacement character that stands in for each maximal subpart of an
/// ill-formed sequence.
pub open spec fn replacement_char() -> char {
    '\u{FFFD}'
}

/// True when the second byte can follow the lead byte in a well-formed
/// scalar encoding. The ranges fold the overlong, surrogate and
/// out-of-range checks into the second byte, so a lead and second byte
/// that pass are a prefix of some well-formed encoding.
pub open spec fn valid_second_byte(lead: u8, b2: u8) -> bool {
    if 0xc2 <= lead <= 0xdf {
        0x80 <= b2 <= 0xbf
    } else if lead == 0xe0 {
        0xa0 <= b2 <= 0xbf
    } else if 0xe1 <= lead <= 0xec {
        0x80 <= b2 <= 0xbf
    } else if lead == 0xed {
        0x80 <= b2 <= 0x9f
    } else if 0xee <= lead <= 0xef {
        0x80 <= b2 <= 0xbf
    } else if lead == 0xf0 {
        0x90 <= b2 <= 0xbf
    } else if 0xf1 <= lead <= 0xf3 {
        0x80 <= b2 <= 0xbf
    } else if lead == 0xf4 {
        0x80 <= b2 <= 0x8f
    } else {
        false
    }
}

/// The length of the maximal subpart at the front of a sequence that does
/// not begin with a well-formed scalar encoding: the longest prefix that
/// could still be extended to one — the lead byte alone, or with the bytes
/// after it that keep that possible. One replacement character stands in
/// for exactly these bytes, as in `String::from_utf8_lossy`.
pub open spec fn invalid_prefix_len(b: Seq<u8>) -> int
    recommends
        b.len() > 0,
        !valid_first_scalar(b),
{
    if b.len() >= 2 && valid_second_byte(b[0], b[1]) {
        if 0xf0 <= b[0] && b.len() >= 3 && is_continuation_byte(b[2]) {
            3
        } else {
            2
        }
    } else {
        1
    }
}

/// The characters read from the given bytes: each well-formed scalar
/// encoding yields its character, and each maximal subpart of an
/// ill-formed sequence yields one U+FFFD.
pub open spec fn lossy_chars_of(b: Seq<u8>) -> Seq<char>
    decreases b.len(),
{
    if b.len() == 0 {
        seq![]
    } else if valid_first_scalar(b) && 1 <= length_of_first_scalar(b) <= b.len() {
        seq![decode_first_scalar(b) as char] + lossy_chars_of(pop_first_scalar(b))
    } else {
        seq![replacement_char()] + lossy_chars_of(b.skip(invalid_prefix_len(b)))
    }
}

/// On a well-formed scalar encoding, the encoding is between one and four
/// bytes long and fits in the sequence it starts.
proof fn lemma_first_scalar_length(b: Seq<u8>)
    requires
        valid_first_scalar(b),
    ensures
        1 <= length_of_first_scalar(b) <= b.len(),
{
}

/// On valid UTF-8 the lossy reading is exact: it yields the decoded
/// characters, with nothing replaced.
pub proof fn lemma_lossy_chars_of_valid(b: Seq<u8>)
    requires
        valid_utf8(b),
    ensures
        lossy_chars_of(b) == decode_utf8(b),
    decreases b.len(),
{
    if b.len() != 0 {
        lemma_first_scalar_length(b);
        lemma_lossy_chars_of_valid(pop_first_scalar(b));
    }
}

/// Relies on char::from_u32: a Unicode scalar value (not a surrogate, at
/// most 0x10FFFF) converts to exactly the character with that value, and
/// any other value converts to nothing.
pub assume_specification [ char::from_u32 ](v: u32) -> (r: Option<char>)
    ensures
        is_scalar(v) ==> r == Some(v as char),
        !is_scalar(v) ==> r is None,
;

/// Relies on String::push: it appends the character to the string.
pub assume_specification [ std::string::String::push ](s: &mut String, c: char)
    ensures
        final(s)@ == old(s)@.push(c),
;

/// Read the first scalar encoding that starts at position `i`, returning
/// its character and width, or nothing when position `i` does not begin a
/// well-formed scalar encoding.
fn first_scalar_at(d: &[u8], i: usize) -> (r: Option<(char, usize)>)
    requires
        i < d@.len(),
    ensures
        match r {
            Some(cw) => {
                &&& valid_first_scalar(d@.skip(i as int))
                &&& cw.0 == decode_first_scalar(d@.skip(i as int)) as char
                &&& cw.1 == length_of_first_scalar(d@.skip(i as int))
                &&& 1 <= cw.1 <= d@.len() - i
            },
            None => !valid_first_scalar(d@.skip(i as int)),
        },
{
    let ghost sfx = d@.skip(i as int);
    proof {
        assert(sfx.len() == d@.len() - i);
        assert(forall|k: int| 0 <= k < sfx.len() ==> sfx[k] == d@[i + k]);
    }
    let n = d.len();
    let b0 = d[i];
    let (cp, width): (u32, usize) = if b0 < 0x80 {
        let cp = (b0 & 0x7f) as u32;
        proof {
            assert(b0 < 0x80 ==> ((b0 & 0x7f) as u32) == b0 as u32 && b0 & 0x7f <= 0x7f) by (
            bit_vector);
        }
        (cp, 1)
    } else if 0xc0 <= b0 && b0 <= 0xdf {
        if n - i < 2 || !(0x80 <= d[i + 1] && d[i + 1] <= 0xbf) {
            return None;
        }
        let b1 = d[i + 1];
        let cp = (((b0 & 0x1f) as u32) << 6) | ((b1 & 0x3f) as u32);
        proof {
            assert((((b0 & 0x1f) as u32) << 6) | ((b1 & 0x3f) as u32) <= 0x7ff) by (bit_vector);
        }
        if cp < 0x80 {
            return None;
        }
        (cp, 2)
    } else if 0xe0 <= b0 && b0 <= 0xef {
        if n - i < 3 || !(0x80 <= d[i + 1] && d[i + 1] <= 0xbf) || !(0x80 <= d[i + 2] && d[i + 2]
            <= 0xbf) {
            return None;
        }
        let b1 = d[i + 1];
        let b2 = d[i + 2];
        let cp = (((b0 & 0x0f) as u32) << 12) | (((b1 & 0x3f) as u32) << 6) | ((b2 & 0x3f) as u32);
        proof {
            assert((((b0 & 0x0f) as u32) << 12) | (((b1 & 0x3f) as u32) << 6) | ((b2
                & 0x3f) as u32) <= 0xffff) by (bit_vector);
        }
        if cp < 0x800 || (0xd800 <= cp && cp <= 0xdfff) {
            return None;
        }
        (cp, 3)
    } else if 0xf0 <= b0 && b0 <= 0xf7 {
        if n - i < 4 || !(0x80 <= d[i + 1] && d[i + 1] <= 0xbf) || !(0x80 <= d[i + 2] && d[i + 2]
            <= 0xbf) || !(0x80 <= d[i + 3] && d[i + 3] <= 0xbf) {
            return None;
        }
        let b1 = d[i + 1];
        let b2 = d[i + 2];
        let b3 = d[i + 3];
        let cp = (((b0 & 0x07) as u32) << 18) | (((b1 & 0x3f) as u32) << 12) | (((b2
            & 0x3f) as u32) << 6) | ((b3 & 0x3f) as u32);
        if cp < 0x10000 || cp > 0x10ffff {
            return None;
        }
        (cp, 4)
    } else {
        return None;
    };
    proof {
        assert(sfx[0] == b0);
        if width >= 2 {
            assert(sfx[1] == d@[i + 1]);
        }
        if width >= 3 {
            assert(sfx[2] == d@[i + 2]);
        }
        if width >= 4 {
            assert(sfx[3] == d@[i + 3]);
        }
        assert(valid_first_scalar(sfx));
        assert(cp == decode_first_scalar(sfx));
        assert(is_scalar(cp));
    }
    match char::from_u32(cp) {
        Some(c) => Some((c, width)),
        None => vstd::pervasive::unreached(),
    }
}

/// True when the second byte can follow the lead byte in a well-formed
/// scalar encoding.
fn second_byte_ok(lead: u8, b2: u8) -> (r: bool)
    ensures
        r == valid_second_byte(lead, b2),
{
    if 0xc2 <= lead && lead <= 0xdf {
        0x80 <= b2 && b2 <= 0xbf
    } else if lead == 0xe0 {
        0xa0 <= b2 && b2 <= 0xbf
    } else if 0xe1 <= lead && lead <= 0xec {
        0x80 <= b2 && b2 <= 0xbf
    } else if lead == 0xed {
        0x80 <= b2 && b2 <= 0x9f
    } else if 0xee <= lead && lead <= 0xef {
        0x80 <= b2 && b2 <= 0xbf
    } else if lead == 0xf0 {
        0x90 <= b2 && b2 <= 0xbf
    } else if 0xf1 <= lead && lead <= 0xf3 {
        0x80 <= b2 && b2 <= 0xbf
    } else if lead == 0xf4 {
        0x80 <= b2 && b2 <= 0x8f
    } else {
        false
    }
}

/// Read a whole byte sequence as text, replacing each maximal subpart of
/// an ill-formed sequence by one U+FFFD, as `String::from_utf8_lossy`
/// does.
pub fn utf8_lossy(d: &[u8]) -> (r: String)
    ensures
        r@ == lossy_chars_of(d@),
{
    let mut out = String::new();
    let mut i: usize = 0;
    proof {
        assert(d@.skip(0) =~= d@);
    }
    while i < d.len()
        invariant
            i <= d@.len(),
            out@ + lossy_chars_of(d@.skip(i as int)) == lossy_chars_of(d@),
        decreases d@.len() - i,
    {
        let ghost sfx = d@.skip(i as int);
        match first_scalar_at(d, i) {
            Some((c, w)) => {
                out.push(c);
                proof {
                    assert(pop_first_scalar(sfx) =~= d@.skip(i + w as int));
                    assert(lossy_chars_of(sfx) == seq![c] + lossy_chars_of(d@.skip(i + w as int)));
                }
                i = i + w;
            },
            None => {
                out.push('\u{FFFD}');
                let mut adv: usize = 1;
                if d.len() - i >= 2 && second_byte_ok(d[i], d[i + 1]) {
                    if d[i] >= 0xf0 && d.len() - i >= 3 && 0x80 <= d[i + 2] && d[i + 2] <= 0xbf {
                        adv = 3;
                    } else {
                        adv = 2;
                    }
                }
                proof {
                    assert(forall|k: int| 0 <= k < sfx.len() ==> sfx[k] == d@[i + k]);
                    assert(adv == invalid_prefix_len(sfx));
                    assert(sfx.skip(adv as int) =~= d@.skip(i + adv as int));
                    assert(lossy_chars_of(sfx) == seq![replacement_char()] + lossy_chars_of(
                        d@.skip(i + adv as int),
                    ));
                }
                i = i + adv;
            },
        }
        proof {
            assert(out@ + lossy_chars_of(d@.skip(i as int)) =~= lossy_chars_of(d@));
        }
    }
    proof {
        assert(d@.skip(i as int) =~= Seq::<u8>::empty());
        assert(out@ =~= lossy_chars_of(d@));
    }
    out
}

/// Whether two strings hold the same characters, read off their UTF-8
/// bytes: equal bytes mean equal characters, since a character sequence is
/// recovered from its encoding.
pub fn str_eq(a: &str, b: &str) -> (r: bool)
    ensures
        r == (a@ == b@),
{
    let ab = a.as_bytes();
    let bb = b.as_bytes();
    proof {
        encode_utf8_decode_utf8(a@);
        encode_utf8_decode_utf8(b@);
    }
    if ab.len() != bb.len() {
        return false;
    }
    let mut i: usize = 0;
    while i < ab.len()
        invariant
            i <= ab@.len(),
            ab@.len() == bb@.len(),
            ab@ == encode_utf8(a@),
            bb@ == encode_utf8(b@),
            forall|j: int| 0 <= j < i ==> ab@[j] == bb@[j],
        decreases ab@.len() - i,
    {
        if ab[i] != bb[i] {
            return false;
        }
        i = i + 1;
    }
    proof {
        assert(ab@ =~= bb@);
        assert(decode_utf8(ab@) == decode_utf8(bb@));
    }
    true
}

} // verus!
