//! The NBT wire grammar, stated as specification functions.
//!
//! [`spec_encode_named`] is the byte sequence a named tag flattens to, and
//! [`spec_read_named`] is the partial inverse that parsing computes: what a
//! well-formed prefix of a byte stream denotes and how many bytes it spans.
//! [`lemma_read_back_named`] ties them together: parsing an encoding, with
//! anything at all after it, yields exactly the tree that was encoded.
//!
//! Two fields of the grammar are read unsigned here: the 16-bit name and
//! string length (as in the format at large), while the 32-bit counts of
//! arrays and lists are signed and a negative count malforms the stream.
//!
//! The twelve tag types are the whole format: the wire codes 0 through 11
//! are all assigned, and in particular there is no 64-bit-integer array
//! tag — no code could ever denote one, so a stream claiming such an
//! extension reads as Malformed at its unrecognized code.

use vstd::prelude::*;
use vstd::utf8::encode_utf8;
use vstd::utf8::valid_utf8;

use crate::codec::spec_i16_from_be_bytes;
use crate::codec::spec_i32_from_be_bytes;
use crate::codec::spec_i32_to_be_bytes;
use crate::codec::spec_i64_from_be_bytes;
use crate::codec::spec_i64_to_be_bytes;
use crate::codec::spec_i8_from_be_bytes;
use crate::codec::spec_i8_to_be_bytes;
use crate::codec::spec_i16_to_be_bytes;
use crate::codec::spec_u16_from_be_bytes;
use crate::codec::spec_u16_to_be_bytes;
use crate::codec::spec_u32_from_be_bytes;
use crate::codec::spec_u32_to_be_bytes;
use crate::codec::spec_u64_from_be_bytes;
use crate::codec::spec_u64_to_be_bytes;
use crate::strings::lossy_chars_of;
use crate::types::spec_insert;
use crate::types::unique_keys;
use crate::types::TagModel;
use crate::types::TagType;

verus! {

broadcast use vstd::seq::group_seq_axioms;

/// The largest byte length of an encoded name or string: the 16-bit wire
/// length field is unsigned.
pub open spec fn max_string_len() -> int {
    0xFFFF
}

/// The largest element count of an encoded array or list: the 32-bit wire
/// count field is signed and a negative count is malformed.
pub open spec fn max_count() -> int {
    0x7FFFFFFF
}

// ---------------------------------------------------------------------------
// Encoding: a tag tree flattened to bytes.
// ---------------------------------------------------------------------------
/// The wire form of a string: a 16-bit big-endian byte length, then the
/// UTF-8 bytes.
pub open spec fn spec_encode_string(s: Seq<char>) -> Seq<u8> {
    spec_u16_to_be_bytes(encode_utf8(s).len() as u16) + encode_utf8(s)
}

/// The wire form of a 32-bit integer sequence, element after element.
pub open spec fn spec_encode_ints(s: Seq<i32>) -> Seq<u8>
    decreases s,
{
    if s.len() == 0 {
        Seq::empty()
    } else {
        spec_i32_to_be_bytes(s[0]) + spec_encode_ints(s.drop_first())
    }
}

/// The wire form of a value of known type; the leading type code is not
/// part of it. An End value has no wire form and encodes to nothing.
pub open spec fn spec_encode_value(v: TagModel) -> Seq<u8>
    decreases v, 0int,
{
    match v {
        TagModel::End => Seq::empty(),
        TagModel::Byte(x) => spec_i8_to_be_bytes(x),
        TagModel::Short(x) => spec_i16_to_be_bytes(x),
        TagModel::Int(x) => spec_i32_to_be_bytes(x),
        TagModel::Long(x) => spec_i64_to_be_bytes(x),
        TagModel::Float(x) => spec_u32_to_be_bytes(x),
        TagModel::Double(x) => spec_u64_to_be_bytes(x),
        TagModel::String(s) => spec_encode_string(s),
        TagModel::ByteArray(b) => spec_u32_to_be_bytes(b.len() as u32) + b,
        TagModel::IntArray(a) => spec_u32_to_be_bytes(a.len() as u32) + spec_encode_ints(a),
        TagModel::List(et, elems) => seq![et.spec_to_binary()] + spec_u32_to_be_bytes(
            elems.len() as u32,
        ) + spec_encode_elements(elems),
        TagModel::Compound(es) => spec_encode_entries(es) + seq![0u8],
    }
}

/// The wire form of the elements of a list, value after value.
pub open spec fn spec_encode_elements(s: Seq<TagModel>) -> Seq<u8>
    decreases s, 1int,
{
    if s.len() == 0 {
        Seq::empty()
    } else {
        spec_encode_value(s[0]) + spec_encode_elements(s.drop_first())
    }
}

/// The wire form of the entries of a compound, named tag after named tag;
/// the closing End marker is not part of it.
pub open spec fn spec_encode_entries(s: Seq<(Seq<char>, TagModel)>) -> Seq<u8>
    decreases s, 1int,
{
    if s.len() == 0 {
        Seq::empty()
    } else {
        spec_encode_named(s[0].0, s[0].1) + spec_encode_entries(s.drop_first())
    }
}

/// The wire form of a named tag: the type code, the name, the value.
pub open spec fn spec_encode_named(name: Seq<char>, v: TagModel) -> Seq<u8>
    decreases v, 1int,
{
    seq![v.type_of().spec_to_binary()] + spec_encode_string(name) + spec_encode_value(v)
}

// ---------------------------------------------------------------------------
// Well-formedness of a tree.
// ---------------------------------------------------------------------------
/// True when no End marker stands in value position anywhere in the tree.
/// This is exactly the condition under which the encoder succeeds.
pub open spec fn no_end_values(v: TagModel) -> bool
    decreases v, 0int,
{
    match v {
        TagModel::End => false,
        TagModel::List(_, elems) => elements_no_end(elems),
        TagModel::Compound(es) => entries_no_end(es),
        _ => true,
    }
}

/// True when no element of the sequence holds an End marker in value position.
pub open spec fn elements_no_end(s: Seq<TagModel>) -> bool
    decreases s, 1int,
{
    s.len() == 0 || (no_end_values(s[0]) && elements_no_end(s.drop_first()))
}

/// True when no entry of the sequence holds an End marker in value position.
pub open spec fn entries_no_end(s: Seq<(Seq<char>, TagModel)>) -> bool
    decreases s, 1int,
{
    s.len() == 0 || (no_end_values(s[0].1) && entries_no_end(s.drop_first()))
}

/// True when every string, array, list and compound in the tree fits its
/// wire length field.
pub open spec fn sizes_fit(v: TagModel) -> bool
    decreases v, 0int,
{
    match v {
        TagModel::End => true,
        TagModel::Byte(_) => true,
        TagModel::Short(_) => true,
        TagModel::Int(_) => true,
        TagModel::Long(_) => true,
        TagModel::Float(_) => true,
        TagModel::Double(_) => true,
        TagModel::String(s) => encode_utf8(s).len() <= max_string_len(),
        TagModel::ByteArray(b) => b.len() <= max_count(),
        TagModel::IntArray(a) => a.len() <= max_count(),
        TagModel::List(_, elems) => elems.len() <= max_count() && elements_sizes_fit(elems),
        TagModel::Compound(es) => entries_sizes_fit(es),
    }
}

/// True when every element of the sequence fits its wire length fields.
pub open spec fn elements_sizes_fit(s: Seq<TagModel>) -> bool
    decreases s, 1int,
{
    s.len() == 0 || (sizes_fit(s[0]) && elements_sizes_fit(s.drop_first()))
}

/// True when every entry of the sequence fits its wire length fields,
/// names included.
pub open spec fn entries_sizes_fit(s: Seq<(Seq<char>, TagModel)>) -> bool
    decreases s, 1int,
{
    s.len() == 0 || (encode_utf8(s[0].0).len() <= max_string_len() && sizes_fit(s[0].1)
        && entries_sizes_fit(s.drop_first()))
}

/// True when the tree keeps the containers' structural invariants: every
/// list is homogeneous (each element's type equals the declared element
/// type) and every compound's keys are unique. The decoder only ever builds
/// such trees; the encoder does not check this.
pub open spec fn well_shaped(v: TagModel) -> bool
    decreases v, 0int,
{
    match v {
        TagModel::List(et, elems) => elements_well_shaped(elems) && forall|i: int|
            0 <= i < elems.len() ==> (#[trigger] elems[i]).type_of() == et,
        TagModel::Compound(es) => unique_keys(es) && entries_well_shaped(es),
        _ => true,
    }
}

/// True when every element of the sequence is well shaped.
pub open spec fn elements_well_shaped(s: Seq<TagModel>) -> bool
    decreases s, 1int,
{
    s.len() == 0 || (well_shaped(s[0]) && elements_well_shaped(s.drop_first()))
}

/// True when every entry of the sequence holds a well shaped value.
pub open spec fn entries_well_shaped(s: Seq<(Seq<char>, TagModel)>) -> bool
    decreases s, 1int,
{
    s.len() == 0 || (well_shaped(s[0].1) && entries_well_shaped(s.drop_first()))
}

/// A valid tag tree: serializable, within the wire's length fields, and
/// with the containers' structural invariants intact. These trees are
/// exactly the ones the codec round-trips.
pub open spec fn wf_value(v: TagModel) -> bool {
    no_end_values(v) && sizes_fit(v) && well_shaped(v)
}

// ---------------------------------------------------------------------------
// Decoding: what a prefix of a byte stream denotes.
// ---------------------------------------------------------------------------
/// Parse a string: a 16-bit big-endian byte length, then that many bytes
/// read as UTF-8, lossily. Yields the characters and the bytes consumed.
pub open spec fn spec_read_string(d: Seq<u8>) -> Option<(Seq<char>, int)> {
    if d.len() < 2 {
        None
    } else {
        let n = spec_u16_from_be_bytes(d.subrange(0, 2)) as int;
        if d.len() < 2 + n {
            None
        } else {
            Some((lossy_chars_of(d.subrange(2, 2 + n)), 2 + n))
        }
    }
}

/// Parse a value of known type from the front of `d`, yielding the value
/// and the bytes consumed. `None` is a malformed stream: a short read, an
/// unrecognized type code, a negative count, or End requested as a value.
pub open spec fn spec_read_value(d: Seq<u8>, t: TagType) -> Option<(TagModel, int)>
    decreases d.len(), 2int, 0int,
{
    match t {
        TagType::End => None,
        TagType::Byte => if d.len() >= 1 {
            Some((TagModel::Byte(spec_i8_from_be_bytes(d.subrange(0, 1))), 1))
        } else {
            None
        },
        TagType::Short => if d.len() >= 2 {
            Some((TagModel::Short(spec_i16_from_be_bytes(d.subrange(0, 2))), 2))
        } else {
            None
        },
        TagType::Int => if d.len() >= 4 {
            Some((TagModel::Int(spec_i32_from_be_bytes(d.subrange(0, 4))), 4))
        } else {
            None
        },
        TagType::Long => if d.len() >= 8 {
            Some((TagModel::Long(spec_i64_from_be_bytes(d.subrange(0, 8))), 8))
        } else {
            None
        },
        TagType::Float => if d.len() >= 4 {
            Some((TagModel::Float(spec_u32_from_be_bytes(d.subrange(0, 4))), 4))
        } else {
            None
        },
        TagType::Double => if d.len() >= 8 {
            Some((TagModel::Double(spec_u64_from_be_bytes(d.subrange(0, 8))), 8))
        } else {
            None
        },
        TagType::String => match spec_read_string(d) {
            Some((s, c)) => Some((TagModel::String(s), c)),
            None => None,
        },
        TagType::ByteArray => if d.len() < 4 {
            None
        } else {
            let n = spec_u32_from_be_bytes(d.subrange(0, 4)) as int;
            if n > max_count() || d.len() < 4 + n {
                None
            } else {
                Some((TagModel::ByteArray(d.subrange(4, 4 + n)), 4 + n))
            }
        },
        TagType::IntArray => if d.len() < 4 {
            None
        } else {
            let n = spec_u32_from_be_bytes(d.subrange(0, 4)) as int;
            if n > max_count() || d.len() < 4 + 4 * n {
                None
            } else {
                Some(
                    (
                        TagModel::IntArray(
                            Seq::new(
                                n as nat,
                                |i: int| spec_i32_from_be_bytes(d.subrange(4 + 4 * i, 8 + 4 * i)),
                            ),
                        ),
                        4 + 4 * n,
                    ),
                )
            }
        },
        TagType::List => if d.len() < 5 {
            None
        } else {
            match TagType::spec_from_binary(d[0]) {
                None => None,
                Some(et) => {
                    let n = spec_u32_from_be_bytes(d.subrange(1, 5)) as int;
                    if n > max_count() {
                        None
                    } else {
                        match spec_read_elements(d.skip(5), et, n) {
                            None => None,
                            Some((elems, c)) => Some((TagModel::List(et, elems), 5 + c)),
                        }
                    }
                },
            }
        },
        TagType::Compound => match spec_read_fields(d, Seq::empty()) {
            None => None,
            Some((es, c)) => Some((TagModel::Compound(es), c)),
        },
    }
}

/// Parse `n` list elements of type `et` from the front of `d`, yielding
/// the elements and the bytes consumed.
pub open spec fn spec_read_elements(d: Seq<u8>, et: TagType, n: int) -> Option<
    (Seq<TagModel>, int),
>
    decreases d.len(), 3int, n,
{
    if n <= 0 {
        Some((Seq::empty(), 0))
    } else {
        match spec_read_value(d, et) {
            None => None,
            Some((v, c)) => if 0 <= c <= d.len() {
                match spec_read_elements(d.skip(c), et, n - 1) {
                    None => None,
                    Some((rest, rc)) => Some((seq![v] + rest, c + rc)),
                }
            } else {
                None
            },
        }
    }
}

/// Parse compound entries from the front of `d` into the accumulated
/// entries `acc` until an End marker terminates the compound, yielding the
/// entries and the bytes consumed, terminator included.
pub open spec fn spec_read_fields(d: Seq<u8>, acc: Seq<(Seq<char>, TagModel)>) -> Option<
    (Seq<(Seq<char>, TagModel)>, int),
>
    decreases d.len(), 1int, 0int,
{
    if d.len() < 1 {
        None
    } else if d[0] == 0 {
        Some((acc, 1))
    } else {
        match TagType::spec_from_binary(d[0]) {
            None => None,
            Some(t) => match spec_read_string(d.skip(1)) {
                None => None,
                Some((name, nc)) => if 0 <= nc && 1 + nc <= d.len() {
                    match spec_read_value(d.skip(1 + nc), t) {
                        None => None,
                        Some((v, vc)) => if 0 <= vc && 1 + nc + vc <= d.len() {
                            match spec_read_fields(
                                d.skip(1 + nc + vc),
                                spec_insert(acc, name, v),
                            ) {
                                None => None,
                                Some((es, rc)) => Some((es, 1 + nc + vc + rc)),
                            }
                        } else {
                            None
                        },
                    }
                } else {
                    None
                },
            },
        }
    }
}

/// Parse a named tag from the front of `d`: a type code, then — except for
/// the bare End terminator, which yields an End tag with an empty name —
/// a name and a value of that type.
pub open spec fn spec_read_named(d: Seq<u8>) -> Option<((Seq<char>, TagModel), int)> {
    if d.len() < 1 {
        None
    } else {
        match TagType::spec_from_binary(d[0]) {
            None => None,
            Some(t) => if t == TagType::End {
                Some(((Seq::empty(), TagModel::End), 1))
            } else {
                match spec_read_string(d.skip(1)) {
                    None => None,
                    Some((name, nc)) => if 0 <= nc && 1 + nc <= d.len() {
                        match spec_read_value(d.skip(1 + nc), t) {
                            None => None,
                            Some((v, vc)) => Some(((name, v), 1 + nc + vc)),
                        }
                    } else {
                        None
                    },
                }
            },
        }
    }
}

// ---------------------------------------------------------------------------
// Round trip: parsing an encoding yields the encoded tree.
// ---------------------------------------------------------------------------
/// An encoded 32-bit integer sequence spans four bytes per element, and the
/// bytes of element `i` stand at offset `4 * i`.
proof fn lemma_encode_ints_bytes(a: Seq<i32>)
    ensures
        spec_encode_ints(a).len() == 4 * a.len(),
        forall|i: int|
            0 <= i < a.len() ==> spec_encode_ints(a).subrange(4 * i, 4 * i + 4)
                =~= spec_i32_to_be_bytes(#[trigger] a[i]),
    decreases a.len(),
{
    if a.len() > 0 {
        lemma_encode_ints_bytes(a.drop_first());
        let enc = spec_encode_ints(a);
        let head = spec_i32_to_be_bytes(a[0]);
        assert forall|i: int|
            0 <= i < a.len() implies enc.subrange(4 * i, 4 * i + 4) =~= spec_i32_to_be_bytes(
            a[i],
        ) by {
            if i == 0 {
                assert(enc.subrange(0, 4) =~= head);
            } else {
                assert(a.drop_first()[i - 1] == a[i]);
                assert(spec_encode_ints(a.drop_first()).subrange(4 * (i - 1), 4 * (i - 1) + 4)
                    =~= spec_i32_to_be_bytes(a.drop_first()[i - 1]));
                assert(enc.subrange(4 * i, 4 * i + 4) =~= spec_encode_ints(
                    a.drop_first(),
                ).subrange(4 * (i - 1), 4 * (i - 1) + 4));
            }
        }
    }
}

/// Reading a string back from its encoding, whatever follows it, yields
/// the encoded characters and consumes exactly the encoding.
proof fn lemma_read_back_string(s: Seq<char>, rest: Seq<u8>)
    requires
        encode_utf8(s).len() <= max_string_len(),
    ensures
        spec_read_string(spec_encode_string(s) + rest) == Some(
            (s, spec_encode_string(s).len() as int),
        ),
{
    let eb = encode_utf8(s);
    let lenb = spec_u16_to_be_bytes(eb.len() as u16);
    let d = spec_encode_string(s) + rest;
    assert(lenb.len() == 2);
    assert(d.subrange(0, 2) =~= lenb);
    crate::codec::lemma_u16_be_bytes_inverse(eb.len() as u16);
    let n = spec_u16_from_be_bytes(d.subrange(0, 2)) as int;
    assert(n == eb.len());
    assert(d.subrange(2, 2 + n) =~= eb);
    vstd::utf8::encode_utf8_valid_utf8(s);
    crate::strings::lemma_lossy_chars_of_valid(eb);
    vstd::utf8::encode_utf8_decode_utf8(s);
    assert(lossy_chars_of(eb) == s);
}

/// Round trip of a value: parsing the encoding of a valid value, whatever
/// follows it, yields exactly that value and consumes exactly the encoding.
/// With the encoder's and decoder's own contracts this is the law that
/// decoding an encoded tree returns the tree unchanged — element types of
/// empty lists and float bit patterns included.
pub proof fn lemma_read_back_value(v: TagModel, rest: Seq<u8>)
    requires
        wf_value(v),
    ensures
        spec_read_value(spec_encode_value(v) + rest, v.type_of()) == Some(
            (v, spec_encode_value(v).len() as int),
        ),
    decreases v, 0int,
{
    let enc = spec_encode_value(v);
    let d = enc + rest;
    match v {
        TagModel::End => {
            assert(false);
        },
        TagModel::Byte(x) => {
            assert(d.subrange(0, 1) =~= spec_i8_to_be_bytes(x));
            crate::codec::lemma_i8_be_bytes_inverse(x);
        },
        TagModel::Short(x) => {
            assert(d.subrange(0, 2) =~= spec_i16_to_be_bytes(x));
            crate::codec::lemma_i16_be_bytes_inverse(x);
        },
        TagModel::Int(x) => {
            assert(d.subrange(0, 4) =~= spec_i32_to_be_bytes(x));
            crate::codec::lemma_i32_be_bytes_inverse(x);
        },
        TagModel::Long(x) => {
            assert(d.subrange(0, 8) =~= spec_i64_to_be_bytes(x));
            crate::codec::lemma_i64_be_bytes_inverse(x);
        },
        TagModel::Float(x) => {
            assert(d.subrange(0, 4) =~= spec_u32_to_be_bytes(x));
            crate::codec::lemma_u32_be_bytes_inverse(x);
        },
        TagModel::Double(x) => {
            assert(d.subrange(0, 8) =~= spec_u64_to_be_bytes(x));
            crate::codec::lemma_u64_be_bytes_inverse(x);
        },
        TagModel::String(s) => {
            assert(spec_encode_string(s) + rest =~= d);
            lemma_read_back_string(s, rest);
        },
        TagModel::ByteArray(b) => {
            assert(d.subrange(0, 4) =~= spec_u32_to_be_bytes(b.len() as u32));
            crate::codec::lemma_u32_be_bytes_inverse(b.len() as u32);
            let n = spec_u32_from_be_bytes(d.subrange(0, 4)) as int;
            assert(n == b.len());
            assert(d.subrange(4, 4 + n) =~= b);
        },
        TagModel::IntArray(a) => {
            assert(d.subrange(0, 4) =~= spec_u32_to_be_bytes(a.len() as u32));
            crate::codec::lemma_u32_be_bytes_inverse(a.len() as u32);
            let n = spec_u32_from_be_bytes(d.subrange(0, 4)) as int;
            assert(n == a.len());
            lemma_encode_ints_bytes(a);
            assert(enc.len() == 4 + 4 * n);
            let parsed = Seq::new(
                n as nat,
                |i: int| spec_i32_from_be_bytes(d.subrange(4 + 4 * i, 8 + 4 * i)),
            );
            assert forall|i: int| 0 <= i < n implies parsed[i] == a[i] by {
                assert(d.subrange(4 + 4 * i, 8 + 4 * i) =~= spec_encode_ints(a).subrange(
                    4 * i,
                    4 * i + 4,
                ));
                crate::codec::lemma_i32_be_bytes_inverse(a[i]);
            }
            assert(parsed =~= a);
        },
        TagModel::List(et, elems) => {
            assert(d[0] == et.spec_to_binary());
            assert(TagType::spec_from_binary(et.spec_to_binary()) == Some(et));
            assert(d.subrange(1, 5) =~= spec_u32_to_be_bytes(elems.len() as u32));
            crate::codec::lemma_u32_be_bytes_inverse(elems.len() as u32);
            let n = spec_u32_from_be_bytes(d.subrange(1, 5)) as int;
            assert(n == elems.len());
            assert(d.skip(5) =~= spec_encode_elements(elems) + rest);
            lemma_read_back_elements(elems, et, rest);
        },
        TagModel::Compound(es) => {
            assert(d =~= spec_encode_entries(es) + (seq![0u8] + rest));
            assert(Seq::<(Seq<char>, TagModel)>::empty() + es =~= es);
            lemma_read_back_entries(es, Seq::empty(), rest);
        },
    }
}

/// Round trip of the elements of a homogeneous list of valid values.
proof fn lemma_read_back_elements(elems: Seq<TagModel>, et: TagType, rest: Seq<u8>)
    requires
        elements_no_end(elems),
        elements_sizes_fit(elems),
        elements_well_shaped(elems),
        forall|i: int| 0 <= i < elems.len() ==> (#[trigger] elems[i]).type_of() == et,
    ensures
        spec_read_elements(spec_encode_elements(elems) + rest, et, elems.len() as int) == Some(
            (elems, spec_encode_elements(elems).len() as int),
        ),
    decreases elems, 1int,
{
    if elems.len() > 0 {
        let v0 = elems[0];
        let d = spec_encode_elements(elems) + rest;
        assert(d =~= spec_encode_value(v0) + (spec_encode_elements(elems.drop_first()) + rest));
        lemma_read_back_value(v0, spec_encode_elements(elems.drop_first()) + rest);
        let c = spec_encode_value(v0).len() as int;
        assert(d.skip(c) =~= spec_encode_elements(elems.drop_first()) + rest);
        lemma_read_back_elements(elems.drop_first(), et, rest);
        assert(seq![v0] + elems.drop_first() =~= elems);
    }
}

/// Round trip of the entries of a compound: read one named tag after the
/// other into the accumulated entries until the End marker, each insert
/// appending because all keys are distinct.
#[verifier::rlimit(60)]
proof fn lemma_read_back_entries(
    es: Seq<(Seq<char>, TagModel)>,
    acc: Seq<(Seq<char>, TagModel)>,
    rest: Seq<u8>,
)
    requires
        entries_no_end(es),
        entries_sizes_fit(es),
        entries_well_shaped(es),
        unique_keys(acc + es),
    ensures
        spec_read_fields(spec_encode_entries(es) + (seq![0u8] + rest), acc) == Some(
            (acc + es, spec_encode_entries(es).len() as int + 1),
        ),
    decreases es, 2int,
{
    let d = spec_encode_entries(es) + (seq![0u8] + rest);
    if es.len() == 0 {
        assert(d[0] == 0);
        assert(acc + es =~= acc);
    } else {
        let (k0, v0) = es[0];
        let tail = spec_encode_entries(es.drop_first()) + (seq![0u8] + rest);
        assert(d =~= spec_encode_named(k0, v0) + tail);
        assert(d[0] == v0.type_of().spec_to_binary());
        assert(TagType::spec_from_binary(v0.type_of().spec_to_binary()) == Some(v0.type_of()));
        assert(no_end_values(v0));
        assert(v0.type_of() != TagType::End);
        assert(d[0] != 0);
        assert(d.skip(1) =~= spec_encode_string(k0) + (spec_encode_value(v0) + tail));
        lemma_read_back_string(k0, spec_encode_value(v0) + tail);
        let nc = spec_encode_string(k0).len() as int;
        assert(d.skip(1 + nc) =~= spec_encode_value(v0) + tail);
        lemma_read_back_value(v0, tail);
        let vc = spec_encode_value(v0).len() as int;
        assert(d.skip(1 + nc + vc) =~= tail);
        assert forall|i: int| 0 <= i < acc.len() implies (#[trigger] acc[i]).0 != k0 by {
            assert((acc + es)[i] == acc[i]);
            assert((acc + es)[acc.len() as int] == es[0]);
        }
        crate::types::lemma_insert_push(acc, k0, v0);
        assert(acc.push((k0, v0)) + es.drop_first() =~= acc + es);
        lemma_read_back_entries(es.drop_first(), acc.push((k0, v0)), rest);
        assert(spec_encode_entries(es).len() == spec_encode_named(k0, v0).len()
            + spec_encode_entries(es.drop_first()).len());
    }
}

/// Round trip of a named tag: parsing the encoding of a valid named tag,
/// whatever follows it, yields exactly that name and value and consumes
/// exactly the encoding.
pub proof fn lemma_read_back_named(name: Seq<char>, v: TagModel, rest: Seq<u8>)
    requires
        wf_value(v),
        encode_utf8(name).len() <= max_string_len(),
    ensures
        spec_read_named(spec_encode_named(name, v) + rest) == Some(
            ((name, v), spec_encode_named(name, v).len() as int),
        ),
{
    let d = spec_encode_named(name, v) + rest;
    assert(d[0] == v.type_of().spec_to_binary());
    assert(TagType::spec_from_binary(v.type_of().spec_to_binary()) == Some(v.type_of()));
    assert(v.type_of() != TagType::End);
    assert(d.skip(1) =~= spec_encode_string(name) + (spec_encode_value(v) + rest));
    lemma_read_back_string(name, spec_encode_value(v) + rest);
    let nc = spec_encode_string(name).len() as int;
    assert(d.skip(1 + nc) =~= spec_encode_value(v) + rest);
    lemma_read_back_value(v, rest);
}

/// Appending an element to a sequence appends its wire form.
pub proof fn lemma_encode_elements_push(s: Seq<TagModel>, v: TagModel)
    ensures
        spec_encode_elements(s.push(v)) == spec_encode_elements(s) + spec_encode_value(v),
    decreases s.len(),
{
    if s.len() == 0 {
        let p = s.push(v);
        assert(p.len() == 1);
        assert(p[0] == v);
        assert(p.drop_first() =~= Seq::<TagModel>::empty());
        assert(spec_encode_elements(p.drop_first()) == Seq::<u8>::empty());
        assert(spec_encode_elements(p) == spec_encode_value(p[0]) + spec_encode_elements(
            p.drop_first(),
        ));
        assert(spec_encode_elements(p) =~= spec_encode_value(v));
        assert(spec_encode_elements(s) + spec_encode_value(v) =~= spec_encode_value(v));
    } else {
        assert(s.push(v).drop_first() =~= s.drop_first().push(v));
        lemma_encode_elements_push(s.drop_first(), v);
        assert(spec_encode_elements(s.push(v)) =~= spec_encode_elements(s) + spec_encode_value(v));
    }
}

/// Appending an integer to a sequence appends its wire form.
pub proof fn lemma_encode_ints_push(s: Seq<i32>, x: i32)
    ensures
        spec_encode_ints(s.push(x)) == spec_encode_ints(s) + spec_i32_to_be_bytes(x),
    decreases s.len(),
{
    if s.len() == 0 {
        let p = s.push(x);
        assert(p.len() == 1);
        assert(p[0] == x);
        assert(p.drop_first() =~= Seq::<i32>::empty());
        assert(spec_encode_ints(p.drop_first()) == Seq::<u8>::empty());
        assert(spec_encode_ints(p) == spec_i32_to_be_bytes(p[0]) + spec_encode_ints(
            p.drop_first(),
        ));
        assert(spec_encode_ints(p) =~= spec_encode_ints(s) + spec_i32_to_be_bytes(x));
    } else {
        assert(s.push(x).drop_first() =~= s.drop_first().push(x));
        lemma_encode_ints_push(s.drop_first(), x);
        assert(spec_encode_ints(s.push(x)) =~= spec_encode_ints(s) + spec_i32_to_be_bytes(x));
    }
}

/// Appending an entry to a sequence appends its wire form.
pub proof fn lemma_encode_entries_push(s: Seq<(Seq<char>, TagModel)>, k: Seq<char>, v: TagModel)
    ensures
        spec_encode_entries(s.push((k, v))) == spec_encode_entries(s) + spec_encode_named(k, v),
    decreases s.len(),
{
    if s.len() == 0 {
        let p = s.push((k, v));
        assert(p.len() == 1);
        assert(p[0] == (k, v));
        assert(p.drop_first() =~= Seq::<(Seq<char>, TagModel)>::empty());
        assert(spec_encode_entries(p.drop_first()) == Seq::<u8>::empty());
        assert(spec_encode_entries(p) == spec_encode_named(p[0].0, p[0].1) + spec_encode_entries(
            p.drop_first(),
        ));
        assert(spec_encode_entries(p) =~= spec_encode_entries(s) + spec_encode_named(k, v));
    } else {
        assert(s.push((k, v)).drop_first() =~= s.drop_first().push((k, v)));
        lemma_encode_entries_push(s.drop_first(), k, v);
        assert(spec_encode_entries(s.push((k, v))) =~= spec_encode_entries(s)
            + spec_encode_named(k, v));
    }
}

/// Element-wise reading of [`elements_no_end`].
pub broadcast proof fn lemma_elements_no_end_index(s: Seq<TagModel>)
    ensures
        #[trigger] elements_no_end(s) <==> forall|i: int|
            0 <= i < s.len() ==> no_end_values(#[trigger] s[i]),
    decreases s.len(),
{
    if s.len() > 0 {
        lemma_elements_no_end_index(s.drop_first());
        assert(forall|i: int| 1 <= i < s.len() ==> s.drop_first()[i - 1] == #[trigger] s[i]);
        assert(forall|i: int|
            0 <= i < s.drop_first().len() ==> #[trigger] s.drop_first()[i] == s[i + 1]);
    }
}

/// Element-wise reading of [`entries_no_end`].
pub broadcast proof fn lemma_entries_no_end_index(s: Seq<(Seq<char>, TagModel)>)
    ensures
        #[trigger] entries_no_end(s) <==> forall|i: int|
            0 <= i < s.len() ==> no_end_values((#[trigger] s[i]).1),
    decreases s.len(),
{
    if s.len() > 0 {
        lemma_entries_no_end_index(s.drop_first());
        assert(forall|i: int| 1 <= i < s.len() ==> s.drop_first()[i - 1] == #[trigger] s[i]);
        assert(forall|i: int|
            0 <= i < s.drop_first().len() ==> #[trigger] s.drop_first()[i] == s[i + 1]);
    }
}

/// Element-wise reading of [`elements_sizes_fit`].
pub broadcast proof fn lemma_elements_sizes_fit_index(s: Seq<TagModel>)
    ensures
        #[trigger] elements_sizes_fit(s) <==> forall|i: int|
            0 <= i < s.len() ==> sizes_fit(#[trigger] s[i]),
    decreases s.len(),
{
    if s.len() > 0 {
        lemma_elements_sizes_fit_index(s.drop_first());
        assert(forall|i: int| 1 <= i < s.len() ==> s.drop_first()[i - 1] == #[trigger] s[i]);
        assert(forall|i: int|
            0 <= i < s.drop_first().len() ==> #[trigger] s.drop_first()[i] == s[i + 1]);
    }
}

/// Entry-wise reading of [`entries_sizes_fit`].
pub broadcast proof fn lemma_entries_sizes_fit_index(s: Seq<(Seq<char>, TagModel)>)
    ensures
        #[trigger] entries_sizes_fit(s) <==> forall|i: int|
            0 <= i < s.len() ==> encode_utf8((#[trigger] s[i]).0).len() <= max_string_len()
                && sizes_fit(s[i].1),
    decreases s.len(),
{
    if s.len() > 0 {
        lemma_entries_sizes_fit_index(s.drop_first());
        assert(forall|i: int| 1 <= i < s.len() ==> s.drop_first()[i - 1] == #[trigger] s[i]);
        assert(forall|i: int|
            0 <= i < s.drop_first().len() ==> #[trigger] s.drop_first()[i] == s[i + 1]);
    }
}

/// Element-wise reading of [`elements_well_shaped`].
pub broadcast proof fn lemma_elements_well_shaped_index(s: Seq<TagModel>)
    ensures
        #[trigger] elements_well_shaped(s) <==> forall|i: int|
            0 <= i < s.len() ==> well_shaped(#[trigger] s[i]),
    decreases s.len(),
{
    if s.len() > 0 {
        lemma_elements_well_shaped_index(s.drop_first());
        assert(forall|i: int| 1 <= i < s.len() ==> s.drop_first()[i - 1] == #[trigger] s[i]);
        assert(forall|i: int|
            0 <= i < s.drop_first().len() ==> #[trigger] s.drop_first()[i] == s[i + 1]);
    }
}

/// Entry-wise reading of [`entries_well_shaped`].
pub broadcast proof fn lemma_entries_well_shaped_index(s: Seq<(Seq<char>, TagModel)>)
    ensures
        #[trigger] entries_well_shaped(s) <==> forall|i: int|
            0 <= i < s.len() ==> well_shaped((#[trigger] s[i]).1),
    decreases s.len(),
{
    if s.len() > 0 {
        lemma_entries_well_shaped_index(s.drop_first());
        assert(forall|i: int| 1 <= i < s.len() ==> s.drop_first()[i - 1] == #[trigger] s[i]);
        assert(forall|i: int|
            0 <= i < s.drop_first().len() ==> #[trigger] s.drop_first()[i] == s[i + 1]);
    }
}

/// True when some entry of a modelled compound has the given key.
pub open spec fn has_key(s: Seq<(Seq<char>, TagModel)>, k: Seq<char>) -> bool {
    exists|i: int| 0 <= i < s.len() && (#[trigger] s[i]).0 == k
}

/// What a write leaves of a compound's entries: keys stay unique, the key
/// set gains the written key, and every entry is the written one or one
/// that was already there.
proof fn lemma_insert_entries(s: Seq<(Seq<char>, TagModel)>, k: Seq<char>, v: TagModel)
    ensures
        unique_keys(s) ==> unique_keys(spec_insert(s, k, v)),
        forall|x: Seq<char>| #[trigger] has_key(spec_insert(s, k, v), x) <==> has_key(s, x) || x == k,
        forall|j: int|
            0 <= j < spec_insert(s, k, v).len() ==> #[trigger] spec_insert(s, k, v)[j] == (k, v)
                || exists|i: int| 0 <= i < s.len() && #[trigger] s[i] == spec_insert(s, k, v)[j],
    decreases s.len(),
{
    let out = spec_insert(s, k, v);
    if s.len() == 0 {
        assert(out =~= seq![(k, v)]);
        assert forall|x: Seq<char>| #[trigger] has_key(out, x) <==> has_key(s, x) || x == k by {
            if x == k {
                assert(out[0].0 == k);
            }
        }
    } else if s[0].0 == k {
        assert(out =~= seq![(k, v)] + s.drop_first());
        assert forall|x: Seq<char>| #[trigger] has_key(out, x) <==> has_key(s, x) || x == k by {
            if has_key(out, x) {
                let i = choose|i: int| 0 <= i < out.len() && (#[trigger] out[i]).0 == x;
                if i > 0 {
                    assert(s[i].0 == x);
                }
            }
            if has_key(s, x) && x != k {
                let i = choose|i: int| 0 <= i < s.len() && (#[trigger] s[i]).0 == x;
                assert(i > 0);
                assert(out[i].0 == x);
            }
            if x == k {
                assert(out[0].0 == k);
            }
        }
        if unique_keys(s) {
            assert forall|i: int, j: int| 0 <= i < j < out.len() implies out[i].0 != out[j].0 by {
                assert(out[j] == s[j]);
                if i > 0 {
                    assert(out[i] == s[i]);
                } else {
                    assert(s[0].0 == k);
                }
            }
        }
        assert forall|j: int| 0 <= j < out.len() implies #[trigger] out[j] == (k, v) || exists|
            i: int,
        | 0 <= i < s.len() && #[trigger] s[i] == out[j] by {
            if j > 0 {
                assert(s[j] == out[j]);
            }
        }
    } else {
        let sub = spec_insert(s.drop_first(), k, v);
        assert(out =~= seq![s[0]] + sub);
        lemma_insert_entries(s.drop_first(), k, v);
        assert(forall|j: int|
            0 <= j < s.drop_first().len() ==> #[trigger] s.drop_first()[j] == s[j + 1]);
        assert forall|x: Seq<char>| #[trigger] has_key(out, x) <==> has_key(s, x) || x == k by {
            if has_key(out, x) {
                let i = choose|i: int| 0 <= i < out.len() && (#[trigger] out[i]).0 == x;
                if i == 0 {
                    assert(s[0].0 == x);
                } else {
                    assert(sub[i - 1].0 == x);
                    assert(has_key(sub, x));
                    if has_key(s.drop_first(), x) {
                        let j = choose|j: int|
                            0 <= j < s.drop_first().len() && (#[trigger] s.drop_first()[j]).0 == x;
                        assert(s[j + 1].0 == x);
                    }
                }
            }
            if has_key(s, x) {
                let i = choose|i: int| 0 <= i < s.len() && (#[trigger] s[i]).0 == x;
                if i == 0 {
                    assert(out[0].0 == x);
                } else {
                    assert(s.drop_first()[i - 1].0 == x);
                    assert(has_key(sub, x));
                    let j = choose|j: int| 0 <= j < sub.len() && (#[trigger] sub[j]).0 == x;
                    assert(out[j + 1].0 == x);
                }
            }
            if x == k {
                assert(has_key(sub, k));
                let j = choose|j: int| 0 <= j < sub.len() && (#[trigger] sub[j]).0 == k;
                assert(out[j + 1].0 == k);
            }
        }
        if unique_keys(s) {
            assert(unique_keys(s.drop_first()));
            assert forall|i: int, j: int| 0 <= i < j < out.len() implies out[i].0 != out[j].0 by {
                if i == 0 {
                    assert(out[j] == sub[j - 1]);
                    if out[j] == (k, v) {
                        assert(s[0].0 != k);
                    } else {
                        let m = choose|m: int|
                            0 <= m < s.drop_first().len() && #[trigger] s.drop_first()[m] == sub[j
                                - 1];
                        assert(s[m + 1] == sub[j - 1]);
                        assert(s[0].0 != s[m + 1].0);
                    }
                } else {
                    assert(out[i] == sub[i - 1] && out[j] == sub[j - 1]);
                }
            }
        }
        assert forall|j: int| 0 <= j < out.len() implies #[trigger] out[j] == (k, v) || exists|
            i: int,
        | 0 <= i < s.len() && #[trigger] s[i] == out[j] by {
            if j > 0 {
                if sub[j - 1] != (k, v) {
                    let m = choose|m: int|
                        0 <= m < s.drop_first().len() && #[trigger] s.drop_first()[m] == sub[j - 1];
                    assert(s[m + 1] == out[j]);
                }
            }
        }
    }
}

/// Whatever bytes are given it, the parser only ever builds well-shaped
/// trees: every list it reads is homogeneous — each element's type equals
/// the declared element type — every compound's keys are unique, no End
/// marker stands in value position, the value has the requested type, and
/// between one byte and the whole input is consumed. The reader enforces by
/// construction what the writer does not check.
pub proof fn lemma_read_value_shaped(d: Seq<u8>, t: TagType)
    ensures
        spec_read_value(d, t) matches Some(p) ==> 1 <= p.1 <= d.len() && p.0.type_of() == t
            && well_shaped(p.0) && no_end_values(p.0),
    decreases d.len(), 2int, 0int,
{
    broadcast use lemma_elements_no_end_index, lemma_entries_no_end_index,
        lemma_elements_well_shaped_index, lemma_entries_well_shaped_index;

    match t {
        TagType::List => {
            if d.len() >= 5 {
                match TagType::spec_from_binary(d[0]) {
                    None => {},
                    Some(et) => {
                        let n = spec_u32_from_be_bytes(d.subrange(1, 5)) as int;
                        if n <= max_count() {
                            lemma_read_elements_shaped(d.skip(5), et, n);
                        }
                    },
                }
            }
        },
        TagType::Compound => {
            lemma_read_fields_shaped(d, Seq::empty());
        },
        _ => {},
    }
}

/// Whatever bytes are given it, the element parser only ever builds the
/// requested number of well-shaped values of the requested type.
proof fn lemma_read_elements_shaped(d: Seq<u8>, et: TagType, n: int)
    ensures
        spec_read_elements(d, et, n) matches Some(p) ==> 0 <= p.1 <= d.len() && p.0.len() == (if n
            >= 0 {
            n
        } else {
            0
        }) && elements_well_shaped(p.0) && elements_no_end(p.0) && forall|i: int|
            0 <= i < p.0.len() ==> (#[trigger] p.0[i]).type_of() == et,
    decreases d.len(), 3int, n,
{
    broadcast use lemma_elements_no_end_index, lemma_elements_well_shaped_index;

    if n > 0 {
        match spec_read_value(d, et) {
            None => {},
            Some((v, c)) => {
                lemma_read_value_shaped(d, et);
                if 0 <= c <= d.len() {
                    lemma_read_elements_shaped(d.skip(c), et, n - 1);
                    match spec_read_elements(d.skip(c), et, n - 1) {
                        None => {},
                        Some((rest, rc)) => {
                            let es = seq![v] + rest;
                            assert(es[0] == v);
                            assert(forall|i: int|
                                1 <= i < es.len() ==> #[trigger] es[i] == rest[i - 1]);
                        },
                    }
                }
            },
        }
    }
}

/// Whatever bytes are given it, the field parser keeps the accumulated
/// entries' invariants: keys stay unique, and every value is well shaped
/// with no End marker in value position.
proof fn lemma_read_fields_shaped(d: Seq<u8>, acc: Seq<(Seq<char>, TagModel)>)
    ensures
        spec_read_fields(d, acc) matches Some(p) ==> 1 <= p.1 <= d.len() && (unique_keys(acc)
            ==> unique_keys(p.0)) && ((entries_well_shaped(acc) && entries_no_end(acc))
            ==> entries_well_shaped(p.0) && entries_no_end(p.0)),
    decreases d.len(), 1int, 0int,
{
    broadcast use lemma_entries_no_end_index, lemma_entries_well_shaped_index;

    if d.len() >= 1 && d[0] != 0 {
        match TagType::spec_from_binary(d[0]) {
            None => {},
            Some(t) => match spec_read_string(d.skip(1)) {
                None => {},
                Some((name, nc)) => {
                    if 0 <= nc && 1 + nc <= d.len() {
                        match spec_read_value(d.skip(1 + nc), t) {
                            None => {},
                            Some((v, vc)) => {
                                lemma_read_value_shaped(d.skip(1 + nc), t);
                                if 0 <= vc && 1 + nc + vc <= d.len() {
                                    let acc2 = spec_insert(acc, name, v);
                                    lemma_insert_entries(acc, name, v);
                                    lemma_read_fields_shaped(d.skip(1 + nc + vc), acc2);
                                }
                            },
                        }
                    }
                },
            },
        }
    }
}

/// A stream whose leading type-code byte is outside 0 through 11 has no
/// meaning as a named tag, whatever follows it: reading it fails with
/// Malformed, by the reader's contract — never a panic or a silent default.
pub proof fn lemma_unknown_type_code_malformed(d: Seq<u8>)
    requires
        d.len() >= 1,
        d[0] > 11,
    ensures
        spec_read_named(d) is None,
{
}

/// Whatever bytes are given it, the named-tag parser only ever yields a
/// well-shaped tree of the type its code announced; only the bare End
/// terminator yields an End value, and then with an empty name.
pub proof fn lemma_read_named_shaped(d: Seq<u8>)
    ensures
        spec_read_named(d) matches Some(p) ==> 1 <= p.1 <= d.len() && well_shaped(p.0.1) && (
        p.0.1 is End ==> p.0.0 == Seq::<char>::empty()) && (!(p.0.1 is End) ==> no_end_values(
            p.0.1,
        )),
{
    if d.len() >= 1 {
        match TagType::spec_from_binary(d[0]) {
            None => {},
            Some(t) => {
                if t != TagType::End {
                    match spec_read_string(d.skip(1)) {
                        None => {},
                        Some((name, nc)) => {
                            if 0 <= nc && 1 + nc <= d.len() {
                                lemma_read_value_shaped(d.skip(1 + nc), t);
                            }
                        },
                    }
                }
            },
        }
    }
}

} // verus!
