//! Decode NBT values from bytes.
//!
//! The reader parses the wire grammar exactly as
//! [`crate::grammar::spec_read_named`] states it: every function returns
//! `Ok` precisely when the grammar gives the consumed prefix a meaning, and
//! then returns exactly the tree the prefix denotes; anything else — a
//! short stream, an unrecognized type code, a negative count, End requested
//! as a value — is [`Error::Malformed`]. Decoding is all-or-nothing: a
//! failed read returns no partial tree.

use vstd::prelude::*;
use vstd::slice::slice_subrange;
use vstd::slice::slice_to_vec;

use crate::codec::i16_from_be_bytes;
use crate::codec::i32_from_be_bytes;
use crate::codec::i64_from_be_bytes;
use crate::codec::i8_from_be_bytes;
use crate::codec::u16_from_be_bytes;
use crate::codec::u32_from_be_bytes;
use crate::codec::u64_from_be_bytes;
use crate::grammar::spec_read_elements;
use crate::grammar::spec_read_fields;
use crate::grammar::spec_read_named;
use crate::grammar::spec_read_string;
use crate::grammar::spec_read_value;
use crate::strings::utf8_lossy;
use crate::types::lemma_models_of;
use crate::types::models_of;
use crate::types::CompoundData;
use crate::types::Error;
use crate::types::ListData;
use crate::types::Result;
use crate::types::Tag;
use crate::types::TagModel;
use crate::types::TagType;

verus! {

broadcast use
    vstd::std_specs::vec::group_vec_axioms,
    vstd::seq::group_seq_axioms,
    lemma_models_of;

/// Read a length-prefixed string: a 16-bit big-endian byte length, then
/// that many bytes read as UTF-8, lossily. Succeeds, advancing past what it
/// read, exactly when the stream holds the two length bytes and the bytes
/// they announce.
pub fn read_string(d: &[u8], pos: &mut usize) -> (r: Result<String>)
    requires
        *old(pos) <= d@.len(),
    ensures
        *old(pos) <= *final(pos) <= d@.len(),
        match r {
            Ok(s) => spec_read_string(d@.skip(*old(pos) as int)) matches Some((cs, c)) && s@ == cs
                && *final(pos) == *old(pos) + c,
            Err(e) => spec_read_string(d@.skip(*old(pos) as int)) is None && e is Malformed,
        },
{
    let ghost sfx = d@.skip(*pos as int);
    let n = d.len();
    if n - *pos < 2 {
        return Err(Error::Malformed);
    }
    let lenb = slice_subrange(d, *pos, *pos + 2);
    proof {
        assert(lenb@ =~= sfx.subrange(0, 2));
    }
    let len_u16 = match u16_from_be_bytes(lenb) {
        Some(x) => x,
        None => vstd::pervasive::unreached(),
    };
    let len = len_u16 as usize;
    if n - (*pos + 2) < len {
        return Err(Error::Malformed);
    }
    let sb = slice_subrange(d, *pos + 2, *pos + 2 + len);
    proof {
        assert(sb@ =~= sfx.subrange(2, 2 + len as int));
    }
    let s = utf8_lossy(sb);
    *pos = *pos + 2 + len;
    Ok(s)
}

/// Read a value of the given type. Succeeds, advancing past what it read
/// and returning exactly the tree the consumed prefix denotes, precisely
/// when the wire grammar gives that prefix a meaning for this type.
#[verifier::loop_isolation(false)]
pub fn read_value(d: &[u8], pos: &mut usize, vtype: TagType) -> (r: Result<Tag>)
    requires
        *old(pos) <= d@.len(),
    ensures
        *old(pos) <= *final(pos) <= d@.len(),
        match r {
            Ok(tag) => spec_read_value(d@.skip(*old(pos) as int), vtype) matches Some((v, c))
                && tag@ == v && *final(pos) == *old(pos) + c,
            Err(e) => spec_read_value(d@.skip(*old(pos) as int), vtype) is None && e is Malformed,
        },
        vtype is End ==> *final(pos) == *old(pos),
    decreases d@.len() - *pos, 1int,
{
    let ghost sfx = d@.skip(*pos as int);
    let n = d.len();
    match vtype {
        TagType::End => Err(Error::Malformed),
        TagType::Byte => {
            if n - *pos < 1 {
                return Err(Error::Malformed);
            }
            let b = slice_subrange(d, *pos, *pos + 1);
            proof {
                assert(b@ =~= sfx.subrange(0, 1));
            }
            let x = match i8_from_be_bytes(b) {
                Some(x) => x,
                None => vstd::pervasive::unreached(),
            };
            *pos = *pos + 1;
            Ok(Tag::Byte(x))
        },
        TagType::Short => {
            if n - *pos < 2 {
                return Err(Error::Malformed);
            }
            let b = slice_subrange(d, *pos, *pos + 2);
            proof {
                assert(b@ =~= sfx.subrange(0, 2));
            }
            let x = match i16_from_be_bytes(b) {
                Some(x) => x,
                None => vstd::pervasive::unreached(),
            };
            *pos = *pos + 2;
            Ok(Tag::Short(x))
        },
        TagType::Int => {
            if n - *pos < 4 {
                return Err(Error::Malformed);
            }
            let b = slice_subrange(d, *pos, *pos + 4);
            proof {
                assert(b@ =~= sfx.subrange(0, 4));
            }
            let x = match i32_from_be_bytes(b) {
                Some(x) => x,
                None => vstd::pervasive::unreached(),
            };
            *pos = *pos + 4;
            Ok(Tag::Int(x))
        },
        TagType::Long => {
            if n - *pos < 8 {
                return Err(Error::Malformed);
            }
            let b = slice_subrange(d, *pos, *pos + 8);
            proof {
                assert(b@ =~= sfx.subrange(0, 8));
            }
            let x = match i64_from_be_bytes(b) {
                Some(x) => x,
                None => vstd::pervasive::unreached(),
            };
            *pos = *pos + 8;
            Ok(Tag::Long(x))
        },
        TagType::Float => {
            if n - *pos < 4 {
                return Err(Error::Malformed);
            }
            let b = slice_subrange(d, *pos, *pos + 4);
            proof {
                assert(b@ =~= sfx.subrange(0, 4));
            }
            let x = match u32_from_be_bytes(b) {
                Some(x) => x,
                None => vstd::pervasive::unreached(),
            };
            *pos = *pos + 4;
            Ok(Tag::Float(x))
        },
        TagType::Double => {
            if n - *pos < 8 {
                return Err(Error::Malformed);
            }
            let b = slice_subrange(d, *pos, *pos + 8);
            proof {
                assert(b@ =~= sfx.subrange(0, 8));
            }
            let x = match u64_from_be_bytes(b) {
                Some(x) => x,
                None => vstd::pervasive::unreached(),
            };
            *pos = *pos + 8;
            Ok(Tag::Double(x))
        },
        TagType::String => {
            match read_string(d, pos) {
                Ok(s) => Ok(Tag::String(s)),
                Err(e) => Err(e),
            }
        },
        TagType::ByteArray => {
            if n - *pos < 4 {
                return Err(Error::Malformed);
            }
            let lb = slice_subrange(d, *pos, *pos + 4);
            proof {
                assert(lb@ =~= sfx.subrange(0, 4));
            }
            let cnt = match u32_from_be_bytes(lb) {
                Some(x) => x,
                None => vstd::pervasive::unreached(),
            };
            if cnt > 0x7fffffff {
                return Err(Error::Malformed);
            }
            let len = cnt as usize;
            if n - (*pos + 4) < len {
                return Err(Error::Malformed);
            }
            let body = slice_subrange(d, *pos + 4, *pos + 4 + len);
            proof {
                assert(body@ =~= sfx.subrange(4, 4 + len as int));
            }
            let bytes = slice_to_vec(body);
            *pos = *pos + 4 + len;
            Ok(Tag::ByteArray(bytes))
        },
        TagType::IntArray => {
            if n - *pos < 4 {
                return Err(Error::Malformed);
            }
            let lb = slice_subrange(d, *pos, *pos + 4);
            proof {
                assert(lb@ =~= sfx.subrange(0, 4));
            }
            let cnt = match u32_from_be_bytes(lb) {
                Some(x) => x,
                None => vstd::pervasive::unreached(),
            };
            if cnt > 0x7fffffff {
                return Err(Error::Malformed);
            }
            let count = cnt as usize;
            let ghost m = count as int;
            if (n - (*pos + 4)) / 4 < count {
                proof {
                    assert(sfx.len() < 4 + 4 * m);
                }
                return Err(Error::Malformed);
            }
            proof {
                assert(sfx.len() >= 4 + 4 * m);
            }
            let mut ints: Vec<i32> = Vec::new();
            let base = *pos + 4;
            let mut i: usize = 0;
            while i < count
                invariant
                    i <= count,
                    ints@.len() == i,
                    forall|j: int|
                        0 <= j < i ==> ints@[j] == crate::codec::spec_i32_from_be_bytes(
                            sfx.subrange(4 + 4 * j, 8 + 4 * j),
                        ),
                decreases count - i,
            {
                let b = slice_subrange(d, base + 4 * i, base + 4 * i + 4);
                proof {
                    assert(b@ =~= sfx.subrange(4 + 4 * (i as int), 8 + 4 * (i as int)));
                }
                let x = match i32_from_be_bytes(b) {
                    Some(x) => x,
                    None => vstd::pervasive::unreached(),
                };
                ints.push(x);
                i = i + 1;
            }
            *pos = base + 4 * count;
            proof {
                assert(ints@ =~= Seq::new(
                    m as nat,
                    |j: int| crate::codec::spec_i32_from_be_bytes(sfx.subrange(4 + 4 * j, 8 + 4
                        * j)),
                ));
            }
            Ok(Tag::IntArray(ints))
        },
        TagType::List => read_list(d, pos),
        TagType::Compound => read_compound(d, pos),
    }
}

/// Read a list value: a declared element type code — kept even by an empty
/// list — a 32-bit element count, then that many values of the declared
/// type.
#[verifier::loop_isolation(false)]
#[verifier::rlimit(60)]
fn read_list(d: &[u8], pos: &mut usize) -> (r: Result<Tag>)
    requires
        *old(pos) <= d@.len(),
    ensures
        *old(pos) <= *final(pos) <= d@.len(),
        match r {
            Ok(tag) => spec_read_value(d@.skip(*old(pos) as int), TagType::List) matches Some(
                (v, c),
            ) && tag@ == v && *final(pos) == *old(pos) + c,
            Err(e) => spec_read_value(d@.skip(*old(pos) as int), TagType::List) is None
                && e is Malformed,
        },
    decreases d@.len() - *pos, 0int,
{
    let ghost sfx = d@.skip(*pos as int);
    let n = d.len();
    if n - *pos < 5 {
        return Err(Error::Malformed);
    }
    let etb = d[*pos];
    proof {
        assert(sfx[0] == etb);
    }
    let et = match TagType::from_binary(etb) {
        Some(t) => t,
        None => {
            return Err(Error::Malformed);
        },
    };
    let cb = slice_subrange(d, *pos + 1, *pos + 5);
    proof {
        assert(cb@ =~= sfx.subrange(1, 5));
    }
    let cnt = match u32_from_be_bytes(cb) {
        Some(x) => x,
        None => vstd::pervasive::unreached(),
    };
    if cnt > 0x7fffffff {
        return Err(Error::Malformed);
    }
    let count = cnt as usize;
    *pos = *pos + 5;
    let ghost hdr_pos = *pos as int;
    proof {
        assert(d@.skip(hdr_pos) =~= sfx.skip(5));
    }
    let mut elems: Vec<Tag> = Vec::new();
    let mut i: usize = 0;
    while i < count
        invariant
            i <= count,
            hdr_pos <= *pos <= d@.len(),
            match spec_read_elements(d@.skip(*pos as int), et, count - i) {
                Some(p) => spec_read_elements(d@.skip(hdr_pos), et, count as int) == Some(
                    (models_of(elems@) + p.0, (*pos - hdr_pos) + p.1),
                ),
                None => spec_read_elements(d@.skip(hdr_pos), et, count as int) is None,
            },
        decreases count - i,
    {
        let ghost p_before = *pos as int;
        let ghost models_before = models_of(elems@);
        match read_value(d, pos, et) {
            Ok(v) => {
                proof {
                    assert(d@.skip(p_before).skip(*pos - p_before) =~= d@.skip(*pos as int));
                }
                elems.push(v);
                proof {
                    assert(models_of(elems@) =~= models_before.push(v@));
                    assert forall|es3: Seq<TagModel>|
                        true implies models_before + (seq![v@] + es3) =~= models_of(elems@)
                        + es3 by {}
                }
                i = i + 1;
            },
            Err(e) => {
                return Err(e);
            },
        }
    }
    proof {
        assert(models_of(elems@) + Seq::<TagModel>::empty() =~= models_of(elems@));
    }
    Ok(Tag::List(ListData { element_type: et, elements: elems }))
}

/// Read a compound value: named tags, each inserted with the last write to
/// a name winning, until an End marker closes the compound.
#[verifier::loop_isolation(false)]
#[verifier::rlimit(60)]
fn read_compound(d: &[u8], pos: &mut usize) -> (r: Result<Tag>)
    requires
        *old(pos) <= d@.len(),
    ensures
        *old(pos) <= *final(pos) <= d@.len(),
        match r {
            Ok(tag) => spec_read_value(d@.skip(*old(pos) as int), TagType::Compound) matches Some(
                (v, c),
            ) && tag@ == v && *final(pos) == *old(pos) + c,
            Err(e) => spec_read_value(d@.skip(*old(pos) as int), TagType::Compound) is None
                && e is Malformed,
        },
    decreases d@.len() - *pos, 0int,
{
    let n = d.len();
    let mut comp = CompoundData::new();
    let ghost entry_pos = *pos as int;
    loop
        invariant
            entry_pos <= *pos <= d@.len(),
            match spec_read_fields(d@.skip(*pos as int), comp@) {
                Some(p) => spec_read_fields(
                    d@.skip(entry_pos),
                    Seq::<(Seq<char>, TagModel)>::empty(),
                ) == Some((p.0, (*pos - entry_pos) + p.1)),
                None => spec_read_fields(
                    d@.skip(entry_pos),
                    Seq::<(Seq<char>, TagModel)>::empty(),
                ) is None,
            },
        decreases d@.len() - *pos,
    {
        let ghost p_iter = *pos as int;
        if n - *pos < 1 {
            return Err(Error::Malformed);
        }
        let b = d[*pos];
        proof {
            assert(d@.skip(p_iter)[0] == b);
        }
        if b == 0 {
            *pos = *pos + 1;
            return Ok(Tag::Compound(comp));
        }
        let t = match TagType::from_binary(b) {
            Some(t) => t,
            None => {
                return Err(Error::Malformed);
            },
        };
        *pos = *pos + 1;
        proof {
            assert(d@.skip(p_iter).skip(1) =~= d@.skip(p_iter + 1));
        }
        let ghost comp_before = comp@;
        let name = match read_string(d, pos) {
            Ok(s) => s,
            Err(e) => {
                return Err(e);
            },
        };
        let ghost p_name = *pos as int;
        proof {
            assert(d@.skip(p_iter).skip(p_name - p_iter) =~= d@.skip(p_name));
        }
        let v = match read_value(d, pos, t) {
            Ok(v) => v,
            Err(e) => {
                return Err(e);
            },
        };
        proof {
            assert(d@.skip(p_iter).skip(*pos - p_iter) =~= d@.skip(*pos as int));
        }
        comp.insert(name, v);
    }
}

/// Read a named tag: a type code, then — except for the bare End
/// terminator, which yields an End tag with an empty name — a name and a
/// value of that type. Succeeds, advancing past what it read, precisely
/// when the wire grammar gives the consumed prefix a meaning.
pub fn read_tag(d: &[u8], pos: &mut usize) -> (r: Result<(String, Tag)>)
    requires
        *old(pos) <= d@.len(),
    ensures
        *old(pos) <= *final(pos) <= d@.len(),
        match r {
            Ok(nt) => spec_read_named(d@.skip(*old(pos) as int)) matches Some((nv, c)) && nt.0@
                == nv.0 && nt.1@ == nv.1 && *final(pos) == *old(pos) + c,
            Err(e) => spec_read_named(d@.skip(*old(pos) as int)) is None && e is Malformed,
        },
{
    let ghost sfx = d@.skip(*pos as int);
    if d.len() - *pos < 1 {
        return Err(Error::Malformed);
    }
    let b = d[*pos];
    proof {
        assert(sfx[0] == b);
    }
    let t = match TagType::from_binary(b) {
        Some(t) => t,
        None => {
            return Err(Error::Malformed);
        },
    };
    if t == TagType::End {
        *pos = *pos + 1;
        let name = String::new();
        return Ok((name, Tag::End));
    }
    *pos = *pos + 1;
    proof {
        assert(sfx.skip(1) =~= d@.skip(*pos as int));
    }
    let name = match read_string(d, pos) {
        Ok(s) => s,
        Err(e) => {
            return Err(e);
        },
    };
    let ghost p_name = *pos as int;
    proof {
        assert(sfx.skip(p_name - *old(pos)) =~= d@.skip(p_name));
    }
    let v = match read_value(d, pos, t) {
        Ok(v) => v,
        Err(e) => {
            return Err(e);
        },
    };
    Ok((name, v))
}

/// Decode NBT tags from an owned byte source.
pub struct Decoder {
    data: Vec<u8>,
    pos: usize,
}

impl View for Decoder {
    type V = Seq<u8>;

    closed spec fn view(&self) -> Seq<u8> {
        self.data@.skip(self.pos as int)
    }
}

impl Decoder {
    /// True of every Decoder: the position stays within the data.
    #[verifier::type_invariant]
    spec fn inv(self) -> bool {
        self.pos <= self.data@.len()
    }

    /// Create a new Decoder from bytes already read from a source that was
    /// taken ownership over; its view is what remains to be decoded.
    pub fn from_reader(data: Vec<u8>) -> (r: Decoder)
        ensures
            r@ == data@,
    {
        let r = Decoder { data, pos: 0 };
        proof {
            assert(r@ =~= r.data@);
        }
        r
    }

    /// Read a named tag from the remaining bytes. Succeeds, leaving what
    /// follows the tag's encoding, precisely when the wire grammar gives a
    /// prefix of the remaining bytes a meaning; anything else is
    /// [`Error::Malformed`] and no tag is returned.
    pub fn read_tag(&mut self) -> (r: Result<(String, Tag)>)
        ensures
            match r {
                Ok(nt) => spec_read_named(old(self)@) matches Some((nv, c)) && nt.0@ == nv.0
                    && nt.1@ == nv.1 && final(self)@ == old(self)@.skip(c),
                Err(e) => spec_read_named(old(self)@) is None && e is Malformed,
            },
            r matches Ok(nt) ==> crate::grammar::well_shaped(nt.1@) && (!(nt.1@ is End)
                ==> crate::grammar::no_end_values(nt.1@)),
            exists|c: int|
                0 <= c <= old(self)@.len() && final(self)@ == #[trigger] old(self)@.skip(c),
    {
        proof {
            use_type_invariant(&*self);
            crate::grammar::lemma_read_named_shaped(self@);
        }
        let mut p = self.pos;
        let ghost old_p = p as int;
        let r = read_tag(self.data.as_slice(), &mut p);
        self.pos = p;
        proof {
            assert(self.data@.skip(old_p).skip(p - old_p) =~= self.data@.skip(p as int));
            assert(self@ == old(self)@.skip(p - old_p));
        }
        r
    }
}

} // verus!
