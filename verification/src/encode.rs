//! Encode NBT values into bytes.
//!
//! The writer flattens a named tag tree into the wire grammar, exactly as
//! [`crate::grammar::spec_encode_named`] states it. Writing fails — with
//! [`Error::Invalid`], and only then — when an End marker stands in value
//! position somewhere in the tree. The writer does not re-check that list
//! elements match their list's declared element type: that invariant is the
//! data model's responsibility at construction time, and a mismatched tree
//! is flattened as it stands.

use vstd::prelude::*;
use vstd::slice::slice_to_vec;
use vstd::string::StrSliceExecFns;
use vstd::utf8::encode_utf8;

use crate::codec::i16_to_be_bytes;
use crate::codec::i32_to_be_bytes;
use crate::codec::i64_to_be_bytes;
use crate::codec::i8_to_be_bytes;
use crate::codec::u32_to_be_bytes;
use crate::codec::u16_to_be_bytes;
use crate::codec::u64_to_be_bytes;
use crate::grammar::elements_no_end;
use crate::grammar::entries_no_end;
use crate::grammar::lemma_elements_no_end_index;
use crate::grammar::lemma_elements_sizes_fit_index;
use crate::grammar::lemma_encode_elements_push;
use crate::grammar::lemma_encode_entries_push;
use crate::grammar::lemma_encode_ints_push;
use crate::grammar::lemma_entries_no_end_index;
use crate::grammar::lemma_entries_sizes_fit_index;
use crate::grammar::max_string_len;
use crate::grammar::no_end_values;
use crate::grammar::sizes_fit;
use crate::grammar::spec_encode_named;
use crate::grammar::spec_encode_string;
use crate::grammar::spec_encode_value;
use crate::grammar::spec_encode_elements;
use crate::grammar::spec_encode_entries;
use crate::grammar::spec_encode_ints;
use crate::types::entry_models_of;
use crate::types::lemma_entry_models_of;
use crate::types::lemma_models_of;
use crate::types::models_of;
use crate::types::Error;
use crate::types::Result;
use crate::types::Tag;

verus! {

broadcast use
    vstd::std_specs::vec::group_vec_axioms,
    vstd::seq::group_seq_axioms,
    lemma_models_of,
    lemma_entry_models_of,
    lemma_elements_no_end_index,
    lemma_entries_no_end_index,
    lemma_elements_sizes_fit_index,
    lemma_entries_sizes_fit_index;

/// Append the wire form of a string: a 16-bit big-endian byte length, then
/// its UTF-8 bytes. The byte length must fit the length field.
pub fn write_string(out: &mut Vec<u8>, s: &str)
    requires
        encode_utf8(s@).len() <= max_string_len(),
    ensures
        final(out)@ == old(out)@ + spec_encode_string(s@),
{
    let mut bytes = s.as_bytes_vec();
    let mut lenb = u16_to_be_bytes(bytes.len() as u16);
    out.append(&mut lenb);
    out.append(&mut bytes);
    proof {
        assert(out@ =~= old(out)@ + spec_encode_string(s@));
    }
}

/// Append the wire form of a value — everything but the leading type code.
/// Succeeds, appending exactly the value's encoding, unless an End marker
/// stands in value position somewhere in the tree; then, and only then, the
/// result is [`Error::Invalid`], and what was already appended stays.
#[verifier::loop_isolation(false)]
pub fn write_value(out: &mut Vec<u8>, tag: &Tag) -> (r: Result<()>)
    requires
        sizes_fit(tag@),
    ensures
        r is Ok <==> no_end_values(tag@),
        r is Ok ==> final(out)@ == old(out)@ + spec_encode_value(tag@),
        r is Err ==> r matches Err(Error::Invalid),
        tag@ is End ==> final(out)@ == old(out)@,
    decreases tag, 0int,
{
    match tag {
        Tag::End => Err(Error::Invalid),
        Tag::Byte(x) => {
            let mut b = i8_to_be_bytes(*x);
            out.append(&mut b);
            Ok(())
        },
        Tag::Short(x) => {
            let mut b = i16_to_be_bytes(*x);
            out.append(&mut b);
            Ok(())
        },
        Tag::Int(x) => {
            let mut b = i32_to_be_bytes(*x);
            out.append(&mut b);
            Ok(())
        },
        Tag::Long(x) => {
            let mut b = i64_to_be_bytes(*x);
            out.append(&mut b);
            Ok(())
        },
        Tag::Float(x) => {
            let mut b = u32_to_be_bytes(*x);
            out.append(&mut b);
            Ok(())
        },
        Tag::Double(x) => {
            let mut b = u64_to_be_bytes(*x);
            out.append(&mut b);
            Ok(())
        },
        Tag::String(s) => {
            write_string(out, s.as_str());
            Ok(())
        },
        Tag::ByteArray(b) => {
            let mut lenb = u32_to_be_bytes(b.len() as u32);
            out.append(&mut lenb);
            let mut data = slice_to_vec(b.as_slice());
            out.append(&mut data);
            proof {
                assert(out@ =~= old(out)@ + spec_encode_value(tag@));
            }
            Ok(())
        },
        Tag::IntArray(a) => {
            let ghost start = out@;
            let mut lenb = u32_to_be_bytes(a.len() as u32);
            out.append(&mut lenb);
            let ghost header = out@;
            let mut i: usize = 0;
            while i < a.len()
                invariant
                    i <= a@.len(),
                    out@ == header + spec_encode_ints(a@.take(i as int)),
                decreases a@.len() - i,
            {
                let mut b = i32_to_be_bytes(a[i]);
                out.append(&mut b);
                proof {
                    assert(a@.take(i + 1 as int) =~= a@.take(i as int).push(a@[i as int]));
                    lemma_encode_ints_push(a@.take(i as int), a@[i as int]);
                }
                i = i + 1;
            }
            proof {
                assert(a@.take(a@.len() as int) =~= a@);
                assert(out@ =~= start + spec_encode_value(tag@));
            }
            Ok(())
        },
        Tag::List(l) => {
            let ghost start = out@;
            let ghost models = models_of(l.elements@);
            out.push(l.element_type.to_binary());
            let mut lenb = u32_to_be_bytes(l.elements.len() as u32);
            out.append(&mut lenb);
            let ghost header = out@;
            proof {
                assert(header =~= start + seq![l.element_type.spec_to_binary()]
                    + crate::codec::spec_u32_to_be_bytes(l.elements@.len() as u32));
            }
            let mut i: usize = 0;
            while i < l.elements.len()
                invariant
                    i <= l.elements@.len(),
                    models == models_of(l.elements@),
                    sizes_fit(tag@),
                    tag@ == crate::types::TagModel::List(l.element_type, models),
                    out@ == header + spec_encode_elements(models.take(i as int)),
                    header =~= start + seq![l.element_type.spec_to_binary()]
                        + crate::codec::spec_u32_to_be_bytes(l.elements@.len() as u32),
                    forall|j: int| 0 <= j < i ==> no_end_values(#[trigger] models[j]),
                decreases l.elements@.len() - i,
            {
                proof {
                    assert(models[i as int] == l.elements@[i as int].model());
                    assert(sizes_fit(crate::types::TagModel::List(l.element_type, models)));
                    assert(crate::grammar::elements_sizes_fit(models));
                    assert(sizes_fit(models[i as int]));
                }
                match write_value(out, &l.elements[i]) {
                    Ok(()) => {
                        proof {
                            assert(models.take(i + 1 as int) =~= models.take(i as int).push(
                                models[i as int],
                            ));
                            lemma_encode_elements_push(models.take(i as int), models[i as int]);
                        }
                        i = i + 1;
                    },
                    Err(e) => {
                        proof {
                            assert(!no_end_values(models[i as int]));
                            assert(!elements_no_end(models));
                        }
                        return Err(e);
                    },
                }
            }
            proof {
                assert(models.take(models.len() as int) =~= models);
                assert(out@ =~= start + spec_encode_value(tag@));
                assert(elements_no_end(models));
            }
            Ok(())
        },
        Tag::Compound(c) => {
            let ghost start = out@;
            let ghost models = entry_models_of(c.elements@);
            let mut i: usize = 0;
            while i < c.elements.len()
                invariant
                    i <= c.elements@.len(),
                    models == entry_models_of(c.elements@),
                    sizes_fit(tag@),
                    tag@ == crate::types::TagModel::Compound(models),
                    out@ == start + spec_encode_entries(models.take(i as int)),
                    forall|j: int| 0 <= j < i ==> no_end_values((#[trigger] models[j]).1),
                decreases c.elements@.len() - i,
            {
                let entry = &c.elements[i];
                proof {
                    assert(models[i as int] == (c.elements@[i as int].0@, c.elements@[
                        i as int].1.model()));
                    assert(sizes_fit(crate::types::TagModel::Compound(models)));
                    assert(crate::grammar::entries_sizes_fit(models));
                    assert(encode_utf8(models[i as int].0).len() <= max_string_len());
                    assert(sizes_fit(models[i as int].1));
                }
                match write_tag_to(out, entry.0.as_str(), &entry.1) {
                    Ok(()) => {
                        proof {
                            assert(models.take(i + 1 as int) =~= models.take(i as int).push(
                                models[i as int],
                            ));
                            lemma_encode_entries_push(
                                models.take(i as int),
                                models[i as int].0,
                                models[i as int].1,
                            );
                        }
                        i = i + 1;
                    },
                    Err(e) => {
                        proof {
                            assert(!no_end_values(models[i as int].1));
                            assert(!entries_no_end(models));
                        }
                        return Err(e);
                    },
                }
            }
            out.push(0);
            proof {
                assert(models.take(models.len() as int) =~= models);
                assert(out@ =~= start + spec_encode_value(tag@));
                assert(entries_no_end(models));
            }
            Ok(())
        },
    }
}

/// Append the wire form of a named tag: the value's type code, the name,
/// the value. Succeeds, appending exactly the named tag's encoding, unless
/// an End marker stands in value position somewhere in the tree.
pub fn write_tag_to(out: &mut Vec<u8>, name: &str, tag: &Tag) -> (r: Result<()>)
    requires
        sizes_fit(tag@),
        encode_utf8(name@).len() <= max_string_len(),
    ensures
        r is Ok <==> no_end_values(tag@),
        r is Ok ==> final(out)@ == old(out)@ + spec_encode_named(name@, tag@),
        r is Err ==> r matches Err(Error::Invalid),
    decreases tag, 1int,
{
    let ghost start = out@;
    out.push(tag.get_type().to_binary());
    write_string(out, name);
    match write_value(out, tag) {
        Ok(()) => {
            proof {
                assert(out@ =~= start + spec_encode_named(name@, tag@));
            }
            Ok(())
        },
        Err(e) => Err(e),
    }
}

/// Encode NBT tags into an owned byte sink.
pub struct Encoder {
    out: Vec<u8>,
}

impl View for Encoder {
    type V = Seq<u8>;

    closed spec fn view(&self) -> Seq<u8> {
        self.out@
    }
}

impl Encoder {
    /// Create a new Encoder over an existing byte sink that will be taken
    /// ownership over; written tags are appended to it.
    pub fn from_writer(sink: Vec<u8>) -> (r: Encoder)
        ensures
            r@ == sink@,
    {
        Encoder { out: sink }
    }

    /// Write a named tag to the sink. Appends exactly the named tag's wire
    /// form, and fails — with [`Error::Invalid`], and only then — when an
    /// End marker stands in value position somewhere in the tree.
    pub fn write_tag(&mut self, tag: (&str, &Tag)) -> (r: Result<()>)
        requires
            sizes_fit(tag.1@),
            encode_utf8(tag.0@).len() <= max_string_len(),
        ensures
            r is Ok <==> no_end_values(tag.1@),
            r is Ok ==> final(self)@ == old(self)@ + spec_encode_named(tag.0@, tag.1@),
            r is Err ==> r matches Err(Error::Invalid),
    {
        write_tag_to(&mut self.out, tag.0, tag.1)
    }

    /// Take the written bytes out of the Encoder.
    pub fn into_inner(self) -> (r: Vec<u8>)
        ensures
            r@ == self@,
    {
        self.out
    }
}

} // verus!
