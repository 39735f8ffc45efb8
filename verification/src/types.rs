//! Core types of the NBT data model: the tag-type enumeration with its
//! one-byte wire codes, and the error kinds of the codec.

use vstd::prelude::*;

verus! {

broadcast use vstd::std_specs::vec::group_vec_axioms, vstd::seq::group_seq_axioms;

/// Compression flags for streams handed to or produced by callers.
#[derive(Debug)]
pub enum Compression {
    /// Don't compress or uncompress.
    Uncompressed,
    /// Compress and uncompress using GZip.
    GZip,
}

/// Things that can go wrong when reading or writing NBT tags.
#[derive(Debug)]
pub enum Error {
    /// Not a real error: a signal that a compound terminator was read.
    EndOfCompound,
    /// The byte stream does not conform to the NBT grammar.
    Malformed,
    /// Tried to serialize an invalid NBT structure (a bare End value).
    Invalid,
    /// An I/O error happened while a stream was read or written.
    IOError(std::io::Error),
}

/// Declares std::io::Error, carried uninterpreted inside [`Error::IOError`];
/// nothing is assumed about it.
#[verifier::external_type_specification]
#[verifier::external_body]
pub struct ExIoError(std::io::Error);

impl From<std::io::Error> for Error {
    /// Wrap a stream error, uninterpreted.
    fn from(e: std::io::Error) -> (r: Error) {
        Error::IOError(e)
    }
}

impl vstd::std_specs::convert::FromSpecImpl<std::io::Error> for Error {
    open spec fn obeys_from_spec() -> bool {
        true
    }

    open spec fn from_spec(e: std::io::Error) -> Error {
        Error::IOError(e)
    }
}

/// Possible NBT tag types.
#[derive(Debug, Clone, Copy, PartialEq, Eq, Structural)]
pub enum TagType {
    /// End marker.
    End,
    /// 8 bit signed integer.
    Byte,
    /// 16 bit signed integer.
    Short,
    /// 32 bit signed integer.
    Int,
    /// 64 bit signed integer.
    Long,
    /// IEEE-754 floating point, held as its 32-bit pattern.
    Float,
    /// IEEE-754 double precision floating point, held as its 64-bit pattern.
    Double,
    /// UTF-8 string.
    String,
    /// Vector of unsigned 8 bit integers.
    ByteArray,
    /// Vector of signed 32 bit integers.
    IntArray,
    /// Vector of NBT tags.
    List,
    /// Table of NBT tags indexed by UTF-8 strings.
    Compound,
}

impl TagType {
    /// The fixed one-byte wire code of each tag type, as a partial map back
    /// from bytes: codes 0 through 11 are recognized, all others are not.
    pub open spec fn spec_from_binary(t: u8) -> Option<TagType> {
        match t {
            0u8 => Some(TagType::End),
            1u8 => Some(TagType::Byte),
            2u8 => Some(TagType::Short),
            3u8 => Some(TagType::Int),
            4u8 => Some(TagType::Long),
            5u8 => Some(TagType::Float),
            6u8 => Some(TagType::Double),
            7u8 => Some(TagType::ByteArray),
            8u8 => Some(TagType::String),
            9u8 => Some(TagType::List),
            10u8 => Some(TagType::Compound),
            11u8 => Some(TagType::IntArray),
            _ => None,
        }
    }

    /// The fixed one-byte wire code of each tag type.
    pub open spec fn spec_to_binary(&self) -> u8 {
        match *self {
            TagType::End => 0u8,
            TagType::Byte => 1u8,
            TagType::Short => 2u8,
            TagType::Int => 3u8,
            TagType::Long => 4u8,
            TagType::Float => 5u8,
            TagType::Double => 6u8,
            TagType::ByteArray => 7u8,
            TagType::String => 8u8,
            TagType::List => 9u8,
            TagType::Compound => 10u8,
            TagType::IntArray => 11u8,
        }
    }

    /// Map a wire code to its tag type; codes outside 0 through 11 are
    /// unrecognized and yield `None`.
    pub fn from_binary(t: u8) -> (r: Option<TagType>)
        ensures
            r == TagType::spec_from_binary(t),
            r is Some <==> t <= 11,
    {
        match t {
            0 => Some(TagType::End),
            1 => Some(TagType::Byte),
            2 => Some(TagType::Short),
            3 => Some(TagType::Int),
            4 => Some(TagType::Long),
            5 => Some(TagType::Float),
            6 => Some(TagType::Double),
            7 => Some(TagType::ByteArray),
            8 => Some(TagType::String),
            9 => Some(TagType::List),
            10 => Some(TagType::Compound),
            11 => Some(TagType::IntArray),
            _ => None,
        }
    }

    /// The wire code of this tag type, always in 0 through 11.
    #[verifier::when_used_as_spec(spec_to_binary)]
    pub fn to_binary(&self) -> (r: u8)
        ensures
            r == self.spec_to_binary(),
            r <= 11,
    {
        match *self {
            TagType::End => 0,
            TagType::Byte => 1,
            TagType::Short => 2,
            TagType::Int => 3,
            TagType::Long => 4,
            TagType::Float => 5,
            TagType::Double => 6,
            TagType::ByteArray => 7,
            TagType::String => 8,
            TagType::List => 9,
            TagType::Compound => 10,
            TagType::IntArray => 11,
        }
    }
}

/// The wire-code mapping is a bijection between the twelve tag types and
/// the byte codes 0 through 11: reading back the written code always
/// recovers the tag type, and every recognized code writes back to itself.
pub proof fn lemma_tag_type_binary_bijective(t: TagType, b: u8)
    ensures
        TagType::spec_from_binary(t.spec_to_binary()) == Some(t),
        TagType::spec_from_binary(b) matches Some(t2) ==> t2.spec_to_binary() == b,
{
}

pub type Result<T> = core::result::Result<T, Error>;

/// The mathematical model of an NBT value: the tree a [`Tag`] denotes, with
/// strings as character sequences and containers as sequences. Compounds are
/// kept in insertion order; [`unique_keys`] states their key invariant.
#[verifier::ext_equal]
pub enum TagModel {
    End,
    Byte(i8),
    Short(i16),
    Int(i32),
    Long(i64),
    Float(u32),
    Double(u64),
    String(Seq<char>),
    ByteArray(Seq<u8>),
    IntArray(Seq<i32>),
    List(TagType, Seq<TagModel>),
    Compound(Seq<(Seq<char>, TagModel)>),
}

impl TagModel {
    /// The tag type a modelled value would report.
    pub open spec fn type_of(self) -> TagType {
        match self {
            TagModel::End => TagType::End,
            TagModel::Byte(_) => TagType::Byte,
            TagModel::Short(_) => TagType::Short,
            TagModel::Int(_) => TagType::Int,
            TagModel::Long(_) => TagType::Long,
            TagModel::Float(_) => TagType::Float,
            TagModel::Double(_) => TagType::Double,
            TagModel::String(_) => TagType::String,
            TagModel::ByteArray(_) => TagType::ByteArray,
            TagModel::IntArray(_) => TagType::IntArray,
            TagModel::List(_, _) => TagType::List,
            TagModel::Compound(_) => TagType::Compound,
        }
    }
}

/// No two entries of a modelled compound share a key.
pub open spec fn unique_keys(s: Seq<(Seq<char>, TagModel)>) -> bool {
    forall|i: int, j: int| 0 <= i < j < s.len() ==> s[i].0 != s[j].0
}

/// The entries of a modelled compound after one more entry is written: a
/// later write to a key replaces the earlier value in place, and a new key
/// goes to the end.
pub open spec fn spec_insert(
    s: Seq<(Seq<char>, TagModel)>,
    k: Seq<char>,
    v: TagModel,
) -> Seq<(Seq<char>, TagModel)>
    decreases s,
{
    if s.len() == 0 {
        seq![(k, v)]
    } else if s[0].0 == k {
        seq![(k, v)] + s.drop_first()
    } else {
        seq![s[0]] + spec_insert(s.drop_first(), k, v)
    }
}

/// Writing to the key of entry `i`, when no earlier entry has that key,
/// replaces that entry in place.
pub proof fn lemma_insert_found(s: Seq<(Seq<char>, TagModel)>, k: Seq<char>, v: TagModel, i: int)
    requires
        0 <= i < s.len(),
        s[i].0 == k,
        forall|j: int| 0 <= j < i ==> (#[trigger] s[j]).0 != k,
    ensures
        spec_insert(s, k, v) =~= s.update(i, (k, v)),
    decreases i,
{
    if i == 0 {
        assert(spec_insert(s, k, v) =~= s.update(0, (k, v)));
    } else {
        assert(s[0].0 != k);
        assert(forall|j: int|
            0 <= j < i - 1 ==> (#[trigger] s.drop_first()[j]) == s[j + 1]);
        lemma_insert_found(s.drop_first(), k, v, i - 1);
        assert(spec_insert(s, k, v) =~= s.update(i, (k, v)));
    }
}

/// The internal representation of a list: a declared element type and the
/// elements. Construction does not enforce that the elements match the
/// declared type; the encoder writes whatever is here, and only trees the
/// decoder builds are homogeneous by construction.
#[derive(Debug, PartialEq)]
pub struct ListData {
    pub element_type: TagType,
    pub elements: Vec<Tag>,
}

/// The internal representation of a compound: string-keyed entries in
/// insertion order. [`CompoundData::insert`] keeps keys unique, with a later
/// write to a key replacing the earlier value in place.
#[derive(Debug, PartialEq)]
pub struct CompoundData {
    pub elements: Vec<(String, Tag)>,
}

impl CompoundData {
    /// An empty compound.
    pub fn new() -> (r: CompoundData)
        ensures
            r@ == Seq::<(Seq<char>, TagModel)>::empty(),
    {
        let r = CompoundData { elements: Vec::new() };
        proof {
            assert(r@ =~= Seq::<(Seq<char>, TagModel)>::empty());
        }
        r
    }

    /// Insert a value under a name. A name already present keeps its place
    /// and takes the new value — the last write wins; a new name goes to
    /// the end. Keys stay unique if they were.
    #[verifier::loop_isolation(false)]
    pub fn insert(&mut self, name: String, value: Tag)
        ensures
            final(self)@ == spec_insert(old(self)@, name@, value@),
    {
        broadcast use lemma_entry_models_of;

        let ghost orig = self@;
        let ghost orig_elems = self.elements@;
        let mut i: usize = 0;
        while i < self.elements.len()
            invariant
                i <= self.elements@.len(),
                *self == *old(self),
                forall|j: int| 0 <= j < i ==> (#[trigger] orig[j]).0 != name@,
            decreases self.elements@.len() - i,
        {
            if self.elements[i].0 == name {
                proof {
                    lemma_entry_models_of(orig_elems);
                    assert(orig[i as int].0 == name@);
                }
                self.elements.remove(i);
                self.elements.insert(i, (name, value));
                proof {
                    assert(self.elements@ =~= orig_elems.update(i as int, (name, value)));
                    assert(self@ =~= orig.update(i as int, (name@, value@)));
                    lemma_insert_found(orig, name@, value@, i as int);
                }
                return ;
            }
            i = i + 1;
        }
        proof {
            assert(forall|j: int| 0 <= j < orig.len() ==> (#[trigger] orig[j]).0 != name@);
        }
        self.elements.push((name, value));
        proof {
            lemma_insert_push(orig, name@, value@);
            assert(self@ =~= orig.push((name@, value@)));
        }
    }
}

/// Inserting a key that a compound does not hold appends the entry.
pub proof fn lemma_insert_push(s: Seq<(Seq<char>, TagModel)>, k: Seq<char>, v: TagModel)
    requires
        forall|i: int| 0 <= i < s.len() ==> (#[trigger] s[i]).0 != k,
    ensures
        spec_insert(s, k, v) =~= s.push((k, v)),
    decreases s.len(),
{
    if s.len() > 0 {
        assert(s[0].0 != k);
        assert(forall|j: int|
            0 <= j < s.drop_first().len() ==> (#[trigger] s.drop_first()[j]) == s[j + 1]);
        lemma_insert_push(s.drop_first(), k, v);
    }
}

/// An NBT value type. Float and Double hold the IEEE-754 bit pattern of
/// their value, so both travel through the codec bit-for-bit.
#[derive(Debug, PartialEq)]
pub enum Tag {
    /// End marker.
    End,
    /// 8 bit signed integer.
    Byte(i8),
    /// 16 bit signed integer.
    Short(i16),
    /// 32 bit signed integer.
    Int(i32),
    /// 64 bit signed integer.
    Long(i64),
    /// IEEE-754 floating point, as its 32-bit pattern.
    Float(u32),
    /// IEEE-754 double precision floating point, as its 64-bit pattern.
    Double(u64),
    /// UTF-8 string.
    String(String),
    /// Vector of unsigned 8 bit integers.
    ByteArray(Vec<u8>),
    /// Vector of signed 32 bit integers.
    IntArray(Vec<i32>),
    /// Vector of NBT tags.
    List(ListData),
    /// Table of NBT tags indexed by UTF-8 strings.
    Compound(CompoundData),
}

/// The models of a sequence of values, element by element.
pub open spec fn models_of(s: Seq<Tag>) -> Seq<TagModel>
    decreases s,
{
    if s.len() == 0 {
        Seq::empty()
    } else {
        seq![s[0].model()] + models_of(s.drop_first())
    }
}

/// The models of a sequence of named values, entry by entry.
pub open spec fn entry_models_of(s: Seq<(String, Tag)>) -> Seq<(Seq<char>, TagModel)>
    decreases s,
{
    if s.len() == 0 {
        Seq::empty()
    } else {
        seq![(s[0].0@, s[0].1.model())] + entry_models_of(s.drop_first())
    }
}

impl Tag {
    /// The tree this value denotes.
    pub open spec fn model(self) -> TagModel
        decreases self,
    {
        match self {
            Tag::End => TagModel::End,
            Tag::Byte(x) => TagModel::Byte(x),
            Tag::Short(x) => TagModel::Short(x),
            Tag::Int(x) => TagModel::Int(x),
            Tag::Long(x) => TagModel::Long(x),
            Tag::Float(x) => TagModel::Float(x),
            Tag::Double(x) => TagModel::Double(x),
            Tag::String(s) => TagModel::String(s@),
            Tag::ByteArray(v) => TagModel::ByteArray(v@),
            Tag::IntArray(v) => TagModel::IntArray(v@),
            Tag::List(l) => TagModel::List(l.element_type, models_of(l.elements@)),
            Tag::Compound(c) => TagModel::Compound(entry_models_of(c.elements@)),
        }
    }

    /// Return the tag's type.
    pub fn get_type(&self) -> (r: TagType)
        ensures
            r == self@.type_of(),
    {
        match *self {
            Tag::End => TagType::End,
            Tag::Byte(_) => TagType::Byte,
            Tag::Short(_) => TagType::Short,
            Tag::Int(_) => TagType::Int,
            Tag::Long(_) => TagType::Long,
            Tag::Float(_) => TagType::Float,
            Tag::Double(_) => TagType::Double,
            Tag::String(_) => TagType::String,
            Tag::ByteArray(_) => TagType::ByteArray,
            Tag::IntArray(_) => TagType::IntArray,
            Tag::List(_) => TagType::List,
            Tag::Compound(_) => TagType::Compound,
        }
    }
}

impl View for Tag {
    type V = TagModel;

    open spec fn view(&self) -> TagModel {
        self.model()
    }
}

impl View for ListData {
    type V = (TagType, Seq<TagModel>);

    open spec fn view(&self) -> (TagType, Seq<TagModel>) {
        (self.element_type, models_of(self.elements@))
    }
}

impl View for CompoundData {
    type V = Seq<(Seq<char>, TagModel)>;

    open spec fn view(&self) -> Seq<(Seq<char>, TagModel)> {
        entry_models_of(self.elements@)
    }
}

/// `models_of` maps element by element: it keeps the length and models
/// each position.
pub broadcast proof fn lemma_models_of(s: Seq<Tag>)
    ensures
        #[trigger] models_of(s).len() == s.len(),
        forall|i: int| 0 <= i < s.len() ==> models_of(s)[i] == s[i].model(),
    decreases s.len(),
{
    if s.len() > 0 {
        lemma_models_of(s.drop_first());
        assert forall|i: int| 0 <= i < s.len() implies models_of(s)[i] == s[i].model() by {
            if i > 0 {
                assert(models_of(s)[i] == models_of(s.drop_first())[i - 1]);
                assert(s.drop_first()[i - 1] == s[i]);
            }
        }
    }
}

/// `entry_models_of` maps entry by entry: it keeps the length and models
/// each name and value.
pub broadcast proof fn lemma_entry_models_of(s: Seq<(String, Tag)>)
    ensures
        #[trigger] entry_models_of(s).len() == s.len(),
        forall|i: int|
            0 <= i < s.len() ==> entry_models_of(s)[i] == (s[i].0@, s[i].1.model()),
    decreases s.len(),
{
    if s.len() > 0 {
        lemma_entry_models_of(s.drop_first());
        assert forall|i: int|
            0 <= i < s.len() implies entry_models_of(s)[i] == (s[i].0@, s[i].1.model()) by {
            if i > 0 {
                assert(entry_models_of(s)[i] == entry_models_of(s.drop_first())[i - 1]);
                assert(s.drop_first()[i - 1] == s[i]);
            }
        }
    }
}

} // verus!
