//! Traits for converting between native values and NBT tags.
//!
//! [`ToNbt`] wraps a native value in the tag variant that fits it, and
//! [`FromNbt`] reads it back, letting smaller integer tags widen into
//! bigger native types.

use vstd::prelude::*;

use crate::types::lemma_models_of;
use crate::types::models_of;
use crate::types::ListData;
use crate::types::Tag;
use crate::types::TagModel;
use crate::types::TagType;

verus! {

broadcast use vstd::std_specs::vec::group_vec_axioms, vstd::seq::group_seq_axioms, lemma_models_of;

/// Trait implementable by types that can be converted to NBT tags.
pub trait ToNbt {
    /// The tree that the conversion builds.
    spec fn spec_to_nbt(&self) -> TagModel;

    /// Encode `self` as an NBT tag.
    fn to_nbt(&self) -> (r: Tag)
        ensures
            r@ == self.spec_to_nbt(),
    ;
}

impl ToNbt for i8 {
    open spec fn spec_to_nbt(&self) -> TagModel {
        TagModel::Byte(*self)
    }

    fn to_nbt(&self) -> (r: Tag) {
        Tag::Byte(*self)
    }
}

impl ToNbt for i16 {
    open spec fn spec_to_nbt(&self) -> TagModel {
        TagModel::Short(*self)
    }

    fn to_nbt(&self) -> (r: Tag) {
        Tag::Short(*self)
    }
}

impl ToNbt for i32 {
    open spec fn spec_to_nbt(&self) -> TagModel {
        TagModel::Int(*self)
    }

    fn to_nbt(&self) -> (r: Tag) {
        Tag::Int(*self)
    }
}

impl ToNbt for i64 {
    open spec fn spec_to_nbt(&self) -> TagModel {
        TagModel::Long(*self)
    }

    fn to_nbt(&self) -> (r: Tag) {
        Tag::Long(*self)
    }
}

impl ToNbt for String {
    open spec fn spec_to_nbt(&self) -> TagModel {
        TagModel::String(self@)
    }

    fn to_nbt(&self) -> (r: Tag) {
        Tag::String(self.clone())
    }
}

/// The models of the slice elements whose tag type equals `et`, in order.
pub open spec fn spec_matching_models<T: ToNbt>(s: Seq<T>, et: TagType) -> Seq<TagModel>
    decreases s.len(),
{
    if s.len() == 0 {
        Seq::empty()
    } else if s[0].spec_to_nbt().type_of() == et {
        seq![s[0].spec_to_nbt()] + spec_matching_models(s.drop_first(), et)
    } else {
        spec_matching_models(s.drop_first(), et)
    }
}

/// Appending an element appends its model when its type matches, and
/// changes nothing when it does not.
proof fn lemma_matching_models_push<T: ToNbt>(s: Seq<T>, x: T, et: TagType)
    ensures
        x.spec_to_nbt().type_of() == et ==> spec_matching_models(s.push(x), et)
            == spec_matching_models(s, et).push(x.spec_to_nbt()),
        x.spec_to_nbt().type_of() != et ==> spec_matching_models(s.push(x), et)
            == spec_matching_models(s, et),
    decreases s.len(),
{
    if s.len() == 0 {
        let p = s.push(x);
        assert(p.len() == 1);
        assert(p[0] == x);
        assert(p.drop_first() =~= Seq::<T>::empty());
        assert(spec_matching_models(p.drop_first(), et) == Seq::<TagModel>::empty());
        assert(spec_matching_models(s, et) == Seq::<TagModel>::empty());
        if x.spec_to_nbt().type_of() == et {
            assert(spec_matching_models(p, et) == seq![x.spec_to_nbt()] + spec_matching_models(
                p.drop_first(),
                et,
            ));
            assert(spec_matching_models(p, et) =~= spec_matching_models(s, et).push(
                x.spec_to_nbt(),
            ));
        } else {
            assert(spec_matching_models(p, et) == spec_matching_models(p.drop_first(), et));
            assert(spec_matching_models(p, et) =~= spec_matching_models(s, et));
        }
    } else {
        assert(s.push(x)[0] == s[0]);
        assert(s.push(x).drop_first() =~= s.drop_first().push(x));
        lemma_matching_models_push(s.drop_first(), x, et);
        if x.spec_to_nbt().type_of() == et {
            assert(spec_matching_models(s.push(x), et) =~= spec_matching_models(s, et).push(
                x.spec_to_nbt(),
            ));
        } else {
            assert(spec_matching_models(s.push(x), et) =~= spec_matching_models(s, et));
        }
    }
}

impl<T: ToNbt> ToNbt for [T] {
    /// An empty slice becomes an empty Byte list; otherwise the list takes
    /// the first element's tag type, and keeps, in order, exactly the
    /// elements whose tag type matches it — the others are dropped.
    open spec fn spec_to_nbt(&self) -> TagModel {
        if self@.len() == 0 {
            TagModel::List(TagType::Byte, Seq::empty())
        } else {
            TagModel::List(
                self@[0].spec_to_nbt().type_of(),
                spec_matching_models(self@, self@[0].spec_to_nbt().type_of()),
            )
        }
    }

    #[verifier::loop_isolation(false)]
    fn to_nbt(&self) -> (r: Tag) {
        if self.len() == 0 {
            let r = Tag::List(ListData { element_type: TagType::Byte, elements: Vec::new() });
            proof {
                assert(models_of(Seq::<Tag>::empty()) =~= Seq::<TagModel>::empty());
            }
            return r;
        }
        let first = self[0].to_nbt();
        let et = first.get_type();
        let mut elems: Vec<Tag> = Vec::new();
        elems.push(first);
        proof {
            let t1 = self@.take(1);
            assert(t1.len() == 1);
            assert(t1.drop_first() =~= Seq::<T>::empty());
            assert(t1[0] == self@[0]);
            assert(spec_matching_models(t1.drop_first(), et) == Seq::<TagModel>::empty());
            assert(spec_matching_models(t1, et) == seq![self@[0].spec_to_nbt()]
                + spec_matching_models(t1.drop_first(), et));
            assert(elems@.len() == 1);
            assert(elems@[0] == first);
            assert(models_of(elems@) =~= spec_matching_models(t1, et));
        }
        let mut i: usize = 1;
        while i < self.len()
            invariant
                1 <= i <= self@.len(),
                et == self@[0].spec_to_nbt().type_of(),
                models_of(elems@) == spec_matching_models(self@.take(i as int), et),
            decreases self@.len() - i,
        {
            let t = self[i].to_nbt();
            let ghost before = elems@;
            if t.get_type() == et {
                elems.push(t);
                proof {
                    assert(models_of(elems@) =~= models_of(before).push(t@));
                }
            }
            proof {
                assert(self@.take(i + 1 as int) =~= self@.take(i as int).push(self@[i as int]));
                lemma_matching_models_push(self@.take(i as int), self@[i as int], et);
            }
            i = i + 1;
        }
        proof {
            assert(self@.take(self@.len() as int) =~= self@);
        }
        Tag::List(ListData { element_type: et, elements: elems })
    }
}

/// Trait implementable by types that can be converted from NBT tags.
pub trait FromNbt: Sized {
    /// True of the trees the conversion accepts.
    spec fn convertible(v: TagModel) -> bool;

    /// True when `r` is what the conversion reads out of the tree `v`.
    spec fn from_spec(v: TagModel, r: Self) -> bool;

    /// Read a value out of an NBT tag, if the tag's shape fits.
    fn from_nbt(val: &Tag) -> (r: Option<Self>)
        ensures
            r is Some <==> Self::convertible(val@),
            r matches Some(x) ==> Self::from_spec(val@, x),
    ;
}

impl FromNbt for i8 {
    open spec fn convertible(v: TagModel) -> bool {
        v is Byte
    }

    open spec fn from_spec(v: TagModel, r: i8) -> bool {
        v == TagModel::Byte(r)
    }

    fn from_nbt(val: &Tag) -> (r: Option<i8>) {
        match *val {
            Tag::Byte(x) => Some(x),
            _ => None,
        }
    }
}

impl FromNbt for i16 {
    open spec fn convertible(v: TagModel) -> bool {
        v is Byte || v is Short
    }

    open spec fn from_spec(v: TagModel, r: i16) -> bool {
        match v {
            TagModel::Byte(x) => r == x as i16,
            TagModel::Short(x) => r == x,
            _ => false,
        }
    }

    fn from_nbt(val: &Tag) -> (r: Option<i16>) {
        match *val {
            Tag::Byte(x) => Some(x as i16),
            Tag::Short(x) => Some(x),
            _ => None,
        }
    }
}

impl FromNbt for i32 {
    open spec fn convertible(v: TagModel) -> bool {
        v is Byte || v is Short || v is Int
    }

    open spec fn from_spec(v: TagModel, r: i32) -> bool {
        match v {
            TagModel::Byte(x) => r == x as i32,
            TagModel::Short(x) => r == x as i32,
            TagModel::Int(x) => r == x,
            _ => false,
        }
    }

    fn from_nbt(val: &Tag) -> (r: Option<i32>) {
        match *val {
            Tag::Byte(x) => Some(x as i32),
            Tag::Short(x) => Some(x as i32),
            Tag::Int(x) => Some(x),
            _ => None,
        }
    }
}

impl FromNbt for i64 {
    open spec fn convertible(v: TagModel) -> bool {
        v is Byte || v is Short || v is Int || v is Long
    }

    open spec fn from_spec(v: TagModel, r: i64) -> bool {
        match v {
            TagModel::Byte(x) => r == x as i64,
            TagModel::Short(x) => r == x as i64,
            TagModel::Int(x) => r == x as i64,
            TagModel::Long(x) => r == x,
            _ => false,
        }
    }

    fn from_nbt(val: &Tag) -> (r: Option<i64>) {
        match *val {
            Tag::Byte(x) => Some(x as i64),
            Tag::Short(x) => Some(x as i64),
            Tag::Int(x) => Some(x as i64),
            Tag::Long(x) => Some(x),
            _ => None,
        }
    }
}

impl FromNbt for String {
    open spec fn convertible(v: TagModel) -> bool {
        v is String
    }

    open spec fn from_spec(v: TagModel, r: String) -> bool {
        v == TagModel::String(r@)
    }

    fn from_nbt(val: &Tag) -> (r: Option<String>) {
        match val {
            Tag::String(s) => Some(s.clone()),
            _ => None,
        }
    }
}

} // verus!
