//! Helper traits and types: fallible indexing, and wrappers that turn
//! borrowed slices into array tags.

use vstd::prelude::*;
use vstd::slice::slice_to_vec;

use crate::strings::str_eq;
use crate::traits::ToNbt;
use crate::types::CompoundData;
use crate::types::ListData;
use crate::types::Tag;
use crate::types::TagModel;

verus! {

broadcast use vstd::std_specs::vec::group_vec_axioms, vstd::seq::group_seq_axioms;

/// Index trait for index operations where a result may not be available.
pub trait IndexOpt<Idx> {
    type Output;

    /// The value that indexing would find, if any.
    spec fn spec_index_opt(&self, i: Idx) -> Option<Self::Output>;

    /// Look the index up, returning the value found, if any.
    fn index_opt(&self, i: Idx) -> (r: Option<&Self::Output>)
        ensures
            match r {
                Some(x) => self.spec_index_opt(i) == Some(*x),
                None => self.spec_index_opt(i) is None,
            },
    ;
}

impl IndexOpt<usize> for ListData {
    type Output = Tag;

    open spec fn spec_index_opt(&self, i: usize) -> Option<Tag> {
        if i < self.elements@.len() {
            Some(self.elements@[i as int])
        } else {
            None
        }
    }

    fn index_opt(&self, i: usize) -> (r: Option<&Tag>) {
        if i >= self.elements.len() {
            None
        } else {
            Some(&self.elements[i])
        }
    }
}

/// The first entry with the given key, if any.
pub open spec fn spec_entry_lookup(s: Seq<(String, Tag)>, k: Seq<char>) -> Option<Tag>
    decreases s.len(),
{
    if s.len() == 0 {
        None
    } else if s[0].0@ == k {
        Some(s[0].1)
    } else {
        spec_entry_lookup(s.drop_first(), k)
    }
}

impl<'a> IndexOpt<&'a str> for CompoundData {
    type Output = Tag;

    open spec fn spec_index_opt(&self, i: &'a str) -> Option<Tag> {
        spec_entry_lookup(self.elements@, i@)
    }

    #[verifier::loop_isolation(false)]
    fn index_opt(&self, i: &'a str) -> (r: Option<&Tag>) {
        let mut j: usize = 0;
        proof {
            assert(self.elements@.skip(0) =~= self.elements@);
        }
        while j < self.elements.len()
            invariant
                j <= self.elements@.len(),
                spec_entry_lookup(self.elements@, i@) == spec_entry_lookup(
                    self.elements@.skip(j as int),
                    i@,
                ),
            decreases self.elements@.len() - j,
        {
            let ghost before = self.elements@.skip(j as int);
            proof {
                assert(before[0] == self.elements@[j as int]);
                assert(before.drop_first() =~= self.elements@.skip(j + 1 as int));
            }
            if str_eq(self.elements[j].0.as_str(), i) {
                return Some(&self.elements[j].1);
            }
            j = j + 1;
        }
        proof {
            assert(self.elements@.skip(self.elements@.len() as int) =~= Seq::<(String, Tag)>::empty());
        }
        None
    }
}

/// Index trait for mutable index operations where a result may not be
/// available.
pub trait IndexOptMut<Idx>: IndexOpt<Idx> {
    /// Look the index up, returning the value found for mutation, if any —
    /// exactly when its read-only counterpart would find one.
    fn index_opt_mut(&mut self, i: Idx) -> (r: Option<&mut Self::Output>)
        ensures
            r is Some <==> old(self).spec_index_opt(i) is Some,
    ;
}

impl IndexOptMut<usize> for ListData {
    fn index_opt_mut(&mut self, i: usize) -> (r: Option<&mut Tag>) {
        if i >= self.elements.len() {
            None
        } else {
            Some(vstd::std_specs::vec::vec_index_mut(&mut self.elements, i))
        }
    }
}

/// A key is looked up successfully exactly when some entry holds it.
proof fn lemma_entry_lookup_exists(s: Seq<(String, Tag)>, k: Seq<char>)
    ensures
        spec_entry_lookup(s, k) is Some <==> exists|j: int|
            0 <= j < s.len() && (#[trigger] s[j]).0@ == k,
    decreases s.len(),
{
    if s.len() > 0 {
        lemma_entry_lookup_exists(s.drop_first(), k);
        if s[0].0@ != k {
            assert(forall|j: int|
                0 <= j < s.drop_first().len() ==> #[trigger] s.drop_first()[j] == s[j + 1]);
            if exists|j: int| 0 <= j < s.len() && (#[trigger] s[j]).0@ == k {
                let j = choose|j: int| 0 <= j < s.len() && (#[trigger] s[j]).0@ == k;
                assert(j > 0);
                assert(s.drop_first()[j - 1].0@ == k);
            }
            if spec_entry_lookup(s.drop_first(), k) is Some {
                let j = choose|j: int|
                    0 <= j < s.drop_first().len() && (#[trigger] s.drop_first()[j]).0@ == k;
                assert(s[j + 1].0@ == k);
            }
        }
    }
}

impl<'a> IndexOptMut<&'a str> for CompoundData {
    #[verifier::loop_isolation(false)]
    fn index_opt_mut(&mut self, i: &'a str) -> (r: Option<&mut Tag>) {
        let mut j: usize = 0;
        let mut found: Option<usize> = None;
        while j < self.elements.len()
            invariant
                j <= self.elements@.len(),
                *self == *old(self),
                match found {
                    Some(k) => k < self.elements@.len() && self.elements@[k as int].0@ == i@,
                    None => forall|m: int| 0 <= m < j ==> self.elements@[m].0@ != i@,
                },
            decreases self.elements@.len() - j,
        {
            if str_eq(self.elements[j].0.as_str(), i) {
                found = Some(j);
            }
            j = j + 1;
        }
        proof {
            lemma_entry_lookup_exists(self.elements@, i@);
        }
        match found {
            Some(k) => Some(&mut vstd::std_specs::vec::vec_index_mut(&mut self.elements, k).1),
            None => None,
        }
    }
}

/// Wrapper type for generating byte array tags from a borrowed slice.
pub struct ByteArrayWrapper<'a> {
    data: &'a [u8],
}

impl<'a> View for ByteArrayWrapper<'a> {
    type V = Seq<u8>;

    closed spec fn view(&self) -> Seq<u8> {
        self.data@
    }
}

impl<'a> ByteArrayWrapper<'a> {
    /// Wrap a borrowed byte slice.
    pub fn new(d: &'a [u8]) -> (r: ByteArrayWrapper<'a>)
        ensures
            r@ == d@,
    {
        ByteArrayWrapper { data: d }
    }
}

impl<'a> ToNbt for ByteArrayWrapper<'a> {
    open spec fn spec_to_nbt(&self) -> TagModel {
        TagModel::ByteArray(self@)
    }

    fn to_nbt(&self) -> (r: Tag) {
        Tag::ByteArray(slice_to_vec(self.data))
    }
}

/// Wrapper type for generating int array tags from a borrowed slice.
pub struct IntArrayWrapper<'a> {
    data: &'a [i32],
}

impl<'a> View for IntArrayWrapper<'a> {
    type V = Seq<i32>;

    closed spec fn view(&self) -> Seq<i32> {
        self.data@
    }
}

impl<'a> IntArrayWrapper<'a> {
    /// Wrap a borrowed slice of 32-bit integers.
    pub fn new(d: &'a [i32]) -> (r: IntArrayWrapper<'a>)
        ensures
            r@ == d@,
    {
        IntArrayWrapper { data: d }
    }
}

impl<'a> ToNbt for IntArrayWrapper<'a> {
    open spec fn spec_to_nbt(&self) -> TagModel {
        TagModel::IntArray(self@)
    }

    fn to_nbt(&self) -> (r: Tag) {
        Tag::IntArray(slice_to_vec(self.data))
    }
}

} // verus!
