//! The vector that indent guides are collected in.
//!
//! The guides are kept in a `SmallVec`, so that the few guides of an ordinary
//! window need no allocation. The verifier does not look into that vector. It
//! knows it by [`guide_seq`], the sequence of guides it holds, and by the
//! `guides_*` functions below, each of which hands one call on to `smallvec`
//! and states what that call does to the sequence. Those statements are taken
//! from the source of `smallvec`; they are believed, not proved.

use crate::indent_guides::IndentGuideLayout;
use smallvec::SmallVec;
use vstd::prelude::*;

verus! {

/// A growable vector of indent guides with inline room for sixteen.
///
/// Its view is the sequence of the guides it holds.
#[verifier::external_body]
pub struct GuideVec {
    inner: SmallVec<[IndentGuideLayout; 16]>,
}

/// The guides a vector holds, from the first to the last.
pub uninterp spec fn guide_seq(v: GuideVec) -> Seq<IndentGuideLayout>;

/// `SmallVec::new`: the vector it makes holds nothing.
#[verifier::external_body]
pub(crate) fn guides_new() -> (v: GuideVec)
    ensures
        guide_seq(v) == Seq::<IndentGuideLayout>::empty(),
{
    GuideVec { inner: SmallVec::new() }
}

/// `SmallVec::len`: the number of guides held.
#[verifier::external_body]
pub(crate) fn guides_len(v: &GuideVec) -> (n: usize)
    ensures
        n == guide_seq(*v).len(),
{
    v.inner.len()
}

/// `SmallVec::push`: the guide is appended behind the others. Like
/// `Vec::push` the call can fail only for want of memory: the vector would
/// outgrow the address space before its capacity could overflow.
#[verifier::external_body]
pub(crate) fn guides_push(v: &mut GuideVec, guide: IndentGuideLayout)
    ensures
        guide_seq(*final(v)) == guide_seq(*old(v)).push(guide),
{
    v.inner.push(guide)
}

/// `SmallVec::pop`: the last guide leaves the vector and is returned; an empty
/// vector stays as it is and gives `None`.
#[verifier::external_body]
pub(crate) fn guides_pop(v: &mut GuideVec) -> (last: Option<IndentGuideLayout>)
    ensures
        match last {
            Some(guide) => guide_seq(*old(v)).len() > 0 && guide == guide_seq(*old(v)).last()
                && guide_seq(*final(v)) == guide_seq(*old(v)).drop_last(),
            None => guide_seq(*old(v)).len() == 0 && guide_seq(*final(v)) == guide_seq(*old(v)),
        },
{
    v.inner.pop()
}

/// `Index::index` with a `usize`: the guide at `index`. The call panics where
/// `index` is out of range, which `requires` leaves out.
#[verifier::external_body]
pub(crate) fn guides_index(v: &GuideVec, index: usize) -> (guide: IndentGuideLayout)
    requires
        index < guide_seq(*v).len(),
    ensures
        guide == guide_seq(*v)[index as int],
{
    v.inner[index]
}

/// `IndexMut::index_mut` with a `usize`: a mutable borrow of the guide at
/// `index`. What is written through it replaces that guide and no other. The
/// call panics where `index` is out of range, which `requires` leaves out.
#[verifier::external_body]
pub(crate) fn guides_index_mut(v: &mut GuideVec, index: usize) -> (guide: &mut IndentGuideLayout)
    requires
        index < guide_seq(*old(v)).len(),
    ensures
        *guide == guide_seq(*old(v))[index as int],
        guide_seq(*final(v)) == guide_seq(*old(v)).update(index as int, *final(guide)),
{
    &mut v.inner[index]
}

/// `Extend::extend` with another vector: its guides are appended, in their
/// order, behind those already held. As with `guides_push`, only want of
/// memory can make the call fail.
#[verifier::external_body]
pub(crate) fn guides_extend(v: &mut GuideVec, more: GuideVec)
    ensures
        guide_seq(*final(v)) == guide_seq(*old(v)) + guide_seq(more),
{
    v.inner.extend(more.inner)
}

impl View for GuideVec {
    type V = Seq<IndentGuideLayout>;

    open spec fn view(&self) -> Seq<IndentGuideLayout> {
        guide_seq(*self)
    }
}

impl GuideVec {
    /// Moves the guides into a `Vec`, in their order.
    pub fn into_vec(self) -> (guides: Vec<IndentGuideLayout>)
        ensures
            guides@ == self@,
    {
        let count = guides_len(&self);
        let mut guides: Vec<IndentGuideLayout> = Vec::new();
        let mut i: usize = 0;
        while i < count
            invariant
                i <= count == self@.len(),
                guides@ == self@.take(i as int),
            decreases count - i,
        {
            guides.push(guides_index(&self, i));
            assert(self@.take(i + 1) =~= self@.take(i as int).push(self@[i as int]));
            i += 1;
        }
        assert(self@.take(count as int) =~= self@);
        guides
    }
}

} // verus!
