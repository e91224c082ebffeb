//! The contact pipeline: shape table and contact reduction.
//!
//! The pipeline owns one entry per collidable shape — its owning link, its
//! converted descriptor and its collision-group mask — and the pairwise
//! contact report of the last broad/narrow-phase pass. The geometric pass
//! itself runs outside, on the physics side; `update` applies its outcome,
//! and `has_collision` reduces the stored report under the group filter:
//! a pair counts only if each shape's membership bit is present in the
//! other's filter.

use crate::geometry::ShapeDescriptor;
use crate::groups::CollisionGroupMask;
use crate::groups::pair_allowed;
use vstd::prelude::*;

verus! {

/// One collidable shape registered with the pipeline.
#[derive(Clone, Copy, Debug, PartialEq, Eq, Structural)]
pub struct PipelineShape {
    /// Index of the owning link.
    pub link: usize,
    /// The converted primitive and its placement in the link's frame.
    pub descriptor: ShapeDescriptor,
    /// The owning link's collision-group mask.
    pub groups: CollisionGroupMask,
}

/// The pairs of a raw contact report whose handles name existing shapes;
/// the rest are dropped.
pub open spec fn spec_valid_pairs(pairs: Seq<(usize, usize)>, shape_count: int) -> Seq<
    (usize, usize),
>
    decreases pairs.len(),
{
    if pairs.len() == 0 {
        Seq::empty()
    } else {
        spec_valid_pairs(pairs.drop_last(), shape_count) + if pairs.last().0 < shape_count
            && pairs.last().1 < shape_count {
            seq![pairs.last()]
        } else {
            Seq::empty()
        }
    }
}

/// Shape table plus the contact report of the last pass.
pub struct SimpleCollisionPipeline {
    /// All registered shapes; a shape's handle is its index here.
    pub shapes: Vec<PipelineShape>,
    /// Contact pairs, as shape handles, reported by the last pass.
    pub contacts: Vec<(usize, usize)>,
}

impl SimpleCollisionPipeline {
    /// Every stored contact pair names existing shapes.
    pub open spec fn wf(self) -> bool {
        forall|k: int|
            0 <= k < self.contacts@.len() ==> (#[trigger] self.contacts@[k]).0
                < self.shapes@.len() && self.contacts@[k].1 < self.shapes@.len()
    }

    /// Some stored contact pair passes the group filter in both directions.
    pub open spec fn spec_any_active(self) -> bool {
        exists|k: int|
            0 <= k < self.contacts@.len() && pair_allowed(
                self.shapes@[(#[trigger] self.contacts@[k]).0 as int].groups,
                self.shapes@[self.contacts@[k].1 as int].groups,
            )
    }

    /// An empty pipeline: no shapes, no contacts.
    pub fn new() -> (p: SimpleCollisionPipeline)
        ensures
            p.wf(),
            p.shapes@.len() == 0,
            p.contacts@.len() == 0,
    {
        SimpleCollisionPipeline { shapes: Vec::new(), contacts: Vec::new() }
    }

    /// Registers one shape and returns its handle. The stored report keeps
    /// its meaning: handles only ever grow into range.
    pub fn insert(&mut self, shape: PipelineShape) -> (h: usize)
        requires
            old(self).wf(),
        ensures
            final(self).wf(),
            h == old(self).shapes@.len(),
            final(self).shapes@ == old(self).shapes@.push(shape),
            final(self).contacts@ == old(self).contacts@,
    {
        let h = self.shapes.len();
        self.shapes.push(shape);
        h
    }

    /// Applies the outcome of one broad/narrow-phase pass: the raw contact
    /// pairs, as shape handles. Pairs naming unknown handles are dropped;
    /// the shape table is untouched.
    pub fn update(&mut self, pairs: &Vec<(usize, usize)>)
        ensures
            final(self).wf(),
            final(self).shapes@ == old(self).shapes@,
            final(self).contacts@ == spec_valid_pairs(pairs@, old(self).shapes@.len() as int),
    {
        let n = pairs.len();
        let ghost shape_count = self.shapes@.len() as int;
        let mut kept: Vec<(usize, usize)> = Vec::new();
        let mut k: usize = 0;
        while k < n
            invariant
                k <= n,
                n == pairs@.len(),
                *self == *old(self),
                shape_count == self.shapes@.len() as int,
                kept@ == spec_valid_pairs(pairs@.take(k as int), shape_count),
                forall|t: int|
                    0 <= t < kept@.len() ==> (#[trigger] kept@[t]).0 < shape_count && kept@[t].1
                        < shape_count,
            decreases n - k,
        {
            let ghost prefix = pairs@.take(k as int);
            let ghost next = pairs@.take(k as int + 1);
            assert(next.drop_last() =~= prefix);
            assert(next.last() == pairs@[k as int]);
            let (a, b) = pairs[k];
            if a < self.shapes.len() && b < self.shapes.len() {
                kept.push((a, b));
            }
            assert(kept@ =~= spec_valid_pairs(next, shape_count));
            k += 1;
        }
        assert(pairs@.take(n as int) =~= pairs@);
        self.contacts = kept;
    }

    /// True exactly when some reported pair's masks mutually permit
    /// collision: the OR, over the stored report, of the group filter.
    pub fn has_collision(&self) -> (b: bool)
        requires
            self.wf(),
        ensures
            b == self.spec_any_active(),
    {
        let n = self.contacts.len();
        let mut k: usize = 0;
        while k < n
            invariant
                k <= n,
                n == self.contacts@.len(),
                self.wf(),
                forall|t: int|
                    0 <= t < k ==> !pair_allowed(
                        self.shapes@[(#[trigger] self.contacts@[t]).0 as int].groups,
                        self.shapes@[self.contacts@[t].1 as int].groups,
                    ),
            decreases n - k,
        {
            let (a, b) = self.contacts[k];
            let ga = self.shapes[a].groups;
            let gb = self.shapes[b].groups;
            if (ga.memberships & gb.filter != 0) && (gb.memberships & ga.filter != 0) {
                return true;
            }
            k += 1;
        }
        false
    }
}

} // verus!
