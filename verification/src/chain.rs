//! The kinematic chain: joint bookkeeping for the collision model.
//!
//! The chain holds the settable joints (movable, non-mimic) in traversal
//! order with their declared limits, and the mimic joints whose positions
//! are derived from a settable source joint. Joint values are fixed-point
//! integers in millionths of a radian or metre.
//!
//! Writing a joint vector is all or nothing: the vector is validated in
//! full — length, then every limit — before anything is stored, so a
//! rejected call leaves the chain exactly as it was. A successful write
//! leaves the chain dirty; refreshing it derives the mimic positions and
//! marks it fresh. World transforms are the business of the surrounding
//! application: the chain validates and stages, it does not do
//! floating-point forward kinematics.

use vstd::prelude::*;

verus! {

/// A declared `[lower, upper]` joint limit, fixed point.
#[derive(Clone, Copy, Debug, PartialEq, Eq, Structural)]
pub struct JointLimit {
    pub lower: i64,
    pub upper: i64,
}

/// One settable joint: its name and its declared limit, if any.
#[derive(Clone, Debug)]
pub struct ChainJoint {
    pub name: String,
    pub limit: Option<JointLimit>,
}

/// One mimic joint: its position is `multiplier * source / 1_000_000 +
/// offset`, computed from the source joint's position, saturating at the
/// fixed-point range.
#[derive(Clone, Debug)]
pub struct MimicJoint {
    pub name: String,
    /// Index of the source joint in the chain's settable joint list.
    pub source: usize,
    /// Fixed-point factor, in millionths.
    pub multiplier: i64,
    /// Fixed-point offset.
    pub offset: i64,
}

/// `value` lies outside the joint's declared limit.
pub open spec fn violates(j: ChainJoint, value: i64) -> bool {
    match j.limit {
        Some(l) => value < l.lower || value > l.upper,
        None => false,
    }
}

/// Magnitude of an integer.
pub open spec fn iabs(x: int) -> int {
    if x < 0 {
        -x
    } else {
        x
    }
}

/// `x` clamped to the `i64` range.
pub open spec fn clamp_i64(x: int) -> i64 {
    if x > i64::MAX {
        i64::MAX
    } else if x < i64::MIN {
        i64::MIN
    } else {
        x as i64
    }
}

/// The fixed-point product `multiplier * source / 1_000_000`, rounded
/// toward zero: magnitudes are multiplied and scaled back, the sign comes
/// from the operands.
pub open spec fn spec_scaled(multiplier: i64, source: i64) -> int {
    let q = (iabs(multiplier as int) * iabs(source as int)) / 1000000;
    if (multiplier < 0) != (source < 0) {
        -q
    } else {
        q
    }
}

/// The derived position of a mimic joint, saturating at the fixed-point
/// range.
pub open spec fn spec_mimic_position(m: MimicJoint, source_value: i64) -> i64 {
    clamp_i64(spec_scaled(m.multiplier, source_value) + m.offset)
}

/// The kinematic chain state.
pub struct KinematicChain {
    /// Settable joints, in traversal order.
    pub joints: Vec<ChainJoint>,
    /// Mimic joints; their positions are derived, never set.
    pub mimics: Vec<MimicJoint>,
    /// Current position of each settable joint.
    pub positions: Vec<i64>,
    /// Derived position of each mimic joint, as of the last refresh.
    pub mimic_positions: Vec<i64>,
    /// False from a successful write until the next refresh.
    pub fresh: bool,
}

impl KinematicChain {
    /// Well-formedness: positions run parallel to joints, and every mimic
    /// names an existing settable source.
    pub open spec fn wf(self) -> bool {
        &&& self.positions@.len() == self.joints@.len()
        &&& self.mimic_positions@.len() == self.mimics@.len()
        &&& forall|m: int|
            0 <= m < self.mimics@.len() ==> (#[trigger] self.mimics@[m]).source
                < self.joints@.len()
    }

    /// A fresh chain over the given joints, all positions zero, already
    /// refreshed.
    pub fn new(joints: Vec<ChainJoint>, mimics: Vec<MimicJoint>) -> (c: KinematicChain)
        requires
            forall|m: int| 0 <= m < mimics@.len() ==> (#[trigger] mimics@[m]).source < joints@.len(),
        ensures
            c.wf(),
            c.joints@ == joints@,
            c.mimics@ == mimics@,
            c.positions@ =~= Seq::new(joints@.len(), |k: int| 0i64),
            c.fresh,
    {
        let mut positions: Vec<i64> = Vec::new();
        let n = joints.len();
        let mut k: usize = 0;
        while k < n
            invariant
                k <= n,
                positions@.len() == k,
                forall|t: int| 0 <= t < k ==> positions@[t] == 0i64,
            decreases n - k,
        {
            positions.push(0);
            k += 1;
        }
        let mut mimic_positions: Vec<i64> = Vec::new();
        let mn = mimics.len();
        let mut t: usize = 0;
        while t < mn
            invariant
                t <= mn,
                mimic_positions@.len() == t,
            decreases mn - t,
        {
            mimic_positions.push(0);
            t += 1;
        }
        let c = KinematicChain { joints, mimics, positions, mimic_positions, fresh: true };
        proof {
            assert(c.positions@ =~= Seq::new(c.joints@.len(), |k: int| 0i64));
        }
        c
    }

    /// Number of values a joint vector must supply.
    pub fn dof(&self) -> (n: usize)
        ensures
            n == self.joints@.len(),
    {
        self.joints.len()
    }

    /// Validates and stores a joint vector, all or nothing.
    ///
    /// The vector must hold one value per settable joint, in traversal
    /// order; each value is checked against the joint's declared limit. The
    /// first out-of-range joint fails the whole call with its name, and a
    /// rejected call leaves the chain untouched. A successful call stores
    /// the vector exactly — no clamping — and marks the chain dirty.
    pub fn set_joint_positions(&mut self, values: &Vec<i64>) -> (r: Result<
        (),
        crate::errors::JointError,
    >)
        requires
            old(self).wf(),
        ensures
            final(self).wf(),
            final(self).joints@ == old(self).joints@,
            final(self).mimics@ == old(self).mimics@,
            final(self).mimic_positions@ == old(self).mimic_positions@,
            match r {
                Ok(()) => {
                    &&& values@.len() == old(self).joints@.len()
                    &&& forall|k: int|
                        0 <= k < values@.len() ==> !violates(old(self).joints@[k], values@[k])
                    &&& final(self).positions@ == values@
                    &&& !final(self).fresh
                },
                Err(crate::errors::JointError::SizeMismatch) => {
                    &&& values@.len() != old(self).joints@.len()
                    &&& *final(self) == *old(self)
                },
                Err(crate::errors::JointError::OutOfLimit { joint_name }) => {
                    &&& values@.len() == old(self).joints@.len()
                    &&& exists|f: int|
                        {
                            &&& 0 <= f < values@.len()
                            &&& violates(#[trigger] old(self).joints@[f], values@[f])
                            &&& joint_name@ == old(self).joints@[f].name@
                            &&& forall|t: int|
                                0 <= t < f ==> !violates(
                                    #[trigger] old(self).joints@[t],
                                    values@[t],
                                )
                        }
                    &&& *final(self) == *old(self)
                },
            },
    {
        if values.len() != self.joints.len() {
            return Err(crate::errors::JointError::SizeMismatch);
        }
        let n = values.len();
        let mut k: usize = 0;
        while k < n
            invariant
                k <= n,
                n == values@.len(),
                n == self.joints@.len(),
                *self == *old(self),
                self.wf(),
                forall|t: int| 0 <= t < k ==> !violates(#[trigger] self.joints@[t], values@[t]),
            decreases n - k,
        {
            let v = values[k];
            match &self.joints[k].limit {
                Some(l) => {
                    if v < l.lower || v > l.upper {
                        return Err(
                            crate::errors::JointError::OutOfLimit {
                                joint_name: self.joints[k].name.clone(),
                            },
                        );
                    }
                },
                None => {},
            }
            k += 1;
        }
        let mut fresh_positions: Vec<i64> = Vec::new();
        let mut t: usize = 0;
        while t < n
            invariant
                t <= n,
                n == values@.len(),
                fresh_positions@.len() == t,
                forall|s: int| 0 <= s < t ==> fresh_positions@[s] == values@[s],
            decreases n - t,
        {
            fresh_positions.push(values[t]);
            t += 1;
        }
        self.positions = fresh_positions;
        self.fresh = false;
        proof {
            assert(self.positions@ =~= values@);
        }
        Ok(())
    }

    /// Derives every mimic joint's position from its source and marks the
    /// chain fresh. Idempotent: a second refresh changes nothing.
    pub fn refresh(&mut self)
        requires
            old(self).wf(),
        ensures
            final(self).wf(),
            final(self).joints@ == old(self).joints@,
            final(self).mimics@ == old(self).mimics@,
            final(self).positions@ == old(self).positions@,
            final(self).fresh,
            final(self).mimic_positions@.len() == old(self).mimics@.len(),
            forall|m: int|
                0 <= m < old(self).mimics@.len() ==> final(self).mimic_positions@[m]
                    == spec_mimic_position(
                    #[trigger] old(self).mimics@[m],
                    old(self).positions@[old(self).mimics@[m].source as int],
                ),
    {
        let mn = self.mimics.len();
        let mut derived: Vec<i64> = Vec::new();
        let mut m: usize = 0;
        while m < mn
            invariant
                m <= mn,
                self.wf(),
                mn == self.mimics@.len(),
                derived@.len() == m,
                forall|t: int|
                    0 <= t < m ==> derived@[t] == spec_mimic_position(
                        #[trigger] self.mimics@[t],
                        self.positions@[self.mimics@[t].source as int],
                    ),
            decreases mn - m,
        {
            let mj = &self.mimics[m];
            let source_value = self.positions[mj.source];
            derived.push(mimic_position(mj.multiplier, mj.offset, source_value));
            m += 1;
        }
        self.mimic_positions = derived;
        self.fresh = true;
    }

    /// The current settable joint positions, in traversal order.
    pub fn joint_positions(&self) -> (r: Vec<i64>)
        ensures
            r@ == self.positions@,
    {
        let n = self.positions.len();
        let mut out: Vec<i64> = Vec::new();
        let mut k: usize = 0;
        while k < n
            invariant
                k <= n,
                n == self.positions@.len(),
                out@.len() == k,
                forall|t: int| 0 <= t < k ==> out@[t] == self.positions@[t],
            decreases n - k,
        {
            out.push(self.positions[k]);
            k += 1;
        }
        proof {
            assert(out@ =~= self.positions@);
        }
        out
    }
}

/// The saturating fixed-point mimic formula, exactly `spec_mimic_position`
/// of a mimic joint with these parameters.
fn mimic_position(multiplier: i64, offset: i64, source_value: i64) -> (r: i64)
    ensures
        r == clamp_i64(spec_scaled(multiplier, source_value) + offset),
{
    let am: u128 = if multiplier < 0 {
        (-(multiplier as i128)) as u128
    } else {
        multiplier as u128
    };
    let av: u128 = if source_value < 0 {
        (-(source_value as i128)) as u128
    } else {
        source_value as u128
    };
    proof {
        assert(am == iabs(multiplier as int));
        assert(av == iabs(source_value as int));
        assert(am * av <= 0x8000000000000000u128 * 0x8000000000000000u128) by (nonlinear_arith)
            requires
                am <= 0x8000000000000000u128,
                av <= 0x8000000000000000u128,
        ;
    }
    let prod: u128 = am * av;
    let q: u128 = prod / 1000000;
    let signed_q: i128 = if (multiplier < 0) != (source_value < 0) {
        -(q as i128)
    } else {
        q as i128
    };
    let total: i128 = signed_q + (offset as i128);
    if total > i64::MAX as i128 {
        i64::MAX
    } else if total < i64::MIN as i128 {
        i64::MIN
    } else {
        total as i64
    }
}

} // verus!
