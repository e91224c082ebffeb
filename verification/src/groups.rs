//! Collision-group assignment.
//!
//! Every link is identified by its index in the description's link list and
//! owns one bit of a 32-bit group word. A link's mask pairs the bit that
//! identifies it (`memberships`) with the set of bits it is willing to
//! collide with (`filter`). Two shapes may produce a contact only if each
//! one's membership bit is present in the other's filter, so clearing a
//! neighbour's bit from a link's filter suppresses the pair in either
//! direction.

use vstd::prelude::*;

verus! {

/// Membership/filter bit pair of one link: `memberships` holds the single
/// bit identifying the link, `filter` the bits of the links it may collide
/// with.
#[derive(Clone, Copy, Debug, PartialEq, Eq, Structural)]
pub struct CollisionGroupMask {
    pub memberships: u32,
    pub filter: u32,
}

/// Bit `j` of the group word `w`.
pub open spec fn get_bit(w: u32, j: u32) -> bool {
    w & (1u32 << j) != 0
}

/// The exclusion word carried by an optional exclude group.
pub open spec fn spec_exclude_bits(exclude_group: Option<u32>) -> u32 {
    match exclude_group {
        Some(e) => e,
        None => 0u32,
    }
}

/// Whether the masks of two shapes let them produce a contact: each side's
/// membership bit must be present in the other side's filter.
pub open spec fn pair_allowed(a: CollisionGroupMask, b: CollisionGroupMask) -> bool {
    a.memberships & b.filter != 0 && b.memberships & a.filter != 0
}

/// The single group bit identifying link `link_idx`. Indices from 32 up
/// have no bit; the engine rejects such robots when it is built.
pub fn group_flag_from_idx(link_idx: usize) -> (g: u32)
    requires
        link_idx < 32,
    ensures
        g == 1u32 << link_idx as u32,
{
    1u32 << (link_idx as u32)
}

/// The collision-group mask of link `link_idx`: membership is the link's
/// own bit; the filter admits every bit except the link's own and those of
/// `exclude_group`.
pub fn collision_group(link_idx: usize, exclude_group: Option<u32>) -> (g: CollisionGroupMask)
    requires
        link_idx < 32,
    ensures
        g.memberships == 1u32 << link_idx as u32,
        g.filter == !(1u32 << link_idx as u32) & !spec_exclude_bits(exclude_group),
{
    let link_group = group_flag_from_idx(link_idx);
    let excluded: u32 = match exclude_group {
        Some(e) => e,
        None => 0,
    };
    let filter = !link_group & !excluded;
    CollisionGroupMask { memberships: link_group, filter }
}

/// Setting bit `c` of a word touches exactly bit `c`.
proof fn lemma_or_single_bit(b: u32, c: u32, j: u32)
    requires
        c < 32,
        j < 32,
    ensures
        get_bit(b | (1u32 << c), j) == (get_bit(b, j) || j == c),
{
    assert(get_bit(b | (1u32 << c), j) == (get_bit(b, j) || j == c)) by (bit_vector)
        requires
            c < 32 && j < 32,
    ;
}

/// Which links are immediate neighbours of which, read off the joint list:
/// for every joint, the child records its parent and the parent records the
/// child's bit. Built once when a model is constructed, only to assign the
/// collision-group masks.
pub struct AdjacencyIndex {
    /// For each link, the index of its immediate parent, when a joint names
    /// it as a child. When several joints do, the last one is kept; the
    /// children bits still record every such joint.
    pub parent_of: Vec<Option<usize>>,
    /// For each link, one bit per immediate child.
    pub children_bits: Vec<u32>,
}

impl AdjacencyIndex {
    /// Shape of a well-formed index over `link_count` links.
    pub open spec fn wf(self, link_count: int) -> bool {
        &&& self.parent_of@.len() == link_count
        &&& self.children_bits@.len() == link_count
        &&& forall|i: int|
            0 <= i < link_count ==> match #[trigger] self.parent_of@[i] {
                Some(p) => p < link_count,
                None => true,
            }
    }

    /// `j` is recorded as the immediate parent or an immediate child of `i`.
    pub open spec fn adjacent(self, i: int, j: int) -> bool {
        ||| self.parent_of@[i] == Some(j as usize)
        ||| (0 <= j < 32 && get_bit(self.children_bits@[i], j as u32))
    }

    /// Some joint of the list connects links `i` and `j`, in either role.
    pub open spec fn joined(joints: Seq<(usize, usize)>, i: int, j: int) -> bool {
        exists|m: int|
            0 <= m < joints.len() && ((joints[m].0 == i && joints[m].1 == j) || (joints[m].0 == j
                && joints[m].1 == i))
    }

    /// Builds the index from the resolved joint list, `(parent, child)` link
    /// indices per joint. Two links are recorded as neighbours, in one
    /// direction or the other, exactly when a joint connects them.
    pub fn build(link_count: usize, joints: &Vec<(usize, usize)>) -> (adj: AdjacencyIndex)
        requires
            link_count <= 32,
            forall|m: int|
                0 <= m < joints@.len() ==> joints@[m].0 < link_count && joints@[m].1 < link_count,
        ensures
            adj.wf(link_count as int),
            forall|i: int, j: int|
                0 <= i < link_count && 0 <= j < link_count ==> ((adj.adjacent(i, j)
                    || adj.adjacent(j, i)) <==> Self::joined(joints@, i, j)),
    {
        let mut parent_of: Vec<Option<usize>> = Vec::new();
        let mut children_bits: Vec<u32> = Vec::new();
        let mut i: usize = 0;
        while i < link_count
            invariant
                i <= link_count,
                parent_of@.len() == i,
                children_bits@.len() == i,
                forall|t: int| 0 <= t < i ==> parent_of@[t] == Option::<usize>::None,
                forall|t: int| 0 <= t < i ==> children_bits@[t] == 0u32,
            decreases link_count - i,
        {
            parent_of.push(None);
            children_bits.push(0);
            i += 1;
        }
        assert(forall|j: u32| j < 32 ==> !(#[trigger] get_bit(0u32, j))) by (bit_vector);

        let mut m: usize = 0;
        while m < joints.len()
            invariant
                m <= joints@.len(),
                parent_of@.len() == link_count,
                children_bits@.len() == link_count,
                link_count <= 32,
                forall|t: int|
                    0 <= t < joints@.len() ==> joints@[t].0 < link_count && joints@[t].1
                        < link_count,
                // every recorded parent comes from a joint already seen
                forall|i: int|
                    0 <= i < link_count ==> match #[trigger] parent_of@[i] {
                        Some(p) => exists|t: int|
                            0 <= t < m && joints@[t].0 == p && joints@[t].1 == i,
                        None => true,
                    },
                // the children bits record exactly the joints already seen
                forall|i: int, j: int|
                    0 <= i < link_count && 0 <= j < link_count ==> (#[trigger] get_bit(
                        children_bits@[i],
                        j as u32,
                    ) <==> exists|t: int|
                        0 <= t < m && joints@[t].0 == i && joints@[t].1 == j),
            decreases joints@.len() - m,
        {
            let p = joints[m].0;
            let c = joints[m].1;
            let ghost before = children_bits@;
            let pb = children_bits[p];
            children_bits[p] = pb | (1u32 << (c as u32));
            parent_of[c] = Some(p);
            proof {
                assert forall|i: int, j: int|
                    0 <= i < link_count && 0 <= j < link_count implies (#[trigger] get_bit(
                    children_bits@[i],
                    j as u32,
                ) <==> exists|t: int|
                    0 <= t < m + 1 && joints@[t].0 == i && joints@[t].1 == j) by {
                    if i == p {
                        lemma_or_single_bit(before[i], c as u32, j as u32);
                        if get_bit(children_bits@[i], j as u32) {
                            if j == c {
                                assert(joints@[m as int].0 == i && joints@[m as int].1 == j);
                            }
                        }
                    }
                }
            }
            m += 1;
        }

        let adj = AdjacencyIndex { parent_of, children_bits };
        proof {
            assert forall|i: int, j: int|
                0 <= i < link_count && 0 <= j < link_count implies ((adj.adjacent(i, j)
                || adj.adjacent(j, i)) <==> Self::joined(joints@, i, j)) by {
                if adj.adjacent(i, j) || adj.adjacent(j, i) {
                    assert(Self::joined(joints@, i, j));
                }
                if Self::joined(joints@, i, j) {
                    let m = choose|m: int|
                        0 <= m < joints@.len() && ((joints@[m].0 == i && joints@[m].1 == j) || (
                        joints@[m].0 == j && joints@[m].1 == i));
                    if joints@[m].0 == i && joints@[m].1 == j {
                        assert(get_bit(adj.children_bits@[i], j as u32));
                    } else {
                        assert(get_bit(adj.children_bits@[j], i as u32));
                    }
                }
            }
        }
        adj
    }
}

/// The word of neighbour bits that link `i`'s filter clears when neighbour
/// exclusion is on: all immediate children and the immediate parent.
pub open spec fn spec_exclude_word(adj: AdjacencyIndex, i: int) -> u32 {
    adj.children_bits@[i] | (match adj.parent_of@[i] {
        Some(p) => 1u32 << p as u32,
        None => 0u32,
    })
}

/// The filter word link `i` is assigned: everything but its own bit and,
/// when neighbour exclusion is on, its neighbours' bits.
pub open spec fn spec_filter_word(adj: AdjacencyIndex, i: int, exclude_neighbors: bool) -> u32 {
    !(1u32 << i as u32) & !(if exclude_neighbors {
        spec_exclude_word(adj, i)
    } else {
        0u32
    })
}

/// Assigns every link its collision-group mask: its own bit as membership,
/// and a filter that admits every other link except, when
/// `exclude_neighbors` is on, its immediate parent and children. Fails
/// exactly when the description has more links than group bits.
pub fn assign_groups(
    link_count: usize,
    adjacency: &AdjacencyIndex,
    exclude_neighbors: bool,
) -> (r: Result<Vec<CollisionGroupMask>, crate::errors::BuildError>)
    requires
        adjacency.wf(link_count as int),
    ensures
        match r {
            Ok(masks) => {
                &&& link_count <= 32
                &&& masks@.len() == link_count
                &&& forall|i: int|
                    0 <= i < link_count ==> masks@[i].memberships == 1u32 << i as u32
                &&& forall|i: int|
                    0 <= i < link_count ==> masks@[i].filter == spec_filter_word(
                        *adjacency,
                        i,
                        exclude_neighbors,
                    )
            },
            Err(e) => e == crate::errors::BuildError::TooManyLinks && link_count > 32,
        },
{
    if link_count > 32 {
        return Err(crate::errors::BuildError::TooManyLinks);
    }
    let mut masks: Vec<CollisionGroupMask> = Vec::new();
    let mut i: usize = 0;
    while i < link_count
        invariant
            i <= link_count,
            link_count <= 32,
            adjacency.wf(link_count as int),
            masks@.len() == i,
            forall|t: int| 0 <= t < i ==> masks@[t].memberships == 1u32 << t as u32,
            forall|t: int|
                0 <= t < i ==> masks@[t].filter == spec_filter_word(
                    *adjacency,
                    t,
                    exclude_neighbors,
                ),
        decreases link_count - i,
    {
        let excluded: u32 = if exclude_neighbors {
            let child_word = adjacency.children_bits[i];
            match adjacency.parent_of[i] {
                Some(p) => child_word | group_flag_from_idx(p),
                None => child_word | 0u32,
            }
        } else {
            0u32
        };
        let mask = collision_group(i, Some(excluded));
        masks.push(mask);
        i += 1;
    }
    Ok(masks)
}

/// Two shapes of the same link never pass the group filter: a link's own
/// bit is always cleared from its filter.
pub proof fn lemma_same_link_pair_never_allowed(a: CollisionGroupMask, i: u32, e: u32)
    requires
        i < 32,
        a.memberships == 1u32 << i,
        a.filter == !(1u32 << i) & !e,
    ensures
        !pair_allowed(a, a),
{
    assert((1u32 << i) & (!(1u32 << i) & !e) == 0) by (bit_vector)
        requires
            i < 32,
    ;
}

/// A neighbour's bit cleared on either side suppresses the pair: if link
/// `i`'s exclusion word holds bit `j`, or link `j`'s holds bit `i`, the two
/// links' shapes never pass the group filter.
pub proof fn lemma_excluded_pair_not_allowed(
    a: CollisionGroupMask,
    b: CollisionGroupMask,
    i: u32,
    j: u32,
    ea: u32,
    eb: u32,
)
    requires
        i < 32,
        j < 32,
        a.memberships == 1u32 << i,
        a.filter == !(1u32 << i) & !ea,
        b.memberships == 1u32 << j,
        b.filter == !(1u32 << j) & !eb,
        get_bit(ea, j) || get_bit(eb, i),
    ensures
        !pair_allowed(a, b),
{
    if get_bit(ea, j) {
        assert((1u32 << j) & (!(1u32 << i) & !ea) == 0) by (bit_vector)
            requires
                i < 32 && j < 32 && get_bit(ea, j),
        ;
    } else {
        assert((1u32 << i) & (!(1u32 << j) & !eb) == 0) by (bit_vector)
            requires
                i < 32 && j < 32 && get_bit(eb, i),
        ;
    }
}

/// Distinct links whose bits stay in each other's filter always pass the
/// group filter: exclusion only ever suppresses the bits it names.
pub proof fn lemma_free_pair_allowed(
    a: CollisionGroupMask,
    b: CollisionGroupMask,
    i: u32,
    j: u32,
    ea: u32,
    eb: u32,
)
    requires
        i < 32,
        j < 32,
        i != j,
        a.memberships == 1u32 << i,
        a.filter == !(1u32 << i) & !ea,
        b.memberships == 1u32 << j,
        b.filter == !(1u32 << j) & !eb,
        !get_bit(ea, j),
        !get_bit(eb, i),
    ensures
        pair_allowed(a, b),
{
    assert((1u32 << j) & (!(1u32 << i) & !ea) != 0) by (bit_vector)
        requires
            i < 32 && j < 32 && i != j && !get_bit(ea, j),
    ;
    assert((1u32 << i) & (!(1u32 << j) & !eb) != 0) by (bit_vector)
        requires
            i < 32 && j < 32 && i != j && !get_bit(eb, i),
    ;
}

/// The exclusion word of a link holds exactly its neighbours' bits.
pub proof fn lemma_exclude_word_bits(adj: AdjacencyIndex, link_count: int, i: int, j: int)
    requires
        adj.wf(link_count),
        link_count <= 32,
        0 <= i < link_count,
        0 <= j < link_count,
    ensures
        get_bit(spec_exclude_word(adj, i), j as u32) <==> adj.adjacent(i, j),
{
    let cb = adj.children_bits@[i];
    match adj.parent_of@[i] {
        Some(p) => {
            let pu = p as u32;
            let ju = j as u32;
            assert(get_bit(cb | (1u32 << pu), ju) == (get_bit(cb, ju) || ju == pu)) by (bit_vector)
                requires
                    pu < 32 && ju < 32,
            ;
            assert((ju == pu) <==> (j == p));
        },
        None => {
            assert(get_bit(cb | 0u32, j as u32) == get_bit(cb, j as u32)) by (bit_vector);
        },
    }
}

} // verus!
