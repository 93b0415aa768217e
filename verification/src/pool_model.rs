//! What an artifact pool holds, as a mathematical value, and the rule by
//! which it admits inputs.
//!
//! The pool holds one group for each failure, by the failure's identifier. A
//! group holds buckets of inputs of equal complexity, each new bucket less
//! complex than the one before it, so that the last bucket of a group is its
//! least complex one. A bucket holds at most
//! [`NBR_ARTIFACTS_PER_ERROR_AND_CPLX`] inputs.

use vstd::prelude::*;

verus! {

/// The most inputs that the pool keeps for one failure at one complexity.
pub const NBR_ARTIFACTS_PER_ERROR_AND_CPLX: usize = 8;

/// An input held by the pool, with the generation it belongs to.
pub struct Input<T> {
    /// The generation of the input, by which a stale reference to it is
    /// recognised.
    pub generation: usize,
    /// The input itself.
    pub data: T,
}

/// A bucket: the inputs kept for one failure at one complexity.
pub struct ComplexityBucket<T> {
    /// The complexity of each of the inputs, in ten-thousandths.
    pub cplx: u64,
    /// The inputs, in the order in which they were admitted.
    pub inputs: Seq<Input<T>>,
}

/// A group: the buckets kept for one failure.
pub struct ErrorGroup<T> {
    /// The identifier of the failure.
    pub id: u64,
    /// What a reader is shown of the failure.
    pub display: Seq<char>,
    /// The buckets, in the order in which they were opened.
    pub buckets: Seq<ComplexityBucket<T>>,
}

/// Where an input that the pool admits is put.
#[derive(Clone, Copy, Debug, PartialEq, Eq, Structural)]
pub enum PositionOfNewInput {
    /// In the first bucket of a new group.
    NewError,
    /// In a new bucket of the group with this index.
    ExistingErrorNewCplx(usize),
    /// In the last bucket of the group with this index.
    ExistingErrorAndCplx(usize),
}

/// Whether `idx` names an input of `groups`.
pub open spec fn valid_index<T>(groups: Seq<ErrorGroup<T>>, idx: (usize, usize, usize)) -> bool {
    &&& idx.0 < groups.len()
    &&& idx.1 < groups[idx.0 as int].buckets.len()
    &&& idx.2 < groups[idx.0 as int].buckets[idx.1 as int].inputs.len()
}

/// The input of `groups` that `idx` names.
pub open spec fn input_at<T>(groups: Seq<ErrorGroup<T>>, idx: (usize, usize, usize)) -> Input<T> {
    groups[idx.0 as int].buckets[idx.1 as int].inputs[idx.2 as int]
}

/// Whether `idx` names an input in the last bucket of its group.
pub open spec fn in_last_bucket<T>(groups: Seq<ErrorGroup<T>>, idx: (usize, usize, usize)) -> bool {
    valid_index(groups, idx) && idx.1 == groups[idx.0 as int].buckets.len() - 1
}

/// What holds of the groups of a pool at all times: no group is empty, no
/// bucket holds more than [`NBR_ARTIFACTS_PER_ERROR_AND_CPLX`] inputs, the
/// complexities of a group's buckets decrease strictly, and no two groups
/// are for the same failure.
pub open spec fn well_formed<T>(groups: Seq<ErrorGroup<T>>) -> bool {
    &&& forall|g: int| 0 <= g < groups.len() ==> (#[trigger] groups[g]).buckets.len() >= 1
    &&& forall|g: int, b: int|
        0 <= g < groups.len() && 0 <= b < groups[g].buckets.len() ==> (
        #[trigger] groups[g].buckets[b]).inputs.len() <= NBR_ARTIFACTS_PER_ERROR_AND_CPLX
    &&& forall|g: int, b1: int, b2: int|
        0 <= g < groups.len() && 0 <= b1 < b2 < groups[g].buckets.len() ==> (
        #[trigger] groups[g].buckets[b1]).cplx > (#[trigger] groups[g].buckets[b2]).cplx
    &&& forall|g1: int, g2: int|
        0 <= g1 < groups.len() && 0 <= g2 < groups.len() && g1 != g2 ==> (
        #[trigger] groups[g1]).id != (#[trigger] groups[g2]).id
}

/// Whether the numbers of groups and of buckets are such as a pool can hold.
/// This holds of the groups of every pool.
pub open spec fn representable<T>(groups: Seq<ErrorGroup<T>>) -> bool {
    &&& groups.len() <= usize::MAX
    &&& forall|g: int| 0 <= g < groups.len() ==> (#[trigger] groups[g]).buckets.len() <= usize::MAX
}

/// The index of the first group for the failure `id`, if there is one.
pub open spec fn group_with_id<T>(groups: Seq<ErrorGroup<T>>, id: u64) -> Option<int>
    decreases groups.len(),
{
    if groups.len() == 0 {
        None
    } else {
        match group_with_id(groups.drop_last(), id) {
            Some(g) => Some(g),
            None => if groups.last().id == id {
                Some(groups.len() - 1)
            } else {
                None
            },
        }
    }
}

/// Whether a group other than the one at `g` shows its failure as `display`.
pub open spec fn other_group_has_display<T>(
    groups: Seq<ErrorGroup<T>>,
    g: int,
    display: Seq<char>,
) -> bool {
    exists|h: int| 0 <= h < groups.len() && h != g && (#[trigger] groups[h]).display == display
}

/// Where an input of the given complexity that reproduces the failure `id`,
/// shown as `display`, is put, or `None` if the pool does not admit it.
///
/// An input for a failure that has no group opens a group. An input for a
/// failure that has one is compared with the last bucket of the group: a less
/// complex one opens a bucket, a more complex one is not admitted, and an
/// equally complex one joins the bucket if that is not full and no other
/// group shows its failure in the same way.
pub open spec fn position_of_new_input<T>(
    groups: Seq<ErrorGroup<T>>,
    id: u64,
    display: Seq<char>,
    complexity: u64,
) -> Option<PositionOfNewInput> {
    match group_with_id(groups, id) {
        None => Some(PositionOfNewInput::NewError),
        Some(g) => {
            let buckets = groups[g].buckets;
            if buckets.len() == 0 {
                Some(PositionOfNewInput::ExistingErrorNewCplx(g as usize))
            } else if buckets.last().cplx > complexity {
                Some(PositionOfNewInput::ExistingErrorNewCplx(g as usize))
            } else if buckets.last().cplx == complexity {
                if buckets.last().inputs.len() < NBR_ARTIFACTS_PER_ERROR_AND_CPLX
                    && !other_group_has_display(groups, g, display) {
                    Some(PositionOfNewInput::ExistingErrorAndCplx(g as usize))
                } else {
                    None
                }
            } else {
                None
            }
        },
    }
}

/// The groups with the inputs of bucket `b` of group `g` replaced by `inputs`.
pub open spec fn with_inputs<T>(
    groups: Seq<ErrorGroup<T>>,
    g: int,
    b: int,
    inputs: Seq<Input<T>>,
) -> Seq<ErrorGroup<T>> {
    let group = groups[g];
    let bucket = group.buckets[b];
    groups.update(
        g,
        ErrorGroup {
            buckets: group.buckets.update(b, ComplexityBucket { inputs, ..bucket }),
            ..group
        },
    )
}

/// The groups with the data of the input at `idx` replaced by `data`.
pub open spec fn with_data<T>(
    groups: Seq<ErrorGroup<T>>,
    idx: (usize, usize, usize),
    data: T,
) -> Seq<ErrorGroup<T>> {
    with_inputs(
        groups,
        idx.0 as int,
        idx.1 as int,
        groups[idx.0 as int].buckets[idx.1 as int].inputs.update(
            idx.2 as int,
            Input { data, ..input_at(groups, idx) },
        ),
    )
}

/// The groups with a bucket added at the end of group `g`.
pub open spec fn with_new_bucket<T>(
    groups: Seq<ErrorGroup<T>>,
    g: int,
    bucket: ComplexityBucket<T>,
) -> Seq<ErrorGroup<T>> {
    let group = groups[g];
    groups.update(g, ErrorGroup { buckets: group.buckets.push(bucket), ..group })
}

/// The groups after `input` was put at `position`.
pub open spec fn admit_at<T>(
    groups: Seq<ErrorGroup<T>>,
    position: PositionOfNewInput,
    id: u64,
    display: Seq<char>,
    complexity: u64,
    input: Input<T>,
) -> Seq<ErrorGroup<T>> {
    let bucket = ComplexityBucket { cplx: complexity, inputs: seq![input] };
    match position {
        PositionOfNewInput::NewError => groups.push(
            ErrorGroup { id, display, buckets: seq![bucket] },
        ),
        PositionOfNewInput::ExistingErrorNewCplx(g) => with_new_bucket(groups, g as int, bucket),
        PositionOfNewInput::ExistingErrorAndCplx(g) => with_inputs(
            groups,
            g as int,
            groups[g as int].buckets.len() - 1,
            groups[g as int].buckets.last().inputs.push(input),
        ),
    }
}

/// The index of an input that is put at `position`.
pub open spec fn index_of_new_input<T>(
    groups: Seq<ErrorGroup<T>>,
    position: PositionOfNewInput,
) -> (usize, usize, usize) {
    match position {
        PositionOfNewInput::NewError => (groups.len() as usize, 0, 0),
        PositionOfNewInput::ExistingErrorNewCplx(g) => (
            g,
            groups[g as int].buckets.len() as usize,
            0,
        ),
        PositionOfNewInput::ExistingErrorAndCplx(g) => (
            g,
            (groups[g as int].buckets.len() - 1) as usize,
            groups[g as int].buckets.last().inputs.len() as usize,
        ),
    }
}

/// The groups after the pool was offered `input`, of the given complexity, as
/// a reproducer of the failure `id`, shown as `display`.
pub open spec fn offer<T>(
    groups: Seq<ErrorGroup<T>>,
    id: u64,
    display: Seq<char>,
    complexity: u64,
    input: Input<T>,
) -> Seq<ErrorGroup<T>> {
    match position_of_new_input(groups, id, display, complexity) {
        None => groups,
        Some(position) => admit_at(groups, position, id, display, complexity, input),
    }
}

/// `group_with_id` finds the first group for the failure, and finds none only
/// if there is none.
pub proof fn lemma_group_with_id<T>(groups: Seq<ErrorGroup<T>>, id: u64)
    ensures
        match group_with_id(groups, id) {
            Some(g) => 0 <= g < groups.len() && groups[g].id == id && forall|h: int|
                0 <= h < g ==> (#[trigger] groups[h]).id != id,
            None => forall|h: int| 0 <= h < groups.len() ==> (#[trigger] groups[h]).id != id,
        },
    decreases groups.len(),
{
    if groups.len() > 0 {
        let front = groups.drop_last();
        lemma_group_with_id(front, id);
        assert(forall|h: int| 0 <= h < front.len() ==> front[h] == groups[h]);
        match group_with_id(front, id) {
            Some(g) => {
                assert(front[g] == groups[g]);
                assert forall|h: int| 0 <= h < g implies (#[trigger] groups[h]).id != id by {
                    assert(front[h] == groups[h]);
                }
            },
            None => {
                assert forall|h: int| 0 <= h < front.len() implies (#[trigger] groups[h]).id
                    != id by {
                    assert(front[h] == groups[h]);
                }
            },
        }
    }
}

/// An admission keeps the groups well-formed.
pub proof fn lemma_admission_keeps_well_formed<T>(
    groups: Seq<ErrorGroup<T>>,
    position: PositionOfNewInput,
    id: u64,
    display: Seq<char>,
    complexity: u64,
    input: Input<T>,
)
    requires
        well_formed(groups),
        representable(groups),
        position_of_new_input(groups, id, display, complexity) == Some(position),
    ensures
        well_formed(admit_at(groups, position, id, display, complexity, input)),
{
    lemma_group_with_id(groups, id);
    let after = admit_at(groups, position, id, display, complexity, input);
    match position {
        PositionOfNewInput::NewError => {
            assert forall|g: int| 0 <= g < after.len() implies (#[trigger] after[g]).buckets.len()
                >= 1 by {
                if g < groups.len() {
                    assert(after[g] == groups[g]);
                }
            }
            assert forall|g: int, b: int|
                0 <= g < after.len() && 0 <= b < after[g].buckets.len() implies (
            #[trigger] after[g].buckets[b]).inputs.len() <= NBR_ARTIFACTS_PER_ERROR_AND_CPLX by {
                if g < groups.len() {
                    assert(after[g] == groups[g]);
                }
            }
            assert forall|g: int, b1: int, b2: int|
                0 <= g < after.len() && 0 <= b1 < b2 < after[g].buckets.len() implies (
            #[trigger] after[g].buckets[b1]).cplx > (#[trigger] after[g].buckets[b2]).cplx by {
                if g < groups.len() {
                    assert(after[g] == groups[g]);
                }
            }
            assert forall|g1: int, g2: int|
                0 <= g1 < after.len() && 0 <= g2 < after.len() && g1 != g2 implies (
            #[trigger] after[g1]).id != (#[trigger] after[g2]).id by {
                if g1 < groups.len() {
                    assert(after[g1] == groups[g1]);
                }
                if g2 < groups.len() {
                    assert(after[g2] == groups[g2]);
                }
            }
        },
        PositionOfNewInput::ExistingErrorNewCplx(p) => {
            assert(group_with_id(groups, id) == Some(p as int));
            let n = groups[p as int].buckets.len() as int;
            assert(groups[p as int].buckets[n - 1].cplx > complexity);
            assert forall|g: int| 0 <= g < after.len() implies (#[trigger] after[g]).buckets.len()
                >= 1 by {
                if g != p {
                    assert(after[g] == groups[g]);
                }
            }
            assert forall|g: int, b: int|
                0 <= g < after.len() && 0 <= b < after[g].buckets.len() implies (
            #[trigger] after[g].buckets[b]).inputs.len() <= NBR_ARTIFACTS_PER_ERROR_AND_CPLX by {
                if g != p {
                    assert(after[g] == groups[g]);
                } else if b < n {
                    assert(after[g].buckets[b] == groups[g].buckets[b]);
                }
            }
            assert forall|g: int, b1: int, b2: int|
                0 <= g < after.len() && 0 <= b1 < b2 < after[g].buckets.len() implies (
            #[trigger] after[g].buckets[b1]).cplx > (#[trigger] after[g].buckets[b2]).cplx by {
                if g != p {
                    assert(after[g] == groups[g]);
                } else {
                    assert(after[g].buckets[b1] == groups[g].buckets[b1]);
                    if b2 < n {
                        assert(after[g].buckets[b2] == groups[g].buckets[b2]);
                    } else if b1 < n - 1 {
                        assert(groups[g].buckets[b1].cplx > groups[g].buckets[n - 1].cplx);
                    }
                }
            }
            assert forall|g1: int, g2: int|
                0 <= g1 < after.len() && 0 <= g2 < after.len() && g1 != g2 implies (
            #[trigger] after[g1]).id != (#[trigger] after[g2]).id by {
                assert(after[g1].id == groups[g1].id);
                assert(after[g2].id == groups[g2].id);
            }
        },
        PositionOfNewInput::ExistingErrorAndCplx(p) => {
            assert(group_with_id(groups, id) == Some(p as int));
            let n = groups[p as int].buckets.len() as int;
            assert(groups[p as int].buckets[n - 1].inputs.len()
                < NBR_ARTIFACTS_PER_ERROR_AND_CPLX);
            assert forall|g: int| 0 <= g < after.len() implies (#[trigger] after[g]).buckets.len()
                >= 1 by {
                if g != p {
                    assert(after[g] == groups[g]);
                }
            }
            assert forall|g: int, b: int|
                0 <= g < after.len() && 0 <= b < after[g].buckets.len() implies (
            #[trigger] after[g].buckets[b]).inputs.len() <= NBR_ARTIFACTS_PER_ERROR_AND_CPLX by {
                if g != p {
                    assert(after[g] == groups[g]);
                } else if b < n - 1 {
                    assert(after[g].buckets[b] == groups[g].buckets[b]);
                }
            }
            assert forall|g: int, b1: int, b2: int|
                0 <= g < after.len() && 0 <= b1 < b2 < after[g].buckets.len() implies (
            #[trigger] after[g].buckets[b1]).cplx > (#[trigger] after[g].buckets[b2]).cplx by {
                if g != p {
                    assert(after[g] == groups[g]);
                } else {
                    assert(after[g].buckets[b1].cplx == groups[g].buckets[b1].cplx);
                    assert(after[g].buckets[b2].cplx == groups[g].buckets[b2].cplx);
                }
            }
            assert forall|g1: int, g2: int|
                0 <= g1 < after.len() && 0 <= g2 < after.len() && g1 != g2 implies (
            #[trigger] after[g1]).id != (#[trigger] after[g2]).id by {
                assert(after[g1].id == groups[g1].id);
                assert(after[g2].id == groups[g2].id);
            }
        },
    }
}

/// An input that was put at a position is found at the index of that
/// position, in the last bucket of the group for its failure.
pub proof fn lemma_new_input_is_at_its_index<T>(
    groups: Seq<ErrorGroup<T>>,
    position: PositionOfNewInput,
    id: u64,
    display: Seq<char>,
    complexity: u64,
    input: Input<T>,
)
    requires
        well_formed(groups),
        representable(groups),
        position_of_new_input(groups, id, display, complexity) == Some(position),
    ensures
        valid_index(
            admit_at(groups, position, id, display, complexity, input),
            index_of_new_input(groups, position),
        ),
        input_at(
            admit_at(groups, position, id, display, complexity, input),
            index_of_new_input(groups, position),
        ) == input,
        in_last_bucket(
            admit_at(groups, position, id, display, complexity, input),
            index_of_new_input(groups, position),
        ),
        admit_at(groups, position, id, display, complexity, input)[index_of_new_input(
            groups,
            position,
        ).0 as int].id == id,
{
    lemma_group_with_id(groups, id);
    match position {
        PositionOfNewInput::NewError => {},
        PositionOfNewInput::ExistingErrorNewCplx(p) => {
            assert(group_with_id(groups, id) == Some(p as int));
        },
        PositionOfNewInput::ExistingErrorAndCplx(p) => {
            assert(group_with_id(groups, id) == Some(p as int));
            let n = groups[p as int].buckets.len() as int;
            assert(groups[p as int].buckets[n - 1].inputs.len()
                < NBR_ARTIFACTS_PER_ERROR_AND_CPLX);
        },
    }
}

/// Groups stay well-formed when the inputs of a bucket are replaced by no
/// more than a bucket may hold.
pub proof fn lemma_with_inputs_keeps_well_formed<T>(
    groups: Seq<ErrorGroup<T>>,
    g: int,
    b: int,
    inputs: Seq<Input<T>>,
)
    requires
        well_formed(groups),
        0 <= g < groups.len(),
        0 <= b < groups[g].buckets.len(),
        inputs.len() <= NBR_ARTIFACTS_PER_ERROR_AND_CPLX,
    ensures
        well_formed(with_inputs(groups, g, b, inputs)),
{
    let after = with_inputs(groups, g, b, inputs);
    assert forall|h: int| 0 <= h < after.len() implies (#[trigger] after[h]).buckets.len()
        >= 1 by {
        if h != g {
            assert(after[h] == groups[h]);
        }
    }
    assert forall|h: int, c: int|
        0 <= h < after.len() && 0 <= c < after[h].buckets.len() implies (
    #[trigger] after[h].buckets[c]).inputs.len() <= NBR_ARTIFACTS_PER_ERROR_AND_CPLX by {
        if h != g {
            assert(after[h] == groups[h]);
        } else if c != b {
            assert(after[h].buckets[c] == groups[h].buckets[c]);
        }
    }
    assert forall|h: int, b1: int, b2: int|
        0 <= h < after.len() && 0 <= b1 < b2 < after[h].buckets.len() implies (
    #[trigger] after[h].buckets[b1]).cplx > (#[trigger] after[h].buckets[b2]).cplx by {
        if h != g {
            assert(after[h] == groups[h]);
        } else {
            assert(after[h].buckets[b1].cplx == groups[h].buckets[b1].cplx);
            assert(after[h].buckets[b2].cplx == groups[h].buckets[b2].cplx);
        }
    }
    assert forall|g1: int, g2: int|
        0 <= g1 < after.len() && 0 <= g2 < after.len() && g1 != g2 implies (
    #[trigger] after[g1]).id != (#[trigger] after[g2]).id by {
        assert(after[g1].id == groups[g1].id);
        assert(after[g2].id == groups[g2].id);
    }
}

} // verus!
