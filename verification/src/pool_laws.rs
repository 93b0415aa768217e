//! What holds of an artifact pool after any number of inputs were offered to
//! it.

use crate::pool_model::{
    group_with_id, lemma_admission_keeps_well_formed, lemma_group_with_id, offer,
    position_of_new_input, representable, well_formed, ComplexityBucket, ErrorGroup, Input,
    PositionOfNewInput, NBR_ARTIFACTS_PER_ERROR_AND_CPLX,
};
use vstd::prelude::*;

verus! {

/// An input that is offered to the pool, with the failure it reproduces and
/// its complexity.
pub struct Candidate<T> {
    /// The identifier of the failure.
    pub id: u64,
    /// What a reader is shown of the failure.
    pub display: Seq<char>,
    /// The complexity of the input, in ten-thousandths.
    pub complexity: u64,
    /// The input, as the pool would keep it.
    pub input: Input<T>,
}

/// The groups after each of `candidates` was offered in turn to a pool with
/// the groups `start`.
pub open spec fn offer_all<T>(
    start: Seq<ErrorGroup<T>>,
    candidates: Seq<Candidate<T>>,
) -> Seq<ErrorGroup<T>>
    decreases candidates.len(),
{
    if candidates.len() == 0 {
        start
    } else {
        let c = candidates.last();
        offer(offer_all(start, candidates.drop_last()), c.id, c.display, c.complexity, c.input)
    }
}

/// Whether the pool admitted the candidate at `i` when `candidates` were
/// offered in turn to a pool with the groups `start`.
#[verifier::opaque]
pub open spec fn was_admitted<T>(
    start: Seq<ErrorGroup<T>>,
    candidates: Seq<Candidate<T>>,
    i: int,
) -> bool {
    let c = candidates[i];
    position_of_new_input(
        offer_all(start, candidates.take(i)),
        c.id,
        c.display,
        c.complexity,
    ).is_some()
}

/// Whether there are at most `n` groups with at most `n` buckets each.
pub open spec fn bounded_by<T>(groups: Seq<ErrorGroup<T>>, n: nat) -> bool {
    &&& groups.len() <= n
    &&& forall|g: int| 0 <= g < groups.len() ==> (#[trigger] groups[g]).buckets.len() <= n
}

/// The complexity of the least complex bucket of group `g`: the last one.
pub open spec fn least_complexity<T>(groups: Seq<ErrorGroup<T>>, g: int) -> u64 {
    groups[g].buckets.last().cplx
}

/// What one offer does to the groups, where `after` is what they become: they
/// stay well-formed; no group is lost or changes its failure; the least
/// complexity of a group changes only when the offered input is admitted, and
/// then it does not grow; after an admission the group of the failure has the
/// complexity of the input as its least; and a group is added only for an
/// input that is admitted and whose failure had no group.
pub proof fn lemma_offer_step<T>(
    groups: Seq<ErrorGroup<T>>,
    after: Seq<ErrorGroup<T>>,
    id: u64,
    display: Seq<char>,
    complexity: u64,
    input: Input<T>,
    n: nat,
)
    requires
        well_formed(groups),
        bounded_by(groups, n),
        n < usize::MAX,
        after == offer(groups, id, display, complexity, input),
    ensures
        well_formed(after),
        bounded_by(after, n + 1),
        groups.len() <= after.len() <= groups.len() + 1,
        forall|g: int|
            0 <= g < groups.len() ==> {
                &&& after[g].id == (#[trigger] groups[g]).id
                &&& least_complexity(after, g) <= least_complexity(groups, g)
                &&& (least_complexity(after, g) == least_complexity(groups, g) || (
                position_of_new_input(groups, id, display, complexity).is_some() && groups[g].id
                    == id))
            },
        position_of_new_input(groups, id, display, complexity).is_some() ==> forall|g: int|
            0 <= g < after.len() && (#[trigger] after[g]).id == id ==> least_complexity(after, g)
                == complexity,
        position_of_new_input(groups, id, display, complexity).is_none() ==> after == groups,
        after.len() == groups.len() + 1 ==> position_of_new_input(
            groups,
            id,
            display,
            complexity,
        ).is_some() && after.last().id == id,
        group_with_id(groups, id).is_some() ==> after.len() == groups.len(),
        position_of_new_input(groups, id, display, complexity).is_some() ==> group_with_id(
            after,
            id,
        ).is_some(),
        forall|other: u64| #[trigger]
            group_with_id(groups, other).is_some() ==> group_with_id(after, other).is_some(),
{
    lemma_group_with_id(groups, id);
    assert(representable(groups));
    assert forall|g: int| 0 <= g < groups.len() && (#[trigger] groups[g]).id
        != id implies least_complexity(after, g) == least_complexity(groups, g) by {
        lemma_unchanged_unless_same_failure(groups, id, display, complexity, input, g);
    }
    if position_of_new_input(groups, id, display, complexity).is_some() {
        lemma_admitted_failure_has_group(groups, id, display, complexity, input);
    }
    lemma_groups_are_kept(groups, after, id, display, complexity, input);
    match position_of_new_input(groups, id, display, complexity) {
        None => {},
        Some(position) => {
            lemma_admission_keeps_well_formed(groups, position, id, display, complexity, input);
            match position {
                PositionOfNewInput::NewError => {
                    assert forall|g: int| 0 <= g < after.len() && (#[trigger] after[g]).id
                        == id implies least_complexity(after, g) == complexity by {
                        if g < groups.len() {
                            assert(after[g] == groups[g]);
                        }
                    }
                    assert forall|g: int| 0 <= g < after.len() implies (
                    #[trigger] after[g]).buckets.len() <= n + 1 by {
                        if g < groups.len() {
                            assert(after[g] == groups[g]);
                        }
                    }
                },
                PositionOfNewInput::ExistingErrorNewCplx(p) => {
                    assert(group_with_id(groups, id) == Some(p as int));
                    assert forall|g: int| 0 <= g < after.len() && (#[trigger] after[g]).id
                        == id implies least_complexity(after, g) == complexity by {
                        assert(after[g].id == groups[g].id);
                        if g != p {
                            assert(groups[g].id != groups[p as int].id);
                        }
                    }
                    assert forall|g: int| 0 <= g < after.len() implies (
                    #[trigger] after[g]).buckets.len() <= n + 1 by {
                        if g != p {
                            assert(after[g] == groups[g]);
                        }
                    }
                },
                PositionOfNewInput::ExistingErrorAndCplx(p) => {
                    assert(group_with_id(groups, id) == Some(p as int));
                    assert forall|g: int| 0 <= g < after.len() && (#[trigger] after[g]).id
                        == id implies least_complexity(after, g) == complexity by {
                        assert(after[g].id == groups[g].id);
                        if g != p {
                            assert(groups[g].id != groups[p as int].id);
                        }
                    }
                    assert forall|g: int| 0 <= g < after.len() implies (
                    #[trigger] after[g]).buckets.len() <= n + 1 by {
                        if g != p {
                            assert(after[g] == groups[g]);
                        }
                    }
                },
            }
        },
    }
}

/// The groups after each of `candidates` was offered in turn to an empty pool.
pub open spec fn offered_to_empty<T>(candidates: Seq<Candidate<T>>) -> Seq<ErrorGroup<T>> {
    offer_all(Seq::empty(), candidates)
}

/// Whatever inputs are offered to an empty pool, in whatever order, the
/// groups stay well-formed: no bucket holds more than
/// [`NBR_ARTIFACTS_PER_ERROR_AND_CPLX`] inputs, and within each group the
/// complexities of the buckets decrease strictly.
pub proof fn lemma_offers_keep_well_formed<T>(candidates: Seq<Candidate<T>>)
    requires
        candidates.len() < usize::MAX,
    ensures
        well_formed(offered_to_empty(candidates)),
        bounded_by(offered_to_empty(candidates), candidates.len()),
        forall|g: int, b: int|
            0 <= g < offered_to_empty(candidates).len() && 0 <= b < offered_to_empty(
                candidates,
            )[g].buckets.len() ==> (#[trigger] offered_to_empty(
                candidates,
            )[g].buckets[b]).inputs.len() <= NBR_ARTIFACTS_PER_ERROR_AND_CPLX,
        forall|g: int, b1: int, b2: int|
            0 <= g < offered_to_empty(candidates).len() && 0 <= b1 < b2 < offered_to_empty(
                candidates,
            )[g].buckets.len() ==> (#[trigger] offered_to_empty(candidates)[g].buckets[b1]).cplx
                > (#[trigger] offered_to_empty(candidates)[g].buckets[b2]).cplx,
    decreases candidates.len(),
{
    if candidates.len() > 0 {
        let front = candidates.drop_last();
        let c = candidates.last();
        lemma_offers_keep_well_formed(front);
        lemma_offer_step(
            offered_to_empty(front),
            offered_to_empty(candidates),
            c.id,
            c.display,
            c.complexity,
            c.input,
            front.len(),
        );
    }
}

/// Whether each group of `groups` is for the failure of a candidate that was
/// admitted, and its least complexity is the least of the complexities of the
/// candidates admitted for that failure.
pub open spec fn least_of_admitted<T>(
    groups: Seq<ErrorGroup<T>>,
    candidates: Seq<Candidate<T>>,
) -> bool {
    &&& forall|g: int|
        0 <= g < groups.len() ==> exists|i: int|
            0 <= i < candidates.len() && #[trigger] was_admitted(Seq::empty(), candidates, i)
                && candidates[i].id == (#[trigger] groups[g]).id && candidates[i].complexity
                == least_complexity(groups, g)
    &&& forall|g: int, i: int|
        0 <= g < groups.len() && 0 <= i < candidates.len() && #[trigger] was_admitted(
            Seq::empty(),
            candidates,
            i,
        ) && candidates[i].id == (#[trigger] groups[g]).id ==> least_complexity(groups, g)
            <= candidates[i].complexity
    &&& forall|i: int|
        0 <= i < candidates.len() && #[trigger] was_admitted(Seq::empty(), candidates, i)
            ==> group_with_id(groups, candidates[i].id).is_some()
}

/// Whether a candidate was admitted does not depend on those offered after
/// it, and the last one was admitted if the groups before it had a place for
/// it.
proof fn lemma_admissions_of_prefix<T>(candidates: Seq<Candidate<T>>)
    requires
        candidates.len() > 0,
    ensures
        forall|i: int|
            0 <= i < candidates.len() - 1 ==> #[trigger] was_admitted(
                Seq::empty(),
                candidates,
                i,
            ) == was_admitted(Seq::empty(), candidates.drop_last(), i),
        was_admitted(Seq::empty(), candidates, candidates.len() - 1) == position_of_new_input(
            offered_to_empty(candidates.drop_last()),
            candidates.last().id,
            candidates.last().display,
            candidates.last().complexity,
        ).is_some(),
{
    reveal(was_admitted);
    let front = candidates.drop_last();
    assert(candidates.take(candidates.len() - 1) =~= front);
    assert forall|i: int| 0 <= i < candidates.len() - 1 implies #[trigger] was_admitted(
        Seq::<ErrorGroup<T>>::empty(),
        candidates,
        i,
    ) == was_admitted(Seq::<ErrorGroup<T>>::empty(), front, i) by {
        assert(candidates.take(i) =~= front.take(i));
    }
}

/// One more offer keeps the least complexities the least of what was
/// admitted: `before` are the groups after `candidates` but the last were
/// offered, `after` those after the last was, and `admitted` says whether it
/// was admitted.
proof fn lemma_least_of_admitted_step<T>(
    before: Seq<ErrorGroup<T>>,
    after: Seq<ErrorGroup<T>>,
    candidates: Seq<Candidate<T>>,
    admitted: bool,
)
    requires
        candidates.len() > 0,
        least_of_admitted(before, candidates.drop_last()),
        forall|i: int|
            0 <= i < candidates.len() - 1 ==> #[trigger] was_admitted(
                Seq::empty(),
                candidates,
                i,
            ) == was_admitted(Seq::empty(), candidates.drop_last(), i),
        was_admitted(Seq::empty(), candidates, candidates.len() - 1) == admitted,
        before.len() <= after.len() <= before.len() + 1,
        forall|g: int|
            0 <= g < before.len() ==> {
                &&& after[g].id == (#[trigger] before[g]).id
                &&& least_complexity(after, g) <= least_complexity(before, g)
                &&& (least_complexity(after, g) == least_complexity(before, g) || (admitted
                    && before[g].id == candidates.last().id))
            },
        admitted ==> forall|g: int|
            0 <= g < after.len() && (#[trigger] after[g]).id == candidates.last().id
                ==> least_complexity(after, g) == candidates.last().complexity,
        after.len() == before.len() + 1 ==> admitted && after.last().id == candidates.last().id,
        group_with_id(before, candidates.last().id).is_some() ==> after.len() == before.len(),
        admitted ==> group_with_id(after, candidates.last().id).is_some(),
        forall|other: u64| #[trigger]
            group_with_id(before, other).is_some() ==> group_with_id(after, other).is_some(),
    ensures
        least_of_admitted(after, candidates),
{
    let start = Seq::<ErrorGroup<T>>::empty();
    let front = candidates.drop_last();
    let c = candidates.last();
    let last = candidates.len() - 1;
    assert forall|g: int| 0 <= g < after.len() implies exists|i: int|
        0 <= i < candidates.len() && #[trigger] was_admitted(start, candidates, i)
            && candidates[i].id == (#[trigger] after[g]).id && candidates[i].complexity
            == least_complexity(after, g) by {
        if g < before.len() && least_complexity(after, g) == least_complexity(before, g) {
            assert(after[g].id == before[g].id);
            let i = choose|i: int|
                0 <= i < front.len() && #[trigger] was_admitted(start, front, i) && front[i].id
                    == before[g].id && front[i].complexity == least_complexity(before, g);
            assert(was_admitted(start, candidates, i));
            assert(candidates[i] == front[i]);
        } else {
            if g < before.len() {
                assert(after[g].id == before[g].id);
            }
            assert(after[g].id == c.id);
            assert(was_admitted(start, candidates, last));
        }
    }
    assert forall|g: int, i: int|
        0 <= g < after.len() && 0 <= i < candidates.len() && #[trigger] was_admitted(
            start,
            candidates,
            i,
        ) && candidates[i].id == (#[trigger] after[g]).id implies least_complexity(after, g)
        <= candidates[i].complexity by {
        if i < last {
            assert(candidates[i] == front[i]);
            assert(was_admitted(start, front, i));
            assert(group_with_id(before, front[i].id).is_some());
            if g < before.len() {
                assert(after[g].id == before[g].id);
                assert(least_complexity(before, g) <= front[i].complexity);
            }
        }
    }
    assert forall|i: int|
        0 <= i < candidates.len() && #[trigger] was_admitted(
            start,
            candidates,
            i,
        ) implies group_with_id(after, candidates[i].id).is_some() by {
        if i < last {
            assert(candidates[i] == front[i]);
            assert(was_admitted(start, front, i));
            assert(group_with_id(before, front[i].id).is_some());
        }
    }
}

/// Whatever inputs are offered to an empty pool, in whatever order, the least
/// complex bucket of each group, which is its last, has the least of the
/// complexities of the inputs that the pool admitted for that failure.
pub proof fn lemma_last_bucket_is_least_admitted<T>(candidates: Seq<Candidate<T>>)
    requires
        candidates.len() < usize::MAX,
    ensures
        least_of_admitted(offered_to_empty(candidates), candidates),
    decreases candidates.len(),
{
    if candidates.len() > 0 {
        let front = candidates.drop_last();
        let c = candidates.last();
        let before = offered_to_empty(front);
        let after = offered_to_empty(candidates);
        lemma_last_bucket_is_least_admitted(front);
        lemma_offers_keep_well_formed(front);
        lemma_offer_step(before, after, c.id, c.display, c.complexity, c.input, front.len());
        lemma_admissions_of_prefix(candidates);
        lemma_least_of_admitted_step(
            before,
            after,
            candidates,
            position_of_new_input(before, c.id, c.display, c.complexity).is_some(),
        );
    }
}

/// An offer keeps a group for every failure that had one.
proof fn lemma_groups_are_kept<T>(
    groups: Seq<ErrorGroup<T>>,
    after: Seq<ErrorGroup<T>>,
    id: u64,
    display: Seq<char>,
    complexity: u64,
    input: Input<T>,
)
    requires
        well_formed(groups),
        representable(groups),
        after == offer(groups, id, display, complexity, input),
    ensures
        forall|other: u64| #[trigger]
            group_with_id(groups, other).is_some() ==> group_with_id(after, other).is_some(),
{
    lemma_group_with_id(groups, id);
    assert forall|other: u64| #[trigger] group_with_id(groups, other).is_some() implies
        group_with_id(after, other).is_some() by {
        lemma_group_with_id(groups, other);
        lemma_group_with_id(after, other);
        let h = group_with_id(groups, other).unwrap();
        match position_of_new_input(groups, id, display, complexity) {
            None => {},
            Some(position) => {
                match position {
                    PositionOfNewInput::NewError => {
                        assert(after[h] == groups[h]);
                    },
                    PositionOfNewInput::ExistingErrorNewCplx(p) => {
                        assert(group_with_id(groups, id) == Some(p as int));
                        assert(after[h].id == groups[h].id);
                    },
                    PositionOfNewInput::ExistingErrorAndCplx(p) => {
                        assert(group_with_id(groups, id) == Some(p as int));
                        assert(after[h].id == groups[h].id);
                    },
                }
            },
        }
    }
}

/// An offer leaves the least complexity of every group for another failure
/// as it was.
proof fn lemma_unchanged_unless_same_failure<T>(
    groups: Seq<ErrorGroup<T>>,
    id: u64,
    display: Seq<char>,
    complexity: u64,
    input: Input<T>,
    g: int,
)
    requires
        well_formed(groups),
        representable(groups),
        0 <= g < groups.len(),
        groups[g].id != id,
    ensures
        least_complexity(offer(groups, id, display, complexity, input), g) == least_complexity(
            groups,
            g,
        ),
{
    lemma_group_with_id(groups, id);
    match position_of_new_input(groups, id, display, complexity) {
        None => {},
        Some(position) => {
            match position {
                PositionOfNewInput::NewError => {},
                PositionOfNewInput::ExistingErrorNewCplx(p) => {
                    assert(group_with_id(groups, id) == Some(p as int));
                },
                PositionOfNewInput::ExistingErrorAndCplx(p) => {
                    assert(group_with_id(groups, id) == Some(p as int));
                },
            }
        },
    }
}

/// After an input was admitted, its failure has a group.
proof fn lemma_admitted_failure_has_group<T>(
    groups: Seq<ErrorGroup<T>>,
    id: u64,
    display: Seq<char>,
    complexity: u64,
    input: Input<T>,
)
    requires
        well_formed(groups),
        representable(groups),
        position_of_new_input(groups, id, display, complexity).is_some(),
    ensures
        group_with_id(offer(groups, id, display, complexity, input), id).is_some(),
{
    let after = offer(groups, id, display, complexity, input);
    lemma_group_with_id(groups, id);
    lemma_group_with_id(after, id);
    match position_of_new_input(groups, id, display, complexity).unwrap() {
        PositionOfNewInput::NewError => {
            assert(after[groups.len() as int].id == id);
        },
        PositionOfNewInput::ExistingErrorNewCplx(p) => {
            assert(group_with_id(groups, id) == Some(p as int));
            assert(after[p as int].id == id);
        },
        PositionOfNewInput::ExistingErrorAndCplx(p) => {
            assert(group_with_id(groups, id) == Some(p as int));
            assert(after[p as int].id == id);
        },
    }
}

/// An input that is less complex than every input kept for its failure is
/// admitted, and its complexity becomes the least of that failure's group:
/// when the least complex bucket of the group for `id` has the complexity
/// `greater`, an input for `id` of a complexity `lesser` below it is put in a
/// new bucket at the end of that group.
pub proof fn lemma_less_complex_input_is_admitted<T>(
    groups: Seq<ErrorGroup<T>>,
    g: int,
    id: u64,
    display: Seq<char>,
    lesser: u64,
    greater: u64,
    input: Input<T>,
)
    requires
        well_formed(groups),
        representable(groups),
        0 <= g < groups.len(),
        groups[g].id == id,
        least_complexity(groups, g) == greater,
        lesser < greater,
    ensures
        position_of_new_input(groups, id, display, lesser) == Some(
            PositionOfNewInput::ExistingErrorNewCplx(g as usize),
        ),
        offer(groups, id, display, lesser, input)[g].buckets.len() == groups[g].buckets.len() + 1,
        offer(groups, id, display, lesser, input)[g].buckets.last() == (ComplexityBucket {
            cplx: lesser,
            inputs: seq![input],
        }),
        least_complexity(offer(groups, id, display, lesser, input), g) == lesser,
{
    lemma_group_with_id(groups, id);
    let found = group_with_id(groups, id).unwrap();
    if found != g {
        assert(groups[found].id != groups[g].id);
    }
}

} // verus!
