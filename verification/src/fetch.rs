//! The fetch of one entity step by step, the outcomes of the fetches of a
//! run, and folding them into the groups.

use vstd::prelude::*;
use crate::entity::{Entity, EntityView};
use crate::group::{GroupView, entity_views};
use crate::registry::{Groups, groups_wf, merged};
use crate::reply::{entity_of_reading, metric_reading_of, parse_metric_reply};

verus! {

/// Why an entity could not be fetched. Whatever the reason, the entity is
/// left out of the run.
#[derive(Debug, Clone, Copy, PartialEq, Eq, Structural)]
pub enum FetchError {
    /// The provider knows no such entity.
    NotFound,
    /// The provider's answer was not in the expected form, or lacked a
    /// required field.
    Malformed,
    /// The provider could not be reached.
    Network,
    /// The entity was fetched, but its title record could not be written.
    Storage,
}

/// A fetch that failed, with the id it was for.
#[derive(Debug, Clone, PartialEq, Eq)]
pub struct FetchFailure {
    pub id: String,
    pub error: FetchError,
}

/// A failed fetch as plain values.
pub struct FailureView {
    pub id: Seq<char>,
    pub error: FetchError,
}

impl View for FetchFailure {
    type V = FailureView;

    open spec fn view(&self) -> FailureView {
        FailureView { id: self.id@, error: self.error }
    }
}

/// How the fetch of one entity ended.
#[derive(Debug, Clone, PartialEq, Eq)]
pub enum FetchOutcome {
    Fetched(Entity),
    Failed(FetchFailure),
}

/// The outcome of a fetch as plain values.
pub enum OutcomeView {
    Fetched(EntityView),
    Failed(FailureView),
}

impl View for FetchOutcome {
    type V = OutcomeView;

    open spec fn view(&self) -> OutcomeView {
        match self {
            FetchOutcome::Fetched(entity) => OutcomeView::Fetched(entity@),
            FetchOutcome::Failed(failure) => OutcomeView::Failed(failure@),
        }
    }
}

/// The fetch of one entity: what is to be done next, or how it ended.
///
/// A fetch alternates decisions with work that only the caller can do. Its
/// value says what is to be done; the caller does it and reports how it went
/// with [`Fetch::advance`].
#[derive(Debug, Clone)]
pub enum Fetch {
    /// A title record for the id is to be made sure of in storage.
    Sighting(String),
    /// The provider is to be asked about the id.
    Asking(String),
    /// The title record of the entity is to be refreshed with the entity's
    /// title.
    Refreshing(Entity),
    /// The fetch ended with this outcome.
    Done(FetchOutcome),
}

/// A fetch as plain values.
pub enum FetchView {
    Sighting(Seq<char>),
    Asking(Seq<char>),
    Refreshing(EntityView),
    Done(OutcomeView),
}

impl View for Fetch {
    type V = FetchView;

    open spec fn view(&self) -> FetchView {
        match self {
            Fetch::Sighting(id) => FetchView::Sighting(id@),
            Fetch::Asking(id) => FetchView::Asking(id@),
            Fetch::Refreshing(entity) => FetchView::Refreshing(entity@),
            Fetch::Done(outcome) => FetchView::Done(outcome@),
        }
    }
}

/// What the caller reports after doing what the fetch asked for.
#[derive(Debug, Clone, PartialEq, Eq)]
pub enum FetchEvent {
    /// The title record stands in storage.
    Sighted,
    /// Storage refused the title record.
    SightFailed,
    /// The provider answered with this body.
    Replied(String),
    /// The provider could not be reached.
    Unreachable,
    /// The refresh of the title record ended with a record.
    Refreshed,
    /// The refresh of the title record ended because a write failed.
    RefreshFailed,
}

/// An event as plain values.
pub enum FetchEventView {
    Sighted,
    SightFailed,
    Replied(Seq<char>),
    Unreachable,
    Refreshed,
    RefreshFailed,
}

impl View for FetchEvent {
    type V = FetchEventView;

    open spec fn view(&self) -> FetchEventView {
        match self {
            FetchEvent::Sighted => FetchEventView::Sighted,
            FetchEvent::SightFailed => FetchEventView::SightFailed,
            FetchEvent::Replied(body) => FetchEventView::Replied(body@),
            FetchEvent::Unreachable => FetchEventView::Unreachable,
            FetchEvent::Refreshed => FetchEventView::Refreshed,
            FetchEvent::RefreshFailed => FetchEventView::RefreshFailed,
        }
    }
}

/// The fetch of `id` ended in failure.
pub open spec fn failed(id: Seq<char>, error: FetchError) -> FetchView {
    FetchView::Done(OutcomeView::Failed(FailureView { id, error }))
}

/// The fetch after the caller reported `event`.
///
/// A title record that cannot be made sure of, or refreshed, fails the fetch
/// because of storage; a provider that cannot be reached fails it because of
/// the network; a reply fails it for the reason the reply is refused for, or
/// gives the entity whose title record is refreshed next. Once that is done
/// the entity is fetched. An event that answers nothing the fetch asked for
/// leaves it as it is.
pub open spec fn fetch_advanced(fetch: FetchView, event: FetchEventView) -> FetchView {
    match (fetch, event) {
        (FetchView::Sighting(id), FetchEventView::Sighted) => FetchView::Asking(id),
        (FetchView::Sighting(id), FetchEventView::SightFailed) => failed(id, FetchError::Storage),
        (FetchView::Asking(id), FetchEventView::Unreachable) => failed(id, FetchError::Network),
        (FetchView::Asking(id), FetchEventView::Replied(body)) => match entity_of_reading(
            id,
            metric_reading_of(body),
        ) {
            Ok(entity) => FetchView::Refreshing(entity),
            Err(error) => failed(id, error),
        },
        (FetchView::Refreshing(entity), FetchEventView::Refreshed) => FetchView::Done(
            OutcomeView::Fetched(entity),
        ),
        (FetchView::Refreshing(entity), FetchEventView::RefreshFailed) => failed(
            entity.id,
            FetchError::Storage,
        ),
        _ => fetch,
    }
}

impl Fetch {
    /// Begins the fetch of the entity `id`.
    pub fn begin(id: String) -> (fetch: Fetch)
        ensures
            fetch@ == FetchView::Sighting(id@),
    {
        Fetch::Sighting(id)
    }

    /// Takes the caller's report of what it did and says what comes next.
    pub fn advance(self, event: FetchEvent) -> (next: Fetch)
        ensures
            next@ == fetch_advanced(self@, event@),
    {
        match self {
            Fetch::Sighting(id) => match event {
                FetchEvent::Sighted => Fetch::Asking(id),
                FetchEvent::SightFailed => Fetch::Done(
                    FetchOutcome::Failed(FetchFailure { id, error: FetchError::Storage }),
                ),
                _ => Fetch::Sighting(id),
            },
            Fetch::Asking(id) => match event {
                FetchEvent::Unreachable => Fetch::Done(
                    FetchOutcome::Failed(FetchFailure { id, error: FetchError::Network }),
                ),
                FetchEvent::Replied(body) => match parse_metric_reply(id.clone(), body.as_str()) {
                    Ok(entity) => Fetch::Refreshing(entity),
                    Err(error) => Fetch::Done(FetchOutcome::Failed(FetchFailure { id, error })),
                },
                _ => Fetch::Asking(id),
            },
            Fetch::Refreshing(entity) => match event {
                FetchEvent::Refreshed => Fetch::Done(FetchOutcome::Fetched(entity)),
                FetchEvent::RefreshFailed => Fetch::Done(
                    FetchOutcome::Failed(
                        FetchFailure { id: entity.id, error: FetchError::Storage },
                    ),
                ),
                _ => Fetch::Refreshing(entity),
            },
            Fetch::Done(outcome) => Fetch::Done(outcome),
        }
    }

    /// How the fetch ended; `None` while something is left to do.
    pub fn into_outcome(self) -> (outcome: Option<FetchOutcome>)
        ensures
            match outcome {
                Some(o) => self@ == FetchView::Done(o@),
                None => !(self@ is Done),
            },
    {
        match self {
            Fetch::Done(outcome) => Some(outcome),
            _ => None,
        }
    }
}

/// The outcomes of a list as plain values, in order.
pub open spec fn outcome_views(outcomes: Seq<FetchOutcome>) -> Seq<OutcomeView> {
    Seq::new(outcomes.len(), |i: int| outcomes[i]@)
}

/// The failures of a list as plain values, in order.
pub open spec fn failure_views(failures: Seq<FetchFailure>) -> Seq<FailureView> {
    Seq::new(failures.len(), |i: int| failures[i]@)
}

/// The entities that were fetched, in the order of their outcomes.
pub open spec fn fetched_of(outcomes: Seq<OutcomeView>) -> Seq<EntityView>
    decreases outcomes.len(),
{
    if outcomes.len() == 0 {
        Seq::empty()
    } else {
        match outcomes.last() {
            OutcomeView::Fetched(entity) => fetched_of(outcomes.drop_last()).push(entity),
            OutcomeView::Failed(_) => fetched_of(outcomes.drop_last()),
        }
    }
}

/// The fetches that failed, in the order of their outcomes.
pub open spec fn failed_of(outcomes: Seq<OutcomeView>) -> Seq<FailureView>
    decreases outcomes.len(),
{
    if outcomes.len() == 0 {
        Seq::empty()
    } else {
        match outcomes.last() {
            OutcomeView::Fetched(_) => failed_of(outcomes.drop_last()),
            OutcomeView::Failed(failure) => failed_of(outcomes.drop_last()).push(failure),
        }
    }
}

/// The groups after each entity of `fresh` was merged, first to last.
pub open spec fn merged_all(groups: Seq<GroupView>, fresh: Seq<EntityView>) -> Seq<GroupView>
    decreases fresh.len(),
{
    if fresh.len() == 0 {
        groups
    } else {
        merged(merged_all(groups, fresh.drop_last()), fresh.last())
    }
}

/// The last entity of `fresh` that carries the id.
pub open spec fn last_with_id(fresh: Seq<EntityView>, id: Seq<char>) -> Option<EntityView>
    decreases fresh.len(),
{
    if fresh.len() == 0 {
        None
    } else if fresh.last().id == id {
        Some(fresh.last())
    } else {
        last_with_id(fresh.drop_last(), id)
    }
}

/// Parts the outcomes of a run: the entities that were fetched, and the
/// failures. One failure takes nothing away from the other outcomes; each
/// list keeps the order of the outcomes.
pub fn sort_outcomes(outcomes: &Vec<FetchOutcome>) -> (sorted: (Vec<Entity>, Vec<FetchFailure>))
    ensures
        entity_views(sorted.0@) == fetched_of(outcome_views(outcomes@)),
        failure_views(sorted.1@) == failed_of(outcome_views(outcomes@)),
{
    let mut fetched: Vec<Entity> = Vec::new();
    let mut failed: Vec<FetchFailure> = Vec::new();
    let mut i: usize = 0;
    while i < outcomes.len()
        invariant
            i <= outcomes.len(),
            entity_views(fetched@) == fetched_of(outcome_views(outcomes@).take(i as int)),
            failure_views(failed@) == failed_of(outcome_views(outcomes@).take(i as int)),
        decreases outcomes.len() - i,
    {
        let ghost seen = outcome_views(outcomes@).take(i as int);
        let ghost next = outcome_views(outcomes@).take(i + 1);
        assert(next.drop_last() =~= seen);
        assert(next.last() == outcomes[i as int]@);
        let ghost fetched_before = entity_views(fetched@);
        let ghost failed_before = failure_views(failed@);
        match &outcomes[i] {
            FetchOutcome::Fetched(entity) => {
                fetched.push(entity.duplicate());
                assert(entity_views(fetched@) =~= fetched_before.push(entity@));
            },
            FetchOutcome::Failed(failure) => {
                failed.push(FetchFailure { id: failure.id.clone(), error: failure.error });
                assert(failure_views(failed@) =~= failed_before.push(failure@));
            },
        }
        i = i + 1;
    }
    assert(outcome_views(outcomes@).take(outcomes.len() as int) =~= outcome_views(outcomes@));
    (fetched, failed)
}

impl Groups {
    /// Merges each entity of `fresh`, first to last. Every group keeps its
    /// members; a member takes the payload of the last entity of `fresh` that
    /// carries its id, and keeps its own when there is none.
    pub fn merge_all(&mut self, fresh: &Vec<Entity>)
        requires
            old(self).wf(),
        ensures
            final(self).wf(),
            final(self)@ == merged_all(old(self)@, entity_views(fresh@)),
    {
        let ghost before = self@;
        let mut i: usize = 0;
        while i < fresh.len()
            invariant
                i <= fresh.len(),
                self.wf(),
                self@ == merged_all(before, entity_views(fresh@).take(i as int)),
            decreases fresh.len() - i,
        {
            let ghost next = entity_views(fresh@).take(i + 1);
            assert(next.drop_last() =~= entity_views(fresh@).take(i as int));
            assert(next.last() == fresh[i as int]@);
            self.merge(&fresh[i]);
            i = i + 1;
        }
        assert(entity_views(fresh@).take(fresh.len() as int) =~= entity_views(fresh@));
    }
}

/// Merging a list of entities leaves every group with its name and its
/// members' ids; the payload of a member is that of the last merged entity
/// with its id, or its own when no merged entity carries its id.
pub proof fn law_merged_all_pointwise(groups: Seq<GroupView>, fresh: Seq<EntityView>)
    ensures
        merged_all(groups, fresh).len() == groups.len(),
        forall|g: int|
            0 <= g < groups.len() ==> (#[trigger] merged_all(groups, fresh)[g]).name
                == groups[g].name && merged_all(groups, fresh)[g].members.len()
                == groups[g].members.len(),
        forall|g: int, k: int|
            0 <= g < groups.len() && 0 <= k < groups[g].members.len() ==> (
            #[trigger] merged_all(groups, fresh)[g].members[k]) == (match last_with_id(
                fresh,
                groups[g].members[k].id,
            ) {
                Some(entity) => entity,
                None => groups[g].members[k],
            }),
        forall|g: int, k: int|
            0 <= g < groups.len() && 0 <= k < groups[g].members.len() ==> (
            #[trigger] merged_all(groups, fresh)[g].members[k]).id == groups[g].members[k].id,
    decreases fresh.len(),
{
    if fresh.len() > 0 {
        law_merged_all_pointwise(groups, fresh.drop_last());
        let rest = merged_all(groups, fresh.drop_last());
        let all = merged_all(groups, fresh);
        assert(all == merged(rest, fresh.last()));
        assert forall|g: int, k: int|
            0 <= g < groups.len() && 0 <= k < groups[g].members.len() implies (
        #[trigger] all[g].members[k]) == (match last_with_id(fresh, groups[g].members[k].id) {
            Some(entity) => entity,
            None => groups[g].members[k],
        }) && all[g].members[k].id == groups[g].members[k].id by {
            assert(rest[g].members[k].id == groups[g].members[k].id);
        }
    }
}

/// Merging keeps the groups well formed.
pub proof fn lemma_merged_all_wf(groups: Seq<GroupView>, fresh: Seq<EntityView>)
    requires
        groups_wf(groups),
    ensures
        groups_wf(merged_all(groups, fresh)),
    decreases fresh.len(),
{
    if fresh.len() > 0 {
        lemma_merged_all_wf(groups, fresh.drop_last());
        law_merge_order_is_irrelevant(
            merged_all(groups, fresh.drop_last()),
            fresh.last(),
            fresh.last(),
        );
    }
}

/// Entities with different ids can be merged in either order, and merging an
/// entity a second time changes nothing: the groups do not depend on the
/// order in which the fetches complete.
pub proof fn law_merge_order_is_irrelevant(groups: Seq<GroupView>, a: EntityView, b: EntityView)
    ensures
        a.id != b.id ==> merged(merged(groups, a), b) == merged(merged(groups, b), a),
        merged(merged(groups, a), a) == merged(groups, a),
        groups_wf(groups) ==> groups_wf(merged(groups, a)),
{
    if a.id != b.id {
        let ab = merged(merged(groups, a), b);
        let ba = merged(merged(groups, b), a);
        assert forall|g: int| 0 <= g < groups.len() implies ab[g] == ba[g] by {
            assert(ab[g].members =~= ba[g].members);
        }
        assert(ab =~= ba);
    }
    let aa = merged(merged(groups, a), a);
    let once = merged(groups, a);
    assert forall|g: int| 0 <= g < groups.len() implies aa[g] == once[g] by {
        assert(aa[g].members =~= once[g].members);
    }
    assert(aa =~= once);
    if groups_wf(groups) {
        assert forall|g: int| 0 <= g < once.len() implies crate::group::distinct_ids(
            #[trigger] once[g].members,
        ) by {
            assert(crate::group::distinct_ids(groups[g].members));
        }
    }
}

} // verus!
