//! Groups: named sets of entities in which an entity is known by its id.

use vstd::prelude::*;
use crate::entity::{Entity, EntityView, unobserved};

verus! {

/// The entities of a list as plain values, in order.
pub open spec fn entity_views(members: Seq<Entity>) -> Seq<EntityView> {
    Seq::new(members.len(), |i: int| members[i]@)
}

/// Some member carries the id.
pub open spec fn has_member(members: Seq<EntityView>, id: Seq<char>) -> bool {
    exists|k: int| 0 <= k < members.len() && members[k].id == id
}

/// No two members carry the same id.
pub open spec fn distinct_ids(members: Seq<EntityView>) -> bool {
    forall|i: int, j: int| 0 <= i < j < members.len() ==> members[i].id != members[j].id
}

/// The members after `fresh` took the place of the member with its id; the
/// same members when none has that id.
pub open spec fn merged_members(members: Seq<EntityView>, fresh: EntityView) -> Seq<EntityView> {
    Seq::new(
        members.len(),
        |k: int|
            if members[k].id == fresh.id {
                fresh
            } else {
                members[k]
            },
    )
}

/// The members after `entity` joined them, unless its id was already there.
pub open spec fn enrolled_members(members: Seq<EntityView>, entity: EntityView) -> Seq<
    EntityView,
> {
    if has_member(members, entity.id) {
        members
    } else {
        members.push(entity)
    }
}

/// The members with their payload forgotten: each known by its id alone.
pub open spec fn forgotten_members(members: Seq<EntityView>) -> Seq<EntityView> {
    Seq::new(members.len(), |k: int| unobserved(members[k].id))
}

/// A group as plain values: its name and its members in the order they joined.
pub struct GroupView {
    pub name: Seq<char>,
    pub members: Seq<EntityView>,
}

/// A named set of entities, unique by id.
#[derive(Debug)]
pub struct Group {
    name: String,
    members: Vec<Entity>,
}

impl View for Group {
    type V = GroupView;

    closed spec fn view(&self) -> GroupView {
        GroupView { name: self.name@, members: entity_views(self.members@) }
    }
}

impl Group {
    /// Every member has an id of its own.
    pub open spec fn wf(&self) -> bool {
        distinct_ids(self@.members)
    }

    /// An empty group.
    pub fn new(name: String) -> (group: Group)
        ensures
            group@.name == name@,
            group@.members == Seq::<EntityView>::empty(),
            group.wf(),
    {
        let group = Group { name, members: Vec::new() };
        assert(group@.members =~= Seq::<EntityView>::empty());
        group
    }

    /// The group's name.
    pub fn name(&self) -> (name: &String)
        ensures
            name@ == self@.name,
    {
        &self.name
    }

    /// The members, in the order they joined.
    pub fn members(&self) -> (members: &Vec<Entity>)
        ensures
            entity_views(members@) == self@.members,
    {
        &self.members
    }

    /// Number of members.
    pub fn len(&self) -> (n: usize)
        ensures
            n == self@.members.len(),
    {
        self.members.len()
    }

    /// Where the member with this id stands, if there is one.
    pub fn position(&self, id: &str) -> (at: Option<usize>)
        ensures
            match at {
                Some(k) => k < self@.members.len() && self@.members[k as int].id == id@
                    && forall|j: int| 0 <= j < k ==> self@.members[j].id != id@,
                None => !has_member(self@.members, id@),
            },
    {
        let key: String = id.to_owned();
        let mut i: usize = 0;
        while i < self.members.len()
            invariant
                i <= self.members.len(),
                key@ == id@,
                forall|k: int| 0 <= k < i ==> self@.members[k].id != id@,
            decreases self.members.len() - i,
        {
            if self.members[i].id == key {
                return Some(i);
            }
            i = i + 1;
        }
        None
    }

    /// Whether a member carries this id.
    pub fn contains(&self, id: &str) -> (found: bool)
        ensures
            found == has_member(self@.members, id@),
    {
        self.position(id).is_some()
    }

    /// The member with this id.
    pub fn get(&self, id: &str) -> (member: Option<&Entity>)
        ensures
            match member {
                Some(e) => e@.id == id@ && exists|k: int|
                    0 <= k < self@.members.len() && self@.members[k] == e@ && forall|j: int|
                        0 <= j < k ==> self@.members[j].id != id@,
                None => !has_member(self@.members, id@),
            },
    {
        match self.position(id) {
            Some(k) => {
                assert(self@.members[k as int] == self.members[k as int]@);
                Some(&self.members[k])
            },
            None => None,
        }
    }

    /// Adds `entity` unless a member already carries its id; the member that
    /// is already there keeps its payload. Returns whether it was added.
    pub fn insert(&mut self, entity: Entity) -> (added: bool)
        requires
            old(self).wf(),
        ensures
            final(self).wf(),
            final(self)@.name == old(self)@.name,
            final(self)@.members == enrolled_members(old(self)@.members, entity@),
            added == !has_member(old(self)@.members, entity@.id),
    {
        if self.position(entity.id.as_str()).is_some() {
            false
        } else {
            let ghost before = self@.members;
            self.members.push(entity);
            assert(self@.members =~= before.push(entity@));
            true
        }
    }

    /// Forgets the payload of every member: each keeps its id and its place,
    /// and carries neither title nor metric.
    pub fn forget(&mut self)
        requires
            old(self).wf(),
        ensures
            final(self).wf(),
            final(self)@.name == old(self)@.name,
            final(self)@.members == forgotten_members(old(self)@.members),
    {
        let ghost before = self@.members;
        let mut k: usize = 0;
        while k < self.members.len()
            invariant
                k <= self.members.len(),
                self.members.len() == before.len(),
                self.name == old(self).name,
                forall|j: int| 0 <= j < k ==> self@.members[j] == unobserved(before[j].id),
                forall|j: int| k <= j < before.len() ==> self@.members[j] == before[j],
            decreases self.members.len() - k,
        {
            let ghost current = self@.members;
            assert(current[k as int] == self.members[k as int]@);
            let id = self.members[k].id.clone();
            self.members.set(k, Entity::new(id));
            assert forall|j: int| 0 <= j <= k implies self@.members[j] == unobserved(
                before[j].id,
            ) by {
                if j < k {
                    assert(self@.members[j] == current[j]);
                }
            }
            assert forall|j: int| k < j < before.len() implies self@.members[j] == before[j] by {
                assert(self@.members[j] == current[j]);
            }
            k = k + 1;
        }
        assert(self@.members =~= forgotten_members(before));
    }

    /// Puts `fresh` in the place of the member that carries its id. A group
    /// without such a member stays as it is. Returns whether a member was
    /// replaced.
    pub fn merge(&mut self, fresh: &Entity) -> (replaced: bool)
        requires
            old(self).wf(),
        ensures
            final(self).wf(),
            final(self)@.name == old(self)@.name,
            final(self)@.members == merged_members(old(self)@.members, fresh@),
            replaced == has_member(old(self)@.members, fresh@.id),
    {
        match self.position(fresh.id.as_str()) {
            Some(k) => {
                let ghost before = self@.members;
                self.members.set(k, fresh.duplicate());
                assert(self@.members =~= merged_members(before, fresh@));
                true
            },
            None => {
                assert(self@.members =~= merged_members(self@.members, fresh@));
                false
            },
        }
    }
}

/// Merging the same id twice leaves the members that merging the second
/// payload alone leaves: no member is added or lost, exactly one member
/// carries the id, and it holds the payload merged last. Merging that payload
/// once more changes nothing.
pub proof fn law_merge_twice_keeps_last(
    members: Seq<EntityView>,
    first: EntityView,
    second: EntityView,
)
    requires
        distinct_ids(members),
        has_member(members, first.id),
        first.id == second.id,
    ensures
        ({
            let after = merged_members(merged_members(members, first), second);
            &&& after == merged_members(members, second)
            &&& after.len() == members.len()
            &&& distinct_ids(after)
            &&& exists|k: int|
                0 <= k < after.len() && after[k] == second && forall|j: int|
                    0 <= j < after.len() && j != k ==> after[j].id != second.id
            &&& merged_members(after, second) == after
        }),
{
    let once = merged_members(members, first);
    let after = merged_members(once, second);
    assert(after =~= merged_members(members, second));
    assert(merged_members(after, second) =~= after);
    let k = choose|k: int| 0 <= k < members.len() && members[k].id == first.id;
    assert(after[k] == second);
    assert forall|j: int| 0 <= j < after.len() && j != k implies after[j].id != second.id by {
        if j < k {
            assert(members[j].id != members[k].id);
        } else {
            assert(members[k].id != members[j].id);
        }
    }
}

} // verus!
