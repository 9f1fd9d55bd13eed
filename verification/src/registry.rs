//! The working set of a run: every group with its current members.

use vstd::prelude::*;
use crate::entity::{Entity, EntityView, unobserved};
use crate::group::{
    Group, GroupView, distinct_ids, enrolled_members, entity_views, forgotten_members, has_member,
    merged_members,
};
use crate::text::texts;

verus! {

/// The groups of a list as plain values, in order.
pub open spec fn group_views(groups: Seq<Group>) -> Seq<GroupView> {
    Seq::new(groups.len(), |g: int| groups[g]@)
}

/// Some group carries the name.
pub open spec fn has_group(groups: Seq<GroupView>, name: Seq<char>) -> bool {
    exists|g: int| 0 <= g < groups.len() && groups[g].name == name
}

/// No two groups carry the same name.
pub open spec fn distinct_names(groups: Seq<GroupView>) -> bool {
    forall|g: int, h: int| 0 <= g < h < groups.len() ==> groups[g].name != groups[h].name
}

/// Names are unique among the groups, and ids within each group.
pub open spec fn groups_wf(groups: Seq<GroupView>) -> bool {
    &&& distinct_names(groups)
    &&& forall|g: int| 0 <= g < groups.len() ==> distinct_ids(#[trigger] groups[g].members)
}

/// Some group has a member with the id.
pub open spec fn known(groups: Seq<GroupView>, id: Seq<char>) -> bool {
    exists|g: int| 0 <= g < groups.len() && has_member(#[trigger] groups[g].members, id)
}

/// The group `name` exists and has a member with the id.
pub open spec fn is_member(groups: Seq<GroupView>, name: Seq<char>, id: Seq<char>) -> bool {
    exists|g: int|
        0 <= g < groups.len() && groups[g].name == name && has_member(groups[g].members, id)
}

/// The groups after an empty group `name` joined them, unless one was there.
pub open spec fn with_group(groups: Seq<GroupView>, name: Seq<char>) -> Seq<GroupView> {
    if has_group(groups, name) {
        groups
    } else {
        groups.push(GroupView { name, members: Seq::empty() })
    }
}

/// The groups after the entity `id` joined the group `name` with an empty
/// payload: a group of that name is created when there is none, and a member
/// that already carries the id stays as it is.
pub open spec fn enrolled(groups: Seq<GroupView>, name: Seq<char>, id: Seq<char>) -> Seq<
    GroupView,
> {
    let all = with_group(groups, name);
    Seq::new(
        all.len(),
        |g: int|
            if all[g].name == name {
                GroupView { name, members: enrolled_members(all[g].members, unobserved(id)) }
            } else {
                all[g]
            },
    )
}

/// The groups after each of `ids` was enrolled in the group `name`, first to
/// last.
pub open spec fn enrolled_all(groups: Seq<GroupView>, name: Seq<char>, ids: Seq<Seq<char>>) -> Seq<
    GroupView,
>
    decreases ids.len(),
{
    if ids.len() == 0 {
        groups
    } else {
        enrolled(enrolled_all(groups, name, ids.drop_last()), name, ids.last())
    }
}

/// A name that begins and ends with two underscores belongs to a table of
/// the system, such as the title cache, and to no group.
pub open spec fn is_system_name(name: Seq<char>) -> bool {
    &&& name.len() >= 2
    &&& name[0] == '_'
    &&& name[1] == '_'
    &&& name[name.len() - 1] == '_'
    &&& name[name.len() - 2] == '_'
}

/// Whether a table of this name can be a group's table.
pub fn is_group_name(name: &str) -> (group: bool)
    ensures
        group == !is_system_name(name@),
{
    let chars = crate::text::chars_of(name);
    let n = chars.len();
    !(n >= 2 && chars[0] == '_' && chars[1] == '_' && chars[n - 1] == '_' && chars[n - 2] == '_')
}

/// The groups with every payload forgotten: the same groups and members,
/// each member known by its id alone.
pub open spec fn forgotten(groups: Seq<GroupView>) -> Seq<GroupView> {
    Seq::new(
        groups.len(),
        |g: int| GroupView { name: groups[g].name, members: forgotten_members(groups[g].members) },
    )
}

/// The groups after `fresh` took the place of every member that carries its
/// id, in all groups.
pub open spec fn merged(groups: Seq<GroupView>, fresh: EntityView) -> Seq<GroupView> {
    Seq::new(
        groups.len(),
        |g: int|
            GroupView { name: groups[g].name, members: merged_members(groups[g].members, fresh) },
    )
}

/// Every group with its current members.
#[derive(Debug)]
pub struct Groups {
    groups: Vec<Group>,
}

impl View for Groups {
    type V = Seq<GroupView>;

    closed spec fn view(&self) -> Seq<GroupView> {
        group_views(self.groups@)
    }
}

impl Groups {
    /// Names are unique among the groups, and ids within each group.
    pub open spec fn wf(&self) -> bool {
        groups_wf(self@)
    }

    /// No groups.
    pub fn new() -> (groups: Groups)
        ensures
            groups@ == Seq::<GroupView>::empty(),
            groups.wf(),
    {
        let groups = Groups { groups: Vec::new() };
        assert(groups@ =~= Seq::<GroupView>::empty());
        groups
    }

    /// The groups, in the order they were added.
    pub fn groups(&self) -> (list: &Vec<Group>)
        ensures
            group_views(list@) == self@,
    {
        &self.groups
    }

    /// Number of groups.
    pub fn len(&self) -> (n: usize)
        ensures
            n == self@.len(),
    {
        self.groups.len()
    }

    /// Where the group of this name stands, if there is one.
    pub fn position(&self, name: &str) -> (at: Option<usize>)
        ensures
            match at {
                Some(g) => g < self@.len() && self@[g as int].name == name@ && forall|j: int|
                    0 <= j < g ==> self@[j].name != name@,
                None => !has_group(self@, name@),
            },
    {
        let key: String = name.to_owned();
        let mut i: usize = 0;
        while i < self.groups.len()
            invariant
                i <= self.groups.len(),
                key@ == name@,
                forall|g: int| 0 <= g < i ==> self@[g].name != name@,
            decreases self.groups.len() - i,
        {
            if *self.groups[i].name() == key {
                return Some(i);
            }
            i = i + 1;
        }
        None
    }

    /// The group of this name.
    pub fn group(&self, name: &str) -> (group: Option<&Group>)
        ensures
            match group {
                Some(g) => g@.name == name@ && exists|k: int|
                    0 <= k < self@.len() && self@[k] == g@ && forall|j: int|
                        0 <= j < k ==> self@[j].name != name@,
                None => !has_group(self@, name@),
            },
    {
        match self.position(name) {
            Some(g) => {
                assert(self@[g as int] == self.groups[g as int]@);
                Some(&self.groups[g])
            },
            None => None,
        }
    }

    /// Adds an empty group unless one of that name exists. Returns whether it
    /// was added.
    pub fn add_group(&mut self, name: String) -> (added: bool)
        requires
            old(self).wf(),
        ensures
            final(self).wf(),
            final(self)@ == with_group(old(self)@, name@),
            added == !has_group(old(self)@, name@),
    {
        if self.position(name.as_str()).is_some() {
            false
        } else {
            let ghost before = self@;
            self.groups.push(Group::new(name));
            assert(self@ =~= before.push(GroupView { name: name@, members: Seq::empty() }));
            true
        }
    }

    /// Makes the entity `id` a member of the group `name`, with an empty
    /// payload. The group is created when there is none; a member that already
    /// carries the id keeps its payload. Returns whether a member was added.
    pub fn enroll(&mut self, name: &str, id: String) -> (added: bool)
        requires
            old(self).wf(),
        ensures
            final(self).wf(),
            final(self)@ == enrolled(old(self)@, name@, id@),
            added == !is_member(old(self)@, name@, id@),
    {
        let ghost before = self@;
        self.add_group(name.to_owned());
        let ghost all = self@;
        match self.position(name) {
            Some(g) => {
                let added = self.groups[g].insert(Entity::new(id));
                proof {
                    assert forall|h: int| 0 <= h < all.len() && h != g implies all[h].name
                        != name@ by {
                        if h < g {
                            assert(all[h].name != all[g as int].name);
                        } else {
                            assert(all[g as int].name != all[h].name);
                        }
                    }
                    assert(self@ =~= enrolled(before, name@, id@));
                    if has_group(before, name@) {
                        assert(all == before);
                    } else {
                        assert(g == before.len());
                    }
                }
                added
            },
            None => {
                assert(has_group(all, name@)) by {
                    if has_group(before, name@) {
                    } else {
                        assert(all[all.len() - 1].name == name@);
                    }
                }
                false
            },
        }
    }

    /// Enrolls each of `ids` in the group `name`, first to last. Ids that the
    /// group already holds, and ids that occur twice, change nothing.
    pub fn enroll_all(&mut self, name: &str, ids: &Vec<String>)
        requires
            old(self).wf(),
        ensures
            final(self).wf(),
            final(self)@ == enrolled_all(old(self)@, name@, texts(ids@)),
    {
        let mut i: usize = 0;
        while i < ids.len()
            invariant
                i <= ids.len(),
                self.wf(),
                self@ == enrolled_all(old(self)@, name@, texts(ids@).take(i as int)),
            decreases ids.len() - i,
        {
            let ghost next = texts(ids@).take(i + 1);
            assert(next.drop_last() =~= texts(ids@).take(i as int));
            assert(next.last() == ids[i as int]@);
            self.enroll(name, ids[i].clone());
            i = i + 1;
        }
        assert(texts(ids@).take(ids.len() as int) =~= texts(ids@));
    }

    /// Forgets every payload, as at the start of a run: the groups keep their
    /// members, and no member carries a title or a metric of an earlier run.
    pub fn forget(&mut self)
        requires
            old(self).wf(),
        ensures
            final(self).wf(),
            final(self)@ == forgotten(old(self)@),
    {
        let ghost before = self@;
        let mut i: usize = 0;
        while i < self.groups.len()
            invariant
                i <= self.groups.len(),
                self@.len() == before.len(),
                groups_wf(before),
                forall|g: int| 0 <= g < i ==> self@[g] == forgotten(before)[g],
                forall|g: int| i <= g < before.len() ==> self@[g] == before[g],
            decreases self.groups.len() - i,
        {
            let ghost current = self@;
            assert(self.groups[i as int]@ == before[i as int]);
            assert(distinct_ids(before[i as int].members));
            self.groups[i].forget();
            assert(self@[i as int] == forgotten(before)[i as int]);
            assert forall|g: int| 0 <= g <= i implies self@[g] == forgotten(before)[g] by {
                if g < i {
                    assert(self@[g] == current[g]);
                }
            }
            assert forall|g: int| i < g < before.len() implies self@[g] == before[g] by {
                assert(self@[g] == current[g]);
            }
            i = i + 1;
        }
        assert(self@ =~= forgotten(before));
        assert forall|g: int| 0 <= g < self@.len() implies distinct_ids(
            #[trigger] self@[g].members,
        ) by {
            assert(distinct_ids(before[g].members));
        }
    }

    /// Folds a freshly fetched entity back in: in every group that has a member
    /// with its id, `fresh` takes that member's place. Groups without such a
    /// member stay as they are, and no group gains or loses a member.
    pub fn merge(&mut self, fresh: &Entity)
        requires
            old(self).wf(),
        ensures
            final(self).wf(),
            final(self)@ == merged(old(self)@, fresh@),
    {
        let ghost before = self@;
        let mut i: usize = 0;
        while i < self.groups.len()
            invariant
                i <= self.groups.len(),
                self@.len() == before.len(),
                groups_wf(before),
                forall|g: int| 0 <= g < i ==> self@[g] == merged(before, fresh@)[g],
                forall|g: int| i <= g < before.len() ==> self@[g] == before[g],
            decreases self.groups.len() - i,
        {
            let ghost current = self@;
            assert(self.groups[i as int]@ == before[i as int]);
            assert(distinct_ids(before[i as int].members));
            self.groups[i].merge(fresh);
            assert(self@[i as int] == merged(before, fresh@)[i as int]);
            assert forall|g: int| 0 <= g <= i implies self@[g] == merged(before, fresh@)[g] by {
                if g < i {
                    assert(self@[g] == current[g]);
                }
            }
            assert forall|g: int| i < g < before.len() implies self@[g] == before[g] by {
                assert(self@[g] == current[g]);
            }
            i = i + 1;
        }
        assert(self@ =~= merged(before, fresh@));
        assert forall|g: int| 0 <= g < self@.len() implies distinct_ids(
            #[trigger] self@[g].members,
        ) by {
            assert(distinct_ids(before[g].members));
        }
    }

    /// The id of every entity that some group holds, each once, however many
    /// groups share it.
    pub fn all_unique_entities(&self) -> (ids: Vec<String>)
        ensures
            texts(ids@).no_duplicates(),
            forall|id: Seq<char>| texts(ids@).contains(id) <==> known(self@, id),
    {
        let mut ids: Vec<String> = Vec::new();
        let mut g: usize = 0;
        while g < self.groups.len()
            invariant
                g <= self.groups.len(),
                texts(ids@).no_duplicates(),
                forall|id: Seq<char>| texts(ids@).contains(id) ==> known(self@, id),
                forall|h: int, k: int|
                    0 <= h < g && 0 <= k < self@[h].members.len() ==> texts(ids@).contains(
                        (#[trigger] self@[h].members[k]).id,
                    ),
            decreases self.groups.len() - g,
        {
            let members = self.groups[g].members();
            let mut m: usize = 0;
            while m < members.len()
                invariant
                    g < self.groups.len(),
                    m <= members.len(),
                    entity_views(members@) == self@[g as int].members,
                    texts(ids@).no_duplicates(),
                    forall|id: Seq<char>| texts(ids@).contains(id) ==> known(self@, id),
                    forall|h: int, k: int|
                        0 <= h < g && 0 <= k < self@[h].members.len() ==> texts(ids@).contains(
                            (#[trigger] self@[h].members[k]).id,
                        ),
                    forall|k: int|
                        0 <= k < m ==> texts(ids@).contains(
                            (#[trigger] self@[g as int].members[k]).id,
                        ),
                decreases members.len() - m,
            {
                let id = &members[m].id;
                assert(self@[g as int].members[m as int] == members[m as int]@);
                assert(has_member(self@[g as int].members, id@));
                assert(known(self@, id@));
                let ghost seen = texts(ids@);
                if !holds_text(&ids, id) {
                    ids.push(id.clone());
                    assert(texts(ids@) =~= seen.push(id@));
                    assert forall|x: Seq<char>| seen.contains(x) implies texts(ids@).contains(
                        x,
                    ) by {
                        let i = choose|i: int| 0 <= i < seen.len() && seen[i] == x;
                        assert(texts(ids@)[i] == x);
                    }
                    assert(texts(ids@)[seen.len() as int] == id@);
                    assert forall|x: Seq<char>| texts(ids@).contains(x) implies known(
                        self@,
                        x,
                    ) by {
                        let i = choose|i: int| 0 <= i < texts(ids@).len() && texts(ids@)[i] == x;
                        if i < seen.len() {
                            assert(seen[i] == x);
                        }
                    }
                }
                m = m + 1;
            }
            g = g + 1;
        }
        assert forall|id: Seq<char>| known(self@, id) implies texts(ids@).contains(id) by {
            let h = choose|h: int| 0 <= h < self@.len() && has_member(self@[h].members, id);
            let k = choose|k: int|
                0 <= k < self@[h].members.len() && self@[h].members[k].id == id;
            assert(self@[h].members[k].id == id);
        }
        ids
    }
}

/// Whether `list` holds a string with the characters of `text`.
pub fn holds_text(list: &Vec<String>, text: &String) -> (found: bool)
    ensures
        found == texts(list@).contains(text@),
{
    let mut i: usize = 0;
    while i < list.len()
        invariant
            i <= list.len(),
            forall|k: int| 0 <= k < i ==> texts(list@)[k] != text@,
        decreases list.len() - i,
    {
        if list[i] == *text {
            assert(texts(list@)[i as int] == text@);
            return true;
        }
        i = i + 1;
    }
    false
}

} // verus!
