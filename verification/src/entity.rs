//! Entities: a stable id with a title and a metric as mutable payload.

use vstd::prelude::*;

verus! {

/// The characters of an optional string.
pub open spec fn optional_text(text: Option<String>) -> Option<Seq<char>> {
    match text {
        Some(s) => Some(s@),
        None => None,
    }
}

/// A copy of an optional string.
pub fn copy_optional_text(text: &Option<String>) -> (copy: Option<String>)
    ensures
        optional_text(copy) == optional_text(*text),
{
    match text {
        Some(s) => Some(s.clone()),
        None => None,
    }
}

/// A tracked item. Two entities with the same `id` are the same entity,
/// whatever their payload: `==` compares the ids and nothing else.
#[derive(Debug, Clone)]
pub struct Entity {
    pub id: String,
    pub title: Option<String>,
    pub metric: Option<i64>,
}

impl PartialEq for Entity {
    fn eq(&self, other: &Entity) -> (same: bool) {
        self.id == other.id
    }
}

impl Eq for Entity {

}

impl vstd::std_specs::cmp::PartialEqSpecImpl for Entity {
    open spec fn obeys_eq_spec() -> bool {
        true
    }

    open spec fn eq_spec(&self, other: &Entity) -> bool {
        self.id@ == other.id@
    }
}

/// An entity as plain values.
pub struct EntityView {
    pub id: Seq<char>,
    pub title: Option<Seq<char>>,
    pub metric: Option<i64>,
}

impl View for Entity {
    type V = EntityView;

    open spec fn view(&self) -> EntityView {
        EntityView { id: self.id@, title: optional_text(self.title), metric: self.metric }
    }
}

/// The entity `id` before anything was observed of it.
pub open spec fn unobserved(id: Seq<char>) -> EntityView {
    EntityView { id, title: None, metric: None }
}

impl Entity {
    /// An entity known by its id alone.
    pub fn new(id: String) -> (entity: Entity)
        ensures
            entity@ == unobserved(id@),
    {
        Entity { id, title: None, metric: None }
    }

    /// A copy with the same id and payload.
    pub fn duplicate(&self) -> (copy: Entity)
        ensures
            copy@ == self@,
    {
        Entity { id: self.id.clone(), title: copy_optional_text(&self.title), metric: self.metric }
    }
}

} // verus!
