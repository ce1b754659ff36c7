//! Canonical entity references as plain values.
use vstd::prelude::*;

verus! {

/// A canonical entity reference: its kind token (for example `object.revision`) and identifier.
#[derive(Debug, Clone)]
pub struct EntityRef {
    /// Canonical identifier text.
    pub entity_id: String,
    /// Canonical kind token.
    pub entity_kind: String,
}

impl View for EntityRef {
    type V = (Seq<char>, Seq<char>);

    open spec fn view(&self) -> (Seq<char>, Seq<char>) {
        (self.entity_id@, self.entity_kind@)
    }
}

impl EntityRef {
    /// Build a reference from its identifier and kind.
    pub fn new(entity_id: &str, entity_kind: &str) -> (r: EntityRef)
        ensures
            r.entity_id@ == entity_id@,
            r.entity_kind@ == entity_kind@,
    {
        EntityRef { entity_id: String::from_str(entity_id), entity_kind: String::from_str(entity_kind) }
    }

    /// Copy of this reference.
    pub fn duplicate(&self) -> (r: EntityRef)
        ensures
            r@ == self@,
    {
        EntityRef { entity_id: self.entity_id.clone(), entity_kind: self.entity_kind.clone() }
    }

    /// Whether both references name the same entity.
    pub fn same_as(&self, other: &EntityRef) -> (r: bool)
        ensures
            r == (self@ == other@),
    {
        self.entity_id == other.entity_id && self.entity_kind == other.entity_kind
    }

    /// Whether the reference has kind `kind`.
    pub fn has_kind(&self, kind: &str) -> (r: bool)
        ensures
            r == (self.entity_kind@ == kind@),
    {
        let k = String::from_str(kind);
        self.entity_kind == k
    }
}

} // verus!
