//! The persistence capability the resource manager is built on, and the
//! relation its contracts maintain between a preview list and the store.

use vstd::prelude::*;
use crate::lok::{preview_of, Lok, LokView};
use crate::preview_lok::{PreviewLok, PreviewView};

verus! {

/// An error from the persistent store.
#[derive(Debug)]
pub enum DatabaseError {
    ConnectionError,
    GeneralError(String),
    SpecificError(String),
}

/// The abstract values of a sequence of previews.
pub open spec fn views_of(s: Seq<PreviewLok>) -> Seq<PreviewView> {
    s.map_values(|p: PreviewLok| p@)
}

/// The ids of a sequence of previews, in order.
pub open spec fn ids_of(s: Seq<PreviewView>) -> Seq<u32> {
    s.map_values(|p: PreviewView| p.id)
}

/// A preview sequence mirrors a store exactly: every entry is the projection
/// of the row under its id, no id occurs twice, and every row is represented.
pub open spec fn previews_consistent(s: Seq<PreviewView>, m: Map<u32, LokView>) -> bool {
    &&& forall|i: int|
        0 <= i < s.len() ==> m.dom().contains((#[trigger] s[i]).id) && s[i] == preview_of(
            m[s[i].id],
            s[i].id,
        )
    &&& forall|i: int, j: int|
        0 <= i < j < s.len() ==> (#[trigger] s[i]).id != (#[trigger] s[j]).id
    &&& forall|id: u32| #[trigger]
        m.dom().contains(id) ==> exists|i: int| 0 <= i < s.len() && (#[trigger] s[i]).id == id
}

/// The persistence abstraction: create or open, insert, fetch, update,
/// delete, and list previews. The resource manager consumes this capability
/// and never implements it; a concrete store (a SQL-backed one) lives outside
/// the verified world, and its conformance to these contracts is trusted.
pub trait Backend: Sized {
    /// The rows the store currently holds, as a map from id to record
    /// value. The default body leaves the map opaque, so an implementor
    /// outside the verified world need not, and cannot, say anything
    /// about it beyond what the method contracts state.
    closed spec fn store(&self) -> Map<u32, LokView> {
        arbitrary()
    }

    /// Creates the underlying storage if it is absent, otherwise opens it,
    /// ready for the other operations; fails with a store error otherwise.
    /// An opened store holds finitely many rows.
    fn build(db_url: &str) -> (r: Result<Self, DatabaseError>)
        ensures
            match r {
                Ok(b) => b.store().dom().finite(),
                Err(_) => true,
            },
    ;

    /// Inserts a record under a fresh id and returns that id. The caller
    /// leaves room in the id space: a store whose ids are exhausted could
    /// not keep this promise and may fail instead.
    fn insert(&mut self, lok: Lok) -> (id: u32)
        requires
            old(self).store().dom().len() < u32::MAX as nat,
        ensures
            !old(self).store().dom().contains(id),
            final(self).store() == old(self).store().insert(id, lok@),
    ;

    /// Fetches the record under an id, or reports that the store lacks it.
    fn get(&self, id: u32) -> (r: Option<Lok>)
        ensures
            match r {
                Some(l) => self.store().dom().contains(id) && l@ == self.store()[id],
                None => !self.store().dom().contains(id),
            },
    ;

    /// Overwrites every field of the row under an id; a store without that
    /// id is left unchanged.
    fn update(&mut self, id: u32, new_lok: &Lok)
        ensures
            final(self).store() == if old(self).store().dom().contains(id) {
                old(self).store().insert(id, new_lok@)
            } else {
                old(self).store()
            },
    ;

    /// Deletes the row under an id; deleting an absent id changes nothing.
    fn remove(&mut self, id: u32)
        ensures
            final(self).store() == old(self).store().remove(id),
    ;

    /// Lists one preview per row, in no particular order.
    fn get_all_previews(&self) -> (r: Vec<PreviewLok>)
        ensures
            previews_consistent(views_of(r@), self.store()),
    ;
}

} // verus!
