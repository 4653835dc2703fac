//! The session that a flush opens: which origins changed, how valid their
//! data was, and the cursors that hand out the sheets to rebuild.

use crate::collection::{states, PerOriginFlusher, SheetCollection, StylesheetCollectionIterator};
use crate::origin::{Origin, OriginSet, PerOrigin};
use crate::state::document_wf;
use crate::validity::DataValidity;
use vstd::prelude::*;

verus! {

/// What a flush found, and access to the sheets of each origin for the
/// rebuild that follows. While it lives, the set that it was taken from
/// cannot be changed.
pub struct StylesheetFlusher<'a, S> {
    /// The origins that had changed when the flush began.
    pub origins_dirty: OriginSet,
    /// The collections of the set that is flushed.
    pub collections: &'a mut PerOrigin<SheetCollection<S>>,
    /// The validity that the data of each origin had when the flush began.
    pub origin_data_validity: PerOrigin<DataValidity>,
    /// Whether the flush led to any invalidation in the document.
    pub had_invalidations: bool,
}

impl<'a, S> StylesheetFlusher<'a, S> {
    /// Every collection is well formed and clean, and an origin whose data
    /// was not valid is among the dirty ones.
    pub open spec fn wf(&self) -> bool {
        &&& document_wf(states(*self.collections))
        &&& forall|origin: Origin| !(#[trigger] states(*self.collections).get(origin)).dirty
        &&& forall|origin: Origin|
            #[trigger] self.origin_data_validity.get(origin) != DataValidity::Valid
                ==> self.origins_dirty@.contains(origin)
    }

    /// The validity that the data of `origin` had when the flush began.
    pub fn data_validity(&self, origin: Origin) -> (validity: DataValidity)
        ensures
            validity == self.origin_data_validity.get(origin),
    {
        *self.origin_data_validity.borrow_for_origin(&origin)
    }

    /// Whether `origin` had changed in any way when the flush began.
    pub fn origin_dirty(&self, origin: Origin) -> (b: bool)
        ensures
            b == self.origins_dirty@.contains(origin),
    {
        self.origins_dirty.contains(origin)
    }

    /// Returns a cursor over all the stylesheets of the user-agent origin,
    /// whether they need work or not. The cursor marks no entry as
    /// committed, so a sheet that only this cursor has handed out still
    /// counts as unseen when it is removed.
    pub fn manual_origin_sheets<'b>(&'b mut self, origin: Origin) -> (it:
        StylesheetCollectionIterator<'b, S>) where 'a: 'b
        requires
            origin == Origin::UserAgent,
        ensures
            it.remaining() == states(*old(self).collections).get(origin).sheets(),
            *final(self) == *old(self),
    {
        self.collections.borrow_for_origin(&origin).iter()
    }

    /// Returns the cursor that hands out the stylesheets of `origin` that
    /// need work, given the validity that the origin's data had when the
    /// flush began.
    pub fn origin_sheets<'b>(&'b mut self, origin: Origin) -> (flusher: PerOriginFlusher<
        'b,
        S,
    >) where 'a: 'b
        requires
            old(self).wf(),
        ensures
            flusher.wf(),
            flusher.pos == 0,
            flusher.validity == old(self).origin_data_validity.get(origin),
            flusher.entries@ == states(*old(self).collections).get(origin).entries,
            final(self).origins_dirty == old(self).origins_dirty,
            final(self).origin_data_validity == old(self).origin_data_validity,
            final(self).had_invalidations == old(self).had_invalidations,
            *final(final(self).collections) == *final(old(self).collections),
            states(*final(self).collections) == states(*old(self).collections).with(
                origin,
                states(*old(self).collections).get(origin).with_entries(
                    final(flusher.entries)@,
                ),
            ),
    {
        let validity = self.data_validity(origin);
        self.collections.borrow_mut_for_origin(&origin).flusher(validity)
    }

    /// Returns whether running the whole flush would change nothing: no
    /// origin had changed.
    pub fn nothing_to_do(&self) -> (b: bool)
        ensures
            b == (self.origins_dirty@ == Set::<Origin>::empty()),
    {
        self.origins_dirty.is_empty()
    }

    /// Returns whether the flush led to any invalidation in the document.
    pub fn had_invalidations(&self) -> (b: bool)
        ensures
            b == self.had_invalidations,
    {
        self.had_invalidations
    }
}

} // verus!
