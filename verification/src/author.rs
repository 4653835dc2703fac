//! The set of the stylesheets of one scope of a document, such as a shadow
//! root: a single collection.

use crate::collection::SheetCollection;
use crate::state::CollectionState;
use vstd::laws_eq::obeys_concrete_eq;
use vstd::prelude::*;

verus! {

/// The set of stylesheets effective for a given shadow root or binding.
///
/// As for the set of a document, whoever owns the set collects what a change
/// of sheets invalidates before each change.
pub struct AuthorStylesheetSet<S> {
    /// The actual style sheets.
    collection: SheetCollection<S>,
}

impl<S> View for AuthorStylesheetSet<S> {
    type V = CollectionState<S>;

    closed spec fn view(&self) -> CollectionState<S> {
        self.collection@
    }
}

impl<S> AuthorStylesheetSet<S> {
    /// Creates a new, empty set.
    pub fn new() -> (set: Self)
        ensures
            set@ == CollectionState::<S>::empty(),
            set@.wf(),
    {
        AuthorStylesheetSet { collection: SheetCollection::default() }
    }

    /// The collection that holds the sheets of the set.
    pub fn collection(&self) -> (collection: &SheetCollection<S>)
        ensures
            collection@ == self@,
    {
        &self.collection
    }

    /// Appends a new stylesheet to the set.
    pub fn append_stylesheet(&mut self, sheet: S)
        requires
            old(self)@.wf(),
            !old(self)@.contains(sheet),
        ensures
            final(self)@ == old(self)@.appended(sheet),
            final(self)@.wf(),
    {
        self.collection.append(sheet);
    }

    /// Puts a new stylesheet in front of the others.
    pub fn prepend_stylesheet(&mut self, sheet: S)
        requires
            old(self)@.wf(),
            !old(self)@.contains(sheet),
        ensures
            final(self)@ == old(self)@.prepended(sheet),
            final(self)@.wf(),
    {
        self.collection.prepend(sheet);
    }
}

impl<S: PartialEq> AuthorStylesheetSet<S> {
    /// Inserts a stylesheet just before another one of the set.
    pub fn insert_stylesheet_before(&mut self, sheet: S, before_sheet: S)
        requires
            obeys_concrete_eq::<S>(),
            old(self)@.wf(),
            !old(self)@.contains(sheet),
            old(self)@.contains(before_sheet),
        ensures
            final(self)@ == old(self)@.inserted_before(sheet, before_sheet),
            final(self)@.wf(),
    {
        self.collection.insert_before(sheet, &before_sheet);
    }

    /// Removes a stylesheet from the set.
    pub fn remove_stylesheet(&mut self, sheet: S)
        requires
            obeys_concrete_eq::<S>(),
            old(self)@.wf(),
            old(self)@.contains(sheet),
        ensures
            final(self)@ == old(self)@.removed(sheet),
            final(self)@.wf(),
    {
        self.collection.remove(&sheet);
    }
}

} // verus!
