//! The set of the stylesheets of a document, kept by origin.

use crate::collection::{states, SheetCollection, StylesheetCollectionIterator};
use crate::flusher::StylesheetFlusher;
use crate::origin::{
    lemma_drop_first_contains, lemma_origins_from, origins_from, Origin, OriginSet,
    OriginSetIterator, PerOrigin,
};
use crate::state::{
    any_dirty, dirty_origins, document_wf, empty_document, flattened, flushed_document,
    raised_document, sheets_in, tagged, total_len, validities, DocumentState,
};
use crate::validity::DataValidity;
use vstd::laws_eq::obeys_concrete_eq;
use vstd::prelude::*;

verus! {

/// The set of stylesheets effective for a given document.
///
/// The set keeps the sheets and what they ask of the next rebuild. What a
/// change of sheets invalidates in the document itself is not its business:
/// whoever owns the set collects that before each change, and hands the
/// outcome to `flush`.
pub struct DocumentStylesheetSet<S> {
    /// The collections of sheets, one per origin.
    collections: PerOrigin<SheetCollection<S>>,
    /// Whether the removal of a user-agent sheet that is not in the set is
    /// passed over in silence.
    ignore_missing_user_agent_sheets: bool,
}

impl<S> View for DocumentStylesheetSet<S> {
    type V = DocumentState<S>;

    closed spec fn view(&self) -> DocumentState<S> {
        states(self.collections)
    }
}

impl<S> DocumentStylesheetSet<S> {
    /// Whether `remove_stylesheet` passes over a user-agent sheet that is
    /// not in the set. The sheets of the other origins have to be there.
    pub closed spec fn ignores_missing_user_agent_sheets(&self) -> bool {
        self.ignore_missing_user_agent_sheets
    }

    /// Every collection of the set is well formed.
    pub open spec fn wf(&self) -> bool {
        document_wf(self@)
    }

    /// Creates a new, empty set. In it, the removal of a sheet that is not
    /// there is an error for every origin.
    pub fn new() -> (set: Self)
        ensures
            set@ == empty_document::<S>(),
            !set.ignores_missing_user_agent_sheets(),
            set.wf(),
    {
        DocumentStylesheetSet {
            collections: PerOrigin {
                user_agent: SheetCollection::default(),
                user: SheetCollection::default(),
                author: SheetCollection::default(),
            },
            ignore_missing_user_agent_sheets: false,
        }
    }

    /// Returns whether the removal of a user-agent sheet that is not in the
    /// set is passed over in silence.
    pub fn ignore_missing_user_agent_sheets(&self) -> (ignore: bool)
        ensures
            ignore == self.ignores_missing_user_agent_sheets(),
    {
        self.ignore_missing_user_agent_sheets
    }

    /// Says whether the removal of a user-agent sheet that is not in the set
    /// is to be passed over in silence. This is for embedders that are known
    /// to remove such sheets more than once.
    pub fn set_ignore_missing_user_agent_sheets(&mut self, ignore: bool)
        ensures
            final(self)@ == old(self)@,
            final(self).ignores_missing_user_agent_sheets() == ignore,
    {
        self.ignore_missing_user_agent_sheets = ignore;
    }

    /// Appends a new stylesheet to the sheets of `origin`.
    pub fn append_stylesheet(&mut self, origin: Origin, sheet: S)
        requires
            old(self).wf(),
            !old(self)@.get(origin).contains(sheet),
        ensures
            final(self)@ == old(self)@.with(origin, old(self)@.get(origin).appended(sheet)),
            final(self).ignores_missing_user_agent_sheets() == old(
                self,
            ).ignores_missing_user_agent_sheets(),
            final(self).wf(),
    {
        let collection = self.collections.borrow_mut_for_origin(&origin);
        collection.append(sheet);
    }

    /// Puts a new stylesheet in front of the sheets of `origin`.
    pub fn prepend_stylesheet(&mut self, origin: Origin, sheet: S)
        requires
            old(self).wf(),
            !old(self)@.get(origin).contains(sheet),
        ensures
            final(self)@ == old(self)@.with(origin, old(self)@.get(origin).prepended(sheet)),
            final(self).ignores_missing_user_agent_sheets() == old(
                self,
            ).ignores_missing_user_agent_sheets(),
            final(self).wf(),
    {
        let collection = self.collections.borrow_mut_for_origin(&origin);
        collection.prepend(sheet);
    }

    /// Returns the number of stylesheets in the set.
    pub fn len(&self) -> (n: usize)
        requires
            total_len(self@) <= usize::MAX,
        ensures
            n == total_len(self@),
    {
        let mut origins = OriginSet::all().iter();
        let mut n: usize = 0;
        proof {
            lemma_origins_from(Set::<Origin>::full(), 0);
        }
        loop
            invariant
                total_len(self@) <= usize::MAX,
                origins.remaining().no_duplicates(),
                n == (if origins.remaining().contains(Origin::UserAgent) {
                    0
                } else {
                    self@.user_agent.entries.len()
                }) + (if origins.remaining().contains(Origin::User) {
                    0
                } else {
                    self@.user.entries.len()
                }) + (if origins.remaining().contains(Origin::Author) {
                    0
                } else {
                    self@.author.entries.len()
                }),
            decreases origins.remaining().len(),
        {
            let ghost before = origins.remaining();
            match origins.next() {
                None => {
                    assert(!before.contains(Origin::UserAgent));
                    assert(!before.contains(Origin::User));
                    assert(!before.contains(Origin::Author));
                    return n;
                },
                Some(origin) => {
                    proof {
                        lemma_drop_first_contains(before, Origin::UserAgent);
                        lemma_drop_first_contains(before, Origin::User);
                        lemma_drop_first_contains(before, Origin::Author);
                        assert(before.contains(before[0]));
                    }
                    n = n + self.collections.borrow_for_origin(&origin).len();
                },
            }
        }
    }

    /// Returns the `index`th stylesheet of `origin` in the set, if there is
    /// one.
    pub fn get(&self, origin: Origin, index: usize) -> (r: Option<&S>)
        ensures
            r == if index < self@.get(origin).entries.len() {
                Some(&self@.get(origin).entries[index as int].sheet)
            } else {
                None
            },
    {
        self.collections.borrow_for_origin(&origin).get(index)
    }

    /// Returns whether the set has changed since the last flush.
    pub fn has_changed(&self) -> (b: bool)
        ensures
            b == any_dirty(self@),
    {
        self.collections.user_agent.dirty() || self.collections.user.dirty()
            || self.collections.author.dirty()
    }

    /// Flushes the set: takes note of what changed in every origin, leaves
    /// every origin clean and valid, and returns the `StylesheetFlusher` from
    /// which the rebuild learns what it has to do. `had_invalidations` says
    /// whether the changes led to any invalidation in the document; the
    /// flusher hands it on.
    pub fn flush<'a>(&'a mut self, had_invalidations: bool) -> (flusher: StylesheetFlusher<'a, S>)
        requires
            old(self).wf(),
        ensures
            flusher.wf(),
            flusher.had_invalidations == had_invalidations,
            flusher.origins_dirty@ == dirty_origins(old(self)@),
            flusher.origin_data_validity == validities(old(self)@),
            states(*flusher.collections) == flushed_document(old(self)@),
            final(self)@ == states(*final(flusher.collections)),
            final(self).ignores_missing_user_agent_sheets() == old(
                self,
            ).ignores_missing_user_agent_sheets(),
    {
        let mut origins_dirty = OriginSet::empty();
        let mut origin_data_validity = PerOrigin {
            user_agent: DataValidity::default(),
            user: DataValidity::default(),
            author: DataValidity::default(),
        };
        let mut origins = OriginSet::all().iter();
        proof {
            lemma_origins_from(Set::<Origin>::full(), 0);
        }
        loop
            invariant
                old(self).wf(),
                self.ignore_missing_user_agent_sheets == old(
                    self,
                ).ignore_missing_user_agent_sheets,
                origins.remaining().no_duplicates(),
                forall|origin: Origin|
                    #![trigger self@.get(origin)]
                    #![trigger origins_dirty@.contains(origin)]
                    #![trigger origin_data_validity.get(origin)]
                    if origins.remaining().contains(origin) {
                        &&& self@.get(origin) == old(self)@.get(origin)
                        &&& !origins_dirty@.contains(origin)
                        &&& origin_data_validity.get(origin) == DataValidity::Valid
                    } else {
                        &&& self@.get(origin) == old(self)@.get(origin).flushed()
                        &&& origins_dirty@.contains(origin) == old(self)@.get(origin).dirty
                        &&& origin_data_validity.get(origin) == old(self)@.get(
                            origin,
                        ).data_validity
                    },
            ensures
                origins.remaining().len() == 0,
            decreases origins.remaining().len(),
        {
            let ghost before = origins.remaining();
            let ghost dirty_before = origins_dirty@;
            let ghost validity_before = origin_data_validity;
            let ghost state_before = self@;
            match origins.next() {
                None => {
                    break;
                },
                Some(origin) => {
                    proof {
                        lemma_drop_first_contains(before, Origin::UserAgent);
                        lemma_drop_first_contains(before, Origin::User);
                        lemma_drop_first_contains(before, Origin::Author);
                        assert(before.contains(before[0]));
                    }
                    let collection = self.collections.borrow_mut_for_origin(&origin);
                    let was_dirty = collection.take_dirty();
                    if was_dirty {
                        origins_dirty.insert(origin);
                        let validity = collection.take_data_validity();
                        *origin_data_validity.borrow_mut_for_origin(&origin) = validity;
                    }
                    proof {
                        assert(self@.get(origin) == state_before.get(origin).flushed());
                        assert forall|other: Origin| other != origin implies self@.get(other)
                            == state_before.get(other) && origins_dirty@.contains(other)
                            == dirty_before.contains(other) && origin_data_validity.get(other)
                            == validity_before.get(other) by {}
                    }
                },
            }
        }
        proof {
            assert forall|origin: Origin| !origins.remaining().contains(origin) by {}
            assert(origins_dirty@ =~= dirty_origins(old(self)@));
            assert(self@.get(Origin::UserAgent) == old(self)@.user_agent.flushed());
            assert(self@.get(Origin::User) == old(self)@.user.flushed());
            assert(self@.get(Origin::Author) == old(self)@.author.flushed());
            assert(origin_data_validity.get(Origin::UserAgent) == old(
                self,
            )@.user_agent.data_validity);
            assert(origin_data_validity.get(Origin::User) == old(self)@.user.data_validity);
            assert(origin_data_validity.get(Origin::Author) == old(self)@.author.data_validity);
            assert forall|origin: Origin|
                #[trigger] origin_data_validity.get(origin) != DataValidity::Valid
                    implies origins_dirty@.contains(origin) by {
                assert(old(self)@.get(origin).wf());
            }
            assert forall|origin: Origin| !(#[trigger] self@.get(origin)).dirty by {}
        }
        StylesheetFlusher {
            collections: &mut self.collections,
            had_invalidations,
            origins_dirty,
            origin_data_validity,
        }
    }

    /// Flushes the set without a rebuild in view: leaves every origin clean
    /// and valid, and returns the origins that had changed.
    pub fn flush_without_invalidation(&mut self) -> (origins: OriginSet)
        requires
            old(self).wf(),
        ensures
            origins@ == dirty_origins(old(self)@),
            final(self)@ == flushed_document(old(self)@),
            final(self).ignores_missing_user_agent_sheets() == old(
                self,
            ).ignores_missing_user_agent_sheets(),
            final(self).wf(),
    {
        let flusher = self.flush(false);
        flusher.origins_dirty
    }

    /// Returns a cursor over all the stylesheets of the set, each with its
    /// origin: the author's sheets first, the user agent's last.
    pub fn iter(&self) -> (it: StylesheetIterator<'_, S>)
        ensures
            it.remaining() == flattened(self@),
    {
        let it = StylesheetIterator {
            origins: OriginSet::all().iter(),
            collections: &self.collections,
            current: None,
        };
        proof {
            lemma_flattened(self@);
        }
        it
    }

    /// Marks the stylesheets of the given origins as dirty, because
    /// something that the set cannot see may have changed them: nothing of
    /// the data derived from these origins is kept.
    pub fn force_dirty(&mut self, origins: OriginSet)
        ensures
            final(self)@ == raised_document(old(self)@, origins@, DataValidity::FullyInvalid),
            final(self).ignores_missing_user_agent_sheets() == old(
                self,
            ).ignores_missing_user_agent_sheets(),
            old(self).wf() ==> final(self).wf(),
    {
        let mut left = origins.iter();
        proof {
            lemma_origins_from(origins@, 0);
        }
        loop
            invariant
                self.ignore_missing_user_agent_sheets == old(
                    self,
                ).ignore_missing_user_agent_sheets,
                left.remaining().no_duplicates(),
                forall|origin: Origin| #[trigger]
                    left.remaining().contains(origin) ==> origins@.contains(origin),
                forall|origin: Origin|
                    #![trigger self@.get(origin)]
                    if origins@.contains(origin) && !left.remaining().contains(origin) {
                        self@.get(origin) == old(self)@.get(origin).with_validity_at_least(
                            DataValidity::FullyInvalid,
                        )
                    } else {
                        self@.get(origin) == old(self)@.get(origin)
                    },
            ensures
                left.remaining().len() == 0,
            decreases left.remaining().len(),
        {
            let ghost before = left.remaining();
            let ghost state_before = self@;
            match left.next() {
                None => {
                    break;
                },
                Some(origin) => {
                    proof {
                        lemma_drop_first_contains(before, Origin::UserAgent);
                        lemma_drop_first_contains(before, Origin::User);
                        lemma_drop_first_contains(before, Origin::Author);
                        assert(before.contains(before[0]));
                    }
                    self.collections.borrow_mut_for_origin(
                        &origin,
                    ).set_data_validity_at_least(DataValidity::FullyInvalid);
                    proof {
                        assert(origins@.contains(origin));
                        assert forall|other: Origin|
                            if origins@.contains(other) && !left.remaining().contains(other) {
                                #[trigger] self@.get(other) == old(self)@.get(
                                    other,
                                ).with_validity_at_least(DataValidity::FullyInvalid)
                            } else {
                                self@.get(other) == old(self)@.get(other)
                            } by {
                            lemma_drop_first_contains(before, other);
                            if other != origin {
                                assert(self@.get(other) == state_before.get(other));
                            } else {
                                assert(state_before.get(origin) == old(self)@.get(origin));
                            }
                        }
                    }
                },
            }
        }
        proof {
            assert forall|origin: Origin| !left.remaining().contains(origin) by {}
            assert(self@.get(Origin::UserAgent) == raised_document(
                old(self)@,
                origins@,
                DataValidity::FullyInvalid,
            ).user_agent);
            assert(self@.get(Origin::User) == raised_document(
                old(self)@,
                origins@,
                DataValidity::FullyInvalid,
            ).user);
            assert(self@.get(Origin::Author) == raised_document(
                old(self)@,
                origins@,
                DataValidity::FullyInvalid,
            ).author);
        }
    }
}

impl<S: PartialEq> DocumentStylesheetSet<S> {
    /// Inserts a stylesheet of `origin` just before another one of the same
    /// origin.
    pub fn insert_stylesheet_before(&mut self, origin: Origin, sheet: S, before_sheet: S)
        requires
            obeys_concrete_eq::<S>(),
            old(self).wf(),
            !old(self)@.get(origin).contains(sheet),
            old(self)@.get(origin).contains(before_sheet),
        ensures
            final(self)@ == old(self)@.with(
                origin,
                old(self)@.get(origin).inserted_before(sheet, before_sheet),
            ),
            final(self).ignores_missing_user_agent_sheets() == old(
                self,
            ).ignores_missing_user_agent_sheets(),
            final(self).wf(),
    {
        let collection = self.collections.borrow_mut_for_origin(&origin);
        collection.insert_before(sheet, &before_sheet);
    }

    /// Removes a stylesheet of `origin` from the set. The sheet has to be
    /// there, with one exception: where the set was told to pass over
    /// missing user-agent sheets, the removal of such a sheet changes
    /// nothing.
    pub fn remove_stylesheet(&mut self, origin: Origin, sheet: S)
        requires
            obeys_concrete_eq::<S>(),
            old(self).wf(),
            old(self)@.get(origin).contains(sheet) || (origin == Origin::UserAgent && old(
                self,
            ).ignores_missing_user_agent_sheets()),
        ensures
            final(self)@ == if old(self)@.get(origin).contains(sheet) {
                old(self)@.with(origin, old(self)@.get(origin).removed(sheet))
            } else {
                old(self)@
            },
            final(self).ignores_missing_user_agent_sheets() == old(
                self,
            ).ignores_missing_user_agent_sheets(),
            final(self).wf(),
    {
        let lenient = self.ignore_missing_user_agent_sheets && origin == Origin::UserAgent;
        let collection = self.collections.borrow_mut_for_origin(&origin);
        if lenient {
            collection.remove_if_present(&sheet);
        } else {
            collection.remove(&sheet);
        }
    }
}

/// A cursor over the stylesheets of all the collections of a document, one
/// origin after the other.
pub struct StylesheetIterator<'a, S> {
    origins: OriginSetIterator,
    collections: &'a PerOrigin<SheetCollection<S>>,
    current: Option<(Origin, StylesheetCollectionIterator<'a, S>)>,
}

impl<'a, S> Clone for StylesheetIterator<'a, S> {
    fn clone(&self) -> (it: Self)
        ensures
            it.remaining() == self.remaining(),
    {
        let current = match &self.current {
            Some((origin, sheets)) => Some((*origin, sheets.clone())),
            None => None,
        };
        StylesheetIterator { origins: self.origins, collections: self.collections, current }
    }
}

impl<'a, S> StylesheetIterator<'a, S> {
    /// The sheets still to come, each with its origin, in the order in which
    /// `next` hands them out.
    pub closed spec fn remaining(&self) -> Seq<(S, Origin)> {
        (match self.current {
            Some((origin, sheets)) => tagged(sheets.remaining(), origin),
            None => Seq::empty(),
        }) + sheets_in(states(*self.collections), self.origins.remaining())
    }

    /// Hands out the next sheet with its origin, or `None` when all were
    /// handed out.
    pub fn next(&mut self) -> (r: Option<(&'a S, Origin)>)
        ensures
            r == if old(self).remaining().len() == 0 {
                None
            } else {
                Some((&old(self).remaining()[0].0, old(self).remaining()[0].1))
            },
            final(self).remaining() == if old(self).remaining().len() == 0 {
                old(self).remaining()
            } else {
                old(self).remaining().drop_first()
            },
    {
        loop
            invariant
                self.remaining() == old(self).remaining(),
                self.collections == old(self).collections,
            decreases self.origins.remaining().len(),
                (if self.current.is_some() {
                    1int
                } else {
                    0int
                }),
        {
            if self.current.is_none() {
                let ghost before = self.origins.remaining();
                match self.origins.next() {
                    None => {
                        assert(self.remaining() =~= Seq::empty());
                        return None;
                    },
                    Some(next_origin) => {
                        let sheets = self.collections.borrow_for_origin(&next_origin).iter();
                        self.current = Some((next_origin, sheets));
                    },
                }
            }
            let ghost document = states(*self.collections);
            let ghost rest = sheets_in(document, self.origins.remaining());
            match &mut self.current {
                Some((origin, sheets)) => {
                    let ghost left = sheets.remaining();
                    let origin = *origin;
                    if let Some(sheet) = sheets.next() {
                        proof {
                            assert(tagged(left, origin)[0] == (*sheet, origin));
                            assert((tagged(left, origin) + rest).drop_first() =~= tagged(
                                left.drop_first(),
                                origin,
                            ) + rest);
                        }
                        return Some((sheet, origin));
                    }
                    proof {
                        assert(tagged(left, origin) + rest =~= rest);
                    }
                },
                None => {},
            }
            self.current = None;
            proof {
                assert(Seq::<(S, Origin)>::empty() + rest =~= rest);
            }
        }
    }
}

/// Walking the origins in their order gives the sheets of the author, then
/// those of the user, then those of the user agent.
pub proof fn lemma_flattened<S>(document: DocumentState<S>)
    ensures
        Seq::<(S, Origin)>::empty() + sheets_in(document, origins_from(Set::<Origin>::full(), 0))
            == flattened(document),
{
    let all = Set::<Origin>::full();
    reveal_with_fuel(origins_from, 4);
    let order = origins_from(all, 0);
    assert(order =~= seq![Origin::Author, Origin::User, Origin::UserAgent]);
    let second = order.drop_first();
    assert(second =~= seq![Origin::User, Origin::UserAgent]);
    let third = second.drop_first();
    assert(third =~= seq![Origin::UserAgent]);
    assert(third.drop_first() =~= Seq::<Origin>::empty());
    reveal_with_fuel(sheets_in, 4);
    assert(sheets_in(document, third) =~= tagged(document.user_agent.sheets(), Origin::UserAgent));
    assert(sheets_in(document, second) =~= tagged(document.user.sheets(), Origin::User)
        + sheets_in(document, third));
    assert(sheets_in(document, order) =~= tagged(document.author.sheets(), Origin::Author)
        + sheets_in(document, second));
    assert(Seq::<(S, Origin)>::empty() + sheets_in(document, order) =~= flattened(document));
}

} // verus!
