//! The stylesheets of one origin: an ordered list of entries, the validity of
//! the data derived from them, and the cursors that walk the list.

use crate::origin::PerOrigin;
use crate::state::{
    DocumentState,
    committed_entry, lemma_contains_index, lemma_index_of, lemma_inserted_at,
    lemma_next_rebuild_index, lemma_removed,
    next_rebuild_index, rebuild_plan, sheets_of, CollectionState, StylesheetSetEntry,
};
use crate::validity::{rebuild_kind_for, DataValidity, SheetRebuildKind};
use vstd::laws_eq::obeys_concrete_eq;
use vstd::prelude::*;
use vstd::std_specs::cmp::PartialEqSpec;

verus! {

/// The stylesheets of one origin, in document order.
pub struct SheetCollection<S> {
    /// The list of stylesheets. These are top-level sheets only: what a
    /// sheet imports is not listed.
    entries: Vec<StylesheetSetEntry<S>>,
    /// The validity of the data that was already there for this origin.
    /// A collection to which sheets were only appended is dirty, while its
    /// data is still valid.
    data_validity: DataValidity,
    /// Whether anything in the collection has changed since the last flush.
    dirty: bool,
}

impl<S> View for SheetCollection<S> {
    type V = CollectionState<S>;

    closed spec fn view(&self) -> CollectionState<S> {
        CollectionState {
            entries: self.entries@,
            data_validity: self.data_validity,
            dirty: self.dirty,
        }
    }
}

impl<S> Default for SheetCollection<S> {
    fn default() -> (collection: Self)
        ensures
            collection@ == CollectionState::<S>::empty(),
    {
        SheetCollection { entries: Vec::new(), data_validity: DataValidity::Valid, dirty: false }
    }
}

impl<S> SheetCollection<S> {
    /// Returns the number of stylesheets in the collection.
    pub fn len(&self) -> (n: usize)
        ensures
            n == self@.entries.len(),
    {
        self.entries.len()
    }

    /// Returns the `index`th stylesheet of the collection, if there is one.
    pub fn get(&self, index: usize) -> (r: Option<&S>)
        ensures
            r == if index < self@.entries.len() {
                Some(&self@.entries[index as int].sheet)
            } else {
                None
            },
    {
        if index < self.entries.len() {
            Some(&self.entries[index].sheet)
        } else {
            None
        }
    }

    /// Whether anything changed since the last flush.
    pub fn dirty(&self) -> (b: bool)
        ensures
            b == self@.dirty,
    {
        self.dirty
    }

    /// The validity of the data that was derived from this collection.
    pub fn data_validity(&self) -> (validity: DataValidity)
        ensures
            validity == self@.data_validity,
    {
        self.data_validity
    }

    /// Appends `sheet` to the collection. The data that was already there
    /// stays as valid as it was, but the collection is dirty: the new sheet
    /// has to reach the next flush.
    pub fn append(&mut self, sheet: S)
        requires
            old(self)@.wf(),
            !old(self)@.contains(sheet),
        ensures
            final(self)@ == old(self)@.appended(sheet),
            final(self)@.wf(),
    {
        proof {
            lemma_inserted_at(self@, self@.entries.len() as int, sheet);
        }
        self.entries.push(StylesheetSetEntry::new(sheet));
        self.dirty = true;
    }

    /// Raises the validity to `validity`, unless it is that high already,
    /// and marks the collection as dirty.
    pub fn set_data_validity_at_least(&mut self, validity: DataValidity)
        ensures
            final(self)@ == old(self)@.with_validity_at_least(validity),
            old(self)@.wf() ==> final(self)@.wf(),
    {
        self.dirty = true;
        self.data_validity = validity.max(self.data_validity);
    }

    /// Puts `sheet` in front of all others. This changes the order of the
    /// cascade, so the cascade data is no longer valid; the invalidation
    /// data does not depend on the order and stays.
    pub fn prepend(&mut self, sheet: S)
        requires
            old(self)@.wf(),
            !old(self)@.contains(sheet),
        ensures
            final(self)@ == old(self)@.prepended(sheet),
            final(self)@.wf(),
    {
        proof {
            lemma_inserted_at(self@, 0, sheet);
        }
        self.set_data_validity_at_least(DataValidity::CascadeInvalid);
        self.entries.insert(0, StylesheetSetEntry::new(sheet));
    }

    /// Returns a cursor over the stylesheets, in document order.
    pub fn iter(&self) -> (it: StylesheetCollectionIterator<'_, S>)
        ensures
            it.remaining() == self@.sheets(),
    {
        let it = StylesheetCollectionIterator { entries: &self.entries, pos: 0 };
        assert(sheets_of(self.entries@).skip(0) =~= sheets_of(self.entries@));
        it
    }

    /// Takes note that a flush begins: returns whether the collection was
    /// dirty, and leaves it clean.
    pub(crate) fn take_dirty(&mut self) -> (was_dirty: bool)
        ensures
            was_dirty == old(self)@.dirty,
            final(self)@ == (CollectionState { dirty: false, ..old(self)@ }),
    {
        let was_dirty = self.dirty;
        self.dirty = false;
        was_dirty
    }

    /// Returns the validity that the data had, and declares it valid.
    pub(crate) fn take_data_validity(&mut self) -> (validity: DataValidity)
        ensures
            validity == old(self)@.data_validity,
            final(self)@ == (CollectionState { data_validity: DataValidity::Valid, ..old(self)@ }),
    {
        let validity = self.data_validity;
        self.data_validity = DataValidity::Valid;
        validity
    }

    /// Returns a cursor that hands out the sheets that need a rebuild when
    /// the validity of the data was `validity`, and marks them as committed.
    pub(crate) fn flusher(&mut self, validity: DataValidity) -> (flusher: PerOriginFlusher<'_, S>)
        ensures
            flusher.entries@ == old(self)@.entries,
            flusher.pos == 0,
            flusher.validity == validity,
            final(self)@ == old(self)@.with_entries(final(flusher.entries)@),
    {
        PerOriginFlusher { entries: &mut self.entries, pos: 0, validity }
    }
}

impl<S: PartialEq> SheetCollection<S> {
    /// The position of `sheet` in the list, if it is there.
    fn position(&self, sheet: &S) -> (r: Option<usize>)
        requires
            obeys_concrete_eq::<S>(),
        ensures
            match r {
                Some(index) => index < self@.entries.len() && self@.entries[index as int].sheet
                    == *sheet,
                None => !self@.contains(*sheet),
            },
    {
        proof {
            reveal(obeys_concrete_eq);
        }
        let mut index: usize = 0;
        while index < self.entries.len()
            invariant
                S::obeys_eq_spec(),
                forall|x: S, y: S| x.eq_spec(&y) <==> x == y,
                index <= self.entries@.len(),
                forall|i: int| 0 <= i < index ==> (#[trigger] self.entries@[i]).sheet != *sheet,
            decreases self.entries@.len() - index,
        {
            if self.entries[index].sheet == *sheet {
                return Some(index);
            }
            index += 1;
        }
        proof {
            let sheets = self@.sheets();
            if sheets.contains(*sheet) {
                let i = choose|i: int| 0 <= i < sheets.len() && sheets[i] == *sheet;
                assert(self.entries@[i].sheet == *sheet);
            }
        }
        None
    }

    /// Whether `sheet` is in the collection.
    pub fn contains(&self, sheet: &S) -> (b: bool)
        requires
            obeys_concrete_eq::<S>(),
        ensures
            b == self@.contains(*sheet),
    {
        let found = self.position(sheet);
        proof {
            if let Some(index) = found {
                assert(self@.sheets()[index as int] == *sheet);
            }
        }
        found.is_some()
    }

    /// Takes `sheet` out of the collection. When a flush has seen the sheet,
    /// all the derived data is torn down; when none has, the data stays as
    /// valid as it was, so that a sheet that is added and removed again
    /// between two flushes costs nothing.
    pub fn remove(&mut self, sheet: &S)
        requires
            obeys_concrete_eq::<S>(),
            old(self)@.wf(),
            old(self)@.contains(*sheet),
        ensures
            final(self)@ == old(self)@.removed(*sheet),
            final(self)@.wf(),
    {
        self.remove_if_present(sheet);
    }

    /// Takes `sheet` out of the collection as `remove` does if it is there,
    /// and leaves the collection as it is if not. Returns whether the sheet
    /// was there.
    pub fn remove_if_present(&mut self, sheet: &S) -> (removed: bool)
        requires
            obeys_concrete_eq::<S>(),
            old(self)@.wf(),
        ensures
            removed == old(self)@.contains(*sheet),
            final(self)@ == if removed {
                old(self)@.removed(*sheet)
            } else {
                old(self)@
            },
            final(self)@.wf(),
    {
        match self.position(sheet) {
            None => false,
            Some(index) => {
                proof {
                    lemma_index_of(self@, index as int);
                    lemma_removed(self@, *sheet);
                }
                let entry = self.entries.remove(index);
                if entry.committed {
                    self.set_data_validity_at_least(DataValidity::FullyInvalid);
                } else {
                    self.dirty = true;
                }
                true
            },
        }
    }

    /// Puts `sheet` just before `before_sheet`. As for `prepend`, the cascade
    /// data is no longer valid.
    pub fn insert_before(&mut self, sheet: S, before_sheet: &S)
        requires
            obeys_concrete_eq::<S>(),
            old(self)@.wf(),
            !old(self)@.contains(sheet),
            old(self)@.contains(*before_sheet),
        ensures
            final(self)@ == old(self)@.inserted_before(sheet, *before_sheet),
            final(self)@.wf(),
    {
        let found = self.position(before_sheet);
        let index = found.unwrap();
        proof {
            lemma_index_of(self@, index as int);
            lemma_inserted_at(self@, index as int, sheet);
        }
        self.set_data_validity_at_least(DataValidity::CascadeInvalid);
        self.entries.insert(index, StylesheetSetEntry::new(sheet));
    }
}

/// The states of the three collections of a document.
pub open spec fn states<S>(collections: PerOrigin<SheetCollection<S>>) -> DocumentState<S> {
    PerOrigin {
        user_agent: collections.user_agent@,
        user: collections.user@,
        author: collections.author@,
    }
}

/// A cursor over the stylesheets of a collection.
pub struct StylesheetCollectionIterator<'a, S> {
    entries: &'a Vec<StylesheetSetEntry<S>>,
    pos: usize,
}

impl<'a, S> Clone for StylesheetCollectionIterator<'a, S> {
    fn clone(&self) -> (it: Self)
        ensures
            it.remaining() == self.remaining(),
    {
        StylesheetCollectionIterator { entries: self.entries, pos: self.pos }
    }
}

impl<'a, S> StylesheetCollectionIterator<'a, S> {
    /// The sheets still to come, in the order in which `next` hands them out.
    pub closed spec fn remaining(&self) -> Seq<S> {
        if self.pos <= self.entries@.len() {
            sheets_of(self.entries@).skip(self.pos as int)
        } else {
            Seq::empty()
        }
    }

    /// Hands out the next sheet, or `None` when all were handed out.
    pub fn next(&mut self) -> (r: Option<&'a S>)
        ensures
            r == if old(self).remaining().len() == 0 {
                None
            } else {
                Some(&old(self).remaining()[0])
            },
            final(self).remaining() == if old(self).remaining().len() == 0 {
                old(self).remaining()
            } else {
                old(self).remaining().drop_first()
            },
    {
        if self.pos < self.entries.len() {
            let index = self.pos;
            self.pos = index + 1;
            assert(old(self).remaining().drop_first() =~= self.remaining());
            Some(&self.entries[index].sheet)
        } else {
            None
        }
    }

    /// The number of sheets still to come, as a lower and an upper bound.
    pub fn size_hint(&self) -> (hint: (usize, Option<usize>))
        ensures
            hint.0 == self.remaining().len(),
            hint.1 == Some(hint.0),
    {
        let left = if self.pos <= self.entries.len() {
            self.entries.len() - self.pos
        } else {
            0
        };
        (left, Some(left))
    }
}

/// A cursor over the entries of one origin during a flush. It hands out the
/// sheets that need work, each with the kind of rebuild that it needs, and
/// marks each entry that it passes as committed.
pub struct PerOriginFlusher<'a, S> {
    /// The entries of the origin.
    pub entries: &'a mut Vec<StylesheetSetEntry<S>>,
    /// The position of the next entry to look at.
    pub pos: usize,
    /// The validity that the origin's data had when the flush began.
    pub validity: DataValidity,
}

impl<'a, S> PerOriginFlusher<'a, S> {
    /// The cursor stands inside the list, and every entry that it has passed
    /// is committed.
    pub open spec fn wf(&self) -> bool {
        &&& self.pos <= self.entries@.len()
        &&& forall|i: int| 0 <= i < self.pos ==> (#[trigger] self.entries@[i]).committed
    }

    /// What is still to be handed out: each sheet with the rebuild it needs.
    pub open spec fn pending(&self) -> Seq<(S, SheetRebuildKind)> {
        rebuild_plan(self.entries@.skip(self.pos as int), self.validity)
    }

    /// The position of the entry that the next call of `next` hands out; the
    /// length of the list if there is none left.
    pub open spec fn next_index(&self) -> int {
        next_rebuild_index(self.entries@, self.pos as int, self.validity)
    }

    /// Hands out the next sheet that needs a rebuild, or `None` when no
    /// sheet is left. A sheet that no flush has seen needs a full rebuild
    /// whatever the validity of the data is. The others are passed over when
    /// the data is valid, and need the cascade data or everything rebuilt
    /// when it is not.
    pub fn next(&mut self) -> (r: Option<(&S, SheetRebuildKind)>)
        requires
            old(self).wf(),
        ensures
            final(self).wf(),
            final(self).validity == old(self).validity,
            *final(final(self).entries) == *final(old(self).entries),
            sheets_of(final(self).entries@) == sheets_of(old(self).entries@),
            old(self).pos <= old(self).next_index() <= old(self).entries@.len(),
            match r {
                Some((sheet, kind)) => {
                    let index = old(self).next_index();
                    &&& index < old(self).entries@.len()
                    &&& *sheet == old(self).entries@[index].sheet
                    &&& Some(kind) == rebuild_kind_for(
                        old(self).entries@[index].committed,
                        old(self).validity,
                    )
                    &&& final(self).pos == index + 1
                    &&& final(self).entries@ == old(self).entries@.update(
                        index,
                        committed_entry(old(self).entries@[index]),
                    )
                    &&& old(self).pending().len() > 0
                    &&& (*sheet, kind) == old(self).pending()[0]
                    &&& final(self).pending() == old(self).pending().drop_first()
                },
                None => {
                    &&& old(self).next_index() == old(self).entries@.len()
                    &&& final(self).pos == old(self).entries@.len()
                    &&& final(self).entries@ == old(self).entries@
                    &&& old(self).pending().len() == 0
                    &&& final(self).pending().len() == 0
                    &&& forall|i: int|
                        0 <= i < final(self).entries@.len() ==> (
                        #[trigger] final(self).entries@[i]).committed
                },
            },
    {
        proof {
            lemma_next_rebuild_index(self.entries@, self.pos as int, self.validity);
        }
        loop
            invariant
                self.wf(),
                self.validity == old(self).validity,
                *final(self.entries) == *final(old(self).entries),
                self.entries@ == old(self).entries@,
                old(self).pos <= self.pos <= self.next_index() <= self.entries@.len(),
                self.next_index() == old(self).next_index(),
                self.pending() == old(self).pending(),
            decreases self.entries@.len() - self.pos,
        {
            if self.pos >= self.entries.len() {
                proof {
                    assert(self.entries@.skip(self.pos as int) =~= Seq::empty());
                }
                return None;
            }
            let index = self.pos;
            let ghost before = self.entries@;
            proof {
                lemma_plan_step(before, index as int, self.validity);
            }
            let committed = self.entries[index].committed;
            self.entries[index].committed = true;
            self.pos = index + 1;
            proof {
                assert(self.entries@ =~= before.update(index as int, committed_entry(before[index as int])));
                assert(self.entries@.skip(index + 1) =~= before.skip(index + 1));
                assert(sheets_of(self.entries@) =~= sheets_of(before));
            }
            if !committed {
                return Some((&self.entries[index].sheet, SheetRebuildKind::Full));
            }
            match self.validity {
                DataValidity::Valid => {
                    proof {
                        assert(self.entries@ =~= before);
                        lemma_next_rebuild_index(self.entries@, self.pos as int, self.validity);
                    }
                },
                DataValidity::CascadeInvalid => {
                    return Some((&self.entries[index].sheet, SheetRebuildKind::CascadeOnly));
                },
                DataValidity::FullyInvalid => {
                    return Some((&self.entries[index].sheet, SheetRebuildKind::Full));
                },
            }
        }
    }
}

/// The plan for the entries from `from` on begins with the entry at `from`
/// if that one needs a rebuild, and goes on with the plan for the entries
/// behind it.
pub proof fn lemma_plan_step<S>(
    entries: Seq<StylesheetSetEntry<S>>,
    from: int,
    validity: DataValidity,
)
    requires
        0 <= from < entries.len(),
    ensures
        rebuild_plan(entries.skip(from), validity) == match rebuild_kind_for(
            entries[from].committed,
            validity,
        ) {
            Some(kind) => seq![(entries[from].sheet, kind)] + rebuild_plan(
                entries.skip(from + 1),
                validity,
            ),
            None => rebuild_plan(entries.skip(from + 1), validity),
        },
{
    let tail = entries.skip(from);
    assert(tail.drop_first() =~= entries.skip(from + 1));
    assert(tail[0] == entries[from]);
}

} // verus!
