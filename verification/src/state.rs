//! The mathematical model of one collection of stylesheets: its entries in
//! document order, the validity of the data derived from them, and whether
//! anything changed since the last flush.

use crate::origin::{Origin, PerOrigin};
use crate::validity::{rebuild_kind_for, DataValidity, SheetRebuildKind};
use vstd::prelude::*;

verus! {

/// One stylesheet of a collection, with the mark that says whether it has
/// been part of at least one flush.
pub struct StylesheetSetEntry<S> {
    /// The sheet.
    pub sheet: S,
    /// Whether this sheet has been part of at least one flush.
    pub committed: bool,
}

impl<S> StylesheetSetEntry<S> {
    /// An entry for a sheet that no flush has seen yet.
    pub fn new(sheet: S) -> (entry: Self)
        ensures
            entry == fresh_entry(sheet),
    {
        StylesheetSetEntry { sheet, committed: false }
    }
}

/// The entry of a sheet that no flush has seen yet.
pub open spec fn fresh_entry<S>(sheet: S) -> StylesheetSetEntry<S> {
    StylesheetSetEntry { sheet, committed: false }
}

/// The entry `entry` once a flush has seen it.
pub open spec fn committed_entry<S>(entry: StylesheetSetEntry<S>) -> StylesheetSetEntry<S> {
    StylesheetSetEntry { sheet: entry.sheet, committed: true }
}

/// The sheets of `entries`, in the same order.
pub open spec fn sheets_of<S>(entries: Seq<StylesheetSetEntry<S>>) -> Seq<S> {
    entries.map_values(|entry: StylesheetSetEntry<S>| entry.sheet)
}

/// `entries` with every entry marked as committed.
pub open spec fn all_committed<S>(entries: Seq<StylesheetSetEntry<S>>) -> Seq<
    StylesheetSetEntry<S>,
> {
    entries.map_values(|entry: StylesheetSetEntry<S>| committed_entry(entry))
}

/// The first position at or after `from` whose entry needs a rebuild when
/// the origin's validity is `validity`; the length of `entries` if there is
/// no such position.
pub open spec fn next_rebuild_index<S>(
    entries: Seq<StylesheetSetEntry<S>>,
    from: int,
    validity: DataValidity,
) -> int
    decreases entries.len() - from,
{
    if from < 0 || from >= entries.len() {
        entries.len() as int
    } else if rebuild_kind_for(entries[from].committed, validity) is Some {
        from
    } else {
        next_rebuild_index(entries, from + 1, validity)
    }
}

/// What a flush hands out for `entries` when the origin's validity is
/// `validity`: the sheets that need a rebuild, in document order, each with
/// the kind of rebuild it needs. Sheets that no flush has seen need a full
/// rebuild whatever the validity is; the others are left out when the data
/// is valid.
pub open spec fn rebuild_plan<S>(entries: Seq<StylesheetSetEntry<S>>, validity: DataValidity) -> Seq<
    (S, SheetRebuildKind),
>
    decreases entries.len(),
{
    if entries.len() == 0 {
        Seq::empty()
    } else {
        let rest = rebuild_plan(entries.drop_first(), validity);
        match rebuild_kind_for(entries[0].committed, validity) {
            Some(kind) => seq![(entries[0].sheet, kind)] + rest,
            None => rest,
        }
    }
}

/// The state of one collection of stylesheets.
pub struct CollectionState<S> {
    /// The entries, in document order.
    pub entries: Seq<StylesheetSetEntry<S>>,
    /// The validity of the data that was derived from the entries.
    pub data_validity: DataValidity,
    /// Whether anything changed since the last flush.
    pub dirty: bool,
}

impl<S> CollectionState<S> {
    /// The collection without sheets, clean and valid.
    pub open spec fn empty() -> Self {
        CollectionState {
            entries: Seq::empty(),
            data_validity: DataValidity::Valid,
            dirty: false,
        }
    }

    /// The sheets of the collection, in document order.
    pub open spec fn sheets(self) -> Seq<S> {
        sheets_of(self.entries)
    }

    /// Whether `sheet` is in the collection.
    pub open spec fn contains(self, sheet: S) -> bool {
        self.sheets().contains(sheet)
    }

    /// The set of the sheets that are in the collection.
    pub open spec fn sheet_set(self) -> Set<S> {
        self.sheets().to_set()
    }

    /// The position of `sheet` in the collection.
    pub open spec fn index_of(self, sheet: S) -> int
        recommends
            self.contains(sheet),
    {
        self.sheets().index_of(sheet)
    }

    /// A clean collection has valid data, and no sheet occurs twice.
    pub open spec fn wf(self) -> bool {
        &&& !self.dirty ==> self.data_validity == DataValidity::Valid
        &&& self.sheets().no_duplicates()
    }

    /// The collection after `sheet` was added at the end: the data that was
    /// there stays as valid as it was.
    pub open spec fn appended(self, sheet: S) -> Self {
        CollectionState { entries: self.entries.push(fresh_entry(sheet)), dirty: true, ..self }
    }

    /// The collection after `sheet` was added at position `index`, which is
    /// not the end: the cascade data is no longer valid.
    pub open spec fn inserted_at(self, index: int, sheet: S) -> Self {
        CollectionState {
            entries: self.entries.insert(index, fresh_entry(sheet)),
            data_validity: self.data_validity.join(DataValidity::CascadeInvalid),
            dirty: true,
        }
    }

    /// The collection after `sheet` was added in front of all others.
    pub open spec fn prepended(self, sheet: S) -> Self {
        self.inserted_at(0, sheet)
    }

    /// The collection after `sheet` was added just before `before_sheet`.
    pub open spec fn inserted_before(self, sheet: S, before_sheet: S) -> Self
        recommends
            self.contains(before_sheet),
    {
        self.inserted_at(self.index_of(before_sheet), sheet)
    }

    /// The collection after `sheet` was taken out. When a flush has seen the
    /// sheet, nothing of the derived data can be kept; when none has, the
    /// data stays as valid as it was.
    pub open spec fn removed(self, sheet: S) -> Self
        recommends
            self.contains(sheet),
    {
        let index = self.index_of(sheet);
        CollectionState {
            entries: self.entries.remove(index),
            data_validity: if self.entries[index].committed {
                DataValidity::FullyInvalid
            } else {
                self.data_validity
            },
            dirty: true,
        }
    }

    /// The collection after its validity was raised to `validity`, unless it
    /// was that high already.
    pub open spec fn with_validity_at_least(self, validity: DataValidity) -> Self {
        CollectionState {
            data_validity: self.data_validity.join(validity),
            dirty: true,
            ..self
        }
    }

    /// The collection after a flush took note of its changes: clean and
    /// valid, with the same entries.
    pub open spec fn flushed(self) -> Self {
        CollectionState { data_validity: DataValidity::Valid, dirty: false, ..self }
    }

    /// The collection with `entries` in the place of its own.
    pub open spec fn with_entries(self, entries: Seq<StylesheetSetEntry<S>>) -> Self {
        CollectionState { entries, ..self }
    }

    /// The collection after a flush has handed out all that `rebuild_plan`
    /// lists: every entry is committed.
    pub open spec fn drained(self) -> Self {
        self.with_entries(all_committed(self.entries))
    }
}

/// In a collection without duplicates, a sheet is found where it stands.
pub proof fn lemma_index_of<S>(state: CollectionState<S>, index: int)
    requires
        state.sheets().no_duplicates(),
        0 <= index < state.entries.len(),
    ensures
        state.contains(state.entries[index].sheet),
        state.index_of(state.entries[index].sheet) == index,
{
    let sheets = state.sheets();
    assert(sheets[index] == state.entries[index].sheet);
    let found = sheets.index_of(sheets[index]);
    assert(0 <= found < sheets.len() && sheets[found] == sheets[index]);
}

/// A sheet that is in the collection stands at its position.
pub proof fn lemma_contains_index<S>(state: CollectionState<S>, sheet: S)
    requires
        state.contains(sheet),
    ensures
        0 <= state.index_of(sheet) < state.entries.len(),
        state.entries[state.index_of(sheet)].sheet == sheet,
{
    let sheets = state.sheets();
    let found = sheets.index_of(sheet);
    assert(0 <= found < sheets.len() && sheets[found] == sheet);
}

/// Adding a sheet that was not there, at any position, keeps the collection
/// well formed; the sheets are then the old ones with the new one among them.
pub proof fn lemma_inserted_at<S>(state: CollectionState<S>, index: int, sheet: S)
    requires
        state.wf(),
        !state.contains(sheet),
        0 <= index <= state.entries.len(),
    ensures
        state.inserted_at(index, sheet).wf(),
        state.inserted_at(index, sheet).sheets() == state.sheets().insert(index, sheet),
        index == state.entries.len() ==> state.appended(sheet).wf(),
        index == state.entries.len() ==> state.appended(sheet).sheets() == state.sheets().push(
            sheet,
        ),
{
    let old_sheets = state.sheets();
    let new_sheets = state.inserted_at(index, sheet).sheets();
    assert(new_sheets =~= old_sheets.insert(index, sheet));
    assert forall|i: int, j: int|
        0 <= i < new_sheets.len() && 0 <= j < new_sheets.len() && i != j implies new_sheets[i]
        != new_sheets[j] by {
        let oi = if i < index {
            i
        } else {
            i - 1
        };
        let oj = if j < index {
            j
        } else {
            j - 1
        };
        if i == index {
            assert(new_sheets[j] == old_sheets[oj]);
        } else if j == index {
            assert(new_sheets[i] == old_sheets[oi]);
        } else {
            assert(new_sheets[i] == old_sheets[oi]);
            assert(new_sheets[j] == old_sheets[oj]);
        }
    }
    if index == state.entries.len() {
        assert(state.entries.push(fresh_entry(sheet)) =~= state.entries.insert(
            index,
            fresh_entry(sheet),
        ));
        assert(old_sheets.push(sheet) =~= old_sheets.insert(index, sheet));
    }
}

/// Taking out a sheet that was there keeps the collection well formed; the
/// sheets are then the old ones without it, and it is no longer among them.
pub proof fn lemma_removed<S>(state: CollectionState<S>, sheet: S)
    requires
        state.wf(),
        state.contains(sheet),
    ensures
        state.removed(sheet).wf(),
        state.removed(sheet).sheets() == state.sheets().remove(state.index_of(sheet)),
        !state.removed(sheet).contains(sheet),
        state.removed(sheet).entries.len() == state.entries.len() - 1,
{
    lemma_contains_index(state, sheet);
    let index = state.index_of(sheet);
    let old_sheets = state.sheets();
    let new_sheets = state.removed(sheet).sheets();
    assert(new_sheets =~= old_sheets.remove(index));
    assert forall|i: int| 0 <= i < new_sheets.len() implies new_sheets[i] == old_sheets[if i
        < index {
        i
    } else {
        i + 1
    }] by {}
    assert forall|i: int, j: int|
        0 <= i < new_sheets.len() && 0 <= j < new_sheets.len() && i != j implies new_sheets[i]
        != new_sheets[j] by {
        let oi = if i < index {
            i
        } else {
            i + 1
        };
        let oj = if j < index {
            j
        } else {
            j + 1
        };
        assert(new_sheets[i] == old_sheets[oi]);
        assert(new_sheets[j] == old_sheets[oj]);
    }
    if new_sheets.contains(sheet) {
        let i = choose|i: int| 0 <= i < new_sheets.len() && new_sheets[i] == sheet;
        let oi = if i < index {
            i
        } else {
            i + 1
        };
        assert(new_sheets[i] == old_sheets[oi]);
        assert(old_sheets[index] == sheet);
    }
}

/// The next entry that needs a rebuild stands at or after the position from
/// which it is looked for, or there is none.
pub proof fn lemma_next_rebuild_index<S>(
    entries: Seq<StylesheetSetEntry<S>>,
    from: int,
    validity: DataValidity,
)
    requires
        0 <= from <= entries.len(),
    ensures
        from <= next_rebuild_index(entries, from, validity) <= entries.len(),
    decreases entries.len() - from,
{
    if from < entries.len() && rebuild_kind_for(entries[from].committed, validity) is None {
        lemma_next_rebuild_index(entries, from + 1, validity);
    }
}

/// The state of the stylesheets of a document: one collection per origin.
pub type DocumentState<S> = PerOrigin<CollectionState<S>>;

/// The document without sheets.
pub open spec fn empty_document<S>() -> DocumentState<S> {
    PerOrigin {
        user_agent: CollectionState::empty(),
        user: CollectionState::empty(),
        author: CollectionState::empty(),
    }
}

/// Every collection of the document is well formed.
pub open spec fn document_wf<S>(document: DocumentState<S>) -> bool {
    &&& document.user_agent.wf()
    &&& document.user.wf()
    &&& document.author.wf()
}

/// The number of sheets in the document, over all origins.
pub open spec fn total_len<S>(document: DocumentState<S>) -> nat {
    document.user_agent.entries.len() + document.user.entries.len()
        + document.author.entries.len()
}

/// The origins whose collection changed since the last flush.
pub open spec fn dirty_origins<S>(document: DocumentState<S>) -> Set<Origin> {
    Set::new(|origin: Origin| document.get(origin).dirty)
}

/// Whether any collection of the document changed since the last flush.
pub open spec fn any_dirty<S>(document: DocumentState<S>) -> bool {
    document.user_agent.dirty || document.user.dirty || document.author.dirty
}

/// The validity of the data of each origin.
pub open spec fn validities<S>(document: DocumentState<S>) -> PerOrigin<DataValidity> {
    PerOrigin {
        user_agent: document.user_agent.data_validity,
        user: document.user.data_validity,
        author: document.author.data_validity,
    }
}

/// The document after a flush took note of the changes of every origin.
pub open spec fn flushed_document<S>(document: DocumentState<S>) -> DocumentState<S> {
    PerOrigin {
        user_agent: document.user_agent.flushed(),
        user: document.user.flushed(),
        author: document.author.flushed(),
    }
}

/// The document after every origin in `origins` was raised to `validity`.
pub open spec fn raised_document<S>(
    document: DocumentState<S>,
    origins: Set<Origin>,
    validity: DataValidity,
) -> DocumentState<S> {
    PerOrigin {
        user_agent: if origins.contains(Origin::UserAgent) {
            document.user_agent.with_validity_at_least(validity)
        } else {
            document.user_agent
        },
        user: if origins.contains(Origin::User) {
            document.user.with_validity_at_least(validity)
        } else {
            document.user
        },
        author: if origins.contains(Origin::Author) {
            document.author.with_validity_at_least(validity)
        } else {
            document.author
        },
    }
}

/// The sheets of one origin, each with the origin beside it.
pub open spec fn tagged<S>(sheets: Seq<S>, origin: Origin) -> Seq<(S, Origin)> {
    sheets.map_values(|sheet: S| (sheet, origin))
}

/// The sheets of the origins listed in `origins`, one origin after the
/// other, each sheet with its origin.
pub open spec fn sheets_in<S>(document: DocumentState<S>, origins: Seq<Origin>) -> Seq<
    (S, Origin),
>
    decreases origins.len(),
{
    if origins.len() == 0 {
        Seq::empty()
    } else {
        tagged(document.get(origins[0]).sheets(), origins[0]) + sheets_in(
            document,
            origins.drop_first(),
        )
    }
}

/// All the sheets of the document, each with its origin: the author's
/// sheets first, then the user's, then the user agent's.
pub open spec fn flattened<S>(document: DocumentState<S>) -> Seq<(S, Origin)> {
    tagged(document.author.sheets(), Origin::Author) + tagged(
        document.user.sheets(),
        Origin::User,
    ) + tagged(document.user_agent.sheets(), Origin::UserAgent)
}

} // verus!
