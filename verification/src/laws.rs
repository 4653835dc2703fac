//! What holds of the collections over whole runs of changes and flushes,
//! stated over their states and proved.

use crate::origin::{Origin, PerOrigin};
use crate::state::{
    all_committed, dirty_origins, document_wf, flushed_document, fresh_entry,
    lemma_contains_index, lemma_index_of, lemma_inserted_at, lemma_removed, rebuild_plan,
    sheets_of, total_len, CollectionState, DocumentState, StylesheetSetEntry,
};
use crate::validity::{rebuild_kind_for, DataValidity, SheetRebuildKind};
use vstd::prelude::*;

verus! {

/// One change of the sheets of a collection.
pub enum SheetEdit<S> {
    /// The sheet is added at the end.
    Append(S),
    /// The sheet is added in front.
    Prepend(S),
    /// The first sheet is added just before the second.
    InsertBefore(S, S),
    /// The sheet is taken out.
    Remove(S),
}

/// Whether `edit` may be made on `state`: a sheet that is added is not
/// there yet; a sheet that is removed, or that another is put before, is.
pub open spec fn edit_allowed<S>(state: CollectionState<S>, edit: SheetEdit<S>) -> bool {
    match edit {
        SheetEdit::Append(sheet) => !state.contains(sheet),
        SheetEdit::Prepend(sheet) => !state.contains(sheet),
        SheetEdit::InsertBefore(sheet, before_sheet) => !state.contains(sheet) && state.contains(
            before_sheet,
        ),
        SheetEdit::Remove(sheet) => state.contains(sheet),
    }
}

/// The collection after `edit`.
pub open spec fn after_edit<S>(state: CollectionState<S>, edit: SheetEdit<S>) -> CollectionState<
    S,
> {
    match edit {
        SheetEdit::Append(sheet) => state.appended(sheet),
        SheetEdit::Prepend(sheet) => state.prepended(sheet),
        SheetEdit::InsertBefore(sheet, before_sheet) => state.inserted_before(
            sheet,
            before_sheet,
        ),
        SheetEdit::Remove(sheet) => state.removed(sheet),
    }
}

/// Whether the edits may be made one after the other, beginning at `state`.
pub open spec fn edits_allowed<S>(state: CollectionState<S>, edits: Seq<SheetEdit<S>>) -> bool
    decreases edits.len(),
{
    edits.len() == 0 || (edit_allowed(state, edits[0]) && edits_allowed(
        after_edit(state, edits[0]),
        edits.drop_first(),
    ))
}

/// The collection after the edits were made one after the other.
pub open spec fn after_edits<S>(state: CollectionState<S>, edits: Seq<SheetEdit<S>>) -> CollectionState<
    S,
>
    decreases edits.len(),
{
    if edits.len() == 0 {
        state
    } else {
        after_edits(after_edit(state, edits[0]), edits.drop_first())
    }
}

/// The collection after the sheets were appended one after the other.
pub open spec fn appended_all<S>(state: CollectionState<S>, sheets: Seq<S>) -> CollectionState<S>
    decreases sheets.len(),
{
    if sheets.len() == 0 {
        state
    } else {
        appended_all(state, sheets.drop_last()).appended(sheets.last())
    }
}

/// The rebuild that each of the entries needs when only the cascade data is
/// invalid.
pub open spec fn cascade_plan<S>(entries: Seq<StylesheetSetEntry<S>>) -> Seq<
    (S, SheetRebuildKind),
> {
    entries.map_values(
        |entry: StylesheetSetEntry<S>|
            (
                entry.sheet,
                if entry.committed {
                    SheetRebuildKind::CascadeOnly
                } else {
                    SheetRebuildKind::Full
                },
            ),
    )
}

/// A full rebuild for each of the sheets.
pub open spec fn full_plan<S>(sheets: Seq<S>) -> Seq<(S, SheetRebuildKind)> {
    sheets.map_values(|sheet: S| (sheet, SheetRebuildKind::Full))
}

/// An allowed edit keeps a collection well formed, leaves it dirty, and
/// changes the set of its sheets by the one sheet that it adds or removes.
pub proof fn law_edit<S>(state: CollectionState<S>, edit: SheetEdit<S>)
    requires
        state.wf(),
        edit_allowed(state, edit),
    ensures
        after_edit(state, edit).wf(),
        after_edit(state, edit).dirty,
        after_edit(state, edit).data_validity.level() >= state.data_validity.level(),
        after_edit(state, edit).sheet_set() == match edit {
            SheetEdit::Append(sheet) => state.sheet_set().insert(sheet),
            SheetEdit::Prepend(sheet) => state.sheet_set().insert(sheet),
            SheetEdit::InsertBefore(sheet, before_sheet) => state.sheet_set().insert(sheet),
            SheetEdit::Remove(sheet) => state.sheet_set().remove(sheet),
        },
{
    let sheets = state.sheets();
    match edit {
        SheetEdit::Append(sheet) => {
            lemma_inserted_at(state, state.entries.len() as int, sheet);
            lemma_set_after_insert(sheets, state.entries.len() as int, sheet);
            assert(sheets.insert(sheets.len() as int, sheet) =~= sheets.push(sheet));
        },
        SheetEdit::Prepend(sheet) => {
            lemma_inserted_at(state, 0, sheet);
            lemma_set_after_insert(sheets, 0, sheet);
        },
        SheetEdit::InsertBefore(sheet, before_sheet) => {
            lemma_contains_index(state, before_sheet);
            lemma_inserted_at(state, state.index_of(before_sheet), sheet);
            lemma_set_after_insert(sheets, state.index_of(before_sheet), sheet);
        },
        SheetEdit::Remove(sheet) => {
            lemma_contains_index(state, sheet);
            lemma_removed(state, sheet);
            let index = state.index_of(sheet);
            let rest = sheets.remove(index);
            assert forall|other: S| rest.to_set().contains(other) == sheets.to_set().remove(
                sheet,
            ).contains(other) by {
                if rest.contains(other) {
                    let i = choose|i: int| 0 <= i < rest.len() && rest[i] == other;
                    let oi = if i < index {
                        i
                    } else {
                        i + 1
                    };
                    assert(sheets[oi] == other);
                }
                if sheets.contains(other) && other != sheet {
                    let i = choose|i: int| 0 <= i < sheets.len() && sheets[i] == other;
                    let ni = if i < index {
                        i
                    } else {
                        i - 1
                    };
                    assert(rest[ni] == other);
                }
            }
            assert(rest.to_set() =~= sheets.to_set().remove(sheet));
        },
    }
}

/// The sheets of a list after one more was put into it.
proof fn lemma_set_after_insert<S>(sheets: Seq<S>, index: int, sheet: S)
    requires
        0 <= index <= sheets.len(),
    ensures
        sheets.insert(index, sheet).to_set() == sheets.to_set().insert(sheet),
{
    let grown = sheets.insert(index, sheet);
    assert forall|other: S| grown.to_set().contains(other) == sheets.to_set().insert(
        sheet,
    ).contains(other) by {
        if grown.contains(other) {
            let i = choose|i: int| 0 <= i < grown.len() && grown[i] == other;
            if i < index {
                assert(sheets[i] == other);
            } else if i > index {
                assert(sheets[i - 1] == other);
            }
        }
        if sheets.contains(other) {
            let i = choose|i: int| 0 <= i < sheets.len() && sheets[i] == other;
            let ni = if i < index {
                i
            } else {
                i + 1
            };
            assert(grown[ni] == other);
        }
        if other == sheet {
            assert(grown[index] == other);
        }
    }
    assert(grown.to_set() =~= sheets.to_set().insert(sheet));
}

/// In a well-formed collection, the number of entries is the number of the
/// sheets that are in it.
pub proof fn law_len_counts_sheets<S>(state: CollectionState<S>)
    requires
        state.wf(),
    ensures
        state.sheet_set().finite(),
        state.entries.len() == state.sheet_set().len(),
{
    state.sheets().unique_seq_to_set();
    vstd::seq_lib::seq_to_set_is_finite(state.sheets());
}

/// Whatever allowed edits are made on a well-formed collection, one after
/// the other, the collection stays well formed, and the number of its
/// entries is the number of the sheets that are in it.
pub proof fn law_len_after_edits<S>(state: CollectionState<S>, edits: Seq<SheetEdit<S>>)
    requires
        state.wf(),
        edits_allowed(state, edits),
    ensures
        after_edits(state, edits).wf(),
        after_edits(state, edits).entries.len() == after_edits(state, edits).sheet_set().len(),
    decreases edits.len(),
{
    if edits.len() == 0 {
        law_len_counts_sheets(state);
    } else {
        law_edit(state, edits[0]);
        law_len_after_edits(after_edit(state, edits[0]), edits.drop_first());
    }
}

/// In a well-formed document, the number of sheets is the sum, over the
/// origins, of the number of the sheets that are in each.
pub proof fn law_total_len_counts_sheets<S>(document: DocumentState<S>)
    requires
        document_wf(document),
    ensures
        total_len(document) == document.user_agent.sheet_set().len()
            + document.user.sheet_set().len() + document.author.sheet_set().len(),
{
    law_len_counts_sheets(document.user_agent);
    law_len_counts_sheets(document.user);
    law_len_counts_sheets(document.author);
}

/// After a flush, no origin is dirty and the data of every origin is valid,
/// and handing out sheets does not change that.
pub proof fn law_flushed_is_clean<S>(
    document: DocumentState<S>,
    origin: Origin,
    entries: Seq<StylesheetSetEntry<S>>,
)
    ensures
        dirty_origins(flushed_document(document)) == Set::<Origin>::empty(),
        !flushed_document(document).get(origin).dirty,
        flushed_document(document).get(origin).data_validity == DataValidity::Valid,
        flushed_document(document).get(origin) == document.get(origin).flushed(),
        !document.get(origin).flushed().with_entries(entries).dirty,
        document.get(origin).flushed().with_entries(entries).data_validity
            == DataValidity::Valid,
        document_wf(document) ==> document_wf(flushed_document(document)),
{
    assert forall|other: Origin| !dirty_origins(flushed_document(document)).contains(other) by {
        assert(!flushed_document(document).get(other).dirty);
    }
    assert(dirty_origins(flushed_document(document)) =~= Set::<Origin>::empty());
}

/// A cursor that has come to its end has marked every entry as committed
/// and changed no sheet: it leaves the collection drained.
pub proof fn law_exhausted_cursor_drains<S>(
    state: CollectionState<S>,
    after: Seq<StylesheetSetEntry<S>>,
)
    requires
        sheets_of(after) == sheets_of(state.entries),
        forall|i: int| 0 <= i < after.len() ==> (#[trigger] after[i]).committed,
    ensures
        state.with_entries(after) == state.drained(),
        state.wf() ==> state.drained().wf(),
{
    let before = state.entries;
    assert(after.len() == sheets_of(after).len());
    assert(before.len() == sheets_of(before).len());
    assert forall|i: int| 0 <= i < after.len() implies after[i] == all_committed(before)[i] by {
        assert(after[i].sheet == sheets_of(after)[i]);
        assert(before[i].sheet == sheets_of(before)[i]);
        assert(after[i].committed);
    }
    assert(after =~= all_committed(before));
}

/// A flush whose cursor has handed out all its sheets leaves nothing for
/// the next flush, if nothing changes in between: the collection is clean,
/// the second flush finds its data valid, and its cursor hands out nothing.
pub proof fn law_second_flush_is_empty<S>(state: CollectionState<S>)
    ensures
        !state.flushed().drained().dirty,
        state.flushed().drained().flushed() == state.flushed().drained(),
        rebuild_plan(
            state.flushed().drained().entries,
            state.flushed().drained().data_validity,
        ) == Seq::<(S, SheetRebuildKind)>::empty(),
{
    lemma_plan_of_committed(all_committed(state.entries));
}

/// When every cursor of a flush has handed out all its sheets, a second
/// flush finds no origin dirty.
pub proof fn law_second_flush_has_nothing_to_do<S>(document: DocumentState<S>)
    ensures
        dirty_origins(
            drained_document(flushed_document(document)),
        ) == Set::<Origin>::empty(),
{
    let after = drained_document(flushed_document(document));
    assert forall|origin: Origin| !dirty_origins(after).contains(origin) by {
        assert(!after.get(origin).dirty);
    }
    assert(dirty_origins(after) =~= Set::<Origin>::empty());
}

/// The document after the cursors of all origins have handed out all their
/// sheets.
pub open spec fn drained_document<S>(document: DocumentState<S>) -> DocumentState<S> {
    PerOrigin {
        user_agent: document.user_agent.drained(),
        user: document.user.drained(),
        author: document.author.drained(),
    }
}

/// Committed entries need no rebuild while the data is valid.
pub proof fn lemma_plan_of_committed<S>(entries: Seq<StylesheetSetEntry<S>>)
    requires
        forall|i: int| 0 <= i < entries.len() ==> (#[trigger] entries[i]).committed,
    ensures
        rebuild_plan(entries, DataValidity::Valid) == Seq::<(S, SheetRebuildKind)>::empty(),
    decreases entries.len(),
{
    if entries.len() > 0 {
        assert(entries[0].committed);
        assert forall|i: int| 0 <= i < entries.drop_first().len() implies (
        #[trigger] entries.drop_first()[i]).committed by {
            assert(entries[i + 1].committed);
        }
        lemma_plan_of_committed(entries.drop_first());
    }
}

/// The plan for a list of entries is the plan for its front part followed
/// by the plan for the rest.
pub proof fn lemma_plan_concat<S>(
    front: Seq<StylesheetSetEntry<S>>,
    back: Seq<StylesheetSetEntry<S>>,
    validity: DataValidity,
)
    ensures
        rebuild_plan(front + back, validity) == rebuild_plan(front, validity) + rebuild_plan(
            back,
            validity,
        ),
    decreases front.len(),
{
    if front.len() == 0 {
        assert(front + back =~= back);
        assert(rebuild_plan(front, validity) + rebuild_plan(back, validity) =~= rebuild_plan(
            back,
            validity,
        ));
    } else {
        let whole = front + back;
        assert(whole.drop_first() =~= front.drop_first() + back);
        assert(whole[0] == front[0]);
        lemma_plan_concat(front.drop_first(), back, validity);
        let rest = rebuild_plan(front.drop_first(), validity);
        let tail = rebuild_plan(back, validity);
        match rebuild_kind_for(front[0].committed, validity) {
            Some(kind) => {
                assert(seq![(front[0].sheet, kind)] + (rest + tail) =~= (seq![
                    (front[0].sheet, kind),
                ] + rest) + tail);
            },
            None => {},
        }
    }
}

/// Appending sheets leaves the validity of the data as it was, and adds to
/// what the next flush hands out exactly the new sheets, in their order,
/// each for a full rebuild.
pub proof fn law_append_only<S>(state: CollectionState<S>, sheets: Seq<S>)
    ensures
        appended_all(state, sheets).data_validity == state.data_validity,
        appended_all(state, sheets).sheets() == state.sheets() + sheets,
        rebuild_plan(appended_all(state, sheets).entries, state.data_validity) == rebuild_plan(
            state.entries,
            state.data_validity,
        ) + full_plan(sheets),
    decreases sheets.len(),
{
    let validity = state.data_validity;
    if sheets.len() == 0 {
        assert(state.sheets() + sheets =~= state.sheets());
        assert(rebuild_plan(state.entries, validity) + full_plan(sheets) =~= rebuild_plan(
            state.entries,
            validity,
        ));
    } else {
        let front = sheets.drop_last();
        let last = sheets.last();
        law_append_only(state, front);
        let before = appended_all(state, front);
        let after = before.appended(last);
        assert(after.entries =~= before.entries + seq![fresh_entry(last)]);
        lemma_plan_concat(before.entries, seq![fresh_entry(last)], validity);
        let single = seq![fresh_entry(last)];
        assert(single.len() == 1 && single[0] == fresh_entry(last));
        assert(single.drop_first() =~= Seq::<StylesheetSetEntry<S>>::empty());
        assert(rebuild_plan(single.drop_first(), validity) =~= Seq::<
            (S, SheetRebuildKind),
        >::empty());
        assert(rebuild_plan(single, validity) =~= seq![(last, SheetRebuildKind::Full)]);
        assert(full_plan(sheets) =~= full_plan(front) + seq![(last, SheetRebuildKind::Full)]);
        assert(after.sheets() =~= before.sheets().push(last));
        assert(state.sheets() + sheets =~= (state.sheets() + front).push(last));
        assert((rebuild_plan(state.entries, validity) + full_plan(front)) + seq![
            (last, SheetRebuildKind::Full),
        ] =~= rebuild_plan(state.entries, validity) + full_plan(sheets));
    }
}

/// When the data is valid and every sheet was part of a flush, a flush
/// after any number of appends hands out the appended sheets, each for a
/// full rebuild, and none of the others.
pub proof fn law_append_only_after_flush<S>(state: CollectionState<S>, sheets: Seq<S>)
    requires
        state.data_validity == DataValidity::Valid,
        forall|i: int| 0 <= i < state.entries.len() ==> (#[trigger] state.entries[i]).committed,
    ensures
        appended_all(state, sheets).data_validity == DataValidity::Valid,
        rebuild_plan(appended_all(state, sheets).entries, DataValidity::Valid) == full_plan(
            sheets,
        ),
{
    law_append_only(state, sheets);
    lemma_plan_of_committed(state.entries);
    assert(Seq::<(S, SheetRebuildKind)>::empty() + full_plan(sheets) =~= full_plan(sheets));
}

/// A sheet that is appended and removed again before any flush leaves the
/// entries and the validity of the data as they were.
pub proof fn law_remove_uncommitted<S>(state: CollectionState<S>, sheet: S)
    requires
        state.wf(),
        !state.contains(sheet),
    ensures
        state.appended(sheet).removed(sheet).entries == state.entries,
        state.appended(sheet).removed(sheet).data_validity == state.data_validity,
        state.appended(sheet).removed(sheet).dirty,
{
    let grown = state.appended(sheet);
    lemma_inserted_at(state, state.entries.len() as int, sheet);
    lemma_index_of(grown, state.entries.len() as int);
    assert(grown.entries.remove(state.entries.len() as int) =~= state.entries);
}

/// Removing a sheet that no flush has seen leaves the validity of the data
/// as it was; removing one that a flush has seen leaves nothing valid.
pub proof fn law_remove_validity<S>(state: CollectionState<S>, sheet: S)
    requires
        state.contains(sheet),
    ensures
        state.removed(sheet).dirty,
        state.removed(sheet).data_validity == if state.entries[state.index_of(
            sheet,
        )].committed {
            DataValidity::FullyInvalid
        } else {
            state.data_validity
        },
{
}

/// While only the cascade data is invalid, a flush hands out every sheet:
/// those that a flush has seen for a rebuild of the cascade data, the others
/// for a full rebuild.
pub proof fn lemma_cascade_plan<S>(entries: Seq<StylesheetSetEntry<S>>)
    ensures
        rebuild_plan(entries, DataValidity::CascadeInvalid) == cascade_plan(entries),
    decreases entries.len(),
{
    if entries.len() == 0 {
        assert(cascade_plan(entries) =~= Seq::<(S, SheetRebuildKind)>::empty());
    } else {
        lemma_cascade_plan(entries.drop_first());
        assert(rebuild_plan(entries, DataValidity::CascadeInvalid) =~= cascade_plan(entries));
    }
}

/// Unless everything was invalid already, a flush after a prepend hands out
/// the new sheet for a full rebuild, and then every other sheet: those that
/// a flush has seen for a rebuild of the cascade data, the others for a
/// full rebuild.
pub proof fn law_prepend_then_flush<S>(state: CollectionState<S>, sheet: S)
    requires
        state.data_validity != DataValidity::FullyInvalid,
    ensures
        state.prepended(sheet).data_validity == DataValidity::CascadeInvalid,
        rebuild_plan(state.prepended(sheet).entries, state.prepended(sheet).data_validity)
            == seq![(sheet, SheetRebuildKind::Full)] + cascade_plan(state.entries),
{
    let after = state.prepended(sheet);
    lemma_cascade_plan(after.entries);
    assert(cascade_plan(after.entries) =~= seq![(sheet, SheetRebuildKind::Full)] + cascade_plan(
        state.entries,
    ));
}

} // verus!
