use stylesheet_set::document::DocumentStylesheetSet;
use stylesheet_set::flusher::StylesheetFlusher;
use stylesheet_set::origin::{Origin, OriginSet};
use stylesheet_set::validity::{DataValidity, SheetRebuildKind};

#[derive(Clone, Debug, PartialEq, Eq)]
struct Sheet(&'static str);

fn drain(
    flusher: &mut StylesheetFlusher<'_, Sheet>,
    origin: Origin,
) -> Vec<(&'static str, SheetRebuildKind)> {
    let mut out = Vec::new();
    let mut cursor = flusher.origin_sheets(origin);
    while let Some((sheet, kind)) = cursor.next() {
        out.push((sheet.0, kind));
    }
    out
}

fn flush_author(set: &mut DocumentStylesheetSet<Sheet>) -> Vec<(&'static str, SheetRebuildKind)> {
    let mut flusher = set.flush(false);
    drain(&mut flusher, Origin::Author)
}

fn author_sheets(set: &DocumentStylesheetSet<Sheet>) -> Vec<&'static str> {
    let mut out = Vec::new();
    let mut index = 0;
    while let Some(sheet) = set.get(Origin::Author, index) {
        out.push(sheet.0);
        index += 1;
    }
    out
}

#[test]
fn new_set_is_empty_and_clean() {
    let mut set: DocumentStylesheetSet<Sheet> = DocumentStylesheetSet::new();
    assert_eq!(set.len(), 0);
    assert!(!set.has_changed());
    assert!(set.get(Origin::Author, 0).is_none());
    assert!(set.iter().next().is_none());
    let flusher = set.flush(false);
    assert!(flusher.nothing_to_do());
}

#[test]
fn append_flush_prepend_remove_scenario() {
    let mut set = DocumentStylesheetSet::new();

    set.append_stylesheet(Origin::Author, Sheet("a"));
    assert_eq!(flush_author(&mut set), vec![("a", SheetRebuildKind::Full)]);

    set.append_stylesheet(Origin::Author, Sheet("b"));
    {
        let mut flusher = set.flush(false);
        assert_eq!(flusher.data_validity(Origin::Author), DataValidity::Valid);
        assert!(flusher.origin_dirty(Origin::Author));
        assert_eq!(drain(&mut flusher, Origin::Author), vec![("b", SheetRebuildKind::Full)]);
    }

    set.prepend_stylesheet(Origin::Author, Sheet("c"));
    {
        let mut flusher = set.flush(false);
        assert_eq!(flusher.data_validity(Origin::Author), DataValidity::CascadeInvalid);
        assert_eq!(
            drain(&mut flusher, Origin::Author),
            vec![
                ("c", SheetRebuildKind::Full),
                ("a", SheetRebuildKind::CascadeOnly),
                ("b", SheetRebuildKind::CascadeOnly),
            ]
        );
    }

    set.remove_stylesheet(Origin::Author, Sheet("a"));
    {
        let mut flusher = set.flush(false);
        assert_eq!(flusher.data_validity(Origin::Author), DataValidity::FullyInvalid);
        assert_eq!(
            drain(&mut flusher, Origin::Author),
            vec![("c", SheetRebuildKind::Full), ("b", SheetRebuildKind::Full)]
        );
    }
    assert_eq!(author_sheets(&set), vec!["c", "b"]);
}

#[test]
fn len_counts_the_sheets_that_are_present() {
    let mut set = DocumentStylesheetSet::new();
    assert_eq!(set.len(), 0);
    set.append_stylesheet(Origin::Author, Sheet("a"));
    assert_eq!(set.len(), 1);
    set.prepend_stylesheet(Origin::Author, Sheet("b"));
    assert_eq!(set.len(), 2);
    set.insert_stylesheet_before(Origin::Author, Sheet("c"), Sheet("a"));
    assert_eq!(set.len(), 3);
    set.append_stylesheet(Origin::User, Sheet("a"));
    assert_eq!(set.len(), 4);
    set.append_stylesheet(Origin::UserAgent, Sheet("ua"));
    assert_eq!(set.len(), 5);
    set.remove_stylesheet(Origin::Author, Sheet("b"));
    assert_eq!(set.len(), 4);
    set.remove_stylesheet(Origin::User, Sheet("a"));
    assert_eq!(set.len(), 3);
    assert_eq!(author_sheets(&set), vec!["c", "a"]);
}

#[test]
fn insert_before_puts_the_sheet_in_front_of_its_anchor() {
    let mut set = DocumentStylesheetSet::new();
    set.append_stylesheet(Origin::Author, Sheet("a"));
    set.append_stylesheet(Origin::Author, Sheet("b"));
    set.append_stylesheet(Origin::Author, Sheet("c"));
    let _ = flush_author(&mut set);
    set.insert_stylesheet_before(Origin::Author, Sheet("x"), Sheet("c"));
    assert_eq!(author_sheets(&set), vec!["a", "b", "x", "c"]);
    assert!(set.has_changed());
    let mut flusher = set.flush(false);
    assert_eq!(flusher.data_validity(Origin::Author), DataValidity::CascadeInvalid);
    assert_eq!(
        drain(&mut flusher, Origin::Author),
        vec![
            ("a", SheetRebuildKind::CascadeOnly),
            ("b", SheetRebuildKind::CascadeOnly),
            ("x", SheetRebuildKind::Full),
            ("c", SheetRebuildKind::CascadeOnly),
        ]
    );
}

#[test]
fn insert_before_the_first_sheet() {
    let mut set = DocumentStylesheetSet::new();
    set.append_stylesheet(Origin::User, Sheet("a"));
    set.insert_stylesheet_before(Origin::User, Sheet("b"), Sheet("a"));
    assert_eq!(set.get(Origin::User, 0), Some(&Sheet("b")));
    assert_eq!(set.get(Origin::User, 1), Some(&Sheet("a")));
    assert_eq!(set.get(Origin::User, 2), None);
}

#[test]
fn flush_leaves_the_set_clean() {
    let mut set = DocumentStylesheetSet::new();
    set.append_stylesheet(Origin::Author, Sheet("a"));
    set.prepend_stylesheet(Origin::User, Sheet("u"));
    assert!(set.has_changed());
    {
        let flusher = set.flush(true);
        assert!(flusher.had_invalidations());
        assert!(!flusher.nothing_to_do());
        assert!(flusher.origin_dirty(Origin::Author));
        assert!(flusher.origin_dirty(Origin::User));
        assert!(!flusher.origin_dirty(Origin::UserAgent));
        assert_eq!(flusher.data_validity(Origin::Author), DataValidity::Valid);
        assert_eq!(flusher.data_validity(Origin::User), DataValidity::CascadeInvalid);
        assert_eq!(flusher.data_validity(Origin::UserAgent), DataValidity::Valid);
    }
    assert!(!set.has_changed());
    set.append_stylesheet(Origin::Author, Sheet("b"));
    assert!(set.has_changed());
}

#[test]
fn second_flush_has_nothing_to_do() {
    let mut set = DocumentStylesheetSet::new();
    set.append_stylesheet(Origin::Author, Sheet("a"));
    set.prepend_stylesheet(Origin::Author, Sheet("b"));
    {
        let mut flusher = set.flush(false);
        assert!(!flusher.had_invalidations());
        assert_eq!(drain(&mut flusher, Origin::Author).len(), 2);
    }
    let mut flusher = set.flush(false);
    assert!(flusher.nothing_to_do());
    assert!(!flusher.origin_dirty(Origin::Author));
    assert_eq!(flusher.data_validity(Origin::Author), DataValidity::Valid);
    assert!(drain(&mut flusher, Origin::Author).is_empty());
    assert!(drain(&mut flusher, Origin::User).is_empty());
    assert!(drain(&mut flusher, Origin::UserAgent).is_empty());
}

#[test]
fn sheets_left_by_an_abandoned_cursor_come_again() {
    let mut set = DocumentStylesheetSet::new();
    set.append_stylesheet(Origin::Author, Sheet("a"));
    set.append_stylesheet(Origin::Author, Sheet("b"));
    {
        let mut flusher = set.flush(false);
        let mut cursor = flusher.origin_sheets(Origin::Author);
        let first = cursor.next().map(|(sheet, kind)| (sheet.0, kind));
        assert_eq!(first, Some(("a", SheetRebuildKind::Full)));
    }
    let mut flusher = set.flush(false);
    assert!(flusher.nothing_to_do());
    assert_eq!(drain(&mut flusher, Origin::Author), vec![("b", SheetRebuildKind::Full)]);
}

#[test]
fn appends_keep_the_data_valid() {
    let mut set = DocumentStylesheetSet::new();
    set.append_stylesheet(Origin::Author, Sheet("a"));
    set.append_stylesheet(Origin::Author, Sheet("b"));
    let _ = flush_author(&mut set);
    set.append_stylesheet(Origin::Author, Sheet("c"));
    set.append_stylesheet(Origin::Author, Sheet("d"));
    set.append_stylesheet(Origin::Author, Sheet("e"));
    let mut flusher = set.flush(false);
    assert_eq!(flusher.data_validity(Origin::Author), DataValidity::Valid);
    assert_eq!(
        drain(&mut flusher, Origin::Author),
        vec![
            ("c", SheetRebuildKind::Full),
            ("d", SheetRebuildKind::Full),
            ("e", SheetRebuildKind::Full),
        ]
    );
}

#[test]
fn removing_an_uncommitted_sheet_keeps_the_data_valid() {
    let mut set = DocumentStylesheetSet::new();
    set.append_stylesheet(Origin::Author, Sheet("a"));
    let _ = flush_author(&mut set);
    set.append_stylesheet(Origin::Author, Sheet("b"));
    set.remove_stylesheet(Origin::Author, Sheet("b"));
    assert!(set.has_changed());
    assert_eq!(set.len(), 1);
    let mut flusher = set.flush(false);
    assert!(flusher.origin_dirty(Origin::Author));
    assert_eq!(flusher.data_validity(Origin::Author), DataValidity::Valid);
    assert!(drain(&mut flusher, Origin::Author).is_empty());
}

#[test]
fn removing_a_committed_sheet_invalidates_everything() {
    let mut set = DocumentStylesheetSet::new();
    set.append_stylesheet(Origin::Author, Sheet("a"));
    set.append_stylesheet(Origin::Author, Sheet("b"));
    let _ = flush_author(&mut set);
    set.remove_stylesheet(Origin::Author, Sheet("b"));
    let mut flusher = set.flush(false);
    assert_eq!(flusher.data_validity(Origin::Author), DataValidity::FullyInvalid);
    assert_eq!(flusher.data_validity(Origin::User), DataValidity::Valid);
    assert_eq!(drain(&mut flusher, Origin::Author), vec![("a", SheetRebuildKind::Full)]);
}

#[test]
fn prepend_after_a_removal_stays_fully_invalid() {
    let mut set = DocumentStylesheetSet::new();
    set.append_stylesheet(Origin::Author, Sheet("a"));
    set.append_stylesheet(Origin::Author, Sheet("b"));
    let _ = flush_author(&mut set);
    set.remove_stylesheet(Origin::Author, Sheet("a"));
    set.prepend_stylesheet(Origin::Author, Sheet("c"));
    let mut flusher = set.flush(false);
    assert_eq!(flusher.data_validity(Origin::Author), DataValidity::FullyInvalid);
    assert_eq!(
        drain(&mut flusher, Origin::Author),
        vec![("c", SheetRebuildKind::Full), ("b", SheetRebuildKind::Full)]
    );
}

#[test]
fn origins_are_tracked_apart() {
    let mut set = DocumentStylesheetSet::new();
    set.append_stylesheet(Origin::UserAgent, Sheet("ua"));
    set.append_stylesheet(Origin::User, Sheet("user"));
    set.append_stylesheet(Origin::Author, Sheet("author"));
    {
        let mut flusher = set.flush(false);
        assert_eq!(drain(&mut flusher, Origin::UserAgent), vec![("ua", SheetRebuildKind::Full)]);
        assert_eq!(drain(&mut flusher, Origin::User), vec![("user", SheetRebuildKind::Full)]);
        assert_eq!(drain(&mut flusher, Origin::Author), vec![("author", SheetRebuildKind::Full)]);
    }
    set.prepend_stylesheet(Origin::User, Sheet("first"));
    let mut flusher = set.flush(false);
    assert!(!flusher.origin_dirty(Origin::UserAgent));
    assert!(flusher.origin_dirty(Origin::User));
    assert!(!flusher.origin_dirty(Origin::Author));
    assert!(drain(&mut flusher, Origin::UserAgent).is_empty());
    assert!(drain(&mut flusher, Origin::Author).is_empty());
    assert_eq!(
        drain(&mut flusher, Origin::User),
        vec![("first", SheetRebuildKind::Full), ("user", SheetRebuildKind::CascadeOnly)]
    );
}

#[test]
fn iter_walks_author_then_user_then_user_agent() {
    let mut set = DocumentStylesheetSet::new();
    set.append_stylesheet(Origin::UserAgent, Sheet("ua1"));
    set.append_stylesheet(Origin::UserAgent, Sheet("ua2"));
    set.append_stylesheet(Origin::Author, Sheet("a1"));
    set.append_stylesheet(Origin::Author, Sheet("a2"));
    set.append_stylesheet(Origin::User, Sheet("u1"));
    let mut seen = Vec::new();
    let mut it = set.iter();
    let copy = it.clone();
    while let Some((sheet, origin)) = it.next() {
        seen.push((sheet.0, origin));
    }
    assert_eq!(
        seen,
        vec![
            ("a1", Origin::Author),
            ("a2", Origin::Author),
            ("u1", Origin::User),
            ("ua1", Origin::UserAgent),
            ("ua2", Origin::UserAgent),
        ]
    );
    assert!(it.next().is_none());
    let mut copy = copy;
    assert_eq!(copy.next(), Some((&Sheet("a1"), Origin::Author)));
}

#[test]
fn iter_passes_over_empty_origins() {
    let mut set = DocumentStylesheetSet::new();
    set.append_stylesheet(Origin::UserAgent, Sheet("ua"));
    let mut it = set.iter();
    assert_eq!(it.next(), Some((&Sheet("ua"), Origin::UserAgent)));
    assert_eq!(it.next(), None);
}

#[test]
fn force_dirty_invalidates_the_named_origins() {
    let mut set = DocumentStylesheetSet::new();
    set.append_stylesheet(Origin::Author, Sheet("a"));
    set.append_stylesheet(Origin::User, Sheet("u"));
    {
        let mut flusher = set.flush(false);
        let _ = drain(&mut flusher, Origin::Author);
        let _ = drain(&mut flusher, Origin::User);
    }
    assert!(!set.has_changed());
    let origins = OriginSet::from_origin(Origin::Author).union(OriginSet::from_origin(
        Origin::UserAgent,
    ));
    set.force_dirty(origins);
    assert!(set.has_changed());
    let mut flusher = set.flush(false);
    assert_eq!(flusher.data_validity(Origin::Author), DataValidity::FullyInvalid);
    assert_eq!(flusher.data_validity(Origin::UserAgent), DataValidity::FullyInvalid);
    assert_eq!(flusher.data_validity(Origin::User), DataValidity::Valid);
    assert!(flusher.origin_dirty(Origin::UserAgent));
    assert!(!flusher.origin_dirty(Origin::User));
    assert_eq!(drain(&mut flusher, Origin::Author), vec![("a", SheetRebuildKind::Full)]);
    assert!(drain(&mut flusher, Origin::User).is_empty());
}

#[test]
fn force_dirty_of_no_origin_changes_nothing() {
    let mut set: DocumentStylesheetSet<Sheet> = DocumentStylesheetSet::new();
    set.force_dirty(OriginSet::empty());
    assert!(!set.has_changed());
}

#[test]
fn flush_without_invalidation_reports_the_dirty_origins() {
    let mut set = DocumentStylesheetSet::new();
    set.append_stylesheet(Origin::User, Sheet("u"));
    set.prepend_stylesheet(Origin::Author, Sheet("a"));
    let origins = set.flush_without_invalidation();
    assert!(origins.contains(Origin::User));
    assert!(origins.contains(Origin::Author));
    assert!(!origins.contains(Origin::UserAgent));
    assert!(!set.has_changed());
    let again = set.flush_without_invalidation();
    assert!(again.is_empty());
    let mut flusher = set.flush(false);
    assert!(flusher.nothing_to_do());
    assert_eq!(flusher.data_validity(Origin::Author), DataValidity::Valid);
    assert_eq!(drain(&mut flusher, Origin::Author), vec![("a", SheetRebuildKind::Full)]);
}

#[test]
fn missing_user_agent_sheet_is_passed_over_when_told_so() {
    let mut set = DocumentStylesheetSet::new();
    set.set_ignore_missing_user_agent_sheets(true);
    set.append_stylesheet(Origin::UserAgent, Sheet("ua"));
    let _ = set.flush_without_invalidation();
    set.remove_stylesheet(Origin::UserAgent, Sheet("other"));
    assert_eq!(set.len(), 1);
    assert!(!set.has_changed());
    set.remove_stylesheet(Origin::UserAgent, Sheet("ua"));
    assert_eq!(set.len(), 0);
    assert!(set.has_changed());
}

#[test]
fn manual_origin_sheets_commits_nothing() {
    let mut set = DocumentStylesheetSet::new();
    set.append_stylesheet(Origin::UserAgent, Sheet("ua1"));
    set.append_stylesheet(Origin::UserAgent, Sheet("ua2"));
    {
        let mut flusher = set.flush(false);
        let mut it = flusher.manual_origin_sheets(Origin::UserAgent);
        assert_eq!(it.size_hint(), (2, Some(2)));
        assert_eq!(it.next(), Some(&Sheet("ua1")));
        assert_eq!(it.next(), Some(&Sheet("ua2")));
        assert_eq!(it.next(), None);
    }
    set.remove_stylesheet(Origin::UserAgent, Sheet("ua1"));
    let mut flusher = set.flush(false);
    assert_eq!(flusher.data_validity(Origin::UserAgent), DataValidity::Valid);
    assert_eq!(drain(&mut flusher, Origin::UserAgent), vec![("ua2", SheetRebuildKind::Full)]);
}
