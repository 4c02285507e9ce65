//! A model of the file table and of what the commit of a scan does to it,
//! and the proof that the commit keeps the paths of the live files distinct.
//! The commit itself runs in the database; this module states what it is
//! taken to do.

use vstd::prelude::*;
use crate::classify::{
    aggregated, claimed, classified, conflicts, deletions, first_moves, later_moves, moved_ids,
    moved_paths, new_paths, readmit_all, reconciled, resolved, unclaimed, verdict_of,
    DisplacedView, FileFactsView, ProbeView, VerdictView,
};
use crate::existing::{paths_of, ArtistEntryView, ExistingFilesView, FileEntryView};
use crate::laws::{
    facts_paths, lemma_identity_is_stable, lemma_reconciliation_keeps_each_path_once,
    lemma_scan_holds_each_path_once,
};
use crate::prepare::staging_of;
use crate::seqs::{first_index, lemma_first_index, lemma_first_index_is};
use crate::types::{
    FileClassificationView, ModifiedEntryView, MovedEntryView, NewFileDataView, ScanResultsView,
    StagingDataView, StagingDeleted, StagingFileView, StagingModifiedView, StagingMovedView,
};

verus! {

/// One row of the file table. A row is live until it is marked deleted.
pub struct FileRecord {
    pub id: u128,
    pub path: Seq<char>,
    pub hash: Seq<u8>,
    pub deleted: bool,
}

/// No two live rows have the same path.
pub open spec fn live_paths_unique(rows: Seq<FileRecord>) -> bool {
    forall|i: int, j: int|
        0 <= i < j < rows.len() && !rows[i].deleted && !rows[j].deleted ==> rows[i].path
            != rows[j].path
}

/// No two rows have the same identifier.
pub open spec fn ids_unique(rows: Seq<FileRecord>) -> bool {
    forall|i: int, j: int| 0 <= i < j < rows.len() ==> rows[i].id != rows[j].id
}

/// The identifiers of the rows.
pub open spec fn record_ids(rows: Seq<FileRecord>) -> Seq<u128> {
    rows.map_values(|r: FileRecord| r.id)
}

/// A row as a scan knows it.
pub open spec fn entry_of(row: FileRecord) -> FileEntryView {
    FileEntryView { id: row.id, path: row.path, hash: row.hash }
}

/// What a scan loads from the table: its live rows, in order.
pub open spec fn scanned(rows: Seq<FileRecord>) -> ExistingFilesView
    decreases rows.len(),
{
    if rows.len() == 0 {
        ExistingFilesView::empty()
    } else {
        let before = scanned(rows.drop_last());
        if rows.last().deleted {
            before
        } else {
            before.inserted(rows.last().id, rows.last().path, rows.last().hash)
        }
    }
}

/// The rows that the staged files become.
pub open spec fn new_rows(files: Seq<StagingFileView>) -> Seq<FileRecord> {
    files.map_values(
        |f: StagingFileView| FileRecord { id: f.id, path: f.path, hash: f.hash, deleted: false },
    )
}

/// The identifiers of the staged moves.
pub open spec fn staged_move_ids(moved: Seq<StagingMovedView>) -> Seq<u128> {
    moved.map_values(|m: StagingMovedView| m.id)
}

/// The identifiers of the staged content changes.
pub open spec fn staged_change_ids(modified: Seq<StagingModifiedView>) -> Seq<u128> {
    modified.map_values(|m: StagingModifiedView| m.id)
}

/// The identifiers of the files staged as deleted.
pub open spec fn staged_deleted_ids(deleted: Seq<StagingDeleted>) -> Seq<u128> {
    deleted.map_values(|d: StagingDeleted| d.file_id)
}

/// `path` is the path of `row` after the staged moves: the new path of a move
/// of that row, or the path it had where no move names the row.
pub open spec fn path_after(row: FileRecord, moved: Seq<StagingMovedView>, path: Seq<char>) -> bool {
    if staged_move_ids(moved).contains(row.id) {
        exists|j: int| 0 <= j < moved.len() && moved[j].id == row.id && moved[j].new_path == path
    } else {
        path == row.path
    }
}

/// `hash` is the content of `row` after the staged content changes.
pub open spec fn hash_after(
    row: FileRecord,
    modified: Seq<StagingModifiedView>,
    hash: Seq<u8>,
) -> bool {
    if staged_change_ids(modified).contains(row.id) {
        exists|j: int| 0 <= j < modified.len() && modified[j].id == row.id && modified[j].hash == hash
    } else {
        hash == row.hash
    }
}

/// `after` is the file table that the commit of `staging` makes of `before`:
/// the staged files join the table as live rows; then every row that a move
/// names takes the new path, every row that a content change names takes the
/// new content, and every row staged as deleted is marked. Where several moves
/// or changes name one row, any one of them applies.
pub open spec fn is_commit(
    before: Seq<FileRecord>,
    staging: StagingDataView,
    after: Seq<FileRecord>,
) -> bool {
    let joined = before + new_rows(staging.files);
    &&& after.len() == joined.len()
    &&& forall|k: int|
        0 <= k < joined.len() ==> {
            &&& (#[trigger] after[k]).id == joined[k].id
            &&& path_after(joined[k], staging.moved, after[k].path)
            &&& hash_after(joined[k], staging.modified, after[k].hash)
            &&& after[k].deleted == (joined[k].deleted || staged_deleted_ids(
                staging.deleted,
            ).contains(joined[k].id))
        }
}

/// What a scan loads from a table with distinct live paths: every live row
/// is known at its path, and every known file, by path or by content, is a
/// live row.
proof fn lemma_scanned(rows: Seq<FileRecord>)
    requires
        live_paths_unique(rows),
    ensures
        forall|r: int|
            0 <= r < rows.len() && !rows[r].deleted ==> #[trigger] scanned(rows).at_path(
                rows[r].path,
            ) == Some(entry_of(rows[r])),
        forall|k: int|
            0 <= k < scanned(rows).by_path.len() ==> exists|r: int|
                0 <= r < rows.len() && !rows[r].deleted && entry_of(rows[r]) == #[trigger] scanned(
                    rows,
                ).by_path[k],
        forall|k: int|
            0 <= k < scanned(rows).by_hash.len() ==> exists|r: int|
                0 <= r < rows.len() && !rows[r].deleted && entry_of(rows[r]) == #[trigger] scanned(
                    rows,
                ).by_hash[k],
    decreases rows.len(),
{
    if rows.len() > 0 {
        let earlier = rows.drop_last();
        let last = rows.last();
        assert forall|i: int, j: int|
            0 <= i < j < earlier.len() && !earlier[i].deleted
                && !earlier[j].deleted implies earlier[i].path != earlier[j].path by {
            assert(earlier[i] == rows[i] && earlier[j] == rows[j]);
        }
        lemma_scanned(earlier);
        let se = scanned(earlier);
        let s = scanned(rows);
        if last.deleted {
            assert forall|r: int| 0 <= r < rows.len() && !rows[r].deleted implies #[trigger] s.at_path(
                rows[r].path,
            ) == Some(entry_of(rows[r])) by {
                assert(rows[r] == earlier[r]);
                assert(se.at_path(earlier[r].path) == Some(entry_of(earlier[r])));
            }
            assert forall|k: int| 0 <= k < s.by_path.len() implies exists|r: int|
                0 <= r < rows.len() && !rows[r].deleted && entry_of(rows[r])
                    == #[trigger] s.by_path[k] by {
                let r = choose|r: int|
                    0 <= r < earlier.len() && !earlier[r].deleted && entry_of(earlier[r])
                        == se.by_path[k];
                assert(rows[r] == earlier[r]);
            }
            assert forall|k: int| 0 <= k < s.by_hash.len() implies exists|r: int|
                0 <= r < rows.len() && !rows[r].deleted && entry_of(rows[r])
                    == #[trigger] s.by_hash[k] by {
                let r = choose|r: int|
                    0 <= r < earlier.len() && !earlier[r].deleted && entry_of(earlier[r])
                        == se.by_hash[k];
                assert(rows[r] == earlier[r]);
            }
        } else {
            let e = entry_of(last);
            let keys = paths_of(se.by_path);
            let n = rows.len() - 1;
            assert(rows[n] == last);
            lemma_first_index(keys, last.path);
            if keys.contains(last.path) {
                let k = choose|k: int| 0 <= k < keys.len() && keys[k] == last.path;
                let r = choose|r: int|
                    0 <= r < earlier.len() && !earlier[r].deleted && entry_of(earlier[r])
                        == se.by_path[k];
                assert(rows[r] == earlier[r]);
                assert(rows[r].path == rows[n].path);
                assert(false);
            }
            assert(s.by_path == se.by_path.push(e));
            assert(s.by_hash == se.by_hash.push(e));
            assert(paths_of(s.by_path) =~= keys.push(last.path));
            assert forall|r: int| 0 <= r < rows.len() && !rows[r].deleted implies #[trigger] s.at_path(
                rows[r].path,
            ) == Some(entry_of(rows[r])) by {
                if r < n {
                    assert(rows[r] == earlier[r]);
                    assert(se.at_path(earlier[r].path) == Some(entry_of(earlier[r])));
                    lemma_first_index(keys, rows[r].path);
                    let k = first_index(keys, rows[r].path)->0;
                    lemma_first_index_is(keys.push(last.path), rows[r].path, k);
                } else {
                    lemma_first_index_is(keys.push(last.path), last.path, keys.len() as int);
                }
            }
            assert forall|k: int| 0 <= k < s.by_path.len() implies exists|r: int|
                0 <= r < rows.len() && !rows[r].deleted && entry_of(rows[r])
                    == #[trigger] s.by_path[k] by {
                if k < se.by_path.len() {
                    let r = choose|r: int|
                        0 <= r < earlier.len() && !earlier[r].deleted && entry_of(earlier[r])
                            == se.by_path[k];
                    assert(rows[r] == earlier[r]);
                } else {
                    assert(entry_of(rows[n]) == s.by_path[k]);
                }
            }
            assert forall|k: int| 0 <= k < s.by_hash.len() implies exists|r: int|
                0 <= r < rows.len() && !rows[r].deleted && entry_of(rows[r])
                    == #[trigger] s.by_hash[k] by {
                if k < se.by_hash.len() {
                    let r = choose|r: int|
                        0 <= r < earlier.len() && !earlier[r].deleted && entry_of(earlier[r])
                            == se.by_hash[k];
                    assert(rows[r] == earlier[r]);
                } else {
                    assert(entry_of(rows[n]) == s.by_hash[k]);
                }
            }
        }
    }
}

/// A moved file lies at a path that was not known, and has the identifier of
/// a file that was loaded.
pub open spec fn moved_ok(existing: ExistingFilesView, m: MovedEntryView) -> bool {
    &&& existing.at_path(m.path) is None
    &&& exists|e: FileEntryView| existing.by_hash.contains(e) && e.id == m.id
}

/// A modified file has the identifier known at its path.
pub open spec fn modified_ok(existing: ExistingFilesView, m: ModifiedEntryView) -> bool {
    match existing.at_path(m.path) {
        Some(e) => e.id == m.id,
        None => false,
    }
}

/// The path is free for a new file: it was not known, or the file known
/// there was found moved.
pub open spec fn path_ok(
    existing: ExistingFilesView,
    moved: Seq<MovedEntryView>,
    path: Seq<char>,
) -> bool {
    match existing.at_path(path) {
        Some(e) => moved_ids(moved).contains(e.id),
        None => true,
    }
}

/// A new file lies at a path that was not known, or at the path of a known
/// file that was found moved.
pub open spec fn new_ok(
    existing: ExistingFilesView,
    moved: Seq<MovedEntryView>,
    d: NewFileDataView,
) -> bool {
    path_ok(existing, moved, d.path)
}

/// Every classification agrees with the catalog it was made against.
pub open spec fn justified(existing: ExistingFilesView, c: FileClassificationView) -> bool {
    match c {
        FileClassificationView::Skipped { .. } => true,
        FileClassificationView::Moved {
            id,
            path,
            hash,
            size,
        } => moved_ok(existing, MovedEntryView { id, path, hash, size }),
        FileClassificationView::Modified {
            id,
            path,
            hash,
            size,
            duration,
        } => modified_ok(existing, ModifiedEntryView { id, path, hash, size, duration }),
        FileClassificationView::New(d) => existing.at_path(d.path) is None,
    }
}

/// The results agree with the catalog.
pub open spec fn sound(existing: ExistingFilesView, results: ScanResultsView) -> bool {
    &&& forall|j: int|
        0 <= j < results.moved.len() ==> moved_ok(existing, #[trigger] results.moved[j])
    &&& forall|j: int|
        0 <= j < results.modified.len() ==> modified_ok(existing, #[trigger] results.modified[j])
    &&& forall|j: int|
        0 <= j < results.new_files.len() ==> new_ok(
            existing,
            results.moved,
            #[trigger] results.new_files[j],
        )
}

proof fn lemma_classified_justified(facts: Seq<FileFactsView>, existing: ExistingFilesView)
    ensures
        forall|i: int|
            0 <= i < classified(facts, existing).len() ==> justified(
                existing,
                #[trigger] classified(facts, existing)[i],
            ),
    decreases facts.len(),
{
    if facts.len() > 0 {
        let before = classified(facts.drop_last(), existing);
        let all = classified(facts, existing);
        lemma_classified_justified(facts.drop_last(), existing);
        lemma_identity_is_stable(facts.last(), existing);
        assert forall|i: int| 0 <= i < all.len() implies justified(existing, #[trigger] all[i]) by {
            if i < before.len() {
                assert(all[i] == before[i]);
            } else {
                match verdict_of(facts.last(), existing) {
                    VerdictView::Classified(c) => {
                        assert(all[i] == c);
                        match c {
                            FileClassificationView::Moved { id, path, hash, size } => {
                                assert(moved_ok(
                                    existing,
                                    MovedEntryView { id, path, hash, size },
                                ));
                            },
                            _ => {},
                        }
                    },
                    _ => {},
                }
            }
        }
    }
}

proof fn lemma_aggregated_sound(existing: ExistingFilesView, cs: Seq<FileClassificationView>)
    requires
        forall|i: int| 0 <= i < cs.len() ==> justified(existing, #[trigger] cs[i]),
    ensures
        forall|j: int|
            0 <= j < aggregated(cs).moved.len() ==> moved_ok(
                existing,
                #[trigger] aggregated(cs).moved[j],
            ),
        forall|j: int|
            0 <= j < aggregated(cs).modified.len() ==> modified_ok(
                existing,
                #[trigger] aggregated(cs).modified[j],
            ),
        forall|j: int|
            0 <= j < aggregated(cs).new_files.len() ==> existing.at_path(
                (#[trigger] aggregated(cs).new_files[j]).path,
            ) is None,
    decreases cs.len(),
{
    if cs.len() > 0 {
        let before = cs.drop_last();
        assert forall|i: int| 0 <= i < before.len() implies justified(
            existing,
            #[trigger] before[i],
        ) by {
            assert(before[i] == cs[i]);
        }
        lemma_aggregated_sound(existing, before);
        assert(justified(existing, cs[cs.len() - 1]));
    }
}

/// Every file that left as a conflict is a modified file that has the
/// identifier of a moved file.
proof fn lemma_claimed_members(modified: Seq<ModifiedEntryView>, ids: Seq<u128>)
    ensures
        forall|k: int|
            0 <= k < claimed(modified, ids).len() ==> modified.contains(
                #[trigger] claimed(modified, ids)[k],
            ) && ids.contains(claimed(modified, ids)[k].id),
        forall|k: int|
            0 <= k < unclaimed(modified, ids).len() ==> modified.contains(
                #[trigger] unclaimed(modified, ids)[k],
            ),
    decreases modified.len(),
{
    if modified.len() > 0 {
        let before = modified.drop_last();
        lemma_claimed_members(before, ids);
        let cb = claimed(before, ids);
        let ub = unclaimed(before, ids);
        assert forall|k: int| 0 <= k < cb.len() implies modified.contains(#[trigger] cb[k]) by {
            let j = choose|j: int| 0 <= j < before.len() && before[j] == cb[k];
            assert(modified[j] == cb[k]);
        }
        assert forall|k: int| 0 <= k < ub.len() implies modified.contains(#[trigger] ub[k]) by {
            let j = choose|j: int| 0 <= j < before.len() && before[j] == ub[k];
            assert(modified[j] == ub[k]);
        }
        assert(modified[modified.len() - 1] == modified.last());
    }
}

/// Every moved file, whether it stands or leaves, is one of the moved files.
proof fn lemma_moved_members(moved: Seq<MovedEntryView>)
    ensures
        forall|k: int|
            0 <= k < first_moves(moved).len() ==> moved.contains(#[trigger] first_moves(moved)[k]),
        forall|k: int|
            0 <= k < later_moves(moved).len() ==> moved.contains(#[trigger] later_moves(moved)[k]),
    decreases moved.len(),
{
    if moved.len() > 0 {
        let before = moved.drop_last();
        lemma_moved_members(before);
        let fb = first_moves(before);
        let lb = later_moves(before);
        assert forall|k: int| 0 <= k < fb.len() implies moved.contains(#[trigger] fb[k]) by {
            let j = choose|j: int| 0 <= j < before.len() && before[j] == fb[k];
            assert(moved[j] == fb[k]);
        }
        assert forall|k: int| 0 <= k < lb.len() implies moved.contains(#[trigger] lb[k]) by {
            let j = choose|j: int| 0 <= j < before.len() && before[j] == lb[k];
            assert(moved[j] == lb[k]);
        }
        assert(moved[moved.len() - 1] == moved.last());
    }
}

/// Describing files anew adds new files only at the paths of the files
/// described.
proof fn lemma_readmit_new(
    existing: ExistingFilesView,
    moved: Seq<MovedEntryView>,
    results: ScanResultsView,
    entries: Seq<DisplacedView>,
    probes: Seq<Option<ProbeView>>,
)
    requires
        forall|j: int|
            0 <= j < results.new_files.len() ==> new_ok(
                existing,
                moved,
                #[trigger] results.new_files[j],
            ),
        forall|k: int|
            0 <= k < entries.len() ==> path_ok(existing, moved, (#[trigger] entries[k]).path),
    ensures
        forall|j: int|
            0 <= j < readmit_all(results, entries, probes).new_files.len() ==> new_ok(
                existing,
                moved,
                #[trigger] readmit_all(results, entries, probes).new_files[j],
            ),
        readmit_all(results, entries, probes).moved == results.moved,
        readmit_all(results, entries, probes).modified == results.modified,
    decreases entries.len(),
{
    if entries.len() > 0 {
        let before = entries.drop_last();
        assert forall|k: int| 0 <= k < before.len() implies path_ok(
            existing,
            moved,
            (#[trigger] before[k]).path,
        ) by {
            assert(before[k] == entries[k]);
        }
        lemma_readmit_new(existing, moved, results, before, probes);
        let last = entries[entries.len() - 1];
        assert(path_ok(existing, moved, last.path));
    }
}

/// After reconciliation the results of a scan agree with the catalog.
proof fn lemma_reconciled_sound(
    facts: Seq<FileFactsView>,
    existing: ExistingFilesView,
    probes: Seq<Option<ProbeView>>,
)
    ensures
        sound(existing, reconciled(aggregated(classified(facts, existing)), probes)),
{
    let cs = classified(facts, existing);
    let r0 = aggregated(cs);
    lemma_classified_justified(facts, existing);
    lemma_aggregated_sound(existing, cs);
    let settled = resolved(r0);
    let stand = settled.moved;
    let ids = moved_ids(stand);
    lemma_moved_members(r0.moved);
    lemma_claimed_members(r0.modified, ids);
    let changes = claimed(r0.modified, ids);
    let moves = later_moves(r0.moved);
    let out = conflicts(r0);
    assert forall|k: int| 0 <= k < out.len() implies path_ok(
        existing,
        stand,
        (#[trigger] out[k]).path,
    ) by {
        if k < changes.len() {
            assert(out[k].path == changes[k].path);
            assert(r0.modified.contains(changes[k]));
            let j = choose|j: int| 0 <= j < r0.modified.len() && r0.modified[j] == changes[k];
            assert(modified_ok(existing, r0.modified[j]));
        } else {
            let m = moves[k - changes.len()];
            assert(out[k].path == m.path);
            assert(r0.moved.contains(m));
            let j = choose|j: int| 0 <= j < r0.moved.len() && r0.moved[j] == m;
            assert(moved_ok(existing, r0.moved[j]));
        }
    }
    assert forall|j: int| 0 <= j < settled.new_files.len() implies new_ok(
        existing,
        stand,
        #[trigger] settled.new_files[j],
    ) by {
        assert(existing.at_path(r0.new_files[j].path) is None);
    }
    lemma_readmit_new(existing, stand, settled, out, probes);
    let r = reconciled(r0, probes);
    assert forall|j: int| 0 <= j < r.modified.len() implies modified_ok(
        existing,
        #[trigger] r.modified[j],
    ) by {
        assert(r0.modified.contains(settled.modified[j]));
        let i = choose|i: int| 0 <= i < r0.modified.len() && r0.modified[i] == settled.modified[j];
        assert(modified_ok(existing, r0.modified[i]));
    }
    assert forall|j: int| 0 <= j < r.moved.len() implies moved_ok(existing, #[trigger] r.moved[j]) by {
        assert(r0.moved.contains(stand[j]));
        let i = choose|i: int| 0 <= i < r0.moved.len() && r0.moved[i] == stand[j];
        assert(moved_ok(existing, r0.moved[i]));
    }
}

/// The commit of a scan keeps the paths of the live files distinct.
///
/// Where the file table has distinct identifiers and distinct live paths,
/// a scan loads its live rows, lists no file on disk twice, and draws
/// identifiers for its new files that the table does not hold, the table
/// after the commit has distinct live paths.
pub proof fn lemma_commit_keeps_live_paths_unique(
    before: Seq<FileRecord>,
    facts: Seq<FileFactsView>,
    probes: Seq<Option<ProbeView>>,
    artists: Seq<ArtistEntryView>,
    ids: Seq<u128>,
    after: Seq<FileRecord>,
)
    requires
        ids_unique(before),
        live_paths_unique(before),
        facts_paths(facts).no_duplicates(),
        ({
            let existing = scanned(before);
            let results = reconciled(aggregated(classified(facts, existing)), probes);
            let staging = staging_of(results, artists, deletions(results, existing), ids);
            &&& is_commit(before, staging, after)
            &&& forall|i: int|
                0 <= i < staging.files.len() ==> !record_ids(before).contains(
                    #[trigger] staging.files[i].id,
                )
        }),
    ensures
        live_paths_unique(after),
{
    let existing = scanned(before);
    let r0 = aggregated(classified(facts, existing));
    let results = reconciled(r0, probes);
    let staging = staging_of(results, artists, deletions(results, existing), ids);
    let joined = before + new_rows(staging.files);
    let n = before.len() as int;
    lemma_scanned(before);
    lemma_scan_holds_each_path_once(facts, existing);
    lemma_reconciliation_keeps_each_path_once(r0, probes);
    lemma_reconciled_sound(facts, existing, probes);
    assert(staging.files.len() == results.new_files.len());
    assert(staging.moved.len() == results.moved.len());

    // A row that a move names takes the path of a moved file with its
    // identifier; no other row changes its path.
    assert forall|k: int| 0 <= k < joined.len() implies (if moved_ids(results.moved).contains(
        joined[k].id,
    ) {
        exists|j: int|
            0 <= j < results.moved.len() && results.moved[j].id == joined[k].id
                && results.moved[j].path == #[trigger] after[k].path
    } else {
        after[k].path == joined[k].path
    }) by {
        assert(after[k].id == joined[k].id);
        assert(path_after(joined[k], staging.moved, after[k].path));
        assert(staged_move_ids(staging.moved) =~= moved_ids(results.moved));
        if staged_move_ids(staging.moved).contains(joined[k].id) {
            let j = choose|j: int|
                0 <= j < staging.moved.len() && staging.moved[j].id == joined[k].id
                    && staging.moved[j].new_path == after[k].path;
            assert(results.moved[j].id == joined[k].id && results.moved[j].path == after[k].path);
        }
    }

    // Every moved file has the identifier of a row of the table.
    assert forall|j: int| 0 <= j < results.moved.len() implies record_ids(before).contains(
        (#[trigger] results.moved[j]).id,
    ) by {
        assert(moved_ok(existing, results.moved[j]));
        let e = choose|e: FileEntryView| existing.by_hash.contains(e) && e.id == results.moved[j].id;
        let k = choose|k: int| 0 <= k < existing.by_hash.len() && existing.by_hash[k] == e;
        let r = choose|r: int|
            0 <= r < before.len() && !before[r].deleted && entry_of(before[r])
                == existing.by_hash[k];
        assert(record_ids(before)[r] == results.moved[j].id);
    }

    assert forall|a: int, b: int|
        0 <= a < b < after.len() && !after[a].deleted && !after[b].deleted implies after[a].path
        != after[b].path by {
        assert(after[a].id == joined[a].id && after[b].id == joined[b].id);
        assert(!joined[a].deleted && !joined[b].deleted);
        let a_moved = moved_ids(results.moved).contains(joined[a].id);
        let b_moved = moved_ids(results.moved).contains(joined[b].id);
        if b < n {
            // two rows of the table
            assert(joined[a] == before[a] && joined[b] == before[b]);
            assert(existing.at_path(before[a].path) == Some(entry_of(before[a])));
            assert(existing.at_path(before[b].path) == Some(entry_of(before[b])));
            if a_moved && b_moved {
                let ja = choose|j: int|
                    0 <= j < results.moved.len() && results.moved[j].id == joined[a].id
                        && results.moved[j].path == after[a].path;
                let jb = choose|j: int|
                    0 <= j < results.moved.len() && results.moved[j].id == joined[b].id
                        && results.moved[j].path == after[b].path;
                assert(ja != jb);
                assert(moved_paths(results.moved)[ja] == after[a].path);
                assert(moved_paths(results.moved)[jb] == after[b].path);
            } else if a_moved {
                let ja = choose|j: int|
                    0 <= j < results.moved.len() && results.moved[j].id == joined[a].id
                        && results.moved[j].path == after[a].path;
                assert(moved_ok(existing, results.moved[ja]));
            } else if b_moved {
                let jb = choose|j: int|
                    0 <= j < results.moved.len() && results.moved[j].id == joined[b].id
                        && results.moved[j].path == after[b].path;
                assert(moved_ok(existing, results.moved[jb]));
            }
        } else {
            // the later row is a new file
            let ib = b - n;
            assert(joined[b] == new_rows(staging.files)[ib]);
            assert(joined[b].id == staging.files[ib].id);
            assert(joined[b].path == results.new_files[ib].path);
            assert(!record_ids(before).contains(staging.files[ib].id));
            if b_moved {
                let jb = choose|j: int|
                    0 <= j < results.moved.len() && moved_ids(results.moved)[j] == joined[b].id;
                assert(record_ids(before).contains(results.moved[jb].id));
                assert(false);
            }
            assert(after[b].path == results.new_files[ib].path);
            assert(new_paths(results.new_files)[ib] == after[b].path);
            assert(new_paths(results.new_files).contains(after[b].path));
            if a < n {
                assert(joined[a] == before[a]);
                assert(existing.at_path(before[a].path) == Some(entry_of(before[a])));
                if a_moved {
                    let ja = choose|j: int|
                        0 <= j < results.moved.len() && results.moved[j].id == joined[a].id
                            && results.moved[j].path == after[a].path;
                    assert(moved_paths(results.moved)[ja] == after[a].path);
                    assert(moved_paths(results.moved).contains(after[a].path));
                } else {
                    assert(new_ok(existing, results.moved, results.new_files[ib]));
                }
            } else {
                let ia = a - n;
                assert(joined[a] == new_rows(staging.files)[ia]);
                assert(joined[a].id == staging.files[ia].id);
                assert(joined[a].path == results.new_files[ia].path);
                assert(!record_ids(before).contains(staging.files[ia].id));
                if a_moved {
                    let ja = choose|j: int|
                        0 <= j < results.moved.len() && moved_ids(results.moved)[j]
                            == joined[a].id;
                    assert(record_ids(before).contains(results.moved[ja].id));
                    assert(false);
                }
                assert(new_paths(results.new_files)[ia] == after[a].path);
            }
        }
    }
}

} // verus!
