//! What holds of every scan, proved over the models of the other modules.

use vstd::prelude::*;
use crate::classify::{
    aggregated, claimed, classified, conflicts, deletions, displaced_changes, displaced_moves,
    displaced_paths, each_path_once, first_moves, is_touched, later_moves, missing_ids,
    modified_ids, modified_paths, moved_ids, moved_paths, new_file_of, new_paths,
    no_file_claimed_twice, readmit_all, reconciled, resolved, taken_over, unclaimed, verdict_of,
    DisplacedView, FileFactsView, ProbeView, VerdictView,
};
use crate::existing::{
    artist_id, paths_of, with_hash, ArtistEntryView, ExistingFilesView, FileEntryView,
};
use crate::metadata::{
    collected, first_u8, first_year, metadata_of, TagKey, TagValueView, TagView,
};
use crate::prepare::{
    album_groups, album_key, album_of, album_slots, credits_of, fresh_names, group_keys,
    is_padded_number, mentions, slot_keys, staging_of,
};
use crate::seqs::{
    first_index, lemma_concat_contains, lemma_concat_no_duplicates,
    lemma_drop_last_no_duplicates, lemma_first_index, lemma_push_contains,
    lemma_push_no_duplicates,
};
use crate::text::{is_digit, is_space, run_end, space_end};
use crate::types::{
    FileClassificationView, ModifiedEntryView, MovedEntryView, NewFileDataView, ScanResultsView,
    TrackArtistView,
};

verus! {

/// The paths of the files on disk.
pub open spec fn facts_paths(facts: Seq<FileFactsView>) -> Seq<Seq<char>> {
    facts.map_values(|f: FileFactsView| f.path)
}

/// The file at `path` is known with the content `hash`.
pub open spec fn known_with(existing: ExistingFilesView, path: Seq<char>, hash: Seq<u8>) -> bool {
    match existing.at_path(path) {
        Some(e) => e.hash == hash,
        None => false,
    }
}

/// The tree on disk is the catalog: no file is listed twice, every file on
/// disk is known at its path with its content, and every known path is a
/// file on disk.
pub open spec fn tree_unchanged(facts: Seq<FileFactsView>, existing: ExistingFilesView) -> bool {
    &&& facts_paths(facts).no_duplicates()
    &&& forall|i: int|
        0 <= i < facts.len() ==> #[trigger] known_with(existing, facts[i].path, facts[i].hash)
    &&& forall|k: int|
        0 <= k < existing.by_path.len() ==> facts_paths(facts).contains(
            #[trigger] existing.by_path[k].path,
        )
}

/// Results that hold skipped files only.
pub open spec fn only_skipped(paths: Seq<Seq<char>>) -> ScanResultsView {
    ScanResultsView {
        skipped: paths,
        moved: Seq::empty(),
        modified: Seq::empty(),
        new_files: Seq::empty(),
    }
}

/// Where every file on disk is known at its path with its content, every
/// file is skipped.
proof fn lemma_all_skipped(facts: Seq<FileFactsView>, existing: ExistingFilesView)
    requires
        forall|i: int|
            0 <= i < facts.len() ==> #[trigger] known_with(existing, facts[i].path, facts[i].hash),
    ensures
        classified(facts, existing).len() == facts.len(),
        aggregated(classified(facts, existing)) == only_skipped(facts_paths(facts)),
    decreases facts.len(),
{
    if facts.len() == 0 {
        assert(facts_paths(facts) =~= Seq::empty());
    } else {
        let before = facts.drop_last();
        let last = facts.last();
        assert forall|i: int| 0 <= i < before.len() implies #[trigger] known_with(
            existing,
            before[i].path,
            before[i].hash,
        ) by {
            assert(before[i] == facts[i]);
            assert(known_with(existing, facts[i].path, facts[i].hash));
        }
        lemma_all_skipped(before, existing);
        assert(known_with(existing, facts[facts.len() - 1].path, facts[facts.len() - 1].hash));
        let c = FileClassificationView::Skipped { path: last.path };
        assert(verdict_of(last, existing) == VerdictView::Classified(c));
        let cs = classified(facts, existing);
        assert(cs == classified(before, existing).push(c));
        assert(cs.drop_last() =~= classified(before, existing));
        assert(facts_paths(facts) =~= facts_paths(before).push(last.path));
    }
}

/// Where the scan met a file at the path of every known file, no file is
/// missing.
proof fn lemma_none_missing(entries: Seq<FileEntryView>, results: ScanResultsView)
    requires
        forall|k: int| 0 <= k < entries.len() ==> is_touched(results, #[trigger] entries[k].path),
    ensures
        missing_ids(entries, results) == Seq::<u128>::empty(),
    decreases entries.len(),
{
    if entries.len() > 0 {
        let before = entries.drop_last();
        assert forall|k: int| 0 <= k < before.len() implies is_touched(
            results,
            #[trigger] before[k].path,
        ) by {
            assert(before[k] == entries[k]);
        }
        lemma_none_missing(before, results);
        assert(is_touched(results, entries[entries.len() - 1].path));
    }
}

/// A scan of an unchanged tree changes nothing: every file is skipped, none
/// is moved, modified, new or deleted, and the skipped files are as many as
/// the catalog holds.
pub proof fn lemma_unchanged_tree_scan(facts: Seq<FileFactsView>, existing: ExistingFilesView)
    requires
        existing.wf(),
        tree_unchanged(facts, existing),
    ensures
        ({
            let results = aggregated(classified(facts, existing));
            &&& results.skipped == facts_paths(facts)
            &&& results.skipped.len() == existing.by_path.len()
            &&& results.moved.len() == 0
            &&& results.modified.len() == 0
            &&& results.new_files.len() == 0
            &&& deletions(results, existing).len() == 0
        }),
{
    lemma_all_skipped(facts, existing);
    let results = aggregated(classified(facts, existing));
    let on_disk = facts_paths(facts);
    let known = paths_of(existing.by_path);
    assert forall|k: int| 0 <= k < existing.by_path.len() implies is_touched(
        results,
        #[trigger] existing.by_path[k].path,
    ) by {
        assert(on_disk.contains(existing.by_path[k].path));
    }
    lemma_none_missing(existing.by_path, results);
    assert(on_disk.to_set() =~= known.to_set()) by {
        assert forall|p: Seq<char>| on_disk.contains(p) implies known.contains(p) by {
            let i = choose|i: int| 0 <= i < on_disk.len() && on_disk[i] == p;
            assert(known_with(existing, facts[i].path, facts[i].hash));
            lemma_first_index(known, p);
        }
        assert forall|p: Seq<char>| known.contains(p) implies on_disk.contains(p) by {
            let k = choose|k: int| 0 <= k < known.len() && known[k] == p;
            assert(on_disk.contains(existing.by_path[k].path));
        }
    }
    on_disk.unique_seq_to_set();
    known.unique_seq_to_set();
}

/// Every file known with some content has that content, and is one of the
/// files loaded.
pub proof fn lemma_with_hash_members(entries: Seq<FileEntryView>, hash: Seq<u8>, k: int)
    requires
        0 <= k < with_hash(entries, hash).len(),
    ensures
        with_hash(entries, hash)[k].hash == hash,
        entries.contains(with_hash(entries, hash)[k]),
    decreases entries.len(),
{
    if entries.len() > 0 {
        let before = with_hash(entries.drop_last(), hash);
        if k < before.len() {
            lemma_with_hash_members(entries.drop_last(), hash, k);
            let j = choose|j: int|
                0 <= j < entries.drop_last().len() && entries.drop_last()[j] == before[k];
            assert(entries[j] == before[k]);
        } else {
            assert(entries[entries.len() - 1] == entries.last());
        }
    }
}

/// A file keeps its identity for as long as its path or its content is
/// known. A file found modified has the identifier known at its path; a file
/// found moved has the identifier of a file that was loaded with the same
/// content, and lies at a path that was not known; a file is skipped only
/// where its path and content are the known ones; and a file is new only
/// where its path is not known and it takes over no known file.
pub proof fn lemma_identity_is_stable(facts: FileFactsView, existing: ExistingFilesView)
    ensures
        match verdict_of(facts, existing) {
            VerdictView::Classified(FileClassificationView::Skipped { path }) => {
                &&& path == facts.path
                &&& known_with(existing, path, facts.hash)
            },
            VerdictView::Classified(FileClassificationView::Modified { id, path, .. }) => {
                &&& path == facts.path
                &&& !known_with(existing, path, facts.hash)
                &&& match existing.at_path(path) {
                    Some(e) => e.id == id,
                    None => false,
                }
            },
            VerdictView::Classified(FileClassificationView::Moved { id, path, .. }) => {
                &&& path == facts.path
                &&& existing.at_path(path) is None
                &&& exists|e: FileEntryView|
                    existing.by_hash.contains(e) && e.id == id && e.hash == facts.hash
            },
            VerdictView::Classified(FileClassificationView::New(data)) => {
                &&& data.path == facts.path
                &&& data.hash == facts.hash
                &&& existing.at_path(data.path) is None
                &&& taken_over(existing.with_content(facts.hash), facts.vacated) is None
            },
            _ => true,
        },
{
    if existing.at_path(facts.path) is None {
        let candidates = existing.with_content(facts.hash);
        if taken_over(candidates, facts.vacated) is Some {
            let flags = facts.vacated->0;
            lemma_first_index(flags, true);
            let k = first_index(flags, true)->0;
            lemma_with_hash_members(existing.by_hash, facts.hash, k);
            assert(existing.by_hash.contains(candidates[k]));
        }
    }
}

/// Tags with the same content give the same metadata in the same year.
pub proof fn lemma_assembly_is_a_function(a: Seq<TagView>, b: Seq<TagView>, current_year: i16)
    requires
        a =~= b,
    ensures
        metadata_of(a, current_year) == metadata_of(b, current_year),
{
}

/// The rules read the tag: it has one of the standard keys that take part in
/// the metadata of a track.
pub open spec fn is_read(tag: TagView) -> bool {
    match tag.std_key {
        Some(key) => key != TagKey::Other,
        None => false,
    }
}

/// Two lists of tags give the same collections, numbers and year.
spec fn metadata_parts_agree(a: Seq<TagView>, b: Seq<TagView>, current_year: i16) -> bool {
    &&& collected(a, TagKey::Artist) == collected(b, TagKey::Artist)
    &&& collected(a, TagKey::TrackTitle) == collected(b, TagKey::TrackTitle)
    &&& collected(a, TagKey::Album) == collected(b, TagKey::Album)
    &&& collected(a, TagKey::Genre) == collected(b, TagKey::Genre)
    &&& first_u8(a, TagKey::TrackNumber) == first_u8(b, TagKey::TrackNumber)
    &&& first_u8(a, TagKey::DiscNumber) == first_u8(b, TagKey::DiscNumber)
    &&& first_year(a, current_year) == first_year(b, current_year)
}

/// Leaving out a tag that the rules do not read changes no collection, no
/// number and no year.
proof fn lemma_unread_tag_changes_no_part(
    before: Seq<TagView>,
    tag: TagView,
    after: Seq<TagView>,
    current_year: i16,
)
    requires
        !is_read(tag),
    ensures
        metadata_parts_agree(before.push(tag) + after, before + after, current_year),
    decreases after.len(),
{
    let with = before.push(tag) + after;
    let without = before + after;
    if after.len() == 0 {
        assert(with =~= before.push(tag));
        assert(without =~= before);
        assert(with.drop_last() =~= before);
        assert(with.last() == tag);
    } else {
        lemma_unread_tag_changes_no_part(before, tag, after.drop_last(), current_year);
        assert(with.drop_last() =~= before.push(tag) + after.drop_last());
        assert(without.drop_last() =~= before + after.drop_last());
        assert(with.last() == without.last());
    }
}

/// A tag that the rules do not read makes no difference, wherever it
/// stands among the tags.
pub proof fn lemma_unread_tags_make_no_difference(
    before: Seq<TagView>,
    tag: TagView,
    after: Seq<TagView>,
    current_year: i16,
)
    requires
        !is_read(tag),
    ensures
        metadata_of(before.push(tag) + after, current_year) == metadata_of(
            before + after,
            current_year,
        ),
{
    lemma_unread_tag_changes_no_part(before, tag, after, current_year);
}

/// The paths of a list of classifications.
pub open spec fn class_paths(cs: Seq<FileClassificationView>) -> Seq<Seq<char>> {
    cs.map_values(|c: FileClassificationView| c.path())
}

/// Four lists of paths hold every path once: no list holds a path twice, and
/// no two lists share a path.
spec fn once4(
    a: Seq<Seq<char>>,
    b: Seq<Seq<char>>,
    c: Seq<Seq<char>>,
    d: Seq<Seq<char>>,
) -> bool {
    &&& a.no_duplicates()
    &&& b.no_duplicates()
    &&& c.no_duplicates()
    &&& d.no_duplicates()
    &&& forall|p: Seq<char>| !(a.contains(p) && b.contains(p))
    &&& forall|p: Seq<char>| !(a.contains(p) && c.contains(p))
    &&& forall|p: Seq<char>| !(a.contains(p) && d.contains(p))
    &&& forall|p: Seq<char>| !(b.contains(p) && c.contains(p))
    &&& forall|p: Seq<char>| !(b.contains(p) && d.contains(p))
    &&& forall|p: Seq<char>| !(c.contains(p) && d.contains(p))
}

/// A path that none of four lists holds can join the first of them.
proof fn lemma_one_more_path(
    a: Seq<Seq<char>>,
    b: Seq<Seq<char>>,
    c: Seq<Seq<char>>,
    d: Seq<Seq<char>>,
    x: Seq<char>,
)
    requires
        once4(a, b, c, d),
        !a.contains(x),
        !b.contains(x),
        !c.contains(x),
        !d.contains(x),
    ensures
        once4(a.push(x), b, c, d),
{
    lemma_push_no_duplicates(a, x);
    assert forall|p: Seq<char>| a.push(x).contains(p) <==> (a.contains(p) || p == x) by {
        lemma_push_contains(a, x, p);
    }
}

/// Lists that give up some of their paths still hold every path once.
proof fn lemma_once4_shrink(
    a: Seq<Seq<char>>,
    b: Seq<Seq<char>>,
    c: Seq<Seq<char>>,
    d: Seq<Seq<char>>,
    b2: Seq<Seq<char>>,
    c2: Seq<Seq<char>>,
)
    requires
        once4(a, b, c, d),
        b2.no_duplicates(),
        c2.no_duplicates(),
        forall|p: Seq<char>| b2.contains(p) ==> b.contains(p),
        forall|p: Seq<char>| c2.contains(p) ==> c.contains(p),
    ensures
        once4(a, b2, c2, d),
{
}

/// The order of the four lists does not matter.
proof fn lemma_once4_swap(a: Seq<Seq<char>>, b: Seq<Seq<char>>, c: Seq<Seq<char>>, d: Seq<Seq<char>>)
    requires
        once4(a, b, c, d),
    ensures
        once4(b, a, c, d),
        once4(c, b, a, d),
        once4(d, b, c, a),
{
}

/// The classifications of files with distinct paths have distinct paths,
/// all of them paths of the files.
proof fn lemma_classified_paths(facts: Seq<FileFactsView>, existing: ExistingFilesView)
    requires
        facts_paths(facts).no_duplicates(),
    ensures
        class_paths(classified(facts, existing)).no_duplicates(),
        forall|p: Seq<char>|
            class_paths(classified(facts, existing)).contains(p) ==> facts_paths(facts).contains(
                p,
            ),
    decreases facts.len(),
{
    if facts.len() > 0 {
        let before = facts.drop_last();
        let last = facts.last();
        assert(facts_paths(facts).drop_last() =~= facts_paths(before));
        assert(facts_paths(facts) =~= facts_paths(before).push(last.path));
        lemma_drop_last_no_duplicates(facts_paths(facts));
        lemma_classified_paths(before, existing);
        let cb = classified(before, existing);
        assert forall|p: Seq<char>|
            facts_paths(facts).contains(p) <==> (facts_paths(before).contains(p) || p
                == last.path) by {
            lemma_push_contains(facts_paths(before), last.path, p);
        }
        match verdict_of(last, existing) {
            VerdictView::Classified(c) => {
                assert(c.path() == last.path);
                assert(class_paths(cb.push(c)) =~= class_paths(cb).push(last.path));
                lemma_push_no_duplicates(class_paths(cb), last.path);
                assert forall|p: Seq<char>|
                    class_paths(cb).push(last.path).contains(p) <==> (class_paths(cb).contains(p)
                        || p == last.path) by {
                    lemma_push_contains(class_paths(cb), last.path, p);
                }
            },
            _ => {},
        }
    }
}

/// Classifications with distinct paths are gathered into results that hold
/// every path once, and that hold no path but those of the classifications.
proof fn lemma_aggregated_once(cs: Seq<FileClassificationView>)
    requires
        class_paths(cs).no_duplicates(),
    ensures
        each_path_once(aggregated(cs)),
        forall|p: Seq<char>| is_touched(aggregated(cs), p) ==> class_paths(cs).contains(p),
    decreases cs.len(),
{
    if cs.len() > 0 {
        let before = cs.drop_last();
        let c = cs.last();
        let x = c.path();
        assert(class_paths(cs).drop_last() =~= class_paths(before));
        assert(class_paths(cs) =~= class_paths(before).push(x));
        lemma_drop_last_no_duplicates(class_paths(cs));
        lemma_aggregated_once(before);
        let ab = aggregated(before);
        let a = ab.skipped;
        let b = moved_paths(ab.moved);
        let m = modified_paths(ab.modified);
        let n = new_paths(ab.new_files);
        assert(!is_touched(ab, x));
        assert(once4(a, b, m, n));
        assert forall|p: Seq<char>|
            class_paths(cs).contains(p) <==> (class_paths(before).contains(p) || p == x) by {
            lemma_push_contains(class_paths(before), x, p);
        }
        match c {
            FileClassificationView::Skipped { path } => {
                lemma_one_more_path(a, b, m, n, x);
                assert forall|p: Seq<char>| a.push(x).contains(p) <==> (a.contains(p) || p == x) by {
                    lemma_push_contains(a, x, p);
                }
            },
            FileClassificationView::Moved { id, path, hash, size } => {
                lemma_once4_swap(a, b, m, n);
                lemma_one_more_path(b, a, m, n, x);
                lemma_once4_swap(b.push(x), a, m, n);
                assert(moved_paths(ab.moved.push(MovedEntryView { id, path, hash, size }))
                    =~= b.push(x));
                assert forall|p: Seq<char>| b.push(x).contains(p) <==> (b.contains(p) || p == x) by {
                    lemma_push_contains(b, x, p);
                }
            },
            FileClassificationView::Modified { id, path, hash, size, duration } => {
                lemma_once4_swap(a, b, m, n);
                lemma_one_more_path(m, b, a, n, x);
                lemma_once4_swap(m.push(x), b, a, n);
                assert(modified_paths(
                    ab.modified.push(ModifiedEntryView { id, path, hash, size, duration }),
                ) =~= m.push(x));
                assert forall|p: Seq<char>| m.push(x).contains(p) <==> (m.contains(p) || p == x) by {
                    lemma_push_contains(m, x, p);
                }
            },
            FileClassificationView::New(data) => {
                lemma_once4_swap(a, b, m, n);
                lemma_one_more_path(n, b, m, a, x);
                lemma_once4_swap(n.push(x), b, m, a);
                assert(new_paths(ab.new_files.push(data)) =~= n.push(x));
                assert forall|p: Seq<char>| n.push(x).contains(p) <==> (n.contains(p) || p == x) by {
                    lemma_push_contains(n, x, p);
                }
            },
        }
    }
}

/// The buckets of a scan are disjoint: where no file on disk is listed
/// twice, every path occurs once in the gathered classifications.
pub proof fn lemma_scan_holds_each_path_once(
    facts: Seq<FileFactsView>,
    existing: ExistingFilesView,
)
    requires
        facts_paths(facts).no_duplicates(),
    ensures
        each_path_once(aggregated(classified(facts, existing))),
{
    lemma_classified_paths(facts, existing);
    lemma_aggregated_once(classified(facts, existing));
}

/// Settling the conflicts splits the modified files in two: the parts have
/// the paths of the whole, share none where the whole holds none twice, and
/// differ in whether the identifier is one of `ids`.
proof fn lemma_split_modified(modified: Seq<ModifiedEntryView>, ids: Seq<u128>)
    ensures
        forall|p: Seq<char>|
            modified_paths(unclaimed(modified, ids)).contains(p) ==> modified_paths(
                modified,
            ).contains(p),
        forall|p: Seq<char>|
            modified_paths(claimed(modified, ids)).contains(p) ==> modified_paths(
                modified,
            ).contains(p),
        forall|id: u128| modified_ids(unclaimed(modified, ids)).contains(id) ==> !ids.contains(id),
        modified_paths(modified).no_duplicates() ==> {
            &&& modified_paths(unclaimed(modified, ids)).no_duplicates()
            &&& modified_paths(claimed(modified, ids)).no_duplicates()
            &&& forall|p: Seq<char>|
                !(modified_paths(unclaimed(modified, ids)).contains(p) && modified_paths(
                    claimed(modified, ids),
                ).contains(p))
        },
    decreases modified.len(),
{
    if modified.len() > 0 {
        let before = modified.drop_last();
        let last = modified.last();
        let x = last.path;
        lemma_split_modified(before, ids);
        let u = unclaimed(before, ids);
        let c = claimed(before, ids);
        assert(modified_paths(modified) =~= modified_paths(before).push(x));
        assert forall|p: Seq<char>|
            modified_paths(modified).contains(p) <==> (modified_paths(before).contains(p) || p
                == x) by {
            lemma_push_contains(modified_paths(before), x, p);
        }
        assert(modified_paths(u.push(last)) =~= modified_paths(u).push(x));
        assert(modified_paths(c.push(last)) =~= modified_paths(c).push(x));
        assert(modified_ids(u.push(last)) =~= modified_ids(u).push(last.id));
        assert forall|p: Seq<char>|
            modified_paths(u).push(x).contains(p) <==> (modified_paths(u).contains(p) || p
                == x) by {
            lemma_push_contains(modified_paths(u), x, p);
        }
        assert forall|p: Seq<char>|
            modified_paths(c).push(x).contains(p) <==> (modified_paths(c).contains(p) || p
                == x) by {
            lemma_push_contains(modified_paths(c), x, p);
        }
        assert forall|id: u128|
            modified_ids(u).push(last.id).contains(id) <==> (modified_ids(u).contains(id) || id
                == last.id) by {
            lemma_push_contains(modified_ids(u), last.id, id);
        }
        if modified_paths(modified).no_duplicates() {
            assert(modified_paths(modified).drop_last() =~= modified_paths(before));
            lemma_drop_last_no_duplicates(modified_paths(modified));
            if ids.contains(last.id) {
                lemma_push_no_duplicates(modified_paths(c), x);
            } else {
                lemma_push_no_duplicates(modified_paths(u), x);
            }
        }
    }
}

/// Settling the moved files splits them in two: the parts have the paths of
/// the whole, and share none where the whole holds none twice; the files
/// that stand take over the same known files as the whole, each once.
pub proof fn lemma_split_moved(moved: Seq<MovedEntryView>)
    ensures
        forall|p: Seq<char>|
            moved_paths(first_moves(moved)).contains(p) ==> moved_paths(moved).contains(p),
        forall|p: Seq<char>|
            moved_paths(later_moves(moved)).contains(p) ==> moved_paths(moved).contains(p),
        forall|id: u128|
            moved_ids(first_moves(moved)).contains(id) <==> moved_ids(moved).contains(id),
        moved_ids(first_moves(moved)).no_duplicates(),
        moved_paths(moved).no_duplicates() ==> {
            &&& moved_paths(first_moves(moved)).no_duplicates()
            &&& moved_paths(later_moves(moved)).no_duplicates()
            &&& forall|p: Seq<char>|
                !(moved_paths(first_moves(moved)).contains(p) && moved_paths(
                    later_moves(moved),
                ).contains(p))
        },
    decreases moved.len(),
{
    if moved.len() > 0 {
        let before = moved.drop_last();
        let last = moved.last();
        let x = last.path;
        lemma_split_moved(before);
        let f = first_moves(before);
        let l = later_moves(before);
        assert(moved_paths(moved) =~= moved_paths(before).push(x));
        assert(moved_ids(moved) =~= moved_ids(before).push(last.id));
        assert(moved_paths(f.push(last)) =~= moved_paths(f).push(x));
        assert(moved_paths(l.push(last)) =~= moved_paths(l).push(x));
        assert(moved_ids(f.push(last)) =~= moved_ids(f).push(last.id));
        assert forall|p: Seq<char>|
            moved_paths(moved).contains(p) <==> (moved_paths(before).contains(p) || p == x) by {
            lemma_push_contains(moved_paths(before), x, p);
        }
        assert forall|p: Seq<char>|
            moved_paths(f).push(x).contains(p) <==> (moved_paths(f).contains(p) || p == x) by {
            lemma_push_contains(moved_paths(f), x, p);
        }
        assert forall|p: Seq<char>|
            moved_paths(l).push(x).contains(p) <==> (moved_paths(l).contains(p) || p == x) by {
            lemma_push_contains(moved_paths(l), x, p);
        }
        assert forall|id: u128|
            moved_ids(before).push(last.id).contains(id) <==> (moved_ids(before).contains(id)
                || id == last.id) by {
            lemma_push_contains(moved_ids(before), last.id, id);
        }
        assert forall|id: u128|
            moved_ids(f).push(last.id).contains(id) <==> (moved_ids(f).contains(id) || id
                == last.id) by {
            lemma_push_contains(moved_ids(f), last.id, id);
        }
        if !moved_ids(f).contains(last.id) {
            lemma_push_no_duplicates(moved_ids(f), last.id);
        }
        assert forall|id: u128|
            moved_ids(first_moves(moved)).contains(id) <==> moved_ids(moved).contains(id) by {
            assert(moved_ids(f).contains(id) <==> moved_ids(before).contains(id));
            assert(moved_ids(moved).contains(id) <==> (moved_ids(before).contains(id) || id
                == last.id));
            if !moved_ids(f).contains(last.id) {
                assert(moved_ids(first_moves(moved)).contains(id) <==> (moved_ids(f).contains(id)
                    || id == last.id));
            }
        }
        if moved_paths(moved).no_duplicates() {
            assert(moved_paths(moved).drop_last() =~= moved_paths(before));
            lemma_drop_last_no_duplicates(moved_paths(moved));
            if moved_ids(f).contains(last.id) {
                lemma_push_no_duplicates(moved_paths(l), x);
            } else {
                lemma_push_no_duplicates(moved_paths(f), x);
            }
        }
    }
}

/// Describing files anew keeps every path once, where the files have
/// distinct paths that the results do not hold. Only the new files grow.
proof fn lemma_readmit_all(
    results: ScanResultsView,
    entries: Seq<DisplacedView>,
    probes: Seq<Option<ProbeView>>,
)
    requires
        each_path_once(results),
        displaced_paths(entries).no_duplicates(),
        forall|p: Seq<char>|
            displaced_paths(entries).contains(p) ==> !#[trigger] is_touched(results, p),
    ensures
        each_path_once(readmit_all(results, entries, probes)),
        readmit_all(results, entries, probes).skipped == results.skipped,
        readmit_all(results, entries, probes).moved == results.moved,
        readmit_all(results, entries, probes).modified == results.modified,
        forall|p: Seq<char>|
            #[trigger] is_touched(readmit_all(results, entries, probes), p) ==> (is_touched(
                results,
                p,
            ) || displaced_paths(entries).contains(p)),
    decreases entries.len(),
{
    if entries.len() > 0 {
        let before = entries.drop_last();
        let last = entries.last();
        let x = last.path;
        assert(displaced_paths(entries).drop_last() =~= displaced_paths(before));
        assert(displaced_paths(entries) =~= displaced_paths(before).push(x));
        lemma_drop_last_no_duplicates(displaced_paths(entries));
        assert forall|p: Seq<char>|
            displaced_paths(entries).contains(p) <==> (displaced_paths(before).contains(p) || p
                == x) by {
            lemma_push_contains(displaced_paths(before), x, p);
        }
        lemma_readmit_all(results, before, probes);
        let rb = readmit_all(results, before, probes);
        assert(displaced_paths(entries).contains(x));
        assert(!is_touched(results, x));
        assert(!displaced_paths(before).contains(x));
        assert(!is_touched(rb, x));
        let a = rb.skipped;
        let b = moved_paths(rb.moved);
        let m = modified_paths(rb.modified);
        let n = new_paths(rb.new_files);
        match new_file_of(last.path, last.hash, last.size, probes[entries.len() - 1]) {
            Some(data) => {
                assert(data.path == x);
                assert(once4(a, b, m, n));
                lemma_once4_swap(a, b, m, n);
                lemma_one_more_path(n, b, m, a, x);
                lemma_once4_swap(n.push(x), b, m, a);
                assert(new_paths(rb.new_files.push(data)) =~= n.push(x));
                assert forall|p: Seq<char>| n.push(x).contains(p) <==> (n.contains(p) || p == x) by {
                    lemma_push_contains(n, x, p);
                }
            },
            None => {},
        }
        let r = readmit_all(results, entries, probes);
        assert forall|p: Seq<char>| #[trigger] is_touched(r, p) implies (is_touched(results, p)
            || displaced_paths(entries).contains(p)) by {
            if is_touched(rb, p) {
                assert(is_touched(results, p) || displaced_paths(before).contains(p));
            } else {
                assert(p == x);
            }
        }
    }
}

/// The buckets stay disjoint through reconciliation: where every path
/// occurs once in the results of a scan, every path occurs once after the
/// conflicts were settled and the files that left were described anew; no
/// two moved files take over the same known file, and no file is both moved
/// and modified.
pub proof fn lemma_reconciliation_keeps_each_path_once(
    results: ScanResultsView,
    probes: Seq<Option<ProbeView>>,
)
    requires
        each_path_once(results),
    ensures
        each_path_once(reconciled(results, probes)),
        no_file_claimed_twice(reconciled(results, probes)),
{
    let ids = moved_ids(first_moves(results.moved));
    lemma_split_moved(results.moved);
    lemma_split_modified(results.modified, ids);
    let settled = resolved(results);
    let changes = claimed(results.modified, ids);
    let moves = later_moves(results.moved);
    let a = results.skipped;
    let b = moved_paths(results.moved);
    let m = modified_paths(results.modified);
    let n = new_paths(results.new_files);
    let b1 = moved_paths(first_moves(results.moved));
    let m1 = modified_paths(unclaimed(results.modified, ids));
    let pc = displaced_paths(displaced_changes(changes));
    let pm = displaced_paths(displaced_moves(moves));
    assert(once4(a, b, m, n));
    lemma_once4_shrink(a, b, m, n, b1, m1);
    assert(each_path_once(settled));
    assert(pc =~= modified_paths(changes));
    assert(pm =~= moved_paths(moves));
    assert(displaced_paths(conflicts(results)) =~= pc + pm);
    assert forall|p: Seq<char>| !(pc.contains(p) && pm.contains(p)) by {
        if pc.contains(p) && pm.contains(p) {
            assert(m.contains(p));
            assert(b.contains(p));
        }
    }
    lemma_concat_no_duplicates(pc, pm);
    assert forall|p: Seq<char>|
        displaced_paths(conflicts(results)).contains(p) implies !#[trigger] is_touched(
        settled,
        p,
    ) by {
        lemma_concat_contains(pc, pm, p);
        if pc.contains(p) {
            assert(m.contains(p));
            assert(!m1.contains(p));
            if b1.contains(p) {
                assert(b.contains(p));
            }
        } else {
            assert(pm.contains(p));
            assert(b.contains(p));
            assert(!b1.contains(p));
            if m1.contains(p) {
                assert(m.contains(p));
            }
        }
    }
    lemma_readmit_all(settled, conflicts(results), probes);
    let r = reconciled(results, probes);
    assert(r.moved == settled.moved);
    assert(r.modified == settled.modified);
    assert forall|id: u128|
        !(moved_ids(r.moved).contains(id) && modified_ids(r.modified).contains(id)) by {
        if modified_ids(r.modified).contains(id) {
            assert(!ids.contains(id));
        }
    }
}

/// Where a scan found no file moved or modified, there is nothing to
/// reconcile: the results stay as they are.
pub proof fn lemma_nothing_to_reconcile(results: ScanResultsView, probes: Seq<Option<ProbeView>>)
    requires
        results.moved.len() == 0,
        results.modified.len() == 0,
    ensures
        reconciled(results, probes) == results,
{
    assert(results.moved =~= Seq::empty());
    assert(results.modified =~= Seq::empty());
    assert(conflicts(results) =~= Seq::empty());
}

/// Grouping the new files makes one album of each title and album
/// directory: no two albums share both, and every file belongs to one of
/// the albums.
pub proof fn lemma_one_album_per_key(files: Seq<NewFileDataView>)
    ensures
        group_keys(album_groups(files)).no_duplicates(),
        album_groups(files).len() <= files.len(),
        forall|i: int|
            0 <= i < files.len() ==> group_keys(album_groups(files)).contains(
                album_key(#[trigger] files[i]),
            ),
    decreases files.len(),
{
    if files.len() > 0 {
        let before = files.drop_last();
        let key = album_key(files.last());
        lemma_one_album_per_key(before);
        let gb = album_groups(before);
        let g = album_groups(files);
        assert forall|i: int| 0 <= i < files.len() implies group_keys(g).contains(
            album_key(#[trigger] files[i]),
        ) by {
            if i < before.len() {
                assert(files[i] == before[i]);
                assert(group_keys(gb).contains(album_key(before[i])));
            }
            if !group_keys(gb).contains(key) {
                assert(group_keys(g) =~= group_keys(gb).push(key));
                lemma_push_contains(group_keys(gb), key, album_key(files[i]));
            }
        }
        if !group_keys(gb).contains(key) {
            assert(group_keys(g) =~= group_keys(gb).push(key));
            lemma_push_no_duplicates(group_keys(gb), key);
        }
    }
}

/// A scan without new files adds no artist, album, file, track or credit.
pub proof fn lemma_nothing_new_adds_no_rows(
    results: ScanResultsView,
    artists: Seq<ArtistEntryView>,
    deleted: Seq<u128>,
    ids: Seq<u128>,
)
    requires
        results.new_files.len() == 0,
    ensures
        staging_of(results, artists, deleted, ids).artists.len() == 0,
        staging_of(results, artists, deleted, ids).albums.len() == 0,
        staging_of(results, artists, deleted, ids).files.len() == 0,
        staging_of(results, artists, deleted, ids).tracks.len() == 0,
        staging_of(results, artists, deleted, ids).credits.len() == 0,
{
}

/// A second scan of an unchanged tree stages nothing: it adds no album and
/// no other row, and changes no file.
pub proof fn lemma_rescan_stages_nothing(
    facts: Seq<FileFactsView>,
    existing: ExistingFilesView,
    artists: Seq<ArtistEntryView>,
    ids: Seq<u128>,
)
    requires
        existing.wf(),
        tree_unchanged(facts, existing),
    ensures
        ({
            let results = aggregated(classified(facts, existing));
            let staged = staging_of(results, artists, deletions(results, existing), ids);
            &&& staged.artists.len() == 0
            &&& staged.albums.len() == 0
            &&& staged.files.len() == 0
            &&& staged.tracks.len() == 0
            &&& staged.credits.len() == 0
            &&& staged.moved.len() == 0
            &&& staged.modified.len() == 0
            &&& staged.deleted.len() == 0
        }),
{
    lemma_unchanged_tree_scan(facts, existing);
    let results = aggregated(classified(facts, existing));
    lemma_nothing_new_adds_no_rows(results, artists, deletions(results, existing), ids);
}

/// Every staged track names the staged file of its own new file, and a
/// staged album.
pub proof fn lemma_tracks_refer_to_staged_rows(
    results: ScanResultsView,
    artists: Seq<ArtistEntryView>,
    deleted: Seq<u128>,
    ids: Seq<u128>,
)
    ensures
        ({
            let staged = staging_of(results, artists, deleted, ids);
            &&& staged.tracks.len() == staged.files.len()
            &&& forall|i: int|
                0 <= i < staged.tracks.len() ==> (#[trigger] staged.tracks[i]).file
                    == staged.files[i].id
            &&& forall|i: int|
                0 <= i < staged.tracks.len() ==> exists|k: int|
                    0 <= k < staged.albums.len() && (#[trigger] staged.tracks[i]).album == Some(
                        staged.albums[k].id,
                    )
        }),
{
    let staged = staging_of(results, artists, deleted, ids);
    let files = results.new_files;
    let groups = album_groups(files);
    lemma_one_album_per_key(files);
    assert forall|i: int| 0 <= i < staged.tracks.len() implies exists|k: int|
        0 <= k < staged.albums.len() && (#[trigger] staged.tracks[i]).album == Some(
            staged.albums[k].id,
        ) by {
        let key = album_key(files[i]);
        assert(group_keys(groups).contains(key));
        let a = fresh_len(results, artists);
        let album_ids = ids.subrange(a, a + groups.len());
        let slots = album_slots(groups, album_ids);
        assert(slot_keys(slots) =~= group_keys(groups));
        lemma_first_index(slot_keys(slots), key);
        let k = first_index(slot_keys(slots), key)->0;
        assert(staged.tracks[i].album == album_of(slots, key));
        assert(staged.albums[k].id == album_ids[k]);
    }
}

/// How many artists a scan inserts.
pub open spec fn fresh_len(results: ScanResultsView, artists: Seq<ArtistEntryView>) -> int {
    fresh_names(mentions(results.new_files), artists).len() as int
}

/// The tag at place `i` gives the text `s` under the key `key`.
pub open spec fn gives_text(tags: Seq<TagView>, i: int, key: TagKey, s: Seq<char>) -> bool {
    0 <= i < tags.len() && tags[i].std_key == Some(key) && tags[i].value == TagValueView::String(s)
}

/// The texts collected under a key are the text values of the tags with
/// that key, each once.
pub proof fn lemma_collected_is_distinct_values(tags: Seq<TagView>, key: TagKey)
    ensures
        collected(tags, key).no_duplicates(),
        forall|s: Seq<char>|
            collected(tags, key).contains(s) <==> exists|i: int| gives_text(tags, i, key, s),
    decreases tags.len(),
{
    if tags.len() > 0 {
        let before = tags.drop_last();
        let last = tags.last();
        let n = tags.len() - 1;
        lemma_collected_is_distinct_values(before, key);
        let cb = collected(before, key);
        let c = collected(tags, key);
        assert forall|s: Seq<char>| c.contains(s) <==> exists|i: int|
            gives_text(tags, i, key, s) by {
            lemma_push_contains(cb, s, s);
            if exists|i: int| gives_text(tags, i, key, s) {
                let i = choose|i: int| gives_text(tags, i, key, s);
                if i < n {
                    assert(gives_text(before, i, key, s));
                }
            }
            if cb.contains(s) {
                let i = choose|i: int| gives_text(before, i, key, s);
                assert(gives_text(tags, i, key, s));
            }
            match last.value {
                TagValueView::String(t) => {
                    if last.std_key == Some(key) {
                        assert(gives_text(tags, n, key, t));
                        if !cb.contains(t) {
                            lemma_push_contains(cb, t, s);
                        }
                    }
                },
                _ => {},
            }
        }
        match last.value {
            TagValueView::String(t) => {
                if last.std_key == Some(key) && !cb.contains(t) {
                    lemma_push_no_duplicates(cb, t);
                }
            },
            _ => {},
        }
    }
}

/// The artists that a scan inserts are the mentioned names that the catalog
/// does not know, each once: no artist is inserted twice, and none under a
/// name that the catalog holds.
pub proof fn lemma_fresh_names_are_new_and_distinct(
    mentioned: Seq<Seq<char>>,
    existing: Seq<ArtistEntryView>,
)
    ensures
        fresh_names(mentioned, existing).no_duplicates(),
        forall|name: Seq<char>|
            fresh_names(mentioned, existing).contains(name) <==> (mentioned.contains(name)
                && artist_id(existing, name) is None),
    decreases mentioned.len(),
{
    if mentioned.len() > 0 {
        let before = mentioned.drop_last();
        let last = mentioned.last();
        lemma_fresh_names_are_new_and_distinct(before, existing);
        let fb = fresh_names(before, existing);
        assert(mentioned =~= before.push(last));
        assert forall|name: Seq<char>|
            fresh_names(mentioned, existing).contains(name) <==> (mentioned.contains(name)
                && artist_id(existing, name) is None) by {
            lemma_push_contains(before, last, name);
            lemma_push_contains(fb, last, name);
        }
        if !(artist_id(existing, last) is Some || fb.contains(last)) {
            lemma_push_no_duplicates(fb, last);
        }
    }
}

/// The credits of a track come in the order of its artists: each credit
/// names the track, and the places of the credits rise, so that no two
/// credits of a track share a place.
pub proof fn lemma_credit_places_rise(
    track: u128,
    artists: Seq<TrackArtistView>,
    all: Seq<ArtistEntryView>,
)
    requires
        artists.len() <= u64::MAX,
    ensures
        forall|k: int|
            0 <= k < credits_of(track, artists, all).len() ==> (#[trigger] credits_of(
                track,
                artists,
                all,
            )[k]).track == track && credits_of(track, artists, all)[k].ord < artists.len(),
        forall|j: int, k: int|
            0 <= j < k < credits_of(track, artists, all).len() ==> credits_of(
                track,
                artists,
                all,
            )[j].ord < credits_of(track, artists, all)[k].ord,
    decreases artists.len(),
{
    if artists.len() > 0 {
        lemma_credit_places_rise(track, artists.drop_last(), all);
    }
}

/// The end of a run of white space: everything from `from` up to it is white
/// space, and it is the end of the text or holds something else.
proof fn lemma_space_end(s: Seq<char>, from: int)
    requires
        0 <= from <= s.len(),
    ensures
        from <= space_end(s, from) <= s.len(),
        forall|k: int| from <= k < space_end(s, from) ==> is_space(s[k]),
        space_end(s, from) < s.len() ==> !is_space(s[space_end(s, from)]),
    decreases s.len() - from,
{
    if from < s.len() && is_space(s[from]) {
        lemma_space_end(s, from + 1);
    }
}

/// The end of a run of digits: everything from `from` up to it is a digit,
/// and it is the end of the text or holds something else.
proof fn lemma_run_end(s: Seq<char>, from: int)
    requires
        0 <= from <= s.len(),
    ensures
        from <= run_end(s, from) <= s.len(),
        forall|k: int| from <= k < run_end(s, from) ==> is_digit(s[k]),
        run_end(s, from) < s.len() ==> !is_digit(s[run_end(s, from)]),
    decreases s.len() - from,
{
    if from < s.len() && is_digit(s[from]) {
        lemma_run_end(s, from + 1);
    }
}

/// A run of white space that leads up to something else ends there.
proof fn lemma_space_end_is(s: Seq<char>, from: int, end: int)
    requires
        0 <= from <= end <= s.len(),
        forall|k: int| from <= k < end ==> is_space(s[k]),
        end < s.len() ==> !is_space(s[end]),
    ensures
        space_end(s, from) == end,
    decreases end - from,
{
    if from < end {
        lemma_space_end_is(s, from + 1, end);
    }
}

/// A run of digits that leads up to something else ends there.
proof fn lemma_run_end_is(s: Seq<char>, from: int, end: int)
    requires
        0 <= from <= end <= s.len(),
        forall|k: int| from <= k < end ==> is_digit(s[k]),
        end < s.len() ==> !is_digit(s[end]),
    ensures
        run_end(s, from) == end,
    decreases end - from,
{
    if from < end {
        lemma_run_end_is(s, from + 1, end);
    }
}

/// The text from `from` on is white space, then the digits from `a` up to
/// `b`, then white space.
pub open spec fn is_number_at(s: Seq<char>, from: int, a: int, b: int) -> bool {
    &&& from <= a < b <= s.len()
    &&& forall|k: int| from <= k < a ==> is_space(s[k])
    &&& forall|k: int| a <= k < b ==> is_digit(s[k])
    &&& forall|k: int| b <= k < s.len() ==> is_space(s[k])
}

/// A text holds a number and nothing else exactly if what is left of it,
/// once the white space at both ends is taken away, is a run of digits that
/// is not empty.
pub proof fn lemma_padded_number_is_trimmed_digits(s: Seq<char>, from: int)
    requires
        0 <= from <= s.len(),
    ensures
        is_padded_number(s, from) <==> exists|a: int, b: int| is_number_at(s, from, a, b),
{
    let first = space_end(s, from);
    lemma_space_end(s, from);
    lemma_run_end(s, first);
    let last = run_end(s, first);
    lemma_space_end(s, last);
    if is_padded_number(s, from) {
        assert(is_number_at(s, from, first, last));
    }
    if exists|a: int, b: int| is_number_at(s, from, a, b) {
        let (a, b) = choose|a: int, b: int| is_number_at(s, from, a, b);
        assert(is_digit(s[a]));
        lemma_space_end_is(s, from, a);
        if b < s.len() {
            assert(is_space(s[b]));
        }
        lemma_run_end_is(s, a, b);
        lemma_space_end_is(s, b, s.len() as int);
    }
}

} // verus!
