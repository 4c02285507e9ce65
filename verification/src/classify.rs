//! Classification of the files on disk against the catalog, and the
//! reconciliation of the gathered classifications.

use std::collections::HashSet;
use vstd::prelude::*;
use vstd::std_specs::hash::group_hash_axioms;
use crate::existing::{paths_of, ExistingFiles, ExistingFilesView, FileEntry, FileEntryView};
use crate::hashing::{blake3_digest, blake3_hash, hash_equal};
use crate::metadata::{extension_to_format, format_of};
use crate::paths::{extension_of, path_extension};
use crate::seqs::{first_index, index_from, lemma_push_contains};
use crate::text::{chars_equal, contains_text, lower_seq, lowered, same_text};
use crate::types::{
    views, FileClassification, FileClassificationView, ModifiedEntry, ModifiedEntryView,
    MovedEntry, MovedEntryView, NewFileData, NewFileDataView, ScanResults, ScanResultsView,
    TrackMetadata, TrackMetadataView,
};

verus! {

broadcast use group_hash_axioms;

/// Whether an extension, taken without regard to ASCII case, is one of the
/// audio extensions that a scan collects.
pub open spec fn is_audio_extension(ext: Seq<char>) -> bool {
    let e = lower_seq(ext);
    e == "mp3"@ || e == "flac"@ || e == "ogg"@ || e == "m4a"@ || e == "opus"@ || e == "wma"@ || e
        == "aac"@ || e == "aiff"@ || e == "aif"@ || e == "alac"@ || e == "ape"@ || e == "wav"@
        || e == "wv"@
}

/// Whether a path ends in an audio extension.
pub open spec fn is_audio_path(path: Seq<char>) -> bool {
    match path_extension(path) {
        Some(ext) => is_audio_extension(ext),
        None => false,
    }
}

/// Every audio extension has a format, and no other extension has one.
pub proof fn lemma_audio_extensions_have_formats(ext: Seq<char>)
    ensures
        is_audio_extension(ext) <==> format_of(ext) is Some,
{
}

/// Tells whether an extension is one of the audio extensions.
pub fn extension_is_audio(ext: &str) -> (r: bool)
    ensures
        r == is_audio_extension(ext@),
{
    let e = lowered(ext);
    chars_equal(&e, "mp3") || chars_equal(&e, "flac") || chars_equal(&e, "ogg") || chars_equal(
        &e,
        "m4a",
    ) || chars_equal(&e, "opus") || chars_equal(&e, "wma") || chars_equal(&e, "aac")
        || chars_equal(&e, "aiff") || chars_equal(&e, "aif") || chars_equal(&e, "alac")
        || chars_equal(&e, "ape") || chars_equal(&e, "wav") || chars_equal(&e, "wv")
}

/// Tells whether a scan collects the file at `path`: whether the path has an
/// extension, and that is an audio extension.
pub fn is_audio_file(path: &str) -> (r: bool)
    ensures
        r == is_audio_path(path@),
{
    match extension_of(path) {
        Some(ext) => extension_is_audio(ext.as_str()),
        None => false,
    }
}

/// What the extractor found in a file: its tags and its duration, the
/// seconds as the bit pattern of a double.
#[derive(Debug)]
pub struct Probe {
    pub metadata: TrackMetadata,
    pub duration: u64,
}

/// The view of [`Probe`]: its strings and lists as sequences.
pub struct ProbeView {
    pub metadata: TrackMetadataView,
    pub duration: u64,
}

impl View for Probe {
    type V = ProbeView;

    open spec fn view(&self) -> ProbeView {
        ProbeView { metadata: self.metadata@, duration: self.duration }
    }
}

/// The view of an optional probe.
pub open spec fn opt_probe(p: Option<Probe>) -> Option<ProbeView> {
    match p {
        Some(p) => Some(p@),
        None => None,
    }
}

/// The new file that a path, its content and what the extractor found make:
/// none where the path has no extension, the extension names no format, or
/// the extractor found nothing.
pub open spec fn new_file_of(
    path: Seq<char>,
    hash: Seq<u8>,
    size: u64,
    probe: Option<ProbeView>,
) -> Option<NewFileDataView> {
    match path_extension(path) {
        None => None,
        Some(ext) => match format_of(ext) {
            None => None,
            Some(format) => match probe {
                None => None,
                Some(p) => Some(
                    NewFileDataView {
                        path,
                        hash,
                        size,
                        duration: p.duration,
                        format,
                        metadata: p.metadata,
                    },
                ),
            },
        },
    }
}

/// The view of an optional new file.
pub open spec fn opt_new_file(f: Option<NewFileData>) -> Option<NewFileDataView> {
    match f {
        Some(f) => Some(f@),
        None => None,
    }
}

/// The format of the file at `path`, if its extension names one.
fn format_of_path(path: &str) -> (r: Option<&'static str>)
    ensures
        r is Some <==> (path_extension(path@) matches Some(ext) && format_of(ext) is Some),
        r matches Some(f) ==> path_extension(path@) matches Some(ext) && format_of(ext) == Some(
            f@,
        ),
{
    match extension_of(path) {
        Some(ext) => extension_to_format(ext.as_str()),
        None => None,
    }
}

/// Describes a file as new to the catalog, from its path, its content hash
/// and size, and what the extractor found in it.
pub fn classify_as_new(path: String, hash: [u8; 32], size: u64, probe: Option<Probe>) -> (r:
    Option<NewFileData>)
    ensures
        opt_new_file(r) == new_file_of(path@, hash@, size, opt_probe(probe)),
{
    match format_of_path(path.as_str()) {
        None => None,
        Some(format) => match probe {
            None => None,
            Some(p) => Some(
                NewFileData {
                    path,
                    hash,
                    size,
                    duration: p.duration,
                    format: format.to_owned(),
                    metadata: p.metadata,
                },
            ),
        },
    }
}

/// How far the extraction of a file's tags has come.
#[derive(Debug)]
pub enum Extraction {
    /// Not tried yet.
    Pending,
    /// Tried; the extractor found nothing it could read.
    Failed,
    /// Tried, with this result.
    Done(Probe),
}

/// The view of [`Extraction`]: its strings and lists as sequences.
pub enum ExtractionView {
    Pending,
    Failed,
    Done(ProbeView),
}

impl View for Extraction {
    type V = ExtractionView;

    open spec fn view(&self) -> ExtractionView {
        match *self {
            Extraction::Pending => ExtractionView::Pending,
            Extraction::Failed => ExtractionView::Failed,
            Extraction::Done(p) => ExtractionView::Done(p@),
        }
    }
}

/// What a scan has learned of one file on disk: its path, content hash and
/// size; for each file of the catalog with the same content, in load order,
/// whether its path is gone from disk, once that was looked up; the
/// duration, once it was measured; and the state of the extraction.
#[derive(Debug)]
pub struct FileFacts {
    pub path: String,
    pub hash: [u8; 32],
    pub size: u64,
    pub vacated: Option<Vec<bool>>,
    pub duration: Option<u64>,
    pub extraction: Extraction,
}

/// The view of [`FileFacts`]: its strings and lists as sequences.
pub struct FileFactsView {
    pub path: Seq<char>,
    pub hash: Seq<u8>,
    pub size: u64,
    pub vacated: Option<Seq<bool>>,
    pub duration: Option<u64>,
    pub extraction: ExtractionView,
}

impl View for FileFacts {
    type V = FileFactsView;

    open spec fn view(&self) -> FileFactsView {
        FileFactsView {
            path: self.path@,
            hash: self.hash@,
            size: self.size,
            vacated: match self.vacated {
                Some(flags) => Some(flags@),
                None => None,
            },
            duration: self.duration,
            extraction: self.extraction@,
        }
    }
}

/// The next step for one file: its classification, the finding that it is
/// left out of the scan, or what has to be learned of it first.
#[derive(Debug)]
pub enum Verdict {
    /// The file is classified.
    Classified(FileClassification),
    /// The file takes no part in the scan.
    Dropped,
    /// Files with the same content are known at these paths: it has to be
    /// learned which of the paths are gone from disk.
    NeedVacancy { paths: Vec<String> },
    /// The duration of the file has to be measured.
    NeedDuration,
    /// The tags of the file have to be extracted.
    NeedExtraction,
}

/// The view of [`Verdict`]: its strings and lists as sequences.
pub enum VerdictView {
    Classified(FileClassificationView),
    Dropped,
    NeedVacancy { paths: Seq<Seq<char>> },
    NeedDuration,
    NeedExtraction,
}

impl View for Verdict {
    type V = VerdictView;

    open spec fn view(&self) -> VerdictView {
        match *self {
            Verdict::Classified(c) => VerdictView::Classified(c@),
            Verdict::Dropped => VerdictView::Dropped,
            Verdict::NeedVacancy { paths } => VerdictView::NeedVacancy { paths: views(paths@) },
            Verdict::NeedDuration => VerdictView::NeedDuration,
            Verdict::NeedExtraction => VerdictView::NeedExtraction,
        }
    }
}

/// The identifier that a moved file takes over: that of the first candidate
/// whose path is gone from disk.
pub open spec fn taken_over(candidates: Seq<FileEntryView>, vacated: Option<Seq<bool>>) -> Option<
    u128,
> {
    match vacated {
        None => None,
        Some(flags) => match first_index(flags, true) {
            Some(k) => if k < candidates.len() {
                Some(candidates[k].id)
            } else {
                None
            },
            None => None,
        },
    }
}

/// The verdict on a file that is neither known by its path nor takes over a
/// known file: it is new, if its extension names a format and the extractor
/// can read it.
pub open spec fn verdict_on_new(facts: FileFactsView) -> VerdictView {
    match path_extension(facts.path) {
        None => VerdictView::Dropped,
        Some(ext) => match format_of(ext) {
            None => VerdictView::Dropped,
            Some(format) => match facts.extraction {
                ExtractionView::Pending => VerdictView::NeedExtraction,
                ExtractionView::Failed => VerdictView::Dropped,
                ExtractionView::Done(p) => VerdictView::Classified(
                    FileClassificationView::New(
                        NewFileDataView {
                            path: facts.path,
                            hash: facts.hash,
                            size: facts.size,
                            duration: p.duration,
                            format,
                            metadata: p.metadata,
                        },
                    ),
                ),
            },
        },
    }
}

/// The verdict on a file, given the catalog:
/// a file at a known path is skipped where its content is the known one, and
/// modified otherwise; a file at an unknown path whose content is known has
/// moved where one of the known paths is gone from disk, and takes over the
/// first such file; every other file is new.
pub open spec fn verdict_of(facts: FileFactsView, existing: ExistingFilesView) -> VerdictView {
    match existing.at_path(facts.path) {
        Some(known) => if known.hash == facts.hash {
            VerdictView::Classified(FileClassificationView::Skipped { path: facts.path })
        } else {
            match facts.duration {
                Some(duration) => VerdictView::Classified(
                    FileClassificationView::Modified {
                        id: known.id,
                        path: facts.path,
                        hash: facts.hash,
                        size: facts.size,
                        duration,
                    },
                ),
                None => VerdictView::NeedDuration,
            }
        },
        None => {
            let candidates = existing.with_content(facts.hash);
            if candidates.len() > 0 && facts.vacated is None {
                VerdictView::NeedVacancy { paths: paths_of(candidates) }
            } else {
                match taken_over(candidates, facts.vacated) {
                    Some(id) => VerdictView::Classified(
                        FileClassificationView::Moved {
                            id,
                            path: facts.path,
                            hash: facts.hash,
                            size: facts.size,
                        },
                    ),
                    None => verdict_on_new(facts),
                }
            }
        },
    }
}

impl FileFacts {
    /// The first facts of a file: its path, and the hash and length of its
    /// content.
    pub fn observe(path: String, data: &[u8]) -> (r: FileFacts)
        ensures
            r@ == (FileFactsView {
                path: path@,
                hash: blake3_digest(data@),
                size: data@.len() as u64,
                vacated: None,
                duration: None,
                extraction: ExtractionView::Pending,
            }),
    {
        FileFacts {
            path,
            hash: blake3_hash(data),
            size: data.len() as u64,
            vacated: None,
            duration: None,
            extraction: Extraction::Pending,
        }
    }
}

/// The identifier of the first candidate whose path is gone from disk.
fn pick_vacated(candidates: &Vec<FileEntry>, vacated: &Option<Vec<bool>>) -> (r: Option<u128>)
    ensures
        r == taken_over(
            views(candidates@),
            match *vacated {
                Some(flags) => Some(flags@),
                None => None,
            },
        ),
{
    match vacated {
        None => None,
        Some(flags) => {
            let mut i: usize = 0;
            while i < flags.len() && i < candidates.len()
                invariant
                    i <= flags.len(),
                    i <= candidates.len(),
                    *vacated == Some(*flags),
                    index_from(flags@, true, 0) == index_from(flags@, true, i as int),
                decreases flags.len() - i,
            {
                if flags[i] {
                    return Some(candidates[i].id);
                }
                i += 1;
            }
            proof {
                crate::seqs::lemma_index_from(flags@, true, i as int);
            }
            None
        },
    }
}

/// The paths of a list of files.
fn paths_of_entries(entries: &Vec<FileEntry>) -> (r: Vec<String>)
    ensures
        views(r@) == paths_of(views(entries@)),
{
    let mut r: Vec<String> = Vec::new();
    let mut i: usize = 0;
    while i < entries.len()
        invariant
            i <= entries.len(),
            r@.len() == i,
            forall|k: int| 0 <= k < i ==> (#[trigger] r@[k])@ == entries@[k].path@,
        decreases entries.len() - i,
    {
        r.push(entries[i].path.clone());
        i += 1;
    }
    assert(views(r@) =~= paths_of(views(entries@)));
    r
}

/// Decides the next step for one file on disk.
pub fn classify_file(facts: &FileFacts, existing: &ExistingFiles) -> (r: Verdict)
    ensures
        r@ == verdict_of(facts@, existing@),
{
    match existing.lookup_path(facts.path.as_str()) {
        Some(known) => {
            proof {
                if known.1@ == facts.hash@ {
                    assert(known.1 =~= facts.hash);
                }
            }
            if hash_equal(&known.1, &facts.hash) {
                Verdict::Classified(FileClassification::Skipped { path: facts.path.clone() })
            } else {
                match facts.duration {
                    Some(duration) => Verdict::Classified(
                        FileClassification::Modified {
                            id: known.0,
                            path: facts.path.clone(),
                            hash: facts.hash,
                            size: facts.size,
                            duration,
                        },
                    ),
                    None => Verdict::NeedDuration,
                }
            }
        },
        None => {
            let candidates = existing.lookup_hash(&facts.hash);
            if candidates.len() > 0 && facts.vacated.is_none() {
                Verdict::NeedVacancy { paths: paths_of_entries(&candidates) }
            } else {
                match pick_vacated(&candidates, &facts.vacated) {
                    Some(id) => Verdict::Classified(
                        FileClassification::Moved {
                            id,
                            path: facts.path.clone(),
                            hash: facts.hash,
                            size: facts.size,
                        },
                    ),
                    None => match format_of_path(facts.path.as_str()) {
                        None => Verdict::Dropped,
                        Some(format) => match &facts.extraction {
                            Extraction::Pending => Verdict::NeedExtraction,
                            Extraction::Failed => Verdict::Dropped,
                            Extraction::Done(p) => Verdict::Classified(
                                FileClassification::New(
                                    NewFileData {
                                        path: facts.path.clone(),
                                        hash: facts.hash,
                                        size: facts.size,
                                        duration: p.duration,
                                        format: format.to_owned(),
                                        metadata: p.metadata.duplicate(),
                                    },
                                ),
                            ),
                        },
                    },
                }
            }
        },
    }
}

/// The classifications gathered by kind, each kind in the order of the list.
pub open spec fn aggregated(cs: Seq<FileClassificationView>) -> ScanResultsView
    decreases cs.len(),
{
    if cs.len() == 0 {
        ScanResultsView {
            skipped: Seq::empty(),
            moved: Seq::empty(),
            modified: Seq::empty(),
            new_files: Seq::empty(),
        }
    } else {
        let before = aggregated(cs.drop_last());
        match cs.last() {
            FileClassificationView::Skipped { path } => ScanResultsView {
                skipped: before.skipped.push(path),
                ..before
            },
            FileClassificationView::Moved { id, path, hash, size } => ScanResultsView {
                moved: before.moved.push(MovedEntryView { id, path, hash, size }),
                ..before
            },
            FileClassificationView::Modified {
                id,
                path,
                hash,
                size,
                duration,
            } => ScanResultsView {
                modified: before.modified.push(
                    ModifiedEntryView { id, path, hash, size, duration },
                ),
                ..before
            },
            FileClassificationView::New(data) => ScanResultsView {
                new_files: before.new_files.push(data),
                ..before
            },
        }
    }
}

/// Gathers classifications by kind.
pub fn aggregate(classifications: Vec<FileClassification>) -> (r: ScanResults)
    ensures
        r@ == aggregated(views(classifications@)),
{
    let mut skipped: Vec<String> = Vec::new();
    let mut moved: Vec<MovedEntry> = Vec::new();
    let mut modified: Vec<ModifiedEntry> = Vec::new();
    let mut new_files: Vec<NewFileData> = Vec::new();
    let ghost all = classifications@;
    let ghost done = aggregated(Seq::empty());
    proof {
        assert(views(all).take(0) =~= Seq::empty());
        assert(views(skipped@) =~= done.skipped);
        assert(views(moved@) =~= done.moved);
        assert(views(modified@) =~= done.modified);
        assert(views(new_files@) =~= done.new_files);
    }
    for c in it: classifications
        invariant
            it.seq() == all,
            done == aggregated(views(all).take(it.index() as int)),
            views(skipped@) == done.skipped,
            views(moved@) == done.moved,
            views(modified@) == done.modified,
            views(new_files@) == done.new_files,
    {
        proof {
            let i = it.index() as int;
            assert(views(all).take(i + 1).drop_last() =~= views(all).take(i));
            assert(views(all).take(i + 1).last() == c@);
            done = aggregated(views(all).take(i + 1));
        }
        match c {
            FileClassification::Skipped { path } => {
                let ghost before = skipped@;
                skipped.push(path);
                assert(views(skipped@) =~= views(before).push(path@));
            },
            FileClassification::Moved { id, path, hash, size } => {
                let ghost before = moved@;
                let entry = MovedEntry { id, path, hash, size };
                moved.push(entry);
                assert(views(moved@) =~= views(before).push(entry@));
            },
            FileClassification::Modified { id, path, hash, size, duration } => {
                let ghost before = modified@;
                let entry = ModifiedEntry { id, path, hash, size, duration };
                modified.push(entry);
                assert(views(modified@) =~= views(before).push(entry@));
            },
            FileClassification::New(data) => {
                let ghost before = new_files@;
                new_files.push(data);
                assert(views(new_files@) =~= views(before).push(data@));
            },
        }
    }
    assert(views(all).take(all.len() as int) =~= views(all));
    ScanResults { skipped, moved, modified, new_files }
}

/// The classifications of the files whose facts suffice to classify them,
/// in the order of the files.
pub open spec fn classified(facts: Seq<FileFactsView>, existing: ExistingFilesView) -> Seq<
    FileClassificationView,
>
    decreases facts.len(),
{
    if facts.len() == 0 {
        Seq::empty()
    } else {
        let before = classified(facts.drop_last(), existing);
        match verdict_of(facts.last(), existing) {
            VerdictView::Classified(c) => before.push(c),
            _ => before,
        }
    }
}

/// Classifies every file against the catalog and gathers the
/// classifications by kind. A file whose facts do not suffice yet, or that
/// takes no part in the scan, is left out.
pub fn classify_all(facts: &Vec<FileFacts>, existing: &ExistingFiles) -> (r: ScanResults)
    ensures
        r@ == aggregated(classified(views(facts@), existing@)),
{
    let mut classifications: Vec<FileClassification> = Vec::new();
    let mut i: usize = 0;
    assert(views(facts@).take(0) =~= Seq::empty());
    assert(views(classifications@) =~= Seq::empty());
    while i < facts.len()
        invariant
            i <= facts.len(),
            views(classifications@) == classified(views(facts@).take(i as int), existing@),
        decreases facts.len() - i,
    {
        proof {
            let all = views(facts@);
            assert(all.take(i + 1).drop_last() =~= all.take(i as int));
            assert(all.take(i + 1).last() == facts@[i as int]@);
        }
        match classify_file(&facts[i], existing) {
            Verdict::Classified(c) => {
                let ghost before = classifications@;
                classifications.push(c);
                assert(views(classifications@) =~= views(before).push(c@));
            },
            _ => {},
        }
        i += 1;
    }
    assert(views(facts@).take(facts.len() as int) =~= views(facts@));
    aggregate(classifications)
}

/// The identifiers of a list of moved files.
pub open spec fn moved_ids(moved: Seq<MovedEntryView>) -> Seq<u128> {
    moved.map_values(|m: MovedEntryView| m.id)
}

/// The paths of a list of moved files.
pub open spec fn moved_paths(moved: Seq<MovedEntryView>) -> Seq<Seq<char>> {
    moved.map_values(|m: MovedEntryView| m.path)
}

/// The identifiers of a list of modified files.
pub open spec fn modified_ids(modified: Seq<ModifiedEntryView>) -> Seq<u128> {
    modified.map_values(|m: ModifiedEntryView| m.id)
}

/// The paths of a list of modified files.
pub open spec fn modified_paths(modified: Seq<ModifiedEntryView>) -> Seq<Seq<char>> {
    modified.map_values(|m: ModifiedEntryView| m.path)
}

/// The paths of a list of new files.
pub open spec fn new_paths(new_files: Seq<NewFileDataView>) -> Seq<Seq<char>> {
    new_files.map_values(|f: NewFileDataView| f.path)
}

/// The modified files whose identifier is none of `ids`, in their order.
pub open spec fn unclaimed(modified: Seq<ModifiedEntryView>, ids: Seq<u128>) -> Seq<
    ModifiedEntryView,
>
    decreases modified.len(),
{
    if modified.len() == 0 {
        Seq::empty()
    } else {
        let before = unclaimed(modified.drop_last(), ids);
        if ids.contains(modified.last().id) {
            before
        } else {
            before.push(modified.last())
        }
    }
}

/// The modified files whose identifier is one of `ids`, in their order.
pub open spec fn claimed(modified: Seq<ModifiedEntryView>, ids: Seq<u128>) -> Seq<
    ModifiedEntryView,
>
    decreases modified.len(),
{
    if modified.len() == 0 {
        Seq::empty()
    } else {
        let before = claimed(modified.drop_last(), ids);
        if ids.contains(modified.last().id) {
            before.push(modified.last())
        } else {
            before
        }
    }
}

/// The moved files that stand: of the files that take over one known file,
/// the first in the list.
pub open spec fn first_moves(moved: Seq<MovedEntryView>) -> Seq<MovedEntryView>
    decreases moved.len(),
{
    if moved.len() == 0 {
        Seq::empty()
    } else {
        let before = first_moves(moved.drop_last());
        if moved_ids(before).contains(moved.last().id) {
            before
        } else {
            before.push(moved.last())
        }
    }
}

/// The moved files that do not stand: those that take over a known file
/// that an earlier file of the list has taken over already.
pub open spec fn later_moves(moved: Seq<MovedEntryView>) -> Seq<MovedEntryView>
    decreases moved.len(),
{
    if moved.len() == 0 {
        Seq::empty()
    } else {
        let before = later_moves(moved.drop_last());
        if moved_ids(first_moves(moved.drop_last())).contains(moved.last().id) {
            before.push(moved.last())
        } else {
            before
        }
    }
}

/// A file that left the results of a scan in a conflict, with what is known
/// of it: its path, and the content and size it was found with.
#[derive(Debug)]
pub struct Displaced {
    pub path: String,
    pub hash: [u8; 32],
    pub size: u64,
}

/// The view of [`Displaced`]: its strings and lists as sequences.
pub struct DisplacedView {
    pub path: Seq<char>,
    pub hash: Seq<u8>,
    pub size: u64,
}

impl View for Displaced {
    type V = DisplacedView;

    open spec fn view(&self) -> DisplacedView {
        DisplacedView { path: self.path@, hash: self.hash@, size: self.size }
    }
}

/// Modified files as files that left the results.
pub open spec fn displaced_changes(modified: Seq<ModifiedEntryView>) -> Seq<DisplacedView> {
    modified.map_values(
        |m: ModifiedEntryView| DisplacedView { path: m.path, hash: m.hash, size: m.size },
    )
}

/// Moved files as files that left the results.
pub open spec fn displaced_moves(moved: Seq<MovedEntryView>) -> Seq<DisplacedView> {
    moved.map_values(|m: MovedEntryView| DisplacedView { path: m.path, hash: m.hash, size: m.size })
}

/// The paths of the files that left the results.
pub open spec fn displaced_paths(entries: Seq<DisplacedView>) -> Seq<Seq<char>> {
    entries.map_values(|d: DisplacedView| d.path)
}

/// The results after the files that are claimed twice were settled. Of the
/// moved files that take over one known file, the first stands and the later
/// ones leave the results; a modified file that has the identifier of a
/// moved file leaves the results; everything else stays.
pub open spec fn resolved(results: ScanResultsView) -> ScanResultsView {
    ScanResultsView {
        moved: first_moves(results.moved),
        modified: unclaimed(results.modified, moved_ids(first_moves(results.moved))),
        ..results
    }
}

/// The files that leave the results as conflicts: the modified files that
/// have the identifier of a moved file, and after them the moved files that
/// take over a known file that an earlier moved file has taken over.
pub open spec fn conflicts(results: ScanResultsView) -> Seq<DisplacedView> {
    displaced_changes(claimed(results.modified, moved_ids(first_moves(results.moved))))
        + displaced_moves(later_moves(results.moved))
}

/// `set` holds exactly the identifiers of `ids`.
pub open spec fn holds_ids(set: Set<u128>, ids: Seq<u128>) -> bool {
    forall|id: u128| #[trigger] set.contains(id) <==> ids.contains(id)
}

/// The identifiers of the moved files, as a set.
fn moved_id_set(moved: &Vec<MovedEntry>) -> (r: HashSet<u128>)
    ensures
        holds_ids(r@, moved_ids(views(moved@))),
{
    let mut r: HashSet<u128> = HashSet::new();
    let mut i: usize = 0;
    let ghost ids = moved_ids(views(moved@));
    assert(ids.take(0) =~= Seq::empty());
    while i < moved.len()
        invariant
            i <= moved.len(),
            ids == moved_ids(views(moved@)),
            holds_ids(r@, ids.take(i as int)),
        decreases moved.len() - i,
    {
        let ghost before = r@;
        r.insert(moved[i].id);
        proof {
            assert(ids.take(i + 1) =~= ids.take(i as int).push(moved@[i as int].id));
            assert forall|id: u128| #[trigger] r@.contains(id) <==> ids.take(i + 1).contains(id) by {
                lemma_push_contains(ids.take(i as int), moved@[i as int].id, id);
                assert(before.contains(id) <==> ids.take(i as int).contains(id));
            }
        }
        i += 1;
    }
    assert(ids.take(moved.len() as int) =~= ids);
    r
}

/// Lets the first of the moved files that take over one known file stand,
/// and takes the later ones out of the results. Returns the files taken
/// out, and the identifiers of the files that stand.
fn settle_moves(results: &mut ScanResults) -> (r: (Vec<Displaced>, HashSet<u128>))
    ensures
        final(results)@ == (ScanResultsView {
            moved: first_moves(old(results)@.moved),
            ..old(results)@
        }),
        views(r.0@) == displaced_moves(later_moves(old(results)@.moved)),
        holds_ids(r.1@, moved_ids(first_moves(old(results)@.moved))),
{
    let mut taken: Vec<MovedEntry> = Vec::new();
    std::mem::swap(&mut results.moved, &mut taken);
    let mut later: Vec<Displaced> = Vec::new();
    let mut standing: HashSet<u128> = HashSet::new();
    let ghost all = taken@;
    proof {
        assert(views(all).take(0) =~= Seq::empty());
        assert(views(results.moved@) =~= Seq::empty());
        assert(views(later@) =~= displaced_moves(Seq::empty()));
    }
    for m in it: taken
        invariant
            it.seq() == all,
            views(all) == old(results)@.moved,
            results@.skipped == old(results)@.skipped,
            results@.modified == old(results)@.modified,
            results@.new_files == old(results)@.new_files,
            results@.moved == first_moves(views(all).take(it.index() as int)),
            views(later@) == displaced_moves(later_moves(views(all).take(it.index() as int))),
            holds_ids(standing@, moved_ids(results@.moved)),
    {
        proof {
            let i = it.index() as int;
            assert(views(all).take(i + 1).drop_last() =~= views(all).take(i));
            assert(views(all).take(i + 1).last() == m@);
        }
        let ghost ids_before = moved_ids(results@.moved);
        let ghost set_before = standing@;
        if standing.insert(m.id) {
            let ghost before = results.moved@;
            let ghost id = m.id;
            results.moved.push(m);
            proof {
                assert(views(results.moved@) =~= views(before).push(all[it.index() as int]@));
                assert(moved_ids(results@.moved) =~= ids_before.push(id));
                assert forall|x: u128| #[trigger]
                    standing@.contains(x) <==> moved_ids(results@.moved).contains(x) by {
                    lemma_push_contains(ids_before, id, x);
                    assert(set_before.contains(x) <==> ids_before.contains(x));
                }
            }
        } else {
            let ghost before = later@;
            let ghost gone = later_moves(views(all).take(it.index() as int));
            let entry = Displaced { path: m.path, hash: m.hash, size: m.size };
            later.push(entry);
            proof {
                assert(set_before.contains(m.id));
                assert(standing@ =~= set_before);
                assert(views(later@) =~= views(before).push(entry@));
                assert(displaced_moves(gone.push(m@)) =~= displaced_moves(gone).push(entry@));
            }
        }
    }
    assert(views(all).take(all.len() as int) =~= views(all));
    (later, standing)
}

/// Takes the modified files that have the identifier of a moved file out of
/// the results. `standing` holds the identifiers of the moved files.
fn settle_changes(results: &mut ScanResults, standing: &HashSet<u128>) -> (conflicting: Vec<
    Displaced,
>)
    requires
        holds_ids(standing@, moved_ids(old(results)@.moved)),
    ensures
        final(results)@ == (ScanResultsView {
            modified: unclaimed(old(results)@.modified, moved_ids(old(results)@.moved)),
            ..old(results)@
        }),
        views(conflicting@) == displaced_changes(
            claimed(old(results)@.modified, moved_ids(old(results)@.moved)),
        ),
{
    let mut taken: Vec<ModifiedEntry> = Vec::new();
    std::mem::swap(&mut results.modified, &mut taken);
    let mut conflicting: Vec<Displaced> = Vec::new();
    let ghost all = taken@;
    let ghost ids = moved_ids(old(results)@.moved);
    proof {
        assert(views(all).take(0) =~= Seq::empty());
        assert(views(results.modified@) =~= Seq::empty());
        assert(views(conflicting@) =~= displaced_changes(Seq::empty()));
    }
    for m in it: taken
        invariant
            it.seq() == all,
            views(all) == old(results)@.modified,
            ids == moved_ids(old(results)@.moved),
            holds_ids(standing@, ids),
            results@.skipped == old(results)@.skipped,
            results@.moved == old(results)@.moved,
            results@.new_files == old(results)@.new_files,
            results@.modified == unclaimed(views(all).take(it.index() as int), ids),
            views(conflicting@) == displaced_changes(
                claimed(views(all).take(it.index() as int), ids),
            ),
    {
        proof {
            let i = it.index() as int;
            assert(views(all).take(i + 1).drop_last() =~= views(all).take(i));
            assert(views(all).take(i + 1).last() == m@);
            assert(standing@.contains(m.id) <==> ids.contains(m.id));
        }
        if standing.contains(&m.id) {
            let ghost before = conflicting@;
            let ghost gone = claimed(views(all).take(it.index() as int), ids);
            let entry = Displaced { path: m.path, hash: m.hash, size: m.size };
            conflicting.push(entry);
            proof {
                assert(views(conflicting@) =~= views(before).push(entry@));
                assert(displaced_changes(gone.push(m@)) =~= displaced_changes(gone).push(entry@));
            }
        } else {
            let ghost before = results.modified@;
            results.modified.push(m);
            assert(views(results.modified@) =~= views(before).push(m@));
        }
    }
    assert(views(all).take(all.len() as int) =~= views(all));
    conflicting
}

/// Settles the files that are claimed twice. Where several moved files take
/// over one known file, the first stands. Where a modified file has the
/// identifier of a moved file, the move stands. Every file that does not
/// stand leaves the results and is handed back, to be described anew as a
/// new file: the modified files first, then the moved ones. Every other
/// entry stays as it is.
pub fn resolve_conflicts(results: &mut ScanResults) -> (conflicting: Vec<Displaced>)
    ensures
        final(results)@ == resolved(old(results)@),
        views(conflicting@) == conflicts(old(results)@),
{
    let (mut later, standing) = settle_moves(results);
    let mut conflicting = settle_changes(results, &standing);
    let ghost changes = conflicting@;
    let ghost moves = later@;
    conflicting.append(&mut later);
    assert(views(conflicting@) =~= views(changes) + views(moves));
    conflicting
}

/// Every path occurs once in the results: no list holds a path twice, and
/// no two lists share a path.
pub open spec fn each_path_once(results: ScanResultsView) -> bool {
    let skipped = results.skipped;
    let moved = moved_paths(results.moved);
    let modified = modified_paths(results.modified);
    let new = new_paths(results.new_files);
    &&& skipped.no_duplicates()
    &&& moved.no_duplicates()
    &&& modified.no_duplicates()
    &&& new.no_duplicates()
    &&& forall|p: Seq<char>| !(skipped.contains(p) && moved.contains(p))
    &&& forall|p: Seq<char>| !(skipped.contains(p) && modified.contains(p))
    &&& forall|p: Seq<char>| !(skipped.contains(p) && new.contains(p))
    &&& forall|p: Seq<char>| !(moved.contains(p) && modified.contains(p))
    &&& forall|p: Seq<char>| !(moved.contains(p) && new.contains(p))
    &&& forall|p: Seq<char>| !(modified.contains(p) && new.contains(p))
}

/// No known file is claimed twice: no two moved files take over the same
/// file, and no file is both moved and modified.
pub open spec fn no_file_claimed_twice(results: ScanResultsView) -> bool {
    &&& moved_ids(results.moved).no_duplicates()
    &&& forall|id: u128|
        !(moved_ids(results.moved).contains(id) && modified_ids(results.modified).contains(id))
}

/// The results after each of `entries` was described anew with what the
/// extractor found in it.
pub open spec fn readmit_all(
    results: ScanResultsView,
    entries: Seq<DisplacedView>,
    probes: Seq<Option<ProbeView>>,
) -> ScanResultsView
    decreases entries.len(),
{
    if entries.len() == 0 {
        results
    } else {
        readmitted(
            readmit_all(results, entries.drop_last(), probes),
            entries.last(),
            probes[entries.len() - 1],
        )
    }
}

/// The results after reconciliation: the conflicts are settled, and each
/// file that left as a conflict is described anew, the `k`-th with
/// `probes[k]`.
pub open spec fn reconciled(
    results: ScanResultsView,
    probes: Seq<Option<ProbeView>>,
) -> ScanResultsView {
    readmit_all(resolved(results), conflicts(results), probes)
}

/// The results after a file that left them as a conflict was described anew:
/// it joins the new files where it can be described as one, and is left out
/// otherwise.
pub open spec fn readmitted(
    results: ScanResultsView,
    entry: DisplacedView,
    probe: Option<ProbeView>,
) -> ScanResultsView {
    match new_file_of(entry.path, entry.hash, entry.size, probe) {
        Some(data) => ScanResultsView { new_files: results.new_files.push(data), ..results },
        None => results,
    }
}

/// Describes a file that `resolve_conflicts` handed back as a new file, from
/// what the extractor found in it, and adds it to the new files.
pub fn reclassify_as_new(results: &mut ScanResults, entry: Displaced, probe: Option<Probe>)
    ensures
        final(results)@ == readmitted(old(results)@, entry@, opt_probe(probe)),
{
    match classify_as_new(entry.path, entry.hash, entry.size, probe) {
        Some(data) => {
            let ghost before = results.new_files@;
            results.new_files.push(data);
            assert(views(results.new_files@) =~= views(before).push(data@));
        },
        None => {},
    }
}

/// Whether a scan met a file at `path`, under any classification.
pub open spec fn is_touched(results: ScanResultsView, path: Seq<char>) -> bool {
    results.skipped.contains(path) || moved_paths(results.moved).contains(path) || new_paths(
        results.new_files,
    ).contains(path) || modified_paths(results.modified).contains(path)
}

/// Whether a scan found the known file `entry` again: it met a file at the
/// path of `entry`, or it found `entry` moved to another path.
pub open spec fn is_found(results: ScanResultsView, entry: FileEntryView) -> bool {
    is_touched(results, entry.path) || moved_ids(results.moved).contains(entry.id)
}

/// The identifiers of the files of `entries` that the scan did not find
/// again, in the order of `entries`.
pub open spec fn missing_ids(entries: Seq<FileEntryView>, results: ScanResultsView) -> Seq<u128>
    decreases entries.len(),
{
    if entries.len() == 0 {
        Seq::empty()
    } else {
        let before = missing_ids(entries.drop_last(), results);
        if is_found(results, entries.last()) {
            before
        } else {
            before.push(entries.last().id)
        }
    }
}

/// The files that a scan found deleted: the files known by path that the
/// scan did not find again, neither at their path nor moved.
pub open spec fn deletions(results: ScanResultsView, existing: ExistingFilesView) -> Seq<u128> {
    missing_ids(existing.by_path, results)
}

/// Whether one of the moved files is at `path`.
fn has_moved_path(moved: &Vec<MovedEntry>, path: &String) -> (r: bool)
    ensures
        r == moved_paths(views(moved@)).contains(path@),
{
    let mut i: usize = 0;
    while i < moved.len()
        invariant
            i <= moved.len(),
            forall|k: int| 0 <= k < i ==> moved_paths(views(moved@))[k] != path@,
        decreases moved.len() - i,
    {
        if same_text(&moved[i].path, path) {
            assert(moved_paths(views(moved@))[i as int] == path@);
            return true;
        }
        i += 1;
    }
    false
}

/// Whether one of the modified files is at `path`.
fn has_modified_path(modified: &Vec<ModifiedEntry>, path: &String) -> (r: bool)
    ensures
        r == modified_paths(views(modified@)).contains(path@),
{
    let mut i: usize = 0;
    while i < modified.len()
        invariant
            i <= modified.len(),
            forall|k: int| 0 <= k < i ==> modified_paths(views(modified@))[k] != path@,
        decreases modified.len() - i,
    {
        if same_text(&modified[i].path, path) {
            assert(modified_paths(views(modified@))[i as int] == path@);
            return true;
        }
        i += 1;
    }
    false
}

/// Whether one of the new files is at `path`.
fn has_new_path(new_files: &Vec<NewFileData>, path: &String) -> (r: bool)
    ensures
        r == new_paths(views(new_files@)).contains(path@),
{
    let mut i: usize = 0;
    while i < new_files.len()
        invariant
            i <= new_files.len(),
            forall|k: int| 0 <= k < i ==> new_paths(views(new_files@))[k] != path@,
        decreases new_files.len() - i,
    {
        if same_text(&new_files[i].path, path) {
            assert(new_paths(views(new_files@))[i as int] == path@);
            return true;
        }
        i += 1;
    }
    false
}

/// Finds the files of the catalog that are gone from disk: those known by
/// path that the scan neither met at their path nor found moved.
pub fn detect_deletions(results: &ScanResults, existing: &ExistingFiles) -> (r: Vec<u128>)
    ensures
        r@ == deletions(results@, existing@),
{
    let entries = existing.path_entries();
    let moved = moved_id_set(&results.moved);
    let mut r: Vec<u128> = Vec::new();
    let mut i: usize = 0;
    assert(views(entries@).take(0) =~= Seq::empty());
    while i < entries.len()
        invariant
            i <= entries.len(),
            views(entries@) == existing@.by_path,
            holds_ids(moved@, moved_ids(results@.moved)),
            r@ == missing_ids(views(entries@).take(i as int), results@),
        decreases entries.len() - i,
    {
        let path = &entries[i].path;
        proof {
            let all = views(entries@);
            assert(all.take(i + 1).drop_last() =~= all.take(i as int));
            assert(all.take(i + 1).last() == entries@[i as int]@);
            assert(moved@.contains(entries@[i as int].id) <==> moved_ids(results@.moved).contains(
                entries@[i as int].id,
            ));
        }
        let found = contains_text(&results.skipped, path) || has_moved_path(&results.moved, path)
            || has_new_path(&results.new_files, path) || has_modified_path(
            &results.modified,
            path,
        ) || moved.contains(&entries[i].id);
        if !found {
            r.push(entries[i].id);
        }
        i += 1;
    }
    assert(views(entries@).take(entries.len() as int) =~= views(entries@));
    r
}

} // verus!
