use collectune::classify::{
    classify_all, classify_file, detect_deletions, reclassify_as_new, resolve_conflicts,
    Extraction, FileFacts, Probe, Verdict,
};
use collectune::existing::{load_existing_artists, load_existing_files, ArtistRow, FileRow};
use collectune::ids::IdSource;
use collectune::metadata::{assemble_tags_in_year, Tag, TagKey, TagValue};
use collectune::prepare::prepare_staging_data;
use collectune::types::StagingData;

struct DiskFile {
    path: &'static str,
    bytes: &'static [u8],
    tags: Option<Vec<(TagKey, &'static str)>>,
}

struct FileRecord {
    id: u128,
    path: String,
    hash: [u8; 32],
    deletion: Option<u128>,
}

struct TrackRecord {
    file: u128,
    title: String,
    album: Option<u128>,
}

struct Catalog {
    files: Vec<FileRecord>,
    tracks: Vec<TrackRecord>,
    albums: Vec<(u128, String, Option<u16>)>,
    artists: Vec<(u128, String)>,
    credits: Vec<(u128, u128, u64)>,
    deletions: Vec<u128>,
}

struct Counts {
    skipped: usize,
    moved: usize,
    modified: usize,
    new: usize,
    deleted: usize,
}

fn empty_catalog() -> Catalog {
    Catalog {
        files: Vec::new(),
        tracks: Vec::new(),
        albums: Vec::new(),
        artists: Vec::new(),
        credits: Vec::new(),
        deletions: Vec::new(),
    }
}

fn text_of(id: u128) -> String {
    uuid::Uuid::from_u128(id).to_string()
}

fn commit(catalog: &mut Catalog, staging: StagingData) {
    for a in staging.artists {
        catalog.artists.push((a.id, a.name));
    }
    for a in staging.albums {
        catalog.albums.push((a.id, a.title, a.year));
    }
    for f in staging.files {
        catalog.files.push(FileRecord { id: f.id, path: f.path, hash: f.hash, deletion: None });
    }
    for t in staging.tracks {
        catalog.tracks.push(TrackRecord { file: t.file, title: t.title, album: t.album });
    }
    for c in staging.credits {
        catalog.credits.push((c.track, c.artist, c.ord));
    }
    for m in staging.moved {
        for f in catalog.files.iter_mut().filter(|f| f.id == m.id) {
            f.path = m.new_path.clone();
        }
    }
    for m in staging.modified {
        for f in catalog.files.iter_mut().filter(|f| f.id == m.id) {
            f.hash = m.hash;
        }
    }
    for d in staging.deleted {
        if !catalog.deletions.contains(&d.deletion_id) {
            catalog.deletions.push(d.deletion_id);
        }
        for f in catalog.files.iter_mut().filter(|f| f.id == d.file_id) {
            f.deletion = Some(d.deletion_id);
        }
    }
}

fn probe(file: &DiskFile) -> Option<Probe> {
    let tags: Vec<Tag> = file
        .tags
        .as_ref()?
        .iter()
        .map(|(key, value)| Tag {
            std_key: Some(*key),
            value: TagValue::String(value.to_string()),
        })
        .collect();
    Some(Probe { metadata: assemble_tags_in_year(&tags, 2026), duration: 2 })
}

fn scan(catalog: &mut Catalog, disk: &[DiskFile], first_id: u128) -> Counts {
    let file_rows: Vec<FileRow> = catalog
        .files
        .iter()
        .filter(|f| f.deletion.is_none())
        .map(|f| FileRow { id: text_of(f.id), path: f.path.clone(), hash: f.hash.to_vec() })
        .collect();
    let artist_rows: Vec<ArtistRow> =
        catalog.artists.iter().map(|a| ArtistRow { id: text_of(a.0), name: a.1.clone() }).collect();
    let existing = load_existing_files(&file_rows);
    let artists = load_existing_artists(&artist_rows);

    let mut all_facts: Vec<FileFacts> = Vec::new();
    for file in disk {
        let mut facts = FileFacts::observe(file.path.to_string(), file.bytes);
        loop {
            match classify_file(&facts, &existing) {
                Verdict::Classified(_) | Verdict::Dropped => break,
                Verdict::NeedVacancy { paths } => {
                    facts.vacated = Some(
                        paths.iter().map(|p| !disk.iter().any(|d| d.path == p.as_str())).collect(),
                    );
                }
                Verdict::NeedDuration => facts.duration = Some(1),
                Verdict::NeedExtraction => {
                    facts.extraction = match probe(file) {
                        Some(probe) => Extraction::Done(probe),
                        None => Extraction::Failed,
                    }
                }
            }
        }
        all_facts.push(facts);
    }
    let mut results = classify_all(&all_facts, &existing);
    for entry in resolve_conflicts(&mut results) {
        let found = disk.iter().find(|d| d.path == entry.path.as_str()).and_then(probe);
        reclassify_as_new(&mut results, entry, found);
    }
    let deleted = detect_deletions(&results, &existing);
    let counts = Counts {
        skipped: results.skipped.len(),
        moved: results.moved.len(),
        modified: results.modified.len(),
        new: results.new_files.len(),
        deleted: deleted.len(),
    };
    let mut ids = IdSource::starting_with((first_id..first_id + 50).collect());
    let staging = prepare_staging_data(&results, &artists, deleted, &mut ids);
    commit(catalog, staging);
    counts
}

fn one() -> DiskFile {
    DiskFile {
        path: "A/01 - one.flac",
        bytes: b"one",
        tags: Some(vec![
            (TagKey::TrackTitle, "One"),
            (TagKey::Artist, "X"),
            (TagKey::Album, "A"),
            (TagKey::TrackNumber, "1"),
            (TagKey::Date, "2001"),
        ]),
    }
}

fn two() -> DiskFile {
    DiskFile {
        path: "A/02 - two.flac",
        bytes: b"two",
        tags: Some(vec![
            (TagKey::TrackTitle, "Two"),
            (TagKey::Artist, "X"),
            (TagKey::Album, "A"),
            (TagKey::TrackNumber, "2"),
        ]),
    }
}

fn ingested() -> Catalog {
    let mut catalog = empty_catalog();
    scan(&mut catalog, &[one(), two()], 100);
    catalog
}

fn live_paths(catalog: &Catalog) -> Vec<&str> {
    catalog.files.iter().filter(|f| f.deletion.is_none()).map(|f| f.path.as_str()).collect()
}

fn id_at(catalog: &Catalog, path: &str) -> u128 {
    catalog.files.iter().find(|f| f.deletion.is_none() && f.path == path).unwrap().id
}

fn row_counts(catalog: &Catalog) -> (usize, usize, usize, usize, usize) {
    (
        catalog.albums.len(),
        catalog.artists.len(),
        catalog.files.len(),
        catalog.tracks.len(),
        catalog.credits.len(),
    )
}

#[test]
fn fresh_ingest() {
    let mut catalog = empty_catalog();
    let c = scan(&mut catalog, &[one(), two()], 100);
    assert_eq!((c.skipped, c.moved, c.modified, c.new, c.deleted), (0, 0, 0, 2, 0));
    assert_eq!(catalog.artists, vec![(100, "X".to_string())]);
    assert_eq!(catalog.albums, vec![(101, "A".to_string(), Some(2001))]);
    assert_eq!(catalog.files.len(), 2);
    assert_eq!(live_paths(&catalog), vec!["A/01 - one.flac", "A/02 - two.flac"]);
    assert_eq!(catalog.files[0].hash, *blake3::hash(b"one").as_bytes());
    assert_eq!(catalog.tracks.len(), 2);
    assert_eq!(catalog.tracks[0].title, "One");
    assert_eq!(catalog.tracks[1].title, "Two");
    assert_eq!(catalog.tracks[0].file, catalog.files[0].id);
    assert_eq!(catalog.tracks[1].file, catalog.files[1].id);
    assert_eq!(catalog.tracks[0].album, Some(101));
    assert_eq!(catalog.tracks[1].album, Some(101));
    assert_eq!(catalog.credits, vec![(103, 100, 0), (105, 100, 0)]);
    assert!(catalog.deletions.is_empty());
}

#[test]
fn rescan_with_no_changes() {
    let mut catalog = ingested();
    let before = row_counts(&catalog);
    let c = scan(&mut catalog, &[one(), two()], 200);
    assert_eq!((c.skipped, c.moved, c.modified, c.new, c.deleted), (2, 0, 0, 0, 0));
    assert_eq!(row_counts(&catalog), before);
    assert!(catalog.deletions.is_empty());
    let c = scan(&mut catalog, &[two(), one()], 300);
    assert_eq!((c.skipped, c.moved, c.modified, c.new, c.deleted), (2, 0, 0, 0, 0));
    assert_eq!(row_counts(&catalog), before);
}

#[test]
fn move_keeps_the_file_and_its_album() {
    let mut catalog = ingested();
    let id = id_at(&catalog, "A/01 - one.flac");
    let moved = DiskFile { path: "A/disc 1/01 - one.flac", ..one() };
    let c = scan(&mut catalog, &[moved, two()], 200);
    assert_eq!((c.skipped, c.moved, c.modified, c.new, c.deleted), (1, 1, 0, 0, 0));
    assert_eq!(id_at(&catalog, "A/disc 1/01 - one.flac"), id);
    assert_eq!(live_paths(&catalog), vec!["A/disc 1/01 - one.flac", "A/02 - two.flac"]);
    assert_eq!(catalog.albums.len(), 1);
    assert_eq!(catalog.files.len(), 2);
    assert_eq!(catalog.tracks.len(), 2);
}

#[test]
fn modify_rewrites_the_file_only() {
    let mut catalog = ingested();
    let id = id_at(&catalog, "A/02 - two.flac");
    let remix = DiskFile {
        path: "A/02 - two.flac",
        bytes: b"two, again",
        tags: Some(vec![(TagKey::TrackTitle, "Two (remix)"), (TagKey::Artist, "X")]),
    };
    let c = scan(&mut catalog, &[one(), remix], 200);
    assert_eq!((c.skipped, c.moved, c.modified, c.new, c.deleted), (1, 0, 1, 0, 0));
    assert_eq!(id_at(&catalog, "A/02 - two.flac"), id);
    assert_eq!(catalog.files[1].hash, *blake3::hash(b"two, again").as_bytes());
    assert_eq!(catalog.tracks[1].title, "Two");
    assert_eq!(row_counts(&catalog), (1, 1, 2, 2, 2));
}

#[test]
fn delete_and_move_collision() {
    let mut catalog = ingested();
    let id = id_at(&catalog, "A/01 - one.flac");
    let copy = DiskFile { path: "B/copy.flac", ..one() };
    let c = scan(&mut catalog, &[copy, two()], 200);
    assert_eq!((c.skipped, c.moved, c.modified, c.new, c.deleted), (1, 1, 0, 0, 0));
    assert_eq!(id_at(&catalog, "B/copy.flac"), id);
    assert_eq!(catalog.files.len(), 2);
    assert!(catalog.files.iter().all(|f| f.deletion.is_none()));
}

#[test]
fn corrupt_file_is_left_out() {
    let mut catalog = empty_catalog();
    let corrupt = DiskFile { path: "X.mp3", bytes: b"\x00\x01", tags: None };
    let c = scan(&mut catalog, &[one(), corrupt, two()], 100);
    assert_eq!((c.skipped, c.moved, c.modified, c.new, c.deleted), (0, 0, 0, 2, 0));
    assert_eq!(live_paths(&catalog), vec!["A/01 - one.flac", "A/02 - two.flac"]);
    let corrupt = DiskFile { path: "X.mp3", bytes: b"\x00\x01", tags: None };
    let c = scan(&mut catalog, &[one(), corrupt, two()], 200);
    assert_eq!((c.skipped, c.moved, c.modified, c.new, c.deleted), (2, 0, 0, 0, 0));
}

#[test]
fn deleted_file_is_marked_and_not_matched_again() {
    let mut catalog = ingested();
    let c = scan(&mut catalog, &[two()], 200);
    assert_eq!((c.skipped, c.moved, c.modified, c.new, c.deleted), (1, 0, 0, 0, 1));
    assert_eq!(live_paths(&catalog), vec!["A/02 - two.flac"]);
    assert_eq!(catalog.deletions.len(), 1);
    assert_eq!(catalog.files[0].deletion, Some(catalog.deletions[0]));
    let old = catalog.files[0].id;
    let c = scan(&mut catalog, &[one(), two()], 300);
    assert_eq!((c.skipped, c.moved, c.modified, c.new, c.deleted), (1, 0, 0, 1, 0));
    assert_ne!(id_at(&catalog, "A/01 - one.flac"), old);
    assert_eq!(catalog.files.len(), 3);
}

#[test]
fn same_content_at_two_paths_is_two_files() {
    let mut catalog = ingested();
    let copy = DiskFile { path: "B/copy.flac", ..one() };
    let c = scan(&mut catalog, &[one(), two(), copy], 200);
    assert_eq!((c.skipped, c.moved, c.modified, c.new, c.deleted), (2, 0, 0, 1, 0));
    assert_eq!(catalog.files.len(), 3);
    assert_eq!(catalog.tracks.len(), 3);
    assert_eq!(catalog.albums.len(), 2);
    assert_eq!(catalog.artists.len(), 1);
    assert_ne!(id_at(&catalog, "B/copy.flac"), id_at(&catalog, "A/01 - one.flac"));
}

#[test]
fn live_paths_stay_unique_through_scans() {
    let mut catalog = ingested();
    let moved = DiskFile { path: "A/disc 1/01 - one.flac", ..one() };
    let copy = DiskFile { path: "B/copy.flac", ..two() };
    scan(&mut catalog, &[moved, two(), copy], 200);
    let back = DiskFile { path: "A/01 - one.flac", bytes: b"other", ..one() };
    scan(&mut catalog, &[back, two()], 300);
    let mut paths = live_paths(&catalog);
    let n = paths.len();
    paths.sort();
    paths.dedup();
    assert_eq!(paths.len(), n);
}

#[test]
fn two_copies_of_a_vanished_file_are_one_move_and_one_new_file() {
    let mut catalog = ingested();
    let id = id_at(&catalog, "A/01 - one.flac");
    let first = DiskFile { path: "B/copy.flac", ..one() };
    let second = DiskFile { path: "C/copy.flac", ..one() };
    let c = scan(&mut catalog, &[first, two(), second], 200);
    assert_eq!((c.skipped, c.moved, c.modified, c.new, c.deleted), (1, 1, 0, 1, 0));
    assert_eq!(id_at(&catalog, "B/copy.flac"), id);
    assert_ne!(id_at(&catalog, "C/copy.flac"), id);
    assert_eq!(live_paths(&catalog), vec!["B/copy.flac", "A/02 - two.flac", "C/copy.flac"]);
    assert_eq!(catalog.files.len(), 3);
    assert_eq!(catalog.tracks.len(), 3);
    assert_eq!(catalog.tracks[2].title, "One");

    let first = DiskFile { path: "B/copy.flac", ..one() };
    let second = DiskFile { path: "C/copy.flac", ..one() };
    let c = scan(&mut catalog, &[first, two(), second], 300);
    assert_eq!((c.skipped, c.moved, c.modified, c.new, c.deleted), (3, 0, 0, 0, 0));
}
