use collectune::existing::ExistingArtists;
use collectune::ids::IdSource;
use collectune::prepare::{collect_albums, collect_artists, collect_changes, prepare_staging_data};
use collectune::types::{
    ModifiedEntry, MovedEntry, NewFileData, ScanResults, TrackArtistMetadata, TrackMetadata,
};

fn artist(name: &str) -> TrackArtistMetadata {
    TrackArtistMetadata { artist: name.to_string(), role: None }
}

fn new_file(path: &str, album: &str, year: Option<u16>, artists: &[&str]) -> NewFileData {
    NewFileData {
        path: path.to_string(),
        hash: [path.len() as u8; 32],
        size: 1000 + path.len() as u64,
        duration: 42,
        format: "flac".to_string(),
        metadata: TrackMetadata {
            title: format!("title of {}", path),
            track_number: Some(1),
            disc_number: None,
            genre: "Jazz".to_string(),
            album: album.to_string(),
            year,
            artists: artists.iter().map(|a| artist(a)).collect(),
        },
    }
}

fn results(new_files: Vec<NewFileData>) -> ScanResults {
    ScanResults { skipped: Vec::new(), moved: Vec::new(), modified: Vec::new(), new_files }
}

fn ids_from(first: u128) -> IdSource {
    IdSource::starting_with((first..first + 100).collect())
}

#[test]
fn artists_are_interned_once_in_order_of_first_mention() {
    let mut known = ExistingArtists::new();
    known.insert("Known".to_string(), 900);
    let r = results(vec![
        new_file("a", "", None, &["B", "Known", "A"]),
        new_file("b", "", None, &["A", "C", "B"]),
        new_file("c", "", None, &[]),
        new_file("d", "", None, &["C", "Known", "D"]),
    ]);
    let mut ids = ids_from(1);
    let (all, records) = collect_artists(&r, &known, &mut ids);
    let staged: Vec<(u128, &str)> = records.iter().map(|a| (a.id, a.name.as_str())).collect();
    assert_eq!(staged, vec![(1, "B"), (2, "A"), (3, "C"), (4, "D")]);
    assert_eq!(all.get("Known"), Some(900));
    assert_eq!(all.get("B"), Some(1));
    assert_eq!(all.get("A"), Some(2));
    assert_eq!(all.get("C"), Some(3));
    assert_eq!(all.get("D"), Some(4));
    assert_eq!(all.get("E"), None);
    assert_eq!(known.get("B"), None);
    assert_eq!(ids.next_id(), 5);
}

#[test]
fn albums_are_grouped_by_title_and_directory() {
    let r = results(vec![
        new_file("A/disc 1/01.flac", "A", Some(2001), &[]),
        new_file("A/disc 2/01.flac", "A", Some(2002), &[]),
        new_file("B/01.flac", "A", None, &[]),
        new_file("A/02.flac", "Other", Some(1999), &[]),
        new_file("A/03.flac", "A", Some(1990), &[]),
        new_file("B/02.flac", "A", Some(2010), &[]),
    ]);
    let mut ids = ids_from(10);
    let (slots, albums) = collect_albums(&r, &mut ids);
    let staged: Vec<(u128, &str, Option<u16>)> =
        albums.iter().map(|a| (a.id, a.title.as_str(), a.year)).collect();
    assert_eq!(staged, vec![(10, "A", Some(2001)), (11, "A", None), (12, "Other", Some(1999))]);
    let keys: Vec<(&str, &str, u128)> =
        slots.iter().map(|s| (s.title.as_str(), s.directory.as_str(), s.id)).collect();
    assert_eq!(keys, vec![("A", "A", 10), ("A", "B", 11), ("Other", "A", 12)]);
    assert_eq!(ids.next_id(), 13);
}

#[test]
fn files_without_album_directory_share_the_empty_path() {
    let r = results(vec![
        new_file("", "A", Some(2001), &[]),
        new_file("x.flac", "A", Some(2002), &[]),
        new_file("cd1/z.flac", "A", None, &[]),
    ]);
    let mut ids = ids_from(1);
    let (slots, albums) = collect_albums(&r, &mut ids);
    assert_eq!(albums.len(), 1);
    assert_eq!(albums[0].year, Some(2001));
    assert_eq!(slots[0].directory, "");
}

#[test]
fn root_and_disc_folder_make_one_album() {
    let r = results(vec![
        new_file("./01.flac", "A", Some(2001), &[]),
        new_file("./Disc 2/01.flac", "A", Some(2002), &[]),
        new_file("/01.flac", "A", Some(2003), &[]),
        new_file("/cd 2/01.flac", "A", None, &[]),
    ]);
    let mut ids = ids_from(1);
    let (slots, albums) = collect_albums(&r, &mut ids);
    let keys: Vec<(&str, &str, Option<u16>)> = slots
        .iter()
        .zip(albums.iter())
        .map(|(s, a)| (s.title.as_str(), s.directory.as_str(), a.year))
        .collect();
    assert_eq!(keys, vec![("A", ".", Some(2001)), ("A", "/", Some(2003))]);
}

#[test]
fn changes_are_carried_over_one_for_one() {
    let r = ScanResults {
        skipped: vec!["s".to_string()],
        moved: vec![
            MovedEntry { id: 1, path: "new/one".to_string(), hash: [0u8; 32], size: 0 },
            MovedEntry { id: 2, path: "new/two".to_string(), hash: [0u8; 32], size: 0 },
        ],
        modified: vec![ModifiedEntry {
            id: 3,
            path: "three".to_string(),
            hash: [3u8; 32],
            size: 33,
            duration: 333,
        }],
        new_files: Vec::new(),
    };
    let mut ids = ids_from(70);
    let (moved, modified, deleted) = collect_changes(&r, vec![8, 9, 8], &mut ids);
    let m: Vec<(u128, &str)> = moved.iter().map(|m| (m.id, m.new_path.as_str())).collect();
    assert_eq!(m, vec![(1, "new/one"), (2, "new/two")]);
    assert_eq!(modified.len(), 1);
    assert_eq!(modified[0].id, 3);
    assert_eq!(modified[0].hash, [3u8; 32]);
    assert_eq!(modified[0].size, 33);
    assert_eq!(modified[0].duration, 333);
    let d: Vec<(u128, u128)> = deleted.iter().map(|d| (d.file_id, d.deletion_id)).collect();
    assert_eq!(d, vec![(8, 70), (9, 70), (8, 70)]);
    assert_eq!(ids.next_id(), 71);
}

#[test]
fn staging_of_new_files() {
    let mut known = ExistingArtists::new();
    known.insert("Known".to_string(), 900);
    let mut second = new_file("A/disc 2/02.flac", "A", Some(2002), &["Y", "Known", "X"]);
    second.metadata.artists[0].role = Some("composer".to_string());
    second.metadata.disc_number = Some(2);
    let r = results(vec![new_file("A/01.flac", "A", Some(2001), &["X"]), second]);
    let mut ids = ids_from(1);
    let s = prepare_staging_data(&r, &known, vec![500], &mut ids);

    let artists: Vec<(u128, &str)> = s.artists.iter().map(|a| (a.id, a.name.as_str())).collect();
    assert_eq!(artists, vec![(1, "X"), (2, "Y")]);
    let albums: Vec<(u128, &str, Option<u16>)> =
        s.albums.iter().map(|a| (a.id, a.title.as_str(), a.year)).collect();
    assert_eq!(albums, vec![(3, "A", Some(2001))]);

    assert_eq!(s.files.len(), 2);
    assert_eq!(s.files[0].id, 4);
    assert_eq!(s.files[0].path, "A/01.flac");
    assert_eq!(s.files[0].hash, [9u8; 32]);
    assert_eq!(s.files[0].size, 1009);
    assert_eq!(s.files[0].format, "flac");
    assert_eq!(s.files[0].duration, 42);
    assert_eq!(s.files[1].id, 6);
    assert_eq!(s.files[1].path, "A/disc 2/02.flac");

    assert_eq!(s.tracks.len(), 2);
    assert_eq!(s.tracks[0].id, 5);
    assert_eq!(s.tracks[0].file, 4);
    assert_eq!(s.tracks[0].title, "title of A/01.flac");
    assert_eq!(s.tracks[0].album, Some(3));
    assert_eq!(s.tracks[0].disc_number, None);
    assert_eq!(s.tracks[0].track_number, Some(1));
    assert_eq!(s.tracks[0].genre, "Jazz");
    assert_eq!(s.tracks[1].id, 7);
    assert_eq!(s.tracks[1].file, 6);
    assert_eq!(s.tracks[1].album, Some(3));
    assert_eq!(s.tracks[1].disc_number, Some(2));

    let credits: Vec<(u128, u128, u64, Option<&str>)> =
        s.credits.iter().map(|c| (c.track, c.artist, c.ord, c.role.as_deref())).collect();
    assert_eq!(
        credits,
        vec![(5, 1, 0, None), (7, 2, 0, Some("composer")), (7, 900, 1, None), (7, 1, 2, None)]
    );

    assert!(s.moved.is_empty());
    assert!(s.modified.is_empty());
    assert_eq!(s.deleted.len(), 1);
    assert_eq!((s.deleted[0].file_id, s.deleted[0].deletion_id), (500, 8));
    assert_eq!(ids.next_id(), 9);
}

#[test]
fn staging_of_nothing_draws_the_deletion_only() {
    let mut ids = ids_from(1);
    let s =
        prepare_staging_data(&results(Vec::new()), &ExistingArtists::new(), Vec::new(), &mut ids);
    assert!(s.artists.is_empty());
    assert!(s.albums.is_empty());
    assert!(s.files.is_empty());
    assert!(s.tracks.is_empty());
    assert!(s.credits.is_empty());
    assert!(s.moved.is_empty());
    assert!(s.modified.is_empty());
    assert!(s.deleted.is_empty());
    assert_eq!(ids.next_id(), 2);
}

#[test]
fn staging_with_random_identifiers_is_consistent() {
    let r = results(vec![
        new_file("A/01.flac", "A", Some(2001), &["X", "Y"]),
        new_file("A/02.flac", "A", None, &["Y"]),
        new_file("B/01.flac", "B", None, &["Z"]),
    ]);
    let mut ids = IdSource::random();
    let s = prepare_staging_data(&r, &ExistingArtists::new(), vec![1, 2], &mut ids);
    assert_eq!(s.artists.len(), 3);
    assert_eq!(s.albums.len(), 2);
    assert_eq!(s.files.len(), 3);
    assert_eq!(s.tracks.len(), 3);
    assert_eq!(s.credits.len(), 4);
    for i in 0..3 {
        assert_eq!(s.tracks[i].file, s.files[i].id);
    }
    assert_eq!(s.tracks[0].album, Some(s.albums[0].id));
    assert_eq!(s.tracks[1].album, Some(s.albums[0].id));
    assert_eq!(s.tracks[2].album, Some(s.albums[1].id));
    assert_eq!(s.credits[0].artist, s.artists[0].id);
    assert_eq!(s.credits[1].artist, s.artists[1].id);
    assert_eq!(s.credits[2].artist, s.artists[1].id);
    assert_eq!(s.credits[3].artist, s.artists[2].id);
    assert_eq!(s.deleted[0].deletion_id, s.deleted[1].deletion_id);
    let mut all: Vec<u128> = Vec::new();
    all.extend(s.artists.iter().map(|a| a.id));
    all.extend(s.albums.iter().map(|a| a.id));
    all.extend(s.files.iter().map(|f| f.id));
    all.extend(s.tracks.iter().map(|t| t.id));
    all.push(s.deleted[0].deletion_id);
    let n = all.len();
    all.sort();
    all.dedup();
    assert_eq!(all.len(), n);
    for id in all {
        assert_eq!(uuid::Uuid::from_u128(id).get_version_num(), 4);
    }
}

#[test]
fn identifiers_come_in_the_given_order_then_at_random() {
    let mut ids = IdSource::starting_with(vec![7, 7, 9]);
    assert_eq!(ids.next_id(), 7);
    assert_eq!(ids.next_id(), 7);
    assert_eq!(ids.next_id(), 9);
    let a = ids.next_id();
    let b = ids.next_id();
    assert_ne!(a, b);
    assert_eq!(uuid::Uuid::from_u128(a).get_version_num(), 4);
    assert_eq!(uuid::Uuid::from_u128(b).get_variant(), uuid::Variant::RFC4122);
    let mut random = IdSource::random();
    assert_ne!(random.next_id(), random.next_id());
}
