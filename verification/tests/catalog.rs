use collectune::existing::{
    load_existing_artists, load_existing_files, ArtistRow, ExistingArtists, ExistingFiles, FileRow,
};

fn file_row(id: &str, path: &str, hash: Vec<u8>) -> FileRow {
    FileRow { id: id.to_string(), path: path.to_string(), hash }
}

fn artist_row(id: &str, name: &str) -> ArtistRow {
    ArtistRow { id: id.to_string(), name: name.to_string() }
}

#[test]
fn files_load_by_path_and_by_hash() {
    let rows = vec![
        file_row("550e8400-e29b-41d4-a716-446655440000", "A/one.flac", vec![1u8; 32]),
        file_row("00000000-0000-0000-0000-000000000002", "A/two.flac", vec![2u8; 32]),
    ];
    let files = load_existing_files(&rows);
    assert_eq!(
        files.lookup_path("A/one.flac"),
        Some((0x550e8400_e29b_41d4_a716_446655440000u128, [1u8; 32]))
    );
    assert_eq!(files.lookup_path("A/two.flac"), Some((2u128, [2u8; 32])));
    assert_eq!(files.lookup_path("A/three.flac"), None);
    assert_eq!(files.lookup_path("a/one.flac"), None);
    let by_hash = files.lookup_hash(&[1u8; 32]);
    assert_eq!(by_hash.len(), 1);
    assert_eq!(by_hash[0].id, 0x550e8400_e29b_41d4_a716_446655440000u128);
    assert_eq!(by_hash[0].path, "A/one.flac");
    assert_eq!(by_hash[0].hash, [1u8; 32]);
    assert!(files.lookup_hash(&[3u8; 32]).is_empty());
    assert_eq!(files.path_entries().len(), 2);
}

#[test]
fn identifiers_are_read_in_every_text_form() {
    let rows = vec![
        file_row("550e8400e29b41d4a716446655440000", "simple", vec![0u8; 32]),
        file_row("urn:uuid:550e8400-e29b-41d4-a716-446655440001", "urn", vec![0u8; 32]),
        file_row("{550e8400-e29b-41d4-a716-446655440002}", "braced", vec![0u8; 32]),
        file_row("550E8400-E29B-41D4-A716-446655440003", "upper", vec![0u8; 32]),
    ];
    let files = load_existing_files(&rows);
    assert_eq!(files.lookup_path("simple").map(|f| f.0), Some(0x550e8400e29b41d4a716446655440000));
    assert_eq!(files.lookup_path("urn").map(|f| f.0), Some(0x550e8400e29b41d4a716446655440001));
    assert_eq!(files.lookup_path("braced").map(|f| f.0), Some(0x550e8400e29b41d4a716446655440002));
    assert_eq!(files.lookup_path("upper").map(|f| f.0), Some(0x550e8400e29b41d4a716446655440003));
}

#[test]
fn corrupt_file_rows_are_passed_over() {
    let rows = vec![
        file_row("not-a-uuid", "bad-id", vec![1u8; 32]),
        file_row("", "no-id", vec![1u8; 32]),
        file_row("550e8400-e29b-41d4-a716-44665544000", "short-id", vec![1u8; 32]),
        file_row("00000000-0000-0000-0000-000000000001", "short-hash", vec![1u8; 31]),
        file_row("00000000-0000-0000-0000-000000000002", "long-hash", vec![1u8; 33]),
        file_row("00000000-0000-0000-0000-000000000003", "no-hash", Vec::new()),
        file_row("00000000-0000-0000-0000-000000000004", "good", vec![1u8; 32]),
    ];
    let files = load_existing_files(&rows);
    for path in ["bad-id", "no-id", "short-id", "short-hash", "long-hash", "no-hash"] {
        assert_eq!(files.lookup_path(path), None);
    }
    assert_eq!(files.lookup_path("good"), Some((4u128, [1u8; 32])));
    let by_hash = files.lookup_hash(&[1u8; 32]);
    assert_eq!(by_hash.len(), 1);
    assert_eq!(by_hash[0].path, "good");
}

#[test]
fn no_rows_load_nothing() {
    let files = load_existing_files(&Vec::new());
    assert!(files.path_entries().is_empty());
    assert_eq!(files.lookup_path(""), None);
    assert!(files.lookup_hash(&[0u8; 32]).is_empty());
    let artists = load_existing_artists(&Vec::new());
    assert_eq!(artists.get("X"), None);
}

#[test]
fn same_content_is_kept_in_load_order() {
    let rows = vec![
        file_row("00000000-0000-0000-0000-000000000001", "b", vec![7u8; 32]),
        file_row("00000000-0000-0000-0000-000000000002", "other", vec![8u8; 32]),
        file_row("00000000-0000-0000-0000-000000000003", "a", vec![7u8; 32]),
    ];
    let files = load_existing_files(&rows);
    let by_hash = files.lookup_hash(&[7u8; 32]);
    let found: Vec<(u128, &str)> = by_hash.iter().map(|e| (e.id, e.path.as_str())).collect();
    assert_eq!(found, vec![(1, "b"), (3, "a")]);
}

#[test]
fn a_later_row_takes_the_path_of_an_earlier_one() {
    let rows = vec![
        file_row("00000000-0000-0000-0000-000000000001", "p", vec![1u8; 32]),
        file_row("00000000-0000-0000-0000-000000000002", "q", vec![2u8; 32]),
        file_row("00000000-0000-0000-0000-000000000003", "p", vec![3u8; 32]),
    ];
    let files = load_existing_files(&rows);
    assert_eq!(files.lookup_path("p"), Some((3u128, [3u8; 32])));
    assert_eq!(files.path_entries().len(), 2);
    assert_eq!(files.path_entries()[0].path, "p");
    assert_eq!(files.path_entries()[1].path, "q");
    assert_eq!(files.lookup_hash(&[1u8; 32]).len(), 1);
    assert_eq!(files.lookup_hash(&[3u8; 32]).len(), 1);
}

#[test]
fn files_insert_one_by_one() {
    let mut files = ExistingFiles::new();
    files.insert(9, "x".to_string(), [4u8; 32]);
    files.insert(10, "y".to_string(), [4u8; 32]);
    assert_eq!(files.lookup_path("x"), Some((9u128, [4u8; 32])));
    assert_eq!(files.lookup_path("y"), Some((10u128, [4u8; 32])));
    assert_eq!(files.lookup_hash(&[4u8; 32]).len(), 2);
}

#[test]
fn artists_load_by_name() {
    let rows = vec![
        artist_row("00000000-0000-0000-0000-00000000000a", "X"),
        artist_row("nonsense", "Bad"),
        artist_row("00000000-0000-0000-0000-00000000000b", "Y"),
        artist_row("00000000-0000-0000-0000-00000000000c", "X"),
    ];
    let artists = load_existing_artists(&rows);
    assert_eq!(artists.get("X"), Some(0xc));
    assert_eq!(artists.get("Y"), Some(0xb));
    assert_eq!(artists.get("Bad"), None);
    assert_eq!(artists.get("x"), None);
}

#[test]
fn artists_insert_and_copy() {
    let mut artists = ExistingArtists::new();
    assert_eq!(artists.get("X"), None);
    artists.insert("X".to_string(), 1);
    artists.insert("Y".to_string(), 2);
    artists.insert("X".to_string(), 3);
    let copy = artists.duplicate();
    artists.insert("Z".to_string(), 4);
    assert_eq!(artists.get("X"), Some(3));
    assert_eq!(artists.get("Z"), Some(4));
    assert_eq!(copy.get("X"), Some(3));
    assert_eq!(copy.get("Y"), Some(2));
    assert_eq!(copy.get("Z"), None);
}
