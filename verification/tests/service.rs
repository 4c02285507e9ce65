use collectune::collection::get_collection_path;
use collectune::db::{pending_migrations, DB_FILE_NAME};
use collectune::server::{reply_to, ChunkBuffer, Preparation, ReplyBody, QUERY_CHANNEL_CAPACITY};

#[test]
fn ready_query_is_streamed() {
    let r = reply_to(Preparation::Ready);
    assert_eq!(r.status, 200);
    assert_eq!(r.content_type, "application/vnd.apache.arrow.stream");
    assert!(matches!(r.body, ReplyBody::Stream));
}

#[test]
fn refused_query_is_a_bad_request_with_the_message() {
    let r = reply_to(Preparation::Rejected("Parser Error: syntax error".to_string()));
    assert_eq!(r.status, 400);
    assert_eq!(r.content_type, "text/plain");
    match r.body {
        ReplyBody::Text(t) => assert_eq!(t, "Parser Error: syntax error"),
        ReplyBody::Stream => panic!("stream"),
    }
}

#[test]
fn lost_worker_is_a_server_error() {
    let r = reply_to(Preparation::Lost);
    assert_eq!(r.status, 500);
    assert_eq!(r.content_type, "text/plain");
    match r.body {
        ReplyBody::Text(t) => assert_eq!(t, "query task panicked"),
        ReplyBody::Stream => panic!("stream"),
    }
}

#[test]
fn channel_holds_eight_chunks() {
    assert_eq!(QUERY_CHANNEL_CAPACITY, 8);
}

#[test]
fn writes_gather_until_a_chunk_is_taken() {
    let mut b = ChunkBuffer::new();
    assert_eq!(b.take_chunk(), None);
    assert_eq!(b.write(b"abc"), 3);
    assert_eq!(b.write(b""), 0);
    assert_eq!(b.write(b"de"), 2);
    assert_eq!(b.take_chunk(), Some(b"abcde".to_vec()));
    assert_eq!(b.take_chunk(), None);
    assert_eq!(b.write(b"f"), 1);
    assert_eq!(b.take_chunk(), Some(b"f".to_vec()));
    assert_eq!(b.write(b""), 0);
    assert_eq!(b.take_chunk(), None);
}

#[test]
fn pending_migrations_are_the_later_versions() {
    assert_eq!(pending_migrations(&vec![1, 2, 3, 5], 2), vec![3, 5]);
    assert_eq!(pending_migrations(&vec![1], 0), vec![1]);
    assert_eq!(pending_migrations(&vec![1], 1), Vec::<u32>::new());
    assert_eq!(pending_migrations(&vec![1, 2], u32::MAX), Vec::<u32>::new());
    assert_eq!(pending_migrations(&Vec::new(), 0), Vec::<u32>::new());
    assert_eq!(pending_migrations(&vec![3, 1, 2], 1), vec![3, 2]);
}

#[test]
fn catalog_file_has_its_name() {
    assert_eq!(DB_FILE_NAME, "collectune.db");
}

#[test]
fn collection_path_must_exist_and_be_a_directory() {
    assert_eq!(get_collection_path("/music", true, true), Ok("/music"));
    assert_eq!(
        get_collection_path("/nowhere", false, false),
        Err("The path '/nowhere' does not exist.".to_string())
    );
    assert_eq!(
        get_collection_path("/nowhere", false, true),
        Err("The path '/nowhere' does not exist.".to_string())
    );
    assert_eq!(
        get_collection_path("/music/a.flac", true, false),
        Err("The path '/music/a.flac' is not a directory.".to_string())
    );
    assert_eq!(
        get_collection_path("", false, false),
        Err("The path '' does not exist.".to_string())
    );
}
