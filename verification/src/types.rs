//! The data that flows through a scan, each type with its mathematical view.

use vstd::prelude::*;

verus! {

/// One artist named by a track's tags.
#[derive(Debug)]
pub struct TrackArtistMetadata {
    pub artist: String,
    pub role: Option<String>,
}

/// The view of [`TrackArtistMetadata`]: its strings as sequences.
pub struct TrackArtistView {
    pub artist: Seq<char>,
    pub role: Option<Seq<char>>,
}

/// The view of an optional string.
pub open spec fn opt_text(s: Option<String>) -> Option<Seq<char>> {
    match s {
        Some(t) => Some(t@),
        None => None,
    }
}

impl View for TrackArtistMetadata {
    type V = TrackArtistView;

    open spec fn view(&self) -> TrackArtistView {
        TrackArtistView { artist: self.artist@, role: opt_text(self.role) }
    }
}

/// The tag fields of one track.
#[derive(Debug)]
pub struct TrackMetadata {
    pub title: String,
    pub track_number: Option<u8>,
    pub disc_number: Option<u8>,
    pub genre: String,
    pub album: String,
    pub year: Option<u16>,
    pub artists: Vec<TrackArtistMetadata>,
}

/// The view of [`TrackMetadata`]: its strings and lists as sequences.
pub struct TrackMetadataView {
    pub title: Seq<char>,
    pub track_number: Option<u8>,
    pub disc_number: Option<u8>,
    pub genre: Seq<char>,
    pub album: Seq<char>,
    pub year: Option<u16>,
    pub artists: Seq<TrackArtistView>,
}

impl View for TrackMetadata {
    type V = TrackMetadataView;

    open spec fn view(&self) -> TrackMetadataView {
        TrackMetadataView {
            title: self.title@,
            track_number: self.track_number,
            disc_number: self.disc_number,
            genre: self.genre@,
            album: self.album@,
            year: self.year,
            artists: views(self.artists@),
        }
    }
}

/// The views of a list of values.
pub open spec fn views<T: View>(s: Seq<T>) -> Seq<T::V> {
    s.map_values(|t: T| t@)
}

/// A file that the catalog does not know yet, with all that a scan learned
/// of it. `duration` holds the seconds as the bit pattern of a double.
#[derive(Debug)]
pub struct NewFileData {
    pub path: String,
    pub hash: [u8; 32],
    pub size: u64,
    pub duration: u64,
    pub format: String,
    pub metadata: TrackMetadata,
}

/// The view of [`NewFileData`]: its strings and lists as sequences.
pub struct NewFileDataView {
    pub path: Seq<char>,
    pub hash: Seq<u8>,
    pub size: u64,
    pub duration: u64,
    pub format: Seq<char>,
    pub metadata: TrackMetadataView,
}

impl View for NewFileData {
    type V = NewFileDataView;

    open spec fn view(&self) -> NewFileDataView {
        NewFileDataView {
            path: self.path@,
            hash: self.hash@,
            size: self.size,
            duration: self.duration,
            format: self.format@,
            metadata: self.metadata@,
        }
    }
}

/// A known file found at a new path, with the content and size it was found
/// with.
#[derive(Debug)]
pub struct MovedEntry {
    pub id: u128,
    pub path: String,
    pub hash: [u8; 32],
    pub size: u64,
}

/// The view of [`MovedEntry`]: its strings and lists as sequences.
pub struct MovedEntryView {
    pub id: u128,
    pub path: Seq<char>,
    pub hash: Seq<u8>,
    pub size: u64,
}

impl View for MovedEntry {
    type V = MovedEntryView;

    open spec fn view(&self) -> MovedEntryView {
        MovedEntryView { id: self.id, path: self.path@, hash: self.hash@, size: self.size }
    }
}

/// A known path found with other content.
#[derive(Debug)]
pub struct ModifiedEntry {
    pub id: u128,
    pub path: String,
    pub hash: [u8; 32],
    pub size: u64,
    pub duration: u64,
}

/// The view of [`ModifiedEntry`]: its strings and lists as sequences.
pub struct ModifiedEntryView {
    pub id: u128,
    pub path: Seq<char>,
    pub hash: Seq<u8>,
    pub size: u64,
    pub duration: u64,
}

impl View for ModifiedEntry {
    type V = ModifiedEntryView;

    open spec fn view(&self) -> ModifiedEntryView {
        ModifiedEntryView {
            id: self.id,
            path: self.path@,
            hash: self.hash@,
            size: self.size,
            duration: self.duration,
        }
    }
}

/// What a scan makes of one file on disk.
#[derive(Debug)]
pub enum FileClassification {
    Skipped { path: String },
    Moved { id: u128, path: String, hash: [u8; 32], size: u64 },
    Modified { id: u128, path: String, hash: [u8; 32], size: u64, duration: u64 },
    New(NewFileData),
}

/// The view of [`FileClassification`]: its strings and lists as sequences.
pub enum FileClassificationView {
    Skipped { path: Seq<char> },
    Moved { id: u128, path: Seq<char>, hash: Seq<u8>, size: u64 },
    Modified { id: u128, path: Seq<char>, hash: Seq<u8>, size: u64, duration: u64 },
    New(NewFileDataView),
}

impl View for FileClassification {
    type V = FileClassificationView;

    open spec fn view(&self) -> FileClassificationView {
        match *self {
            FileClassification::Skipped { path } => FileClassificationView::Skipped { path: path@ },
            FileClassification::Moved { id, path, hash, size } => FileClassificationView::Moved {
                id,
                path: path@,
                hash: hash@,
                size,
            },
            FileClassification::Modified {
                id,
                path,
                hash,
                size,
                duration,
            } => FileClassificationView::Modified { id, path: path@, hash: hash@, size, duration },
            FileClassification::New(data) => FileClassificationView::New(data@),
        }
    }
}

impl FileClassificationView {
    /// The path of the classified file.
    pub open spec fn path(self) -> Seq<char> {
        match self {
            FileClassificationView::Skipped { path } => path,
            FileClassificationView::Moved { path, .. } => path,
            FileClassificationView::Modified { path, .. } => path,
            FileClassificationView::New(data) => data.path,
        }
    }
}

/// The classifications of one scan, gathered by kind.
#[derive(Debug)]
pub struct ScanResults {
    pub skipped: Vec<String>,
    pub moved: Vec<MovedEntry>,
    pub modified: Vec<ModifiedEntry>,
    pub new_files: Vec<NewFileData>,
}

/// The view of [`ScanResults`]: its strings and lists as sequences.
pub struct ScanResultsView {
    pub skipped: Seq<Seq<char>>,
    pub moved: Seq<MovedEntryView>,
    pub modified: Seq<ModifiedEntryView>,
    pub new_files: Seq<NewFileDataView>,
}

impl View for ScanResults {
    type V = ScanResultsView;

    open spec fn view(&self) -> ScanResultsView {
        ScanResultsView {
            skipped: views(self.skipped@),
            moved: views(self.moved@),
            modified: views(self.modified@),
            new_files: views(self.new_files@),
        }
    }
}

/// An artist to insert.
#[derive(Debug)]
pub struct StagingArtist {
    pub id: u128,
    pub name: String,
}

/// The view of [`StagingArtist`]: its strings and lists as sequences.
pub struct StagingArtistView {
    pub id: u128,
    pub name: Seq<char>,
}

impl View for StagingArtist {
    type V = StagingArtistView;

    open spec fn view(&self) -> StagingArtistView {
        StagingArtistView {
            id: self.id,
            name: self.name@,
        }
    }
}

/// An album to insert.
#[derive(Debug)]
pub struct StagingAlbum {
    pub id: u128,
    pub title: String,
    pub year: Option<u16>,
}

/// The view of [`StagingAlbum`]: its strings and lists as sequences.
pub struct StagingAlbumView {
    pub id: u128,
    pub title: Seq<char>,
    pub year: Option<u16>,
}

impl View for StagingAlbum {
    type V = StagingAlbumView;

    open spec fn view(&self) -> StagingAlbumView {
        StagingAlbumView {
            id: self.id,
            title: self.title@,
            year: self.year,
        }
    }
}

/// A file to insert. `duration` holds the seconds as the bit pattern of a
/// double.
#[derive(Debug)]
pub struct StagingFile {
    pub id: u128,
    pub path: String,
    pub hash: [u8; 32],
    pub size: u64,
    pub format: String,
    pub duration: u64,
}

/// The view of [`StagingFile`]: its strings and lists as sequences.
pub struct StagingFileView {
    pub id: u128,
    pub path: Seq<char>,
    pub hash: Seq<u8>,
    pub size: u64,
    pub format: Seq<char>,
    pub duration: u64,
}

impl View for StagingFile {
    type V = StagingFileView;

    open spec fn view(&self) -> StagingFileView {
        StagingFileView {
            id: self.id,
            path: self.path@,
            hash: self.hash@,
            size: self.size,
            format: self.format@,
            duration: self.duration,
        }
    }
}

/// A track to insert.
#[derive(Debug)]
pub struct StagingTrack {
    pub id: u128,
    pub file: u128,
    pub title: String,
    pub album: Option<u128>,
    pub disc_number: Option<u8>,
    pub track_number: Option<u8>,
    pub genre: String,
}

/// The view of [`StagingTrack`]: its strings and lists as sequences.
pub struct StagingTrackView {
    pub id: u128,
    pub file: u128,
    pub title: Seq<char>,
    pub album: Option<u128>,
    pub disc_number: Option<u8>,
    pub track_number: Option<u8>,
    pub genre: Seq<char>,
}

impl View for StagingTrack {
    type V = StagingTrackView;

    open spec fn view(&self) -> StagingTrackView {
        StagingTrackView {
            id: self.id,
            file: self.file,
            title: self.title@,
            album: self.album,
            disc_number: self.disc_number,
            track_number: self.track_number,
            genre: self.genre@,
        }
    }
}

/// A credit to insert: the artist at place `ord` of a track's artists.
#[derive(Debug)]
pub struct StagingCredit {
    pub track: u128,
    pub artist: u128,
    pub ord: u64,
    pub role: Option<String>,
}

/// The view of [`StagingCredit`]: its strings and lists as sequences.
pub struct StagingCreditView {
    pub track: u128,
    pub artist: u128,
    pub ord: u64,
    pub role: Option<Seq<char>>,
}

impl View for StagingCredit {
    type V = StagingCreditView;

    open spec fn view(&self) -> StagingCreditView {
        StagingCreditView {
            track: self.track,
            artist: self.artist,
            ord: self.ord,
            role: opt_text(self.role),
        }
    }
}

/// A new path for a known file.
#[derive(Debug)]
pub struct StagingMoved {
    pub id: u128,
    pub new_path: String,
}

/// The view of [`StagingMoved`]: its strings and lists as sequences.
pub struct StagingMovedView {
    pub id: u128,
    pub new_path: Seq<char>,
}

impl View for StagingMoved {
    type V = StagingMovedView;

    open spec fn view(&self) -> StagingMovedView {
        StagingMovedView {
            id: self.id,
            new_path: self.new_path@,
        }
    }
}

/// New content for a known file.
#[derive(Debug)]
pub struct StagingModified {
    pub id: u128,
    pub hash: [u8; 32],
    pub size: u64,
    pub duration: u64,
}

/// The view of [`StagingModified`]: its strings and lists as sequences.
pub struct StagingModifiedView {
    pub id: u128,
    pub hash: Seq<u8>,
    pub size: u64,
    pub duration: u64,
}

impl View for StagingModified {
    type V = StagingModifiedView;

    open spec fn view(&self) -> StagingModifiedView {
        StagingModifiedView {
            id: self.id,
            hash: self.hash@,
            size: self.size,
            duration: self.duration,
        }
    }
}

/// A file to mark as deleted, with the deletion that it belongs to.
#[derive(Debug, Clone, Copy)]
pub struct StagingDeleted {
    pub file_id: u128,
    pub deletion_id: u128,
}

/// Every change that one scan makes to the catalog.
#[derive(Debug)]
pub struct StagingData {
    pub artists: Vec<StagingArtist>,
    pub albums: Vec<StagingAlbum>,
    pub files: Vec<StagingFile>,
    pub tracks: Vec<StagingTrack>,
    pub credits: Vec<StagingCredit>,
    pub moved: Vec<StagingMoved>,
    pub modified: Vec<StagingModified>,
    pub deleted: Vec<StagingDeleted>,
}

/// The view of [`StagingData`]: its strings and lists as sequences.
pub struct StagingDataView {
    pub artists: Seq<StagingArtistView>,
    pub albums: Seq<StagingAlbumView>,
    pub files: Seq<StagingFileView>,
    pub tracks: Seq<StagingTrackView>,
    pub credits: Seq<StagingCreditView>,
    pub moved: Seq<StagingMovedView>,
    pub modified: Seq<StagingModifiedView>,
    pub deleted: Seq<StagingDeleted>,
}

impl View for StagingData {
    type V = StagingDataView;

    open spec fn view(&self) -> StagingDataView {
        StagingDataView {
            artists: views(self.artists@),
            albums: views(self.albums@),
            files: views(self.files@),
            tracks: views(self.tracks@),
            credits: views(self.credits@),
            moved: views(self.moved@),
            modified: views(self.modified@),
            deleted: self.deleted@,
        }
    }
}

/// A copy of an optional string.
pub fn copy_opt_text(s: &Option<String>) -> (r: Option<String>)
    ensures
        opt_text(r) == opt_text(*s),
{
    match s {
        Some(t) => Some(t.clone()),
        None => None,
    }
}

impl TrackMetadata {
    /// A copy of this metadata.
    pub fn duplicate(&self) -> (r: TrackMetadata)
        ensures
            r@ == self@,
    {
        let mut artists: Vec<TrackArtistMetadata> = Vec::new();
        let mut i: usize = 0;
        while i < self.artists.len()
            invariant
                i <= self.artists.len(),
                views(artists@) == views(self.artists@).take(i as int),
            decreases self.artists.len() - i,
        {
            let ghost before = artists@;
            let a = &self.artists[i];
            let copy =
                TrackArtistMetadata { artist: a.artist.clone(), role: copy_opt_text(&a.role) };
            assert(copy@ == a@);
            artists.push(copy);
            assert(views(artists@) =~= views(before).push(a@));
            assert(views(artists@) =~= views(self.artists@).take(i + 1));
            i += 1;
        }
        assert(views(self.artists@).take(self.artists.len() as int) =~= views(self.artists@));
        TrackMetadata {
            title: self.title.clone(),
            track_number: self.track_number,
            disc_number: self.disc_number,
            genre: self.genre.clone(),
            album: self.album.clone(),
            year: self.year,
            artists,
        }
    }
}

} // verus!
