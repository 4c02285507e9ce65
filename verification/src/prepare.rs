//! Staging: from the reconciled results of a scan to the rows that one
//! commit writes.

use vstd::prelude::*;
use crate::paths::{file_name_of, parent_of, path_file_name, path_parent};
use crate::text::{char_is_digit, char_is_space, chars_of, lower_seq, lowered, run_end, space_end};
use crate::existing::{
    artist_id, lemma_with_artist_lookup, with_artist, ArtistEntryView, ExistingArtists,
};
use crate::ids::IdSource;
use crate::seqs::{first_index, index_from, lemma_first_index};
use crate::text::same_text;
use crate::types::{
    copy_opt_text, opt_text, views, ModifiedEntryView, MovedEntryView, NewFileData,
    NewFileDataView, ScanResults, ScanResultsView, StagingAlbum, StagingAlbumView, StagingArtist,
    StagingArtistView, StagingCredit, StagingCreditView, StagingData, StagingDataView,
    StagingDeleted, StagingFile, StagingFileView, StagingModified, StagingModifiedView,
    StagingMoved, StagingMovedView, StagingTrack, StagingTrackView, TrackArtistMetadata,
    TrackArtistView,
};

verus! {

/// `s` begins with `prefix`.
pub open spec fn starts_with(s: Seq<char>, prefix: Seq<char>) -> bool {
    prefix.len() <= s.len() && s.subrange(0, prefix.len() as int) == prefix
}

/// From position `from` on, `s` holds a number and nothing else: white
/// space, then at least one ASCII digit, then white space to the end.
pub open spec fn is_padded_number(s: Seq<char>, from: int) -> bool {
    let first = space_end(s, from);
    let last = run_end(s, first);
    first < last && space_end(s, last) == s.len()
}

/// `lower` is `prefix` followed by a number, with white space allowed around
/// the number.
pub open spec fn is_numbered(lower: Seq<char>, prefix: Seq<char>) -> bool {
    starts_with(lower, prefix) && is_padded_number(lower, prefix.len() as int)
}

/// The name of a directory marks one disc of an album: without regard to
/// ASCII case, it is `disc`, `cd` or `disk` followed by a number.
pub open spec fn is_disc_folder_name(name: Seq<char>) -> bool {
    let lower = lower_seq(name);
    is_numbered(lower, "disc"@) || is_numbered(lower, "cd"@) || is_numbered(lower, "disk"@)
}

/// Whether `v` is `prefix` followed by a number.
fn numbered(v: &Vec<char>, prefix: &str) -> (r: bool)
    ensures
        r == is_numbered(v@, prefix@),
{
    let p = chars_of(prefix);
    if p.len() > v.len() {
        return false;
    }
    let mut i: usize = 0;
    while i < p.len()
        invariant
            i <= p.len() <= v.len(),
            p@ == prefix@,
            forall|k: int| 0 <= k < i ==> v@[k] == p@[k],
        decreases p.len() - i,
    {
        if v[i] != p[i] {
            assert(v@.subrange(0, p.len() as int)[i as int] != p@[i as int]);
            return false;
        }
        i += 1;
    }
    assert(v@.subrange(0, p.len() as int) =~= p@);
    let from: usize = p.len();
    while i < v.len() && char_is_space(v[i])
        invariant
            from <= i <= v.len(),
            space_end(v@, from as int) == space_end(v@, i as int),
        decreases v.len() - i,
    {
        i += 1;
    }
    let first: usize = i;
    while i < v.len() && char_is_digit(v[i])
        invariant
            first <= i <= v.len(),
            run_end(v@, first as int) == run_end(v@, i as int),
        decreases v.len() - i,
    {
        i += 1;
    }
    let last: usize = i;
    if last == first {
        return false;
    }
    while i < v.len() && char_is_space(v[i])
        invariant
            last <= i <= v.len(),
            space_end(v@, last as int) == space_end(v@, i as int),
        decreases v.len() - i,
    {
        i += 1;
    }
    i == v.len()
}

/// Tells whether the name of a directory marks one disc of an album.
pub fn is_disc_folder(name: &str) -> (r: bool)
    ensures
        r == is_disc_folder_name(name@),
{
    let lower = lowered(name);
    numbered(&lower, "disc") || numbered(&lower, "cd") || numbered(&lower, "disk")
}

/// The directory that holds the album of the file at `path`: the directory
/// of the file, or the one above it where the file lies in a disc folder.
/// `None` only where the path has no parent, or the disc folder has none.
pub open spec fn album_directory_of(path: Seq<char>) -> Option<Seq<char>> {
    match path_parent(path) {
        None => None,
        Some(parent) => match path_file_name(parent) {
            Some(name) => if is_disc_folder_name(name) {
                path_parent(parent)
            } else {
                Some(parent)
            },
            None => Some(parent),
        },
    }
}

/// Finds the directory that holds the album of a file, looking through disc
/// folders. A parent without a name of its own, such as `.` or the root, is
/// no disc folder and holds the album itself.
pub fn album_directory(file_path: &str) -> (r: Option<String>)
    ensures
        opt_text(r) == album_directory_of(file_path@),
{
    match parent_of(file_path) {
        None => None,
        Some(parent) => match file_name_of(parent.as_str()) {
            Some(name) => if is_disc_folder(name.as_str()) {
                parent_of(parent.as_str())
            } else {
                Some(parent)
            },
            None => Some(parent),
        },
    }
}

/// The names of a list of artists.
pub open spec fn artist_names(artists: Seq<TrackArtistView>) -> Seq<Seq<char>> {
    artists.map_values(|a: TrackArtistView| a.artist)
}

/// Every artist name that the new files mention, file by file, in order.
pub open spec fn mentions(files: Seq<NewFileDataView>) -> Seq<Seq<char>>
    decreases files.len(),
{
    if files.len() == 0 {
        Seq::empty()
    } else {
        mentions(files.drop_last()) + artist_names(files.last().metadata.artists)
    }
}

/// The names among `mentioned` that the catalog does not know, each once, at
/// the place of its first mention.
pub open spec fn fresh_names(mentioned: Seq<Seq<char>>, existing: Seq<ArtistEntryView>) -> Seq<
    Seq<char>,
>
    decreases mentioned.len(),
{
    if mentioned.len() == 0 {
        Seq::empty()
    } else {
        let before = fresh_names(mentioned.drop_last(), existing);
        let name = mentioned.last();
        if artist_id(existing, name) is Some || before.contains(name) {
            before
        } else {
            before.push(name)
        }
    }
}

/// The artists to insert: the `k`-th name with the `k`-th identifier.
pub open spec fn new_artists(names: Seq<Seq<char>>, ids: Seq<u128>) -> Seq<StagingArtistView> {
    Seq::new(names.len(), |k: int| StagingArtistView { id: ids[k], name: names[k] })
}

/// The names of the artists to insert.
pub open spec fn staged_names(records: Seq<StagingArtistView>) -> Seq<Seq<char>> {
    records.map_values(|r: StagingArtistView| r.name)
}

/// The identifiers of the artists to insert.
pub open spec fn staged_artist_ids(records: Seq<StagingArtistView>) -> Seq<u128> {
    records.map_values(|r: StagingArtistView| r.id)
}

/// The artists of the catalog together with the artists to insert.
pub open spec fn extended(existing: Seq<ArtistEntryView>, records: Seq<StagingArtistView>) -> Seq<
    ArtistEntryView,
>
    decreases records.len(),
{
    if records.len() == 0 {
        existing
    } else {
        with_artist(extended(existing, records.drop_last()), records.last().name, records.last().id)
    }
}

/// An artist is known after the insertion exactly if the catalog knows it or
/// it is one of the artists to insert.
pub proof fn lemma_extended_knows(
    existing: Seq<ArtistEntryView>,
    records: Seq<StagingArtistView>,
    name: Seq<char>,
)
    ensures
        artist_id(extended(existing, records), name) is Some <==> (artist_id(existing, name)
            is Some || staged_names(records).contains(name)),
    decreases records.len(),
{
    if records.len() > 0 {
        let before = records.drop_last();
        lemma_extended_knows(existing, before, name);
        lemma_with_artist_lookup(
            extended(existing, before),
            records.last().name,
            records.last().id,
            name,
        );
        assert(staged_names(records) =~= staged_names(before).push(records.last().name));
        if staged_names(records).contains(name) {
            let i = choose|i: int| 0 <= i < records.len() && staged_names(records)[i] == name;
            if i < before.len() {
                assert(staged_names(before)[i] == name);
            }
        }
        if staged_names(before).contains(name) {
            let i = choose|i: int| 0 <= i < before.len() && staged_names(before)[i] == name;
            assert(staged_names(records)[i] == name);
        }
        if name == records.last().name {
            assert(staged_names(records)[records.len() - 1] == name);
        }
    }
}

/// Interns the artists of the new files: every name that the catalog does
/// not know gets a fresh identifier, in order of first mention. Returns the
/// artists by name, old and new, and the artists to insert.
pub fn collect_artists(
    results: &ScanResults,
    existing_artists: &ExistingArtists,
    ids: &mut IdSource,
) -> (r: (ExistingArtists, Vec<StagingArtist>))
    requires
        old(ids).wf(),
    ensures
        final(ids).wf(),
        final(ids).given() == old(ids).given(),
        final(ids).drawn() == old(ids).drawn() + staged_artist_ids(views(r.1@)),
        staged_names(views(r.1@)) == fresh_names(
            mentions(results@.new_files),
            existing_artists@,
        ),
        r.0@ == extended(existing_artists@, views(r.1@)),
{
    let mut all = existing_artists.duplicate();
    let mut records: Vec<StagingArtist> = Vec::new();
    let ghost files = results@.new_files;
    let ghost mut seen: Seq<Seq<char>> = Seq::empty();
    let mut i: usize = 0;
    proof {
        assert(files.take(0) =~= Seq::empty());
        assert(views(records@) =~= Seq::empty());
        assert(staged_names(views(records@)) =~= Seq::empty());
        assert(ids.drawn() + staged_artist_ids(views(records@)) =~= ids.drawn());
    }
    while i < results.new_files.len()
        invariant
            i <= results.new_files.len(),
            files == results@.new_files,
            seen == mentions(files.take(i as int)),
            ids.wf(),
            ids.given() == old(ids).given(),
            ids.drawn() == old(ids).drawn() + staged_artist_ids(views(records@)),
            staged_names(views(records@)) == fresh_names(seen, existing_artists@),
            all@ == extended(existing_artists@, views(records@)),
        decreases results.new_files.len() - i,
    {
        let nf = &results.new_files[i];
        let ghost names = artist_names(nf@.metadata.artists);
        let ghost seen_before = seen;
        let mut j: usize = 0;
        proof {
            assert(files.take(i + 1).drop_last() =~= files.take(i as int));
            assert(files.take(i + 1).last() == nf@);
            assert(seen + names.take(0) =~= seen);
        }
        while j < nf.metadata.artists.len()
            invariant
                j <= nf.metadata.artists.len(),
                names == artist_names(nf@.metadata.artists),
                seen == seen_before + names.take(j as int),
                ids.wf(),
                ids.given() == old(ids).given(),
                ids.drawn() == old(ids).drawn() + staged_artist_ids(views(records@)),
                staged_names(views(records@)) == fresh_names(seen, existing_artists@),
                all@ == extended(existing_artists@, views(records@)),
            decreases nf.metadata.artists.len() - j,
        {
            let name = &nf.metadata.artists[j].artist;
            proof {
                let next = seen_before + names.take(j + 1);
                assert(next.drop_last() =~= seen);
                assert(next.last() == name@);
                lemma_extended_knows(existing_artists@, views(records@), name@);
                seen = next;
            }
            if all.get(name.as_str()).is_none() {
                let ghost before = records@;
                let ghost drawn_before = ids.drawn();
                let id = ids.next_id();
                all.insert(name.clone(), id);
                let record = StagingArtist { id, name: name.clone() };
                records.push(record);
                proof {
                    assert(views(records@) =~= views(before).push(record@));
                    assert(views(records@).drop_last() =~= views(before));
                    assert(staged_names(views(records@)) =~= staged_names(views(before)).push(
                        name@,
                    ));
                    assert(staged_artist_ids(views(records@)) =~= staged_artist_ids(
                        views(before),
                    ).push(id));
                    assert(ids.drawn() =~= old(ids).drawn() + staged_artist_ids(views(records@)));
                }
            }
            j += 1;
        }
        proof {
            assert(names.take(names.len() as int) =~= names);
        }
        i += 1;
    }
    assert(files.take(files.len() as int) =~= files);
    (all, records)
}

/// What tells one album from another: its title and the directory that
/// holds it.
pub struct AlbumKey {
    pub title: Seq<char>,
    pub directory: Seq<char>,
}

/// The album that a new file belongs to. A file without an album directory
/// counts as lying in the empty path.
pub open spec fn album_key(file: NewFileDataView) -> AlbumKey {
    AlbumKey {
        title: file.metadata.album,
        directory: match album_directory_of(file.path) {
            Some(d) => d,
            None => Seq::empty(),
        },
    }
}

/// One album among the new files: its key and its year.
pub struct AlbumGroup {
    pub key: AlbumKey,
    pub year: Option<u16>,
}

/// The keys of a list of albums.
pub open spec fn group_keys(groups: Seq<AlbumGroup>) -> Seq<AlbumKey> {
    groups.map_values(|g: AlbumGroup| g.key)
}

/// The albums of the new files, each once, at the place of its first file
/// and with the year of that file.
pub open spec fn album_groups(files: Seq<NewFileDataView>) -> Seq<AlbumGroup>
    decreases files.len(),
{
    if files.len() == 0 {
        Seq::empty()
    } else {
        let before = album_groups(files.drop_last());
        let key = album_key(files.last());
        if group_keys(before).contains(key) {
            before
        } else {
            before.push(AlbumGroup { key, year: files.last().metadata.year })
        }
    }
}

/// An album of the new files with the identifier it was given.
#[derive(Debug)]
pub struct AlbumSlot {
    pub title: String,
    pub directory: String,
    pub id: u128,
}

/// The view of [`AlbumSlot`]: its strings and lists as sequences.
pub struct AlbumSlotView {
    pub key: AlbumKey,
    pub id: u128,
}

impl View for AlbumSlot {
    type V = AlbumSlotView;

    open spec fn view(&self) -> AlbumSlotView {
        AlbumSlotView {
            key: AlbumKey { title: self.title@, directory: self.directory@ },
            id: self.id,
        }
    }
}

/// The keys of a list of albums with identifiers.
pub open spec fn slot_keys(slots: Seq<AlbumSlotView>) -> Seq<AlbumKey> {
    slots.map_values(|s: AlbumSlotView| s.key)
}

/// The identifier of the album with key `key`, if `slots` has it.
pub open spec fn album_of(slots: Seq<AlbumSlotView>, key: AlbumKey) -> Option<u128> {
    match first_index(slot_keys(slots), key) {
        Some(k) => Some(slots[k].id),
        None => None,
    }
}

/// The albums with their identifiers: the `k`-th album with the `k`-th
/// identifier.
pub open spec fn album_slots(groups: Seq<AlbumGroup>, ids: Seq<u128>) -> Seq<AlbumSlotView> {
    Seq::new(groups.len(), |k: int| AlbumSlotView { key: groups[k].key, id: ids[k] })
}

/// The albums to insert: the `k`-th album with the `k`-th identifier.
pub open spec fn new_albums(groups: Seq<AlbumGroup>, ids: Seq<u128>) -> Seq<StagingAlbumView> {
    Seq::new(
        groups.len(),
        |k: int| StagingAlbumView { id: ids[k], title: groups[k].key.title, year: groups[k].year },
    )
}

/// The identifiers of the albums to insert.
pub open spec fn staged_album_ids(albums: Seq<StagingAlbumView>) -> Seq<u128> {
    albums.map_values(|a: StagingAlbumView| a.id)
}

/// The position of the album with this title and directory.
fn find_slot(slots: &Vec<AlbumSlot>, title: &String, directory: &String) -> (r: Option<usize>)
    ensures
        r is Some <==> first_index(
            slot_keys(views(slots@)),
            AlbumKey { title: title@, directory: directory@ },
        ) is Some,
        r matches Some(k) ==> k < slots.len() && first_index(
            slot_keys(views(slots@)),
            AlbumKey { title: title@, directory: directory@ },
        ) == Some(k as int),
{
    let ghost key = AlbumKey { title: title@, directory: directory@ };
    let mut i: usize = 0;
    while i < slots.len()
        invariant
            i <= slots.len(),
            key == (AlbumKey { title: title@, directory: directory@ }),
            index_from(slot_keys(views(slots@)), key, 0) == index_from(
                slot_keys(views(slots@)),
                key,
                i as int,
            ),
        decreases slots.len() - i,
    {
        if same_text(&slots[i].title, title) && same_text(&slots[i].directory, directory) {
            return Some(i);
        }
        i += 1;
    }
    None
}

/// The album directory of a file as text: the empty path where the file has
/// none.
fn album_directory_or_empty(path: &str) -> (r: String)
    ensures
        r@ == (match album_directory_of(path@) {
            Some(d) => d,
            None => Seq::empty(),
        }),
{
    match album_directory(path) {
        Some(d) => d,
        None => String::new(),
    }
}

/// Groups the new files into albums by title and album directory. Every
/// album gets a fresh identifier, in order of its first file, and the year of
/// that file. Returns the albums with their identifiers, and the albums to
/// insert.
pub fn collect_albums(results: &ScanResults, ids: &mut IdSource) -> (r: (
    Vec<AlbumSlot>,
    Vec<StagingAlbum>,
))
    requires
        old(ids).wf(),
    ensures
        final(ids).wf(),
        final(ids).given() == old(ids).given(),
        final(ids).drawn() == old(ids).drawn() + staged_album_ids(views(r.1@)),
        views(r.1@) == new_albums(
            album_groups(results@.new_files),
            staged_album_ids(views(r.1@)),
        ),
        views(r.0@) == album_slots(
            album_groups(results@.new_files),
            staged_album_ids(views(r.1@)),
        ),
{
    let mut slots: Vec<AlbumSlot> = Vec::new();
    let mut albums: Vec<StagingAlbum> = Vec::new();
    let ghost files = results@.new_files;
    let mut i: usize = 0;
    proof {
        assert(files.take(0) =~= Seq::empty());
        assert(views(albums@) =~= Seq::empty());
        assert(views(slots@) =~= Seq::empty());
        assert(staged_album_ids(views(albums@)) =~= Seq::empty());
        assert(ids.drawn() + staged_album_ids(views(albums@)) =~= ids.drawn());
        assert(new_albums(album_groups(files.take(0)), Seq::empty()) =~= Seq::empty());
        assert(album_slots(album_groups(files.take(0)), Seq::empty()) =~= Seq::empty());
    }
    while i < results.new_files.len()
        invariant
            i <= results.new_files.len(),
            files == results@.new_files,
            ids.wf(),
            ids.given() == old(ids).given(),
            ids.drawn() == old(ids).drawn() + staged_album_ids(views(albums@)),
            views(albums@) == new_albums(
                album_groups(files.take(i as int)),
                staged_album_ids(views(albums@)),
            ),
            views(slots@) == album_slots(
                album_groups(files.take(i as int)),
                staged_album_ids(views(albums@)),
            ),
        decreases results.new_files.len() - i,
    {
        let nf = &results.new_files[i];
        let directory = album_directory_or_empty(nf.path.as_str());
        let ghost groups = album_groups(files.take(i as int));
        let ghost key = album_key(nf@);
        proof {
            assert(files.take(i + 1).drop_last() =~= files.take(i as int));
            assert(files.take(i + 1).last() == nf@);
            assert(slot_keys(views(slots@)) =~= group_keys(groups));
            lemma_first_index(group_keys(groups), key);
        }
        if find_slot(&slots, &nf.metadata.album, &directory).is_none() {
            let ghost albums_before = views(albums@);
            let ghost slots_before = views(slots@);
            let id = ids.next_id();
            let slot = AlbumSlot { title: nf.metadata.album.clone(), directory, id };
            let album = StagingAlbum {
                id,
                title: nf.metadata.album.clone(),
                year: nf.metadata.year,
            };
            slots.push(slot);
            albums.push(album);
            proof {
                let after = groups.push(AlbumGroup { key, year: nf@.metadata.year });
                assert(views(albums@) =~= albums_before.push(album@));
                assert(views(slots@) =~= slots_before.push(slot@));
                assert(staged_album_ids(views(albums@)) =~= staged_album_ids(albums_before).push(
                    id,
                ));
                assert(ids.drawn() =~= old(ids).drawn() + staged_album_ids(views(albums@)));
                assert(views(albums@) =~= new_albums(after, staged_album_ids(views(albums@))));
                assert(views(slots@) =~= album_slots(after, staged_album_ids(views(albums@))));
            }
        }
        i += 1;
    }
    assert(files.take(files.len() as int) =~= files);
    (slots, albums)
}

/// The path changes to write: one per moved file.
pub open spec fn staged_moved(moved: Seq<MovedEntryView>) -> Seq<StagingMovedView> {
    moved.map_values(|m: MovedEntryView| StagingMovedView { id: m.id, new_path: m.path })
}

/// The content changes to write: one per modified file.
pub open spec fn staged_modified(modified: Seq<ModifiedEntryView>) -> Seq<StagingModifiedView> {
    modified.map_values(
        |m: ModifiedEntryView|
            StagingModifiedView { id: m.id, hash: m.hash, size: m.size, duration: m.duration },
    )
}

/// The deletions to write: every deleted file under the one deletion
/// `deletion`.
pub open spec fn staged_deleted(deleted: Seq<u128>, deletion: u128) -> Seq<StagingDeleted> {
    deleted.map_values(|file_id: u128| StagingDeleted { file_id, deletion_id: deletion })
}

/// Stages the changes to known files: the moved and the modified files one
/// for one, and the deleted files under one fresh deletion identifier.
pub fn collect_changes(results: &ScanResults, deleted_ids: Vec<u128>, ids: &mut IdSource) -> (r: (
    Vec<StagingMoved>,
    Vec<StagingModified>,
    Vec<StagingDeleted>,
))
    requires
        old(ids).wf(),
    ensures
        final(ids).wf(),
        final(ids).given() == old(ids).given(),
        final(ids).drawn().len() == old(ids).drawn().len() + 1,
        final(ids).drawn().drop_last() == old(ids).drawn(),
        views(r.0@) == staged_moved(results@.moved),
        views(r.1@) == staged_modified(results@.modified),
        r.2@ == staged_deleted(deleted_ids@, final(ids).drawn().last()),
{
    let mut moved: Vec<StagingMoved> = Vec::new();
    let mut i: usize = 0;
    while i < results.moved.len()
        invariant
            i <= results.moved.len(),
            moved@.len() == i,
            forall|k: int|
                0 <= k < i ==> (#[trigger] moved@[k])@ == (StagingMovedView {
                    id: results.moved@[k].id,
                    new_path: results.moved@[k].path@,
                }),
        decreases results.moved.len() - i,
    {
        moved.push(
            StagingMoved { id: results.moved[i].id, new_path: results.moved[i].path.clone() },
        );
        i += 1;
    }
    assert(views(moved@) =~= staged_moved(results@.moved));

    let mut modified: Vec<StagingModified> = Vec::new();
    let mut i: usize = 0;
    while i < results.modified.len()
        invariant
            i <= results.modified.len(),
            modified@.len() == i,
            forall|k: int|
                0 <= k < i ==> (#[trigger] modified@[k])@ == (StagingModifiedView {
                    id: results.modified@[k].id,
                    hash: results.modified@[k].hash@,
                    size: results.modified@[k].size,
                    duration: results.modified@[k].duration,
                }),
        decreases results.modified.len() - i,
    {
        let m = &results.modified[i];
        modified.push(
            StagingModified { id: m.id, hash: m.hash, size: m.size, duration: m.duration },
        );
        i += 1;
    }
    assert(views(modified@) =~= staged_modified(results@.modified));

    let ghost drawn_before = ids.drawn();
    let deletion_id = ids.next_id();
    assert(ids.drawn().drop_last() =~= drawn_before);
    let mut deleted: Vec<StagingDeleted> = Vec::new();
    let mut i: usize = 0;
    while i < deleted_ids.len()
        invariant
            i <= deleted_ids.len(),
            deleted@.len() == i,
            forall|k: int|
                0 <= k < i ==> #[trigger] deleted@[k] == (StagingDeleted {
                    file_id: deleted_ids@[k],
                    deletion_id,
                }),
        decreases deleted_ids.len() - i,
    {
        deleted.push(StagingDeleted { file_id: deleted_ids[i], deletion_id });
        i += 1;
    }
    assert(deleted@ =~= staged_deleted(deleted_ids@, deletion_id));
    (moved, modified, deleted)
}

/// The file row of a new file.
pub open spec fn staged_file(file: NewFileDataView, id: u128) -> StagingFileView {
    StagingFileView {
        id,
        path: file.path,
        hash: file.hash,
        size: file.size,
        format: file.format,
        duration: file.duration,
    }
}

/// The track row of a new file.
pub open spec fn staged_track(
    file: NewFileDataView,
    id: u128,
    file_id: u128,
    album: Option<u128>,
) -> StagingTrackView {
    StagingTrackView {
        id,
        file: file_id,
        title: file.metadata.title,
        album,
        disc_number: file.metadata.disc_number,
        track_number: file.metadata.track_number,
        genre: file.metadata.genre,
    }
}

/// The credits of one track: one for each of its artists that `all` knows,
/// with the place of the artist among the track's artists.
pub open spec fn credits_of(
    track: u128,
    artists: Seq<TrackArtistView>,
    all: Seq<ArtistEntryView>,
) -> Seq<StagingCreditView>
    decreases artists.len(),
{
    if artists.len() == 0 {
        Seq::empty()
    } else {
        let before = credits_of(track, artists.drop_last(), all);
        match artist_id(all, artists.last().artist) {
            Some(artist) => before.push(
                StagingCreditView {
                    track,
                    artist,
                    ord: (artists.len() - 1) as u64,
                    role: artists.last().role,
                },
            ),
            None => before,
        }
    }
}

/// The file rows of the new files. The `i`-th file has the identifier
/// `pairs[2 * i]`.
pub open spec fn staged_files(files: Seq<NewFileDataView>, pairs: Seq<u128>) -> Seq<
    StagingFileView,
> {
    Seq::new(files.len(), |i: int| staged_file(files[i], pairs[2 * i]))
}

/// The track rows of the new files. The `i`-th track has the identifier
/// `pairs[2 * i + 1]`, belongs to the `i`-th file, and to the album of that
/// file.
pub open spec fn staged_tracks(
    files: Seq<NewFileDataView>,
    pairs: Seq<u128>,
    slots: Seq<AlbumSlotView>,
) -> Seq<StagingTrackView> {
    Seq::new(
        files.len(),
        |i: int|
            staged_track(
                files[i],
                pairs[2 * i + 1],
                pairs[2 * i],
                album_of(slots, album_key(files[i])),
            ),
    )
}

/// The credits of the new files, track by track.
pub open spec fn staged_credits(
    files: Seq<NewFileDataView>,
    pairs: Seq<u128>,
    all: Seq<ArtistEntryView>,
) -> Seq<StagingCreditView>
    decreases files.len(),
{
    if files.len() == 0 {
        Seq::empty()
    } else {
        let n = files.len() - 1;
        staged_credits(files.drop_last(), pairs.take(2 * n), all) + credits_of(
            pairs[2 * n + 1],
            files.last().metadata.artists,
            all,
        )
    }
}

/// How many identifiers the staging of a scan draws: one for each artist
/// and each album to insert, two for each new file, and one for the
/// deletion.
pub open spec fn ids_needed(results: ScanResultsView, existing: Seq<ArtistEntryView>) -> nat {
    fresh_names(mentions(results.new_files), existing).len() + album_groups(
        results.new_files,
    ).len() + 2 * results.new_files.len() + 1
}

/// Every change that a scan makes to the catalog, given the identifiers to
/// use. The identifiers go, in this order, to the artists to insert, to the
/// albums to insert, to the new files (each file's own, then its track's),
/// and to the deletion.
pub open spec fn staging_of(
    results: ScanResultsView,
    existing: Seq<ArtistEntryView>,
    deleted: Seq<u128>,
    ids: Seq<u128>,
) -> StagingDataView {
    let names = fresh_names(mentions(results.new_files), existing);
    let groups = album_groups(results.new_files);
    let a = names.len() as int;
    let b = groups.len() as int;
    let f = results.new_files.len() as int;
    let artists = new_artists(names, ids.subrange(0, a));
    let album_ids = ids.subrange(a, a + b);
    let pairs = ids.subrange(a + b, a + b + 2 * f);
    StagingDataView {
        artists,
        albums: new_albums(groups, album_ids),
        files: staged_files(results.new_files, pairs),
        tracks: staged_tracks(results.new_files, pairs, album_slots(groups, album_ids)),
        credits: staged_credits(results.new_files, pairs, extended(existing, artists)),
        moved: staged_moved(results.moved),
        modified: staged_modified(results.modified),
        deleted: staged_deleted(deleted, ids[a + b + 2 * f]),
    }
}

/// Stages the credits of one track.
fn stage_credits(
    track: u128,
    artists: &Vec<TrackArtistMetadata>,
    all: &ExistingArtists,
    credits: &mut Vec<StagingCredit>,
)
    ensures
        views(final(credits)@) == views(old(credits)@) + credits_of(track, views(artists@), all@),
{
    let ghost before = views(credits@);
    let mut j: usize = 0;
    proof {
        assert(views(artists@).take(0) =~= Seq::empty());
        assert(before + credits_of(track, views(artists@).take(0), all@) =~= before);
    }
    while j < artists.len()
        invariant
            j <= artists.len(),
            views(credits@) == before + credits_of(track, views(artists@).take(j as int), all@),
        decreases artists.len() - j,
    {
        let artist = &artists[j];
        proof {
            let list = views(artists@);
            assert(list.take(j + 1).drop_last() =~= list.take(j as int));
            assert(list.take(j + 1).last() == artist@);
        }
        match all.get(artist.artist.as_str()) {
            Some(artist_id) => {
                let ghost credits_before = credits@;
                let credit = StagingCredit {
                    track,
                    artist: artist_id,
                    ord: j as u64,
                    role: copy_opt_text(&artist.role),
                };
                credits.push(credit);
                proof {
                    assert(views(credits@) =~= views(credits_before).push(credit@));
                    assert(views(credits@) =~= before + credits_of(
                        track,
                        views(artists@).take(j + 1),
                        all@,
                    ));
                }
            },
            None => {},
        }
        j += 1;
    }
    assert(views(artists@).take(artists.len() as int) =~= views(artists@));
}

/// The identifier of the album of a new file.
fn album_id_of(slots: &Vec<AlbumSlot>, file: &NewFileData) -> (r: Option<u128>)
    ensures
        r == album_of(views(slots@), album_key(file@)),
{
    let directory = album_directory_or_empty(file.path.as_str());
    match find_slot(slots, &file.metadata.album, &directory) {
        Some(k) => Some(slots[k].id),
        None => None,
    }
}

/// Prepares every change that a scan makes to the catalog: interns the
/// artists and groups the albums of the new files, gives each new file a
/// file row, a track row and the credits of its artists, and carries over
/// the moved, modified and deleted files. Identifiers come from `ids`.
pub fn prepare_staging_data(
    results: &ScanResults,
    existing_artists: &ExistingArtists,
    deleted_ids: Vec<u128>,
    ids: &mut IdSource,
) -> (r: StagingData)
    requires
        old(ids).wf(),
    ensures
        final(ids).wf(),
        final(ids).given() == old(ids).given(),
        final(ids).drawn().len() == old(ids).drawn().len() + ids_needed(
            results@,
            existing_artists@,
        ),
        final(ids).drawn().take(old(ids).drawn().len() as int) == old(ids).drawn(),
        r@ == staging_of(
            results@,
            existing_artists@,
            deleted_ids@,
            final(ids).drawn().skip(old(ids).drawn().len() as int),
        ),
{
    let ghost start = ids.drawn();
    let (all_artists, new_artist_records) = collect_artists(results, existing_artists, ids);
    let ghost artist_ids = staged_artist_ids(views(new_artist_records@));
    let (album_slots_found, staging_albums) = collect_albums(results, ids);
    let ghost album_ids = staged_album_ids(views(staging_albums@));
    let ghost base = ids.drawn();
    let ghost files = results@.new_files;

    let mut staging_files: Vec<StagingFile> = Vec::new();
    let mut staging_tracks: Vec<StagingTrack> = Vec::new();
    let mut staging_credits: Vec<StagingCredit> = Vec::new();
    let ghost mut pairs: Seq<u128> = Seq::empty();
    let mut i: usize = 0;
    proof {
        assert(files.take(0) =~= Seq::empty());
        assert(base + pairs =~= base);
        assert(views(staging_files@) =~= staged_files(files.take(0), pairs));
        assert(views(staging_tracks@) =~= staged_tracks(
            files.take(0),
            pairs,
            views(album_slots_found@),
        ));
        assert(views(staging_credits@) =~= Seq::empty());
    }
    while i < results.new_files.len()
        invariant
            i <= results.new_files.len(),
            files == results@.new_files,
            ids.wf(),
            ids.given() == old(ids).given(),
            ids.drawn() == base + pairs,
            pairs.len() == 2 * i,
            views(staging_files@) == staged_files(files.take(i as int), pairs),
            views(staging_tracks@) == staged_tracks(
                files.take(i as int),
                pairs,
                views(album_slots_found@),
            ),
            views(staging_credits@) == staged_credits(files.take(i as int), pairs, all_artists@),
        decreases results.new_files.len() - i,
    {
        let nf = &results.new_files[i];
        let ghost pairs_before = pairs;
        let ghost files_before = views(staging_files@);
        let ghost tracks_before = views(staging_tracks@);
        let file_id = ids.next_id();
        let track_id = ids.next_id();
        proof {
            pairs = pairs.push(file_id).push(track_id);
            assert(ids.drawn() =~= base + pairs);
            assert(files.take(i + 1).drop_last() =~= files.take(i as int));
            assert(files.take(i + 1).last() == nf@);
            assert(pairs.take(2 * i) =~= pairs_before);
        }
        let file = StagingFile {
            id: file_id,
            path: nf.path.clone(),
            hash: nf.hash,
            size: nf.size,
            format: nf.format.clone(),
            duration: nf.duration,
        };
        let track = StagingTrack {
            id: track_id,
            file: file_id,
            title: nf.metadata.title.clone(),
            album: album_id_of(&album_slots_found, nf),
            disc_number: nf.metadata.disc_number,
            track_number: nf.metadata.track_number,
            genre: nf.metadata.genre.clone(),
        };
        staging_files.push(file);
        staging_tracks.push(track);
        proof {
            assert(views(staging_files@) =~= files_before.push(file@));
            assert(views(staging_tracks@) =~= tracks_before.push(track@));
            assert(views(staging_files@) =~= staged_files(files.take(i + 1), pairs));
            assert(views(staging_tracks@) =~= staged_tracks(
                files.take(i + 1),
                pairs,
                views(album_slots_found@),
            ));
        }
        stage_credits(track_id, &nf.metadata.artists, &all_artists, &mut staging_credits);
        i += 1;
    }
    let (staging_moved, staging_modified, staging_deleted) = collect_changes(
        results,
        deleted_ids,
        ids,
    );
    proof {
        assert(files.take(files.len() as int) =~= files);
        let drawn = ids.drawn().skip(start.len() as int);
        let names = fresh_names(mentions(files), existing_artists@);
        let groups = album_groups(files);
        let a = names.len() as int;
        let b = groups.len() as int;
        let f = files.len() as int;
        assert(staged_names(views(new_artist_records@)).len() == a);
        assert(artist_ids.len() == a);
        assert(album_ids.len() == b);
        let deletion = ids.drawn().last();
        assert(base == start + artist_ids + album_ids);
        assert(ids.drawn().drop_last() == base + pairs);
        assert(ids.drawn() =~= (base + pairs).push(deletion));
        assert(drawn =~= (artist_ids + album_ids + pairs).push(deletion));
        assert(drawn.subrange(0, a) =~= artist_ids);
        assert(drawn.subrange(a, a + b) =~= album_ids);
        assert(drawn.subrange(a + b, a + b + 2 * f) =~= pairs);
        assert(drawn[a + b + 2 * f] == ids.drawn().last());
        assert(ids.drawn().take(start.len() as int) =~= start);
        assert(views(new_artist_records@) =~= new_artists(names, artist_ids)) by {
            assert forall|k: int| 0 <= k < a implies views(new_artist_records@)[k]
                == new_artists(names, artist_ids)[k] by {
                assert(staged_names(views(new_artist_records@))[k] == names[k]);
                assert(staged_artist_ids(views(new_artist_records@))[k] == artist_ids[k]);
            }
        }
    }
    StagingData {
        artists: new_artist_records,
        albums: staging_albums,
        files: staging_files,
        tracks: staging_tracks,
        credits: staging_credits,
        moved: staging_moved,
        modified: staging_modified,
        deleted: staging_deleted,
    }
}

} // verus!
