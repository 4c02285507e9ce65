//! The catalog as a scan finds it: the files that are not deleted, by path
//! and by content, and the artists by name.

use vstd::prelude::*;
use crate::ids::{parse_uuid, uuid_of_text};
use crate::seqs::{first_index, index_from, lemma_first_index, lemma_first_index_is};
use crate::text::same_text;
use crate::hashing::hash_equal;
use crate::types::views;

verus! {

/// One file of the catalog.
#[derive(Debug)]
pub struct FileEntry {
    pub id: u128,
    pub path: String,
    pub hash: [u8; 32],
}

/// The view of [`FileEntry`]: its strings and lists as sequences.
pub struct FileEntryView {
    pub id: u128,
    pub path: Seq<char>,
    pub hash: Seq<u8>,
}

impl View for FileEntry {
    type V = FileEntryView;

    open spec fn view(&self) -> FileEntryView {
        FileEntryView { id: self.id, path: self.path@, hash: self.hash@ }
    }
}

/// The paths of a list of files.
pub open spec fn paths_of(entries: Seq<FileEntryView>) -> Seq<Seq<char>> {
    entries.map_values(|e: FileEntryView| e.path)
}

/// The files of `entries` with content `hash`, in their order.
pub open spec fn with_hash(entries: Seq<FileEntryView>, hash: Seq<u8>) -> Seq<FileEntryView>
    decreases entries.len(),
{
    if entries.len() == 0 {
        Seq::empty()
    } else {
        let before = with_hash(entries.drop_last(), hash);
        if entries.last().hash == hash {
            before.push(entries.last())
        } else {
            before
        }
    }
}

/// The files of the catalog that are not deleted. `by_path` holds one file
/// per path; `by_hash` holds every file that was loaded, in load order.
pub struct ExistingFiles {
    by_path: Vec<FileEntry>,
    by_hash: Vec<FileEntry>,
}

/// The view of [`ExistingFiles`]: its strings and lists as sequences.
pub struct ExistingFilesView {
    pub by_path: Seq<FileEntryView>,
    pub by_hash: Seq<FileEntryView>,
}

impl ExistingFilesView {
    /// The catalog without any file.
    pub open spec fn empty() -> ExistingFilesView {
        ExistingFilesView { by_path: Seq::empty(), by_hash: Seq::empty() }
    }

    /// The file known at `path`, if there is one.
    pub open spec fn at_path(self, path: Seq<char>) -> Option<FileEntryView> {
        match first_index(paths_of(self.by_path), path) {
            Some(k) => Some(self.by_path[k]),
            None => None,
        }
    }

    /// The files known with content `hash`, in load order.
    pub open spec fn with_content(self, hash: Seq<u8>) -> Seq<FileEntryView> {
        with_hash(self.by_hash, hash)
    }

    /// The catalog after one more file was loaded: the file takes the place
    /// of the one known at its path, if there is one, and joins the files
    /// known by content.
    pub open spec fn inserted(self, id: u128, path: Seq<char>, hash: Seq<u8>) -> ExistingFilesView {
        let e = FileEntryView { id, path, hash };
        ExistingFilesView {
            by_path: match first_index(paths_of(self.by_path), path) {
                Some(k) => self.by_path.update(k, e),
                None => self.by_path.push(e),
            },
            by_hash: self.by_hash.push(e),
        }
    }

    /// No path is known twice.
    pub open spec fn wf(self) -> bool {
        paths_of(self.by_path).no_duplicates()
    }
}

/// Loading a file keeps the paths distinct.
pub proof fn lemma_inserted_wf(files: ExistingFilesView, id: u128, path: Seq<char>, hash: Seq<u8>)
    requires
        files.wf(),
    ensures
        files.inserted(id, path, hash).wf(),
{
    let e = FileEntryView { id, path, hash };
    let keys = paths_of(files.by_path);
    lemma_first_index(keys, path);
    match first_index(keys, path) {
        Some(k) => {
            assert(paths_of(files.by_path.update(k, e)) =~= keys);
        },
        None => {
            assert(paths_of(files.by_path.push(e)) =~= keys.push(path));
            assert forall|i: int, j: int|
                0 <= i < keys.len() + 1 && 0 <= j < keys.len() + 1 && i != j implies keys.push(
                path,
            )[i] != keys.push(path)[j] by {
                if i < keys.len() {
                    assert(keys.contains(keys[i]));
                }
                if j < keys.len() {
                    assert(keys.contains(keys[j]));
                }
            }
        },
    }
}

/// The position of the first file of `entries` at `path`.
fn find_path(entries: &Vec<FileEntry>, path: &str) -> (r: Option<usize>)
    ensures
        r is Some <==> first_index(paths_of(views(entries@)), path@) is Some,
        r matches Some(k) ==> k < entries.len() && first_index(
            paths_of(views(entries@)),
            path@,
        ) == Some(k as int),
{
    let wanted: String = path.to_owned();
    let mut i: usize = 0;
    while i < entries.len()
        invariant
            i <= entries.len(),
            wanted@ == path@,
            index_from(paths_of(views(entries@)), path@, 0) == index_from(
                paths_of(views(entries@)),
                path@,
                i as int,
            ),
        decreases entries.len() - i,
    {
        if same_text(&entries[i].path, &wanted) {
            return Some(i);
        }
        i += 1;
    }
    None
}

impl View for ExistingFiles {
    type V = ExistingFilesView;

    closed spec fn view(&self) -> ExistingFilesView {
        ExistingFilesView { by_path: views(self.by_path@), by_hash: views(self.by_hash@) }
    }
}

impl ExistingFiles {
    /// A catalog without any file.
    pub fn new() -> (r: ExistingFiles)
        ensures
            r@ == ExistingFilesView::empty(),
            r@.wf(),
    {
        let r = ExistingFiles { by_path: Vec::new(), by_hash: Vec::new() };
        assert(r@.by_path =~= Seq::empty());
        assert(r@.by_hash =~= Seq::empty());
        r
    }

    /// Loads one more file.
    pub fn insert(&mut self, id: u128, path: String, hash: [u8; 32])
        ensures
            final(self)@ == old(self)@.inserted(id, path@, hash@),
            old(self)@.wf() ==> final(self)@.wf(),
    {
        proof {
            if old(self)@.wf() {
                lemma_inserted_wf(old(self)@, id, path@, hash@);
            }
        }
        let by_content = FileEntry { id, path: path.clone(), hash };
        let by_place = FileEntry { id, path, hash };
        let ghost before_paths = self.by_path@;
        let ghost before_hashes = self.by_hash@;
        match find_path(&self.by_path, by_place.path.as_str()) {
            Some(k) => {
                self.by_path.set(k, by_place);
                assert(views(self.by_path@) =~= views(before_paths).update(
                    k as int,
                    by_content@,
                ));
            },
            None => {
                self.by_path.push(by_place);
                assert(views(self.by_path@) =~= views(before_paths).push(by_content@));
            },
        }
        self.by_hash.push(by_content);
        assert(views(self.by_hash@) =~= views(before_hashes).push(by_content@));
    }

    /// The identifier and content of the file known at `path`.
    pub fn lookup_path(&self, path: &str) -> (r: Option<(u128, [u8; 32])>)
        ensures
            r is Some <==> self@.at_path(path@) is Some,
            r matches Some(found) ==> self@.at_path(path@) matches Some(e) && found.0 == e.id
                && found.1@ == e.hash,
    {
        match find_path(&self.by_path, path) {
            Some(k) => Some((self.by_path[k].id, self.by_path[k].hash)),
            None => None,
        }
    }

    /// The files known with content `hash`, in load order.
    pub fn lookup_hash(&self, hash: &[u8; 32]) -> (r: Vec<FileEntry>)
        ensures
            views(r@) == self@.with_content(hash@),
    {
        let mut r: Vec<FileEntry> = Vec::new();
        let mut i: usize = 0;
        assert(views(self.by_hash@).take(0) =~= Seq::empty());
        while i < self.by_hash.len()
            invariant
                i <= self.by_hash.len(),
                views(r@) == with_hash(views(self.by_hash@).take(i as int), hash@),
            decreases self.by_hash.len() - i,
        {
            let e = &self.by_hash[i];
            proof {
                let all = views(self.by_hash@);
                assert(all.take(i + 1).drop_last() =~= all.take(i as int));
                assert(all.take(i + 1).last() == e@);
                assert((e.hash == *hash) <==> (e.hash@ == hash@)) by {
                    if e.hash@ == hash@ {
                        assert(e.hash =~= *hash);
                    }
                }
            }
            if hash_equal(&e.hash, hash) {
                let ghost before = r@;
                r.push(FileEntry { id: e.id, path: e.path.clone(), hash: e.hash });
                assert(views(r@) =~= views(before).push(e@));
            }
            i += 1;
        }
        assert(views(self.by_hash@).take(self.by_hash.len() as int) =~= views(self.by_hash@));
        r
    }

    /// The files known by path, one per path.
    pub fn path_entries(&self) -> (r: &Vec<FileEntry>)
        ensures
            views(r@) == self@.by_path,
    {
        &self.by_path
    }
}

/// One artist of the catalog.
#[derive(Debug)]
pub struct ArtistEntry {
    pub name: String,
    pub id: u128,
}

/// The view of [`ArtistEntry`]: its strings and lists as sequences.
pub struct ArtistEntryView {
    pub name: Seq<char>,
    pub id: u128,
}

impl View for ArtistEntry {
    type V = ArtistEntryView;

    open spec fn view(&self) -> ArtistEntryView {
        ArtistEntryView { name: self.name@, id: self.id }
    }
}

/// The names of a list of artists.
pub open spec fn names_of(entries: Seq<ArtistEntryView>) -> Seq<Seq<char>> {
    entries.map_values(|e: ArtistEntryView| e.name)
}

/// The identifier of the artist called `name`, if `entries` has one.
pub open spec fn artist_id(entries: Seq<ArtistEntryView>, name: Seq<char>) -> Option<u128> {
    match first_index(names_of(entries), name) {
        Some(k) => Some(entries[k].id),
        None => None,
    }
}

/// `entries` after the artist `name` was given the identifier `id`: the
/// artist keeps its place if it is there already, and comes last otherwise.
pub open spec fn with_artist(entries: Seq<ArtistEntryView>, name: Seq<char>, id: u128) -> Seq<
    ArtistEntryView,
> {
    let e = ArtistEntryView { name, id };
    match first_index(names_of(entries), name) {
        Some(k) => entries.update(k, e),
        None => entries.push(e),
    }
}

/// Naming an artist keeps the names distinct.
pub proof fn lemma_with_artist_distinct(entries: Seq<ArtistEntryView>, name: Seq<char>, id: u128)
    requires
        names_of(entries).no_duplicates(),
    ensures
        names_of(with_artist(entries, name, id)).no_duplicates(),
{
    let e = ArtistEntryView { name, id };
    let keys = names_of(entries);
    lemma_first_index(keys, name);
    match first_index(keys, name) {
        Some(k) => {
            assert(names_of(entries.update(k, e)) =~= keys);
        },
        None => {
            assert(names_of(entries.push(e)) =~= keys.push(name));
            assert forall|i: int, j: int|
                0 <= i < keys.len() + 1 && 0 <= j < keys.len() + 1 && i != j implies keys.push(
                name,
            )[i] != keys.push(name)[j] by {
                if i < keys.len() {
                    assert(keys.contains(keys[i]));
                }
                if j < keys.len() {
                    assert(keys.contains(keys[j]));
                }
            }
        },
    }
}

/// After the artist `name` was given the identifier `id`, that is its
/// identifier, and every other artist has the identifier it had.
pub proof fn lemma_with_artist_lookup(
    entries: Seq<ArtistEntryView>,
    name: Seq<char>,
    id: u128,
    other: Seq<char>,
)
    ensures
        artist_id(with_artist(entries, name, id), other) == if other == name {
            Some(id)
        } else {
            artist_id(entries, other)
        },
{
    let e = ArtistEntryView { name, id };
    let keys = names_of(entries);
    let after = with_artist(entries, name, id);
    lemma_first_index(keys, name);
    lemma_first_index(keys, other);
    match first_index(keys, name) {
        Some(k) => {
            assert(names_of(after) =~= keys);
        },
        None => {
            assert(names_of(after) =~= keys.push(name));
            if other == name {
                lemma_first_index_is(keys.push(name), name, keys.len() as int);
            } else {
                match first_index(keys, other) {
                    Some(j) => {
                        lemma_first_index_is(keys.push(name), other, j);
                    },
                    None => {
                        lemma_first_index(keys.push(name), other);
                        if keys.push(name).contains(other) {
                            let i = choose|i: int|
                                0 <= i < keys.push(name).len() && keys.push(name)[i] == other;
                            if i < keys.len() {
                                assert(keys.contains(other));
                            }
                        }
                    },
                }
            }
        },
    }
}

/// The position of the first artist of `entries` called `name`.
fn find_name(entries: &Vec<ArtistEntry>, name: &str) -> (r: Option<usize>)
    ensures
        r is Some <==> first_index(names_of(views(entries@)), name@) is Some,
        r matches Some(k) ==> k < entries.len() && first_index(
            names_of(views(entries@)),
            name@,
        ) == Some(k as int),
{
    let wanted: String = name.to_owned();
    let mut i: usize = 0;
    while i < entries.len()
        invariant
            i <= entries.len(),
            wanted@ == name@,
            index_from(names_of(views(entries@)), name@, 0) == index_from(
                names_of(views(entries@)),
                name@,
                i as int,
            ),
        decreases entries.len() - i,
    {
        if same_text(&entries[i].name, &wanted) {
            return Some(i);
        }
        i += 1;
    }
    None
}

/// The artists of the catalog, each name with its identifier.
pub struct ExistingArtists {
    entries: Vec<ArtistEntry>,
}

impl View for ExistingArtists {
    type V = Seq<ArtistEntryView>;

    closed spec fn view(&self) -> Seq<ArtistEntryView> {
        views(self.entries@)
    }
}

impl ExistingArtists {
    /// No name occurs twice.
    pub open spec fn wf(&self) -> bool {
        names_of(self@).no_duplicates()
    }

    /// No artist at all.
    pub fn new() -> (r: ExistingArtists)
        ensures
            r@ == Seq::<ArtistEntryView>::empty(),
            r.wf(),
    {
        let r = ExistingArtists { entries: Vec::new() };
        assert(r@ =~= Seq::empty());
        r
    }

    /// The identifier of the artist called `name`.
    pub fn get(&self, name: &str) -> (r: Option<u128>)
        ensures
            r == artist_id(self@, name@),
    {
        match find_name(&self.entries, name) {
            Some(k) => Some(self.entries[k].id),
            None => None,
        }
    }

    /// Gives the artist called `name` the identifier `id`.
    pub fn insert(&mut self, name: String, id: u128)
        ensures
            final(self)@ == with_artist(old(self)@, name@, id),
            old(self).wf() ==> final(self).wf(),
    {
        proof {
            if old(self).wf() {
                lemma_with_artist_distinct(old(self)@, name@, id);
            }
        }
        let ghost before = self.entries@;
        let ghost e = ArtistEntryView { name: name@, id };
        match find_name(&self.entries, name.as_str()) {
            Some(k) => {
                self.entries.set(k, ArtistEntry { name, id });
                assert(views(self.entries@) =~= views(before).update(k as int, e));
            },
            None => {
                self.entries.push(ArtistEntry { name, id });
                assert(views(self.entries@) =~= views(before).push(e));
            },
        }
    }

    /// A copy of these artists.
    pub fn duplicate(&self) -> (r: ExistingArtists)
        ensures
            r@ == self@,
    {
        let mut entries: Vec<ArtistEntry> = Vec::new();
        let mut i: usize = 0;
        while i < self.entries.len()
            invariant
                i <= self.entries.len(),
                views(entries@) == views(self.entries@).take(i as int),
            decreases self.entries.len() - i,
        {
            let ghost before = entries@;
            let copy = ArtistEntry { name: self.entries[i].name.clone(), id: self.entries[i].id };
            assert(copy@ == self.entries@[i as int]@);
            entries.push(copy);
            assert(views(entries@) =~= views(before).push(self.entries@[i as int]@));
            assert(views(entries@) =~= views(self.entries@).take(i + 1));
            i += 1;
        }
        assert(views(self.entries@).take(self.entries.len() as int) =~= views(self.entries@));
        ExistingArtists { entries }
    }
}

/// One row of the artist table: the identifier in its text form, and the
/// name.
#[derive(Debug)]
pub struct ArtistRow {
    pub id: String,
    pub name: String,
}

/// The view of [`ArtistRow`]: its strings and lists as sequences.
pub struct ArtistRowView {
    pub id: Seq<char>,
    pub name: Seq<char>,
}

impl View for ArtistRow {
    type V = ArtistRowView;

    open spec fn view(&self) -> ArtistRowView {
        ArtistRowView { id: self.id@, name: self.name@ }
    }
}

/// One row of the file table: the identifier in its text form, the path and
/// the stored content hash.
#[derive(Debug)]
pub struct FileRow {
    pub id: String,
    pub path: String,
    pub hash: Vec<u8>,
}

/// The view of [`FileRow`]: its strings and lists as sequences.
pub struct FileRowView {
    pub id: Seq<char>,
    pub path: Seq<char>,
    pub hash: Seq<u8>,
}

impl View for FileRow {
    type V = FileRowView;

    open spec fn view(&self) -> FileRowView {
        FileRowView { id: self.id@, path: self.path@, hash: self.hash@ }
    }
}

/// The artists that a list of rows gives: each row whose identifier reads as
/// one names its artist; a later row for a name replaces the earlier
/// identifier; every other row is passed over.
pub open spec fn loaded_artists(rows: Seq<ArtistRowView>) -> Seq<ArtistEntryView>
    decreases rows.len(),
{
    if rows.len() == 0 {
        Seq::empty()
    } else {
        let before = loaded_artists(rows.drop_last());
        match uuid_of_text(rows.last().id) {
            Some(id) => with_artist(before, rows.last().name, id),
            None => before,
        }
    }
}

/// The files that a list of rows gives: each row whose identifier reads as
/// one and whose hash has 32 bytes is loaded; every other row is passed
/// over.
pub open spec fn loaded_files(rows: Seq<FileRowView>) -> ExistingFilesView
    decreases rows.len(),
{
    if rows.len() == 0 {
        ExistingFilesView::empty()
    } else {
        let before = loaded_files(rows.drop_last());
        match uuid_of_text(rows.last().id) {
            Some(id) => if rows.last().hash.len() == 32 {
                before.inserted(id, rows.last().path, rows.last().hash)
            } else {
                before
            },
            None => before,
        }
    }
}

/// Builds the artists by name from the rows of the artist table.
pub fn load_existing_artists(rows: &Vec<ArtistRow>) -> (r: ExistingArtists)
    ensures
        r@ == loaded_artists(views(rows@)),
        r.wf(),
{
    let mut r = ExistingArtists::new();
    let mut i: usize = 0;
    assert(views(rows@).take(0) =~= Seq::empty());
    while i < rows.len()
        invariant
            i <= rows.len(),
            r@ == loaded_artists(views(rows@).take(i as int)),
            r.wf(),
        decreases rows.len() - i,
    {
        let row = &rows[i];
        proof {
            let all = views(rows@);
            assert(all.take(i + 1).drop_last() =~= all.take(i as int));
            assert(all.take(i + 1).last() == row@);
        }
        match parse_uuid(row.id.as_str()) {
            Some(id) => {
                r.insert(row.name.clone(), id);
            },
            None => {},
        }
        i += 1;
    }
    assert(views(rows@).take(rows.len() as int) =~= views(rows@));
    r
}

/// The 32 bytes of a stored hash, if it has exactly that many.
fn hash_from_blob(blob: &Vec<u8>) -> (r: Option<[u8; 32]>)
    ensures
        r is Some <==> blob@.len() == 32,
        r matches Some(h) ==> h@ == blob@,
{
    if blob.len() != 32 {
        return None;
    }
    let mut h: [u8; 32] = [0u8;32];
    let mut i: usize = 0;
    while i < 32
        invariant
            i <= 32,
            blob@.len() == 32,
            forall|k: int| 0 <= k < i ==> h@[k] == blob@[k],
        decreases 32 - i,
    {
        h[i] = blob[i];
        i += 1;
    }
    assert(h@ =~= blob@);
    Some(h)
}

/// Builds the files by path and by content from the rows of the file table
/// that are not deleted.
pub fn load_existing_files(rows: &Vec<FileRow>) -> (r: ExistingFiles)
    ensures
        r@ == loaded_files(views(rows@)),
        r@.wf(),
{
    let mut r = ExistingFiles::new();
    let mut i: usize = 0;
    assert(views(rows@).take(0) =~= Seq::empty());
    while i < rows.len()
        invariant
            i <= rows.len(),
            r@ == loaded_files(views(rows@).take(i as int)),
            r@.wf(),
        decreases rows.len() - i,
    {
        let row = &rows[i];
        proof {
            let all = views(rows@);
            assert(all.take(i + 1).drop_last() =~= all.take(i as int));
            assert(all.take(i + 1).last() == row@);
        }
        match parse_uuid(row.id.as_str()) {
            Some(id) => {
                match hash_from_blob(&row.hash) {
                    Some(hash) => {
                        r.insert(id, row.path.clone(), hash);
                    },
                    None => {},
                }
            },
            None => {},
        }
        i += 1;
    }
    assert(views(rows@).take(rows.len() as int) =~= views(rows@));
    r
}

} // verus!
