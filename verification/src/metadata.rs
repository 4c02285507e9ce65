//! Tag assembly: from the tags a decoder reports to the metadata of a track.

use vstd::prelude::*;
use crate::clock::current_year;
use crate::text::{
    chars_equal, chars_of, char_is_digit, contains_text, decimal_value, digit_from, is_digit,
    all_digits, join_comma, join_with_comma, lower_seq, lowered, run_end, texts,
};
use crate::types::{
    views, TrackArtistMetadata, TrackArtistView, TrackMetadata, TrackMetadataView,
};

verus! {

/// The canonical format name of a file extension, compared without regard to
/// ASCII case; `None` for an extension that names no supported format.
pub open spec fn format_of(ext: Seq<char>) -> Option<Seq<char>> {
    let e = lower_seq(ext);
    if e == "aac"@ {
        Some("aac"@)
    } else if e == "aif"@ || e == "aiff"@ {
        Some("aiff"@)
    } else if e == "alac"@ {
        Some("alac"@)
    } else if e == "ape"@ {
        Some("ape"@)
    } else if e == "flac"@ {
        Some("flac"@)
    } else if e == "m4a"@ {
        Some("mp4"@)
    } else if e == "mp3"@ {
        Some("mp3"@)
    } else if e == "ogg"@ {
        Some("ogg"@)
    } else if e == "opus"@ {
        Some("opus"@)
    } else if e == "wav"@ {
        Some("wav"@)
    } else if e == "wma"@ {
        Some("wma"@)
    } else if e == "wv"@ {
        Some("wv"@)
    } else {
        None
    }
}

/// Maps a file extension to the catalog's format name.
pub fn extension_to_format(ext: &str) -> (r: Option<&'static str>)
    ensures
        r is Some <==> format_of(ext@) is Some,
        r matches Some(f) ==> Some(f@) == format_of(ext@),
{
    let e = lowered(ext);
    if chars_equal(&e, "aac") {
        Some("aac")
    } else if chars_equal(&e, "aif") || chars_equal(&e, "aiff") {
        Some("aiff")
    } else if chars_equal(&e, "alac") {
        Some("alac")
    } else if chars_equal(&e, "ape") {
        Some("ape")
    } else if chars_equal(&e, "flac") {
        Some("flac")
    } else if chars_equal(&e, "m4a") {
        Some("mp4")
    } else if chars_equal(&e, "mp3") {
        Some("mp3")
    } else if chars_equal(&e, "ogg") {
        Some("ogg")
    } else if chars_equal(&e, "opus") {
        Some("opus")
    } else if chars_equal(&e, "wav") {
        Some("wav")
    } else if chars_equal(&e, "wma") {
        Some("wma")
    } else if chars_equal(&e, "wv") {
        Some("wv")
    } else {
        None
    }
}

/// The standard tag keys that take part in the metadata of a track; every
/// other standard key is `Other`.
#[derive(Debug, Clone, Copy, PartialEq, Eq)]
pub enum TagKey {
    Artist,
    TrackTitle,
    Album,
    Genre,
    Date,
    TrackNumber,
    DiscNumber,
    Other,
}

/// The value of a tag. `Float` holds the number truncated toward zero;
/// binary, boolean and flag values carry nothing that the rules read.
#[derive(Debug)]
pub enum TagValue {
    Binary,
    Boolean,
    Flag,
    Float(i64),
    SignedInt(i64),
    UnsignedInt(u64),
    String(String),
}

/// The view of [`TagValue`]: its strings and lists as sequences.
pub enum TagValueView {
    Binary,
    Boolean,
    Flag,
    Float(i64),
    SignedInt(i64),
    UnsignedInt(u64),
    String(Seq<char>),
}

impl View for TagValue {
    type V = TagValueView;

    open spec fn view(&self) -> TagValueView {
        match *self {
            TagValue::Binary => TagValueView::Binary,
            TagValue::Boolean => TagValueView::Boolean,
            TagValue::Flag => TagValueView::Flag,
            TagValue::Float(v) => TagValueView::Float(v),
            TagValue::SignedInt(v) => TagValueView::SignedInt(v),
            TagValue::UnsignedInt(v) => TagValueView::UnsignedInt(v),
            TagValue::String(s) => TagValueView::String(s@),
        }
    }
}

/// One tag as a decoder reports it: its standard key, if it has one, and its
/// value.
#[derive(Debug)]
pub struct Tag {
    pub std_key: Option<TagKey>,
    pub value: TagValue,
}

/// The view of [`Tag`]: its strings and lists as sequences.
pub struct TagView {
    pub std_key: Option<TagKey>,
    pub value: TagValueView,
}

impl View for Tag {
    type V = TagView;

    open spec fn view(&self) -> TagView {
        TagView { std_key: self.std_key, value: self.value@ }
    }
}

/// The views of a list of tags.
pub open spec fn tag_views(tags: Seq<Tag>) -> Seq<TagView> {
    tags.map_values(|t: Tag| t@)
}

/// The number that a text begins to spell: the decimal value of the run of
/// ASCII digits that starts at its first digit. `None` for a text without a
/// digit.
pub open spec fn leading_number(s: Seq<char>) -> Option<nat> {
    match digit_from(s, 0) {
        None => None,
        Some(start) => Some(decimal_value(s.subrange(start, run_end(s, start)))),
    }
}

/// The number that a text spells with the four characters from its first
/// ASCII digit on (fewer where the text ends before): their decimal value if
/// all of them are digits.
pub open spec fn leading_year(s: Seq<char>) -> Option<nat> {
    match digit_from(s, 0) {
        None => None,
        Some(start) => {
            let end = if start + 4 <= s.len() {
                start + 4
            } else {
                s.len() as int
            };
            let run = s.subrange(start, end);
            if all_digits(run) {
                Some(decimal_value(run))
            } else {
                None
            }
        },
    }
}

/// The number that a tag value stands for, before any range is applied.
pub open spec fn tag_number(value: TagValueView, as_year: bool) -> Option<int> {
    match value {
        TagValueView::Binary | TagValueView::Boolean | TagValueView::Flag => None,
        TagValueView::Float(v) => Some(v as int),
        TagValueView::SignedInt(v) => Some(v as int),
        TagValueView::UnsignedInt(v) => Some(v as int),
        TagValueView::String(s) => {
            let n = if as_year {
                leading_year(s)
            } else {
                leading_number(s)
            };
            match n {
                Some(n) => Some(n as int),
                None => None,
            }
        },
    }
}

/// The track or disc number of a tag value: its number, if that fits a `u8`.
pub open spec fn tag_u8(value: TagValueView) -> Option<u8> {
    match tag_number(value, false) {
        Some(n) => if 0 <= n <= 255 {
            Some(n as u8)
        } else {
            None
        },
        None => None,
    }
}

/// The year of a tag value: its number, if that lies after 1860 and not after
/// the year that follows `current_year`.
pub open spec fn tag_year(value: TagValueView, current_year: i16) -> Option<u16> {
    match tag_number(value, true) {
        Some(n) => if 1860 < n <= current_year + 1 {
            Some(n as u16)
        } else {
            None
        },
        None => None,
    }
}

/// The position of the first ASCII digit of `v`, if it has one.
fn find_digit(v: &Vec<char>) -> (r: Option<usize>)
    ensures
        r.is_some() <==> digit_from(v@, 0).is_some(),
        r matches Some(i) ==> digit_from(v@, 0) == Some(i as int) && i < v.len() && is_digit(
            v@[i as int],
        ),
{
    let mut i: usize = 0;
    while i < v.len()
        invariant
            i <= v.len(),
            digit_from(v@, 0) == digit_from(v@, i as int),
        decreases v.len() - i,
    {
        if char_is_digit(v[i]) {
            return Some(i);
        }
        i += 1;
    }
    None
}

/// The value of one ASCII digit.
fn digit_value(c: char) -> (r: u32)
    requires
        is_digit(c),
    ensures
        r == c as u32 - '0' as u32,
        r <= 9,
{
    c as u32 - '0' as u32
}

/// Reads the number a text begins to spell, if it is at most 255.
fn parse_leading_u8(s: &str) -> (r: Option<u8>)
    ensures
        r == tag_u8(TagValueView::String(s@)),
{
    let v = chars_of(s);
    match find_digit(&v) {
        None => None,
        Some(start) => {
            // `acc` follows the value of the run while that is at most 255, and
            // rests at 256 once the value has passed it.
            let mut acc: u32 = 0;
            let mut i: usize = start;
            while i < v.len() && char_is_digit(v[i])
                invariant
                    start <= i <= v.len(),
                    run_end(v@, start as int) == run_end(v@, i as int),
                    acc <= 256,
                    acc <= 255 ==> acc == decimal_value(v@.subrange(start as int, i as int)),
                    acc == 256 ==> decimal_value(v@.subrange(start as int, i as int)) > 255,
                decreases v.len() - i,
            {
                let d = digit_value(v[i]);
                assert(v@.subrange(start as int, i + 1).drop_last() =~= v@.subrange(
                    start as int,
                    i as int,
                ));
                assert(v@.subrange(start as int, i + 1).last() == v@[i as int]);
                if acc <= 25 {
                    acc = acc * 10 + d;
                    if acc > 255 {
                        acc = 256;
                    }
                } else {
                    acc = 256;
                }
                i += 1;
            }
            assert(run_end(v@, start as int) == i);
            if acc <= 255 {
                Some(acc as u8)
            } else {
                None
            }
        },
    }
}

/// Reads the year a text spells with the four characters from its first
/// digit on.
fn parse_leading_year(s: &str) -> (r: Option<u16>)
    ensures
        r.is_some() <==> leading_year(s@).is_some(),
        r matches Some(y) ==> leading_year(s@) == Some(y as nat),
{
    let v = chars_of(s);
    match find_digit(&v) {
        None => None,
        Some(start) => {
            let end: usize = if v.len() - start >= 4 {
                start + 4
            } else {
                v.len()
            };
            let mut acc: u16 = 0;
            let mut i: usize = start;
            while i < end
                invariant
                    v@ == s@,
                    digit_from(v@, 0) == Some(start as int),
                    start <= i <= end <= v.len(),
                    end == if start + 4 <= v.len() { start + 4 } else { v.len() as int },
                    all_digits(v@.subrange(start as int, i as int)),
                    acc == decimal_value(v@.subrange(start as int, i as int)),
                    i - start == 0 ==> acc == 0,
                    i - start == 1 ==> acc <= 9,
                    i - start == 2 ==> acc <= 99,
                    i - start == 3 ==> acc <= 999,
                    i - start == 4 ==> acc <= 9999,
                decreases end - i,
            {
                if !char_is_digit(v[i]) {
                    assert(!all_digits(v@.subrange(start as int, end as int))) by {
                        assert(v@.subrange(start as int, end as int)[i - start] == v@[i as int]);
                    }
                    return None;
                }
                let d = digit_value(v[i]);
                assert(v@.subrange(start as int, i + 1).drop_last() =~= v@.subrange(
                    start as int,
                    i as int,
                ));
                assert(v@.subrange(start as int, i + 1).last() == v@[i as int]);
                assert(all_digits(v@.subrange(start as int, i + 1))) by {
                    assert forall|k: int| 0 <= k < i + 1 - start implies is_digit(
                        #[trigger] v@.subrange(start as int, i + 1)[k],
                    ) by {
                        if k < i - start {
                            assert(v@.subrange(start as int, i as int)[k] == v@.subrange(
                                start as int,
                                i + 1,
                            )[k]);
                        }
                    }
                }
                acc = acc * 10 + d as u16;
                i += 1;
            }
            Some(acc)
        },
    }
}

/// Reads a track or disc number from a tag value.
pub fn parse_tag_value_into_u8(value: &TagValue) -> (r: Option<u8>)
    ensures
        r == tag_u8(value@),
{
    match value {
        TagValue::Binary | TagValue::Boolean | TagValue::Flag => None,
        TagValue::Float(v) => if 0 <= *v && *v <= 255 {
            Some(*v as u8)
        } else {
            None
        },
        TagValue::SignedInt(v) => if 0 <= *v && *v <= 255 {
            Some(*v as u8)
        } else {
            None
        },
        TagValue::UnsignedInt(v) => if *v <= 255 {
            Some(*v as u8)
        } else {
            None
        },
        TagValue::String(s) => parse_leading_u8(s.as_str()),
    }
}

/// Whether `n` lies after 1860 and not after the year that follows
/// `current_year`.
fn year_in_range(n: u16, current_year: i16) -> (r: bool)
    ensures
        r == (1860 < n <= current_year + 1),
{
    n > 1860 && (n as i32) <= (current_year as i32) + 1
}

/// Reads a release year from a tag value, given the current year.
pub fn parse_tag_value_into_year(value: &TagValue, current_year: i16) -> (r: Option<u16>)
    ensures
        r == tag_year(value@, current_year),
{
    let n: Option<u16> = match value {
        TagValue::Binary | TagValue::Boolean | TagValue::Flag => None,
        TagValue::Float(v) => if 0 <= *v && *v <= 65535 {
            Some(*v as u16)
        } else {
            None
        },
        TagValue::SignedInt(v) => if 0 <= *v && *v <= 65535 {
            Some(*v as u16)
        } else {
            None
        },
        TagValue::UnsignedInt(v) => if *v <= 65535 {
            Some(*v as u16)
        } else {
            None
        },
        TagValue::String(s) => parse_leading_year(s.as_str()),
    };
    match n {
        Some(y) => if year_in_range(y, current_year) {
            Some(y)
        } else {
            None
        },
        None => None,
    }
}

/// The distinct text values of the tags with standard key `key`, each at the
/// place of its first occurrence.
pub open spec fn collected(tags: Seq<TagView>, key: TagKey) -> Seq<Seq<char>>
    decreases tags.len(),
{
    if tags.len() == 0 {
        Seq::empty()
    } else {
        let before = collected(tags.drop_last(), key);
        match tags.last().value {
            TagValueView::String(s) => if tags.last().std_key == Some(key) && !before.contains(s) {
                before.push(s)
            } else {
                before
            },
            _ => before,
        }
    }
}

/// The number of the first tag with standard key `key` whose value gives a
/// number that fits a `u8`.
pub open spec fn first_u8(tags: Seq<TagView>, key: TagKey) -> Option<u8>
    decreases tags.len(),
{
    if tags.len() == 0 {
        None
    } else {
        match first_u8(tags.drop_last(), key) {
            Some(n) => Some(n),
            None => if tags.last().std_key == Some(key) {
                tag_u8(tags.last().value)
            } else {
                None
            },
        }
    }
}

/// The year of the first `Date` tag whose value gives a year in range.
pub open spec fn first_year(tags: Seq<TagView>, current_year: i16) -> Option<u16>
    decreases tags.len(),
{
    if tags.len() == 0 {
        None
    } else {
        match first_year(tags.drop_last(), current_year) {
            Some(y) => Some(y),
            None => if tags.last().std_key == Some(TagKey::Date) {
                tag_year(tags.last().value, current_year)
            } else {
                None
            },
        }
    }
}

/// The artists of a track, one per name, none with a role.
pub open spec fn artists_named(names: Seq<Seq<char>>) -> Seq<TrackArtistView> {
    names.map_values(|n: Seq<char>| TrackArtistView { artist: n, role: None })
}

/// The metadata that a list of tags stands for in the year `current_year`.
pub open spec fn metadata_of(tags: Seq<TagView>, current_year: i16) -> TrackMetadataView {
    TrackMetadataView {
        title: join_comma(collected(tags, TagKey::TrackTitle)),
        track_number: first_u8(tags, TagKey::TrackNumber),
        disc_number: first_u8(tags, TagKey::DiscNumber),
        genre: join_comma(collected(tags, TagKey::Genre)),
        album: join_comma(collected(tags, TagKey::Album)),
        year: first_year(tags, current_year),
        artists: artists_named(collected(tags, TagKey::Artist)),
    }
}

/// Appends a text value to `container` unless it is there already; any other
/// value leaves `container` as it is.
fn append_string_value(value: &TagValue, container: &mut Vec<String>)
    ensures
        texts(final(container)@) == (match value@ {
            TagValueView::String(s) => if texts(old(container)@).contains(s) {
                texts(old(container)@)
            } else {
                texts(old(container)@).push(s)
            },
            _ => texts(old(container)@),
        }),
{
    if let TagValue::String(v) = value {
        if !contains_text(container, v) {
            let ghost before = container@;
            container.push(v.clone());
            assert(texts(container@) =~= texts(before).push(v@));
        }
    }
}

/// Wraps each name as an artist without a role.
fn artists_from(names: Vec<String>) -> (r: Vec<TrackArtistMetadata>)
    ensures
        views(r@) == artists_named(texts(names@)),
{
    let mut r: Vec<TrackArtistMetadata> = Vec::new();
    let mut i: usize = 0;
    while i < names.len()
        invariant
            i <= names.len(),
            r@.len() == i,
            forall|k: int| 0 <= k < i ==> (#[trigger] r@[k])@ == (TrackArtistView {
                artist: names@[k]@,
                role: None,
            }),
        decreases names.len() - i,
    {
        r.push(TrackArtistMetadata { artist: names[i].clone(), role: None });
        i += 1;
    }
    assert(views(r@) =~= artists_named(texts(names@)));
    r
}

/// Assembles the metadata of a track from its tags, given the current year:
/// titles, albums, genres and artists collect their distinct text values in
/// order of first occurrence; the year and the track and disc numbers come
/// from the first tag that yields one.
pub fn assemble_tags_in_year(tags: &Vec<Tag>, current_year: i16) -> (r: TrackMetadata)
    ensures
        r@ == metadata_of(tag_views(tags@), current_year),
{
    let mut artist_values: Vec<String> = Vec::new();
    let mut title_values: Vec<String> = Vec::new();
    let mut album_values: Vec<String> = Vec::new();
    let mut genre_values: Vec<String> = Vec::new();
    let mut date_value: Option<u16> = None;
    let mut track_number_value: Option<u8> = None;
    let mut disc_number_value: Option<u8> = None;

    let ghost all = tag_views(tags@);
    let mut i: usize = 0;
    while i < tags.len()
        invariant
            i <= tags.len(),
            all == tag_views(tags@),
            texts(artist_values@) == collected(all.take(i as int), TagKey::Artist),
            texts(title_values@) == collected(all.take(i as int), TagKey::TrackTitle),
            texts(album_values@) == collected(all.take(i as int), TagKey::Album),
            texts(genre_values@) == collected(all.take(i as int), TagKey::Genre),
            date_value == first_year(all.take(i as int), current_year),
            track_number_value == first_u8(all.take(i as int), TagKey::TrackNumber),
            disc_number_value == first_u8(all.take(i as int), TagKey::DiscNumber),
        decreases tags.len() - i,
    {
        let tag = &tags[i];
        proof {
            assert(all.take(i + 1).drop_last() =~= all.take(i as int));
            assert(all.take(i + 1).last() == tag@);
        }
        match tag.std_key {
            Some(TagKey::Artist) => append_string_value(&tag.value, &mut artist_values),
            Some(TagKey::TrackTitle) => append_string_value(&tag.value, &mut title_values),
            Some(TagKey::Album) => append_string_value(&tag.value, &mut album_values),
            Some(TagKey::Genre) => append_string_value(&tag.value, &mut genre_values),
            Some(TagKey::Date) => {
                if date_value.is_none() {
                    date_value = parse_tag_value_into_year(&tag.value, current_year);
                }
            },
            Some(TagKey::TrackNumber) => {
                if track_number_value.is_none() {
                    track_number_value = parse_tag_value_into_u8(&tag.value);
                }
            },
            Some(TagKey::DiscNumber) => {
                if disc_number_value.is_none() {
                    disc_number_value = parse_tag_value_into_u8(&tag.value);
                }
            },
            _ => {},
        }
        i += 1;
    }
    assert(all.take(tags.len() as int) =~= all);
    TrackMetadata {
        title: join_with_comma(&title_values),
        track_number: track_number_value,
        disc_number: disc_number_value,
        genre: join_with_comma(&genre_values),
        album: join_with_comma(&album_values),
        year: date_value,
        artists: artists_from(artist_values),
    }
}

/// The metadata that a list of tags stands for where no year is accepted.
pub open spec fn metadata_without_year(tags: Seq<TagView>) -> TrackMetadataView {
    TrackMetadataView { year: None, ..metadata_of(tags, 0) }
}

/// No year is in range where the current year is the least of all.
proof fn lemma_no_year_passes(tags: Seq<TagView>)
    ensures
        first_year(tags, i16::MIN) is None,
        metadata_of(tags, i16::MIN) == metadata_without_year(tags),
    decreases tags.len(),
{
    if tags.len() > 0 {
        lemma_no_year_passes(tags.drop_last());
    }
}

/// Assembles the metadata of a track from its tags, reading the current year
/// from the system clock. Where the clock cannot be read, no year is
/// accepted.
pub fn assemble_tags_into_metadata(tags: &Vec<Tag>) -> (r: TrackMetadata)
    ensures
        r@ == metadata_without_year(tag_views(tags@)) || exists|current_year: i16|
            -9999 <= current_year <= 9999 && r@ == metadata_of(tag_views(tags@), current_year),
{
    match current_year() {
        Some(y) => assemble_tags_in_year(tags, y),
        None => {
            proof {
                lemma_no_year_passes(tag_views(tags@));
            }
            assemble_tags_in_year(tags, i16::MIN)
        },
    }
}

} // verus!
