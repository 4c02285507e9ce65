use collectune::metadata::{
    assemble_tags_in_year, assemble_tags_into_metadata, parse_tag_value_into_u8,
    parse_tag_value_into_year, Tag, TagKey, TagValue,
};

fn text(key: TagKey, value: &str) -> Tag {
    Tag { std_key: Some(key), value: TagValue::String(value.to_string()) }
}

fn s(value: &str) -> TagValue {
    TagValue::String(value.to_string())
}

#[test]
fn number_from_text() {
    assert_eq!(parse_tag_value_into_u8(&s("3")), Some(3));
    assert_eq!(parse_tag_value_into_u8(&s("3/12")), Some(3));
    assert_eq!(parse_tag_value_into_u8(&s("12")), Some(12));
    assert_eq!(parse_tag_value_into_u8(&s("007")), Some(7));
    assert_eq!(parse_tag_value_into_u8(&s("track 9 of 10")), Some(9));
    assert_eq!(parse_tag_value_into_u8(&s("0")), Some(0));
    assert_eq!(parse_tag_value_into_u8(&s("255")), Some(255));
    assert_eq!(parse_tag_value_into_u8(&s("-4")), Some(4));
    assert_eq!(parse_tag_value_into_u8(&s("é7")), Some(7));
}

#[test]
fn number_from_text_out_of_range() {
    assert_eq!(parse_tag_value_into_u8(&s("256")), None);
    assert_eq!(parse_tag_value_into_u8(&s("0000300")), None);
    assert_eq!(parse_tag_value_into_u8(&s("99999999999999999999999999")), None);
    assert_eq!(parse_tag_value_into_u8(&s("2560")), None);
    assert_eq!(parse_tag_value_into_u8(&s("1000/3")), None);
}

#[test]
fn number_from_text_without_digits() {
    assert_eq!(parse_tag_value_into_u8(&s("")), None);
    assert_eq!(parse_tag_value_into_u8(&s("abc")), None);
    assert_eq!(parse_tag_value_into_u8(&s("\u{661}\u{662}")), None);
}

#[test]
fn number_from_numeric_values() {
    assert_eq!(parse_tag_value_into_u8(&TagValue::Float(3)), Some(3));
    assert_eq!(parse_tag_value_into_u8(&TagValue::Float(-1)), None);
    assert_eq!(parse_tag_value_into_u8(&TagValue::Float(256)), None);
    assert_eq!(parse_tag_value_into_u8(&TagValue::SignedInt(0)), Some(0));
    assert_eq!(parse_tag_value_into_u8(&TagValue::SignedInt(255)), Some(255));
    assert_eq!(parse_tag_value_into_u8(&TagValue::SignedInt(-1)), None);
    assert_eq!(parse_tag_value_into_u8(&TagValue::SignedInt(i64::MIN)), None);
    assert_eq!(parse_tag_value_into_u8(&TagValue::UnsignedInt(17)), Some(17));
    assert_eq!(parse_tag_value_into_u8(&TagValue::UnsignedInt(256)), None);
    assert_eq!(parse_tag_value_into_u8(&TagValue::UnsignedInt(u64::MAX)), None);
}

#[test]
fn number_from_other_values() {
    assert_eq!(parse_tag_value_into_u8(&TagValue::Binary), None);
    assert_eq!(parse_tag_value_into_u8(&TagValue::Boolean), None);
    assert_eq!(parse_tag_value_into_u8(&TagValue::Flag), None);
}

#[test]
fn year_from_text() {
    assert_eq!(parse_tag_value_into_year(&s("2001"), 2026), Some(2001));
    assert_eq!(parse_tag_value_into_year(&s("2001-05-01"), 2026), Some(2001));
    assert_eq!(parse_tag_value_into_year(&s("19991231"), 2026), Some(1999));
    assert_eq!(parse_tag_value_into_year(&s("abc 1999 def"), 2026), Some(1999));
    assert_eq!(parse_tag_value_into_year(&s("(c) 1975"), 2026), Some(1975));
}

#[test]
fn year_range_is_after_1860_and_up_to_next_year() {
    assert_eq!(parse_tag_value_into_year(&s("1860"), 2026), None);
    assert_eq!(parse_tag_value_into_year(&s("1861"), 2026), Some(1861));
    assert_eq!(parse_tag_value_into_year(&s("2026"), 2026), Some(2026));
    assert_eq!(parse_tag_value_into_year(&s("2027"), 2026), Some(2027));
    assert_eq!(parse_tag_value_into_year(&s("2028"), 2026), None);
    assert_eq!(parse_tag_value_into_year(&s("0001"), 2026), None);
    assert_eq!(parse_tag_value_into_year(&s("9999"), 2026), None);
    assert_eq!(parse_tag_value_into_year(&s("1900"), 1850), None);
    assert_eq!(parse_tag_value_into_year(&s("1861"), 1860), Some(1861));
    assert_eq!(parse_tag_value_into_year(&s("2001"), -44), None);
    assert_eq!(parse_tag_value_into_year(&s("2001"), i16::MAX), Some(2001));
    assert_eq!(parse_tag_value_into_year(&TagValue::UnsignedInt(40000), i16::MAX), None);
    assert_eq!(parse_tag_value_into_year(&TagValue::UnsignedInt(32768), i16::MAX), Some(32768));
}

#[test]
fn year_needs_four_digits_in_a_row() {
    assert_eq!(parse_tag_value_into_year(&s("199"), 2026), None);
    assert_eq!(parse_tag_value_into_year(&s("20 01"), 2026), None);
    assert_eq!(parse_tag_value_into_year(&s("1-2-2001"), 2026), None);
    assert_eq!(parse_tag_value_into_year(&s("20a1"), 2026), None);
    assert_eq!(parse_tag_value_into_year(&s(""), 2026), None);
    assert_eq!(parse_tag_value_into_year(&s("none"), 2026), None);
}

#[test]
fn year_text_with_other_scripts_is_refused_not_fatal() {
    assert_eq!(parse_tag_value_into_year(&s("123é"), 2026), None);
    assert_eq!(parse_tag_value_into_year(&s("12é4"), 2026), None);
    assert_eq!(parse_tag_value_into_year(&s("é2001"), 2026), Some(2001));
    assert_eq!(parse_tag_value_into_year(&s("1é"), 2026), None);
}

#[test]
fn year_from_numeric_values() {
    assert_eq!(parse_tag_value_into_year(&TagValue::UnsignedInt(2001), 2026), Some(2001));
    assert_eq!(parse_tag_value_into_year(&TagValue::SignedInt(1999), 2026), Some(1999));
    assert_eq!(parse_tag_value_into_year(&TagValue::Float(1984), 2026), Some(1984));
    assert_eq!(parse_tag_value_into_year(&TagValue::SignedInt(-5), 2026), None);
    assert_eq!(parse_tag_value_into_year(&TagValue::UnsignedInt(70000), 2026), None);
    assert_eq!(parse_tag_value_into_year(&TagValue::UnsignedInt(1860), 2026), None);
    assert_eq!(parse_tag_value_into_year(&TagValue::Float(i64::MAX), 2026), None);
    assert_eq!(parse_tag_value_into_year(&TagValue::Binary, 2026), None);
    assert_eq!(parse_tag_value_into_year(&TagValue::Boolean, 2026), None);
    assert_eq!(parse_tag_value_into_year(&TagValue::Flag, 2026), None);
}

#[test]
fn assembly_of_plain_tags() {
    let tags = vec![
        text(TagKey::TrackTitle, "One"),
        text(TagKey::Artist, "X"),
        text(TagKey::Album, "A"),
        text(TagKey::TrackNumber, "1"),
        text(TagKey::Date, "2001"),
        text(TagKey::Genre, "Jazz"),
        text(TagKey::DiscNumber, "2/3"),
    ];
    let m = assemble_tags_in_year(&tags, 2026);
    assert_eq!(m.title, "One");
    assert_eq!(m.album, "A");
    assert_eq!(m.genre, "Jazz");
    assert_eq!(m.track_number, Some(1));
    assert_eq!(m.disc_number, Some(2));
    assert_eq!(m.year, Some(2001));
    assert_eq!(m.artists.len(), 1);
    assert_eq!(m.artists[0].artist, "X");
    assert_eq!(m.artists[0].role, None);
}

#[test]
fn assembly_of_no_tags() {
    let m = assemble_tags_in_year(&Vec::new(), 2026);
    assert_eq!(m.title, "");
    assert_eq!(m.album, "");
    assert_eq!(m.genre, "");
    assert_eq!(m.track_number, None);
    assert_eq!(m.disc_number, None);
    assert_eq!(m.year, None);
    assert!(m.artists.is_empty());
}

#[test]
fn assembly_joins_distinct_values_in_order_of_first_occurrence() {
    let tags = vec![
        text(TagKey::Genre, "Rock"),
        text(TagKey::Artist, "B"),
        text(TagKey::Genre, "Pop"),
        text(TagKey::Artist, "A"),
        text(TagKey::Genre, "Rock"),
        text(TagKey::Artist, "B"),
        text(TagKey::Artist, "C"),
        text(TagKey::TrackTitle, "T"),
        text(TagKey::TrackTitle, "U"),
        text(TagKey::Album, "L"),
        text(TagKey::Album, "L"),
    ];
    let m = assemble_tags_in_year(&tags, 2026);
    assert_eq!(m.genre, "Rock, Pop");
    assert_eq!(m.title, "T, U");
    assert_eq!(m.album, "L");
    let names: Vec<&str> = m.artists.iter().map(|a| a.artist.as_str()).collect();
    assert_eq!(names, vec!["B", "A", "C"]);
    assert!(m.artists.iter().all(|a| a.role.is_none()));
}

#[test]
fn assembly_takes_the_first_value_that_parses() {
    let tags = vec![
        text(TagKey::Date, "unknown"),
        text(TagKey::Date, "1850"),
        text(TagKey::Date, "1999-01-01"),
        text(TagKey::Date, "2005"),
        text(TagKey::TrackNumber, "x"),
        text(TagKey::TrackNumber, "300"),
        Tag { std_key: Some(TagKey::TrackNumber), value: TagValue::UnsignedInt(4) },
        text(TagKey::TrackNumber, "5"),
        Tag { std_key: Some(TagKey::DiscNumber), value: TagValue::Flag },
        Tag { std_key: Some(TagKey::DiscNumber), value: TagValue::Float(2) },
    ];
    let m = assemble_tags_in_year(&tags, 2026);
    assert_eq!(m.year, Some(1999));
    assert_eq!(m.track_number, Some(4));
    assert_eq!(m.disc_number, Some(2));
}

#[test]
fn assembly_passes_over_what_it_does_not_read() {
    let tags = vec![
        Tag { std_key: None, value: TagValue::String("free".to_string()) },
        Tag { std_key: Some(TagKey::Other), value: TagValue::String("other".to_string()) },
        Tag { std_key: Some(TagKey::Artist), value: TagValue::UnsignedInt(7) },
        Tag { std_key: Some(TagKey::TrackTitle), value: TagValue::Binary },
        Tag { std_key: Some(TagKey::Album), value: TagValue::Boolean },
        Tag { std_key: Some(TagKey::Genre), value: TagValue::Flag },
        text(TagKey::Artist, ""),
    ];
    let m = assemble_tags_in_year(&tags, 2026);
    assert_eq!(m.title, "");
    assert_eq!(m.album, "");
    assert_eq!(m.genre, "");
    assert_eq!(m.artists.len(), 1);
    assert_eq!(m.artists[0].artist, "");
}

#[test]
fn assembly_is_repeatable() {
    let tags = vec![
        text(TagKey::TrackTitle, "One"),
        text(TagKey::Artist, "X"),
        text(TagKey::Artist, "Y"),
        text(TagKey::Date, "2001"),
    ];
    let a = assemble_tags_in_year(&tags, 2026);
    let b = assemble_tags_in_year(&tags, 2026);
    assert_eq!(format!("{:?}", a), format!("{:?}", b));
}

#[test]
fn assembly_reads_the_clock_for_the_year_range() {
    let tags =
        vec![text(TagKey::Date, "9999"), text(TagKey::Date, "1700"), text(TagKey::Date, "2001")];
    let m = assemble_tags_into_metadata(&tags);
    assert_eq!(m.year, Some(2001));
    let far = vec![text(TagKey::Date, "9999"), text(TagKey::TrackTitle, "T")];
    let m = assemble_tags_into_metadata(&far);
    assert_eq!(m.year, None);
    assert_eq!(m.title, "T");
}
