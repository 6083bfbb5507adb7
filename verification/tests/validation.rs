use archivist::error::ModelError;
use archivist::journal::Journal;
use archivist::model::{
    BlockElement, ContentDates, NonEmptySequence, SpanElement, Timestamp, UrlString,
};
use archivist::text::{EntryId, Identifier, Prose};

fn prose(s: &str) -> Prose {
    Prose::new(s.to_string()).unwrap()
}

fn entry_id(s: &str) -> EntryId {
    EntryId(Identifier::new(s.to_string()).unwrap())
}

fn timestamp() -> Timestamp {
    Timestamp::from_parts(2019, 4, 13, 20, 22, 1, 0).unwrap()
}

fn entry(title: &str) -> archivist::model::Entry {
    archivist::model::Entry {
        title: prose(title),
        subtitle: None,
        content_dates: ContentDates { created: timestamp(), last_modified: timestamp() },
        elements: NonEmptySequence::new(BlockElement::Paragraph(SpanElement::Text(prose("x")))),
    }
}

#[test]
fn empty_prose_is_rejected() {
    assert_eq!(Prose::new(String::new()).unwrap_err(), ModelError::InvalidProse);
}

#[test]
fn nonempty_prose_is_accepted() {
    assert_eq!(prose("hay sup").as_str(), "hay sup");
}

#[test]
fn empty_identifier_is_rejected() {
    assert_eq!(Identifier::new(String::new()).unwrap_err(), ModelError::InvalidIdentifier);
}

#[test]
fn whitespace_only_identifier_is_rejected() {
    assert_eq!(
        Identifier::new(" \t\n\u{a0} ".to_string()).unwrap_err(),
        ModelError::InvalidIdentifier
    );
}

#[test]
fn identifier_is_trimmed() {
    let id = Identifier::new("  wat \n".to_string()).unwrap();
    assert_eq!(id.as_str(), "wat");
}

#[test]
fn identifier_keeps_inner_whitespace() {
    let id = Identifier::new(" hay sup ".to_string()).unwrap();
    assert_eq!(id.as_str(), "hay sup");
}

#[test]
fn identifier_is_unicode_normalized() {
    let composed = Identifier::new("caf\u{e9}".to_string()).unwrap();
    let decomposed = Identifier::new("cafe\u{301}".to_string()).unwrap();
    assert_eq!(decomposed.as_str(), "caf\u{e9}");
    assert_eq!(composed, decomposed);
}

#[test]
fn identifier_construction_is_idempotent() {
    let once = Identifier::new(" cafe\u{301} ".to_string()).unwrap();
    let twice = Identifier::new(once.as_str().to_string()).unwrap();
    assert_eq!(once, twice);
}

#[test]
fn empty_sequence_is_rejected() {
    let r = NonEmptySequence::<u32>::from_vec(Vec::new());
    assert_eq!(r.unwrap_err(), ModelError::EmptySequence);
}

#[test]
fn nonempty_sequence_is_accepted() {
    let s = NonEmptySequence::from_vec(vec![1u32, 2, 3]).unwrap();
    assert_eq!(s.as_vec().as_slice(), &[1, 2, 3]);
}

#[test]
fn single_element_sequence() {
    let s = NonEmptySequence::new(7u32).push(8);
    assert_eq!(s.as_vec().as_slice(), &[7, 8]);
    assert_eq!(s.len(), 2);
}

#[test]
fn invalid_url_is_rejected() {
    assert_eq!(UrlString::parse("not a url").unwrap_err(), ModelError::InvalidUrl);
}

#[test]
fn url_is_normalized() {
    let u = UrlString::parse("HTTP://Example.COM").unwrap();
    assert_eq!(u.as_str(), "http://example.com/");
}

#[test]
fn duplicate_entry_id_is_rejected() {
    let mut j = Journal::new();
    j.insert(entry_id("wat"), entry("first")).unwrap();
    let r = j.insert(entry_id("wat"), entry("second"));
    assert_eq!(r.unwrap_err(), ModelError::DuplicateEntryId);
    assert_eq!(j.len(), 1);
}

#[test]
fn distinct_entry_ids_are_accepted() {
    let mut j = Journal::new();
    j.insert(entry_id("a"), entry("first")).unwrap();
    j.insert(entry_id("b"), entry("second")).unwrap();
    assert_eq!(j.len(), 2);
}

#[test]
fn get_finds_inserted_entry() {
    let mut j = Journal::new();
    j.insert(entry_id("a"), entry("first")).unwrap();
    j.insert(entry_id("b"), entry("second")).unwrap();
    assert_eq!(j.get(&entry_id("b")).unwrap().title.as_str(), "second");
    assert!(j.get(&entry_id("c")).is_none());
}

#[test]
fn entries_come_back_in_key_order() {
    let mut j = Journal::new();
    j.insert(entry_id("b"), entry("second")).unwrap();
    j.insert(entry_id("a"), entry("first")).unwrap();
    let keys: Vec<&str> = j.entries().iter().map(|(id, _)| id.0.as_str()).collect();
    assert_eq!(keys, vec!["a", "b"]);
}

#[test]
fn timestamp_fields_out_of_range_are_rejected() {
    assert!(Timestamp::from_parts(2019, 0, 13, 20, 22, 1, 0).is_none());
    assert!(Timestamp::from_parts(2019, 13, 13, 20, 22, 1, 0).is_none());
    assert!(Timestamp::from_parts(2019, 4, 0, 20, 22, 1, 0).is_none());
    assert!(Timestamp::from_parts(2019, 4, 32, 20, 22, 1, 0).is_none());
    assert!(Timestamp::from_parts(2019, 4, 13, 24, 22, 1, 0).is_none());
    assert!(Timestamp::from_parts(2019, 4, 13, 20, 60, 1, 0).is_none());
    assert!(Timestamp::from_parts(2019, 4, 13, 20, 22, 60, 0).is_none());
    assert!(Timestamp::from_parts(2019, 4, 13, 20, 22, 1, 1440).is_none());
    assert!(Timestamp::from_parts(2019, 4, 13, 20, 22, 1, -1440).is_none());
}

#[test]
fn clock_now_stamps_both_dates_identically() {
    let c = ContentDates::now();
    assert_eq!(c.created.year, c.last_modified.year);
    assert_eq!(c.created.month, c.last_modified.month);
    assert_eq!(c.created.day, c.last_modified.day);
    assert_eq!(c.created.hour, c.last_modified.hour);
    assert_eq!(c.created.minute, c.last_modified.minute);
    assert_eq!(c.created.second, c.last_modified.second);
    assert!((1..=12).contains(&c.created.month));
    assert!((1..=31).contains(&c.created.day));
    assert!(c.created.hour <= 23);
    assert!(c.created.minute <= 59);
    assert!(c.created.second <= 59);
    assert_eq!(c.created.offset_minutes, 0);
}
