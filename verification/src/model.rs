use vstd::prelude::*;

use crate::error::ModelError;
use crate::text::{EntryId, Prose};

verus! {

/// An ordered sequence guaranteed never to be empty: every constructor
/// establishes length at least one, no operation shrinks it, and a type
/// invariant carries the fact on every value.
#[derive(Debug)]
pub struct NonEmptySequence<T> {
    items: Vec<T>,
}

impl<T> View for NonEmptySequence<T> {
    type V = Seq<T>;

    closed spec fn view(&self) -> Seq<T> {
        self.items@
    }
}

impl<T> NonEmptySequence<T> {
    /// The invariant every value of the type carries: length at least one.
    #[verifier::type_invariant]
    spec fn inv(self) -> bool {
        self@.len() >= 1
    }

    /// A sequence of exactly one element.
    pub fn new(first: T) -> (s: Self)
        ensures
            s@ =~= seq![first],
    {
        let mut items: Vec<T> = Vec::new();
        items.push(first);
        NonEmptySequence { items }
    }

    /// Validating constructor: rejects an empty vector with `EmptySequence`.
    pub fn from_vec(v: Vec<T>) -> (r: Result<Self, ModelError>)
        ensures
            r is Ok <==> v@.len() >= 1,
            r matches Ok(s) ==> s@ == v@,
            r matches Err(e) ==> e == ModelError::EmptySequence,
    {
        if v.len() == 0 {
            Err(ModelError::EmptySequence)
        } else {
            Ok(NonEmptySequence { items: v })
        }
    }

    /// The sequence with one element appended at the end. Consumes the
    /// sequence: the model is an immutable value tree, so growing a sequence
    /// builds a new value.
    pub fn push(self, t: T) -> (r: Self)
        ensures
            r@ == self@.push(t),
    {
        let NonEmptySequence { items: mut new_items } = self;
        new_items.push(t);
        NonEmptySequence { items: new_items }
    }

    /// How many elements the sequence holds: always at least one.
    pub fn len(&self) -> (n: usize)
        ensures
            n == self@.len(),
            n >= 1,
    {
        proof {
            use_type_invariant(self);
        }
        self.items.len()
    }

    /// The elements, in order: always at least one.
    pub fn as_vec(&self) -> (r: &Vec<T>)
        ensures
            r@ == self@,
            r@.len() >= 1,
    {
        proof {
            use_type_invariant(self);
        }
        &self.items
    }
}

/// What `url::Url::parse` makes of a character sequence: the serialization of
/// the parsed URL, or nothing when the input is not a valid URL. The result
/// depends on the input alone.
pub uninterp spec fn url_parse_of(s: Seq<char>) -> Option<Seq<char>>;

/// Relies on `url::Url::parse` (a deterministic parse and normalization of
/// its input) and `url::Url::as_str` (the serialization of the parsed URL).
#[verifier::external_body]
fn parse_url_normalized(s: &str) -> (r: Option<String>)
    ensures
        r is Some <==> url_parse_of(s@) is Some,
        r matches Some(u) ==> url_parse_of(s@) matches Some(t) && u@ == t,
{
    match url::Url::parse(s) {
        Ok(u) => Some(u.as_str().to_owned()),
        Err(_) => None,
    }
}

/// The serialization of a parsed URL, as `url::Url` normalizes it.
#[derive(Clone, Debug)]
pub struct UrlString {
    url: String,
}

impl View for UrlString {
    type V = Seq<char>;

    closed spec fn view(&self) -> Seq<char> {
        self.url@
    }
}

impl UrlString {
    /// Validating constructor: parses and normalizes `s` as a URL, and
    /// rejects input the URL grammar refuses with `InvalidUrl`.
    pub fn parse(s: &str) -> (r: Result<UrlString, ModelError>)
        ensures
            r is Ok <==> url_parse_of(s@) is Some,
            r matches Ok(u) ==> url_parse_of(s@) matches Some(t) && u@ == t,
            r matches Err(e) ==> e == ModelError::InvalidUrl,
    {
        match parse_url_normalized(s) {
            Some(url) => Ok(UrlString { url }),
            None => Err(ModelError::InvalidUrl),
        }
    }

    /// The URL's serialization.
    pub fn as_str(&self) -> (r: &str)
        ensures
            r@ == self@,
    {
        self.url.as_str()
    }
}

/// A point in time with calendar fields and a fixed offset from UTC,
/// the reading a `chrono` datetime with a fixed offset displays.
#[derive(Clone, Copy, Debug)]
pub struct Timestamp {
    pub year: i32,
    pub month: u32,
    pub day: u32,
    pub hour: u32,
    pub minute: u32,
    pub second: u32,
    /// Offset from UTC in minutes, east positive.
    pub offset_minutes: i32,
}

impl Timestamp {
    /// The calendar fields lie in their usual ranges. The year is left free:
    /// any proleptic Gregorian year renders.
    pub open spec fn wf(self) -> bool {
        &&& 1 <= self.month <= 12
        &&& 1 <= self.day <= 31
        &&& self.hour <= 23
        &&& self.minute <= 59
        &&& self.second <= 59
        &&& -1440 < self.offset_minutes < 1440
    }

    /// Validating constructor: accepts exactly the field values in range.
    pub fn from_parts(
        year: i32,
        month: u32,
        day: u32,
        hour: u32,
        minute: u32,
        second: u32,
        offset_minutes: i32,
    ) -> (r: Option<Timestamp>)
        ensures
            r matches Some(t) ==> t == (Timestamp {
                year,
                month,
                day,
                hour,
                minute,
                second,
                offset_minutes,
            }) && t.wf(),
            r is Some <==> (Timestamp {
                year,
                month,
                day,
                hour,
                minute,
                second,
                offset_minutes,
            }).wf(),
    {
        if 1 <= month && month <= 12 && 1 <= day && day <= 31 && hour <= 23 && minute <= 59
            && second <= 59 && -1440 < offset_minutes && offset_minutes < 1440 {
            Some(Timestamp { year, month, day, hour, minute, second, offset_minutes })
        } else {
            None
        }
    }
}

/// Relies on chrono's `Local::now`, shifted with `DateTime::with_timezone` to
/// the fixed offset `FixedOffset::east_opt(0)` (zero is always in bounds),
/// and read through the `Datelike` / `Timelike` accessors, documented to
/// return month 1..=12, day 1..=31, hour 0..=23, minute 0..=59, second
/// 0..=59. Returns (year, month, day, hour, minute, second). Inherits
/// chrono's one panic path outside this library's control: `Utc::now`
/// panics when the system clock reads before the Unix epoch.
#[verifier::external_body]
fn clock_now_utc() -> (r: (i32, u32, u32, u32, u32, u32))
    ensures
        1 <= r.1 <= 12,
        1 <= r.2 <= 31,
        r.3 <= 23,
        r.4 <= 59,
        r.5 <= 59,
{
    let zero = chrono::FixedOffset::east_opt(0).expect("zero offset is in bounds");
    let t = chrono::Local::now().with_timezone(&zero);
    (
        chrono::Datelike::year(&t),
        chrono::Datelike::month(&t),
        chrono::Datelike::day(&t),
        chrono::Timelike::hour(&t),
        chrono::Timelike::minute(&t),
        chrono::Timelike::second(&t),
    )
}

/// When an entry was created and last changed, both at a fixed UTC offset.
#[derive(Clone, Copy, Debug)]
pub struct ContentDates {
    pub created: Timestamp,
    pub last_modified: Timestamp,
}

impl ContentDates {
    /// Stamps both fields with one reading of the clock, taken at offset
    /// zero, so created and last-modified are identical at creation time.
    pub fn now() -> (c: ContentDates)
        ensures
            c.created == c.last_modified,
            c.created.wf(),
            c.created.offset_minutes == 0,
    {
        let (year, month, day, hour, minute, second) = clock_now_utc();
        let t = Timestamp { year, month, day, hour, minute, second, offset_minutes: 0 };
        ContentDates { created: t, last_modified: t }
    }
}

/// A hyperlink: its target kind, and optional display content. When the
/// content is absent, the rendered link text falls back to the URL itself.
#[derive(Debug)]
pub struct LinkElement {
    pub content: Option<Box<SpanElement>>,
    pub kind: LinkElementKind,
}

/// What a link points at. Links to people, places or tags are reserved
/// extension points; the base model links to URLs.
#[derive(Clone, Debug)]
pub enum LinkElementKind {
    Url(UrlString),
}

/// Inline content: a recursive tree of styled text, links and markers.
#[derive(Debug)]
pub enum SpanElement {
    /// A marker for a page boundary of the scanned source.
    PhysicalSourcePageBegin { page_index: u32, source_photo: Option<MediaReference> },
    Text(Prose),
    Emphasis(Box<SpanElement>),
    Strong(Box<SpanElement>),
    Strikethrough(Box<SpanElement>),
    Link(LinkElement),
    Group(NonEmptySequence<SpanElement>),
}

/// A media resource, remote or on local storage.
#[derive(Clone, Debug)]
pub enum MediaReference {
    Link(UrlString),
    LocalPath(String),
}

/// A block-level media item wrapping one reference.
#[derive(Clone, Debug)]
pub enum MediaElement {
    Image(MediaReference),
    Video(MediaReference),
    Audio(MediaReference),
}

/// Distinguishes unordered from ordered list rendering.
#[derive(Clone, Copy, Debug)]
pub enum ListElementMarker {
    Unordered,
    Ordered,
}

/// A list whose items are each a non-empty sequence of blocks, so one item
/// can hold several paragraphs.
#[derive(Debug)]
pub struct ListElement {
    pub marker: ListElementMarker,
    pub items: NonEmptySequence<NonEmptySequence<BlockElement>>,
}

/// Heading rank, mapping to the HTML ranks 1 through 6.
#[derive(Clone, Copy, Debug)]
pub enum HeaderLevel {
    One,
    Two,
    Three,
    Four,
    Five,
    Six,
}

/// A heading: inline text at a rank.
#[derive(Debug)]
pub struct HeaderElement {
    pub text: SpanElement,
    pub level: HeaderLevel,
}

/// Block-level content.
#[derive(Debug)]
pub enum BlockElement {
    Paragraph(SpanElement),
    Media(MediaElement),
    BlockQuote(SpanElement),
    List(ListElement),
    Header(HeaderElement),
}

/// One journal entry: a title, an optional subtitle, its dates, and at least
/// one block of content.
#[derive(Debug)]
pub struct Entry {
    pub title: Prose,
    pub subtitle: Option<Prose>,
    pub content_dates: ContentDates,
    pub elements: NonEmptySequence<BlockElement>,
}

/// The number of nodes in a span tree, counting one per node.
pub open spec fn span_size(s: SpanElement) -> nat
    decreases s, 0int,
{
    match s {
        SpanElement::PhysicalSourcePageBegin { .. } => 1,
        SpanElement::Text(_) => 1,
        SpanElement::Emphasis(b) => 1 + span_size(*b),
        SpanElement::Strong(b) => 1 + span_size(*b),
        SpanElement::Strikethrough(b) => 1 + span_size(*b),
        SpanElement::Link(l) => 1 + match l.content {
            Some(b) => span_size(*b),
            None => 0,
        },
        SpanElement::Group(g) => 1 + spans_size(g@, 0),
    }
}

/// The combined size of the spans of `ss` from index `i` on, counting one
/// extra per element.
pub open spec fn spans_size(ss: Seq<SpanElement>, i: int) -> nat
    decreases ss, ss.len() - i,
{
    if i < 0 || i >= ss.len() {
        0
    } else {
        1 + span_size(ss[i]) + spans_size(ss, i + 1)
    }
}

/// The number of nodes in a block tree, counting one per node.
pub open spec fn block_size(b: BlockElement) -> nat
    decreases b, 0int,
{
    match b {
        BlockElement::Paragraph(s) => 1 + span_size(s),
        BlockElement::Media(_) => 1,
        BlockElement::BlockQuote(s) => 1 + span_size(s),
        BlockElement::List(le) => 1 + items_size(le.items@, 0),
        BlockElement::Header(h) => 1 + span_size(h.text),
    }
}

/// The combined size of the blocks of `bs` from index `i` on.
pub open spec fn blocks_size(bs: Seq<BlockElement>, i: int) -> nat
    decreases bs, bs.len() - i,
{
    if i < 0 || i >= bs.len() {
        0
    } else {
        1 + block_size(bs[i]) + blocks_size(bs, i + 1)
    }
}

/// The combined size of the list items of `items` from index `i` on.
pub open spec fn items_size(items: Seq<NonEmptySequence<BlockElement>>, i: int) -> nat
    decreases items, items.len() - i,
{
    if i < 0 || i >= items.len() {
        0
    } else {
        1 + blocks_size(items[i]@, 0) + items_size(items, i + 1)
    }
}

/// Each span of a group weighs strictly less than the spans together.
pub proof fn lemma_spans_size_elem(ss: Seq<SpanElement>, i: int, j: int)
    requires
        0 <= i <= j < ss.len(),
    ensures
        span_size(ss[j]) < spans_size(ss, i),
    decreases j - i,
{
    if i < j {
        lemma_spans_size_elem(ss, i + 1, j);
    }
}

/// Each block of a sequence weighs strictly less than the blocks together.
pub proof fn lemma_blocks_size_elem(bs: Seq<BlockElement>, i: int, j: int)
    requires
        0 <= i <= j < bs.len(),
    ensures
        block_size(bs[j]) < blocks_size(bs, i),
    decreases j - i,
{
    if i < j {
        lemma_blocks_size_elem(bs, i + 1, j);
    }
}

/// Each list item's blocks weigh strictly less than the items together.
pub proof fn lemma_items_size_elem(items: Seq<NonEmptySequence<BlockElement>>, i: int, j: int)
    requires
        0 <= i <= j < items.len(),
    ensures
        blocks_size(items[j]@, 0) < items_size(items, i),
    decreases j - i,
{
    if i < j {
        lemma_items_size_elem(items, i + 1, j);
    }
}

/// A label for an entry, a reserved extension point of the domain.
#[derive(Clone, Debug)]
pub struct Tag {
    pub name: Option<Prose>,
    pub description: Option<Prose>,
}

/// A place an entry can refer to, a reserved extension point of the domain.
#[derive(Clone, Debug)]
pub struct Place {
    pub name: Option<Prose>,
    pub description: Option<Prose>,
    pub location: PhysicalLocation,
}

/// A person an entry can refer to, a reserved extension point of the domain.
#[derive(Clone, Debug)]
pub struct Person {
    pub name: Prose,
    pub description: Option<Prose>,
}

/// A postal address: lines of non-line characters separated by newlines.
#[derive(Clone, Debug)]
pub struct Address(pub String);

/// A geocoordinate in ten-millionths of a degree.
#[derive(Clone, Copy, Debug)]
pub struct DecimicroGeocoordinate(pub i32);

/// A latitude and longitude.
#[derive(Clone, Copy, Debug)]
pub struct GeoCoordinates {
    pub latitude: DecimicroGeocoordinate,
    pub longitude: DecimicroGeocoordinate,
}

/// Where a place is: an address, or coordinates.
#[derive(Clone, Debug)]
pub enum PhysicalLocation {
    Address(Address),
    Coordinates(GeoCoordinates),
}

/// A note attached to a span of an entry's content, a reserved extension
/// point of the domain.
#[derive(Debug)]
pub struct Note {
    pub span: EntryContentSpan,
    pub content_dates: ContentDates,
    pub text: NonEmptySequence<BlockElement>,
}

/// A note together with the entry it targets.
#[derive(Debug)]
pub struct NoteEntry {
    pub note: Note,
    pub target_entry: EntryId,
}

/// A position in an entry's content, by paragraph and word.
#[derive(Clone, Copy, Debug)]
pub struct EntryContentLocation {
    pub paragraph_idx: u32,
    pub word_idx: u32,
}

/// An inclusive range of entry content: start and end are both used.
#[derive(Clone, Copy, Debug)]
pub struct EntryContentSpan {
    pub start: EntryContentLocation,
    pub end: EntryContentLocation,
}

/// A span of content within a named entry.
#[derive(Clone, Debug)]
pub struct EntryContentReference {
    pub id: EntryId,
    pub span: EntryContentSpan,
}

} // verus!
