use archivist::html::DisplayAsHtml;
use archivist::journal::Journal;
use archivist::model::{
    BlockElement, ContentDates, Entry, HeaderElement, HeaderLevel, LinkElement, LinkElementKind,
    ListElement, ListElementMarker, MediaElement, MediaReference, NonEmptySequence, SpanElement,
    Timestamp, UrlString,
};
use archivist::text::{EntryId, Identifier, Prose};

fn prose(s: &str) -> Prose {
    Prose::new(s.to_string()).unwrap()
}

fn entry_id(s: &str) -> EntryId {
    EntryId(Identifier::new(s.to_string()).unwrap())
}

fn text(s: &str) -> SpanElement {
    SpanElement::Text(prose(s))
}

fn paragraph(s: &str) -> BlockElement {
    BlockElement::Paragraph(text(s))
}

fn timestamp() -> Timestamp {
    Timestamp::from_parts(2019, 4, 13, 20, 22, 1, 0).unwrap()
}

fn dates() -> ContentDates {
    ContentDates { created: timestamp(), last_modified: timestamp() }
}

fn simple_entry(title: &str, subtitle: Option<&str>, body: &str) -> Entry {
    Entry {
        title: prose(title),
        subtitle: subtitle.map(prose),
        content_dates: dates(),
        elements: NonEmptySequence::new(paragraph(body)),
    }
}

#[test]
fn text_is_escaped() {
    let span = text("a<b>&\"'c");
    assert_eq!(span.html(), "a&lt;b&gt;&amp;&quot;&#x27;c");
}

#[test]
fn escaping_matches_askama() {
    let tricky = "<p class=\"x\">Tom & Jerry's <em>show</em></p>";
    let mine = text(tricky).html();
    let theirs = askama_escape::escape(tricky, askama_escape::Html).to_string();
    assert_eq!(mine, theirs);
}

#[test]
fn plain_text_is_unchanged() {
    assert_eq!(text("asdf").html(), "asdf");
}

#[test]
fn emphasis_strong_strikethrough() {
    let span = SpanElement::Emphasis(Box::new(SpanElement::Strong(Box::new(
        SpanElement::Strikethrough(Box::new(text("x"))),
    ))));
    assert_eq!(span.html(), "<em><strong><del>x</del></strong></em>");
}

#[test]
fn group_concatenates_without_separator() {
    let spans = NonEmptySequence::new(text("a"))
        .push(SpanElement::Emphasis(Box::new(text("b"))))
        .push(text("c"));
    assert_eq!(SpanElement::Group(spans).html(), "a<em>b</em>c");
}

#[test]
fn link_with_content_renders_content() {
    let u = UrlString::parse("https://example.com/a").unwrap();
    let span = SpanElement::Link(LinkElement {
        content: Some(Box::new(text("click"))),
        kind: LinkElementKind::Url(u),
    });
    assert_eq!(span.html(), "<a href=\"https://example.com/a\">click</a>");
}

#[test]
fn link_without_content_falls_back_to_url() {
    let u = UrlString::parse("https://example.com/a?x=1&y=2").unwrap();
    let span = SpanElement::Link(LinkElement { content: None, kind: LinkElementKind::Url(u) });
    assert_eq!(
        span.html(),
        "<a href=\"https://example.com/a?x=1&amp;y=2\">https://example.com/a?x=1&amp;y=2</a>"
    );
}

#[test]
fn page_marker_without_photo() {
    let span = SpanElement::PhysicalSourcePageBegin { page_index: 12, source_photo: None };
    assert_eq!(span.html(), "<span class=\"source-page-ref\" data-idx=\"12\"></span>");
}

#[test]
fn page_marker_with_photo_escapes_attr() {
    let span = SpanElement::PhysicalSourcePageBegin {
        page_index: 3,
        source_photo: Some(MediaReference::LocalPath("a \"b\".jpg".to_string())),
    };
    assert_eq!(
        span.html(),
        "<span class=\"source-page-ref\" data-idx=\"3\" data-src=\"a &quot;b&quot;.jpg\"></span>"
    );
}

#[test]
fn media_tags() {
    let r = || MediaReference::LocalPath("m.bin".to_string());
    assert_eq!(MediaElement::Image(r()).html(), "<img src=\"m.bin\">");
    assert_eq!(MediaElement::Video(r()).html(), "<audio controls src=\"m.bin\"></audio>");
    assert_eq!(MediaElement::Audio(r()).html(), "<video controls src=\"m.bin\"></video>");
}

#[test]
fn media_link_reference_uses_url() {
    let u = UrlString::parse("https://example.com/pic.png").unwrap();
    let m = MediaElement::Image(MediaReference::Link(u));
    assert_eq!(m.html(), "<img src=\"https://example.com/pic.png\">");
}

#[test]
fn header_levels() {
    for (level, expected) in [
        (HeaderLevel::One, "<h1>t</h1>"),
        (HeaderLevel::Two, "<h2>t</h2>"),
        (HeaderLevel::Three, "<h3>t</h3>"),
        (HeaderLevel::Four, "<h4>t</h4>"),
        (HeaderLevel::Five, "<h5>t</h5>"),
        (HeaderLevel::Six, "<h6>t</h6>"),
    ] {
        let h = HeaderElement { text: text("t"), level };
        assert_eq!(h.html(), expected);
    }
}

#[test]
fn blockquote_renders() {
    assert_eq!(BlockElement::BlockQuote(text("q")).html(), "<blockquote>q</blockquote>");
}

#[test]
fn unordered_list_of_two_paragraphs() {
    let items = NonEmptySequence::new(NonEmptySequence::new(paragraph("a")))
        .push(NonEmptySequence::new(paragraph("b")));
    let list = ListElement { marker: ListElementMarker::Unordered, items };
    assert_eq!(list.html(), "<ul><li><p>a</p></li><li><p>b</p></li></ul>");
}

#[test]
fn ordered_list_uses_ol() {
    let items = NonEmptySequence::new(NonEmptySequence::new(paragraph("a")));
    let list = ListElement { marker: ListElementMarker::Ordered, items };
    assert_eq!(list.html(), "<ol><li><p>a</p></li></ol>");
}

#[test]
fn list_item_with_two_blocks() {
    let blocks = NonEmptySequence::new(paragraph("x")).push(paragraph("y"));
    let list = ListElement { marker: ListElementMarker::Unordered, items: NonEmptySequence::new(blocks) };
    assert_eq!(list.html(), "<ul><li><p>x</p><p>y</p></li></ul>");
}

#[test]
fn single_entry_journal_end_to_end() {
    let mut j = Journal::new();
    j.insert(entry_id("wat"), simple_entry("hay sup", Some("nuttin much"), "asdf")).unwrap();
    assert_eq!(
        j.html(),
        "<header data-id=\"wat\"><h2>hay sup</h2><div class=\"subtitle\">nuttin much</div>\
         <div class=\"date\">2019-04-13 20:22:01 +00:00</div>\
         <div class=\"date\">Last modified: 2019-04-13 20:22:01 +00:00</div></header>\
         <article><p>asdf</p></article>"
    );
}

#[test]
fn entry_without_subtitle_omits_the_div() {
    let mut j = Journal::new();
    j.insert(entry_id("wat"), simple_entry("t", None, "b")).unwrap();
    let html = j.html();
    assert!(!html.contains("subtitle"));
    assert!(html.contains("<h2>t</h2><div class=\"date\">"));
}

#[test]
fn entry_title_and_id_are_escaped() {
    let mut j = Journal::new();
    j.insert(entry_id("a&b"), simple_entry("x<y>", Some("\"q\""), "c")).unwrap();
    let html = j.html();
    assert!(html.contains("<header data-id=\"a&amp;b\">"));
    assert!(html.contains("<h2>x&lt;y&gt;</h2>"));
    assert!(html.contains("<div class=\"subtitle\">&quot;q&quot;</div>"));
}

#[test]
fn negative_offset_renders_with_sign() {
    let ts = Timestamp::from_parts(33, 1, 2, 3, 4, 5, -330).unwrap();
    let mut j = Journal::new();
    let e = Entry {
        title: prose("t"),
        subtitle: None,
        content_dates: ContentDates { created: ts, last_modified: ts },
        elements: NonEmptySequence::new(paragraph("b")),
    };
    j.insert(entry_id("i"), e).unwrap();
    assert!(j.html().contains("<div class=\"date\">0033-01-02 03:04:05 -05:30</div>"));
}

#[test]
fn far_years_render_with_sign() {
    let mut j = Journal::new();
    let wide = Timestamp::from_parts(12345, 1, 1, 0, 0, 0, 0).unwrap();
    let early = Timestamp::from_parts(-1, 1, 1, 0, 0, 0, 0).unwrap();
    let e = Entry {
        title: prose("t"),
        subtitle: None,
        content_dates: ContentDates { created: wide, last_modified: early },
        elements: NonEmptySequence::new(paragraph("b")),
    };
    j.insert(entry_id("i"), e).unwrap();
    let html = j.html();
    assert!(html.contains("<div class=\"date\">+12345-01-01 00:00:00 +00:00</div>"));
    assert!(html.contains("Last modified: -0001-01-01 00:00:00 +00:00</div>"));
}

#[test]
fn rendering_is_deterministic() {
    let mut j = Journal::new();
    j.insert(entry_id("wat"), simple_entry("hay sup", Some("nuttin much"), "asdf")).unwrap();
    assert_eq!(j.html(), j.html());
}

#[test]
fn entries_render_in_ascending_id_order() {
    let mut j1 = Journal::new();
    j1.insert(entry_id("b"), simple_entry("second", None, "2")).unwrap();
    j1.insert(entry_id("a"), simple_entry("first", None, "1")).unwrap();
    let html = j1.html();
    let first = html.find("<h2>first</h2>").unwrap();
    let second = html.find("<h2>second</h2>").unwrap();
    assert!(first < second);

    let mut j2 = Journal::new();
    j2.insert(entry_id("a"), simple_entry("first", None, "1")).unwrap();
    j2.insert(entry_id("b"), simple_entry("second", None, "2")).unwrap();
    assert_eq!(j1.html(), j2.html());
}

#[test]
fn empty_journal_renders_nothing() {
    assert_eq!(Journal::new().html(), "");
    assert_eq!(Journal::default().html(), "");
}

#[test]
fn entries_concatenate_without_separator() {
    let mut j = Journal::new();
    j.insert(entry_id("a"), simple_entry("t1", None, "b1")).unwrap();
    j.insert(entry_id("b"), simple_entry("t2", None, "b2")).unwrap();
    assert!(j.html().contains("</article><header data-id=\"b\">"));
}
