use vstd::prelude::*;
use vstd::string::*;

use crate::model::{
    block_size, blocks_size, items_size, lemma_blocks_size_elem, lemma_items_size_elem,
    lemma_spans_size_elem, span_size, spans_size, BlockElement, Entry, HeaderElement, HeaderLevel,
    LinkElement, LinkElementKind, ListElement, ListElementMarker, MediaElement, MediaReference,
    NonEmptySequence, SpanElement, Timestamp, UrlString,
};
use crate::text::EntryId;

verus! {

/// How one character appears in HTML output: the five markup-significant
/// characters become entities, every other character stands as itself.
pub open spec fn escape_char(c: char) -> Seq<char> {
    if c == '<' {
        "&lt;"@
    } else if c == '>' {
        "&gt;"@
    } else if c == '&' {
        "&amp;"@
    } else if c == '"' {
        "&quot;"@
    } else if c == '\'' {
        "&#x27;"@
    } else {
        seq![c]
    }
}

/// The escapes of the first `i` characters of `s`, concatenated.
pub open spec fn escaped_upto(s: Seq<char>, i: int) -> Seq<char>
    decreases i,
{
    if i <= 0 || i > s.len() {
        Seq::empty()
    } else {
        escaped_upto(s, i - 1) + escape_char(s[i - 1])
    }
}

/// HTML-escapes a character sequence.
pub open spec fn escaped(s: Seq<char>) -> Seq<char> {
    escaped_upto(s, s.len() as int)
}

/// Relies on `String::push`: appends exactly the one character.
#[verifier::external_body]
fn push_char(out: &mut String, c: char)
    ensures
        final(out)@ == old(out)@ + seq![c],
{
    out.push(c);
}

/// Appends the HTML escape of `s` to `out`.
fn push_escaped(out: &mut String, s: &str)
    ensures
        final(out)@ == old(out)@ + escaped(s@),
{
    let n = s.unicode_len();
    let mut i: usize = 0;
    proof {
        assert(out@ =~= old(out)@ + escaped_upto(s@, 0));
    }
    while i < n
        invariant
            i <= n,
            n == s@.len(),
            out@ == old(out)@ + escaped_upto(s@, i as int),
        decreases n - i,
    {
        let c = s.get_char(i);
        if c == '<' {
            out.append("&lt;");
        } else if c == '>' {
            out.append("&gt;");
        } else if c == '&' {
            out.append("&amp;");
        } else if c == '"' {
            out.append("&quot;");
        } else if c == '\'' {
            out.append("&#x27;");
        } else {
            push_char(out, c);
        }
        proof {
            assert(out@ =~= old(out)@ + escaped_upto(s@, i + 1));
        }
        i = i + 1;
    }
}

/// One of the five entities the escaper emits.
pub open spec fn is_entity(e: Seq<char>) -> bool {
    e == "&lt;"@ || e == "&gt;"@ || e == "&amp;"@ || e == "&quot;"@ || e == "&#x27;"@
}

/// An entity begins at position `i` of `t`.
pub open spec fn entity_at(t: Seq<char>, i: int) -> bool {
    exists|n: int| 1 <= n <= 6 && i + n <= t.len() && is_entity(#[trigger] t.subrange(i, i + n))
}

proof fn lemma_escape_char_safe(c: char)
    ensures
        forall|k: int|
            0 <= k < escape_char(c).len() ==> escape_char(c)[k] != '<' && escape_char(c)[k] != '>'
                && escape_char(c)[k] != '"',
        forall|k: int|
            0 <= k < escape_char(c).len() && escape_char(c)[k] == '&' ==> k == 0 && is_entity(
                escape_char(c),
            ),
{
    reveal_strlit("&lt;");
    reveal_strlit("&gt;");
    reveal_strlit("&amp;");
    reveal_strlit("&quot;");
    reveal_strlit("&#x27;");
}

/// The escaper leaves no markup-significant character in its output: never a
/// raw `<`, `>` or `"`, and every `&` only as the start of one of the five
/// entities the escaper itself emits.
pub proof fn lemma_escaped_markup_safe(s: Seq<char>)
    ensures
        forall|i: int|
            0 <= i < escaped(s).len() ==> escaped(s)[i] != '<' && escaped(s)[i] != '>' && escaped(
                s,
            )[i] != '"',
        forall|i: int| 0 <= i < escaped(s).len() && escaped(s)[i] == '&' ==> entity_at(escaped(s), i),
{
    lemma_escaped_upto_markup_safe(s, s.len() as int);
}

proof fn lemma_escaped_upto_markup_safe(s: Seq<char>, m: int)
    requires
        m <= s.len(),
    ensures
        forall|i: int|
            0 <= i < escaped_upto(s, m).len() ==> escaped_upto(s, m)[i] != '<' && escaped_upto(
                s,
                m,
            )[i] != '>' && escaped_upto(s, m)[i] != '"',
        forall|i: int|
            0 <= i < escaped_upto(s, m).len() && escaped_upto(s, m)[i] == '&' ==> entity_at(
                escaped_upto(s, m),
                i,
            ),
    decreases m,
{
    if m <= 0 {
    } else {
        lemma_escaped_upto_markup_safe(s, m - 1);
        let t = escaped_upto(s, m - 1);
        let e = escape_char(s[m - 1]);
        let t2 = escaped_upto(s, m);
        assert(t2 == t + e);
        lemma_escape_char_safe(s[m - 1]);
        assert forall|i: int| 0 <= i < t2.len() && t2[i] == '&' implies entity_at(t2, i) by {
            if i < t.len() {
                assert(t2[i] == t[i]);
                assert(entity_at(t, i));
                let n = choose|n: int|
                    1 <= n <= 6 && i + n <= t.len() && is_entity(#[trigger] t.subrange(i, i + n));
                assert(t2.subrange(i, i + n) =~= t.subrange(i, i + n));
                assert(entity_at(t2, i));
            } else {
                let k = i - t.len();
                assert(e[k] == '&');
                assert(k == 0 && is_entity(e));
                assert(t2.subrange(i, i + e.len() as int) =~= e);
                assert(1 <= e.len() <= 6) by {
                    reveal_strlit("&lt;");
                    reveal_strlit("&gt;");
                    reveal_strlit("&amp;");
                    reveal_strlit("&quot;");
                    reveal_strlit("&#x27;");
                }
                assert(entity_at(t2, i));
            }
        }
        assert forall|i: int|
            0 <= i < t2.len() implies t2[i] != '<' && t2[i] != '>' && t2[i] != '"' by {
            if i < t.len() {
                assert(t2[i] == t[i]);
            } else {
                assert(t2[i] == e[i - t.len()]);
            }
        }
    }
}

/// The decimal digit `d` as a character.
pub open spec fn digit_char(d: int) -> char {
    if d == 0 {
        '0'
    } else if d == 1 {
        '1'
    } else if d == 2 {
        '2'
    } else if d == 3 {
        '3'
    } else if d == 4 {
        '4'
    } else if d == 5 {
        '5'
    } else if d == 6 {
        '6'
    } else if d == 7 {
        '7'
    } else if d == 8 {
        '8'
    } else {
        '9'
    }
}

/// The decimal digits of a non-negative number, most significant first.
pub open spec fn dec_seq(n: int) -> Seq<char>
    decreases n,
{
    if n < 10 {
        seq![digit_char(n)]
    } else {
        dec_seq(n / 10) + seq![digit_char(n % 10)]
    }
}

/// Decimal digits, zero-padded on the left to at least two places.
pub open spec fn pad2(n: int) -> Seq<char> {
    if 0 <= n < 10 {
        seq!['0'] + dec_seq(n)
    } else {
        dec_seq(n)
    }
}

/// Decimal digits, zero-padded on the left to at least four places.
pub open spec fn pad4(n: int) -> Seq<char> {
    if 0 <= n < 10 {
        "000"@ + dec_seq(n)
    } else if n < 100 {
        "00"@ + dec_seq(n)
    } else if n < 1000 {
        "0"@ + dec_seq(n)
    } else {
        dec_seq(n)
    }
}

/// A year as chrono displays it: four digits, zero-padded; years above 9999
/// carry a `+` sign and years before 0 a `-` sign.
pub open spec fn year_seq(y: int) -> Seq<char> {
    if y < 0 {
        seq!['-'] + pad4(-y)
    } else if y > 9999 {
        seq!['+'] + dec_seq(y)
    } else {
        pad4(y)
    }
}

/// A fixed offset from UTC as chrono displays it: sign, then hours and
/// minutes, two digits each, separated by a colon.
pub open spec fn offset_seq(m: int) -> Seq<char> {
    let a = if m < 0 {
        -m
    } else {
        m
    };
    (if m < 0 {
        seq!['-']
    } else {
        seq!['+']
    }) + pad2(a / 60) + seq![':'] + pad2(a % 60)
}

/// A timestamp as a chrono datetime with a fixed offset displays:
/// `YYYY-MM-DD HH:MM:SS +HH:MM`.
pub open spec fn timestamp_seq(t: Timestamp) -> Seq<char> {
    year_seq(t.year as int) + seq!['-'] + pad2(t.month as int) + seq!['-'] + pad2(t.day as int)
        + seq![' '] + pad2(t.hour as int) + seq![':'] + pad2(t.minute as int) + seq![':'] + pad2(
        t.second as int,
    ) + seq![' '] + offset_seq(t.offset_minutes as int)
}

fn push_digit(out: &mut String, d: u32)
    requires
        d < 10,
    ensures
        final(out)@ == old(out)@ + seq![digit_char(d as int)],
{
    let c: char = match d {
        0 => '0',
        1 => '1',
        2 => '2',
        3 => '3',
        4 => '4',
        5 => '5',
        6 => '6',
        7 => '7',
        8 => '8',
        _ => '9',
    };
    push_char(out, c);
}

/// Appends the decimal digits of `n` to `out`.
fn push_u32_dec(out: &mut String, n: u32)
    ensures
        final(out)@ == old(out)@ + dec_seq(n as int),
    decreases n,
{
    if n < 10 {
        push_digit(out, n);
    } else {
        push_u32_dec(out, n / 10);
        push_digit(out, n % 10);
        proof {
            assert(out@ =~= old(out)@ + dec_seq(n as int));
        }
    }
}

/// Appends the decimal digits of `n`, zero-padded to at least two places.
fn push_pad2(out: &mut String, n: u32)
    ensures
        final(out)@ == old(out)@ + pad2(n as int),
{
    if n < 10 {
        push_char(out, '0');
        push_u32_dec(out, n);
        proof {
            assert(out@ =~= old(out)@ + pad2(n as int));
        }
    } else {
        push_u32_dec(out, n);
    }
}

/// Appends the decimal digits of `n`, zero-padded to at least four places.
fn push_pad4(out: &mut String, n: u32)
    ensures
        final(out)@ == old(out)@ + pad4(n as int),
{
    if n < 10 {
        out.append("000");
        push_u32_dec(out, n);
    } else if n < 100 {
        out.append("00");
        push_u32_dec(out, n);
    } else if n < 1000 {
        out.append("0");
        push_u32_dec(out, n);
    } else {
        push_u32_dec(out, n);
    }
    proof {
        assert(out@ =~= old(out)@ + pad4(n as int));
    }
}

/// Concatenation of character sequences associates.
proof fn lemma_prepend_assoc(p: Seq<char>, a: Seq<char>, b: Seq<char>)
    ensures
        p + (a + b) == (p + a) + b,
{
    assert(p + (a + b) =~= (p + a) + b);
}

/// Appends a timestamp in chrono's display form to `out`.
#[verifier::rlimit(60)]
fn push_timestamp(out: &mut String, t: &Timestamp)
    ensures
        final(out)@ == old(out)@ + timestamp_seq(*t),
{
    let y = t.year;
    if y < 0 {
        push_char(out, '-');
        let mag = (-(y as i64)) as u32;
        proof {
            assert(mag as int == -(y as int));
        }
        push_pad4(out, mag);
        proof {
            assert(out@ =~= old(out)@ + year_seq(t.year as int));
        }
    } else if y > 9999 {
        push_char(out, '+');
        push_u32_dec(out, y as u32);
        proof {
            assert(out@ =~= old(out)@ + year_seq(t.year as int));
        }
    } else {
        push_pad4(out, y as u32);
        proof {
            assert(out@ =~= old(out)@ + year_seq(t.year as int));
        }
    }
    let ghost s1: Seq<char> = out@;
    push_char(out, '-');
    push_pad2(out, t.month);
    push_char(out, '-');
    push_pad2(out, t.day);
    push_char(out, ' ');
    push_pad2(out, t.hour);
    push_char(out, ':');
    push_pad2(out, t.minute);
    push_char(out, ':');
    push_pad2(out, t.second);
    push_char(out, ' ');
    let ghost s2: Seq<char> = out@;
    let m = t.offset_minutes;
    let neg = m < 0;
    let a: u32 = if neg {
        let mag = (-(m as i64)) as u32;
        proof {
            assert(mag as int == -(m as int));
        }
        mag
    } else {
        m as u32
    };
    let ghost osign: Seq<char> = if m < 0 {
        seq!['-']
    } else {
        seq!['+']
    };
    if neg {
        push_char(out, '-');
    } else {
        push_char(out, '+');
    }
    proof {
        assert(out@ == s2 + osign);
    }
    push_pad2(out, a / 60);
    push_char(out, ':');
    push_pad2(out, a % 60);
    proof {
        let p = old(out)@;
        let c01 = year_seq(t.year as int);
        let c02 = c01 + seq!['-'];
        let c03 = c02 + pad2(t.month as int);
        let c04 = c03 + seq!['-'];
        let c05 = c04 + pad2(t.day as int);
        let c06 = c05 + seq![' '];
        let c07 = c06 + pad2(t.hour as int);
        let c08 = c07 + seq![':'];
        let c09 = c08 + pad2(t.minute as int);
        let c10 = c09 + seq![':'];
        let c11 = c10 + pad2(t.second as int);
        let c12 = c11 + seq![' '];
        lemma_prepend_assoc(p, c01, seq!['-']);
        lemma_prepend_assoc(p, c02, pad2(t.month as int));
        lemma_prepend_assoc(p, c03, seq!['-']);
        lemma_prepend_assoc(p, c04, pad2(t.day as int));
        lemma_prepend_assoc(p, c05, seq![' ']);
        lemma_prepend_assoc(p, c06, pad2(t.hour as int));
        lemma_prepend_assoc(p, c07, seq![':']);
        lemma_prepend_assoc(p, c08, pad2(t.minute as int));
        lemma_prepend_assoc(p, c09, seq![':']);
        lemma_prepend_assoc(p, c10, pad2(t.second as int));
        lemma_prepend_assoc(p, c11, seq![' ']);
        assert(s2 == p + c12);
        let o1 = osign + pad2((a as int) / 60);
        let o2 = o1 + seq![':'];
        let o3 = o2 + pad2((a as int) % 60);
        assert(offset_seq(t.offset_minutes as int) == o3);
        lemma_prepend_assoc(s2, osign, pad2((a as int) / 60));
        lemma_prepend_assoc(s2, o1, seq![':']);
        lemma_prepend_assoc(s2, o2, pad2((a as int) % 60));
        assert(out@ == s2 + o3);
        lemma_prepend_assoc(p, c12, o3);
        assert(timestamp_seq(*t) == c12 + o3);
        assert(out@ == old(out)@ + timestamp_seq(*t));
    }
}

/// The value of a media reference's `src` attribute: the URL's serialization
/// or the local path, HTML-escaped.
pub open spec fn media_ref_attr(m: MediaReference) -> Seq<char> {
    match m {
        MediaReference::Link(u) => escaped(u@),
        MediaReference::LocalPath(p) => escaped(p@),
    }
}

/// Appends the `src` attribute value of a media reference to `out`.
fn push_media_ref_attr(out: &mut String, m: &MediaReference)
    ensures
        final(out)@ == old(out)@ + media_ref_attr(*m),
{
    match m {
        MediaReference::Link(u) => push_escaped(out, u.as_str()),
        MediaReference::LocalPath(p) => push_escaped(out, p.as_str()),
    }
}

/// The HTML fragment of a media block. `Video` renders as an `audio` tag and
/// `Audio` as a `video` tag, the mapping the journal has always produced.
pub open spec fn media_html(m: MediaElement) -> Seq<char> {
    match m {
        MediaElement::Image(r) => "<img src=\""@ + media_ref_attr(r) + "\">"@,
        MediaElement::Video(r) => "<audio controls src=\""@ + media_ref_attr(r) + "\"></audio>"@,
        MediaElement::Audio(r) => "<video controls src=\""@ + media_ref_attr(r) + "\"></video>"@,
    }
}

fn write_media(out: &mut String, m: &MediaElement)
    ensures
        final(out)@ == old(out)@ + media_html(*m),
{
    match m {
        MediaElement::Image(r) => {
            out.append("<img src=\"");
            push_media_ref_attr(out, r);
            out.append("\">");
        },
        MediaElement::Video(r) => {
            out.append("<audio controls src=\"");
            push_media_ref_attr(out, r);
            out.append("\"></audio>");
        },
        MediaElement::Audio(r) => {
            out.append("<video controls src=\"");
            push_media_ref_attr(out, r);
            out.append("\"></video>");
        },
    }
    proof {
        assert(out@ =~= old(out)@ + media_html(*m));
    }
}

/// The HTML heading rank of a level, 1 through 6.
pub open spec fn header_rank(l: HeaderLevel) -> int {
    match l {
        HeaderLevel::One => 1,
        HeaderLevel::Two => 2,
        HeaderLevel::Three => 3,
        HeaderLevel::Four => 4,
        HeaderLevel::Five => 5,
        HeaderLevel::Six => 6,
    }
}

/// The HTML fragment of a span tree.
pub open spec fn span_html(s: SpanElement) -> Seq<char>
    decreases span_size(s), 0int,
{
    match s {
        SpanElement::PhysicalSourcePageBegin { page_index, source_photo } => {
            "<span class=\"source-page-ref\" data-idx=\""@ + dec_seq(page_index as int) + "\""@
                + (match source_photo {
                Some(r) => " data-src=\""@ + media_ref_attr(r) + "\""@,
                None => Seq::empty(),
            }) + "></span>"@
        },
        SpanElement::Text(p) => escaped(p@),
        SpanElement::Emphasis(b) => "<em>"@ + span_html(*b) + "</em>"@,
        SpanElement::Strong(b) => "<strong>"@ + span_html(*b) + "</strong>"@,
        SpanElement::Strikethrough(b) => "<del>"@ + span_html(*b) + "</del>"@,
        SpanElement::Link(l) => {
            match l.kind {
                LinkElementKind::Url(u) => {
                    "<a href=\""@ + escaped(u@) + "\">"@ + (match l.content {
                        Some(b) => span_html(*b),
                        None => escaped(u@),
                    }) + "</a>"@
                },
            }
        },
        SpanElement::Group(g) => spans_html_upto(g@, g@.len() as int),
    }
}

/// The concatenated HTML of the first `i` spans of `ss`.
pub open spec fn spans_html_upto(ss: Seq<SpanElement>, i: int) -> Seq<char>
    decreases spans_size(ss, 0), i,
    via spans_html_upto_dec
{
    if i <= 0 || i > ss.len() {
        Seq::empty()
    } else {
        spans_html_upto(ss, i - 1) + span_html(ss[i - 1])
    }
}

#[via_fn]
proof fn spans_html_upto_dec(ss: Seq<SpanElement>, i: int) {
    if 0 < i <= ss.len() {
        lemma_spans_size_elem(ss, 0, i - 1);
    }
}

/// The HTML fragment of a heading.
pub open spec fn header_html(h: HeaderElement) -> Seq<char> {
    "<h"@ + dec_seq(header_rank(h.level)) + ">"@ + span_html(h.text) + "</h"@ + dec_seq(
        header_rank(h.level),
    ) + ">"@
}

/// The HTML fragment of a block tree.
pub open spec fn block_html(b: BlockElement) -> Seq<char>
    decreases block_size(b), 1int,
{
    match b {
        BlockElement::Paragraph(s) => "<p>"@ + span_html(s) + "</p>"@,
        BlockElement::Media(m) => media_html(m),
        BlockElement::BlockQuote(s) => "<blockquote>"@ + span_html(s) + "</blockquote>"@,
        BlockElement::List(le) => list_html(le),
        BlockElement::Header(h) => header_html(h),
    }
}

/// The HTML fragment of a list: items wrapped in `li`, inside `ul` or `ol`
/// as the marker says.
pub open spec fn list_html(le: ListElement) -> Seq<char>
    decreases block_size(BlockElement::List(le)), 0int,
{
    (match le.marker {
        ListElementMarker::Unordered => "<ul>"@,
        ListElementMarker::Ordered => "<ol>"@,
    }) + items_html_upto(le.items@, le.items@.len() as int) + (match le.marker {
        ListElementMarker::Unordered => "</ul>"@,
        ListElementMarker::Ordered => "</ol>"@,
    })
}

/// The concatenated HTML of the first `i` list items of `items`.
pub open spec fn items_html_upto(items: Seq<NonEmptySequence<BlockElement>>, i: int) -> Seq<char>
    decreases items_size(items, 0), i,
    via items_html_upto_dec
{
    if i <= 0 || i > items.len() {
        Seq::empty()
    } else {
        items_html_upto(items, i - 1) + ("<li>"@ + blocks_html_upto(
            items[i - 1]@,
            items[i - 1]@.len() as int,
        ) + "</li>"@)
    }
}

#[via_fn]
proof fn items_html_upto_dec(items: Seq<NonEmptySequence<BlockElement>>, i: int) {
    if 0 < i <= items.len() {
        lemma_items_size_elem(items, 0, i - 1);
    }
}

/// The concatenated HTML of the first `i` blocks of `bs`.
pub open spec fn blocks_html_upto(bs: Seq<BlockElement>, i: int) -> Seq<char>
    decreases blocks_size(bs, 0), i,
    via blocks_html_upto_dec
{
    if i <= 0 || i > bs.len() {
        Seq::empty()
    } else {
        blocks_html_upto(bs, i - 1) + block_html(bs[i - 1])
    }
}

#[via_fn]
proof fn blocks_html_upto_dec(bs: Seq<BlockElement>, i: int) {
    if 0 < i <= bs.len() {
        lemma_blocks_size_elem(bs, 0, i - 1);
    }
}

fn write_span(out: &mut String, s: &SpanElement)
    ensures
        final(out)@ == old(out)@ + span_html(*s),
    decreases span_size(*s), 0int,
{
    match s {
        SpanElement::PhysicalSourcePageBegin { page_index, source_photo } => {
            out.append("<span class=\"source-page-ref\" data-idx=\"");
            push_u32_dec(out, *page_index);
            out.append("\"");
            match source_photo {
                Some(r) => {
                    out.append(" data-src=\"");
                    push_media_ref_attr(out, r);
                    out.append("\"");
                },
                None => {},
            }
            out.append("></span>");
            proof {
                assert(out@ =~= old(out)@ + span_html(*s));
            }
        },
        SpanElement::Text(p) => {
            push_escaped(out, p.as_str());
        },
        SpanElement::Emphasis(b) => {
            out.append("<em>");
            write_span(out, b);
            out.append("</em>");
            proof {
                assert(out@ =~= old(out)@ + span_html(*s));
            }
        },
        SpanElement::Strong(b) => {
            out.append("<strong>");
            write_span(out, b);
            out.append("</strong>");
            proof {
                assert(out@ =~= old(out)@ + span_html(*s));
            }
        },
        SpanElement::Strikethrough(b) => {
            out.append("<del>");
            write_span(out, b);
            out.append("</del>");
            proof {
                assert(out@ =~= old(out)@ + span_html(*s));
            }
        },
        SpanElement::Link(l) => {
            match &l.kind {
                LinkElementKind::Url(u) => {
                    out.append("<a href=\"");
                    push_escaped(out, u.as_str());
                    out.append("\">");
                    match &l.content {
                        Some(b) => {
                            write_span(out, b);
                        },
                        None => {
                            push_escaped(out, u.as_str());
                        },
                    }
                    out.append("</a>");
                    proof {
                        assert(out@ =~= old(out)@ + span_html(*s));
                    }
                },
            }
        },
        SpanElement::Group(g) => {
            let ghost gs: Seq<SpanElement> = g@;
            let v = g.as_vec();
            let n = v.len();
            let mut i: usize = 0;
            proof {
                assert(out@ =~= old(out)@ + spans_html_upto(gs, 0));
            }
            while i < n
                invariant
                    i <= n,
                    n == gs.len(),
                    v@ == gs,
                    span_size(*s) == 1 + spans_size(gs, 0),
                    out@ == old(out)@ + spans_html_upto(gs, i as int),
                decreases n - i,
            {
                proof {
                    lemma_spans_size_elem(gs, 0, i as int);
                }
                write_span(out, &v[i]);
                proof {
                    assert(out@ =~= old(out)@ + spans_html_upto(gs, i + 1));
                }
                i = i + 1;
            }
            proof {
                assert(out@ == old(out)@ + span_html(*s));
            }
        },
    }
}

fn write_header(out: &mut String, h: &HeaderElement)
    ensures
        final(out)@ == old(out)@ + header_html(*h),
{
    let rank: u32 = match h.level {
        HeaderLevel::One => 1,
        HeaderLevel::Two => 2,
        HeaderLevel::Three => 3,
        HeaderLevel::Four => 4,
        HeaderLevel::Five => 5,
        HeaderLevel::Six => 6,
    };
    out.append("<h");
    push_u32_dec(out, rank);
    out.append(">");
    write_span(out, &h.text);
    out.append("</h");
    push_u32_dec(out, rank);
    out.append(">");
    proof {
        assert(out@ =~= old(out)@ + header_html(*h));
    }
}

fn write_block(out: &mut String, b: &BlockElement)
    ensures
        final(out)@ == old(out)@ + block_html(*b),
    decreases block_size(*b), 1int,
{
    match b {
        BlockElement::Paragraph(sp) => {
            out.append("<p>");
            write_span(out, sp);
            out.append("</p>");
            proof {
                assert(out@ =~= old(out)@ + block_html(*b));
            }
        },
        BlockElement::Media(m) => {
            write_media(out, m);
        },
        BlockElement::BlockQuote(sp) => {
            out.append("<blockquote>");
            write_span(out, sp);
            out.append("</blockquote>");
            proof {
                assert(out@ =~= old(out)@ + block_html(*b));
            }
        },
        BlockElement::List(le) => {
            write_list(out, le);
        },
        BlockElement::Header(h) => {
            write_header(out, h);
        },
    }
}

fn write_list(out: &mut String, le: &ListElement)
    ensures
        final(out)@ == old(out)@ + list_html(*le),
    decreases block_size(BlockElement::List(*le)), 0int,
{
    let ghost otag: Seq<char> = match le.marker {
        ListElementMarker::Unordered => "<ul>"@,
        ListElementMarker::Ordered => "<ol>"@,
    };
    match le.marker {
        ListElementMarker::Unordered => out.append("<ul>"),
        ListElementMarker::Ordered => out.append("<ol>"),
    }
    let ghost iseq = le.items@;
    let items = le.items.as_vec();
    let n = items.len();
    let mut i: usize = 0;
    proof {
        assert(out@ =~= old(out)@ + otag + items_html_upto(iseq, 0));
    }
    while i < n
        invariant
            i <= n,
            n == iseq.len(),
            items@ == iseq,
            block_size(BlockElement::List(*le)) == 1 + items_size(iseq, 0),
            out@ == old(out)@ + otag + items_html_upto(iseq, i as int),
        decreases n - i,
    {
        out.append("<li>");
        let ghost bseq = iseq[i as int]@;
        let blocks = items[i].as_vec();
        let bn = blocks.len();
        let mut j: usize = 0;
        proof {
            assert(out@ =~= old(out)@ + otag + items_html_upto(iseq, i as int) + "<li>"@
                + blocks_html_upto(bseq, 0));
        }
        while j < bn
            invariant
                j <= bn,
                bn == bseq.len(),
                blocks@ == bseq,
                0 <= i < iseq.len(),
                bseq == iseq[i as int]@,
                block_size(BlockElement::List(*le)) == 1 + items_size(iseq, 0),
                out@ == old(out)@ + otag + items_html_upto(iseq, i as int) + "<li>"@
                    + blocks_html_upto(bseq, j as int),
            decreases bn - j,
        {
            proof {
                lemma_items_size_elem(iseq, 0, i as int);
                lemma_blocks_size_elem(bseq, 0, j as int);
            }
            write_block(out, &blocks[j]);
            proof {
                assert(out@ =~= old(out)@ + otag + items_html_upto(iseq, i as int) + "<li>"@
                    + blocks_html_upto(bseq, j + 1));
            }
            j = j + 1;
        }
        out.append("</li>");
        proof {
            assert(out@ =~= old(out)@ + otag + items_html_upto(iseq, i + 1));
        }
        i = i + 1;
    }
    match le.marker {
        ListElementMarker::Unordered => out.append("</ul>"),
        ListElementMarker::Ordered => out.append("</ol>"),
    }
    proof {
        assert(out@ =~= old(out)@ + list_html(*le));
    }
}

/// The HTML fragment of one entry under its id: a header holding the id,
/// escaped title, escaped subtitle when present and the two dates, then the
/// entry's blocks inside an `article`.
pub open spec fn entry_html(id: EntryId, e: Entry) -> Seq<char> {
    "<header data-id=\""@ + escaped(id@) + "\">"@ + "<h2>"@ + escaped(e.title@) + "</h2>"@
        + (match e.subtitle {
        Some(st) => "<div class=\"subtitle\">"@ + escaped(st@) + "</div>"@,
        None => Seq::empty(),
    }) + "<div class=\"date\">"@ + timestamp_seq(e.content_dates.created) + "</div>"@
        + "<div class=\"date\">Last modified: "@ + timestamp_seq(e.content_dates.last_modified)
        + "</div>"@ + "</header>"@ + "<article>"@ + blocks_html_upto(
        e.elements@,
        e.elements@.len() as int,
    ) + "</article>"@
}

#[verifier::rlimit(100)]
pub(crate) fn write_entry(out: &mut String, id: &EntryId, e: &Entry)
    ensures
        final(out)@ == old(out)@ + entry_html(*id, *e),
{
    out.append("<header data-id=\"");
    push_escaped(out, id.0.as_str());
    out.append("\">");
    out.append("<h2>");
    push_escaped(out, e.title.as_str());
    out.append("</h2>");
    match &e.subtitle {
        Some(st) => {
            out.append("<div class=\"subtitle\">");
            push_escaped(out, st.as_str());
            out.append("</div>");
        },
        None => {},
    }
    out.append("<div class=\"date\">");
    push_timestamp(out, &e.content_dates.created);
    out.append("</div>");
    out.append("<div class=\"date\">Last modified: ");
    push_timestamp(out, &e.content_dates.last_modified);
    out.append("</div>");
    out.append("</header>");
    out.append("<article>");
    let ghost pre: Seq<char> = out@;
    let ghost es = e.elements@;
    let blocks = e.elements.as_vec();
    let n = blocks.len();
    let mut i: usize = 0;
    proof {
        assert(out@ =~= pre + blocks_html_upto(es, 0));
    }
    while i < n
        invariant
            i <= n,
            n == es.len(),
            blocks@ == es,
            out@ == pre + blocks_html_upto(es, i as int),
        decreases n - i,
    {
        write_block(out, &blocks[i]);
        proof {
            assert(out@ =~= pre + blocks_html_upto(es, i + 1));
        }
        i = i + 1;
    }
    out.append("</article>");
    proof {
        assert(out@ =~= old(out)@ + entry_html(*id, *e));
    }
}

/// The capability every node kind implements: producing its HTML fragment,
/// pinned to a specification-level rendering of the same node.
pub trait DisplayAsHtml {
    /// The fragment this node renders to.
    spec fn html_spec(&self) -> Seq<char>;

    /// Renders this node.
    fn html(&self) -> (r: String)
        ensures
            r@ == self.html_spec(),
    ;
}

impl DisplayAsHtml for SpanElement {
    open spec fn html_spec(&self) -> Seq<char> {
        span_html(*self)
    }

    fn html(&self) -> (r: String) {
        let mut out = String::new();
        write_span(&mut out, self);
        proof {
            assert(out@ =~= span_html(*self));
        }
        out
    }
}

impl DisplayAsHtml for BlockElement {
    open spec fn html_spec(&self) -> Seq<char> {
        block_html(*self)
    }

    fn html(&self) -> (r: String) {
        let mut out = String::new();
        write_block(&mut out, self);
        proof {
            assert(out@ =~= block_html(*self));
        }
        out
    }
}

impl DisplayAsHtml for ListElement {
    open spec fn html_spec(&self) -> Seq<char> {
        list_html(*self)
    }

    fn html(&self) -> (r: String) {
        let mut out = String::new();
        write_list(&mut out, self);
        proof {
            assert(out@ =~= list_html(*self));
        }
        out
    }
}

impl DisplayAsHtml for MediaElement {
    open spec fn html_spec(&self) -> Seq<char> {
        media_html(*self)
    }

    fn html(&self) -> (r: String) {
        let mut out = String::new();
        write_media(&mut out, self);
        proof {
            assert(out@ =~= media_html(*self));
        }
        out
    }
}

impl DisplayAsHtml for HeaderElement {
    open spec fn html_spec(&self) -> Seq<char> {
        header_html(*self)
    }

    fn html(&self) -> (r: String) {
        let mut out = String::new();
        write_header(&mut out, self);
        proof {
            assert(out@ =~= header_html(*self));
        }
        out
    }
}

/// A link without display content renders its display text as the escaped
/// URL; one with display content renders that content instead. In both
/// cases the `href` attribute holds the escaped URL.
pub proof fn lemma_link_display(u: UrlString, content: Option<Box<SpanElement>>)
    ensures
        span_html(
            SpanElement::Link((LinkElement { content: None, kind: LinkElementKind::Url(u) })),
        ) == "<a href=\""@ + escaped(u@) + "\">"@ + escaped(u@) + "</a>"@,
        content matches Some(b) ==> span_html(
            SpanElement::Link((LinkElement { content, kind: LinkElementKind::Url(u) })),
        ) == "<a href=\""@ + escaped(u@) + "\">"@ + span_html(*b) + "</a>"@,
{
}

} // verus!
