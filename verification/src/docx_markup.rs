//! What the DOCX preview's HTML can hold: only a fixed set of tags, and
//! text in which no `<`, `>` or `"` is left unescaped.
use vstd::prelude::*;

use crate::preview_docx::{
    close_list_spec, docx_finish, docx_outcome_matches, docx_initial, docx_run, docx_step, escape_html_spec,
    flush_paragraph_spec, flush_run_spec, handle_empty_spec, handle_end_spec, handle_start_spec,
    handle_text_spec, heading_tag_spec, lemma_escaped_has_no_markup, truncation_note, wrap_run,
    DocxWalkerView,
};
use crate::error::CoreError;
use crate::xml::{xml_events, XmlEventView};
use crate::zip_archive::{zip_text_outcome, ZipTextOutcome};

verus! {

broadcast use vstd::string::group_string_axioms;

/// The tags the preview emits: `p`, `h1`..`h6`, `ul`, `li`, `strong`, `em`,
/// `u`, `br`, `table`, `tr`, `td`, and the closing forms of all but `br`.
pub open spec fn is_html_tag(t: Seq<char>) -> bool {
    t == "<p>"@ || t == "</p>"@ || t == "<h1>"@ || t == "</h1>"@ || t == "<h2>"@ || t == "</h2>"@
        || t == "<h3>"@ || t == "</h3>"@ || t == "<h4>"@ || t == "</h4>"@ || t == "<h5>"@
        || t == "</h5>"@ || t == "<h6>"@ || t == "</h6>"@ || t == "<ul>"@ || t == "</ul>"@
        || t == "<li>"@ || t == "</li>"@ || t == "<strong>"@ || t == "</strong>"@ || t == "<em>"@
        || t == "</em>"@ || t == "<u>"@ || t == "</u>"@ || t == "<br>"@ || t == "<table>"@
        || t == "</table>"@ || t == "<tr>"@ || t == "</tr>"@ || t == "<td>"@ || t == "</td>"@
}

/// A character that is not markup.
pub open spec fn is_plain_char(c: char) -> bool {
    c != '<' && c != '>' && c != '"'
}

/// One piece of the preview's HTML: a fixed tag, or one plain character.
pub open spec fn is_html_piece(p: Seq<char>) -> bool {
    is_html_tag(p) || (p.len() == 1 && is_plain_char(p[0]))
}

/// Every piece is a fixed tag or a plain character.
pub open spec fn pieces_ok(ps: Seq<Seq<char>>) -> bool {
    forall|i: int| 0 <= i < ps.len() ==> is_html_piece(#[trigger] ps[i])
}

/// HTML made only of the fixed tags and plain characters: it can be cut
/// into pieces each of which is a fixed tag or a character other than `<`,
/// `>` and `"`.
pub open spec fn safe_html(s: Seq<char>) -> bool {
    exists|ps: Seq<Seq<char>>| pieces_ok(ps) && ps.flatten() == s
}

proof fn lemma_safe_empty()
    ensures
        safe_html(Seq::empty()),
{
    let ps: Seq<Seq<char>> = Seq::empty();
    assert(ps.flatten() =~= Seq::<char>::empty());
    assert(pieces_ok(ps));
}

proof fn lemma_safe_concat(a: Seq<char>, b: Seq<char>)
    requires
        safe_html(a),
        safe_html(b),
    ensures
        safe_html(a + b),
{
    let pa = choose|ps: Seq<Seq<char>>| pieces_ok(ps) && ps.flatten() == a;
    let pb = choose|ps: Seq<Seq<char>>| pieces_ok(ps) && ps.flatten() == b;
    vstd::seq_lib::lemma_flatten_concat(pa, pb);
    let ps = pa + pb;
    assert forall|i: int| 0 <= i < ps.len() implies is_html_piece(#[trigger] ps[i]) by {
        if i < pa.len() {
            assert(ps[i] == pa[i]);
        } else {
            assert(ps[i] == pb[i - pa.len()]);
        }
    }
    assert(pieces_ok(ps) && ps.flatten() == a + b);
}

proof fn lemma_safe_piece(p: Seq<char>)
    requires
        is_html_piece(p),
    ensures
        safe_html(p),
{
    let ps = seq![p];
    ps.lemma_flatten_one_element();
    assert(pieces_ok(ps));
}

/// Text without `<`, `>` and `"` is safe.
proof fn lemma_safe_plain(s: Seq<char>)
    requires
        forall|i: int| 0 <= i < s.len() ==> is_plain_char(#[trigger] s[i]),
    ensures
        safe_html(s),
    decreases s.len(),
{
    if s.len() == 0 {
        lemma_safe_empty();
        assert(s =~= Seq::<char>::empty());
    } else {
        let init = s.drop_last();
        assert forall|i: int| 0 <= i < init.len() implies is_plain_char(#[trigger] init[i]) by {
            assert(init[i] == s[i]);
        }
        lemma_safe_plain(init);
        let last = seq![s.last()];
        assert(is_plain_char(s[s.len() - 1]));
        lemma_safe_piece(last);
        lemma_safe_concat(init, last);
        assert(init + last =~= s);
    }
}

/// Escaped text is safe.
pub proof fn lemma_escaped_safe(s: Seq<char>)
    ensures
        safe_html(escape_html_spec(s)),
{
    lemma_escaped_has_no_markup(s);
    let e = escape_html_spec(s);
    assert forall|i: int| 0 <= i < e.len() implies is_plain_char(#[trigger] e[i]) by {}
    lemma_safe_plain(e);
}

proof fn lemma_safe_tag_after(a: Seq<char>, t: Seq<char>)
    requires
        safe_html(a),
        is_html_tag(t),
    ensures
        safe_html(a + t),
{
    lemma_safe_piece(t);
    lemma_safe_concat(a, t);
}

proof fn lemma_safe_wrapped(open: Seq<char>, a: Seq<char>, close: Seq<char>)
    requires
        is_html_tag(open),
        safe_html(a),
        is_html_tag(close),
    ensures
        safe_html(open + a + close),
{
    lemma_safe_piece(open);
    lemma_safe_concat(open, a);
    lemma_safe_tag_after(open + a, close);
}

proof fn lemma_nbsp_safe()
    ensures
        safe_html("&nbsp;"@),
        safe_html("&nbsp;&nbsp;&nbsp;&nbsp;"@),
{
    reveal_strlit("&nbsp;");
    reveal_strlit("&nbsp;&nbsp;&nbsp;&nbsp;");
    let a = "&nbsp;"@;
    let b = "&nbsp;&nbsp;&nbsp;&nbsp;"@;
    assert forall|i: int| 0 <= i < a.len() implies is_plain_char(#[trigger] a[i]) by {}
    assert forall|i: int| 0 <= i < b.len() implies is_plain_char(#[trigger] b[i]) by {}
    lemma_safe_plain(a);
    lemma_safe_plain(b);
}

proof fn lemma_note_safe()
    ensures
        safe_html(truncation_note()),
{
    let body = "\n[Vorschau gekürzt — Dokument ist sehr groß.]"@;
    reveal_strlit("\n[Vorschau gekürzt — Dokument ist sehr groß.]");
    reveal_strlit("\n<p><em>[Vorschau gekürzt — Dokument ist sehr groß.]</em></p>");
    reveal_strlit("<p>");
    reveal_strlit("<em>");
    reveal_strlit("</em>");
    reveal_strlit("</p>");
    let nl = body.take(1);
    let text = body.skip(1);
    assert forall|i: int| 0 <= i < nl.len() implies is_plain_char(#[trigger] nl[i]) by {}
    assert forall|i: int| 0 <= i < text.len() implies is_plain_char(#[trigger] text[i]) by {}
    lemma_safe_plain(nl);
    lemma_safe_plain(text);
    lemma_safe_wrapped("<em>"@, text, "</em>"@);
    lemma_safe_wrapped("<p>"@, "<em>"@ + text + "</em>"@, "</p>"@);
    lemma_safe_concat(nl, "<p>"@ + ("<em>"@ + text + "</em>"@) + "</p>"@);
    assert(nl + ("<p>"@ + ("<em>"@ + text + "</em>"@) + "</p>"@) =~= truncation_note());
}

/// A formatted run is safe when its text is.
proof fn lemma_wrap_run_safe(html: Seq<char>, bold: bool, italic: bool, underline: bool)
    requires
        safe_html(html),
    ensures
        safe_html(wrap_run(html, bold, italic, underline)),
{
    let u = if underline {
        "<u>"@ + html + "</u>"@
    } else {
        html
    };
    if underline {
        lemma_safe_wrapped("<u>"@, html, "</u>"@);
    }
    let i = if italic {
        "<em>"@ + u + "</em>"@
    } else {
        u
    };
    if italic {
        lemma_safe_wrapped("<em>"@, u, "</em>"@);
    }
    if bold {
        lemma_safe_wrapped("<strong>"@, i, "</strong>"@);
    }
}

/// The opening and closing tags of a paragraph or heading are fixed tags.
proof fn lemma_heading_tags(style: Option<Seq<char>>)
    ensures
        is_html_tag("<"@ + heading_tag_spec(style) + ">"@),
        is_html_tag("</"@ + heading_tag_spec(style) + ">"@),
{
    let t = heading_tag_spec(style);
    reveal_strlit("<");
    reveal_strlit("</");
    reveal_strlit(">");
    reveal_strlit("p");
    reveal_strlit("h1");
    reveal_strlit("h2");
    reveal_strlit("h3");
    reveal_strlit("h4");
    reveal_strlit("h5");
    reveal_strlit("h6");
    reveal_strlit("<p>");
    reveal_strlit("</p>");
    reveal_strlit("<h1>");
    reveal_strlit("</h1>");
    reveal_strlit("<h2>");
    reveal_strlit("</h2>");
    reveal_strlit("<h3>");
    reveal_strlit("</h3>");
    reveal_strlit("<h4>");
    reveal_strlit("</h4>");
    reveal_strlit("<h5>");
    reveal_strlit("</h5>");
    reveal_strlit("<h6>");
    reveal_strlit("</h6>");
    if t == "p"@ {
        assert("<"@ + t + ">"@ =~= "<p>"@);
        assert("</"@ + t + ">"@ =~= "</p>"@);
    } else if t == "h1"@ {
        assert("<"@ + t + ">"@ =~= "<h1>"@);
        assert("</"@ + t + ">"@ =~= "</h1>"@);
    } else if t == "h2"@ {
        assert("<"@ + t + ">"@ =~= "<h2>"@);
        assert("</"@ + t + ">"@ =~= "</h2>"@);
    } else if t == "h3"@ {
        assert("<"@ + t + ">"@ =~= "<h3>"@);
        assert("</"@ + t + ">"@ =~= "</h3>"@);
    } else if t == "h4"@ {
        assert("<"@ + t + ">"@ =~= "<h4>"@);
        assert("</"@ + t + ">"@ =~= "</h4>"@);
    } else if t == "h5"@ {
        assert("<"@ + t + ">"@ =~= "<h5>"@);
        assert("</"@ + t + ">"@ =~= "</h5>"@);
    } else {
        assert(t == "h6"@);
        assert("<"@ + t + ">"@ =~= "<h6>"@);
        assert("</"@ + t + ">"@ =~= "</h6>"@);
    }
}

/// Character data inside `<w:t>` joins the current run, escaped, wherever
/// the run stands (in a paragraph, a list item or a table cell); nothing
/// else of the walk changes. Text without `&`, `<`, `>` and `"` joins the
/// run as it is. Outside `<w:t>` character data is ignored.
pub proof fn lemma_text_joins_run(s: DocxWalkerView, text: Seq<char>)
    ensures
        s.in_text ==> handle_text_spec(s, Some(text)) == (DocxWalkerView {
            run_html: s.run_html + escape_html_spec(text),
            ..s
        }),
        s.in_text && (forall|i: int|
            0 <= i < text.len() ==> #[trigger] text[i] != '&' && text[i] != '<' && text[i] != '>'
                && text[i] != '"') ==> handle_text_spec(s, Some(text)).run_html == s.run_html
            + text,
        !s.in_text ==> handle_text_spec(s, Some(text)) == s,
        docx_step(s, XmlEventView::Text(Some(text))) == handle_text_spec(s, Some(text)),
{
    if s.in_text && (forall|i: int|
        0 <= i < text.len() ==> #[trigger] text[i] != '&' && text[i] != '<' && text[i] != '>'
            && text[i] != '"') {
        lemma_plain_escapes_to_itself(text);
    }
}

/// Text without `&`, `<`, `>` and `"` is its own escape.
pub proof fn lemma_plain_escapes_to_itself(text: Seq<char>)
    requires
        forall|i: int|
            0 <= i < text.len() ==> #[trigger] text[i] != '&' && text[i] != '<' && text[i] != '>'
                && text[i] != '"',
    ensures
        escape_html_spec(text) == text,
    decreases text.len(),
{
    if text.len() > 0 {
        let init = text.drop_last();
        assert forall|i: int| 0 <= i < init.len() implies #[trigger] init[i] != '&' && init[i] != '<'
            && init[i] != '>' && init[i] != '"' by {
            assert(init[i] == text[i]);
        }
        lemma_plain_escapes_to_itself(init);
        assert(text[text.len() - 1] == text.last());
        assert(init + seq![text.last()] =~= text);
    }
}

/// The walker's output, current paragraph and current run are all safe.
pub open spec fn walker_safe(s: DocxWalkerView) -> bool {
    safe_html(s.out) && safe_html(s.run_html) && safe_html(s.para_html)
}

proof fn lemma_close_list_safe(s: DocxWalkerView)
    requires
        walker_safe(s),
    ensures
        walker_safe(close_list_spec(s)),
{
    if s.list_open {
        lemma_safe_tag_after(s.out, "</ul>"@);
    }
}

proof fn lemma_flush_run_safe(s: DocxWalkerView)
    requires
        walker_safe(s),
    ensures
        walker_safe(flush_run_spec(s)),
{
    if s.run_html.len() != 0 {
        lemma_wrap_run_safe(s.run_html, s.run_bold, s.run_italic, s.run_underline);
        lemma_safe_concat(s.para_html, wrap_run(s.run_html, s.run_bold, s.run_italic, s.run_underline));
        lemma_safe_empty();
    }
}

proof fn lemma_flush_paragraph_safe(s: DocxWalkerView)
    requires
        walker_safe(s),
    ensures
        walker_safe(flush_paragraph_spec(s)),
{
    let body = s.para_html;
    let s0 = DocxWalkerView { para_html: Seq::empty(), ..s };
    lemma_safe_empty();
    assert(walker_safe(s0));
    if s0.para_is_list {
        let s1 = if !s0.list_open {
            DocxWalkerView { out: s0.out + "<ul>"@, list_open: true, ..s0 }
        } else {
            s0
        };
        if !s0.list_open {
            lemma_safe_tag_after(s0.out, "<ul>"@);
        }
        lemma_safe_wrapped("<li>"@, body, "</li>"@);
        lemma_safe_concat(s1.out, "<li>"@ + body + "</li>"@);
        assert(s1.out + "<li>"@ + body + "</li>"@ =~= s1.out + ("<li>"@ + body + "</li>"@));
    } else {
        let s1 = close_list_spec(s0);
        lemma_close_list_safe(s0);
        let tag = heading_tag_spec(s1.para_style);
        if !(body.len() == 0 && tag == "p"@) {
            let shown = if body.len() == 0 {
                "&nbsp;"@
            } else {
                body
            };
            lemma_nbsp_safe();
            lemma_heading_tags(s1.para_style);
            lemma_safe_wrapped("<"@ + tag + ">"@, shown, "</"@ + tag + ">"@);
            lemma_safe_concat(s1.out, ("<"@ + tag + ">"@) + shown + ("</"@ + tag + ">"@));
            assert(s1.out + "<"@ + tag + ">"@ + shown + "</"@ + tag + ">"@ =~= s1.out + (("<"@
                + tag + ">"@) + shown + ("</"@ + tag + ">"@)));
        }
    }
}

proof fn lemma_start_safe(s: DocxWalkerView, name: Seq<u8>)
    requires
        walker_safe(s),
    ensures
        walker_safe(handle_start_spec(s, name)),
{
    lemma_safe_empty();
    lemma_close_list_safe(s);
    lemma_safe_tag_after(close_list_spec(s).out, "<table>"@);
    lemma_safe_tag_after(s.out, "<tr>"@);
    lemma_safe_tag_after(s.out, "<td>"@);
}

proof fn lemma_empty_safe(s: DocxWalkerView, name: Seq<u8>, tag: crate::xml::XmlTagView)
    requires
        walker_safe(s),
    ensures
        walker_safe(handle_empty_spec(s, name, tag)),
{
    lemma_safe_tag_after(s.run_html, "<br>"@);
    lemma_nbsp_safe();
    lemma_safe_concat(s.run_html, "&nbsp;&nbsp;&nbsp;&nbsp;"@);
}

proof fn lemma_end_safe(s: DocxWalkerView, name: Seq<u8>)
    requires
        walker_safe(s),
    ensures
        walker_safe(handle_end_spec(s, name)),
{
    lemma_flush_run_safe(s);
    lemma_flush_paragraph_safe(s);
    lemma_safe_tag_after(s.out, "</td>"@);
    lemma_safe_tag_after(s.out, "</tr>"@);
    lemma_safe_tag_after(s.out, "</table>"@);
}

proof fn lemma_text_safe(s: DocxWalkerView, text: Option<Seq<char>>)
    requires
        walker_safe(s),
    ensures
        walker_safe(handle_text_spec(s, text)),
{
    let raw = match text {
        Some(t) => t,
        None => Seq::empty(),
    };
    lemma_escaped_safe(raw);
    lemma_safe_concat(s.run_html, escape_html_spec(raw));
}

/// Every step of the walk keeps the walker safe.
pub proof fn lemma_step_safe(s: DocxWalkerView, e: XmlEventView)
    requires
        walker_safe(s),
    ensures
        walker_safe(docx_step(s, e)),
{
    match e {
        XmlEventView::Start(t) => lemma_start_safe(s, crate::xml::local_name_spec(t.name)),
        XmlEventView::Empty(t) => lemma_empty_safe(s, crate::xml::local_name_spec(t.name), t),
        XmlEventView::Text(t) => lemma_text_safe(s, t),
        XmlEventView::End(n) => lemma_end_safe(s, crate::xml::local_name_spec(n)),
        _ => {},
    }
}

proof fn lemma_finish_safe(s: DocxWalkerView)
    requires
        walker_safe(s),
    ensures
        safe_html(docx_finish(s)),
{
    if s.list_open {
        lemma_safe_tag_after(s.out, "</ul>"@);
    }
}

proof fn lemma_run_safe(s: DocxWalkerView, events: Seq<XmlEventView>)
    requires
        walker_safe(s),
    ensures
        docx_run(s, events) matches Ok(h) ==> safe_html(h),
    decreases events.len(),
{
    if crate::preview_docx::utf8_len(s.out) > crate::preview_docx::MAX_HTML_BYTES {
        let t = DocxWalkerView { out: s.out + truncation_note(), ..s };
        lemma_note_safe();
        lemma_safe_concat(s.out, truncation_note());
        lemma_finish_safe(t);
    } else if events.len() == 0 {
        lemma_finish_safe(s);
    } else {
        match events[0] {
            XmlEventView::Eof => lemma_finish_safe(s),
            XmlEventView::Fail(_) => {},
            e => {
                lemma_step_safe(s, e);
                lemma_run_safe(docx_step(s, e), events.drop_first());
            },
        }
    }
}

/// The DOCX preview's HTML holds only the fixed tags (`p`, `h1`..`h6`,
/// `ul`, `li`, `strong`, `em`, `u`, `br`, `table`, `tr`, `td` and their
/// closing forms) and characters other than `<`, `>` and `"`: document text
/// reaches it only escaped, whatever events the document yields.
pub proof fn lemma_docx_html_safe(events: Seq<XmlEventView>)
    ensures
        docx_run(docx_initial(), events) matches Ok(h) ==> safe_html(h),
{
    lemma_safe_empty();
    assert(walker_safe(docx_initial()));
    lemma_run_safe(docx_initial(), events);
}

/// A fixed tag starts with `<`, holds no other `<`, and does not begin
/// with `<sc` in any letter case.
proof fn lemma_tag_opens_once(t: Seq<char>)
    requires
        is_html_tag(t),
    ensures
        t.len() >= 1,
        t[0] == '<',
        forall|j: int| 1 <= j < t.len() ==> #[trigger] t[j] != '<',
        t.len() >= 3,
        !((t[1] == 's' || t[1] == 'S') && (t[2] == 'c' || t[2] == 'C')),
{
    reveal_strlit("<p>");
    reveal_strlit("</p>");
    reveal_strlit("<h1>");
    reveal_strlit("</h1>");
    reveal_strlit("<h2>");
    reveal_strlit("</h2>");
    reveal_strlit("<h3>");
    reveal_strlit("</h3>");
    reveal_strlit("<h4>");
    reveal_strlit("</h4>");
    reveal_strlit("<h5>");
    reveal_strlit("</h5>");
    reveal_strlit("<h6>");
    reveal_strlit("</h6>");
    reveal_strlit("<ul>");
    reveal_strlit("</ul>");
    reveal_strlit("<li>");
    reveal_strlit("</li>");
    reveal_strlit("<strong>");
    reveal_strlit("</strong>");
    reveal_strlit("<em>");
    reveal_strlit("</em>");
    reveal_strlit("<u>");
    reveal_strlit("</u>");
    reveal_strlit("<br>");
    reveal_strlit("<table>");
    reveal_strlit("</table>");
    reveal_strlit("<tr>");
    reveal_strlit("</tr>");
    reveal_strlit("<td>");
    reveal_strlit("</td>");
}

proof fn lemma_pieces_open_tags(ps: Seq<Seq<char>>, i: int)
    requires
        pieces_ok(ps),
        0 <= i < ps.flatten().len(),
        ps.flatten()[i] == '<',
    ensures
        exists|t: Seq<char>|
            is_html_tag(t) && i + t.len() <= ps.flatten().len() && #[trigger] ps.flatten().subrange(
                i,
                i + t.len(),
            ) == t,
    decreases ps.len(),
{
    let f = ps.flatten();
    if ps.len() == 0 {
        assert(f.len() == 0);
    } else {
        let first = ps[0];
        let rest = ps.drop_first();
        assert(f == first + rest.flatten());
        assert(is_html_piece(ps[0]));
        assert forall|j: int| 0 <= j < rest.len() implies is_html_piece(#[trigger] rest[j]) by {
            assert(rest[j] == ps[j + 1]);
        }
        if i < first.len() {
            assert(f[i] == first[i]);
            assert(is_html_tag(first));
            lemma_tag_opens_once(first);
            assert(i == 0);
            assert(f.subrange(i, i + first.len()) =~= first);
        } else {
            let k = i - first.len();
            assert(rest.flatten()[k] == f[i]);
            lemma_pieces_open_tags(rest, k);
            let t = choose|t: Seq<char>|
                is_html_tag(t) && k + t.len() <= rest.flatten().len()
                    && #[trigger] rest.flatten().subrange(k, k + t.len()) == t;
            assert(f.subrange(i, i + t.len()) =~= rest.flatten().subrange(k, k + t.len()));
        }
    }
}

/// In safe HTML every `<` opens one of the fixed tags.
pub proof fn lemma_safe_lt_opens_tag(s: Seq<char>, i: int)
    requires
        safe_html(s),
        0 <= i < s.len(),
        s[i] == '<',
    ensures
        exists|t: Seq<char>|
            is_html_tag(t) && i + t.len() <= s.len() && #[trigger] s.subrange(i, i + t.len()) == t,
{
    let ps = choose|ps: Seq<Seq<char>>| pieces_ok(ps) && ps.flatten() == s;
    lemma_pieces_open_tags(ps, i);
}

/// Whatever HTML the DOCX preview returns holds only the fixed tags and
/// escaped text, each `<` in it opens one of those tags, and no `<` is
/// followed by `sc` in any letter case (so `<script` cannot occur).
pub proof fn lemma_docx_preview_markup(data: Seq<u8>, r: Result<String, CoreError>)
    requires
        docx_outcome_matches(data, r),
    ensures
        r matches Ok(h) ==> {
            &&& safe_html(h@)
            &&& forall|i: int|
                0 <= i < h@.len() && #[trigger] h@[i] == '<' ==> exists|t: Seq<char>|
                    is_html_tag(t) && i + t.len() <= h@.len() && #[trigger] h@.subrange(
                        i,
                        i + t.len(),
                    ) == t
            &&& forall|i: int|
                0 <= i && i + 2 < h@.len() && #[trigger] h@[i] == '<' ==> !((h@[i + 1] == 's'
                    || h@[i + 1] == 'S') && (h@[i + 2] == 'c' || h@[i + 2] == 'C'))
        },
{
    if r is Ok {
        let h = r->Ok_0;
        if let ZipTextOutcome::Text(xml) = zip_text_outcome(data, "word/document.xml"@) {
            lemma_docx_html_safe(xml_events(xml));
        }
        assert forall|i: int| 0 <= i < h@.len() && #[trigger] h@[i] == '<' implies exists|
            t: Seq<char>,
        | is_html_tag(t) && i + t.len() <= h@.len() && #[trigger] h@.subrange(i, i + t.len()) == t by {
            lemma_safe_lt_opens_tag(h@, i);
        }
        assert forall|i: int|
            0 <= i && i + 2 < h@.len() && #[trigger] h@[i] == '<' implies !((h@[i + 1] == 's'
            || h@[i + 1] == 'S') && (h@[i + 2] == 'c' || h@[i + 2] == 'C')) by {
            lemma_safe_lt_opens_tag(h@, i);
            let t = choose|t: Seq<char>|
                is_html_tag(t) && i + t.len() <= h@.len() && #[trigger] h@.subrange(i, i + t.len()) == t;
            lemma_tag_opens_once(t);
            assert(h@[i + 1] == h@.subrange(i, i + t.len())[1]);
            assert(h@[i + 2] == h@.subrange(i, i + t.len())[2]);
        }
    }
}

} // verus!
