//! DOCX → HTML for the preview pane.
//!
//! Walks the event stream of `word/document.xml` and emits a small,
//! escaped subset of HTML: headings, paragraphs with bold/italic/underline,
//! bullet lists (consecutive list paragraphs folded into one `<ul>`) and
//! basic tables. The output is capped at `MAX_HTML_BYTES`.
use vstd::prelude::*;

use crate::error::CoreError;
use crate::text::{
    ascii_bytes, char_is_whitespace, char_lowercase, push_lowercase, str_chars, str_equal,
    utf8_lossy,
};
use crate::zip_archive::{
    open_archive, read_zip_text_entry, zip_error_text, zip_opens, zip_text_outcome, ZipEntryError,
    ZipTextOutcome,
};
use crate::xml::{
    attr_text_spec, attr_val, ends_at_first_terminal, events_view, local_name, local_name_spec,
    read_xml_events, xml_events, XmlEvent, XmlEventView, XmlTag, XmlTagView,
};

verus! {

broadcast use vstd::string::group_string_axioms;

/// Hard cap on emitted HTML, in bytes.
pub const MAX_HTML_BYTES: usize = 2 * 1024 * 1024;

/// The HTML for one character of text.
pub open spec fn escape_char(c: char) -> Seq<char> {
    if c == '&' {
        "&amp;"@
    } else if c == '<' {
        "&lt;"@
    } else if c == '>' {
        "&gt;"@
    } else if c == '"' {
        "&quot;"@
    } else {
        seq![c]
    }
}

/// Text escaped for HTML: `&`, `<`, `>` and `"` replaced by entities.
pub open spec fn escape_html_spec(s: Seq<char>) -> Seq<char>
    decreases s.len(),
{
    if s.len() == 0 {
        Seq::empty()
    } else {
        escape_html_spec(s.drop_last()) + escape_char(s.last())
    }
}

/// Escaped text holds no markup: no `<`, `>` or `"` is left in it.
pub proof fn lemma_escaped_has_no_markup(s: Seq<char>)
    ensures
        forall|i: int|
            0 <= i < escape_html_spec(s).len() ==> {
                let c = #[trigger] escape_html_spec(s)[i];
                c != '<' && c != '>' && c != '"'
            },
    decreases s.len(),
{
    reveal_strlit("&amp;");
    reveal_strlit("&lt;");
    reveal_strlit("&gt;");
    reveal_strlit("&quot;");
    if s.len() > 0 {
        lemma_escaped_has_no_markup(s.drop_last());
        let prev = escape_html_spec(s.drop_last());
        let e = escape_char(s.last());
        assert forall|i: int| 0 <= i < (prev + e).len() implies {
            let c = #[trigger] (prev + e)[i];
            c != '<' && c != '>' && c != '"'
        } by {
            if i >= prev.len() {
                assert((prev + e)[i] == e[i - prev.len()]);
            } else {
                assert((prev + e)[i] == prev[i]);
            }
        }
    }
}

/// Escape `&`, `<`, `>` and `"` for HTML.
pub fn escape_html(s: &str) -> (r: String)
    ensures
        r@ == escape_html_spec(s@),
{
    let cs = str_chars(s);
    let mut out = String::new();
    let mut i: usize = 0;
    while i < cs.len()
        invariant
            i <= cs.len(),
            cs@ == s@,
            out@ == escape_html_spec(cs@.take(i as int)),
        decreases cs.len() - i,
    {
        let c = cs[i];
        if c == '&' {
            out.push_str("&amp;");
        } else if c == '<' {
            out.push_str("&lt;");
        } else if c == '>' {
            out.push_str("&gt;");
        } else if c == '"' {
            out.push_str("&quot;");
        } else {
            out.push(c);
        }
        proof {
            assert(cs@.take(i + 1).drop_last() =~= cs@.take(i as int));
            assert(cs@.take(i + 1).last() == c);
        }
        i = i + 1;
    }
    assert(cs@.take(cs.len() as int) =~= s@);
    out
}

/// A style name with whitespace removed and lower-cased.
pub open spec fn normalize_style(s: Seq<char>) -> Seq<char>
    decreases s.len(),
{
    if s.len() == 0 {
        Seq::empty()
    } else if char_is_whitespace(s.last()) {
        normalize_style(s.drop_last())
    } else {
        normalize_style(s.drop_last()) + char_lowercase(s.last())
    }
}

/// The HTML tag for a Word paragraph style: `Title`/`Heading 1` → `h1`,
/// `Subtitle`/`Heading 2` → `h2`, `Heading 3`..`Heading 6` → `h3`..`h6`
/// (also with a leading zero, any case, any whitespace); everything else,
/// and no style, → `p`.
pub open spec fn heading_tag_spec(style: Option<Seq<char>>) -> Seq<char> {
    match style {
        None => "p"@,
        Some(raw) => {
            let n = normalize_style(raw);
            if n == "title"@ || n == "heading1"@ || n == "heading01"@ {
                "h1"@
            } else if n == "subtitle"@ || n == "heading2"@ || n == "heading02"@ {
                "h2"@
            } else if n == "heading3"@ || n == "heading03"@ {
                "h3"@
            } else if n == "heading4"@ || n == "heading04"@ {
                "h4"@
            } else if n == "heading5"@ || n == "heading05"@ {
                "h5"@
            } else if n == "heading6"@ || n == "heading06"@ {
                "h6"@
            } else {
                "p"@
            }
        },
    }
}

fn normalize_style_text(raw: &str) -> (r: String)
    ensures
        r@ == normalize_style(raw@),
{
    let cs = str_chars(raw);
    let mut out = String::new();
    let mut i: usize = 0;
    while i < cs.len()
        invariant
            i <= cs.len(),
            cs@ == raw@,
            out@ == normalize_style(cs@.take(i as int)),
        decreases cs.len() - i,
    {
        let c = cs[i];
        if !c.is_whitespace() {
            push_lowercase(&mut out, c);
        }
        proof {
            assert(cs@.take(i + 1).drop_last() =~= cs@.take(i as int));
            assert(cs@.take(i + 1).last() == c);
        }
        i = i + 1;
    }
    assert(cs@.take(cs.len() as int) =~= raw@);
    out
}

/// Map a Word paragraph style name to an HTML heading tag, `p` by default.
pub fn heading_tag_for(style: Option<&str>) -> (r: &'static str)
    ensures
        r@ == heading_tag_spec(
            match style {
                Some(s) => Some(s@),
                None => None,
            },
        ),
{
    let raw = match style {
        None => {
            return "p";
        },
        Some(raw) => raw,
    };
    let n = normalize_style_text(raw);
    let n = n.as_str();
    if str_equal(n, "title") || str_equal(n, "heading1") || str_equal(n, "heading01") {
        "h1"
    } else if str_equal(n, "subtitle") || str_equal(n, "heading2") || str_equal(n, "heading02") {
        "h2"
    } else if str_equal(n, "heading3") || str_equal(n, "heading03") {
        "h3"
    } else if str_equal(n, "heading4") || str_equal(n, "heading04") {
        "h4"
    } else if str_equal(n, "heading5") || str_equal(n, "heading05") {
        "h5"
    } else if str_equal(n, "heading6") || str_equal(n, "heading06") {
        "h6"
    } else {
        "p"
    }
}

/// The state of the walk over `word/document.xml`.
#[derive(Debug)]
pub struct DocxWalker {
    /// Final HTML being assembled.
    pub out: String,
    /// Inside `<w:pPr>`.
    pub in_para_props: bool,
    /// Inside `<w:rPr>`.
    pub in_run_props: bool,
    /// Inside `<w:t>`.
    pub in_text: bool,
    /// The current paragraph's `pStyle`, if any.
    pub para_style: Option<String>,
    /// The current paragraph has `<w:numPr>` (is a list item).
    pub para_is_list: bool,
    /// A `<ul>` is open.
    pub list_open: bool,
    /// Inside a table cell.
    pub in_cell: bool,
    /// Escaped HTML of the current run.
    pub run_html: String,
    pub run_bold: bool,
    pub run_italic: bool,
    pub run_underline: bool,
    /// HTML of the current paragraph.
    pub para_html: String,
}

pub struct DocxWalkerView {
    pub out: Seq<char>,
    pub in_para_props: bool,
    pub in_run_props: bool,
    pub in_text: bool,
    pub para_style: Option<Seq<char>>,
    pub para_is_list: bool,
    pub list_open: bool,
    pub in_cell: bool,
    pub run_html: Seq<char>,
    pub run_bold: bool,
    pub run_italic: bool,
    pub run_underline: bool,
    pub para_html: Seq<char>,
}

impl View for DocxWalker {
    type V = DocxWalkerView;

    open spec fn view(&self) -> DocxWalkerView {
        DocxWalkerView {
            out: self.out@,
            in_para_props: self.in_para_props,
            in_run_props: self.in_run_props,
            in_text: self.in_text,
            para_style: match self.para_style {
                Some(s) => Some(s@),
                None => None,
            },
            para_is_list: self.para_is_list,
            list_open: self.list_open,
            in_cell: self.in_cell,
            run_html: self.run_html@,
            run_bold: self.run_bold,
            run_italic: self.run_italic,
            run_underline: self.run_underline,
            para_html: self.para_html@,
        }
    }
}

/// The state at the start of a document.
pub open spec fn docx_initial() -> DocxWalkerView {
    DocxWalkerView {
        out: Seq::empty(),
        in_para_props: false,
        in_run_props: false,
        in_text: false,
        para_style: None,
        para_is_list: false,
        list_open: false,
        in_cell: false,
        run_html: Seq::empty(),
        run_bold: false,
        run_italic: false,
        run_underline: false,
        para_html: Seq::empty(),
    }
}

/// Close an open `<ul>`.
pub open spec fn close_list_spec(s: DocxWalkerView) -> DocxWalkerView {
    if s.list_open {
        DocxWalkerView { out: s.out + "</ul>"@, list_open: false, ..s }
    } else {
        s
    }
}

/// Wrap a run's HTML according to its formatting (underline innermost,
/// bold outermost).
pub open spec fn wrap_run(html: Seq<char>, bold: bool, italic: bool, underline: bool) -> Seq<char> {
    let u = if underline {
        "<u>"@ + html + "</u>"@
    } else {
        html
    };
    let i = if italic {
        "<em>"@ + u + "</em>"@
    } else {
        u
    };
    if bold {
        "<strong>"@ + i + "</strong>"@
    } else {
        i
    }
}

/// At the end of a run, move its (wrapped) HTML into the paragraph.
pub open spec fn flush_run_spec(s: DocxWalkerView) -> DocxWalkerView {
    if s.run_html.len() == 0 {
        s
    } else {
        DocxWalkerView {
            para_html: s.para_html + wrap_run(s.run_html, s.run_bold, s.run_italic, s.run_underline),
            run_html: Seq::empty(),
            ..s
        }
    }
}

/// At the end of a paragraph: a list item joins (or opens) the list; any
/// other paragraph closes an open list and becomes `<p>` or a heading. An
/// empty `<p>` is dropped; an empty heading keeps a `&nbsp;`.
pub open spec fn flush_paragraph_spec(s: DocxWalkerView) -> DocxWalkerView {
    let body = s.para_html;
    let s0 = DocxWalkerView { para_html: Seq::empty(), ..s };
    if s0.para_is_list {
        let s1 = if !s0.list_open {
            DocxWalkerView { out: s0.out + "<ul>"@, list_open: true, ..s0 }
        } else {
            s0
        };
        DocxWalkerView { out: s1.out + "<li>"@ + body + "</li>"@, ..s1 }
    } else {
        let s1 = close_list_spec(s0);
        let tag = heading_tag_spec(s1.para_style);
        if body.len() == 0 && tag == "p"@ {
            s1
        } else {
            let shown = if body.len() == 0 {
                "&nbsp;"@
            } else {
                body
            };
            DocxWalkerView {
                out: s1.out + "<"@ + tag + ">"@ + shown + "</"@ + tag + ">"@,
                ..s1
            }
        }
    }
}

/// A start tag, by local name.
pub open spec fn handle_start_spec(s: DocxWalkerView, name: Seq<u8>) -> DocxWalkerView {
    if name == ascii_bytes("p"@) {
        DocxWalkerView { para_style: None, para_is_list: false, para_html: Seq::empty(), ..s }
    } else if name == ascii_bytes("pPr"@) {
        DocxWalkerView { in_para_props: true, ..s }
    } else if name == ascii_bytes("numPr"@) && s.in_para_props {
        DocxWalkerView { para_is_list: true, ..s }
    } else if name == ascii_bytes("r"@) {
        DocxWalkerView {
            run_bold: false,
            run_italic: false,
            run_underline: false,
            run_html: Seq::empty(),
            ..s
        }
    } else if name == ascii_bytes("rPr"@) {
        DocxWalkerView { in_run_props: true, ..s }
    } else if name == ascii_bytes("t"@) {
        DocxWalkerView { in_text: true, ..s }
    } else if name == ascii_bytes("tbl"@) {
        let s1 = close_list_spec(s);
        DocxWalkerView { out: s1.out + "<table>"@, ..s1 }
    } else if name == ascii_bytes("tr"@) {
        DocxWalkerView { out: s.out + "<tr>"@, ..s }
    } else if name == ascii_bytes("tc"@) {
        DocxWalkerView { out: s.out + "<td>"@, in_cell: true, ..s }
    } else {
        s
    }
}

/// The `w:val` attribute, else the `val` attribute.
pub open spec fn val_attr(tag: XmlTagView) -> Option<Seq<char>> {
    match attr_text_spec(tag, "w:val"@) {
        Some(v) => Some(v),
        None => attr_text_spec(tag, "val"@),
    }
}

/// A toggle such as `<w:b w:val="false"/>` that switches formatting off.
pub open spec fn is_disabled_toggle_spec(tag: XmlTagView) -> bool {
    match val_attr(tag) {
        Some(v) => v == "false"@ || v == "0"@,
        None => false,
    }
}

/// An empty tag, by local name.
pub open spec fn handle_empty_spec(s: DocxWalkerView, name: Seq<u8>, tag: XmlTagView) -> DocxWalkerView {
    if name == ascii_bytes("pStyle"@) && s.in_para_props {
        DocxWalkerView { para_style: val_attr(tag), ..s }
    } else if name == ascii_bytes("numPr"@) && s.in_para_props {
        DocxWalkerView { para_is_list: true, ..s }
    } else if name == ascii_bytes("b"@) && s.in_run_props && !is_disabled_toggle_spec(tag) {
        DocxWalkerView { run_bold: true, ..s }
    } else if name == ascii_bytes("i"@) && s.in_run_props && !is_disabled_toggle_spec(tag) {
        DocxWalkerView { run_italic: true, ..s }
    } else if name == ascii_bytes("u"@) && s.in_run_props {
        let v = match val_attr(tag) {
            Some(v) => v,
            None => Seq::empty(),
        };
        DocxWalkerView { run_underline: v != "none"@, ..s }
    } else if name == ascii_bytes("br"@) {
        DocxWalkerView { run_html: s.run_html + "<br>"@, ..s }
    } else if name == ascii_bytes("tab"@) {
        DocxWalkerView { run_html: s.run_html + "&nbsp;&nbsp;&nbsp;&nbsp;"@, ..s }
    } else {
        s
    }
}

/// An end tag, by local name.
pub open spec fn handle_end_spec(s: DocxWalkerView, name: Seq<u8>) -> DocxWalkerView {
    if name == ascii_bytes("t"@) {
        DocxWalkerView { in_text: false, ..s }
    } else if name == ascii_bytes("r"@) {
        flush_run_spec(s)
    } else if name == ascii_bytes("rPr"@) {
        DocxWalkerView { in_run_props: false, ..s }
    } else if name == ascii_bytes("pPr"@) {
        DocxWalkerView { in_para_props: false, ..s }
    } else if name == ascii_bytes("p"@) {
        flush_paragraph_spec(s)
    } else if name == ascii_bytes("tc"@) {
        DocxWalkerView { out: s.out + "</td>"@, in_cell: false, ..s }
    } else if name == ascii_bytes("tr"@) {
        DocxWalkerView { out: s.out + "</tr>"@, ..s }
    } else if name == ascii_bytes("tbl"@) {
        DocxWalkerView { out: s.out + "</table>"@, ..s }
    } else {
        s
    }
}

/// Character data: escaped into the current run while inside `<w:t>`;
/// text that cannot be unescaped counts as empty.
pub open spec fn handle_text_spec(s: DocxWalkerView, text: Option<Seq<char>>) -> DocxWalkerView {
    if s.in_text {
        let raw = match text {
            Some(t) => t,
            None => Seq::empty(),
        };
        DocxWalkerView { run_html: s.run_html + escape_html_spec(raw), ..s }
    } else {
        s
    }
}

/// The effect of one non-terminal event.
pub open spec fn docx_step(s: DocxWalkerView, e: XmlEventView) -> DocxWalkerView {
    match e {
        XmlEventView::Start(t) => handle_start_spec(s, local_name_spec(t.name)),
        XmlEventView::Empty(t) => handle_empty_spec(s, local_name_spec(t.name), t),
        XmlEventView::Text(t) => handle_text_spec(s, t),
        XmlEventView::End(n) => handle_end_spec(s, local_name_spec(n)),
        _ => s,
    }
}

/// The length in UTF-8 bytes of a text, as `str::len` reports it.
pub open spec fn utf8_len(s: Seq<char>) -> usize {
    vstd::utf8::encode_utf8(s).len() as usize
}

/// The note appended when the preview is cut short.
pub open spec fn truncation_note() -> Seq<char> {
    "\n<p><em>[Vorschau gekürzt — Dokument ist sehr groß.]</em></p>"@
}

/// The HTML once the walk stops: an open list is closed.
pub open spec fn docx_finish(s: DocxWalkerView) -> Seq<char> {
    if s.list_open {
        s.out + "</ul>"@
    } else {
        s.out
    }
}

/// The walk over the remaining events. Before each event the output size is
/// checked: past `MAX_HTML_BYTES` the note is appended and the walk stops.
/// The end of the document stops the walk; a parse error fails it with the
/// parser's message.
pub open spec fn docx_run(s: DocxWalkerView, events: Seq<XmlEventView>) -> Result<
    Seq<char>,
    Seq<char>,
>
    decreases events.len(),
{
    if utf8_len(s.out) > MAX_HTML_BYTES {
        Ok(docx_finish(DocxWalkerView { out: s.out + truncation_note(), ..s }))
    } else if events.len() == 0 {
        Ok(docx_finish(s))
    } else {
        match events[0] {
            XmlEventView::Eof => Ok(docx_finish(s)),
            XmlEventView::Fail(m) => Err("DOCX-XML-Parse-Fehler: "@ + m),
            e => docx_run(docx_step(s, e), events.drop_first()),
        }
    }
}

/// The view of a text-or-error result.
pub open spec fn text_result_view(r: Result<String, CoreError>) -> Result<Seq<char>, CoreError> {
    match r {
        Ok(s) => Ok(s@),
        Err(e) => Err(e),
    }
}

/// Whether a text-or-error result matches the expected outcome, error
/// messages compared by their text.
pub open spec fn llm_result_matches(r: Result<String, CoreError>, expected: Result<Seq<char>, Seq<char>>) -> bool {
    match (r, expected) {
        (Ok(a), Ok(b)) => a@ == b,
        (Err(CoreError::Llm(m)), Err(b)) => m@ == b,
        _ => false,
    }
}

fn append(out: &mut String, piece: &str)
    ensures
        final(out)@ == old(out)@ + piece@,
{
    out.push_str(piece);
}

impl DocxWalker {
    /// The state at the start of a document.
    pub fn new() -> (r: DocxWalker)
        ensures
            r@ == docx_initial(),
    {
        let r = DocxWalker {
            out: String::new(),
            in_para_props: false,
            in_run_props: false,
            in_text: false,
            para_style: None,
            para_is_list: false,
            list_open: false,
            in_cell: false,
            run_html: String::new(),
            run_bold: false,
            run_italic: false,
            run_underline: false,
            para_html: String::new(),
        };
        assert(r@ =~= docx_initial());
        r
    }

    /// Close an open `<ul>`.
    pub fn close_list_if_open(&mut self)
        ensures
            final(self)@ == close_list_spec(old(self)@),
    {
        if self.list_open {
            append(&mut self.out, "</ul>");
            self.list_open = false;
        }
    }

    /// Move the current run, wrapped in its formatting, into the paragraph.
    pub fn flush_run(&mut self)
        ensures
            final(self)@ == flush_run_spec(old(self)@),
    {
        if self.run_html.as_str().is_empty() {
            return;
        }
        let mut wrapped = String::new();
        core::mem::swap(&mut wrapped, &mut self.run_html);
        if self.run_underline {
            let mut w = String::new();
            append(&mut w, "<u>");
            append(&mut w, wrapped.as_str());
            append(&mut w, "</u>");
            wrapped = w;
        }
        if self.run_italic {
            let mut w = String::new();
            append(&mut w, "<em>");
            append(&mut w, wrapped.as_str());
            append(&mut w, "</em>");
            wrapped = w;
        }
        if self.run_bold {
            let mut w = String::new();
            append(&mut w, "<strong>");
            append(&mut w, wrapped.as_str());
            append(&mut w, "</strong>");
            wrapped = w;
        }
        append(&mut self.para_html, wrapped.as_str());
        assert(self@ =~= flush_run_spec(old(self)@));
    }

    /// Emit the finished paragraph as a list item, heading or `<p>`.
    #[verifier::rlimit(40)]
    pub fn flush_paragraph(&mut self)
        ensures
            final(self)@ == flush_paragraph_spec(old(self)@),
    {
        let mut body = String::new();
        core::mem::swap(&mut body, &mut self.para_html);
        if self.para_is_list {
            if !self.list_open {
                append(&mut self.out, "<ul>");
                self.list_open = true;
            }
            append(&mut self.out, "<li>");
            append(&mut self.out, body.as_str());
            append(&mut self.out, "</li>");
            assert(self@ =~= flush_paragraph_spec(old(self)@));
            return;
        }
        self.close_list_if_open();
        let tag = match &self.para_style {
            Some(st) => heading_tag_for(Some(st.as_str())),
            None => heading_tag_for(None),
        };
        let empty = body.as_str().is_empty();
        if empty && str_equal(tag, "p") {
            assert(self@ =~= flush_paragraph_spec(old(self)@));
            return;
        }
        append(&mut self.out, "<");
        append(&mut self.out, tag);
        append(&mut self.out, ">");
        if empty {
            append(&mut self.out, "&nbsp;");
        } else {
            append(&mut self.out, body.as_str());
        }
        append(&mut self.out, "</");
        append(&mut self.out, tag);
        append(&mut self.out, ">");
        assert(self@ =~= flush_paragraph_spec(old(self)@));
    }

    /// A start tag with the given local name.
    pub fn handle_start(&mut self, name: &Vec<u8>)
        ensures
            final(self)@ == handle_start_spec(old(self)@, name@),
    {
        if crate::text::ascii_eq(name, "p") {
            self.para_style = None;
            self.para_is_list = false;
            self.para_html = String::new();
        } else if crate::text::ascii_eq(name, "pPr") {
            self.in_para_props = true;
        } else if crate::text::ascii_eq(name, "numPr") && self.in_para_props {
            self.para_is_list = true;
        } else if crate::text::ascii_eq(name, "r") {
            self.run_bold = false;
            self.run_italic = false;
            self.run_underline = false;
            self.run_html = String::new();
        } else if crate::text::ascii_eq(name, "rPr") {
            self.in_run_props = true;
        } else if crate::text::ascii_eq(name, "t") {
            self.in_text = true;
        } else if crate::text::ascii_eq(name, "tbl") {
            self.close_list_if_open();
            append(&mut self.out, "<table>");
        } else if crate::text::ascii_eq(name, "tr") {
            append(&mut self.out, "<tr>");
        } else if crate::text::ascii_eq(name, "tc") {
            append(&mut self.out, "<td>");
            self.in_cell = true;
        }
        assert(self@ =~= handle_start_spec(old(self)@, name@));
    }

    /// An empty tag with the given local name.
    pub fn handle_empty(&mut self, name: &Vec<u8>, tag: &XmlTag)
        ensures
            final(self)@ == handle_empty_spec(old(self)@, name@, tag@),
    {
        if crate::text::ascii_eq(name, "pStyle") && self.in_para_props {
            self.para_style = val_attribute(tag);
        } else if crate::text::ascii_eq(name, "numPr") && self.in_para_props {
            self.para_is_list = true;
        } else if crate::text::ascii_eq(name, "b") && self.in_run_props && !is_disabled_toggle(
            tag,
        ) {
            self.run_bold = true;
        } else if crate::text::ascii_eq(name, "i") && self.in_run_props && !is_disabled_toggle(
            tag,
        ) {
            self.run_italic = true;
        } else if crate::text::ascii_eq(name, "u") && self.in_run_props {
            let v = match val_attribute(tag) {
                Some(v) => v,
                None => String::new(),
            };
            self.run_underline = !str_equal(v.as_str(), "none");
        } else if crate::text::ascii_eq(name, "br") {
            append(&mut self.run_html, "<br>");
        } else if crate::text::ascii_eq(name, "tab") {
            append(&mut self.run_html, "&nbsp;&nbsp;&nbsp;&nbsp;");
        }
        assert(self@ =~= handle_empty_spec(old(self)@, name@, tag@));
    }

    /// An end tag with the given local name.
    pub fn handle_end(&mut self, name: &Vec<u8>)
        ensures
            final(self)@ == handle_end_spec(old(self)@, name@),
    {
        if crate::text::ascii_eq(name, "t") {
            self.in_text = false;
        } else if crate::text::ascii_eq(name, "r") {
            self.flush_run();
        } else if crate::text::ascii_eq(name, "rPr") {
            self.in_run_props = false;
        } else if crate::text::ascii_eq(name, "pPr") {
            self.in_para_props = false;
        } else if crate::text::ascii_eq(name, "p") {
            self.flush_paragraph();
        } else if crate::text::ascii_eq(name, "tc") {
            append(&mut self.out, "</td>");
            self.in_cell = false;
        } else if crate::text::ascii_eq(name, "tr") {
            append(&mut self.out, "</tr>");
        } else if crate::text::ascii_eq(name, "tbl") {
            append(&mut self.out, "</table>");
        }
        assert(self@ =~= handle_end_spec(old(self)@, name@));
    }

    /// Character data.
    pub fn handle_text(&mut self, text: &Option<String>)
        ensures
            final(self)@ == handle_text_spec(
                old(self)@,
                match text {
                    Some(t) => Some(t@),
                    None => None,
                },
            ),
    {
        if self.in_text {
            match text {
                Some(t) => {
                    let esc = escape_html(t.as_str());
                    append(&mut self.run_html, esc.as_str());
                },
                None => {
                    let esc = escape_html("");
                    append(&mut self.run_html, esc.as_str());
                    assert(escape_html_spec(""@) =~= Seq::<char>::empty()) by {
                        reveal_strlit("");
                    }
                },
            }
        }
        assert(self@ =~= handle_text_spec(
            old(self)@,
            match text {
                Some(t) => Some(t@),
                None => None,
            },
        ));
    }

    /// One non-terminal event.
    pub fn step(&mut self, e: &XmlEvent)
        ensures
            final(self)@ == docx_step(old(self)@, e@),
    {
        match e {
            XmlEvent::Start(t) => {
                let n = local_name(&t.name);
                self.handle_start(&n);
            },
            XmlEvent::Empty(t) => {
                let n = local_name(&t.name);
                self.handle_empty(&n, t);
            },
            XmlEvent::Text(t) => {
                self.handle_text(t);
            },
            XmlEvent::End(q) => {
                let n = local_name(q);
                self.handle_end(&n);
            },
            _ => {},
        }
    }
}

/// The `w:val` attribute, else the `val` attribute.
fn val_attribute(tag: &XmlTag) -> (r: Option<String>)
    ensures
        match (r, val_attr(tag@)) {
            (Some(a), Some(b)) => a@ == b,
            (None, None) => true,
            _ => false,
        },
{
    match attr_val(tag, "w:val") {
        Some(v) => Some(v),
        None => attr_val(tag, "val"),
    }
}

/// `<w:b w:val="false"/>` and `<w:b w:val="0"/>` switch a toggle off.
fn is_disabled_toggle(tag: &XmlTag) -> (r: bool)
    ensures
        r == is_disabled_toggle_spec(tag@),
{
    match val_attribute(tag) {
        Some(v) => str_equal(v.as_str(), "false") || str_equal(v.as_str(), "0"),
        None => false,
    }
}

/// Render an event sequence (as read from `word/document.xml`) to HTML.
/// Errors carry `DOCX-XML-Parse-Fehler: ` and the parser's message.
pub fn render_docx_events(events: &Vec<XmlEvent>) -> (r: Result<String, CoreError>)
    ensures
        llm_result_matches(r, docx_run(docx_initial(), events_view(events@))),
{
    let ghost all = events_view(events@);
    let mut s = DocxWalker::new();
    let mut i: usize = 0;
    assert(all.skip(0) =~= all);
    loop
        invariant
            i <= events.len(),
            all == events_view(events@),
            docx_run(s@, all.skip(i as int)) == docx_run(docx_initial(), all),
        decreases events.len() - i,
    {
        if s.out.as_str().len() > MAX_HTML_BYTES {
            append(&mut s.out, "\n<p><em>[Vorschau gekürzt — Dokument ist sehr groß.]</em></p>");
            s.close_list_if_open();
            return Ok(s.out);
        }
        if i >= events.len() {
            assert(all.skip(i as int).len() == 0);
            s.close_list_if_open();
            return Ok(s.out);
        }
        proof {
            assert(all.skip(i as int)[0] == events@[i as int]@);
            assert(all.skip(i as int).drop_first() =~= all.skip(i + 1));
        }
        match &events[i] {
            XmlEvent::Eof => {
                s.close_list_if_open();
                return Ok(s.out);
            },
            XmlEvent::Fail(m) => {
                let mut msg = String::new();
                append(&mut msg, "DOCX-XML-Parse-Fehler: ");
                append(&mut msg, m.as_str());
                return Err(CoreError::Llm(msg));
            },
            e => {
                s.step(e);
            },
        }
        i = i + 1;
    }
}

/// Render the XML of `word/document.xml` to HTML.
pub fn walk(xml: &str) -> (r: Result<String, CoreError>)
    ensures
        llm_result_matches(r, docx_run(docx_initial(), xml_events(xml@))),
{
    let events = read_xml_events(xml);
    render_docx_events(&events)
}

/// `m` begins with `p`.
pub open spec fn has_prefix(m: Seq<char>, p: Seq<char>) -> bool {
    p.len() <= m.len() && m.subrange(0, p.len() as int) == p
}

/// How converting a DOCX file ends, given what the archive holds.
pub open spec fn docx_outcome_matches(data: Seq<u8>, r: Result<String, CoreError>) -> bool {
    if !zip_opens(data) {
        r matches Err(CoreError::Llm(m)) && has_prefix(m@, "DOCX kein gültiges ZIP: "@)
    } else {
        match zip_text_outcome(data, "word/document.xml"@) {
            ZipTextOutcome::Text(xml) => llm_result_matches(
                r,
                docx_run(docx_initial(), xml_events(xml)),
            ),
            ZipTextOutcome::EntryFailed => r matches Err(CoreError::Llm(m)) && has_prefix(
                m@,
                "word/document.xml nicht gefunden: "@,
            ),
            ZipTextOutcome::ReadFailed => r is Err && r->Err_0 is Io,
        }
    }
}

/// Convert the bytes of a `.docx` file to body HTML for the preview.
pub fn docx_to_html(data: &[u8]) -> (r: Result<String, CoreError>)
    ensures
        docx_outcome_matches(data@, r),
{
    let mut archive = match open_archive(data) {
        Ok(a) => a,
        Err(e) => {
            let mut msg = String::new();
            append(&mut msg, "DOCX kein gültiges ZIP: ");
            let detail = zip_error_text(&e);
            append(&mut msg, detail.as_str());
            assert(msg@.subrange(0, "DOCX kein gültiges ZIP: "@.len() as int) =~= "DOCX kein gültiges ZIP: "@);
            return Err(CoreError::Llm(msg));
        },
    };
    let xml = match read_zip_text_entry(&mut archive, "word/document.xml") {
        Ok(x) => x,
        Err(ZipEntryError::EntryFailed(m)) => {
            let mut msg = String::new();
            append(&mut msg, "word/document.xml nicht gefunden: ");
            append(&mut msg, m.as_str());
            assert(msg@.subrange(0, "word/document.xml nicht gefunden: "@.len() as int)
                =~= "word/document.xml nicht gefunden: "@);
            return Err(CoreError::Llm(msg));
        },
        Err(ZipEntryError::ReadFailed(m)) => {
            return Err(CoreError::Io(m));
        },
    };
    walk(xml.as_str())
}


/// Ending a run moves its text, wrapped in its formatting, to the end of the
/// paragraph, wherever the paragraph stands (a table cell included); a run
/// without formatting is moved as it is, and the output is not touched.
pub proof fn lemma_run_ends_in_paragraph(s: DocxWalkerView)
    requires
        s.run_html.len() > 0,
    ensures
        flush_run_spec(s).para_html == s.para_html + wrap_run(
            s.run_html,
            s.run_bold,
            s.run_italic,
            s.run_underline,
        ),
        flush_run_spec(s).run_html.len() == 0,
        flush_run_spec(s).out == s.out,
        wrap_run(s.run_html, false, false, false) == s.run_html,
        wrap_run(s.run_html, true, false, false) == "<strong>"@ + s.run_html + "</strong>"@,
        handle_end_spec(s, ascii_bytes("r"@)) == flush_run_spec(s),
{
    reveal_strlit("t");
    reveal_strlit("r");
    assert(ascii_bytes("r"@) != ascii_bytes("t"@)) by {
        assert(ascii_bytes("r"@)[0] != ascii_bytes("t"@)[0]);
    }
}

/// Ending a paragraph with text writes it out, wherever it stands: a list
/// paragraph becomes an item `<li>..</li>` of the open list (opening one when
/// needed); any other paragraph closes an open list and is written as
/// `<tag>..</tag>` with the tag of its style.
pub proof fn lemma_paragraph_written(s: DocxWalkerView)
    requires
        s.para_html.len() > 0,
    ensures
        s.para_is_list && s.list_open ==> flush_paragraph_spec(s).out == s.out + "<li>"@ + s.para_html
            + "</li>"@,
        s.para_is_list && !s.list_open ==> flush_paragraph_spec(s).out == s.out + "<ul>"@ + "<li>"@
            + s.para_html + "</li>"@,
        !s.para_is_list ==> flush_paragraph_spec(s).out == close_list_spec(s).out + "<"@
            + heading_tag_spec(s.para_style) + ">"@ + s.para_html + "</"@ + heading_tag_spec(
            s.para_style,
        ) + ">"@,
        flush_paragraph_spec(s).para_html.len() == 0,
{
}

} // verus!
