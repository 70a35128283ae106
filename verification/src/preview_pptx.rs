//! PPTX preview: a text outline per slide (title, body paragraphs, speaker
//! notes without the slide-number placeholder).
use vstd::prelude::*;

use crate::error::CoreError;
use crate::preview_docx::{has_prefix, text_result_view};
use crate::text::{ascii_bytes, copy_string, str_chars, str_equal, string_from_chars, trim_chars, trim_spec};
use crate::xml::{
    attr_text_spec, attr_val, events_view, local_name, local_name_spec, read_xml_events,
    xml_events, XmlEvent, XmlEventView,
};
use crate::zip_archive::{
    archive_len, entry_name_at, open_archive, read_zip_text_entry, zip_entry_names,
    zip_error_text, zip_index_opens, zip_opens, zip_source, zip_text_outcome, Archive,
    ZipEntryError, ZipTextOutcome,
};

verus! {

broadcast use vstd::string::group_string_axioms;

/// The views of a list of strings.
pub open spec fn strings_view(v: Seq<String>) -> Seq<Seq<char>> {
    v.map_values(|s: String| s@)
}

/// The view of an optional string.
pub open spec fn opt_string_view(o: Option<String>) -> Option<Seq<char>> {
    match o {
        Some(s) => Some(s@),
        None => None,
    }
}

/// The parts joined with `sep` between them.
pub open spec fn join_spec(parts: Seq<Seq<char>>, sep: Seq<char>) -> Seq<char>
    decreases parts.len(),
{
    if parts.len() == 0 {
        Seq::empty()
    } else if parts.len() == 1 {
        parts[0]
    } else {
        join_spec(parts.drop_last(), sep) + sep + parts.last()
    }
}

/// Join strings with a separator (`[String]::join`).
pub fn join_strings(parts: &Vec<String>, sep: &str) -> (r: String)
    ensures
        r@ == join_spec(strings_view(parts@), sep@),
{
    let ghost all = strings_view(parts@);
    let mut out = String::new();
    let mut i: usize = 0;
    while i < parts.len()
        invariant
            i <= parts.len(),
            all == strings_view(parts@),
            out@ == join_spec(all.take(i as int), sep@),
        decreases parts.len() - i,
    {
        proof {
            assert(all.take(i + 1).drop_last() =~= all.take(i as int));
            assert(all.take(i + 1).last() == parts@[i as int]@);
        }
        if i > 0 {
            out.push_str(sep);
        } else {
            assert(all.take(0) =~= Seq::<Seq<char>>::empty());
        }
        out.push_str(parts[i].as_str());
        i = i + 1;
    }
    assert(all.take(parts.len() as int) =~= all);
    out
}

/// The state of the walk over one slide or notes part.
#[derive(Debug)]
pub struct SlideWalker {
    pub is_notes: bool,
    pub title: Option<String>,
    pub body: Vec<String>,
    pub in_shape: bool,
    pub shape_ph_type: Option<String>,
    pub shape_paragraphs: Vec<String>,
    pub in_text_body: bool,
    pub current_para: String,
    pub in_text: bool,
}

pub struct SlideWalkerView {
    pub is_notes: bool,
    pub title: Option<Seq<char>>,
    pub body: Seq<Seq<char>>,
    pub in_shape: bool,
    pub shape_ph_type: Option<Seq<char>>,
    pub shape_paragraphs: Seq<Seq<char>>,
    pub in_text_body: bool,
    pub current_para: Seq<char>,
    pub in_text: bool,
}

impl View for SlideWalker {
    type V = SlideWalkerView;

    open spec fn view(&self) -> SlideWalkerView {
        SlideWalkerView {
            is_notes: self.is_notes,
            title: opt_string_view(self.title),
            body: strings_view(self.body@),
            in_shape: self.in_shape,
            shape_ph_type: opt_string_view(self.shape_ph_type),
            shape_paragraphs: strings_view(self.shape_paragraphs@),
            in_text_body: self.in_text_body,
            current_para: self.current_para@,
            in_text: self.in_text,
        }
    }
}

/// The state at the start of a part.
pub open spec fn slide_initial(is_notes: bool) -> SlideWalkerView {
    SlideWalkerView {
        is_notes,
        title: None,
        body: Seq::empty(),
        in_shape: false,
        shape_ph_type: None,
        shape_paragraphs: Seq::empty(),
        in_text_body: false,
        current_para: Seq::empty(),
        in_text: false,
    }
}

/// A start tag, by local name.
pub open spec fn slide_start_spec(s: SlideWalkerView, name: Seq<u8>) -> SlideWalkerView {
    if name == ascii_bytes("sp"@) {
        SlideWalkerView { in_shape: true, shape_ph_type: None, shape_paragraphs: Seq::empty(), ..s }
    } else if name == ascii_bytes("txBody"@) && s.in_shape {
        SlideWalkerView { in_text_body: true, ..s }
    } else if name == ascii_bytes("p"@) && s.in_text_body {
        SlideWalkerView { current_para: Seq::empty(), ..s }
    } else if name == ascii_bytes("t"@) && s.in_text_body {
        SlideWalkerView { in_text: true, ..s }
    } else {
        s
    }
}

/// An empty tag: the shape's placeholder type, or a line break.
pub open spec fn slide_empty_spec(
    s: SlideWalkerView,
    name: Seq<u8>,
    tag: crate::xml::XmlTagView,
) -> SlideWalkerView {
    if name == ascii_bytes("ph"@) && s.in_shape {
        SlideWalkerView { shape_ph_type: attr_text_spec(tag, "type"@), ..s }
    } else if name == ascii_bytes("br"@) && s.in_text_body {
        SlideWalkerView { current_para: s.current_para.push('\n'), ..s }
    } else {
        s
    }
}

/// Character data inside `<a:t>`; text that cannot be unescaped counts as
/// empty.
pub open spec fn slide_text_spec(s: SlideWalkerView, text: Option<Seq<char>>) -> SlideWalkerView {
    if s.in_text {
        match text {
            Some(t) => SlideWalkerView { current_para: s.current_para + t, ..s },
            None => s,
        }
    } else {
        s
    }
}

/// Whether a placeholder type marks a title.
pub open spec fn is_title_ph(ph: Option<Seq<char>>) -> bool {
    ph == Some("title"@) || ph == Some("ctrTitle"@)
}

/// At the end of a shape with text: the first title shape gives the title
/// (its paragraphs joined by spaces); in notes the slide-number placeholder
/// is dropped; every other shape's paragraphs go to the body.
pub open spec fn close_shape_spec(s: SlideWalkerView) -> SlideWalkerView {
    let s1 = if s.shape_paragraphs.len() == 0 {
        s
    } else if is_title_ph(s.shape_ph_type) && s.title is None {
        SlideWalkerView { title: Some(join_spec(s.shape_paragraphs, " "@)), ..s }
    } else if s.is_notes && s.shape_ph_type == Some("sldNum"@) {
        s
    } else {
        SlideWalkerView { body: s.body + s.shape_paragraphs, ..s }
    };
    SlideWalkerView { in_shape: false, shape_ph_type: None, shape_paragraphs: Seq::empty(), ..s1 }
}

/// An end tag, by local name.
pub open spec fn slide_end_spec(s: SlideWalkerView, name: Seq<u8>) -> SlideWalkerView {
    if name == ascii_bytes("t"@) {
        SlideWalkerView { in_text: false, ..s }
    } else if name == ascii_bytes("p"@) && s.in_text_body {
        let trimmed = trim_spec(s.current_para);
        let paras = if trimmed.len() == 0 {
            s.shape_paragraphs
        } else {
            s.shape_paragraphs.push(trimmed)
        };
        SlideWalkerView { shape_paragraphs: paras, current_para: Seq::empty(), ..s }
    } else if name == ascii_bytes("txBody"@) {
        SlideWalkerView { in_text_body: false, ..s }
    } else if name == ascii_bytes("sp"@) {
        close_shape_spec(s)
    } else {
        s
    }
}

/// The effect of one non-terminal event.
pub open spec fn slide_step(s: SlideWalkerView, e: XmlEventView) -> SlideWalkerView {
    match e {
        XmlEventView::Start(t) => slide_start_spec(s, local_name_spec(t.name)),
        XmlEventView::Empty(t) => slide_empty_spec(s, local_name_spec(t.name), t),
        XmlEventView::Text(t) => slide_text_spec(s, t),
        XmlEventView::End(n) => slide_end_spec(s, local_name_spec(n)),
        _ => s,
    }
}

/// The walk over the remaining events: `(title, body)` at the end of the
/// part, the parser's message on a parse error.
pub open spec fn slide_run(s: SlideWalkerView, events: Seq<XmlEventView>) -> Result<
    (Option<Seq<char>>, Seq<Seq<char>>),
    Seq<char>,
>
    decreases events.len(),
{
    if events.len() == 0 {
        Ok((s.title, s.body))
    } else {
        match events[0] {
            XmlEventView::Eof => Ok((s.title, s.body)),
            XmlEventView::Fail(m) => Err("PPTX-XML-Parse-Fehler: "@ + m),
            e => slide_run(slide_step(s, e), events.drop_first()),
        }
    }
}

impl SlideWalker {
    pub fn new(is_notes: bool) -> (r: SlideWalker)
        ensures
            r@ == slide_initial(is_notes),
    {
        let r = SlideWalker {
            is_notes,
            title: None,
            body: Vec::new(),
            in_shape: false,
            shape_ph_type: None,
            shape_paragraphs: Vec::new(),
            in_text_body: false,
            current_para: String::new(),
            in_text: false,
        };
        assert(strings_view(r.body@) =~= Seq::<Seq<char>>::empty());
        assert(strings_view(r.shape_paragraphs@) =~= Seq::<Seq<char>>::empty());
        assert(r@ =~= slide_initial(is_notes));
        r
    }

    fn close_shape(&mut self)
        ensures
            final(self)@ == close_shape_spec(old(self)@),
    {
        let ghost s0 = self@;
        if self.shape_paragraphs.len() > 0 {
            let is_title = match &self.shape_ph_type {
                Some(p) => str_equal(p.as_str(), "title") || str_equal(p.as_str(), "ctrTitle"),
                None => false,
            };
            let is_slide_num = match &self.shape_ph_type {
                Some(p) => str_equal(p.as_str(), "sldNum"),
                None => false,
            };
            if is_title && self.title.is_none() {
                self.title = Some(join_strings(&self.shape_paragraphs, " "));
            } else if self.is_notes && is_slide_num {
            } else {
                let ghost before = self.body@;
                let mut i: usize = 0;
                assert(s0.shape_paragraphs.take(0) =~= Seq::<Seq<char>>::empty());
                assert(strings_view(before) + Seq::<Seq<char>>::empty() =~= strings_view(before));
                while i < self.shape_paragraphs.len()
                    invariant
                        i <= self.shape_paragraphs.len(),
                        s0.body == strings_view(before),
                        self@ == (SlideWalkerView {
                            body: strings_view(before) + s0.shape_paragraphs.take(i as int),
                            ..s0
                        }),
                    decreases self.shape_paragraphs.len() - i,
                {
                    let p = copy_string(&self.shape_paragraphs[i]);
                    let ghost b = self.body@;
                    self.body.push(p);
                    assert(strings_view(self.body@) =~= strings_view(b).push(p@));
                    i = i + 1;
                    assert(s0.shape_paragraphs.take(i as int) =~= s0.shape_paragraphs.take(
                        i - 1,
                    ).push(p@));
                    assert(self@ =~= (SlideWalkerView {
                        body: strings_view(before) + s0.shape_paragraphs.take(i as int),
                        ..s0
                    }));
                }
                assert(s0.shape_paragraphs.take(self.shape_paragraphs.len() as int)
                    =~= s0.shape_paragraphs);
            }
        }
        let ghost s1 = if s0.shape_paragraphs.len() == 0 {
            s0
        } else if is_title_ph(s0.shape_ph_type) && s0.title is None {
            SlideWalkerView { title: Some(join_spec(s0.shape_paragraphs, " "@)), ..s0 }
        } else if s0.is_notes && s0.shape_ph_type == Some("sldNum"@) {
            s0
        } else {
            SlideWalkerView { body: s0.body + s0.shape_paragraphs, ..s0 }
        };
        assert(self@ =~= s1);
        self.in_shape = false;
        self.shape_ph_type = None;
        self.shape_paragraphs = Vec::new();
        assert(strings_view(self.shape_paragraphs@) =~= Seq::<Seq<char>>::empty());
        assert(self@ =~= close_shape_spec(old(self)@));
    }

    /// One non-terminal event.
    pub fn step(&mut self, e: &XmlEvent)
        ensures
            final(self)@ == slide_step(old(self)@, e@),
    {
        match e {
            XmlEvent::Start(t) => {
                let n = local_name(&t.name);
                if crate::text::ascii_eq(&n, "sp") {
                    self.in_shape = true;
                    self.shape_ph_type = None;
                    self.shape_paragraphs = Vec::new();
                    assert(strings_view(self.shape_paragraphs@) =~= Seq::<Seq<char>>::empty());
                } else if crate::text::ascii_eq(&n, "txBody") && self.in_shape {
                    self.in_text_body = true;
                } else if crate::text::ascii_eq(&n, "p") && self.in_text_body {
                    self.current_para = String::new();
                } else if crate::text::ascii_eq(&n, "t") && self.in_text_body {
                    self.in_text = true;
                }
                assert(self@ =~= slide_step(old(self)@, e@));
            },
            XmlEvent::Empty(t) => {
                let n = local_name(&t.name);
                if crate::text::ascii_eq(&n, "ph") && self.in_shape {
                    self.shape_ph_type = attr_val(t, "type");
                } else if crate::text::ascii_eq(&n, "br") && self.in_text_body {
                    self.current_para.push('\n');
                }
                assert(self@ =~= slide_step(old(self)@, e@));
            },
            XmlEvent::Text(t) => {
                if self.in_text {
                    match t {
                        Some(text) => {
                            self.current_para.push_str(text.as_str());
                        },
                        None => {},
                    }
                }
                assert(self@ =~= slide_step(old(self)@, e@));
            },
            XmlEvent::End(q) => {
                let n = local_name(q);
                if crate::text::ascii_eq(&n, "t") {
                    self.in_text = false;
                } else if crate::text::ascii_eq(&n, "p") && self.in_text_body {
                    let cs = str_chars(self.current_para.as_str());
                    let trimmed = trim_chars(&cs);
                    if trimmed.len() > 0 {
                        let t = string_from_chars(&trimmed);
                        let ghost b = self.shape_paragraphs@;
                        self.shape_paragraphs.push(t);
                        assert(strings_view(self.shape_paragraphs@) =~= strings_view(b).push(
                            trimmed@,
                        ));
                    }
                    self.current_para = String::new();
                } else if crate::text::ascii_eq(&n, "txBody") {
                    self.in_text_body = false;
                } else if crate::text::ascii_eq(&n, "sp") {
                    self.close_shape();
                }
                assert(self@ =~= slide_step(old(self)@, e@));
            },
            _ => {},
        }
    }
}

/// The view of a parse result.
pub open spec fn slide_result_view(r: Result<(Option<String>, Vec<String>), CoreError>) -> Result<
    (Option<Seq<char>>, Seq<Seq<char>>),
    CoreError,
> {
    match r {
        Ok((t, b)) => Ok((opt_string_view(t), strings_view(b@))),
        Err(e) => Err(e),
    }
}

/// Whether a parse result matches the expected outcome, error messages
/// compared by their text.
pub open spec fn slide_result_matches(
    r: Result<(Option<String>, Vec<String>), CoreError>,
    expected: Result<(Option<Seq<char>>, Seq<Seq<char>>), Seq<char>>,
) -> bool {
    match (r, expected) {
        (Ok((t, b)), Ok((et, eb))) => opt_string_view(t) == et && strings_view(b@) == eb,
        (Err(CoreError::Llm(m)), Err(em)) => m@ == em,
        _ => false,
    }
}

/// Extract `(title, body paragraphs)` from an event sequence of a slide or
/// (with `is_notes`) a notes part.
pub fn slide_from_events(events: &Vec<XmlEvent>, is_notes: bool) -> (r: Result<
    (Option<String>, Vec<String>),
    CoreError,
>)
    ensures
        slide_result_matches(r, slide_run(slide_initial(is_notes), events_view(events@))),
{
    let ghost all = events_view(events@);
    let mut s = SlideWalker::new(is_notes);
    let mut i: usize = 0;
    assert(all.skip(0) =~= all);
    loop
        invariant
            i <= events.len(),
            all == events_view(events@),
            slide_run(s@, all.skip(i as int)) == slide_run(slide_initial(is_notes), all),
        decreases events.len() - i,
    {
        if i >= events.len() {
            assert(all.skip(i as int).len() == 0);
            return Ok((s.title, s.body));
        }
        proof {
            assert(all.skip(i as int)[0] == events@[i as int]@);
            assert(all.skip(i as int).drop_first() =~= all.skip(i + 1));
        }
        match &events[i] {
            XmlEvent::Eof => {
                return Ok((s.title, s.body));
            },
            XmlEvent::Fail(m) => {
                let mut msg = String::new();
                msg.push_str("PPTX-XML-Parse-Fehler: ");
                msg.push_str(m.as_str());
                return Err(CoreError::Llm(msg));
            },
            e => {
                s.step(e);
            },
        }
        i = i + 1;
    }
}

/// Extract `(title, body paragraphs)` from a slide's XML, or from a notes
/// part's XML (then without the slide-number placeholder).
pub fn parse_slide(xml: &str, is_notes: bool) -> (r: Result<(Option<String>, Vec<String>), CoreError>)
    ensures
        slide_result_matches(r, slide_run(slide_initial(is_notes), xml_events(xml@))),
{
    let events = read_xml_events(xml);
    slide_from_events(&events, is_notes)
}

/// A decimal digit.
pub open spec fn is_digit(c: char) -> bool {
    '0' <= c && c <= '9'
}

/// Every character is a decimal digit.
pub open spec fn all_digits(d: Seq<char>) -> bool {
    forall|i: int| 0 <= i < d.len() ==> is_digit(#[trigger] d[i])
}

/// The value of a string of decimal digits.
pub open spec fn digits_value(s: Seq<char>) -> nat
    decreases s.len(),
{
    if s.len() == 0 {
        0
    } else {
        digits_value(s.drop_last()) * 10 + ((s.last() as nat) - ('0' as nat)) as nat
    }
}

/// What `str::parse::<usize>` gives: an optional `+` followed by at least
/// one decimal digit and nothing else, whose value fits in a `usize`.
pub open spec fn parse_usize_spec(s: Seq<char>) -> Option<usize> {
    let d = if s.len() > 0 && s[0] == '+' {
        s.drop_first()
    } else {
        s
    };
    if d.len() == 0 || !all_digits(d) {
        None
    } else if digits_value(d) > usize::MAX {
        None
    } else {
        Some(digits_value(d) as usize)
    }
}

proof fn lemma_digits_monotone(s: Seq<char>, k: int)
    requires
        0 <= k <= s.len(),
        forall|i: int| 0 <= i < s.len() ==> is_digit(#[trigger] s[i]),
    ensures
        digits_value(s.take(k)) <= digits_value(s),
    decreases s.len() - k,
{
    if k < s.len() {
        let t = s.take(k + 1);
        assert(t.drop_last() =~= s.take(k));
        assert(is_digit(t.last()));
        lemma_digits_monotone(s, k + 1);
    } else {
        assert(s.take(k) =~= s);
    }
}

/// `str::parse::<usize>`.
pub fn parse_usize(cs: &Vec<char>) -> (r: Option<usize>)
    ensures
        r == parse_usize_spec(cs@),
{
    let n = cs.len();
    let start: usize = if n > 0 && cs[0] == '+' {
        1
    } else {
        0
    };
    let ghost d = if cs@.len() > 0 && cs@[0] == '+' {
        cs@.drop_first()
    } else {
        cs@
    };
    assert(d =~= cs@.skip(start as int));
    if start == n {
        return None;
    }
    let mut acc: usize = 0;
    let mut i = start;
    while i < n
        invariant
            start <= i <= n,
            n == cs.len(),
            d == cs@.skip(start as int),
            d == (if cs@.len() > 0 && cs@[0] == '+' {
                cs@.drop_first()
            } else {
                cs@
            }),
            forall|j: int| 0 <= j < i - start ==> is_digit(#[trigger] d[j]),
            acc as nat == digits_value(d.take(i - start)),
        decreases n - i,
    {
        let c = cs[i];
        assert(d[i - start] == c);
        if !('0' <= c && c <= '9') {
            assert(!is_digit(d[i - start]));
            assert(0 <= i - start < d.len());
            assert(!all_digits(d));
            return None;
        }
        let digit = (c as u32 - '0' as u32) as usize;
        assert(d.take(i - start + 1).drop_last() =~= d.take(i - start));
        assert(d.take(i - start + 1).last() == c);
        let next = match acc.checked_mul(10) {
            Some(m) => m.checked_add(digit),
            None => None,
        };
        match next {
            Some(v) => {
                acc = v;
            },
            None => {
                proof {
                    let k = i - start + 1;
                    assert(digits_value(d.take(k)) == acc * 10 + digit);
                    assert(digits_value(d.take(k)) > usize::MAX);
                    if all_digits(d) {
                        lemma_digits_monotone(d, k);
                    }
                }
                return None;
            },
        }
        i = i + 1;
    }
    assert(d.take(n - start) =~= d);
    Some(acc)
}

/// `s` ends with `p`.
pub open spec fn has_suffix(s: Seq<char>, p: Seq<char>) -> bool {
    p.len() <= s.len() && s.subrange(s.len() - p.len(), s.len() as int) == p
}

/// The number between `prefix` and `suffix` in `name`, e.g. 10 for
/// `ppt/slides/slide10.xml` with prefix `ppt/slides/slide` and suffix `.xml`.
pub open spec fn parse_index_spec(name: Seq<char>, prefix: Seq<char>, suffix: Seq<char>) -> Option<
    usize,
> {
    if has_prefix(name, prefix) {
        let rest = name.skip(prefix.len() as int);
        if has_suffix(rest, suffix) {
            parse_usize_spec(rest.take(rest.len() - suffix.len()))
        } else {
            None
        }
    } else {
        None
    }
}

fn starts_with_chars(s: &Vec<char>, p: &Vec<char>) -> (r: bool)
    ensures
        r == has_prefix(s@, p@),
{
    if p.len() > s.len() {
        return false;
    }
    let mut i: usize = 0;
    while i < p.len()
        invariant
            p.len() <= s.len(),
            i <= p.len(),
            forall|j: int| 0 <= j < i ==> s@[j] == p@[j],
        decreases p.len() - i,
    {
        if s[i] != p[i] {
            assert(s@.subrange(0, p@.len() as int)[i as int] != p@[i as int]);
            return false;
        }
        i = i + 1;
    }
    assert(s@.subrange(0, p@.len() as int) =~= p@);
    true
}

pub fn ends_with_chars(s: &Vec<char>, p: &Vec<char>) -> (r: bool)
    ensures
        r == has_suffix(s@, p@),
{
    if p.len() > s.len() {
        return false;
    }
    let off = s.len() - p.len();
    let mut i: usize = 0;
    while i < p.len()
        invariant
            p.len() <= s.len(),
            off == s.len() - p.len(),
            i <= p.len(),
            forall|j: int| 0 <= j < i ==> s@[off + j] == p@[j],
        decreases p.len() - i,
    {
        if s[off + i] != p[i] {
            assert(s@.subrange(off as int, s@.len() as int)[i as int] != p@[i as int]);
            return false;
        }
        i = i + 1;
    }
    assert(s@.subrange(off as int, s@.len() as int) =~= p@);
    true
}

fn slice_chars(s: &Vec<char>, from: usize, to: usize) -> (r: Vec<char>)
    requires
        from <= to <= s.len(),
    ensures
        r@ == s@.subrange(from as int, to as int),
{
    let mut out: Vec<char> = Vec::new();
    let mut i = from;
    while i < to
        invariant
            from <= i <= to,
            to <= s.len(),
            out@ == s@.subrange(from as int, i as int),
        decreases to - i,
    {
        out.push(s[i]);
        i = i + 1;
        assert(out@ =~= s@.subrange(from as int, i as int));
    }
    out
}

/// The number between `prefix` and `suffix` in `name`
/// (`strip_prefix`, `strip_suffix`, then `parse::<usize>`).
pub fn parse_index(name: &str, prefix: &str, suffix: &str) -> (r: Option<usize>)
    ensures
        r == parse_index_spec(name@, prefix@, suffix@),
{
    let n = str_chars(name);
    let p = str_chars(prefix);
    let x = str_chars(suffix);
    if !starts_with_chars(&n, &p) {
        return None;
    }
    let rest = slice_chars(&n, p.len(), n.len());
    assert(rest@ =~= name@.skip(prefix@.len() as int));
    if !ends_with_chars(&rest, &x) {
        return None;
    }
    let core = slice_chars(&rest, 0, rest.len() - x.len());
    assert(core@ =~= rest@.take(rest@.len() - suffix@.len()));
    parse_usize(&core)
}

/// One slide of the outline.
#[derive(Debug)]
pub struct SlidePreview {
    /// 1-based slide number, as in the part name.
    pub index: usize,
    pub title: Option<String>,
    pub body: Vec<String>,
    pub notes: Vec<String>,
}

pub struct SlideView {
    pub index: usize,
    pub title: Option<Seq<char>>,
    pub body: Seq<Seq<char>>,
    pub notes: Seq<Seq<char>>,
}

impl View for SlidePreview {
    type V = SlideView;

    open spec fn view(&self) -> SlideView {
        SlideView {
            index: self.index,
            title: opt_string_view(self.title),
            body: strings_view(self.body@),
            notes: strings_view(self.notes@),
        }
    }
}

/// The views of a list of slides.
pub open spec fn slides_view(v: Seq<SlidePreview>) -> Seq<SlideView> {
    v.map_values(|s: SlidePreview| s@)
}

/// An ordered table from part number to part name.
pub type PartTable = Vec<(usize, String)>;

/// The view of a part table.
pub open spec fn table_view(t: Seq<(usize, String)>) -> Seq<(usize, Seq<char>)> {
    t.map_values(|e: (usize, String)| (e.0, e.1@))
}

/// The position of the first entry whose number is at least `k`.
pub open spec fn lower_bound(t: Seq<(usize, Seq<char>)>, k: usize) -> int
    decreases t.len(),
{
    if t.len() == 0 {
        0
    } else if t[0].0 >= k {
        0
    } else {
        1 + lower_bound(t.drop_first(), k)
    }
}

/// Enter `k → v`, replacing an entry with the same number.
pub open spec fn table_insert(t: Seq<(usize, Seq<char>)>, k: usize, v: Seq<char>) -> Seq<
    (usize, Seq<char>),
> {
    let p = lower_bound(t, k);
    if p < t.len() && t[p].0 == k {
        t.update(p, (k, v))
    } else {
        t.insert(p, (k, v))
    }
}

/// The name entered for number `k`.
pub open spec fn table_get(t: Seq<(usize, Seq<char>)>, k: usize) -> Option<Seq<char>> {
    let p = lower_bound(t, k);
    if p < t.len() && t[p].0 == k {
        Some(t[p].1)
    } else {
        None
    }
}

/// Numbers strictly increase along the table.
pub open spec fn table_sorted(t: Seq<(usize, Seq<char>)>) -> bool {
    forall|i: int, j: int| 0 <= i < j < t.len() ==> t[i].0 < t[j].0
}

/// The slide parts and the notes parts of an archive, by number: a name
/// counts as a slide when it is `ppt/slides/slide<n>.xml`, else as notes when
/// it is `ppt/notesSlides/notesSlide<n>.xml`; a later name with the same
/// number replaces an earlier one.
pub open spec fn part_tables(names: Seq<Seq<char>>) -> (Seq<(usize, Seq<char>)>, Seq<(usize, Seq<char>)>)
    decreases names.len(),
{
    if names.len() == 0 {
        (Seq::empty(), Seq::empty())
    } else {
        let (sl, no) = part_tables(names.drop_last());
        let n = names.last();
        match parse_index_spec(n, "ppt/slides/slide"@, ".xml"@) {
            Some(k) => (table_insert(sl, k, n), no),
            None => match parse_index_spec(n, "ppt/notesSlides/notesSlide"@, ".xml"@) {
                Some(k) => (sl, table_insert(no, k, n)),
                None => (sl, no),
            },
        }
    }
}

/// Why a PPTX preview fails.
pub enum PptxFailure {
    /// A ZIP error; the message starts with the given text.
    Zip(Seq<char>),
    /// A part could not be read as text.
    Io,
    /// A part is not well-formed XML; the full message.
    Parse(Seq<char>),
}

/// The text of a part.
pub open spec fn part_text(data: Seq<u8>, name: Seq<char>) -> Result<Seq<char>, PptxFailure> {
    match zip_text_outcome(data, name) {
        ZipTextOutcome::Text(x) => Ok(x),
        ZipTextOutcome::EntryFailed => Err(PptxFailure::Zip("PPTX Zip-Fehler: "@)),
        ZipTextOutcome::ReadFailed => Err(PptxFailure::Io),
    }
}

/// The outline of slide `k` (part `name`) with its notes, if any.
pub open spec fn one_slide(
    data: Seq<u8>,
    k: usize,
    name: Seq<char>,
    notes: Seq<(usize, Seq<char>)>,
) -> Result<SlideView, PptxFailure> {
    match part_text(data, name) {
        Err(e) => Err(e),
        Ok(x) => match slide_run(slide_initial(false), xml_events(x)) {
            Err(m) => Err(PptxFailure::Parse(m)),
            Ok((title, body)) => match table_get(notes, k) {
                None => Ok(SlideView { index: k, title, body, notes: Seq::empty() }),
                Some(nn) => match part_text(data, nn) {
                    Err(e) => Err(e),
                    Ok(nx) => match slide_run(slide_initial(true), xml_events(nx)) {
                        Err(m) => Err(PptxFailure::Parse(m)),
                        Ok((_, paras)) => Ok(SlideView { index: k, title, body, notes: paras }),
                    },
                },
            },
        },
    }
}

/// The outlines of the first `n` slides of the table, or the first failure.
pub open spec fn slides_from(
    data: Seq<u8>,
    t: Seq<(usize, Seq<char>)>,
    notes: Seq<(usize, Seq<char>)>,
    n: int,
) -> Result<Seq<SlideView>, PptxFailure>
    decreases n,
{
    if n <= 0 {
        Ok(Seq::empty())
    } else {
        match slides_from(data, t, notes, n - 1) {
            Err(e) => Err(e),
            Ok(v) => match one_slide(data, t[n - 1].0, t[n - 1].1, notes) {
                Err(e) => Err(e),
                Ok(sv) => Ok(v.push(sv)),
            },
        }
    }
}

/// Every entry of the archive can be opened by index.
pub open spec fn all_entries_open(data: Seq<u8>) -> bool {
    forall|i: int| 0 <= i < zip_entry_names(data).len() ==> zip_index_opens(data, i)
}

/// The outline of a whole deck, slides in increasing number.
pub open spec fn pptx_outcome(data: Seq<u8>) -> Result<Seq<SlideView>, PptxFailure> {
    if !zip_opens(data) {
        Err(PptxFailure::Zip("PPTX kein gültiges ZIP: "@))
    } else {
        if !all_entries_open(data) {
            Err(PptxFailure::Zip("PPTX Zip-Fehler: "@))
        } else {
            let (t, nt) = part_tables(zip_entry_names(data));
            slides_from(data, t, nt, t.len() as int)
        }
    }
}

/// Whether an error matches a failure.
pub open spec fn failure_matches(e: CoreError, f: PptxFailure) -> bool {
    match (e, f) {
        (CoreError::Llm(m), PptxFailure::Zip(p)) => has_prefix(m@, p),
        (CoreError::Io(_), PptxFailure::Io) => true,
        (CoreError::Llm(m), PptxFailure::Parse(p)) => m@ == p,
        _ => false,
    }
}

/// Whether a preview result matches the expected outcome.
pub open spec fn pptx_result_matches(
    r: Result<Vec<SlidePreview>, CoreError>,
    expected: Result<Seq<SlideView>, PptxFailure>,
) -> bool {
    match (r, expected) {
        (Ok(v), Ok(w)) => slides_view(v@) == w,
        (Err(e), Err(f)) => failure_matches(e, f),
        _ => false,
    }
}

fn with_prefix(prefix: &str, detail: &str) -> (m: String)
    ensures
        m@ == prefix@ + detail@,
        has_prefix(m@, prefix@),
{
    let mut m = String::new();
    m.push_str(prefix);
    m.push_str(detail);
    assert(m@.subrange(0, prefix@.len() as int) =~= prefix@);
    m
}

/// Enter `k → v` into the table, replacing an entry with the same number.
pub fn table_insert_exec(t: &mut PartTable, k: usize, v: String)
    ensures
        table_view(final(t)@) == table_insert(table_view(old(t)@), k, v@),
{
    let ghost tv = table_view(t@);
    let mut p: usize = 0;
    assert(tv.skip(0) =~= tv);
    while p < t.len() && t[p].0 < k
        invariant
            p <= t.len(),
            tv == table_view(t@),
            lower_bound(tv, k) == p + lower_bound(tv.skip(p as int), k),
        decreases t.len() - p,
    {
        assert(tv.skip(p as int).drop_first() =~= tv.skip(p + 1));
        p = p + 1;
    }
    proof {
        if p < t.len() {
            assert(tv.skip(p as int)[0] == tv[p as int]);
        }
        assert(lower_bound(tv, k) == p);
    }
    if p < t.len() && t[p].0 == k {
        t.set(p, (k, v));
        assert(table_view(t@) =~= tv.update(p as int, (k, v@)));
    } else {
        t.insert(p, (k, v));
        assert(table_view(t@) =~= tv.insert(p as int, (k, v@)));
    }
}

/// The name entered for number `k`.
pub fn table_get_exec(t: &PartTable, k: usize) -> (r: Option<String>)
    ensures
        opt_string_view(r) == table_get(table_view(t@), k),
{
    let ghost tv = table_view(t@);
    let mut p: usize = 0;
    assert(tv.skip(0) =~= tv);
    while p < t.len() && t[p].0 < k
        invariant
            p <= t.len(),
            tv == table_view(t@),
            lower_bound(tv, k) == p + lower_bound(tv.skip(p as int), k),
        decreases t.len() - p,
    {
        assert(tv.skip(p as int).drop_first() =~= tv.skip(p + 1));
        p = p + 1;
    }
    proof {
        if p < t.len() {
            assert(tv.skip(p as int)[0] == tv[p as int]);
        }
        assert(lower_bound(tv, k) == p);
    }
    if p < t.len() && t[p].0 == k {
        Some(t[p].1.clone())
    } else {
        None
    }
}

proof fn lemma_slides_err_persists(
    data: Seq<u8>,
    t: Seq<(usize, Seq<char>)>,
    notes: Seq<(usize, Seq<char>)>,
    n: int,
    m: int,
)
    requires
        0 <= n <= m,
        slides_from(data, t, notes, n) is Err,
    ensures
        slides_from(data, t, notes, m) == slides_from(data, t, notes, n),
    decreases m - n,
{
    if m > n {
        lemma_slides_err_persists(data, t, notes, n, m - 1);
    }
}

/// The text of a part, with ZIP errors prefixed `PPTX Zip-Fehler: `.
fn read_part(a: &mut Archive, name: &str) -> (r: Result<String, CoreError>)
    ensures
        zip_source(*final(a)) == zip_source(*old(a)),
        match (r, part_text(zip_source(*old(a)), name@)) {
            (Ok(x), Ok(y)) => x@ == y,
            (Err(e), Err(f)) => failure_matches(e, f),
            _ => false,
        },
{
    match read_zip_text_entry(a, name) {
        Ok(x) => Ok(x),
        Err(ZipEntryError::EntryFailed(m)) => Err(CoreError::Llm(with_prefix("PPTX Zip-Fehler: ", m.as_str()))),
        Err(ZipEntryError::ReadFailed(m)) => Err(CoreError::Io(m)),
    }
}

/// The outline of one slide and its notes.
fn build_slide(a: &mut Archive, k: usize, name: &String, notes: &PartTable) -> (r: Result<
    SlidePreview,
    CoreError,
>)
    ensures
        zip_source(*final(a)) == zip_source(*old(a)),
        match (r, one_slide(zip_source(*old(a)), k, name@, table_view(notes@))) {
            (Ok(x), Ok(y)) => x@ == y,
            (Err(e), Err(f)) => failure_matches(e, f),
            _ => false,
        },
{
    let xml = read_part(a, name.as_str())?;
    let (title, body) = match parse_slide(xml.as_str(), false) {
        Ok(tb) => tb,
        Err(e) => {
            return Err(e);
        },
    };
    let notes_out = match table_get_exec(notes, k) {
        Some(nn) => {
            let nx = read_part(a, nn.as_str())?;
            match parse_slide(nx.as_str(), true) {
                Ok((_, paragraphs)) => paragraphs,
                Err(e) => {
                    return Err(e);
                },
            }
        },
        None => {
            let v: Vec<String> = Vec::new();
            assert(strings_view(v@) =~= Seq::<Seq<char>>::empty());
            v
        },
    };
    Ok(SlidePreview { index: k, title, body, notes: notes_out })
}

/// Outline every slide of a `.pptx` file (its bytes), in slide order: title,
/// body paragraphs and speaker notes.
pub fn pptx_preview(data: &[u8]) -> (r: Result<Vec<SlidePreview>, CoreError>)
    ensures
        pptx_result_matches(r, pptx_outcome(data@)),
{
    let mut archive = match open_archive(data) {
        Ok(a) => a,
        Err(e) => {
            let detail = zip_error_text(&e);
            return Err(CoreError::Llm(with_prefix("PPTX kein gültiges ZIP: ", detail.as_str())));
        },
    };
    let ghost src = data@;
    let ghost names = zip_entry_names(src);
    let mut slide_files: PartTable = Vec::new();
    let mut notes_files: PartTable = Vec::new();
    let count = archive_len(&archive);
    assert(table_view(slide_files@) =~= Seq::<(usize, Seq<char>)>::empty());
    assert(table_view(notes_files@) =~= Seq::<(usize, Seq<char>)>::empty());
    assert(names.take(0) =~= Seq::<Seq<char>>::empty());
    let mut i: usize = 0;
    while i < count
        invariant
            i <= count,
            count == names.len(),
            zip_source(archive) == src,
            src == data@,
            names == zip_entry_names(src),
            zip_opens(src),
            forall|j: int| 0 <= j < i ==> zip_index_opens(src, j),
            (table_view(slide_files@), table_view(notes_files@)) == part_tables(names.take(i as int)),
        decreases count - i,
    {
        let name = match entry_name_at(&mut archive, i) {
            Ok(n) => n,
            Err(e) => {
                assert(!zip_index_opens(src, i as int));
                assert(!all_entries_open(src));
                assert(pptx_outcome(src) == Err::<Seq<SlideView>, PptxFailure>(
                    PptxFailure::Zip("PPTX Zip-Fehler: "@),
                ));
                let detail = zip_error_text(&e);
                let m = with_prefix("PPTX Zip-Fehler: ", detail.as_str());
                assert(failure_matches(CoreError::Llm(m), PptxFailure::Zip("PPTX Zip-Fehler: "@)));
                return Err(CoreError::Llm(m));
            },
        };
        proof {
            assert(names.take(i + 1).drop_last() =~= names.take(i as int));
            assert(names.take(i + 1).last() == name@);
        }
        match parse_index(name.as_str(), "ppt/slides/slide", ".xml") {
            Some(idx) => {
                table_insert_exec(&mut slide_files, idx, name);
            },
            None => match parse_index(name.as_str(), "ppt/notesSlides/notesSlide", ".xml") {
                Some(idx) => {
                    table_insert_exec(&mut notes_files, idx, name);
                },
                None => {},
            },
        }
        i = i + 1;
    }
    assert(names.take(count as int) =~= names);
    let ghost t = table_view(slide_files@);
    let ghost nt = table_view(notes_files@);
    let mut out: Vec<SlidePreview> = Vec::new();
    assert(slides_view(out@) =~= Seq::<SlideView>::empty());
    let mut j: usize = 0;
    while j < slide_files.len()
        invariant
            j <= slide_files.len(),
            zip_source(archive) == src,
            src == data@,
            t == table_view(slide_files@),
            nt == table_view(notes_files@),
            zip_opens(src),
            all_entries_open(src),
            (t, nt) == part_tables(zip_entry_names(src)),
            slides_from(src, t, nt, j as int) == Ok::<Seq<SlideView>, PptxFailure>(
                slides_view(out@),
            ),
        decreases slide_files.len() - j,
    {
        let k = slide_files[j].0;
        let slide = match build_slide(&mut archive, k, &slide_files[j].1, &notes_files) {
            Ok(sl) => sl,
            Err(e) => {
                proof {
                    assert(t[j as int] == (k, slide_files@[j as int].1@));
                    assert(slides_from(src, t, nt, j + 1) is Err);
                    lemma_slides_err_persists(src, t, nt, j + 1, t.len() as int);
                    assert(pptx_outcome(src) == slides_from(src, t, nt, t.len() as int));
                    assert(failure_matches(e, slides_from(src, t, nt, j + 1)->Err_0));
                }
                return Err(e);
            },
        };
        let ghost before = out@;
        out.push(slide);
        assert(slides_view(out@) =~= slides_view(before).push(slide@));
        j = j + 1;
    }
    Ok(out)
}

proof fn lemma_lower_bound(t: Seq<(usize, Seq<char>)>, k: usize)
    ensures
        0 <= lower_bound(t, k) <= t.len(),
        forall|i: int| 0 <= i < lower_bound(t, k) ==> t[i].0 < k,
        lower_bound(t, k) < t.len() ==> t[lower_bound(t, k)].0 >= k,
    decreases t.len(),
{
    if t.len() > 0 && t[0].0 < k {
        lemma_lower_bound(t.drop_first(), k);
        assert forall|i: int| 0 <= i < lower_bound(t, k) implies t[i].0 < k by {
            if i > 0 {
                assert(t[i] == t.drop_first()[i - 1]);
            }
        }
    }
}

/// Entering a number into a table keeps the numbers strictly increasing,
/// and the number then names the entered part.
pub proof fn lemma_table_insert_sorted(t: Seq<(usize, Seq<char>)>, k: usize, v: Seq<char>)
    requires
        table_sorted(t),
    ensures
        table_sorted(table_insert(t, k, v)),
        table_get(table_insert(t, k, v), k) == Some(v),
{
    lemma_lower_bound(t, k);
    let p = lower_bound(t, k);
    let r = table_insert(t, k, v);
    if p < t.len() && t[p].0 == k {
        assert(table_sorted(r));
        lemma_lower_bound(r, k);
        let q = lower_bound(r, k);
        if q < p {
            assert(r[q].0 == t[q].0);
        }
        if q > p {
            assert(r[p].0 < k);
        }
    } else {
        assert forall|i: int, j: int| 0 <= i < j < r.len() implies r[i].0 < r[j].0 by {
            if j < p {
                assert(r[i] == t[i] && r[j] == t[j]);
            } else if j == p {
                assert(r[i] == t[i]);
            } else if i < p {
                assert(r[i] == t[i] && r[j] == t[j - 1]);
                if p < t.len() {
                    assert(t[p].0 > k);
                }
                assert(t[j - 1].0 >= t[p].0 || j - 1 == p);
            } else if i == p {
                assert(r[j] == t[j - 1]);
                assert(t[p].0 > k);
                assert(t[j - 1].0 >= t[p].0 || j - 1 == p);
            } else {
                assert(r[i] == t[i - 1] && r[j] == t[j - 1]);
            }
        }
        lemma_lower_bound(r, k);
        let q = lower_bound(r, k);
        if q < p {
            assert(r[q] == t[q]);
        }
        if q > p {
            assert(r[p].0 == k);
        }
    }
}

/// The slide and notes tables are ordered by strictly increasing number:
/// each number occurs once, and slides come out in deck order.
pub proof fn lemma_part_tables_sorted(names: Seq<Seq<char>>)
    ensures
        table_sorted(part_tables(names).0),
        table_sorted(part_tables(names).1),
    decreases names.len(),
{
    if names.len() > 0 {
        lemma_part_tables_sorted(names.drop_last());
        let (sl, no) = part_tables(names.drop_last());
        let n = names.last();
        match parse_index_spec(n, "ppt/slides/slide"@, ".xml"@) {
            Some(k) => lemma_table_insert_sorted(sl, k, n),
            None => match parse_index_spec(n, "ppt/notesSlides/notesSlide"@, ".xml"@) {
                Some(k) => lemma_table_insert_sorted(no, k, n),
                None => {},
            },
        }
    }
}

proof fn lemma_slides_from_indices(
    data: Seq<u8>,
    t: Seq<(usize, Seq<char>)>,
    notes: Seq<(usize, Seq<char>)>,
    n: int,
)
    requires
        0 <= n <= t.len(),
        slides_from(data, t, notes, n) is Ok,
    ensures
        slides_from(data, t, notes, n)->Ok_0.len() == n,
        forall|i: int| 0 <= i < n ==> #[trigger] slides_from(data, t, notes, n)->Ok_0[i].index
            == t[i].0,
    decreases n,
{
    if n > 0 {
        lemma_slides_from_indices(data, t, notes, n - 1);
        let prev = slides_from(data, t, notes, n - 1)->Ok_0;
        let cur = slides_from(data, t, notes, n)->Ok_0;
        assert forall|i: int| 0 <= i < n implies #[trigger] cur[i].index == t[i].0 by {
            if i < n - 1 {
                assert(cur[i] == prev[i]);
            }
        }
    }
}

/// A successful deck outline lists each slide number once, in strictly
/// increasing order.
pub proof fn lemma_pptx_slides_in_order(data: Seq<u8>)
    requires
        pptx_outcome(data) is Ok,
    ensures
        forall|i: int, j: int|
            0 <= i < j < pptx_outcome(data)->Ok_0.len() ==> pptx_outcome(data)->Ok_0[i].index
                < pptx_outcome(data)->Ok_0[j].index,
{
    let (t, nt) = part_tables(zip_entry_names(data));
    lemma_part_tables_sorted(zip_entry_names(data));
    lemma_slides_from_indices(data, t, nt, t.len() as int);
    let v = pptx_outcome(data)->Ok_0;
    assert forall|i: int, j: int| 0 <= i < j < v.len() implies v[i].index < v[j].index by {
        assert(v[i].index == t[i].0);
        assert(v[j].index == t[j].0);
    }
}


/// The table has an entry for number `k`.
pub open spec fn table_has(t: Seq<(usize, Seq<char>)>, k: usize) -> bool {
    exists|i: int| 0 <= i < t.len() && #[trigger] t[i].0 == k
}

/// Some entry of the archive is named `ppt/slides/slide<k>.xml`.
pub open spec fn slide_entry(names: Seq<Seq<char>>, k: usize) -> bool {
    exists|j: int|
        0 <= j < names.len() && parse_index_spec(#[trigger] names[j], "ppt/slides/slide"@, ".xml"@)
            == Some(k)
}

proof fn lemma_table_insert_keys(t: Seq<(usize, Seq<char>)>, k: usize, v: Seq<char>, x: usize)
    ensures
        table_has(table_insert(t, k, v), x) <==> (table_has(t, x) || x == k),
{
    lemma_lower_bound(t, k);
    let p = lower_bound(t, k);
    let r = table_insert(t, k, v);
    if p < t.len() && t[p].0 == k {
        if table_has(t, x) {
            let i = choose|i: int| 0 <= i < t.len() && #[trigger] t[i].0 == x;
            if i == p {
                assert(r[p].0 == x);
            } else {
                assert(r[i] == t[i]);
            }
        }
        if x == k {
            assert(r[p].0 == k);
        }
        if table_has(r, x) {
            let i = choose|i: int| 0 <= i < r.len() && #[trigger] r[i].0 == x;
            if i != p {
                assert(r[i] == t[i]);
            }
        }
    } else {
        if table_has(t, x) {
            let i = choose|i: int| 0 <= i < t.len() && #[trigger] t[i].0 == x;
            if i < p {
                assert(r[i] == t[i]);
            } else {
                assert(r[i + 1] == t[i]);
            }
        }
        if x == k {
            assert(r[p].0 == k);
        }
        if table_has(r, x) {
            let i = choose|i: int| 0 <= i < r.len() && #[trigger] r[i].0 == x;
            if i < p {
                assert(r[i] == t[i]);
            } else if i > p {
                assert(r[i] == t[i - 1]);
            }
        }
    }
}

/// The slide table holds exactly the numbers of the slide entries.
pub proof fn lemma_slide_table_keys(names: Seq<Seq<char>>, k: usize)
    ensures
        table_has(part_tables(names).0, k) <==> slide_entry(names, k),
    decreases names.len(),
{
    if names.len() > 0 {
        let prev = names.drop_last();
        lemma_slide_table_keys(prev, k);
        let (sl, no) = part_tables(prev);
        let n = names.last();
        if slide_entry(prev, k) {
            let j = choose|j: int|
                0 <= j < prev.len() && parse_index_spec(#[trigger] prev[j], "ppt/slides/slide"@, ".xml"@)
                    == Some(k);
            assert(names[j] == prev[j]);
        }
        if slide_entry(names, k) {
            let j = choose|j: int|
                0 <= j < names.len() && parse_index_spec(#[trigger] names[j], "ppt/slides/slide"@, ".xml"@)
                    == Some(k);
            if j < prev.len() {
                assert(prev[j] == names[j]);
            }
        }
        match parse_index_spec(n, "ppt/slides/slide"@, ".xml"@) {
            Some(m) => {
                lemma_table_insert_keys(sl, m, n, k);
                assert(names[names.len() - 1] == n);
            },
            None => {},
        }
    }
}

proof fn lemma_slides_from_parts(
    data: Seq<u8>,
    t: Seq<(usize, Seq<char>)>,
    notes: Seq<(usize, Seq<char>)>,
    n: int,
)
    requires
        0 <= n <= t.len(),
        slides_from(data, t, notes, n) is Ok,
    ensures
        forall|i: int|
            0 <= i < n ==> one_slide(data, t[i].0, t[i].1, notes) == Ok::<SlideView, PptxFailure>(
                #[trigger] slides_from(data, t, notes, n)->Ok_0[i],
            ),
    decreases n,
{
    if n > 0 {
        lemma_slides_from_parts(data, t, notes, n - 1);
        lemma_slides_from_indices(data, t, notes, n - 1);
        let prev = slides_from(data, t, notes, n - 1)->Ok_0;
        let cur = slides_from(data, t, notes, n)->Ok_0;
        assert forall|i: int| 0 <= i < n implies one_slide(data, t[i].0, t[i].1, notes) == Ok::<
            SlideView,
            PptxFailure,
        >(#[trigger] cur[i]) by {
            if i < n - 1 {
                assert(cur[i] == prev[i]);
            }
        }
    }
}

/// A successful deck outline has one slide for each number `k` with an
/// entry `ppt/slides/slide<k>.xml`, and no other, in strictly increasing
/// numeric order; each slide is the outline
/// of its part with the notes of `ppt/notesSlides/notesSlide<k>.xml` when
/// that entry exists, as `one_slide` reads them.
pub proof fn lemma_pptx_slide_set(data: Seq<u8>)
    requires
        pptx_outcome(data) is Ok,
    ensures
        ({
            let v = pptx_outcome(data)->Ok_0;
            let (t, nt) = part_tables(zip_entry_names(data));
            &&& v.len() == t.len()
            &&& forall|i: int, j: int| 0 <= i < j < v.len() ==> v[i].index < v[j].index
            &&& forall|k: usize|
                (exists|i: int| 0 <= i < v.len() && #[trigger] v[i].index == k) <==> slide_entry(
                    zip_entry_names(data),
                    k,
                )
            &&& forall|i: int|
                0 <= i < v.len() ==> one_slide(data, v[i].index, t[i].1, nt) == Ok::<
                    SlideView,
                    PptxFailure,
                >(#[trigger] v[i])
        }),
{
    let names = zip_entry_names(data);
    let (t, nt) = part_tables(names);
    lemma_pptx_slides_in_order(data);
    lemma_slides_from_indices(data, t, nt, t.len() as int);
    lemma_slides_from_parts(data, t, nt, t.len() as int);
    let v = pptx_outcome(data)->Ok_0;
    assert forall|k: usize|
        (exists|i: int| 0 <= i < v.len() && #[trigger] v[i].index == k) <==> slide_entry(names, k) by {
        lemma_slide_table_keys(names, k);
        if exists|i: int| 0 <= i < v.len() && #[trigger] v[i].index == k {
            let i = choose|i: int| 0 <= i < v.len() && #[trigger] v[i].index == k;
            assert(t[i].0 == k);
        }
        if table_has(t, k) {
            let i = choose|i: int| 0 <= i < t.len() && #[trigger] t[i].0 == k;
            assert(v[i].index == k);
        }
    }
    assert forall|i: int| 0 <= i < v.len() implies one_slide(data, v[i].index, t[i].1, nt) == Ok::<
        SlideView,
        PptxFailure,
    >(#[trigger] v[i]) by {
        assert(v[i].index == t[i].0);
    }
}


/// Closing a shape that has text: when its placeholder type is `title` or
/// `ctrTitle` (the centred title of a title slide) and the slide has no
/// title yet, its paragraphs joined by spaces become the title and the body
/// is left as it was; a shape of any other type (but the slide number in
/// notes) adds its paragraphs to the body and leaves the title alone.
/// Either way the shape is closed.
pub proof fn lemma_title_shapes(s: SlideWalkerView)
    requires
        s.shape_paragraphs.len() > 0,
    ensures
        (s.shape_ph_type == Some("title"@) || s.shape_ph_type == Some("ctrTitle"@)) && s.title is None
            ==> {
            &&& close_shape_spec(s).title == Some(join_spec(s.shape_paragraphs, " "@))
            &&& close_shape_spec(s).body == s.body
        },
        s.shape_ph_type != Some("title"@) && s.shape_ph_type != Some("ctrTitle"@) && !(s.is_notes
            && s.shape_ph_type == Some("sldNum"@)) ==> {
            &&& close_shape_spec(s).title == s.title
            &&& close_shape_spec(s).body == s.body + s.shape_paragraphs
        },
        !close_shape_spec(s).in_shape,
        close_shape_spec(s).shape_paragraphs.len() == 0,
        close_shape_spec(s).shape_ph_type is None,
{
}


/// Character data inside `<a:t>` joins the current paragraph as it is, in
/// any shape; ending a paragraph keeps its trimmed text as the shape's next
/// paragraph unless it is blank.
pub proof fn lemma_slide_text_kept(s: SlideWalkerView, text: Seq<char>)
    ensures
        s.in_text ==> slide_text_spec(s, Some(text)).current_para == s.current_para + text,
        s.in_text_body && trim_spec(s.current_para).len() > 0 ==> slide_end_spec(
            s,
            ascii_bytes("p"@),
        ).shape_paragraphs == s.shape_paragraphs.push(trim_spec(s.current_para)),
        s.in_text_body && trim_spec(s.current_para).len() == 0 ==> slide_end_spec(
            s,
            ascii_bytes("p"@),
        ).shape_paragraphs == s.shape_paragraphs,
{
    reveal_strlit("t");
    reveal_strlit("p");
    assert(ascii_bytes("p"@) != ascii_bytes("t"@)) by {
        assert(ascii_bytes("p"@)[0] != ascii_bytes("t"@)[0]);
    }
}

} // verus!
