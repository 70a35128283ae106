use processfox_core::preview_docx::{docx_to_html, escape_html, heading_tag_for, walk};
use std::io::Write;

#[test]
fn maps_heading_styles() {
    assert_eq!(heading_tag_for(Some("Heading1")), "h1");
    assert_eq!(heading_tag_for(Some("Heading 1")), "h1");
    assert_eq!(heading_tag_for(Some("heading2")), "h2");
    assert_eq!(heading_tag_for(Some("Title")), "h1");
    assert_eq!(heading_tag_for(Some("Subtitle")), "h2");
    assert_eq!(heading_tag_for(None), "p");
    assert_eq!(heading_tag_for(Some("Normal")), "p");
}

#[test]
fn escapes_html_chars() {
    assert_eq!(escape_html("a<b>&\""), "a&lt;b&gt;&amp;&quot;");
}

#[test]
fn walks_simple_paragraph() {
    let xml = r#"<?xml version="1.0"?>
<w:document xmlns:w="http://schemas.openxmlformats.org/wordprocessingml/2006/main">
  <w:body>
    <w:p>
      <w:pPr><w:pStyle w:val="Heading1"/></w:pPr>
      <w:r><w:t>Hello</w:t></w:r>
    </w:p>
    <w:p>
      <w:r><w:rPr><w:b/></w:rPr><w:t>bold</w:t></w:r>
      <w:r><w:t> </w:t></w:r>
      <w:r><w:rPr><w:i/></w:rPr><w:t>italic</w:t></w:r>
    </w:p>
  </w:body>
</w:document>"#;
    let html = walk(xml).unwrap();
    assert!(html.contains("<h1>Hello</h1>"));
    assert!(html.contains("<strong>bold</strong>"));
    assert!(html.contains("<em>italic</em>"));
}

#[test]
fn folds_consecutive_list_items() {
    let xml = r#"<?xml version="1.0"?>
<w:document xmlns:w="http://schemas.openxmlformats.org/wordprocessingml/2006/main">
  <w:body>
    <w:p><w:pPr><w:numPr><w:ilvl w:val="0"/><w:numId w:val="1"/></w:numPr></w:pPr><w:r><w:t>One</w:t></w:r></w:p>
    <w:p><w:pPr><w:numPr><w:ilvl w:val="0"/><w:numId w:val="1"/></w:numPr></w:pPr><w:r><w:t>Two</w:t></w:r></w:p>
    <w:p><w:r><w:t>After</w:t></w:r></w:p>
  </w:body>
</w:document>"#;
    let html = walk(xml).unwrap();
    assert!(html.contains("<ul><li>One</li><li>Two</li></ul>"));
    assert!(html.contains("<p>After</p>"));
}

#[test]
fn disabled_bold_is_not_emitted() {
    let xml = r#"<?xml version="1.0"?>
<w:document xmlns:w="http://schemas.openxmlformats.org/wordprocessingml/2006/main">
  <w:body>
    <w:p><w:r><w:rPr><w:b w:val="false"/></w:rPr><w:t>plain</w:t></w:r></w:p>
  </w:body>
</w:document>"#;
    let html = walk(xml).unwrap();
    assert!(!html.contains("<strong>"));
    assert!(html.contains(">plain<"));
}

#[test]
fn escaped_text_keeps_other_characters() {
    assert_eq!(escape_html("Grüße & 'x'"), "Grüße &amp; 'x'");
    assert_eq!(escape_html(""), "");
}

#[test]
fn text_inside_runs_is_escaped() {
    let xml = r#"<?xml version="1.0"?>
<w:document xmlns:w="http://schemas.openxmlformats.org/wordprocessingml/2006/main">
  <w:body><w:p><w:r><w:t>a &lt; b</w:t></w:r></w:p></w:body>
</w:document>"#;
    let html = walk(xml).unwrap();
    assert!(html.contains("<p>a &lt; b</p>"), "got {html}");
}

fn docx_bytes(document_xml: &str) -> Vec<u8> {
    let mut buf = std::io::Cursor::new(Vec::new());
    {
        let mut w = zip::ZipWriter::new(&mut buf);
        let opts: zip::write::SimpleFileOptions = zip::write::SimpleFileOptions::default();
        w.start_file("word/document.xml", opts).unwrap();
        w.write_all(document_xml.as_bytes()).unwrap();
        w.finish().unwrap();
    }
    buf.into_inner()
}

#[test]
fn docx_archive_is_rendered() {
    let xml = r#"<?xml version="1.0"?>
<w:document xmlns:w="http://schemas.openxmlformats.org/wordprocessingml/2006/main">
  <w:body><w:p><w:pPr><w:pStyle w:val="Title"/></w:pPr><w:r><w:t>Bericht</w:t></w:r></w:p></w:body>
</w:document>"#;
    let html = docx_to_html(&docx_bytes(xml)).unwrap();
    assert!(html.contains("<h1>Bericht</h1>"), "got {html}");
}

#[test]
fn docx_rejects_non_archive() {
    assert!(docx_to_html(b"not a zip file").is_err());
}

#[test]
fn document_markup_never_reaches_the_preview() {
    let xml = r#"<?xml version="1.0"?>
<w:document xmlns:w="http://schemas.openxmlformats.org/wordprocessingml/2006/main">
  <w:body><w:p><w:r><w:rPr><w:b/></w:rPr><w:t>&lt;script&gt;alert("x")&lt;/script&gt;</w:t></w:r></w:p></w:body>
</w:document>"#;
    let html = docx_to_html(&docx_bytes(xml)).unwrap();
    assert_eq!(
        html,
        "<p><strong>&lt;script&gt;alert(&quot;x&quot;)&lt;/script&gt;</strong></p>"
    );
    assert!(!html.to_lowercase().contains("<script"));
}
