use processfox_core::preview_pptx::{parse_index, parse_slide, pptx_preview};
use std::io::Write;

#[test]
fn extracts_title_and_bullets() {
    let xml = r#"<?xml version="1.0"?>
<p:sld xmlns:p="http://schemas.openxmlformats.org/presentationml/2006/main"
       xmlns:a="http://schemas.openxmlformats.org/drawingml/2006/main">
  <p:cSld><p:spTree>
    <p:sp>
      <p:nvSpPr><p:nvPr><p:ph type="title"/></p:nvPr></p:nvSpPr>
      <p:txBody>
        <a:p><a:r><a:t>Quartalsbericht</a:t></a:r></a:p>
      </p:txBody>
    </p:sp>
    <p:sp>
      <p:nvSpPr><p:nvPr><p:ph type="body" idx="1"/></p:nvPr></p:nvSpPr>
      <p:txBody>
        <a:p><a:r><a:t>Punkt eins</a:t></a:r></a:p>
        <a:p><a:r><a:t>Punkt zwei</a:t></a:r></a:p>
      </p:txBody>
    </p:sp>
  </p:spTree></p:cSld>
</p:sld>"#;
    let (title, body) = parse_slide(xml, false).unwrap();
    assert_eq!(title.as_deref(), Some("Quartalsbericht"));
    assert_eq!(body, vec!["Punkt eins", "Punkt zwei"]);
}

#[test]
fn drops_slide_number_in_notes() {
    let xml = r#"<?xml version="1.0"?>
<p:notes xmlns:p="http://schemas.openxmlformats.org/presentationml/2006/main"
         xmlns:a="http://schemas.openxmlformats.org/drawingml/2006/main">
  <p:cSld><p:spTree>
    <p:sp>
      <p:nvSpPr><p:nvPr><p:ph type="sldNum" idx="2"/></p:nvPr></p:nvSpPr>
      <p:txBody><a:p><a:r><a:t>3</a:t></a:r></a:p></p:txBody>
    </p:sp>
    <p:sp>
      <p:nvSpPr><p:nvPr><p:ph type="body" idx="1"/></p:nvPr></p:nvSpPr>
      <p:txBody><a:p><a:r><a:t>Notiz</a:t></a:r></a:p></p:txBody>
    </p:sp>
  </p:spTree></p:cSld>
</p:notes>"#;
    let (_, body) = parse_slide(xml, true).unwrap();
    assert_eq!(body, vec!["Notiz"]);
}

#[test]
fn slide_index_parsing_keeps_numeric_order() {
    assert_eq!(
        parse_index("ppt/slides/slide10.xml", "ppt/slides/slide", ".xml"),
        Some(10)
    );
    assert_eq!(
        parse_index("ppt/slides/slide1.xml", "ppt/slides/slide", ".xml"),
        Some(1)
    );
    assert_eq!(
        parse_index("ppt/slides/_rels/slide1.xml.rels", "ppt/slides/slide", ".xml"),
        None
    );
}

#[test]
fn slide_index_rejects_empty_and_non_digits() {
    assert_eq!(parse_index("ppt/slides/slide.xml", "ppt/slides/slide", ".xml"), None);
    assert_eq!(parse_index("ppt/slides/slideA.xml", "ppt/slides/slide", ".xml"), None);
}

fn slide_xml(title: &str) -> String {
    format!(
        r#"<?xml version="1.0"?>
<p:sld xmlns:p="http://schemas.openxmlformats.org/presentationml/2006/main"
       xmlns:a="http://schemas.openxmlformats.org/drawingml/2006/main">
  <p:cSld><p:spTree><p:sp>
    <p:nvSpPr><p:nvPr><p:ph type="title"/></p:nvPr></p:nvSpPr>
    <p:txBody><a:p><a:r><a:t>{title}</a:t></a:r></a:p></p:txBody>
  </p:sp></p:spTree></p:cSld>
</p:sld>"#
    )
}

#[test]
fn slides_come_out_in_numeric_order() {
    let mut buf = std::io::Cursor::new(Vec::new());
    {
        let mut w = zip::ZipWriter::new(&mut buf);
        let opts: zip::write::SimpleFileOptions = zip::write::SimpleFileOptions::default();
        for (name, title) in [
            ("ppt/slides/slide10.xml", "Zehn"),
            ("ppt/slides/slide2.xml", "Zwei"),
            ("ppt/slides/slide1.xml", "Eins"),
        ] {
            w.start_file(name, opts).unwrap();
            w.write_all(slide_xml(title).as_bytes()).unwrap();
        }
        w.finish().unwrap();
    }
    let slides = pptx_preview(&buf.into_inner()).unwrap();
    let got: Vec<(usize, Option<String>)> =
        slides.into_iter().map(|s| (s.index, s.title)).collect();
    assert_eq!(
        got,
        vec![
            (1, Some("Eins".to_string())),
            (2, Some("Zwei".to_string())),
            (10, Some("Zehn".to_string())),
        ]
    );
}

#[test]
fn pptx_rejects_non_archive() {
    assert!(pptx_preview(b"garbage").is_err());
}
