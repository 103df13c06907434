use rustatex::document::{Document, DocumentElement, Paragraph, Style};
use rustatex::errors::RustaTexError;
use rustatex::styles::Stylable;
use rustatex::text::u32_decimal;

fn plain_style() -> Style {
    Style { font: None, font_size: None, color: None, bold: false, italic: false }
}

#[test]
fn new_document_is_empty() {
    let doc = Document::new();
    assert!(doc.title.is_none());
    assert!(doc.author.is_none());
    assert!(doc.date.is_none());
    assert!(doc.elements.is_empty());
    assert!(doc.macros.is_empty());
}

#[test]
fn setters_fill_metadata() {
    let mut doc = Document::new();
    doc.set_title("T".to_string());
    doc.set_author("A".to_string());
    doc.set_date("D".to_string());
    assert_eq!(doc.title.as_deref(), Some("T"));
    assert_eq!(doc.author.as_deref(), Some("A"));
    assert_eq!(doc.date.as_deref(), Some("D"));
}

#[test]
fn add_element_appends_in_order() {
    let mut doc = Document::new();
    doc.add_element(DocumentElement::Paragraph(Paragraph { text: "a".to_string(), style: None }));
    doc.add_element(DocumentElement::Paragraph(Paragraph { text: "b".to_string(), style: None }));
    let texts: Vec<&str> = doc
        .elements
        .iter()
        .map(|e| match e {
            DocumentElement::Paragraph(p) => p.text.as_str(),
            _ => panic!("expected paragraphs"),
        })
        .collect();
    assert_eq!(texts, vec!["a", "b"]);
}

#[test]
fn plain_style_changes_nothing() {
    let s = "text".to_string();
    assert_eq!(s.apply_style(&plain_style()), "text");
}

#[test]
fn bold_and_italic_wrap_in_markers() {
    let s = "x".to_string();
    let mut st = plain_style();
    st.bold = true;
    assert_eq!(s.apply_style(&st), "**x**");
    st.italic = true;
    assert_eq!(s.apply_style(&st), "***x***");
    st.bold = false;
    assert_eq!(s.apply_style(&st), "*x*");
}

#[test]
fn color_font_and_size_wrap_in_spans() {
    let s = "x".to_string();
    let mut st = plain_style();
    st.color = Some("red".to_string());
    assert_eq!(s.apply_style(&st), "<span style=\"color:red\">x</span>");
    let mut st = plain_style();
    st.font = Some("Times".to_string());
    assert_eq!(s.apply_style(&st), "<span style=\"font-family:Times\">x</span>");
    let mut st = plain_style();
    st.font_size = Some(14);
    assert_eq!(s.apply_style(&st), "<span style=\"font-size:14pt\">x</span>");
}

#[test]
fn style_markers_nest_innermost_bold_first() {
    let s = "x".to_string();
    let st = Style {
        font: Some("F".to_string()),
        font_size: Some(9),
        color: Some("c".to_string()),
        bold: true,
        italic: true,
    };
    assert_eq!(
        s.apply_style(&st),
        "<span style=\"font-size:9pt\"><span style=\"font-family:F\"><span style=\"color:c\">***x***</span></span></span>"
    );
}

#[test]
fn decimal_rendering_of_numbers() {
    assert_eq!(u32_decimal(0), "0");
    assert_eq!(u32_decimal(7), "7");
    assert_eq!(u32_decimal(10), "10");
    assert_eq!(u32_decimal(305), "305");
    assert_eq!(u32_decimal(u32::MAX), "4294967295");
}

#[test]
fn error_variants_carry_their_payloads() {
    let e = RustaTexError::IoError("disk".to_string());
    assert!(matches!(e, RustaTexError::IoError(m) if m == "disk"));
    let e = RustaTexError::RenderError("pdf".to_string());
    assert!(matches!(e, RustaTexError::RenderError(m) if m == "pdf"));
    let e = RustaTexError::Other("misc".to_string());
    assert!(matches!(e, RustaTexError::Other(m) if m == "misc"));
}
