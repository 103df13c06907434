use rustatex::document::{Document, DocumentElement};
use rustatex::errors::RustaTexError;
use rustatex::parser::{parse_input, parse_with_macros, substitute_macros};

#[test]
fn empty_input_gives_empty_document() {
    let doc = parse_input("").unwrap();
    assert!(doc.title.is_none());
    assert!(doc.author.is_none());
    assert!(doc.date.is_none());
    assert_eq!(doc.elements.len(), 0);
    assert_eq!(doc.macros.len(), 0);
}

#[test]
fn commands_set_metadata_and_elements() {
    let input = "\\title{Hello}\n\\author{Ada}\n\\section{Intro}\nThis is a paragraph with some words.";
    let doc = parse_input(input).unwrap();
    assert_eq!(doc.title.as_deref(), Some("Hello"));
    assert_eq!(doc.author.as_deref(), Some("Ada"));
    assert_eq!(doc.elements.len(), 2);
    match &doc.elements[0] {
        DocumentElement::Section(s) => assert_eq!(s.title, "Intro"),
        _ => panic!("expected a section first"),
    }
    match &doc.elements[1] {
        DocumentElement::Paragraph(p) => {
            assert_eq!(p.text, "This is a paragraph with some words.")
        }
        _ => panic!("expected a paragraph second"),
    }
}

#[test]
fn date_and_subsection_and_paragraph_commands() {
    let input = "\\date{2024-01-01}\n\\subsection{Sub}\n\\paragraph{direct text}";
    let doc = parse_input(input).unwrap();
    assert_eq!(doc.date.as_deref(), Some("2024-01-01"));
    assert_eq!(doc.elements.len(), 2);
    match &doc.elements[0] {
        DocumentElement::Subsection(s) => assert_eq!(s.title, "Sub"),
        _ => panic!("expected a subsection"),
    }
    match &doc.elements[1] {
        DocumentElement::Paragraph(p) => assert_eq!(p.text, "direct text"),
        _ => panic!("expected a paragraph"),
    }
}

#[test]
fn macro_substitution_is_order_sensitive() {
    let input = "uses \\X here\n\n\\macro{X=Y}\nuses \\X again";
    let doc = parse_input(input).unwrap();
    assert_eq!(doc.elements.len(), 2);
    match &doc.elements[0] {
        DocumentElement::Paragraph(p) => assert_eq!(p.text, "uses \\X here"),
        _ => panic!("expected a paragraph"),
    }
    match &doc.elements[1] {
        DocumentElement::Paragraph(p) => assert_eq!(p.text, "uses Y again"),
        _ => panic!("expected a paragraph"),
    }
}

#[test]
fn unresolved_macro_reference_stays_literal() {
    let err = parse_input("\\undefined stays as it is").unwrap_err();
    // A lone backslash word at the start of a line opens a command, so the
    // reference must sit inside running text to stay a paragraph.
    assert!(matches!(err, RustaTexError::SyntaxError { .. }));
    let doc = parse_input("text with \\undefined inside").unwrap();
    match &doc.elements[0] {
        DocumentElement::Paragraph(p) => assert_eq!(p.text, "text with \\undefined inside"),
        _ => panic!("expected a paragraph"),
    }
}

#[test]
fn unknown_command_is_fatal() {
    let err = parse_input("\\foo{bar}").unwrap_err();
    match err {
        RustaTexError::UnknownCommand { name, line, column } => {
            assert_eq!(name, "foo");
            assert_eq!(line, 1);
            assert_eq!(column, 1);
        }
        _ => panic!("expected an unknown-command error"),
    }
}

#[test]
fn unknown_command_position_counts_lines() {
    let err = parse_input("first paragraph\n\n\\foo{x}").unwrap_err();
    match err {
        RustaTexError::UnknownCommand { name, line, column } => {
            assert_eq!(name, "foo");
            assert_eq!(line, 3);
            assert_eq!(column, 1);
        }
        _ => panic!("expected an unknown-command error"),
    }
}

#[test]
fn malformed_macro_definition_is_invalid_syntax() {
    let err = parse_input("\\macro{onlyonevalue}").unwrap_err();
    match err {
        RustaTexError::InvalidSyntax { argument, line, column } => {
            assert_eq!(argument, "onlyonevalue");
            assert_eq!(line, 1);
            assert_eq!(column, 1);
        }
        _ => panic!("expected an invalid-syntax error"),
    }
    let err = parse_input("\\macro{a=b=c}").unwrap_err();
    assert!(matches!(err, RustaTexError::InvalidSyntax { argument, .. } if argument == "a=b=c"));
}

#[test]
fn macro_definition_trims_both_sides() {
    let doc = parse_input("\\macro{ name = some value }\n\\paragraph{\\name}").unwrap();
    match &doc.elements[0] {
        DocumentElement::Paragraph(p) => assert_eq!(p.text, "some value"),
        _ => panic!("expected a paragraph"),
    }
    assert_eq!(doc.get_macro("name").map(|s| s.as_str()), Some("some value"));
}

#[test]
fn missing_brace_is_a_syntax_error() {
    let err = parse_input("\\title{unterminated").unwrap_err();
    assert!(matches!(err, RustaTexError::SyntaxError { line: 1, column: 1 }));
    let err = parse_input("\\title missing").unwrap_err();
    assert!(matches!(err, RustaTexError::SyntaxError { .. }));
    let err = parse_input("\\{}").unwrap_err();
    assert!(matches!(err, RustaTexError::SyntaxError { .. }));
}

#[test]
fn escaped_brace_stays_in_argument() {
    let doc = parse_input("\\title{a \\} b}").unwrap();
    assert_eq!(doc.title.as_deref(), Some("a \\} b"));
}

#[test]
fn substitution_is_single_pass() {
    let mut doc = Document::new();
    doc.define_macro("X".to_string(), "\\Y".to_string());
    doc.define_macro("Y".to_string(), "z".to_string());
    let out = substitute_macros("see \\X end", &doc);
    assert_eq!(out, "see \\Y end");
}

#[test]
fn substitution_replaces_every_reference() {
    let mut doc = Document::new();
    doc.define_macro("X".to_string(), "Y".to_string());
    assert_eq!(substitute_macros("\\X \\X \\Xtail \\other", &doc), "Y Y \\Xtail \\other");
    assert_eq!(substitute_macros("", &doc), "");
    assert_eq!(substitute_macros("no refs", &doc), "no refs");
}

#[test]
fn later_definition_replaces_earlier() {
    let mut doc = Document::new();
    doc.define_macro("X".to_string(), "1".to_string());
    doc.define_macro("Y".to_string(), "3".to_string());
    doc.define_macro("X".to_string(), "2".to_string());
    // Keys stay unique: redefining replaces the entry.
    assert_eq!(doc.macros.len(), 2);
    assert_eq!(doc.get_macro("X").map(|s| s.as_str()), Some("2"));
    assert_eq!(doc.get_macro("Y").map(|s| s.as_str()), Some("3"));
    assert!(doc.get_macro("missing").is_none());
}

#[test]
fn preseeded_macros_are_visible_to_substitution() {
    let seeds = vec![("X".to_string(), "Y".to_string())];
    let doc = parse_with_macros("uses \\X here", seeds).unwrap();
    match &doc.elements[0] {
        DocumentElement::Paragraph(p) => assert_eq!(p.text, "uses Y here"),
        _ => panic!("expected a paragraph"),
    }
}

#[test]
fn in_document_definition_replaces_a_seed() {
    let seeds = vec![("X".to_string(), "Y".to_string())];
    let doc = parse_with_macros("\\macro{X=Z}\nuses \\X here", seeds).unwrap();
    match &doc.elements[0] {
        DocumentElement::Paragraph(p) => assert_eq!(p.text, "uses Z here"),
        _ => panic!("expected a paragraph"),
    }
    assert_eq!(doc.macros.len(), 1);
    assert_eq!(doc.get_macro("X").map(|s| s.as_str()), Some("Z"));
}

#[test]
fn blank_lines_separate_paragraphs() {
    let doc = parse_input("one two\nthree\n\nfour").unwrap();
    assert_eq!(doc.elements.len(), 2);
    match &doc.elements[0] {
        DocumentElement::Paragraph(p) => assert_eq!(p.text, "one two\nthree"),
        _ => panic!("expected a paragraph"),
    }
    match &doc.elements[1] {
        DocumentElement::Paragraph(p) => assert_eq!(p.text, "four"),
        _ => panic!("expected a paragraph"),
    }
}

#[test]
fn command_line_ends_a_paragraph() {
    let doc = parse_input("some text\n\\section{S}").unwrap();
    assert_eq!(doc.elements.len(), 2);
    match &doc.elements[0] {
        DocumentElement::Paragraph(p) => assert_eq!(p.text, "some text"),
        _ => panic!("expected a paragraph"),
    }
    match &doc.elements[1] {
        DocumentElement::Section(s) => assert_eq!(s.title, "S"),
        _ => panic!("expected a section"),
    }
}

#[test]
fn section_title_is_substituted() {
    let doc = parse_input("\\macro{proj=Apollo}\n\\section{About \\proj}").unwrap();
    match &doc.elements[0] {
        DocumentElement::Section(s) => assert_eq!(s.title, "About Apollo"),
        _ => panic!("expected a section"),
    }
}
