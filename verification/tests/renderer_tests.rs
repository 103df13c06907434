use rustatex::document::{Document, DocumentElement, Paragraph, Section};
use rustatex::parser::parse_input;
use rustatex::renderer::{estimate_text_width, layout_document, split_words, wrap_text, RenderConfig};

#[test]
fn width_is_five_units_per_character_and_point() {
    assert_eq!(estimate_text_width("abcd", 12), 4 * 12 * 5);
    assert_eq!(estimate_text_width("", 12), 0);
    assert_eq!(estimate_text_width(" ", 12), 60);
}

#[test]
fn split_words_drops_all_whitespace() {
    let ws = split_words("  one\ttwo\nthree  ");
    assert_eq!(ws, vec!["one".to_string(), "two".to_string(), "three".to_string()]);
    assert_eq!(split_words(""), Vec::<String>::new());
    assert_eq!(split_words("   \n\t "), Vec::<String>::new());
}

#[test]
fn wrap_fills_lines_greedily() {
    // At font size 12 every character measures 60 units; the budget of 1900
    // holds "This is a paragraph with some" (width 1740) but not " words.".
    let lines = wrap_text("This is a paragraph with some words.", 1900, 12);
    assert_eq!(lines, vec!["This is a paragraph with some".to_string(), "words.".to_string()]);
}

#[test]
fn wrap_never_splits_an_overlong_word() {
    let long = "a".repeat(40);
    let text = format!("{} bb", long);
    let lines = wrap_text(&text, 1900, 12);
    assert_eq!(lines, vec![long, "bb".to_string()]);
}

#[test]
fn wrap_of_empty_text_has_no_lines() {
    assert_eq!(wrap_text("", 1900, 12), Vec::<String>::new());
    assert_eq!(wrap_text("   ", 1900, 12), Vec::<String>::new());
}

#[test]
fn wrap_keeps_every_word_once_in_order() {
    let text = "alpha beta gamma delta epsilon zeta eta theta";
    let lines = wrap_text(text, 900, 12);
    let rejoined: Vec<String> =
        lines.iter().flat_map(|l| l.split(' ').map(|w| w.to_string())).collect();
    let expected: Vec<String> = text.split(' ').map(|w| w.to_string()).collect();
    assert_eq!(rejoined, expected);
    for line in &lines {
        // A line of two or more words stays within the budget.
        if line.contains(' ') {
            assert!(estimate_text_width(line, 12) <= 900);
        }
        assert!(!line.is_empty());
    }
}

#[test]
fn default_config_is_a4() {
    let cfg = RenderConfig::default();
    assert_eq!(cfg.page_width, 2100);
    assert_eq!(cfg.page_height, 2970);
    assert_eq!(cfg.start_y, 2800);
    assert_eq!(cfg.bottom_margin, 200);
    assert_eq!(cfg.font_size, 12);
    assert_eq!(cfg.title_font_size, 20);
    assert_eq!(cfg.section_font_size, 16);
    assert_eq!(cfg.subsection_font_size, 14);
    assert_eq!(cfg.line_width, 1900);
}

#[test]
fn end_to_end_layout_of_a_small_document() {
    let input = "\\title{Hello}\n\\author{Ada}\n\\section{Intro}\nThis is a paragraph with some words.";
    let doc = parse_input(input).unwrap();
    let cmds = layout_document(&doc, &RenderConfig::default());
    assert_eq!(cmds.len(), 5);

    assert_eq!(cmds[0].text, "Hello");
    assert_eq!(cmds[0].font_size, 20);
    assert_eq!((cmds[0].page, cmds[0].x, cmds[0].y), (1, 100, 2800));

    assert_eq!(cmds[1].text, "Author: Ada");
    assert_eq!(cmds[1].font_size, 12);
    assert_eq!((cmds[1].page, cmds[1].x, cmds[1].y), (1, 100, 2500));

    assert_eq!(cmds[2].text, "Intro");
    assert_eq!(cmds[2].font_size, 16);
    assert_eq!((cmds[2].page, cmds[2].x, cmds[2].y), (1, 100, 2180));

    assert_eq!(cmds[3].text, "This is a paragraph with some");
    assert_eq!((cmds[3].page, cmds[3].x, cmds[3].y), (1, 100, 1920));
    assert_eq!(cmds[4].text, "words.");
    assert_eq!((cmds[4].page, cmds[4].x, cmds[4].y), (1, 100, 1760));

    // The paragraph is reconstituted with single spaces, no word lost or
    // duplicated.
    let rejoined = format!("{} {}", cmds[3].text, cmds[4].text);
    assert_eq!(rejoined, "This is a paragraph with some words.");
}

#[test]
fn paragraph_lines_break_pages_at_the_bottom_margin() {
    let mut doc = Document::new();
    doc.add_element(DocumentElement::Paragraph(Paragraph {
        text: "aaaa bbbb cccc".to_string(),
        style: None,
    }));
    let mut cfg = RenderConfig::default();
    cfg.start_y = 400;
    cfg.bottom_margin = 200;
    cfg.line_width = 300; // one four-letter word (width 240) per line
    let cmds = layout_document(&doc, &cfg);
    assert_eq!(cmds.len(), 3);
    assert_eq!((cmds[0].page, cmds[0].y, cmds[0].text.as_str()), (1, 400, "aaaa"));
    assert_eq!((cmds[1].page, cmds[1].y, cmds[1].text.as_str()), (1, 240, "bbbb"));
    // Advancing past the second line reaches 80 < 200, so the third line
    // opens page 2 at start_y.
    assert_eq!((cmds[2].page, cmds[2].y, cmds[2].text.as_str()), (2, 400, "cccc"));
    for cmd in &cmds[1..] {
        assert!(cmd.y >= cfg.bottom_margin as i128 || cmd.y == cfg.start_y as i128);
    }
}

#[test]
fn sections_do_not_break_pages() {
    let mut doc = Document::new();
    for _ in 0..3 {
        doc.add_element(DocumentElement::Section(Section {
            title: "S".to_string(),
            label: None,
        }));
    }
    let mut cfg = RenderConfig::default();
    cfg.start_y = 500;
    let cmds = layout_document(&doc, &cfg);
    assert_eq!(cmds.len(), 3);
    // Each section advances by 150 + (160 + 100) = 410 and never paginates.
    assert_eq!((cmds[0].page, cmds[0].y), (1, 350));
    assert_eq!((cmds[1].page, cmds[1].y), (1, -60));
    assert_eq!((cmds[2].page, cmds[2].y), (1, -470));
}

#[test]
fn metadata_blocks_are_skipped_when_absent() {
    let doc = parse_input("\\date{today}\nbody").unwrap();
    let cmds = layout_document(&doc, &RenderConfig::default());
    assert_eq!(cmds.len(), 2);
    // With no title and no author the date is drawn at start_y.
    assert_eq!(cmds[0].text, "Date: today");
    assert_eq!(cmds[0].y, 2800);
    // The date advances by ten times the font size plus 150.
    assert_eq!(cmds[1].text, "body");
    assert_eq!(cmds[1].y, 2800 - 270);
}

#[test]
fn subsection_is_indented() {
    let doc = parse_input("\\subsection{Sub}").unwrap();
    let cmds = layout_document(&doc, &RenderConfig::default());
    assert_eq!(cmds.len(), 1);
    assert_eq!(cmds[0].x, 200);
    assert_eq!(cmds[0].font_size, 14);
    assert_eq!(cmds[0].y, 2800 - 100);
}

#[test]
fn element_order_is_preserved_in_draw_calls() {
    let input = "\\section{A}\nfirst\n\\subsection{B}\nsecond third";
    let doc = parse_input(input).unwrap();
    let cmds = layout_document(&doc, &RenderConfig::default());
    let texts: Vec<&str> = cmds.iter().map(|c| c.text.as_str()).collect();
    assert_eq!(texts, vec!["A", "first", "B", "second third"]);
}
