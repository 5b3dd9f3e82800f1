use sharpr::markdown::{inline_markup, markdown_blocks, parse_link, replace_delimited, MarkdownBlock};

#[test]
fn inline_markup_escapes_and_formats() {
    assert_eq!(inline_markup("a & b < c"), "a &amp; b &lt; c");
    assert_eq!(inline_markup("**bold** and *it*"), "<b>bold</b> and <i>it</i>");
    assert_eq!(inline_markup("lonely * star"), "lonely * star");
    assert_eq!(replace_delimited("x__y__z__", "__", "[", "]"), "x[y]z__");
}

#[test]
fn links() {
    assert_eq!(parse_link("  [Site](https://example.org) "), Some(("Site".to_string(), "https://example.org".to_string())));
    assert_eq!(parse_link("[Site] (x)"), None);
    assert_eq!(parse_link("no link"), None);
}

#[test]
fn blocks_of_a_manual() {
    let text = "# Title\nSome *text*\ncontinued\n\n## Part\n- item **one**\n| A | B |\n|---|---|\n| 1 | 2 |\n[Docs](https://d)\n### Small";
    let blocks = markdown_blocks(text);
    assert_eq!(blocks.len(), 7);
    assert!(matches!(&blocks[0], MarkdownBlock::Heading { level: 1, text, first: true } if text == "Title"));
    assert!(matches!(&blocks[1], MarkdownBlock::Paragraph(m) if m == "Some <i>text</i> continued"));
    assert!(matches!(&blocks[2], MarkdownBlock::Heading { level: 2, text, first: false } if text == "Part"));
    assert!(matches!(&blocks[3], MarkdownBlock::Bullet(m) if m == "• item <b>one</b>"));
    match &blocks[4] {
        MarkdownBlock::Table(rows) => {
            assert_eq!(rows, &vec![vec!["A".to_string(), "B".to_string()], vec!["1".to_string(), "2".to_string()]]);
        }
        other => panic!("unexpected {other:?}"),
    }
    assert!(matches!(&blocks[5], MarkdownBlock::Link { label, url } if label == "Docs" && url == "https://d"));
    assert!(matches!(&blocks[6], MarkdownBlock::Heading { level: 3, text, first: false } if text == "Small"));
    assert!(markdown_blocks("").is_empty());
    assert!(markdown_blocks("   \n\n").is_empty());
}
