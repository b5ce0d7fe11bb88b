use rsmarkdown::ast::{Block, Inline};
use rsmarkdown::parse::parse_block;

#[test]
fn paragraph_and_inline() {
    let ast = parse_block("hello **world** and `code`");
    assert_eq!(ast.children.len(), 1);
    if let Block::Paragraph(inlines) = &ast.children[0] {
        assert_eq!(inlines.len(), 4);
        assert!(matches!(inlines[1], Inline::Strong(_)));
        assert!(matches!(inlines[3], Inline::Code(_)));
    } else {
        panic!("expected paragraph");
    }
}

#[test]
fn heading_code_table() {
    let ast =
        parse_block("# Title\n\n```rust\nfn main() {}\n```\n\n| a | b |\n|---|---|\n| 1 | 2 |");
    assert_eq!(ast.children.len(), 3);
    assert!(matches!(ast.children[0], Block::Heading { level: 1, .. }));
    assert!(matches!(&ast.children[1], Block::Code { lang, .. } if lang == "rust"));
    assert!(matches!(&ast.children[2], Block::Table { .. }));
}

#[test]
fn task_list() {
    let ast = parse_block("- [x] done\n- [ ] todo");
    if let Block::List { ordered, items, .. } = &ast.children[0] {
        assert!(!ordered);
        assert_eq!(items.len(), 2);
        assert_eq!(items[0].checked, Some(true));
        assert_eq!(items[1].checked, Some(false));
    } else {
        panic!("expected list");
    }
}
