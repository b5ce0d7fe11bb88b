use rsmarkdown::blocks::parse_markdown_into_blocks;

#[test]
fn splits_on_blank_lines() {
    let blocks = parse_markdown_into_blocks("# Title\n\nParagraph one\n\nParagraph two");
    assert_eq!(blocks.len(), 3);
    assert_eq!(blocks[0], "# Title\n");
    assert_eq!(blocks[1], "Paragraph one\n");
    assert_eq!(blocks[2], "Paragraph two");
}

#[test]
fn code_fence_is_one_block() {
    let blocks = parse_markdown_into_blocks("before\n\n```js\ncode\nmore\n```\n\nafter");
    assert_eq!(blocks.len(), 3);
    assert_eq!(blocks[1], "```js\ncode\nmore\n```\n");
}

#[test]
fn unclosed_fence_extends_to_end() {
    let blocks = parse_markdown_into_blocks("before\n\n```js\ncode\nmore");
    assert_eq!(blocks.len(), 2);
    assert_eq!(blocks[1], "```js\ncode\nmore");
}

#[test]
fn unclosed_html_merges() {
    let blocks = parse_markdown_into_blocks("<div>\n\ncontent\n\n</div>\n\nafter");
    assert_eq!(blocks.len(), 2);
    assert_eq!(blocks[0], "<div>\n\ncontent\n\n</div>\n");
}

#[test]
fn math_merge() {
    let blocks = parse_markdown_into_blocks("text\n\n$$\nE = mc^2\n$$\n\nafter");
    assert_eq!(blocks.len(), 3);
    assert_eq!(blocks[1], "$$\nE = mc^2\n$$\n");
}

#[test]
fn footnote_collapses_document() {
    let blocks = parse_markdown_into_blocks("Text [^1]\n\n[^1]: note");
    assert_eq!(blocks.len(), 1);
}

#[test]
fn list_items_group() {
    let blocks = parse_markdown_into_blocks("- a\n- b\n- c\n\nafter");
    assert_eq!(blocks.len(), 2);
    assert_eq!(blocks[0], "- a\n- b\n- c\n");
}
