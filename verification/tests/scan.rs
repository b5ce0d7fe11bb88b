use rsmarkdown::fix::find_footnote_refs;
use rsmarkdown::scan::{
    append_before_trailing_whitespace, find_closed_code_block_ranges, find_inline_code_ranges,
    is_backtick_part_of_triple, is_escaped_character, is_position_in_ranges, is_underscore_inside_word,
    is_within_code_block, is_within_html_tag, is_within_link_or_image_url, is_within_math_block,
    last_paragraph_range, mask_inline_code_markdown_markers, remove_math_blocks_from_text,
    remove_urls_from_text, should_ignore_underscore_marker, trailing_ws_offset,
};

#[test]
fn closed_code_ranges() {
    let s = "```js\ncode\n``` and `inline";
    let ranges = find_closed_code_block_ranges(s);
    assert_eq!(ranges, vec![(0, 14)]);
    assert!(is_position_in_ranges(5, &ranges));
    assert!(!is_position_in_ranges(20, &ranges));
}

#[test]
fn underscore_after_multibyte_char_is_safe() {
    // an underscore right after a full-width comma
    let content = "`x`，_y_";
    let code = find_closed_code_block_ranges(content);
    let inline = find_inline_code_ranges(content, &code);
    let masked = mask_inline_code_markdown_markers(content, &inline);
    let star_pos = masked.find('_').unwrap();
    assert!(!should_ignore_underscore_marker(content, star_pos, 1));
}

#[test]
fn underscore_inside_cjk_word_boundaries() {
    // `_x_` between CJK characters
    let content = "中文_x_结尾";
    let star_pos = content.find('_').unwrap();
    let _ = should_ignore_underscore_marker(content, star_pos, 1);
    assert!(content.is_char_boundary(star_pos + 1));
}

#[test]
fn inline_code_ranges_skip_triples() {
    let s = "```a``` text `b` and `c";
    let ranges = find_inline_code_ranges(s, &find_closed_code_block_ranges(s));
    // `b` at ... and `c` unmatched -> single
    assert_eq!(ranges.len(), 1);
    assert_eq!(&s[ranges[0].0..ranges[0].1], "`b`");
}

#[test]
fn last_paragraph_split() {
    let (line, off) = last_paragraph_range("Para1\n\nPara2 text", false);
    assert_eq!(line, 2);
    assert_eq!(&"Para1\n\nPara2 text"[off..], "Para2 text");
    // skipping a trailing empty line skips only one; a double
    // trailing newline leaves an empty last paragraph
    let (line2, off2) = last_paragraph_range("Para1 **bold**\n\n", true);
    assert_eq!(line2, 2);
    assert_eq!(off2, 16);
    let (line3, _) = last_paragraph_range("Para1\n\nPara2\n", true);
    assert_eq!(line3, 2);
    let (line4, _) = last_paragraph_range("**Contribution\n", true);
    assert_eq!(line4, 0);
}

#[test]
fn url_removal_keeps_label() {
    let s = "[text](https://example.com/page_with_underscore) more";
    let r = remove_urls_from_text(s);
    assert_eq!(r, "[text]() more");
}

#[test]
fn incomplete_url_suffix() {
    let s = "Visit [Google](https://www.goo";
    let r = remove_urls_from_text(s);
    assert_eq!(r, "Visit [Google](");
}

#[test]
fn math_removal() {
    let s = "a $$x = 1$$ b $$y = 2$$ c";
    assert_eq!(remove_math_blocks_from_text(s, false), "a  b  c");
    let s2 = "unclosed $$x";
    assert_eq!(remove_math_blocks_from_text(s2, false), "unclosed ");
}

#[test]
fn underscore_inside_word_ignored() {
    let s = "snake_case text";
    assert!(should_ignore_underscore_marker(s, 5, 1));
    let s2 = "snake case _";
    assert!(!should_ignore_underscore_marker(s2, 10, 1));
}

#[test]
fn append_before_trailing() {
    assert_eq!(
        append_before_trailing_whitespace("text  ", "**"),
        "text**  "
    );
    assert_eq!(append_before_trailing_whitespace("text", "**"), "text**");
}

#[test]
fn backtick_after_cjk_does_not_panic() {
    // a backtick right after a full-width punctuation mark
    let s = "中文：`code` 后";
    let tick = s.find('`').unwrap();
    let _ = is_backtick_part_of_triple(s, tick);
    let s2 = "注解``code``";
    let tick = s2.find('`').unwrap();
    let _ = is_backtick_part_of_triple(s2, tick);
}

#[test]
fn within_link_url() {
    assert!(is_within_link_or_image_url("[t](https://a", 9));
    // position before the closing paren is still inside the URL
    assert!(is_within_link_or_image_url("[t](https://a)", 9));
    assert!(is_within_link_or_image_url("[t](https://a) mid", 9));
    assert!(!is_within_link_or_image_url("[t](https://a)", 14));
    assert!(!is_within_link_or_image_url("plain text", 4));
}

#[test]
fn positions_are_byte_offsets() {
    assert!(should_ignore_underscore_marker("中文_x_结尾", 6, 1));
    assert!(!should_ignore_underscore_marker("`x`，_y_", 6, 1));
    assert!(should_ignore_underscore_marker("a\\_b", 2, 1));
    // an offset inside a character is no boundary: no word character there
    assert!(!is_underscore_inside_word("中文_x", 5, 1));
    assert_eq!(find_closed_code_block_ranges("é```x```"), vec![(2, 9)]);
    assert_eq!(last_paragraph_range("é\n\nab", false), (2, 4));
    assert_eq!(trailing_ws_offset("é  "), 2);
    assert!(is_within_link_or_image_url("é[t](ab", 7));
    assert!(is_escaped_character("é\\_", 3));
    let r = find_inline_code_ranges("中`a`", &[]);
    assert_eq!(r, vec![(3, 6)]);
    assert_eq!(mask_inline_code_markdown_markers("中`*`", &r), "中` `");
    assert!(is_within_code_block("é```x", 6));
    assert!(!is_within_code_block("é```x", 2));
    assert!(is_within_math_block("é$$x", 4, false));
    assert!(is_within_html_tag("é<a", 3));
    assert!(!is_backtick_part_of_triple("中`a`", 3));
}

#[test]
fn footnote_refs_are_byte_ranges() {
    let refs = find_footnote_refs("é [^1] x");
    assert_eq!(refs.len(), 1);
    assert_eq!((refs[0].0, refs[0].1), (3, 7));
    assert_eq!(refs[0].2, "1");
}
