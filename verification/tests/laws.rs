use rsmarkdown::ast::{Alignment, Block, Inline};
use rsmarkdown::blocks::parse_markdown_into_blocks;
use rsmarkdown::fix::find_footnote_refs;
use rsmarkdown::parse::parse_block;
use rsmarkdown::preprocess::normalize;
use rsmarkdown::processor::{MarkdownProcessor, Mode, ProcessorOptions};
use rsmarkdown::scan::{
    count_of, find_closed_code_block_ranges, is_inside_unclosed_code_block, is_underscore_inside_word,
};
use rsmarkdown::tui::math::latex_to_unicode;
use rsmarkdown::tui::width::truncate;

#[test]
fn cache_returns_the_same_tree_as_a_fresh_parse() {
    let mut p = MarkdownProcessor::default();
    let first = p.parse("# Title\n\nsome *text*").unwrap();
    let second = p.parse("# Title\n\nsome *text*").unwrap();
    assert_eq!(first, second);
    assert_eq!(first, parse_block("# Title\n\nsome *text*"));
    let s = p.cache_stats();
    assert_eq!(s.hits(), 1);
    assert_eq!(s.fresh_parses, 1);
    assert_eq!(s.parses(), 2);
}

#[test]
fn empty_content_is_not_parsed() {
    let mut p = MarkdownProcessor::default();
    assert!(p.parse("").is_none());
    assert_eq!(p.cache_stats().parses(), 0);
}

#[test]
fn least_recently_used_entry_is_evicted() {
    let mut p = MarkdownProcessor::with_cache_capacity(ProcessorOptions::default(), 2);
    p.parse("a");
    p.parse("b");
    p.parse("a"); // hit: `a` becomes the most recent
    p.parse("c"); // evicts `b`
    assert_eq!(p.cache_stats().cache_hits, 1);
    p.parse("a"); // still cached
    assert_eq!(p.cache_stats().cache_hits, 2);
    p.parse("b"); // was evicted
    assert_eq!(p.cache_stats().fresh_parses, 4);
}

#[test]
fn zero_capacity_cache_never_hits() {
    let mut p = MarkdownProcessor::with_cache_capacity(ProcessorOptions::default(), 0);
    p.parse("a");
    p.parse("a");
    assert_eq!(p.cache_stats().cache_hits, 0);
    assert_eq!(p.cache_stats().fresh_parses, 2);
}

#[test]
fn static_mode_keeps_one_unhealed_block() {
    let mut p = MarkdownProcessor::default();
    let doc = p.process("a\n\nb **c", Mode::Static);
    assert_eq!(doc.len(), 1);
    assert_eq!(doc.blocks[0].content, "a\n\nb **c");
    assert!(!doc.blocks[0].loading);
}

#[test]
fn streaming_heals_only_the_last_block() {
    let mut p = MarkdownProcessor::default();
    let doc = p.process_streaming("**a\n\n**b");
    assert_eq!(doc.len(), 2);
    assert_eq!(doc.blocks[0].content, "**a\n");
    assert!(!doc.blocks[0].loading);
    assert_eq!(doc.blocks[1].content, "**b**");
    assert!(doc.blocks[1].loading);
}

#[test]
fn footnotes_keep_the_document_whole() {
    let s = "Intro\n\nText [^n]\n\nMore";
    assert_eq!(parse_markdown_into_blocks(s), vec![s.to_string()]);
}

#[test]
fn normalize_leaves_no_carriage_return() {
    let n = normalize("a\r\nb\rc\r\n");
    assert!(!n.contains('\r'));
    assert_eq!(n, "a\nb\nc");
}

#[test]
fn parse_block_heading_levels_and_alignments() {
    let ast = parse_block("### Three\n\n| l | c | r | n |\n|:--|:-:|--:|---|\n| 1 | 2 | 3 | 4 |");
    assert!(matches!(ast.children[0], Block::Heading { level: 3, .. }));
    match &ast.children[1] {
        Block::Table { headers, rows, aligns } => {
            assert_eq!(
                aligns,
                &vec![Alignment::Left, Alignment::Center, Alignment::Right, Alignment::Unspecified]
            );
            assert_eq!(headers.len(), 4);
            assert_eq!(rows.len(), 1);
            assert_eq!(rows[0].len(), 4);
            assert_eq!(rows[0][2], vec![Inline::Text("3".to_string())]);
        }
        _ => panic!("expected table"),
    }
}

#[test]
fn parse_block_ordered_list_and_code() {
    let ast = parse_block("    indented code\n\n3. one\n4. two\n");
    assert_eq!(
        ast.children[0],
        Block::Code { lang: String::new(), text: "indented code\n".to_string() }
    );
    match &ast.children[1] {
        Block::List { ordered, start, items } => {
            assert!(*ordered);
            assert_eq!(*start, 3);
            assert_eq!(items.len(), 2);
        }
        _ => panic!("expected list"),
    }
}

#[test]
fn parse_block_image_text_goes_to_the_paragraph() {
    // inline content of an image joins the enclosing paragraph; the alt stays empty
    let ast = parse_block("![alt text](pic.png)");
    assert_eq!(
        ast.children,
        vec![Block::Paragraph(vec![
            Inline::Text("alt text".to_string()),
            Inline::Image { alt: String::new(), url: "pic.png".to_string() },
        ])]
    );
}

#[test]
fn parse_block_link_math_and_footnote() {
    let ast = parse_block("[go](https://x.y) $a$ [^1]\n\n[^1]: note");
    match &ast.children[0] {
        Block::Paragraph(inl) => {
            assert_eq!(
                inl[0],
                Inline::Link { text: vec![Inline::Text("go".to_string())], url: "https://x.y".to_string() }
            );
            assert!(inl.contains(&Inline::Math("a".to_string(), false)));
            assert!(inl.contains(&Inline::FootnoteRef("1".to_string())));
        }
        _ => panic!("expected paragraph"),
    }
    assert!(matches!(&ast.children[1], Block::FootnoteDefinition { label, .. } if label == "1"));
}

#[test]
fn parse_block_html_block_drops_the_root() {
    // the end of an HTML block closes the root frame, so nothing is left
    assert!(parse_block("<div>hi</div>").is_empty());
}

#[test]
fn ast_clone_is_equal() {
    let ast = parse_block("- [x] a **b**\n- c\n\n> q");
    assert_eq!(ast.clone(), ast);
}

#[test]
fn underscore_between_unicode_letters_is_inside_a_word() {
    assert!(is_underscore_inside_word("é_ß", 2, 1));
    assert!(is_underscore_inside_word("a_1", 1, 1));
    assert!(!is_underscore_inside_word("a_ ", 1, 1));
    assert!(!is_underscore_inside_word("_a", 0, 1));
}

#[test]
fn latex_output_never_holds_a_dollar() {
    for s in ["$", "$$x$$", r"\$ a", r"\text{$}", r"a^$b"] {
        assert!(!latex_to_unicode(s).contains('$'));
    }
}

#[test]
fn plain_text_normalizes_to_its_trimmed_self() {
    let text = "# Title\n\n```rust\nfn main() {}\n```\n\n- item *one*\n- item two   \n\n";
    assert_eq!(normalize(text), text.trim_end());
    assert_eq!(normalize("_TMP_REPLACE_DOLLAR_"), "_TMP_REPLACE_DOLLAR_");
    let word = "CODE_BLOCK_PLACEHOLDER\n```\nx\n```";
    assert_eq!(normalize(word), word);
    // dollars inside a fence come back as they were
    assert_eq!(normalize("```\n$x$ \\(y\\)\n```\n$a$"), "```\n$x$ \\(y\\)\n```\n$$a$");
}

#[test]
fn unclosed_fence_is_an_odd_fence_count() {
    for s in ["```js\n- [", "```js\ncode\n```", "````", "a ``` b ``` c ```", "", "``"] {
        assert_eq!(is_inside_unclosed_code_block(s), count_of(s, "```") % 2 == 1);
    }
    assert!(is_inside_unclosed_code_block("````"));
    assert!(!is_inside_unclosed_code_block("```js\ncode\n```"));
}

#[test]
fn closed_fences_pair_up_left_to_right() {
    for s in ["```a``` ```b", "```js\ncode\n``` and `inline", "``````", "x", "```a```b```c```"] {
        let r = find_closed_code_block_ranges(s);
        assert_eq!(r.len(), count_of(s, "```") / 2);
        for &(a, e) in &r {
            assert!(a + 6 <= e);
            assert_eq!(&s[a..a + 3], "```");
            assert_eq!(&s[e - 3..e], "```");
            assert!(!s[a + 3..e - 3].contains("```"));
        }
    }
}

#[test]
fn truncate_keeps_the_longest_fitting_prefix() {
    assert_eq!(truncate("hello world", 5), "hell…");
    assert_eq!(truncate("中文字", 4), "中…");
    assert_eq!(truncate("中文字", 5), "中文…");
    assert_eq!(truncate("abc", 3), "abc");
}

#[test]
fn text_with_a_visible_character_gives_a_block() {
    let mut p = MarkdownProcessor::default();
    assert!(p.process_streaming("").blocks.is_empty());
    assert!(p.process_streaming("\n\n").blocks.is_empty());
    assert!(!p.process_streaming("\n\n  x").blocks.is_empty());
    assert!(!p.process("x", Mode::Static).blocks.is_empty());
    assert!(!p.process_streaming("[^1] note").blocks.is_empty());
    for c in ["\u{3000}\n", " \t\n", "```\n```", "\\(\\)"] {
        assert_eq!(p.process_streaming(c).blocks.is_empty(), normalize(c).is_empty(), "{c:?}");
    }
}

#[test]
fn footnote_refs_have_the_reference_shape() {
    assert_eq!(find_footnote_refs("a [^x] b [^y]: c"), vec![(2, 6, "x".to_string())]);
    let c = "a [^x] b [^y]: c [^long label] [^ok][^]";
    let refs = find_footnote_refs(c);
    assert_eq!(refs.len(), 2);
    let mut last_end = 0;
    for (s, e, l) in &refs {
        assert_eq!(&c[*s..*e], format!("[^{}]", l));
        assert!(1 <= l.len() && l.len() <= 200);
        assert!(!l.contains(']') && !l.chars().any(|ch| ch.is_ascii_whitespace()));
        assert_ne!(c.as_bytes().get(*e), Some(&b':'));
        assert!(last_end <= *s);
        last_end = *e;
    }
}
