use rsmarkdown::ast::{Block, Inline};
use rsmarkdown::parse::parse_block;
use rsmarkdown::tui::renderer::{blocks_fit, render_block, render_inlines, Line, StreamMarkdownRenderer, StyleTag};
use rsmarkdown::tui::width::plain_text;
use rsmarkdown::MarkdownProcessor;

fn plain(lines: &[Line]) -> Vec<String> {
    lines
        .iter()
        .map(|l| l.spans.iter().map(|s| s.content.as_str()).collect::<String>())
        .collect()
}

#[test]
fn paragraph_wraps() {
    let ast = parse_block("hello world this is a long paragraph that must wrap");
    let ast = Some(ast);
    let lines = render_block(&ast, 20);
    let text = plain(&lines);
    assert!(text.len() >= 2);
    assert_eq!(text[0], "hello world this is");
    assert_eq!(text[1], "a long paragraph tha");
    assert_eq!(text[2], "t must wrap");
}

#[test]
fn heading_and_inline_styles() {
    let ast = parse_block("# Title **bold** `code`");
    let ast = Some(ast);
    let lines = render_block(&ast, 80);
    assert_eq!(plain(&lines), vec!["Title bold code"]);
    // verify the strong style is applied
    let spans = &lines[0].spans;
    let bold = spans
        .iter()
        .filter(|s| s.content.as_str() == "bold")
        .all(|s| s.style.contains(&StyleTag::Strong));
    assert!(bold, "strong text should be bold");
}

#[test]
fn strong_and_code_spans_keep_their_styles() {
    let ast = Some(parse_block("# Title **bold** `code`"));
    let lines = render_block(&ast, 80);
    let spans = &lines[0].spans;
    // one span per character: "Title " then "bold", " ", "code"
    let strong: String = spans
        .iter()
        .filter(|s| s.style.contains(&StyleTag::Strong))
        .map(|s| s.content.as_str())
        .collect();
    assert_eq!(strong, "bold");
    let code: String = spans
        .iter()
        .filter(|s| s.style == vec![StyleTag::Code])
        .map(|s| s.content.as_str())
        .collect();
    assert_eq!(code, "code");
    assert!(spans[0].style == vec![StyleTag::Text]);
}

#[test]
fn table_layout() {
    let ast = parse_block("| a | b |\n|---|---|\n| 1 | 22 |");
    let ast = Some(ast);
    let lines = render_block(&ast, 40);
    let text = plain(&lines);
    assert_eq!(text[0], "│ a │ b  │");
    assert_eq!(text[1], "│───┼────│");
    assert_eq!(text[2], "│ 1 │ 22 │");
}

#[test]
fn task_list_and_quote() {
    let ast = parse_block("- [x] done\n- [ ] todo\n\n> quoted");
    let ast = Some(ast);
    let lines = render_block(&ast, 40);
    let text = plain(&lines);
    assert!(text.iter().any(|l| l.contains("[x] done")));
    assert!(text.iter().any(|l| l.contains("[ ] todo")));
    assert!(text.iter().any(|l| l.contains("▌ quoted")));
}

#[test]
fn cjk_width_respected() {
    let inlines = vec![Inline::Text("中文测试文本".to_string())];
    let lines = render_inlines(&inlines, 8); // 6 CJK chars * 2 = 12 cols > 8
    let text = plain(&lines);
    assert!(text.len() >= 2, "should wrap CJK: {:?}", text);
}

#[test]
fn plain_text_collector() {
    let ast = parse_block("a **b** and `c` and [link](https://x)");
    if let Block::Paragraph(inlines) = &ast.children[0] {
        assert_eq!(plain_text(inlines), "a b and c and link");
    } else {
        panic!("expected paragraph");
    }
}

#[test]
fn math_renders_unicode() {
    // single-line `$$...$$` survives normalize and renders as Unicode math
    let mut p = MarkdownProcessor::default();
    let doc = p.process_streaming("$$\\int_a^b f(x)\\,dx = F(b) - F(a)$$");
    let mut r = StreamMarkdownRenderer::new(100);
    rsmarkdown::Renderer::render(&mut r, &doc);
    let text: String = r
        .lines()
        .iter()
        .flat_map(|l| l.spans.iter().map(|s| s.content.as_str()))
        .collect();
    assert_eq!(text, "∫ₐᵇ f(x) dx = F(b) − F(a)");
}

#[test]
fn math_inline() {
    let mut p = MarkdownProcessor::default();
    let doc = p.process_streaming("inline $x^2$ math");
    let mut r = StreamMarkdownRenderer::new(100);
    rsmarkdown::Renderer::render(&mut r, &doc);
    let text: String = r
        .lines()
        .iter()
        .flat_map(|l| l.spans.iter().map(|s| s.content.as_str()))
        .collect();
    // single-dollar math: the `$$x$` rewrite + inline-math completion leaves
    // stray literal `$` text nodes
    assert_eq!(text, "inline $x² math$$");
}

#[test]
fn blocks_are_separated_by_blank_lines() {
    let mut p = MarkdownProcessor::default();
    let doc = p.process_streaming("# A\n\npara one\n\n---\n");
    let mut r = StreamMarkdownRenderer::new(10);
    r.render(&doc);
    let text = plain(r.lines());
    assert_eq!(text, vec!["A", "", "para one", "", "──────────", ""]);
    // rendering again hits the cache and gives the same lines
    r.render(&doc);
    assert_eq!(plain(r.lines()), text);
    assert!(r.block_lines(0).is_some());
    assert!(r.block_lines(9).is_none());
    // a narrower width drops the cache and re-wraps
    r.set_width(5);
    assert!(r.block_lines(0).is_none());
    r.render(&doc);
    assert_eq!(plain(r.lines()), vec!["A", "", "para", "one", "", "─────", ""]);
}

#[test]
fn lists_code_and_footnotes() {
    let ast = Some(parse_block("3. three\n4. four"));
    assert_eq!(plain(&render_block(&ast, 40)), vec!["3. three", "4. four"]);
    let ast = Some(parse_block("- a\n- b"));
    assert_eq!(plain(&render_block(&ast, 40)), vec!["• a", "• b"]);
    let ast = Some(parse_block("```\nlet x = 1;\n\nlet y = 2;\n```"));
    assert_eq!(plain(&render_block(&ast, 8)), vec!["  let x =…", "", "  let y =…", ""]);
    let ast = Some(parse_block("[^n]: note text"));
    let lines = render_block(&ast, 40);
    assert_eq!(plain(&lines), vec!["  [^n] note text"]);
    assert!(lines[0].spans.iter().all(|s| s.style.contains(&StyleTag::Footnote)));
    let ast = Some(rsmarkdown::ast::Ast { children: vec![Block::Html("<div>\n  x  \n\n</div>".to_string())] });
    let lines = render_block(&ast, 40);
    assert_eq!(plain(&lines), vec!["<div>", "  x", "</div>"]);
    assert!(lines.iter().all(|l| l.style == vec![StyleTag::Dim]));
    assert!(render_block(&None, 40).is_empty());
}

#[test]
fn links_images_and_refs_render_inline() {
    let ast = Some(parse_block("see [docs](http://d) ![pic](p.png) and a ref[^1]"));
    let text = plain(&render_block(&ast, 80)).join("\n");
    assert!(text.contains("docs(http://d)"), "{}", text);
    assert!(text.contains("[^1]"), "{}", text);
}

#[test]
fn narrow_tables_shrink() {
    let ast = Some(parse_block("| aaaaaaaaaa | bbbbbbbbbb |\n|---|---|\n| 1 | 2 |"));
    let text = plain(&render_block(&ast, 20));
    assert_eq!(text[0], "│ aaaaa… │ bbbbb… │");
    assert_eq!(text[1], "│────────┼────────│");
}

#[test]
fn cached_render_matches_a_fresh_render() {
    let mut p = MarkdownProcessor::default();
    let first = p.process_streaming("# T\n\nsome text\n\n| a |\n|---|\n| 1 |\n");
    let second = p.process_streaming("# T\n\nsome other text\n\n| a |\n|---|\n| 1 |\n\n- x\n");
    let mut warm = StreamMarkdownRenderer::new(30);
    warm.render(&first);
    warm.render(&second);
    let mut cold = StreamMarkdownRenderer::new(30);
    cold.render(&second);
    assert_eq!(plain(warm.lines()), plain(cold.lines()));
}

#[test]
fn fit_checks_follow_the_width() {
    let quote = parse_block("> > deep");
    assert!(blocks_fit(&quote.children, 4));
    assert!(!blocks_fit(&quote.children, 3), "two bars need four columns");
    let table = parse_block("| a | b | c |\n|---|---|---|\n| 1 | 2 | 3 |");
    assert!(blocks_fit(&table.children, 8));
    assert!(!blocks_fit(&table.children, 7), "two separators need six columns");
    let list = parse_block("1. one\n2. two");
    assert!(blocks_fit(&list.children, 0));
}
