use rsmarkdown::processor::MarkdownProcessor;

#[test]
fn empty_input() {
    let mut p = MarkdownProcessor::default();
    assert!(p.process_streaming("").is_empty());
    assert!(p.process_streaming("\n\n").is_empty());
}

#[test]
fn static_single_block() {
    let mut p = MarkdownProcessor::default();
    let doc = p.process_static("# Hi\n\nText");
    assert_eq!(doc.len(), 1);
    assert!(!doc.blocks[0].loading);
}

#[test]
fn streaming_blocks_and_loading_tail() {
    let mut p = MarkdownProcessor::default();
    let doc = p.process_streaming("# Hi\n\nText **bold");
    assert_eq!(doc.len(), 2);
    assert!(!doc.blocks[0].loading);
    assert!(doc.blocks[1].loading); // preprocessed tail
    assert!(doc.blocks[1].content.ends_with("**"));
}

#[test]
fn completed_blocks_stay_stable() {
    // The classic streaming property: parsing a prefix P then P+chunk yields
    // the same block boundaries for the completed part.
    let mut p = MarkdownProcessor::default();
    let a = p.process_streaming("# Hi\n\nSome text here\n\n```js\nlet x = 1");
    let b = p.process_streaming("# Hi\n\nSome text here\n\n```js\nlet x = 1\n```");
    assert_eq!(a.blocks.len(), 3);
    assert_eq!(b.blocks.len(), 3);
    for i in 0..2 {
        assert_eq!(a.blocks[i].content, b.blocks[i].content);
        assert_eq!(a.blocks[i].ast, b.blocks[i].ast);
    }
}

#[test]
fn cache_hits() {
    let mut p = MarkdownProcessor::default();
    p.process_streaming("a\n\nb\n\nc\n\nd\n\ne\n\nf\n\ng\n\nh\n\ni\n\nj\n\nk");
    // all blocks cached; parse again cheaply
    let doc = p.process_streaming("a\n\nb\n\nc\n\nd\n\ne\n\nf\n\ng\n\nh\n\ni\n\nj\n\nk");
    assert_eq!(doc.len(), 11);
}

#[test]
fn second_pass_is_served_from_the_cache() {
    let mut p = MarkdownProcessor::default();
    let s = "a\n\nb\n\nc\n\nd\n\ne\n\nf\n\ng\n\nh\n\ni\n\nj\n\nk";
    p.process_streaming(s);
    let first = p.cache_stats();
    assert_eq!((first.cache_hits, first.fresh_parses), (0, 11));
    p.process_streaming(s);
    let second = p.cache_stats();
    assert_eq!((second.cache_hits, second.fresh_parses), (11, 11));
}
