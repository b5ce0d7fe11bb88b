use rsmarkdown::preprocess::{normalize, preprocess, preprocess_latex, PreprocessOptions};

#[test]
fn normalize_crlf() {
    assert_eq!(normalize("a\r\nb\r\n\r\n"), "a\nb");
    assert_eq!(normalize("  text  \n\n"), "  text");
}

#[test]
fn latex_preprocessing() {
    // `\(x\)` / `\[x\]` convert to `$$...$$` and are not rewritten again by the dollar pass
    assert_eq!(preprocess_latex(r"\(x^2\)"), "$$x^2$$");
    assert_eq!(preprocess_latex(r"\[x^2\]"), "$$x^2$$");
    assert_eq!(preprocess_latex(r"$x$ and $y$"), "$$x$ and $$y$");
    assert_eq!(preprocess_latex("```\n$100\n```"), "```\n$100\n```");
    // single-line `$$...$$` is kept as it is
    assert_eq!(preprocess_latex("$$x$$"), "$$x$$");
    assert_eq!(
        preprocess_latex("The formula is $$x = 1$$"),
        "The formula is $$x = 1$$"
    );
    assert_eq!(preprocess_latex("$$\nE = mc^2\n$$"), "$$\nE = mc^2\n$$");
}

#[test]
fn pipeline_order() {
    // task-list cleanup runs before link completion: `-[` is a task list start, not a link
    let opts = PreprocessOptions::default();
    let r = preprocess("- [", &opts);
    assert_eq!(r, "");
}
