use rsmarkdown::fix::{
    fix_code, fix_footnote, fix_html, fix_inline_math, fix_link, fix_math, fix_table, fix_task_list,
};

#[test]
fn code_inline_completion() {
    assert_eq!(fix_code("`"), "");
    assert_eq!(fix_code("``"), "");
    assert_eq!(fix_code("```"), "");
    assert_eq!(fix_code("Text `"), "Text");
    assert_eq!(fix_code("Text ``"), "Text");
    assert_eq!(fix_code("Text ```"), "Text");
    assert_eq!(fix_code("Hello `world"), "Hello `world`");
    assert_eq!(fix_code("Hello `world`"), "Hello `world`");
    assert_eq!(fix_code("Hello\n\n`"), "Hello");
    assert_eq!(fix_code("`a` and `b"), "`a` and `b`");
    assert_eq!(
        fix_code("Hello `world\nand more code"),
        "Hello `world\nand more code`"
    );
    assert_eq!(fix_code("Text ````"), "Text");
}

#[test]
fn code_block_completion() {
    assert_eq!(
        fix_code("```javascript\nconst x = 1"),
        "```javascript\nconst x = 1\n```"
    );
    assert_eq!(
        fix_code("```javascript\nconst x = 1`"),
        "```javascript\nconst x = 1\n```"
    );
    assert_eq!(
        fix_code("```javascript\nconst x = 1``"),
        "```javascript\nconst x = 1\n```"
    );
    assert_eq!(
        fix_code("```python\nprint(\"hello\")\n"),
        "```python\nprint(\"hello\")\n```"
    );
    assert_eq!(fix_code("```js\ncode\n```"), "```js\ncode\n```");
    assert_eq!(
        fix_code("```javascript\nfunction test() {\n\n  return true;\n}"),
        "```javascript\nfunction test() {\n\n  return true;\n}\n```"
    );
    assert_eq!(fix_code("```javascript"), "```javascript\n```");
}

#[test]
fn html_fragments() {
    assert_eq!(fix_html("Hello <div"), "Hello");
    assert_eq!(fix_html("Hello <div>\ncontent"), "Hello <div>\ncontent");
    assert_eq!(fix_html("Hello <br"), "Hello");
    assert_eq!(fix_html("Hello <"), "Hello");
    assert_eq!(fix_html("Hello </di"), "Hello");
}

#[test]
fn footnote_removal() {
    assert_eq!(fix_footnote("Text [^1] and [^2]"), "Text and");
    assert_eq!(fix_footnote("Text [^1]"), "Text");
    assert_eq!(
        fix_footnote("Text [^1]\n\n[^1]: def"),
        "Text [^1]\n\n[^1]: def"
    );
    assert_eq!(
        fix_footnote("```\n[^1]\n```\n\nText [^1]"),
        "```\n[^1]\n```\n\nText"
    );
    assert_eq!(fix_footnote("Text [^1"), "Text");
    assert_eq!(
        fix_footnote("Text [^1]\nand more text"),
        "Text\nand more text"
    );
    assert_eq!(fix_footnote("Text `[^1]` and [^1]"), "Text `[^1]` and");
}

#[test]
fn task_list_cleanup() {
    assert_eq!(fix_task_list("- [ ] Task 1\n-"), "- [ ] Task 1");
    assert_eq!(
        fix_task_list("- [ ] Task 1\n- [x] Task 2\n-"),
        "- [ ] Task 1\n- [x] Task 2"
    );
    assert_eq!(fix_task_list("- [ ] Task 1\n  - ["), "- [ ] Task 1");
    assert_eq!(
        fix_task_list("> **Note**: quote\n\n> -"),
        "> **Note**: quote\n"
    );
    assert_eq!(fix_task_list("- item\n-"), "- item");
    assert_eq!(fix_task_list("-"), "");
    assert_eq!(fix_task_list("- ["), "");
    assert_eq!(fix_task_list("- [ ] Task 1\n- "), "- [ ] Task 1");
    assert_eq!(fix_task_list("> - ["), "");
    assert_eq!(fix_task_list("> -"), "");
}

#[test]
fn link_completion() {
    assert_eq!(fix_link("[Google"), "[Google]()");
    assert_eq!(fix_link("[Google]"), "[Google]()");
    assert_eq!(fix_link("Text [ content"), "Text [ content]()");
    assert_eq!(fix_link("[Google]("), "[Google]()");
    assert_eq!(
        fix_link("[Google](https://www.goo"),
        "[Google](https://www.goo)"
    );
    assert_eq!(
        fix_link("[Google](https://www.google.com)"),
        "[Google](https://www.google.com)"
    );
    assert_eq!(fix_link("Text ["), "Text");
    assert_eq!(fix_link("Text [ "), "Text");
    assert_eq!(fix_link("Text [\n"), "Text");
    assert_eq!(fix_link("![alt"), "![alt]()");
    assert_eq!(fix_link("![alt]"), "![alt]()");
    assert_eq!(fix_link("![]("), "![]()");
    assert_eq!(
        fix_link("[text](https://example.com/page*value"),
        "[text](https://example.com/page*value)"
    );
}

#[test]
fn table_fixes() {
    assert_eq!(fix_table("| a | b |\n"), "| a | b |\n| --- | --- |");
    assert_eq!(fix_table("| a | b |\n| ---"), "| a | b |\n| --- | --- |");
    assert_eq!(
        fix_table("| a | b |\n| --- | --- |"),
        "| a | b |\n| --- | --- |"
    );
    assert_eq!(
        fix_table("| a | b |\n| --- | --- |\n| 1 | 2 |"),
        "| a | b |\n| --- | --- |\n| 1 | 2 |"
    );
    assert_eq!(fix_table("| a | b"), "| a | b |\n| --- | --- |");
}

#[test]
fn math_fixes() {
    assert_eq!(fix_math("$$\nE = mc^2"), "$$\nE = mc^2\n$$");
    assert_eq!(fix_math("$$\nE = mc^2\n$$"), "$$\nE = mc^2\n$$");
    assert_eq!(fix_math("$$\n"), "");
    assert_eq!(
        fix_inline_math("The formula is $$x = 1"),
        "The formula is $$x = 1$$"
    );
    assert_eq!(fix_inline_math("$"), "");
    assert_eq!(fix_inline_math("Text $$"), "Text");
    assert_eq!(fix_inline_math("$$"), "");
}
