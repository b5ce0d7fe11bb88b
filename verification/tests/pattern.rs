use rsmarkdown::pattern::{is_incomplete_task_list, is_table_separator_line, is_task_list, remove_trailing_standalone_dash};

#[test]
fn separator_lines() {
    assert!(is_table_separator_line("| --- | --- |"));
    assert!(is_table_separator_line("| :---: | ---: |"));
    assert!(is_table_separator_line("| --- | ---"));
    assert!(!is_table_separator_line("| a | b |"));
    assert!(!is_table_separator_line("| --- |"));
    assert!(!is_table_separator_line("| ---"));
}

#[test]
fn task_lines() {
    assert!(is_task_list("- [ ] todo"));
    assert!(is_task_list("- [x] done"));
    assert!(is_task_list("- [X] done"));
    assert!(!is_task_list("- []"));
    assert!(is_incomplete_task_list("- ["));
    assert!(is_incomplete_task_list("-[ "));
}

#[test]
fn dash_removal() {
    assert_eq!(
        remove_trailing_standalone_dash("- [ ] Task 1\n-"),
        "- [ ] Task 1\n"
    );
    assert_eq!(remove_trailing_standalone_dash("a\n\n-"), "a\n");
    assert_eq!(remove_trailing_standalone_dash("no dash"), "no dash");
}

#[test]
fn dash_with_space_follows_its_pattern() {
    assert!(rsmarkdown::pattern::is_dash_with_space("- "));
    assert!(rsmarkdown::pattern::is_dash_with_space("  -\t"));
    assert!(!rsmarkdown::pattern::is_dash_with_space("-"));
    assert!(!rsmarkdown::pattern::is_dash_with_space("- a"));
    assert!(!rsmarkdown::pattern::is_dash_with_space("  -"));
}
