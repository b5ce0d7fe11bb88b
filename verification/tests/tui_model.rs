use rsmarkdown::tui::image::{resolve_image, ImageSource};
use rsmarkdown::tui::renderer::render_inlines;
use rsmarkdown::tui::activities::{spinner, Diff, DiffLine, TodoItem, TodoList, TodoStatus, ToolCall, ToolStatus};
use rsmarkdown::tui::agent::{fmt_age, fmt_age_secs, AgentColor, AgentGroup, AgentStatus};
use rsmarkdown::tui::app::SessionMode;
use rsmarkdown::tui::command_menu::SlashCommand;
use rsmarkdown::tui::help::{HelpEntry, HelpPanel, HelpSection};
use rsmarkdown::tui::list::ListView;
use rsmarkdown::tui::math::latex_to_unicode;
use rsmarkdown::tui::width::{plain_text, plain_width, truncate, WidthExt};
use rsmarkdown::ast::Inline;
use std::time::Duration;

#[test]
fn spinner_period_is_ten() {
    for f in 0..30u64 {
        assert_eq!(spinner(f), spinner(f + 10));
    }
}

#[test]
fn todo_list_counts_and_set() {
    let mut t = TodoList {
        title: "t".to_string(),
        items: vec![
            TodoItem { text: "a".to_string(), status: TodoStatus::Done },
            TodoItem { text: "b".to_string(), status: TodoStatus::Pending },
        ],
    };
    assert_eq!(t.done(), 1);
    assert_eq!(t.total(), 2);
    t.set(1, TodoStatus::Done);
    assert_eq!(t.done(), 2);
    t.set(7, TodoStatus::Pending);
    assert_eq!(t.done(), 2);
}

#[test]
fn tool_call_starts_running() {
    let c = ToolCall::running("bash", "cargo test");
    assert_eq!(c.status, ToolStatus::Running);
    assert_eq!(c.summary, "cargo test");
    assert_eq!(c.duration_ms, 0);
    assert!(c.output.is_none());
}

#[test]
fn unified_diff_parse_and_stats() {
    let d = Diff::parse_unified(
        "--- a/x.rs\n+++ b/x.rs\n@@ -1,3 +1,3 @@\n-old\n+new\n ctx\n--kept\nbare\n\n@@ -9 +9 @@\n+more\r\n",
    );
    assert_eq!(d.path, "x.rs");
    assert_eq!(d.hunks.len(), 2);
    assert_eq!(d.hunks[0].header, "@@ -1,3 +1,3 @@");
    assert_eq!(
        d.hunks[0].lines,
        vec![
            DiffLine::Removed("old".to_string()),
            DiffLine::Added("new".to_string()),
            DiffLine::Context("ctx".to_string()),
            DiffLine::Context("--kept".to_string()),
            DiffLine::Context("bare".to_string()),
        ]
    );
    assert_eq!(d.hunks[1].lines, vec![DiffLine::Added("more".to_string())]);
    assert_eq!(d.stats(), (2, 1));
}

#[test]
fn diff_path_without_prefix() {
    let d = Diff::parse_unified("+++ plain.txt\n");
    assert_eq!(d.path, "plain.txt");
    assert!(d.hunks.is_empty());
}

#[test]
fn agent_groups_titles_and_icons() {
    assert_eq!(AgentStatus::Failed.group(), AgentGroup::Completed);
    assert_eq!(AgentStatus::Working.group(), AgentGroup::Working);
    assert_eq!(AgentGroup::ReadyForReview.title(), "Ready for review");
    assert_eq!(AgentStatus::Working.icon(true), "✢");
    assert_eq!(AgentStatus::Working.icon(false), "✽");
}

#[test]
fn agent_color_from_name_is_the_hash_mod_eight() {
    // "a" hashes to 97, and 97 % 8 == 1
    assert_eq!(AgentColor::from_name("a"), AgentColor::Blue);
    assert_eq!(AgentColor::from_name(""), AgentColor::Red);
    assert_eq!(AgentColor::from_name("planner"), AgentColor::from_name("planner"));
    assert_eq!(AgentColor::ALL.len(), 8);
}

#[test]
fn age_formatting() {
    assert_eq!(fmt_age_secs(0), "0s");
    assert_eq!(fmt_age_secs(59), "59s");
    assert_eq!(fmt_age_secs(60), "1m");
    assert_eq!(fmt_age_secs(3599), "59m");
    assert_eq!(fmt_age_secs(3600), "1h");
    assert_eq!(fmt_age_secs(86399), "23h");
    assert_eq!(fmt_age_secs(172800), "2d");
    assert_eq!(fmt_age(Duration::from_secs(90)), "1m");
}

#[test]
fn session_mode_cycles_through_three() {
    let m = SessionMode::default();
    assert_eq!(m, SessionMode::Default);
    assert_eq!(m.next(), SessionMode::AcceptEdits);
    assert_eq!(m.next().next(), SessionMode::Plan);
    assert_eq!(m.next().next().next(), m);
}

#[test]
fn slash_command_keeps_its_texts() {
    let c = SlashCommand::new("clear", "Clear the conversation");
    assert_eq!(c.name, "clear");
    assert_eq!(c.description, "Clear the conversation");
}

#[test]
fn help_panel_rows() {
    let p = HelpPanel::new(vec![
        HelpSection {
            title: "chat",
            entries: vec![
                HelpEntry { keys: "enter", description: "send" },
                HelpEntry { keys: "esc", description: "view" },
            ],
        },
        HelpSection { title: "host", entries: vec![] },
    ]);
    assert_eq!(p.scroll, 0);
    assert_eq!(p.total_rows(), 4);
}

#[test]
fn list_selection_wraps_and_toggles() {
    let mut l = ListView::todo_examples();
    assert_eq!(l.done_count(), 0);
    l.move_selection(-1);
    l.toggle();
    assert_eq!(l.done_count(), 1);
    l.move_selection(1);
    l.toggle();
    assert_eq!(l.done_count(), 2);
    l.move_selection(12);
    l.toggle();
    assert_eq!(l.done_count(), 1);
}

#[test]
fn widths_and_truncation() {
    assert_eq!("abc".width(), 3);
    assert_eq!("中文".width(), 4);
    assert_eq!(truncate("hello", 5), "hello");
    assert_eq!(truncate("hello world", 5), "hell…");
    assert_eq!(truncate("中文字符", 5), "中文…");
    assert_eq!(truncate("abc", 0), "…");
}

#[test]
fn plain_text_flattens_inlines() {
    let inl = vec![
        Inline::Text("a".to_string()),
        Inline::Strong(vec![Inline::Text("b".to_string()), Inline::SoftBreak]),
        Inline::Code("c".to_string()),
        Inline::Image { alt: "d".to_string(), url: "u".to_string() },
    ];
    assert_eq!(plain_text(&inl), "ab cd");
    assert_eq!(plain_width(&inl), 5);
}

#[test]
fn latex_edge_cases() {
    assert_eq!(latex_to_unicode(""), "");
    assert_eq!(latex_to_unicode(r"x^{a!}"), "x^(a!)");
    assert_eq!(latex_to_unicode(r"\sqrt[5]{y}"), "5√(y)");
    assert_eq!(latex_to_unicode(r"\begin{bmatrix} 1 & 2 \end{bmatrix}"), "[1  2]");
    assert_eq!(latex_to_unicode(r"\begin{cases} a & b \\ c \end{cases}"), "{ a  b ; c }");
    assert_eq!(latex_to_unicode(r"a \quad b"), "a   b");
    assert_eq!(latex_to_unicode(r"\{x\}"), "{x}");
    assert_eq!(latex_to_unicode(r"\mathbb{ZQ}"), "ℤℚ");
    assert_eq!(latex_to_unicode(r"\left( x \right)"), "( x )");
}

#[test]
fn image_urls_resolve_to_sources() {
    assert_eq!(resolve_image("demo://gradient"), ImageSource::DemoGradient);
    assert_eq!(resolve_image("assets/cat.png"), ImageSource::Asset("cat.png".to_string()));
    assert_eq!(resolve_image("assets"), ImageSource::File("assets".to_string()));
    assert_eq!(resolve_image("pics/cat.png"), ImageSource::File("pics/cat.png".to_string()));
    assert_eq!(resolve_image("demo://gradient2"), ImageSource::File("demo://gradient2".to_string()));
}

#[test]
fn wrapped_lines_fit_the_width() {
    let inlines = vec![Inline::Text("中文测试文本 and some ascii words 中文".to_string())];
    for width in 2..12usize {
        for line in render_inlines(&inlines, width) {
            let t: String = line.spans.iter().map(|s| s.content.as_str()).collect();
            assert!(t.as_str().width() <= width, "{:?} wider than {}", t, width);
        }
    }
}
