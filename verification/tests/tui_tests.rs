use polirag::tui::markdown::{
    preprocess_ascii_tables, row_is_shown, split_thinking, wrap_text_simple,
};
use polirag::tui::{menu_target, AppMode, TuiApp};

#[test]
fn menu_goes_round() {
    let mut app = TuiApp::new();
    assert!(app.mode == AppMode::Menu);
    assert_eq!(app.menu_selected, Some(0));
    app.previous_menu_item();
    assert_eq!(app.menu_selected, Some(5));
    app.next_menu_item();
    assert_eq!(app.menu_selected, Some(0));
    app.next_menu_item();
    assert_eq!(app.menu_selected, Some(1));
    app.menu_selected = None;
    app.next_menu_item();
    assert_eq!(app.menu_selected, Some(0));
    assert_eq!(menu_target(0), Some(AppMode::Chat));
    assert_eq!(menu_target(1), Some(AppMode::Sync));
    assert_eq!(menu_target(2), Some(AppMode::RagInfo));
    assert_eq!(menu_target(3), Some(AppMode::Login));
    assert_eq!(menu_target(4), Some(AppMode::Settings));
    assert_eq!(menu_target(5), None);
}

#[test]
fn models_go_round() {
    let mut app = TuiApp::new();
    app.next_model();
    assert_eq!(app.model_selected, None);
    app.model_count = 3;
    app.next_model();
    assert_eq!(app.model_selected, Some(0));
    app.previous_model();
    assert_eq!(app.model_selected, Some(2));
    app.next_model();
    assert_eq!(app.model_selected, Some(0));
}

#[test]
fn scrolling_stays_within_the_content() {
    let mut app = TuiApp::new();
    app.content_height = 100;
    app.viewport_height = 30;
    app.scroll_to_bottom();
    assert_eq!(app.scroll_offset, 70);
    assert!(app.follow_bottom);
    app.scroll_up(10);
    assert_eq!(app.scroll_offset, 60);
    assert!(!app.follow_bottom);
    app.scroll_up(100);
    assert_eq!(app.scroll_offset, 0);
    app.scroll_down(3);
    assert_eq!(app.scroll_offset, 3);
    app.scroll_down(u16::MAX);
    assert_eq!(app.scroll_offset, 70);
    app.content_height = 10;
    app.scroll_to_bottom();
    assert_eq!(app.scroll_offset, 0);
}

#[test]
fn throbber_and_status() {
    let mut app = TuiApp::new();
    for expected in [1, 2, 3, 4, 5, 6, 7, 8, 9, 0, 1] {
        app.advance_throbber();
        assert_eq!(app.throbber_frame, expected);
    }
    app.set_status("saved".to_string());
    assert_eq!(app.status_message, Some("saved".to_string()));
}

#[test]
fn drawn_tables_are_fenced() {
    let text = "intro\n┌──┐\n│a │\n└──┘\nafter";
    assert_eq!(preprocess_ascii_tables(text), "intro\n\n```polirag_table\n┌──┐\n│a │\n└──┘\n```\nafter\n");
    assert_eq!(preprocess_ascii_tables("│ last"), "\n```polirag_table\n│ last\n```\n");
    assert_eq!(preprocess_ascii_tables("```\n│ code\n```\nx"), "```\n│ code\n```\nx\n");
    assert_eq!(preprocess_ascii_tables("│ t\n  ```rust\nlet a;\n```"), "\n```polirag_table\n│ t\n```\n  ```rust\nlet a;\n```\n");
    assert_eq!(preprocess_ascii_tables(""), "");
    assert_eq!(preprocess_ascii_tables("plain\n"), "plain\n");
}

#[test]
fn long_lines_are_broken() {
    assert_eq!(wrap_text_simple("abcdefgh\nxy\n\nz", 3), vec!["abc", "def", "gh", "xy", "", "z"]);
    assert_eq!(wrap_text_simple("abcdef", 3), vec!["abc", "def"]);
    assert_eq!(wrap_text_simple("abc", 3), vec!["abc"]);
    assert_eq!(wrap_text_simple("ab", 0), vec!["", "a", "b"]);
    assert!(wrap_text_simple("", 5).is_empty());
}

#[test]
fn thinking_is_parted_from_the_answer() {
    assert_eq!(split_thinking("plain"), (None, "plain".to_string()));
    assert_eq!(
        split_thinking("<think>hm</think>The answer"),
        (Some("hm".to_string()), "The answer".to_string())
    );
    assert_eq!(split_thinking("pre <think>a</think> b </think> c"), (Some("a".to_string()), " b </think> c".to_string()));
    assert_eq!(split_thinking("<think>still going"), (Some("still going".to_string()), String::new()));
    assert_eq!(split_thinking("</think><think>x"), (Some("x".to_string()), String::new()));
    assert_eq!(split_thinking(""), (None, String::new()));
}

#[test]
fn fences_of_drawn_tables_are_hidden() {
    assert_eq!(row_is_shown("  ```polirag_table ", false), (false, true));
    assert_eq!(row_is_shown("│ a │", true), (true, true));
    assert_eq!(row_is_shown("```", true), (false, false));
    assert_eq!(row_is_shown("```", false), (true, false));
    assert_eq!(row_is_shown("```rust", true), (true, true));
}
