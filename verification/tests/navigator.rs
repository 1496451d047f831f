use rustylines::navigator::{
    command_for, poll_timeout, rank_contributors, rank_languages, ranking, tick_over,
    viewport_too_small, Command, Event, Flow, Key, Row, Screen, MIN_HEIGHT, MIN_WIDTH,
    TICK_MILLIS,
};
use rustylines::{App, ContributorInfo, LanguageInfo, Stats};

fn language(name: &str, lines: usize, files: usize) -> (String, LanguageInfo) {
    (name.to_string(), LanguageInfo { lines, files })
}

fn contributor(name: &str, lines: usize, files: usize) -> (String, ContributorInfo) {
    (name.to_string(), ContributorInfo { lines, files })
}

fn three_by_two() -> App {
    App::new(Stats {
        languages: vec![language("Go", 20, 2), language("Rust", 1234567, 30), language("C", 3, 1)],
        contributors: vec![contributor("Alice", 700, 4), contributor("Bob", 1500, 9)],
    })
}

fn state(app: &App) -> (Option<usize>, Option<usize>, bool, bool) {
    (app.selected_language(), app.selected_contributor(), app.focus_on_lang(), app.view_mode())
}

#[test]
fn new_app_ranks_both_tables_by_lines() {
    let app = three_by_two();
    assert_eq!(
        app.language_table(),
        &vec![language("Rust", 1234567, 30), language("Go", 20, 2), language("C", 3, 1)]
    );
    assert_eq!(
        app.contributor_table(),
        &vec![contributor("Bob", 1500, 9), contributor("Alice", 700, 4)]
    );
}

#[test]
fn new_app_selects_nothing_and_shows_the_languages() {
    let app = three_by_two();
    assert_eq!(state(&app), (None, None, true, false));
}

#[test]
fn ranking_keeps_rows_with_the_same_lines_in_their_order() {
    assert_eq!(ranking(&vec![5, 9, 5, 9, 1, 5]), vec![1, 3, 0, 2, 5, 4]);
    assert_eq!(ranking(&vec![]), Vec::<usize>::new());
    assert_eq!(ranking(&vec![7]), vec![0]);
    assert_eq!(ranking(&vec![0, 0, 0]), vec![0, 1, 2]);
    assert_eq!(ranking(&vec![1, 2, 3, 4]), vec![3, 2, 1, 0]);
}

#[test]
fn ranking_agrees_with_a_stable_sort() {
    let lines = vec![3usize, 1, 4, 1, 5, 9, 2, 6, 5, 3, 5, 8, 9, 7, 9, 3, 2, 3, 8, 4];
    let mut expected: Vec<usize> = (0..lines.len()).collect();
    expected.sort_by(|&a, &b| lines[b].cmp(&lines[a]));
    assert_eq!(ranking(&lines), expected);
}

#[test]
fn rank_tables_keep_names_with_their_counts() {
    assert_eq!(
        rank_languages(&vec![language("A", 1, 9), language("B", 2, 8), language("C", 2, 7)]),
        vec![language("B", 2, 8), language("C", 2, 7), language("A", 1, 9)]
    );
    assert_eq!(
        rank_contributors(&vec![contributor("x", 0, 1), contributor("y", 10, 1)]),
        vec![contributor("y", 10, 1), contributor("x", 0, 1)]
    );
}

#[test]
fn selection_wraps_in_a_table_of_three() {
    let mut app = three_by_two();
    app.next();
    assert_eq!(app.selected_language(), Some(0));
    app.next();
    app.next();
    assert_eq!(app.selected_language(), Some(2));
    app.next();
    assert_eq!(app.selected_language(), Some(0));
    app.previous();
    assert_eq!(app.selected_language(), Some(2));
    app.previous();
    assert_eq!(app.selected_language(), Some(1));
}

#[test]
fn previous_from_no_selection_takes_the_last_row() {
    let mut app = three_by_two();
    app.previous();
    assert_eq!(app.selected_language(), Some(2));
}

#[test]
fn steps_leave_the_other_table_alone() {
    let mut app = three_by_two();
    app.next();
    app.switch_focus();
    assert_eq!(state(&app), (Some(0), None, false, false));
    app.previous();
    assert_eq!(state(&app), (Some(0), Some(1), false, false));
    app.next();
    assert_eq!(state(&app), (Some(0), Some(0), false, false));
    app.switch_focus();
    app.next();
    assert_eq!(state(&app), (Some(1), Some(0), true, false));
}

#[test]
fn steps_in_an_empty_table_select_nothing() {
    let mut app = App::new(Stats::default());
    app.next();
    assert_eq!(state(&app), (None, None, true, false));
    app.previous();
    assert_eq!(state(&app), (None, None, true, false));
    app.switch_focus();
    app.next();
    app.previous();
    assert_eq!(state(&app), (None, None, false, false));
}

#[test]
fn steps_in_a_table_of_one_stay_on_its_row() {
    let mut app = App::new(Stats { languages: vec![language("Rust", 1, 1)], contributors: vec![] });
    app.next();
    assert_eq!(app.selected_language(), Some(0));
    app.next();
    assert_eq!(app.selected_language(), Some(0));
    app.previous();
    assert_eq!(app.selected_language(), Some(0));
}

#[test]
fn detail_view_takes_no_step_and_no_change_of_focus() {
    let mut app = three_by_two();
    app.next();
    app.next();
    app.toggle_view_mode();
    let before = state(&app);
    assert_eq!(before, (Some(1), None, true, true));
    app.switch_focus();
    assert_eq!(state(&app), before);
    app.next();
    assert_eq!(state(&app), before);
    app.previous();
    assert_eq!(state(&app), before);
}

#[test]
fn toggling_the_view_twice_gives_the_selection_back() {
    let mut app = three_by_two();
    app.next();
    app.switch_focus();
    app.previous();
    let before = state(&app);
    app.toggle_view_mode();
    assert_eq!(state(&app), (before.0, before.1, before.2, true));
    app.toggle_view_mode();
    assert_eq!(state(&app), before);
}

#[test]
fn keys_and_their_commands() {
    assert_eq!(command_for(Key::Up), Some(Command::Advance));
    assert_eq!(command_for(Key::Down), Some(Command::Retreat));
    assert_eq!(command_for(Key::Tab), Some(Command::SwitchFocus));
    assert_eq!(command_for(Key::Char('v')), Some(Command::ToggleView));
    assert_eq!(command_for(Key::Char('q')), Some(Command::Quit));
    assert_eq!(command_for(Key::Char('Q')), None);
    assert_eq!(command_for(Key::Char('x')), None);
    assert_eq!(command_for(Key::Other), None);
}

#[test]
fn handle_event_applies_the_command_of_a_key() {
    let mut app = three_by_two();
    assert_eq!(app.handle_event(Event::Key(Key::Up), 80, 24), Flow::Continue);
    assert_eq!(state(&app), (Some(0), None, true, false));
    assert_eq!(app.handle_event(Event::Key(Key::Down), 80, 24), Flow::Continue);
    assert_eq!(state(&app), (Some(2), None, true, false));
    assert_eq!(app.handle_event(Event::Key(Key::Tab), 200, 50), Flow::Continue);
    assert_eq!(state(&app), (Some(2), None, false, false));
    assert_eq!(app.handle_event(Event::Key(Key::Char('v')), 80, 24), Flow::Continue);
    assert_eq!(state(&app), (Some(2), None, false, true));
}

#[test]
fn handle_event_ignores_what_is_no_command() {
    let mut app = three_by_two();
    app.next();
    let before = state(&app);
    for event in [Event::Key(Key::Other), Event::Key(Key::Char('z')), Event::Resize, Event::Other] {
        assert_eq!(app.handle_event(event, 100, 40), Flow::Continue);
        assert_eq!(state(&app), before);
    }
}

#[test]
fn handle_event_ends_the_session_on_q() {
    let mut app = three_by_two();
    app.next();
    let before = state(&app);
    assert_eq!(app.handle_event(Event::Key(Key::Char('q')), 100, 40), Flow::Quit);
    assert_eq!(state(&app), before);
    assert_eq!(app.handle_event(Event::Key(Key::Char('q')), 10, 10), Flow::Quit);
}

#[test]
fn handle_event_takes_no_step_on_a_small_display() {
    let mut app = three_by_two();
    app.next();
    let before = state(&app);
    for (width, height) in [(79, 24), (80, 23), (0, 0), (79, 100), (300, 23)] {
        for key in [Key::Up, Key::Down, Key::Tab, Key::Char('v')] {
            assert_eq!(app.handle_event(Event::Key(key), width, height), Flow::Continue);
            assert_eq!(state(&app), before);
        }
    }
    assert_eq!(app.handle_event(Event::Key(Key::Up), 80, 24), Flow::Continue);
    assert_eq!(app.selected_language(), Some(1));
}

#[test]
fn screen_by_size_and_view() {
    let mut app = three_by_two();
    assert_eq!(app.screen(80, 24), Screen::Tables);
    assert_eq!(app.screen(79, 24), Screen::TooSmall);
    assert_eq!(app.screen(80, 23), Screen::TooSmall);
    app.toggle_view_mode();
    assert_eq!(app.screen(120, 40), Screen::Detail);
    assert_eq!(app.screen(20, 40), Screen::TooSmall);
}

#[test]
fn smallest_display_and_tick() {
    assert_eq!((MIN_WIDTH, MIN_HEIGHT, TICK_MILLIS), (80, 24, 250));
    assert!(!viewport_too_small(80, 24));
    assert!(viewport_too_small(79, 24));
    assert!(viewport_too_small(80, 23));
    assert!(!viewport_too_small(u16::MAX, u16::MAX));
}

#[test]
fn poll_timeout_is_the_rest_of_the_tick() {
    assert_eq!(poll_timeout(0), 250);
    assert_eq!(poll_timeout(100), 150);
    assert_eq!(poll_timeout(249), 1);
    assert_eq!(poll_timeout(250), 0);
    assert_eq!(poll_timeout(10_000), 0);
    assert_eq!(poll_timeout(u64::MAX), 0);
}

#[test]
fn tick_is_over_after_its_length() {
    assert!(!tick_over(0));
    assert!(!tick_over(249));
    assert!(tick_over(250));
    assert!(tick_over(251));
}

#[test]
fn rows_show_names_grouped_lines_and_files() {
    let app = three_by_two();
    let row = |name: &str, lines: &str, files: &str, highlighted: bool| Row {
        name: name.to_string(),
        lines: lines.to_string(),
        files: files.to_string(),
        highlighted,
    };
    assert_eq!(
        app.language_rows(),
        vec![
            row("Rust", "1,234,567", "30", false),
            row("Go", "20", "2", false),
            row("C", "3", "1", false)
        ]
    );
    assert_eq!(
        app.contributor_rows(),
        vec![row("Bob", "1,500", "9", false), row("Alice", "700", "4", false)]
    );
}

#[test]
fn rows_mark_the_selection_of_the_focused_table_only() {
    let mut app = three_by_two();
    app.next();
    app.next();
    let marks = |rows: Vec<Row>| rows.iter().map(|r| r.highlighted).collect::<Vec<_>>();
    assert_eq!(marks(app.language_rows()), vec![false, true, false]);
    assert_eq!(marks(app.contributor_rows()), vec![false, false]);
    app.switch_focus();
    app.next();
    assert_eq!(marks(app.language_rows()), vec![false, false, false]);
    assert_eq!(marks(app.contributor_rows()), vec![true, false]);
    app.toggle_view_mode();
    assert_eq!(marks(app.language_rows()), vec![false, false, false]);
    assert_eq!(marks(app.contributor_rows()), vec![false, false]);
}

#[test]
fn highlight_symbol_by_view() {
    let mut app = three_by_two();
    assert_eq!(app.highlight_symbol(), ">> ");
    app.toggle_view_mode();
    assert_eq!(app.highlight_symbol(), "");
}

#[test]
fn detail_of_the_selected_language() {
    let mut app = three_by_two();
    app.next();
    app.toggle_view_mode();
    assert_eq!(app.detail_title(), "Language Details");
    assert_eq!(app.detail_content(), "Language: Rust\nTotal Lines: 1,234,567\nFiles: 30");
}

#[test]
fn detail_of_the_selected_contributor() {
    let mut app = three_by_two();
    app.switch_focus();
    app.previous();
    app.toggle_view_mode();
    assert_eq!(app.detail_title(), "Contributor Details");
    assert_eq!(app.detail_content(), "Contributor: Alice\nTotal Lines: 700\nFiles: 4");
}

#[test]
fn detail_without_selection() {
    let mut app = three_by_two();
    app.toggle_view_mode();
    assert_eq!(app.detail_content(), "No item selected.");
    app.toggle_view_mode();
    app.switch_focus();
    app.toggle_view_mode();
    assert_eq!(app.detail_title(), "Contributor Details");
    assert_eq!(app.detail_content(), "No item selected.");
}
