use finsk::launcher::Action;
use finsk::launcher::App;
use finsk::launcher::KeyInput;
use finsk::launcher::TEXT_PADDING;

fn chars_of(s: &str) -> Vec<char> {
    s.chars().collect()
}

fn string_of(l: &[char]) -> String {
    l.iter().collect()
}

fn some_programs() -> Vec<Vec<char>> {
    vec![chars_of("firefox"), chars_of("fox"), chars_of("ls"), chars_of("cat")]
}

#[test]
fn new_app_shows_the_list_from_the_top() {
    let app = App::new(500, 800, 32, some_programs());
    assert_eq!(app.shown_count(), 4);
    assert_eq!(app.selected_index(), 0);
    assert!(app.query().is_empty());
}

#[test]
fn new_app_caps_the_list_at_what_fits() {
    // 8 / 2 - 2 leaves room for two rows
    let app = App::new(100, 8, 2, some_programs());
    assert_eq!(app.shown_count(), 2);
    let rows = app.layout_rows();
    assert_eq!(string_of(&rows[0].text), "firefox");
    assert_eq!(string_of(&rows[1].text), "fox");
}

#[test]
fn typing_filters_and_sorts_by_length() {
    let mut app = App::new(500, 800, 32, some_programs());
    app.push_char('f');
    app.push_char('x');
    assert_eq!(string_of(app.query()), "fx");
    app.update_programs();
    let rows = app.layout_rows();
    assert_eq!(rows.len(), 2);
    assert_eq!(string_of(&rows[0].text), "fox");
    assert_eq!(string_of(&rows[1].text), "firefox");
}

#[test]
fn a_hopeless_query_empties_the_display() {
    let mut app = App::new(500, 800, 32, some_programs());
    app.push_char('z');
    app.push_char('z');
    app.push_char('z');
    app.update_programs();
    assert_eq!(app.shown_count(), 0);
    assert_eq!(app.selected_index(), 0);
}

#[test]
fn backspace_shortens_the_query() {
    let mut app = App::new(500, 800, 32, some_programs());
    app.push_char('l');
    app.push_char('s');
    let act = app.handle_key(KeyInput::Backspace);
    assert!(matches!(act, Action::Idle));
    assert_eq!(string_of(app.query()), "l");
    app.handle_key(KeyInput::Backspace);
    app.handle_key(KeyInput::Backspace);
    assert!(app.query().is_empty());
}

#[test]
fn arrows_move_the_cursor_with_wraparound() {
    let mut app = App::new(500, 800, 32, some_programs());
    let act = app.handle_key(KeyInput::Up);
    assert!(matches!(act, Action::Idle));
    assert_eq!(app.selected_index(), 3);
    app.handle_key(KeyInput::Down);
    assert_eq!(app.selected_index(), 0);
    app.handle_key(KeyInput::Down);
    assert_eq!(app.selected_index(), 1);
}

#[test]
fn the_cursor_is_clamped_after_a_refilter() {
    let mut app = App::new(500, 800, 32, some_programs());
    app.handle_key(KeyInput::Up);
    assert_eq!(app.selected_index(), 3);
    app.push_char('f');
    app.push_char('x');
    app.update_programs();
    assert_eq!(app.shown_count(), 2);
    assert_eq!(app.selected_index(), 1);
}

#[test]
fn enter_asks_to_spawn_the_highlighted_program() {
    let mut app = App::new(500, 800, 32, some_programs());
    app.update_programs();
    // sorted by length, ties in list order: ls, fox, cat, firefox
    app.handle_key(KeyInput::Down);
    let act = app.handle_key(KeyInput::Enter);
    match act {
        Action::Spawn(name) => assert_eq!(string_of(&name), "fox"),
        _ => panic!("enter should ask for a spawn"),
    }
}

#[test]
fn escape_stops_the_loop() {
    let mut app = App::new(500, 800, 32, some_programs());
    let act = app.handle_key(KeyInput::Escape);
    assert!(matches!(act, Action::Stop));
    let act = app.handle_key(KeyInput::Other);
    assert!(matches!(act, Action::Idle));
}

#[test]
fn rows_stack_two_font_heights_down() {
    let app = App::new(500, 800, 32, some_programs());
    let rows = app.layout_rows();
    assert_eq!(rows.len(), 4);
    assert_eq!(rows[0].at.x, TEXT_PADDING);
    assert_eq!(rows[0].at.y, 64);
    assert_eq!(rows[1].at.y, 96);
    assert!(rows[0].selected);
    assert!(!rows[1].selected);
}

#[test]
fn the_chrome_spans_the_window_top() {
    let app = App::new(500, 800, 32, some_programs());
    let c = app.chrome();
    assert_eq!(c.bar_width, 500);
    assert_eq!(c.bar_height, 48);
    assert_eq!(c.query_at.x, TEXT_PADDING);
    assert_eq!(c.query_at.y, 8);
}
