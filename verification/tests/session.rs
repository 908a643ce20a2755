use order_in_yaml_frontmatter::app::{Action, App, Key, Prompt, Row, Screen, Status};
use order_in_yaml_frontmatter::page::{OrderError, PageList, SourceFile};

fn source(name: &str, title: Option<&str>, order: Option<i64>) -> SourceFile {
    let mut text = String::from("---\n");
    if let Some(title) = title {
        text.push_str(&format!("title: {}\n", title));
    }
    if let Some(order) = order {
        text.push_str(&format!("order: {}\n", order));
    }
    text.push_str("draft: false\n---\nbody\n");
    SourceFile {
        path: format!("content/posts/{}", name),
        file_name: name.to_string(),
        directory: "content/posts".to_string(),
        text,
    }
}

fn session() -> App {
    let files = vec![
        source("a.md", Some("Alpha"), None),
        source("b.md", Some("Beta"), Some(1)),
        source("c.md", None, Some(0)),
    ];
    App::new(PageList::try_new("order", &files).unwrap())
}

fn names(app: &App) -> Vec<String> {
    let list = app.page_list();
    (0..list.len()).map(|i| list.get(i).unwrap().file_name().clone()).collect()
}

fn values(app: &App) -> Vec<Option<i64>> {
    let list = app.page_list();
    (0..list.len()).map(|i| list.get(i).unwrap().value()).collect()
}

fn state(app: &App) -> (Status, Status, usize) {
    (app.current_status(), app.previous_status(), app.selected_idx())
}

#[test]
fn session_starts_unpicked_on_the_first_document() {
    let app = session();
    assert_eq!(state(&app), (Status::Unpicked, Status::Unpicked, 0));
    assert_eq!(names(&app), vec!["c.md", "b.md", "a.md"]);
    assert_eq!(values(&app), vec![Some(0), Some(1), None]);
    assert_eq!(Status::default(), Status::Unpicked);
}

#[test]
fn selection_moves_and_stops_at_both_ends() {
    let mut app = session();
    assert_eq!(app.transition(Key::Up), Ok(Action::Redraw));
    assert_eq!(app.selected_idx(), 0);
    assert_eq!(app.transition(Key::Down), Ok(Action::Redraw));
    assert_eq!(app.selected_idx(), 1);
    assert_eq!(app.transition(Key::Char('k')), Ok(Action::Redraw));
    assert_eq!(app.selected_idx(), 2);
    assert_eq!(app.transition(Key::Down), Ok(Action::Redraw));
    assert_eq!(app.selected_idx(), 2);
    assert_eq!(app.transition(Key::Char('i')), Ok(Action::Redraw));
    assert_eq!(app.selected_idx(), 1);
    assert_eq!(state(&app), (Status::Unpicked, Status::Unpicked, 1));
    assert_eq!(names(&app), vec!["c.md", "b.md", "a.md"]);
    assert_eq!(values(&app), vec![Some(0), Some(1), None]);
}

#[test]
fn toggle_key_flips_the_selected_document() {
    let mut app = session();
    app.transition(Key::Down).unwrap();
    app.transition(Key::Down).unwrap();
    assert_eq!(app.transition(Key::Char('x')), Ok(Action::Redraw));
    assert_eq!(values(&app), vec![Some(0), Some(1), Some(2)]);
    app.transition(Key::Up).unwrap();
    app.transition(Key::Up).unwrap();
    assert_eq!(app.transition(Key::Char('x')), Ok(Action::Redraw));
    assert_eq!(values(&app), vec![None, Some(0), Some(1)]);
    assert_eq!(state(&app), (Status::Unpicked, Status::Unpicked, 0));
}

#[test]
fn toggle_key_on_an_empty_list_fails() {
    let mut app = App::new(PageList::try_new("order", &Vec::new()).unwrap());
    assert_eq!(app.transition(Key::Down), Ok(Action::Redraw));
    assert_eq!(app.selected_idx(), 0);
    assert_eq!(
        app.transition(Key::Char('x')),
        Err(OrderError::IndexOutOfRange(0))
    );
    assert_eq!(state(&app), (Status::Unpicked, Status::Unpicked, 0));
    assert!(!app.can_draw(80, 24));
}

#[test]
fn pick_key_enters_and_leaves_reordering() {
    let mut app = session();
    assert_eq!(app.transition(Key::Char('p')), Ok(Action::Redraw));
    assert_eq!(state(&app), (Status::Picked, Status::Unpicked, 0));
    assert_eq!(app.transition(Key::Char('p')), Ok(Action::Redraw));
    assert_eq!(state(&app), (Status::Unpicked, Status::Picked, 0));
}

#[test]
fn picked_document_moves_with_the_selection() {
    let mut app = session();
    app.transition(Key::Char('p')).unwrap();
    assert_eq!(app.transition(Key::Up), Ok(Action::Redraw));
    assert_eq!(names(&app), vec!["c.md", "b.md", "a.md"]);
    assert_eq!(app.selected_idx(), 0);
    assert_eq!(app.transition(Key::Down), Ok(Action::Redraw));
    assert_eq!(names(&app), vec!["b.md", "c.md", "a.md"]);
    assert_eq!(values(&app), vec![Some(0), Some(1), None]);
    assert_eq!(app.selected_idx(), 1);
    assert_eq!(app.transition(Key::Char('k')), Ok(Action::Redraw));
    assert_eq!(names(&app), vec!["b.md", "a.md", "c.md"]);
    assert_eq!(values(&app), vec![Some(0), None, Some(1)]);
    assert_eq!(app.selected_idx(), 2);
    assert_eq!(app.transition(Key::Down), Ok(Action::Redraw));
    assert_eq!(names(&app), vec!["b.md", "a.md", "c.md"]);
    assert_eq!(app.selected_idx(), 2);
    assert_eq!(app.transition(Key::Char('i')), Ok(Action::Redraw));
    assert_eq!(names(&app), vec!["b.md", "c.md", "a.md"]);
    assert_eq!(values(&app), vec![Some(0), Some(1), None]);
    assert_eq!(state(&app), (Status::Picked, Status::Picked, 1));
}

#[test]
fn keys_without_meaning_change_nothing() {
    let mut app = session();
    for key in [Key::Other, Key::Char('Y'), Key::Char('z'), Key::Char('Q')] {
        assert_eq!(app.transition(key), Ok(Action::Redraw));
        assert_eq!(state(&app), (Status::Unpicked, Status::Unpicked, 0));
    }
    app.transition(Key::Char('p')).unwrap();
    for key in [Key::Other, Key::Char('s'), Key::Char('x'), Key::Char('Y')] {
        assert_eq!(app.transition(key), Ok(Action::Redraw));
        assert_eq!(state(&app), (Status::Picked, Status::Unpicked, 0));
        assert_eq!(values(&app), vec![Some(0), Some(1), None]);
    }
}

#[test]
fn quit_is_asked_and_confirmed() {
    let mut app = session();
    assert_eq!(app.transition(Key::Char('q')), Ok(Action::Redraw));
    assert_eq!(state(&app), (Status::AskQuit, Status::Unpicked, 0));
    assert_eq!(app.transition(Key::Char('Y')), Ok(Action::Quit));
    assert_eq!(state(&app), (Status::Quit, Status::AskQuit, 0));
}

#[test]
fn quit_is_cancelled_by_any_other_key() {
    for key in [Key::Char('y'), Key::Char('n'), Key::Char('q'), Key::Up, Key::Other] {
        let mut app = session();
        app.transition(Key::Char('p')).unwrap();
        app.transition(Key::Down).unwrap();
        assert_eq!(app.transition(Key::Char('q')), Ok(Action::Redraw));
        assert_eq!(state(&app), (Status::AskQuit, Status::Picked, 1));
        assert_eq!(app.transition(key), Ok(Action::Redraw));
        assert_eq!(state(&app), (Status::Picked, Status::AskQuit, 1));
        assert_eq!(names(&app), vec!["b.md", "c.md", "a.md"]);
    }
}

#[test]
fn save_is_asked_only_while_browsing() {
    let mut app = session();
    assert_eq!(app.transition(Key::Char('s')), Ok(Action::Redraw));
    assert_eq!(state(&app), (Status::AskSave, Status::Unpicked, 0));
    assert_eq!(app.transition(Key::Char('n')), Ok(Action::Redraw));
    assert_eq!(state(&app), (Status::Unpicked, Status::AskSave, 0));
}

#[test]
fn confirmed_save_substitutes_and_asks_to_persist() {
    let mut app = session();
    app.transition(Key::Down).unwrap();
    app.transition(Key::Down).unwrap();
    app.transition(Key::Char('x')).unwrap();
    app.transition(Key::Char('s')).unwrap();
    assert!(app.can_save());
    assert_eq!(app.transition(Key::Char('Y')), Ok(Action::Persist));
    assert_eq!(state(&app), (Status::Quit, Status::AskSave, 2));
    let list = app.page_list();
    assert_eq!(list.overwrite_frontmatter(), vec![2]);
    let content = list
        .get(2)
        .unwrap()
        .overwrite_frontmatter(b"---\ntitle: Alpha\ndraft: false\n---\nbody\n")
        .unwrap()
        .unwrap();
    assert_eq!(
        String::from_utf8(content).unwrap(),
        "---\ntitle: Alpha\ndraft: false\norder: 2\n---\nbody\n"
    );
}

#[test]
fn guidance_names_the_keys_of_the_state() {
    let mut app = session();
    assert_eq!(
        app.guidance(false),
        " Quit [q], Up [i], Down [k], Pick [p], Exclude [x], Save [s]"
    );
    assert_eq!(app.guidance(true), " Quit [q], Up [i], Down [k], Unpick [p]");
    app.transition(Key::Down).unwrap();
    app.transition(Key::Down).unwrap();
    assert_eq!(
        app.guidance(false),
        " Quit [q], Up [i], Down [k], Pick [p], Include [x], Save [s]"
    );
}

#[test]
fn table_shows_every_document() {
    let mut app = session();
    app.transition(Key::Down).unwrap();
    let screen = match app.ui(80, 24) {
        Screen::Select(screen) => screen,
        other => panic!("unexpected: {:?}", other),
    };
    assert_eq!(
        screen.guidance,
        " Quit [q], Up [i], Down [k], Pick [p], Exclude [x], Save [s]"
    );
    assert_eq!(screen.guidance_height, 1);
    assert_eq!(screen.table_height, 22);
    assert_eq!(
        screen.header,
        Row {
            title: "Title".to_string(),
            mark: "".to_string(),
            file_name: "File".to_string(),
            directory: "Dirctory".to_string(),
        }
    );
    assert_eq!(screen.title_width, 5);
    assert_eq!(screen.mark_width, 1);
    assert_eq!(screen.file_width, 4);
    assert_eq!(screen.directory_width, 13);
    assert_eq!(screen.highlight_symbol, " >  ");
    assert_eq!(screen.selected, 1);
    let row = |title: &str, mark: &str, file: &str| Row {
        title: title.to_string(),
        mark: mark.to_string(),
        file_name: file.to_string(),
        directory: "content/posts".to_string(),
    };
    assert_eq!(
        screen.rows,
        vec![row("", "", "c.md"), row("Beta", "", "b.md"), row("Alpha", "x", "a.md")]
    );
}

#[test]
fn table_of_a_picked_document_has_its_own_mark_and_guidance() {
    let mut app = session();
    app.transition(Key::Char('p')).unwrap();
    let screen = match app.ui(20, 10) {
        Screen::Select(screen) => screen,
        other => panic!("unexpected: {:?}", other),
    };
    assert_eq!(screen.guidance, " Quit [q], Up [i], Down [k], Unpick [p]");
    assert_eq!(screen.guidance_height, 2);
    assert_eq!(screen.table_height, 7);
    assert_eq!(screen.highlight_symbol, " >> ");
    assert_eq!(screen.selected, 0);
}

#[test]
fn guidance_takes_a_line_more_for_every_full_width() {
    let app = session();
    let height = |width: u16| match app.ui(width, 100) {
        Screen::Select(screen) => (screen.guidance_height, screen.table_height),
        other => panic!("unexpected: {:?}", other),
    };
    assert_eq!(height(61), (1, 98));
    assert_eq!(height(60), (2, 97));
    assert_eq!(height(59), (2, 97));
    assert_eq!(height(30), (3, 96));
    assert_eq!(height(1), (61, 38));
}

#[test]
fn columns_are_as_wide_as_their_widest_entry() {
    let files = vec![
        SourceFile {
            path: "docs/guide/introduction.html".to_string(),
            file_name: "introduction.html".to_string(),
            directory: "docs/guide".to_string(),
            text: "---\ntitle: \u{65e5}\u{672c}\u{8a9e}\u{306e}\u{30bf}\u{30a4}\u{30c8}\u{30eb}\n---\n".to_string(),
        },
        SourceFile {
            path: "d/\u{00e9}t\u{00e9}.md".to_string(),
            file_name: "\u{00e9}t\u{00e9}.md".to_string(),
            directory: "d".to_string(),
            text: "---\ntitle: short\n---\n".to_string(),
        },
    ];
    let app = App::new(PageList::try_new("order", &files).unwrap());
    let screen = match app.ui(80, 24) {
        Screen::Select(screen) => screen,
        other => panic!("unexpected: {:?}", other),
    };
    assert_eq!(screen.title_width, 16);
    assert_eq!(screen.file_width, 17);
    assert_eq!(screen.directory_width, 10);
    assert_eq!(screen.rows[0].title, "\u{65e5}\u{672c}\u{8a9e}\u{306e}\u{30bf}\u{30a4}\u{30c8}\u{30eb}");
    assert_eq!(screen.rows[0].mark, "x");
}

#[test]
fn names_are_measured_in_bytes() {
    let files = vec![SourceFile {
        path: "d/\u{00e9}t\u{00e9}.md".to_string(),
        file_name: "\u{00e9}t\u{00e9}.md".to_string(),
        directory: "\u{00e9}\u{00e9}\u{00e9}\u{00e9}\u{00e9}".to_string(),
        text: "---\ntitle: short\n---\n".to_string(),
    }];
    let app = App::new(PageList::try_new("order", &files).unwrap());
    let screen = match app.ui(80, 24) {
        Screen::Select(screen) => screen,
        other => panic!("unexpected: {:?}", other),
    };
    assert_eq!(screen.file_width, 8);
    assert_eq!(screen.directory_width, 10);
    assert_eq!(screen.title_width, 5);
}

#[test]
fn columns_are_no_narrower_than_their_headings() {
    let files = vec![SourceFile {
        path: "d/a.y".to_string(),
        file_name: "a.y".to_string(),
        directory: "d".to_string(),
        text: "---\ntitle: a\n---\n".to_string(),
    }];
    let app = App::new(PageList::try_new("order", &files).unwrap());
    let screen = match app.ui(80, 24) {
        Screen::Select(screen) => screen,
        other => panic!("unexpected: {:?}", other),
    };
    assert_eq!(screen.title_width, 5);
    assert_eq!(screen.mark_width, 1);
    assert_eq!(screen.file_width, 4);
    assert_eq!(screen.directory_width, 8);
}

#[test]
fn questions_are_shown_while_asking() {
    let mut app = session();
    app.transition(Key::Char('q')).unwrap();
    assert_eq!(
        app.ui(80, 24),
        Screen::AskQuit(Prompt {
            title: "Quit without save?".to_string(),
            message: "Y / [n]".to_string(),
        })
    );
    assert!(app.can_draw(0, 0));
    app.transition(Key::Other).unwrap();
    app.transition(Key::Char('s')).unwrap();
    assert_eq!(
        app.ui(80, 24),
        Screen::AskSave(Prompt {
            title: "Save and quit?".to_string(),
            message: "Y / [n]".to_string(),
        })
    );
}

#[test]
fn table_needs_room_below_the_guidance() {
    let app = session();
    assert!(app.can_draw(80, 2));
    assert!(!app.can_draw(80, 1));
    assert!(!app.can_draw(0, 24));
    assert!(app.can_draw(60, 3));
    assert!(!app.can_draw(60, 2));
    let screen = match app.ui(80, 2) {
        Screen::Select(screen) => screen,
        other => panic!("unexpected: {:?}", other),
    };
    assert_eq!(screen.table_height, 0);
}

#[test]
fn ended_session_cannot_be_drawn() {
    let mut app = session();
    app.transition(Key::Char('q')).unwrap();
    app.transition(Key::Char('Y')).unwrap();
    assert!(!app.can_draw(80, 24));
}

#[test]
fn save_cannot_be_confirmed_where_a_front_matter_is_no_mapping() {
    let files = vec![SourceFile {
        path: "a.md".to_string(),
        file_name: "a.md".to_string(),
        directory: "".to_string(),
        text: "---\njust text\n---\n".to_string(),
    }];
    let app = App::new(PageList::try_new("order", &files).unwrap());
    assert!(!app.can_save());
}

#[test]
fn session_stays_well_formed() {
    let mut app = session();
    assert!(app.is_well_formed());
    for key in [
        Key::Down,
        Key::Char('x'),
        Key::Char('p'),
        Key::Down,
        Key::Char('q'),
        Key::Other,
        Key::Up,
        Key::Char('p'),
        Key::Char('s'),
    ] {
        app.transition(key).unwrap();
        assert!(app.is_well_formed());
    }
    assert_eq!(state(&app), (Status::AskSave, Status::Unpicked, 1));
}

#[test]
fn widest_entry_is_the_greatest_of_entries_and_floor() {
    assert_eq!(App::widest_entry(&vec![], 5), 5);
    assert_eq!(App::widest_entry(&vec![1, 4, 2], 5), 5);
    assert_eq!(App::widest_entry(&vec![1, 9, 2, 9, 3], 5), 9);
    assert_eq!(App::widest_entry(&vec![7], 0), 7);
}
