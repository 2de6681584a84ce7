use password_manager::app::command_for;
use password_manager::app::App;
use password_manager::app::Command;
use password_manager::app::Flow;
use password_manager::app::Input;
use password_manager::app::Key;
use password_manager::app::KeyKind;
use password_manager::app::StaleSelection;
use password_manager::database::Database;
use password_manager::database::FileState;
use password_manager::database::Password;
use password_manager::widgets::StatefulList;

fn press(key: Key) -> Input {
    Input::Key { key, kind: KeyKind::Press }
}

fn app_with(id_counter: u64, records: Vec<(u64, &str, &str)>, selected: Option<usize>) -> App {
    let mut passwords = Vec::new();
    for (id, name, content) in records {
        passwords.push(Password::new(id, name.to_string(), content.to_string()));
    }
    let db = match Database::new(FileState::Decoded { id_counter, passwords }) {
        Ok(db) => db,
        Err(e) => panic!("{:?}", e),
    };
    App { db, stateful_list: StatefulList { selected } }
}

fn ids(app: &App) -> Vec<u64> {
    app.db.passwords.iter().map(|p| p.id).collect()
}

#[test]
fn pressed_keys_map_to_their_commands() {
    assert_eq!(command_for(press(Key::Char('q'))), Command::Quit);
    assert_eq!(command_for(press(Key::Char('c'))), Command::Create);
    assert_eq!(command_for(press(Key::Char('d'))), Command::Delete);
    assert_eq!(command_for(press(Key::Down)), Command::Next);
    assert_eq!(command_for(press(Key::Up)), Command::Previous);
    assert_eq!(command_for(press(Key::Left)), Command::Unselect);
    assert_eq!(command_for(press(Key::Esc)), Command::Unselect);
}

#[test]
fn other_keys_ask_for_nothing() {
    assert_eq!(command_for(press(Key::Other)), Command::Nothing);
    assert_eq!(command_for(press(Key::Char('x'))), Command::Nothing);
    assert_eq!(command_for(press(Key::Char('Q'))), Command::Nothing);
    assert_eq!(command_for(press(Key::Char('C'))), Command::Nothing);
    assert_eq!(command_for(press(Key::Char('D'))), Command::Nothing);
    assert_eq!(command_for(Input::Other), Command::Nothing);
}

#[test]
fn only_a_press_counts() {
    let keys = [Key::Char('q'), Key::Char('c'), Key::Char('d'), Key::Down, Key::Up, Key::Left, Key::Esc];
    for key in keys {
        assert_eq!(command_for(Input::Key { key, kind: KeyKind::Release }), Command::Nothing);
        assert_eq!(command_for(Input::Key { key, kind: KeyKind::Repeat }), Command::Nothing);
    }
}

#[test]
fn a_new_app_has_no_highlight() {
    let db = match Database::new(FileState::Absent) {
        Ok(db) => db,
        Err(e) => panic!("{:?}", e),
    };
    let app = App::new(db);
    assert_eq!(app.stateful_list.selected(), None);
    assert!(app.db.passwords.is_empty());
    assert_eq!(app.db.id_counter, 0);
}

#[test]
fn quit_stops_and_changes_nothing() {
    let mut app = app_with(2, vec![(0, "a", "x"), (1, "b", "y")], Some(1));
    assert_eq!(app.handle(press(Key::Char('q'))), Ok(Flow::Quit));
    assert_eq!(ids(&app), vec![0, 1]);
    assert_eq!(app.stateful_list.selected(), Some(1));
    assert!(!app.db.unsaved);
}

#[test]
fn create_key_appends_the_placeholder_record() {
    let mut app = app_with(4, vec![(0, "a", "x")], Some(0));
    assert_eq!(app.handle(press(Key::Char('c'))), Ok(Flow::Continue));
    assert_eq!(app.db.passwords.len(), 2);
    assert_eq!(
        app.db.passwords[1],
        Password::new(4, "TestName".to_string(), "TestContent".to_string())
    );
    assert_eq!(app.db.id_counter, 5);
    assert!(app.db.unsaved);
    assert_eq!(app.stateful_list.selected(), Some(0));
}

#[test]
fn create_password_appends_the_placeholder_record() {
    let mut app = app_with(0, vec![], None);
    app.create_password();
    app.create_password();
    assert_eq!(ids(&app), vec![0, 1]);
    assert_eq!(app.db.passwords[0].name, "TestName");
    assert_eq!(app.db.passwords[0].content, "TestContent");
    assert_eq!(app.db.passwords[1].name, "TestName");
    assert_eq!(app.db.passwords[1].content, "TestContent");
    assert_eq!(app.stateful_list.selected(), None);
    assert!(app.db.unsaved);
}

#[test]
fn delete_key_without_a_highlight_does_nothing() {
    let mut app = app_with(2, vec![(0, "a", "x"), (1, "b", "y")], None);
    assert_eq!(app.handle(press(Key::Char('d'))), Ok(Flow::Continue));
    assert_eq!(ids(&app), vec![0, 1]);
    assert!(!app.db.unsaved);
    assert_eq!(app.stateful_list.selected(), None);
}

#[test]
fn delete_key_removes_the_highlighted_record() {
    let mut app = app_with(3, vec![(0, "a", "x"), (1, "b", "y"), (2, "c", "z")], Some(1));
    assert_eq!(app.handle(press(Key::Char('d'))), Ok(Flow::Continue));
    assert_eq!(ids(&app), vec![0, 2]);
    assert!(app.db.unsaved);
    assert_eq!(app.stateful_list.selected(), Some(1));
    assert_eq!(app.db.id_counter, 3);
}

#[test]
fn deleting_the_last_row_moves_the_highlight_up() {
    let mut app = app_with(3, vec![(0, "a", "x"), (1, "b", "y"), (2, "c", "z")], Some(2));
    assert_eq!(app.delete_password(), Ok(()));
    assert_eq!(ids(&app), vec![0, 1]);
    assert_eq!(app.stateful_list.selected(), Some(1));
    assert_eq!(app.delete_password(), Ok(()));
    assert_eq!(ids(&app), vec![0]);
    assert_eq!(app.stateful_list.selected(), Some(0));
}

#[test]
fn deleting_the_only_row_removes_the_highlight() {
    let mut app = app_with(1, vec![(0, "a", "x")], Some(0));
    assert_eq!(app.delete_password(), Ok(()));
    assert!(app.db.passwords.is_empty());
    assert_eq!(app.stateful_list.selected(), None);
    assert_eq!(app.delete_password(), Ok(()));
    assert!(app.db.passwords.is_empty());
}

#[test]
fn delete_goes_by_the_id_on_the_highlighted_row() {
    let mut app = app_with(3, vec![(5, "a", "x"), (1, "b", "y"), (5, "c", "z")], Some(2));
    assert_eq!(app.delete_password(), Ok(()));
    let names: Vec<String> = app.db.passwords.iter().map(|p| p.name.clone()).collect();
    assert_eq!(names, vec!["b".to_string(), "c".to_string()]);
    assert_eq!(app.stateful_list.selected(), Some(1));
}

#[test]
fn a_highlight_beyond_the_store_is_reported() {
    let mut app = app_with(2, vec![(0, "a", "x"), (1, "b", "y")], Some(2));
    assert_eq!(app.delete_password(), Err(StaleSelection { index: 2, len: 2 }));
    assert_eq!(ids(&app), vec![0, 1]);
    assert_eq!(app.stateful_list.selected(), Some(2));
    assert!(!app.db.unsaved);

    assert_eq!(app.handle(press(Key::Char('d'))), Err(StaleSelection { index: 2, len: 2 }));
    assert_eq!(ids(&app), vec![0, 1]);
    assert_eq!(app.stateful_list.selected(), Some(2));

    let mut app = app_with(0, vec![], Some(0));
    assert_eq!(app.delete_password(), Err(StaleSelection { index: 0, len: 0 }));
}

#[test]
fn arrows_move_the_highlight_over_the_store() {
    let mut app = app_with(3, vec![(0, "a", "x"), (1, "b", "y"), (2, "c", "z")], None);
    assert_eq!(app.handle(press(Key::Down)), Ok(Flow::Continue));
    assert_eq!(app.stateful_list.selected(), Some(0));
    assert_eq!(app.handle(press(Key::Down)), Ok(Flow::Continue));
    assert_eq!(app.stateful_list.selected(), Some(1));
    assert_eq!(app.handle(press(Key::Down)), Ok(Flow::Continue));
    assert_eq!(app.stateful_list.selected(), Some(2));
    assert_eq!(app.handle(press(Key::Down)), Ok(Flow::Continue));
    assert_eq!(app.stateful_list.selected(), Some(0));
    assert_eq!(app.handle(press(Key::Up)), Ok(Flow::Continue));
    assert_eq!(app.stateful_list.selected(), Some(2));
    assert_eq!(app.handle(press(Key::Up)), Ok(Flow::Continue));
    assert_eq!(app.stateful_list.selected(), Some(1));
    assert_eq!(ids(&app), vec![0, 1, 2]);
    assert!(!app.db.unsaved);
}

#[test]
fn arrows_on_an_empty_store_leave_no_highlight() {
    let mut app = app_with(0, vec![], None);
    assert_eq!(app.handle(press(Key::Down)), Ok(Flow::Continue));
    assert_eq!(app.stateful_list.selected(), None);
    assert_eq!(app.handle(press(Key::Up)), Ok(Flow::Continue));
    assert_eq!(app.stateful_list.selected(), None);
}

#[test]
fn left_and_escape_remove_the_highlight() {
    let mut app = app_with(2, vec![(0, "a", "x"), (1, "b", "y")], Some(1));
    assert_eq!(app.handle(press(Key::Left)), Ok(Flow::Continue));
    assert_eq!(app.stateful_list.selected(), None);
    app.stateful_list = StatefulList { selected: Some(0) };
    assert_eq!(app.handle(press(Key::Esc)), Ok(Flow::Continue));
    assert_eq!(app.stateful_list.selected(), None);
    assert_eq!(ids(&app), vec![0, 1]);
    assert!(!app.db.unsaved);
}

#[test]
fn ignored_events_change_nothing() {
    let mut app = app_with(2, vec![(0, "a", "x"), (1, "b", "y")], Some(1));
    let events = [
        Input::Other,
        press(Key::Other),
        press(Key::Char('z')),
        Input::Key { key: Key::Char('d'), kind: KeyKind::Release },
        Input::Key { key: Key::Char('c'), kind: KeyKind::Repeat },
        Input::Key { key: Key::Char('q'), kind: KeyKind::Release },
    ];
    for event in events {
        assert_eq!(app.handle(event), Ok(Flow::Continue));
        assert_eq!(ids(&app), vec![0, 1]);
        assert_eq!(app.stateful_list.selected(), Some(1));
        assert!(!app.db.unsaved);
        assert_eq!(app.db.id_counter, 2);
    }
}

#[test]
fn a_session_of_keys() {
    let db = match Database::new(FileState::Absent) {
        Ok(db) => db,
        Err(e) => panic!("{:?}", e),
    };
    let mut app = App::new(db);
    let keys = [
        Key::Char('c'),
        Key::Char('c'),
        Key::Char('c'),
        Key::Down,
        Key::Down,
        Key::Char('d'),
        Key::Down,
        Key::Char('d'),
        Key::Char('c'),
    ];
    for key in keys {
        assert_eq!(app.handle(press(key)), Ok(Flow::Continue));
        if app.db.unsaved {
            app.db.mark_saved();
        }
    }
    assert_eq!(ids(&app), vec![2, 3]);
    assert_eq!(app.stateful_list.selected(), Some(0));
    assert_eq!(app.db.id_counter, 4);
    assert_eq!(app.handle(press(Key::Char('q'))), Ok(Flow::Quit));
}
