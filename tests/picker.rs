use ignoreit::picker::{highlight, indices_template, folder_name, Key, State};
use ignoreit::template::Category;
use ignoreit::tree::{DirListing, Folder};

fn listing(name: &str, files: &[&str], dirs: Vec<DirListing>) -> DirListing {
    DirListing {
        name: name.to_string(),
        files: files.iter().map(|f| f.to_string()).collect(),
        dirs,
    }
}

fn three_languages() -> Folder {
    Folder::load_path(&listing(
        "templates",
        &["Rust.gitignore", "Go.gitignore", "Node.gitignore"],
        vec![],
    ))
}

fn visible_names(state: &State) -> Vec<String> {
    let folder = state.current_folder();
    state
        .visible
        .iter()
        .map(|&k| folder.item(k).name().to_string())
        .collect()
}

#[test]
fn root_lists_in_name_order_and_selects_first() {
    let mut state = State::new(three_languages());
    assert_eq!(visible_names(&state), vec!["Go", "Node", "Rust"]);
    assert_eq!(state.cursor, 0);
    let (quit, chosen) = state.handle_key_event(Key::Enter);
    assert!(quit);
    let chosen = chosen.expect("a template is chosen");
    assert_eq!(chosen.name(), "Go");
    assert!(chosen.category().is_root());
    assert_eq!(chosen.category(), &Category::Root);
}

fn global_tree() -> Folder {
    Folder::load_path(&listing(
        "templates",
        &[],
        vec![listing("Global", &["Windows.gitignore"], vec![])],
    ))
}

#[test]
fn descend_into_folder_then_select() {
    let mut state = State::new(global_tree());
    assert_eq!(visible_names(&state), vec!["Global"]);
    let (quit, chosen) = state.handle_key_event(Key::Enter);
    assert!(!quit);
    assert!(chosen.is_none());
    assert_eq!(state.current, vec![0]);
    assert_eq!(visible_names(&state), vec!["Windows"]);
    let (quit, chosen) = state.handle_key_event(Key::Enter);
    assert!(quit);
    let chosen = chosen.unwrap();
    assert_eq!(chosen.name(), "Windows");
    assert_eq!(
        chosen.category(),
        &Category::Subfolder(vec!["Global".to_string()].into_iter().collect())
    );
    assert_eq!(chosen.category().to_string(), "Global/");
    assert_eq!(chosen.to_string(), "Global/Windows");
    assert_eq!(chosen.path(), &vec!["Global".to_string(), "Windows.gitignore".to_string()]);
}

#[test]
fn ascend_restores_root_view() {
    let root = Folder::load_path(&listing(
        "templates",
        &["Go.gitignore"],
        vec![listing("Global", &["Windows.gitignore"], vec![])],
    ));
    let mut state = State::new(root);
    // Folders and templates rank together by name: Global, then Go.
    assert_eq!(visible_names(&state), vec!["Global", "Go"]);
    state.handle_key_event(Key::Right);
    assert_eq!(state.current, vec![0]);
    assert_eq!(state.history.len(), 1);
    let (quit, chosen) = state.handle_key_event(Key::Left);
    assert!(!quit && chosen.is_none());
    assert!(state.current.is_empty());
    assert_eq!(state.cursor, 0);
    assert!(state.history.is_empty());
    assert_eq!(visible_names(&state), vec!["Global", "Go"]);
}

#[test]
fn ascend_restores_moved_cursor_and_search_term() {
    let root = Folder::load_path(&listing(
        "templates",
        &["Go.gitignore"],
        vec![
            listing("Global", &["Windows.gitignore"], vec![]),
            listing("community", &["Foo.gitignore"], vec![]),
        ],
    ));
    let mut state = State::new(root);
    assert_eq!(visible_names(&state), vec!["community", "Global", "Go"]);
    state.handle_key_event(Key::Down);
    assert_eq!(state.cursor, 1);
    state.handle_key_event(Key::Enter);
    assert_eq!(state.current, vec![0]);
    assert_eq!(state.search_term, "");
    state.handle_key_event(Key::Char('w'));
    state.handle_key_event(Key::Left);
    assert_eq!(state.cursor, 1);
    assert_eq!(state.search_term, "");
    assert_eq!(visible_names(&state), vec!["community", "Global", "Go"]);
}

#[test]
fn ascend_at_root_does_nothing() {
    let mut state = State::new(three_languages());
    state.handle_key_event(Key::Down);
    let (quit, chosen) = state.handle_key_event(Key::Left);
    assert!(!quit && chosen.is_none());
    assert_eq!(state.cursor, 1);
    assert!(state.current.is_empty());
}

#[test]
fn typing_narrows_and_backspace_restores() {
    let mut state = State::new(three_languages());
    state.handle_key_event(Key::Char('r'));
    state.handle_key_event(Key::Char('u'));
    assert_eq!(state.search_term, "ru");
    assert_eq!(visible_names(&state), vec!["Rust"]);
    state.handle_key_event(Key::Backspace);
    state.handle_key_event(Key::Backspace);
    assert_eq!(state.search_term, "");
    assert_eq!(visible_names(&state), vec!["Go", "Node", "Rust"]);
    // Backspace on an empty term changes nothing.
    state.handle_key_event(Key::Backspace);
    assert_eq!(state.search_term, "");
}

#[test]
fn typing_one_more_character_never_widens_the_list() {
    let mut state = State::new(three_languages());
    let mut previous = visible_names(&state);
    for c in ['o', 'd', 'e'] {
        state.handle_key_event(Key::Char(c));
        let now = visible_names(&state);
        assert!(now.iter().all(|n| previous.contains(n)));
        previous = now;
    }
    assert_eq!(previous, vec!["Node"]);
}

#[test]
fn search_is_smart_case() {
    let mut state = State::new(three_languages());
    state.handle_key_event(Key::Char('R'));
    assert_eq!(visible_names(&state), vec!["Rust"]);
    state.handle_key_event(Key::Backspace);
    state.handle_key_event(Key::Char('O'));
    assert!(visible_names(&state).is_empty());
}

#[test]
fn cursor_clamps_when_the_list_shrinks() {
    let mut state = State::new(three_languages());
    state.handle_key_event(Key::Up);
    assert_eq!(state.cursor, 2);
    state.handle_key_event(Key::Char('g'));
    assert_eq!(visible_names(&state), vec!["Go"]);
    assert_eq!(state.cursor, 0);
    state.handle_key_event(Key::Char('x'));
    assert!(visible_names(&state).is_empty());
    assert_eq!(state.cursor, 0);
    let (quit, chosen) = state.handle_key_event(Key::Enter);
    assert!(!quit && chosen.is_none());
}

#[test]
fn cursor_wraps_both_ways() {
    let mut state = State::new(three_languages());
    for _ in 0..3 {
        state.handle_key_event(Key::Down);
    }
    assert_eq!(state.cursor, 0);
    state.handle_key_event(Key::Up);
    assert_eq!(state.cursor, 2);
    state.handle_key_event(Key::Down);
    assert_eq!(state.cursor, 0);
}

#[test]
fn cancel_ends_without_choice() {
    let mut state = State::new(three_languages());
    assert_eq!(state.handle_key_event(Key::Other), (false, None));
    let (quit, chosen) = state.handle_key_event(Key::Cancel);
    assert!(quit);
    assert!(chosen.is_none());
}

#[test]
fn right_on_a_template_does_nothing() {
    let mut state = State::new(three_languages());
    let (quit, chosen) = state.handle_key_event(Key::Right);
    assert!(!quit && chosen.is_none());
    assert!(state.current.is_empty());
}

#[test]
fn title_shows_breadcrumbs() {
    let mut state = State::new(global_tree());
    assert_eq!(state.title(), "Gitignore Templates");
    state.handle_key_event(Key::Enter);
    assert_eq!(state.title(), "Gitignore Templates/Global");
    assert_eq!(folder_name("Global"), "Global");
    assert_eq!(folder_name("templates"), "Gitignore Templates");
}

#[test]
fn rows_mark_matched_characters() {
    let mut state = State::new(three_languages());
    state.handle_key_event(Key::Char('r'));
    state.handle_key_event(Key::Char('s'));
    let rows = state.rows();
    assert_eq!(rows.len(), 1);
    assert!(!rows[0].folder);
    assert_eq!(
        rows[0].cells,
        vec![('R', true), ('u', false), ('s', true), ('t', false)]
    );
}

#[test]
fn highlight_marks_nothing_without_a_match() {
    assert_eq!(highlight("Go", "x"), vec![('G', false), ('o', false)]);
    assert_eq!(highlight("Go", ""), vec![('G', false), ('o', false)]);
    assert_eq!(
        indices_template("abc", &vec![0, 2]),
        vec![('a', true), ('b', false), ('c', true)]
    );
}
