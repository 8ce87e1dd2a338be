use prmn::text::{path_join, str_trim};
use prmn::ui::{
    add_choice, after_setup_script, back_action, base_layers, context_action, global_action, new_project_dir, populate_menubar,
    script_name, script_path, AddChoice, BackAction, SetupOutcome, GlobalAction, Key, MenuAction, MenuItem, Mode,
};

fn labels(m: &[MenuItem]) -> Vec<String> {
    m.iter()
        .map(|i| match i {
            MenuItem::Leaf { label, .. } => label.clone(),
            MenuItem::Delimiter => "|".to_string(),
        })
        .collect()
}

#[test]
fn menu_bar_entries() {
    assert_eq!(labels(&populate_menubar(None)), vec!["<Help>", "<Find>"]);
    assert_eq!(
        labels(&populate_menubar(Some(Mode::Category))),
        vec!["<Help>", "<Find>", "|", "<Add>", "<Delete Selected>", "<Rename Selected>"]
    );
    assert_eq!(MenuAction::Help.key(), None);
    assert_eq!(MenuAction::Find.key(), Some('f'));
    assert_eq!(MenuAction::Add.key(), Some('a'));
    assert_eq!(MenuAction::Delete.key(), Some('d'));
    assert_eq!(MenuAction::Rename.key(), Some('r'));
}

#[test]
fn global_keys() {
    assert_eq!(global_action(Key::Char('j')), Some(GlobalAction::Send(Key::Down)));
    assert_eq!(global_action(Key::Char('h')), Some(GlobalAction::Send(Key::Up)));
    assert_eq!(global_action(Key::Char('k')), Some(GlobalAction::Send(Key::Up)));
    assert_eq!(global_action(Key::Char('q')), Some(GlobalAction::Back));
    assert_eq!(global_action(Key::Esc), Some(GlobalAction::Back));
    assert_eq!(global_action(Key::Char('?')), Some(GlobalAction::Help));
    assert_eq!(global_action(Key::Char('x')), None);
    assert_eq!(global_action(Key::Enter), None);
}

#[test]
fn context_menu_choices() {
    assert_eq!(context_action("rename"), Some(Key::Char('r')));
    assert_eq!(context_action("delete"), Some(Key::Char('d')));
    assert_eq!(context_action("open"), Some(Key::Enter));
    assert_eq!(context_action("close"), None);
}

#[test]
fn going_back_quits_on_the_first_screen() {
    assert_eq!(base_layers(true), 2);
    assert_eq!(base_layers(false), 1);
    assert_eq!(back_action(1, 1), BackAction::Quit);
    assert_eq!(back_action(2, 2), BackAction::Quit);
    assert_eq!(back_action(3, 2), BackAction::PopLayer);
}

#[test]
fn adding_a_project() {
    match add_choice(&vec![]) {
        AddChoice::Direct(None) => {}
        _ => panic!(),
    }
    match add_choice(&vec!["cargo".to_string()]) {
        AddChoice::Direct(Some(t)) => assert_eq!(t, "cargo"),
        _ => panic!(),
    }
    match add_choice(&vec!["cargo".to_string(), "vite".to_string()]) {
        AddChoice::Pick(v) => assert_eq!(v, vec!["cargo".to_string(), "vite".to_string()]),
        _ => panic!(),
    }
    assert_eq!(script_name(None), "Blank.sh");
    assert_eq!(script_name(Some("cargo")), "cargo.sh");
    assert_eq!(script_path("/c/prmn/types", Some("vite")), "/c/prmn/types/vite.sh");
    assert_eq!(new_project_dir("/code/rust", "  app \n"), Some("/code/rust/app".to_string()));
    assert_eq!(new_project_dir("/code/rust", " \t "), None);
}

#[test]
fn trimming_and_joining() {
    assert_eq!(str_trim(" \t a b \u{3000}\n"), "a b");
    assert_eq!(str_trim(""), "");
    assert_eq!(path_join("a", "b"), "a/b");
    assert_eq!(path_join("a/", "b"), "a/b");
    assert_eq!(path_join("", "b"), "b");
    assert_eq!(path_join("a", "/b"), "/b");
    assert_eq!(path_join("a", ""), "a/");
}

#[test]
fn after_the_setup_script() {
    let labels = vec!["a".to_string(), "c".to_string()];
    match after_setup_script(false, "/code/rust/b", &labels, "b") {
        SetupOutcome::Undo { remove } => assert_eq!(remove, "/code/rust/b"),
        _ => panic!("expected undo"),
    }
    match after_setup_script(true, "/code/rust/b", &labels, "b") {
        SetupOutcome::Keep { labels } => {
            assert_eq!(labels, vec!["a".to_string(), "b".to_string(), "c".to_string()])
        }
        _ => panic!("expected keep"),
    }
}
