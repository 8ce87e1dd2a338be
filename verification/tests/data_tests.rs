use prmn::data::{
    blank_script, bool_is_true, bool_true, collect_project_types, default_editor, editor_is_default,
    project_type_of, startup_step, Category, Data, OutputAction, Startup,
};
use prmn::paths::{app_dir, config_file, get_dir, last_file, types_dir_in, BaseDir};

fn cat(dir: &str, types: &[&str]) -> Category {
    Category { types: types.iter().map(|s| s.to_string()).collect(), dir: dir.to_string() }
}

fn sample() -> Data {
    Data {
        categories: vec![
            ("rust".to_string(), cat("/code/rust", &["cargo", "Blank", "gone"])),
            ("web".to_string(), cat("/code/web", &["vite"])),
        ],
        editor: "hx".to_string(),
        show_menubar: true,
        show_hint: false,
        project_types: vec![],
        last: None,
    }
}

#[test]
fn default_configuration() {
    let d = Data::new_default();
    assert!(d.categories.is_empty());
    assert_eq!(d.editor, "nvim");
    assert_eq!(d.project_types, vec!["Blank".to_string()]);
    assert_eq!(d.last, None);
    assert!(d.show_hint && d.show_menubar);
    // the defaults are exactly what the configuration file leaves out
    assert!(editor_is_default(&d.editor));
    assert!(bool_is_true(&d.show_hint) && bool_is_true(&d.show_menubar));
}

#[test]
fn default_helpers() {
    assert_eq!(default_editor(), "nvim");
    assert!(bool_true());
    assert!(!editor_is_default(&"vim".to_string()));
    assert!(!bool_is_true(&false));
}

#[test]
fn project_types_come_from_executable_scripts() {
    assert_eq!(project_type_of("cargo.sh", 0o755), Some("cargo".to_string()));
    assert_eq!(project_type_of("cargo.sh", 0o100), Some("cargo".to_string()));
    assert_eq!(project_type_of("cargo.sh", 0o644), None);
    assert_eq!(project_type_of("notes.txt", 0o755), None);
    assert_eq!(project_type_of(".sh", 0o755), Some(String::new()));
    let files = vec![
        ("Blank.sh".to_string(), 0o755),
        ("readme".to_string(), 0o644),
        ("cargo.sh".to_string(), 0o700),
        ("off.sh".to_string(), 0o600),
    ];
    assert_eq!(collect_project_types(&files), vec!["Blank".to_string(), "cargo".to_string()]);
}

#[test]
fn loading_keeps_only_known_types_and_existing_last() {
    let mut d = sample();
    let files = vec![("Blank.sh".to_string(), 0o755), ("cargo.sh".to_string(), 0o755)];
    d.finish_load(Some("/code/rust/app".to_string()), true, &files);
    assert_eq!(d.project_types, vec!["Blank".to_string(), "cargo".to_string()]);
    assert_eq!(d.categories[0].1.types, vec!["cargo".to_string(), "Blank".to_string()]);
    assert!(d.categories[1].1.types.is_empty());
    assert_eq!(d.categories[0].0, "rust");
    assert_eq!(d.categories[1].1.dir, "/code/web");
    assert_eq!(d.last, Some("/code/rust/app".to_string()));

    let mut e = sample();
    e.finish_load(Some("/gone".to_string()), false, &files);
    assert_eq!(e.last, None);
    let mut f = sample();
    f.finish_load(None, true, &vec![]);
    assert_eq!(f.last, None);
    assert!(f.categories[0].1.types.is_empty());
}

#[test]
fn start_up_steps() {
    assert!(matches!(startup_step(false, false), Startup::CreateLayout));
    assert!(matches!(startup_step(false, true), Startup::CreateLayout));
    assert!(matches!(startup_step(true, false), Startup::WriteDefaults));
    assert!(matches!(startup_step(true, true), Startup::Load));
    assert_eq!(blank_script(), "#!/bin/bash\ngit init");
}

#[test]
fn save_writes_config_only_when_asked_and_last_when_known() {
    let mut d = sample();
    let p = d.save_plan(false, "/c/prmn", "/d/prmn");
    assert_eq!(p.config_file, None);
    assert_eq!(p.last, None);
    d.last = Some("/code/web/site".to_string());
    let p = d.save_plan(true, "/c/prmn", "/d/prmn");
    assert_eq!(p.config_file, Some("/c/prmn/data.ron".to_string()));
    assert_eq!(p.last, Some(("/d/prmn/last".to_string(), "/code/web/site".to_string())));
}

#[test]
fn chosen_project_is_remembered_and_read_back() {
    let mut d = sample();
    match d.record_output("/code/rust/app", false, false) {
        OutputAction::OpenEditor { editor, target } => {
            assert_eq!(editor, "hx");
            assert_eq!(target, "/code/rust/app");
        }
        _ => panic!("expected the editor"),
    }
    assert_eq!(d.last, Some("/code/rust/app".to_string()));
    // what is saved is what the next start loads back
    let plan = d.save_plan(false, "/c", "/d");
    let (_, written) = plan.last.unwrap();
    let mut next = sample();
    next.finish_load(Some(written), true, &vec![]);
    assert_eq!(next.last, Some("/code/rust/app".to_string()));
}

#[test]
fn no_last_leaves_the_last_project_alone() {
    let mut d = sample();
    d.last = Some("/old".to_string());
    match d.record_output("/new", true, true) {
        OutputAction::Print { text } => assert_eq!(text, "/new"),
        _ => panic!("expected printing"),
    }
    assert_eq!(d.last, Some("/old".to_string()));
}

#[test]
fn file_layout() {
    assert_eq!(app_dir("/home/u/.config"), "/home/u/.config/prmn");
    assert_eq!(app_dir("/home/u/.config/"), "/home/u/.config/prmn");
    assert_eq!(config_file("/c/prmn"), "/c/prmn/data.ron");
    assert_eq!(types_dir_in("/c/prmn"), "/c/prmn/types");
    assert_eq!(last_file("/d/prmn"), "/d/prmn/last");
}

#[test]
fn user_directories_end_in_prmn() {
    for which in [BaseDir::Config, BaseDir::Data] {
        if let Some(d) = get_dir(which) {
            assert!(d.ends_with("/prmn"), "{}", d);
        }
    }
    if let Some(t) = Data::types_dir() {
        assert!(t.ends_with("/prmn/types"), "{}", t);
    }
}

#[test]
fn default_configuration_reloads_with_blank_script() {
    let d = Data::new_default();
    let mut reread = Data {
        categories: vec![],
        editor: d.editor.clone(),
        show_menubar: d.show_menubar,
        show_hint: d.show_hint,
        project_types: vec![],
        last: None,
    };
    reread.finish_load(None, false, &vec![("Blank.sh".to_string(), 0o100755)]);
    assert!(reread.categories.is_empty());
    assert_eq!(reread.editor, d.editor);
    assert_eq!(reread.project_types, d.project_types);
    assert_eq!(reread.last, d.last);
}
