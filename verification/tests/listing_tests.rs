use prmn::data::{Category, Data};
use prmn::listing::{
    category_dir, get_all_files, project_names, qualify, resolve_pick, sort_labels, visible_categories,
    with_label, without_label, DirEntry,
};

fn entry(name: &str, is_dir: bool) -> DirEntry {
    DirEntry { name: name.to_string(), is_dir }
}

fn strings(v: &[&str]) -> Vec<String> {
    v.iter().map(|s| s.to_string()).collect()
}

fn conf() -> Data {
    Data {
        categories: vec![
            ("rust".to_string(), Category { types: vec![], dir: "/code/rust".to_string() }),
            ("web".to_string(), Category { types: vec![], dir: "/code/web/".to_string() }),
        ],
        editor: "nvim".to_string(),
        show_menubar: true,
        show_hint: true,
        project_types: vec![],
        last: None,
    }
}

fn snapshot() -> Vec<(String, Vec<DirEntry>)> {
    vec![
        ("/code/rust".to_string(), vec![entry("app", true), entry("notes.md", false), entry("cli", true)]),
        ("/code/web/".to_string(), vec![entry("site", true)]),
    ]
}

#[test]
fn projects_are_the_subdirectories() {
    let es = vec![entry("b", true), entry("x.txt", false), entry("a", true)];
    assert_eq!(project_names(&es), strings(&["b", "a"]));
}

#[test]
fn files_of_one_category() {
    let c = conf();
    let r = get_all_files(&c, Some(&c.categories[0].1), &snapshot());
    assert_eq!(r, Ok(strings(&["app", "cli"])));
    let missing = Category { types: vec![], dir: "/nowhere".to_string() };
    assert_eq!(get_all_files(&c, Some(&missing), &snapshot()), Err("/nowhere".to_string()));
}

#[test]
fn files_of_all_categories_are_qualified() {
    let c = conf();
    let r = get_all_files(&c, None, &snapshot());
    assert_eq!(r, Ok(strings(&["rust/app", "rust/cli", "web/site"])));
    let mut partial = snapshot();
    partial.remove(1);
    assert_eq!(get_all_files(&c, None, &partial), Err("/code/web/".to_string()));
}

#[test]
fn search_entries_resolve_to_their_project() {
    let c = conf();
    for e in get_all_files(&c, None, &snapshot()).unwrap() {
        let p = resolve_pick(&c, &e).unwrap();
        assert!(p.starts_with("/code/"), "{}", p);
    }
    assert_eq!(resolve_pick(&c, "rust/app"), Some("/code/rust/app".to_string()));
    assert_eq!(resolve_pick(&c, "web/site"), Some("/code/web/site".to_string()));
    assert_eq!(resolve_pick(&c, "web/site/deeper"), Some("/code/web/site".to_string()));
    assert_eq!(resolve_pick(&c, "nosuch/x"), None);
    assert_eq!(resolve_pick(&c, "rust"), None);
    assert_eq!(category_dir(&c, "web"), Some("/code/web/".to_string()));
    assert_eq!(qualify("rust", "app"), "rust/app");
}

#[test]
fn labels_are_sorted_like_str() {
    let v = strings(&["beta", "Alpha", "alpha", "b", "", "ä", "alpha"]);
    let mut expected = v.clone();
    expected.sort();
    assert_eq!(sort_labels(&v), expected);
    assert_eq!(sort_labels(&vec![]), Vec::<String>::new());
}

#[test]
fn start_screen_lists_existing_categories_sorted() {
    let mut c = conf();
    c.categories.push(("ai".to_string(), Category { types: vec![], dir: "/code/ai".to_string() }));
    let existing = strings(&["/code/web/", "/code/ai"]);
    assert_eq!(visible_categories(&c, &existing), strings(&["ai", "web"]));
    assert_eq!(visible_categories(&c, &vec![]), Vec::<String>::new());
}

#[test]
fn list_after_add_rename_and_delete() {
    let l = strings(&["a", "c"]);
    assert_eq!(with_label(&l, "b"), strings(&["a", "b", "c"]));
    let renamed = with_label(&without_label(&l, 0), "d");
    assert_eq!(renamed, strings(&["c", "d"]));
    assert_eq!(without_label(&l, 1), strings(&["a"]));
}
