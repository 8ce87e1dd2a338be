//! The decisions behind the terminal interface: the menu bar, key
//! bindings, the context menu, going back, and creating projects.

use vstd::prelude::*;
use crate::listing::{sorted_lex, with_label};
use crate::text::{join_path, path_join, str_eq, str_trim, strs, trim};

verus! {

/// The kind of screen a layer shows.
#[derive(Clone, Copy, Debug, PartialEq, Eq, Structural)]
pub enum Mode {
    /// The projects of one category.
    Category,
}

/// What a menu entry does.
#[derive(Clone, Copy, Debug, PartialEq, Eq, Structural)]
pub enum MenuAction {
    /// Open the help dialog.
    Help,
    /// Start the search (key `f`).
    Find,
    /// Add a project (key `a`).
    Add,
    /// Delete the selected project (key `d`).
    Delete,
    /// Rename the selected project (key `r`).
    Rename,
}

/// An entry of the menu bar.
pub enum MenuItem {
    Leaf { label: String, action: MenuAction },
    Delimiter,
}

/// An entry of the menu bar, over character sequences.
pub enum MenuItemSpec {
    Leaf(Seq<char>, MenuAction),
    Delimiter,
}

/// The view of a menu entry.
pub open spec fn menu_item_view(m: MenuItem) -> MenuItemSpec {
    match m {
        MenuItem::Leaf { label, action } => MenuItemSpec::Leaf(label@, action),
        MenuItem::Delimiter => MenuItemSpec::Delimiter,
    }
}

/// The menu bar for a layer of the given mode: help and find always, and
/// for a category also add, delete and rename after a delimiter.
pub open spec fn menu_spec(mode: Option<Mode>) -> Seq<MenuItemSpec> {
    let common = seq![
        MenuItemSpec::Leaf("<Help>"@, MenuAction::Help),
        MenuItemSpec::Leaf("<Find>"@, MenuAction::Find),
    ];
    match mode {
        None => common,
        Some(Mode::Category) => common + seq![
            MenuItemSpec::Delimiter,
            MenuItemSpec::Leaf("<Add>"@, MenuAction::Add),
            MenuItemSpec::Leaf("<Delete Selected>"@, MenuAction::Delete),
            MenuItemSpec::Leaf("<Rename Selected>"@, MenuAction::Rename),
        ],
    }
}

/// The key press a menu action stands for (`None`: it opens the help dialog).
pub open spec fn action_key_spec(a: MenuAction) -> Option<char> {
    match a {
        MenuAction::Help => None,
        MenuAction::Find => Some('f'),
        MenuAction::Add => Some('a'),
        MenuAction::Delete => Some('d'),
        MenuAction::Rename => Some('r'),
    }
}

/// Every screen's menu begins with the general entries; a category's adds
/// its own after them.
pub proof fn lemma_category_menu_extends()
    ensures
        menu_spec(Some(Mode::Category)).take(2) == menu_spec(None),
        menu_spec(Some(Mode::Category)).len() == menu_spec(None).len() + 4,
{
    assert(menu_spec(Some(Mode::Category)).take(2) =~= menu_spec(None));
}

/// Every entry of every menu bar does what its label says: `<Help>` opens
/// the help, `<Find>` sends `f`, `<Add>` sends `a`, `<Delete Selected>`
/// sends `d` and `<Rename Selected>` sends `r`.
pub proof fn lemma_menu_labels_match_actions(mode: Option<Mode>, i: int)
    requires
        0 <= i < menu_spec(mode).len(),
    ensures
        menu_spec(mode)[i] matches MenuItemSpec::Leaf(l, a) ==> {
            &&& (l == "<Help>"@ <==> a == MenuAction::Help)
            &&& (l == "<Find>"@ <==> a == MenuAction::Find)
            &&& (l == "<Add>"@ <==> a == MenuAction::Add)
            &&& (l == "<Delete Selected>"@ <==> a == MenuAction::Delete)
            &&& (l == "<Rename Selected>"@ <==> a == MenuAction::Rename)
            &&& (l == "<Help>"@ ==> action_key_spec(a) is None)
            &&& (l == "<Find>"@ ==> action_key_spec(a) == Some('f'))
            &&& (l == "<Add>"@ ==> action_key_spec(a) == Some('a'))
            &&& (l == "<Delete Selected>"@ ==> action_key_spec(a) == Some('d'))
            &&& (l == "<Rename Selected>"@ ==> action_key_spec(a) == Some('r'))
        },
{
    reveal_strlit("<Help>");
    reveal_strlit("<Find>");
    reveal_strlit("<Add>");
    reveal_strlit("<Delete Selected>");
    reveal_strlit("<Rename Selected>");
    let h = "<Help>"@;
    let f = "<Find>"@;
    let ad = "<Add>"@;
    let d = "<Delete Selected>"@;
    let r = "<Rename Selected>"@;
    assert(h != f) by { assert(h[1] != f[1]); }
    assert(h != ad) by { assert(h.len() != ad.len()); }
    assert(h != d) by { assert(h.len() != d.len()); }
    assert(h != r) by { assert(h.len() != r.len()); }
    assert(f != ad) by { assert(f.len() != ad.len()); }
    assert(f != d) by { assert(f.len() != d.len()); }
    assert(f != r) by { assert(f.len() != r.len()); }
    assert(ad != d) by { assert(ad.len() != d.len()); }
    assert(ad != r) by { assert(ad.len() != r.len()); }
    assert(d != r) by { assert(d[1] != r[1]); }
}

/// The entries of the menu bar for a layer of the given mode.
pub fn populate_menubar(mode: Option<Mode>) -> (r: Vec<MenuItem>)
    ensures
        r@.map_values(|m: MenuItem| menu_item_view(m)) == menu_spec(mode),
{
    let mut r: Vec<MenuItem> = Vec::new();
    r.push(MenuItem::Leaf { label: "<Help>".to_owned(), action: MenuAction::Help });
    r.push(MenuItem::Leaf { label: "<Find>".to_owned(), action: MenuAction::Find });
    match mode {
        Some(Mode::Category) => {
            r.push(MenuItem::Delimiter);
            r.push(MenuItem::Leaf { label: "<Add>".to_owned(), action: MenuAction::Add });
            r.push(MenuItem::Leaf { label: "<Delete Selected>".to_owned(), action: MenuAction::Delete });
            r.push(MenuItem::Leaf { label: "<Rename Selected>".to_owned(), action: MenuAction::Rename });
        },
        None => {},
    }
    assert(r@.map_values(|m: MenuItem| menu_item_view(m)) =~= menu_spec(mode));
    r
}

impl MenuAction {
    /// The key press this action sends (`None` for the help dialog).
    pub fn key(&self) -> (r: Option<char>)
        ensures
            r == action_key_spec(*self),
    {
        match self {
            MenuAction::Help => None,
            MenuAction::Find => Some('f'),
            MenuAction::Add => Some('a'),
            MenuAction::Delete => Some('d'),
            MenuAction::Rename => Some('r'),
        }
    }
}

/// A key press.
#[derive(Clone, Copy, Debug, PartialEq, Eq, Structural)]
pub enum Key {
    Char(char),
    Esc,
    Enter,
    Up,
    Down,
}

/// What a global key does.
#[derive(Clone, Copy, Debug, PartialEq, Eq, Structural)]
pub enum GlobalAction {
    /// Deliver another key press instead.
    Send(Key),
    /// Close the top layer, or quit on the first screen.
    Back,
    /// Open the help dialog.
    Help,
}

/// The global key bindings: `j` moves down, `h` and `k` move up, `q` and
/// Escape go back, `?` opens the help.
pub open spec fn global_action_spec(k: Key) -> Option<GlobalAction> {
    match k {
        Key::Char('j') => Some(GlobalAction::Send(Key::Down)),
        Key::Char('h') => Some(GlobalAction::Send(Key::Up)),
        Key::Char('k') => Some(GlobalAction::Send(Key::Up)),
        Key::Char('q') => Some(GlobalAction::Back),
        Key::Esc => Some(GlobalAction::Back),
        Key::Char('?') => Some(GlobalAction::Help),
        _ => None,
    }
}

/// The action a key is bound to globally, if any.
pub fn global_action(k: Key) -> (r: Option<GlobalAction>)
    ensures
        r == global_action_spec(k),
{
    match k {
        Key::Char('j') => Some(GlobalAction::Send(Key::Down)),
        Key::Char('h') => Some(GlobalAction::Send(Key::Up)),
        Key::Char('k') => Some(GlobalAction::Send(Key::Up)),
        Key::Char('q') => Some(GlobalAction::Back),
        Key::Esc => Some(GlobalAction::Back),
        Key::Char('?') => Some(GlobalAction::Help),
        _ => None,
    }
}

/// The key press a context-menu choice stands for.
pub open spec fn context_action_spec(action: Seq<char>) -> Option<Key> {
    if action == "rename"@ {
        Some(Key::Char('r'))
    } else if action == "delete"@ {
        Some(Key::Char('d'))
    } else if action == "open"@ {
        Some(Key::Enter)
    } else {
        None
    }
}

/// The key press sent for a choice of the context menu (`close`: none).
pub fn context_action(action: &str) -> (r: Option<Key>)
    ensures
        r == context_action_spec(action@),
{
    if str_eq(action, "rename") {
        Some(Key::Char('r'))
    } else if str_eq(action, "delete") {
        Some(Key::Char('d'))
    } else if str_eq(action, "open") {
        Some(Key::Enter)
    } else {
        None
    }
}

/// What going back does.
#[derive(Clone, Copy, Debug, PartialEq, Eq, Structural)]
pub enum BackAction {
    Quit,
    PopLayer,
}

/// The layers that are always there: the first screen, plus the help
/// hint when it is shown.
pub fn base_layers(show_hint: bool) -> (r: usize)
    ensures
        r == if show_hint { 2usize } else { 1usize },
{
    if show_hint {
        2
    } else {
        1
    }
}

/// Going back with `layers` layers on screen: quit on the base layers,
/// otherwise close the top one.
pub fn back_action(layers: usize, base: usize) -> (r: BackAction)
    ensures
        r == (if layers <= base { BackAction::Quit } else { BackAction::PopLayer }),
{
    if layers <= base {
        BackAction::Quit
    } else {
        BackAction::PopLayer
    }
}

/// How adding a project starts.
pub enum AddChoice {
    /// Ask for the name right away, with this project type (`None`: the
    /// category names none, so the `Blank` type is used).
    Direct(Option<String>),
    /// Let the user pick one of these types first.
    Pick(Vec<String>),
}

/// Adding a project to a category with project types `types`: with one
/// type or none there is nothing to pick.
pub fn add_choice(types: &Vec<String>) -> (r: AddChoice)
    ensures
        match r {
            AddChoice::Direct(Some(t)) => types@.len() == 1 && t@ == types@[0]@,
            AddChoice::Direct(None) => types@.len() == 0,
            AddChoice::Pick(v) => types@.len() > 1 && strs(v@) == strs(types@),
        },
{
    if types.len() == 1 {
        AddChoice::Direct(Some(types[0].clone()))
    } else if types.len() == 0 {
        AddChoice::Direct(None)
    } else {
        let v = types.clone();
        AddChoice::Pick(v)
    }
}

/// The file name of the script that sets up a new project of type `ty`.
pub open spec fn script_name_spec(ty: Option<Seq<char>>) -> Seq<char> {
    match ty {
        Some(t) => t + ".sh"@,
        None => "Blank"@ + ".sh"@,
    }
}

/// The script file for a new project of type `ty` (`Blank` if none).
pub fn script_name(ty: Option<&str>) -> (r: String)
    ensures
        r@ == script_name_spec(
            match ty {
                Some(t) => Some(t@),
                None => None,
            },
        ),
{
    let mut s = match ty {
        Some(t) => t.to_owned(),
        None => "Blank".to_owned(),
    };
    s.append(".sh");
    s
}

/// The script that sets up a new project of type `ty`, in the types directory.
pub fn script_path(types_dir: &str, ty: Option<&str>) -> (r: String)
    ensures
        r@ == join_path(
            types_dir@,
            script_name_spec(
                match ty {
                    Some(t) => Some(t@),
                    None => None,
                },
            ),
        ),
{
    let name = script_name(ty);
    path_join(types_dir, name.as_str())
}

/// The directory of a new project named `val` (trimmed) in `dir`; `None`
/// when the trimmed name is empty and nothing is to be created.
pub fn new_project_dir(dir: &str, val: &str) -> (r: Option<String>)
    ensures
        match r {
            Some(p) => trim(val@).len() > 0 && p@ == join_path(dir@, trim(val@)),
            None => trim(val@).len() == 0,
        },
{
    let name = str_trim(val);
    if name.as_str().unicode_len() == 0 {
        None
    } else {
        Some(path_join(dir, name.as_str()))
    }
}

/// What happens once a new project's setup script has run.
pub enum SetupOutcome {
    /// The script failed: remove the new project directory and show the
    /// script's error output.
    Undo { remove: String },
    /// The script succeeded: the category's list with the new project.
    Keep { labels: Vec<String> },
}

/// The step after the setup script of the new project `name` in
/// `project_dir` ran, with the category's list `labels`.
pub fn after_setup_script(succeeded: bool, project_dir: &str, labels: &Vec<String>, name: &str) -> (r: SetupOutcome)
    ensures
        match r {
            SetupOutcome::Undo { remove } => !succeeded && remove@ == project_dir@,
            SetupOutcome::Keep { labels: l } => succeeded && sorted_lex(strs(l@)) && strs(l@).to_multiset()
                == strs(labels@).to_multiset().insert(name@),
        },
{
    if succeeded {
        SetupOutcome::Keep { labels: with_label(labels, name) }
    } else {
        SetupOutcome::Undo { remove: project_dir.to_owned() }
    }
}

} // verus!
