//! The configuration model: categories of projects, the editor, display
//! switches, the known project types and the last opened project, with the
//! decisions made when it is loaded and saved.

use vstd::prelude::*;
use crate::paths::{app_name, config_file, get_dir, last_file, types_dir_in, BaseDir};
use crate::text::{contains_str, has_suffix, join_path, str_ends_with, strs};

verus! {

/// A group of projects: the directory that holds them and the project
/// types that can be created in it.
pub struct Category {
    pub types: Vec<String>,
    pub dir: String,
}

/// prmn's whole state: what the configuration file holds plus what is
/// found at start-up (`project_types`, `last`).
pub struct Data {
    /// Categories by name; no name occurs twice (see `wf`).
    pub categories: Vec<(String, Category)>,
    pub editor: String,
    pub show_menubar: bool,
    pub show_hint: bool,
    /// Project types found as executable `<type>.sh` scripts.
    pub project_types: Vec<String>,
    /// The last opened project, if it still exists.
    pub last: Option<String>,
}

/// The editor used when the configuration names none.
pub open spec fn default_editor_name() -> Seq<char> {
    "nvim"@
}

/// What a configuration written from scratch holds.
pub open spec fn is_default_data(d: Data) -> bool {
    &&& d.categories@.len() == 0
    &&& d.editor@ == default_editor_name()
    &&& strs(d.project_types@) == seq!["Blank"@]
    &&& d.last is None
    &&& d.show_hint
    &&& d.show_menubar
}

/// The project type that a file of the types directory provides, if any:
/// an executable `<type>.sh` provides `<type>`.
pub open spec fn project_type_spec(name: Seq<char>, mode: u32) -> Option<Seq<char>> {
    if has_suffix(name, ".sh"@) && mode & 0o111u32 != 0 {
        Some(name.subrange(0, name.len() - 3))
    } else {
        None
    }
}

/// The project types provided by the files of the types directory, in order.
pub open spec fn project_types_spec(files: Seq<(String, u32)>) -> Seq<Seq<char>>
    decreases files.len(),
{
    if files.len() == 0 {
        Seq::empty()
    } else {
        let r = project_types_spec(files.drop_last());
        match project_type_spec(files.last().0@, files.last().1) {
            Some(t) => r.push(t),
            None => r,
        }
    }
}

/// `types` without the entries that are not among `known`.
pub open spec fn known_types(types: Seq<Seq<char>>, known: Seq<Seq<char>>) -> Seq<Seq<char>> {
    types.filter(|t: Seq<char>| known.contains(t))
}

/// The last project as loaded: what the file held, if that path exists.
pub open spec fn loaded_last(read: Option<Seq<char>>, exists: bool) -> Option<Seq<char>> {
    match read {
        Some(p) => if exists { Some(p) } else { None },
        None => None,
    }
}

/// The file that `save` writes for the last project, and its contents:
/// the `last` file of prmn's data directory, holding the project's path.
pub open spec fn saved_last(last: Option<Seq<char>>, data_dir: Seq<char>) -> Option<(Seq<char>, Seq<char>)> {
    match last {
        Some(l) => Some((join_path(data_dir, "last"@), l)),
        None => None,
    }
}

/// What reading a written last-project file gives: its contents.
pub open spec fn reread_last(written: Option<(Seq<char>, Seq<char>)>) -> Option<Seq<char>> {
    match written {
        Some((_, c)) => Some(c),
        None => None,
    }
}

/// A category by its characters.
pub struct CategoryView {
    pub types: Seq<Seq<char>>,
    pub dir: Seq<char>,
}

/// prmn's state by its characters.
pub struct DataView {
    pub categories: Seq<(Seq<char>, CategoryView)>,
    pub editor: Seq<char>,
    pub show_menubar: bool,
    pub show_hint: bool,
    pub project_types: Seq<Seq<char>>,
    pub last: Option<Seq<char>>,
}

impl View for Category {
    type V = CategoryView;

    open spec fn view(&self) -> CategoryView {
        CategoryView { types: strs(self.types@), dir: self.dir@ }
    }
}

impl View for Data {
    type V = DataView;

    open spec fn view(&self) -> DataView {
        DataView {
            categories: self.categories@.map_values(|c: (String, Category)| (c.0@, c.1@)),
            editor: self.editor@,
            show_menubar: self.show_menubar,
            show_hint: self.show_hint,
            project_types: strs(self.project_types@),
            last: opt_view(self.last),
        }
    }
}

/// A configuration written from scratch.
pub open spec fn default_view() -> DataView {
    DataView {
        categories: Seq::empty(),
        editor: default_editor_name(),
        show_menubar: true,
        show_hint: true,
        project_types: seq!["Blank"@],
        last: None,
    }
}

/// What the configuration file carries of `d`: everything but the project
/// types and the last project, which are found anew at each start. The file
/// lists the categories in this order.
pub open spec fn stored_config(d: DataView) -> DataView {
    DataView { project_types: Seq::empty(), last: None, ..d }
}

/// Each category with its types cut down to those among `known`.
pub open spec fn categories_known(cats: Seq<(Seq<char>, CategoryView)>, known: Seq<Seq<char>>) -> Seq<
    (Seq<char>, CategoryView),
> {
    cats.map_values(
        |c: (Seq<char>, CategoryView)| (c.0, CategoryView { types: known_types(c.1.types, known), dir: c.1.dir }),
    )
}

/// The state after loading: `d` as read from the configuration file, the
/// last project as read (kept if its path exists), the project types of
/// the types directory appended, every category cut down to them.
pub open spec fn load_spec(d: DataView, read: Option<Seq<char>>, exists: bool, files: Seq<(String, u32)>) -> DataView {
    let pts = d.project_types + project_types_spec(files);
    DataView {
        categories: categories_known(d.categories, pts),
        editor: d.editor,
        show_menubar: d.show_menubar,
        show_hint: d.show_hint,
        project_types: pts,
        last: loaded_last(read, exists),
    }
}

/// The view of an optional string.
pub open spec fn opt_view(o: Option<String>) -> Option<Seq<char>> {
    match o {
        Some(s) => Some(s@),
        None => None,
    }
}

/// After the types are cut down, a category offers only known project types.
pub proof fn lemma_retained_types_are_known(types: Seq<Seq<char>>, known: Seq<Seq<char>>)
    ensures
        forall|k: int| 0 <= k < known_types(types, known).len() ==> known.contains(
            #[trigger] known_types(types, known)[k],
        ),
{
    broadcast use vstd::seq_lib::group_filter_ensures;
}

/// Saving and loading again gives back the stored configuration: the same
/// categories, editor and switches; the project types found in the types
/// directory; each category's types cut down to them; and the last project
/// when its path still exists. (The configuration file's text is written
/// and read by RON in the program around this library.)
pub proof fn lemma_save_then_load(d: DataView, data_dir: Seq<char>, exists: bool, files: Seq<(String, u32)>)
    ensures
        load_spec(stored_config(d), reread_last(saved_last(d.last, data_dir)), exists, files) == (DataView {
            categories: categories_known(d.categories, project_types_spec(files)),
            editor: d.editor,
            show_menubar: d.show_menubar,
            show_hint: d.show_hint,
            project_types: project_types_spec(files),
            last: if exists { d.last } else { None },
        }),
{
    assert(Seq::<Seq<char>>::empty() + project_types_spec(files) =~= project_types_spec(files));
}

/// The name of the default editor.
pub fn default_editor() -> (r: String)
    ensures
        r@ == default_editor_name(),
{
    "nvim".to_owned()
}

/// Is `s` the default editor (so that it need not be written out)?
pub fn editor_is_default(s: &String) -> (r: bool)
    ensures
        r == (s@ == default_editor_name()),
{
    crate::text::str_eq(s.as_str(), "nvim")
}

/// The default of the display switches.
pub fn bool_true() -> (r: bool)
    ensures
        r,
{
    true
}

/// Is the switch at its default (so that it need not be written out)?
pub fn bool_is_true(b: &bool) -> (r: bool)
    ensures
        r == *b,
{
    *b
}

/// A configuration written from scratch loads back as it was, project type
/// `Blank` included, once the types directory holds the `Blank.sh` of the
/// first start with an execute bit set (whatever its other mode bits).
pub proof fn lemma_default_config_reloads(files: Seq<(String, u32)>)
    requires
        files.len() == 1,
        files[0].0@ == "Blank.sh"@,
        files[0].1 & 0o111u32 != 0u32,
    ensures
        load_spec(stored_config(default_view()), None, false, files) == default_view(),
{
    reveal_strlit("Blank.sh");
    reveal_strlit("Blank");
    reveal_strlit(".sh");
    let name = files[0].0@;
    assert(name.subrange(name.len() - 3, name.len() as int) =~= ".sh"@);
    assert(name.subrange(0, name.len() - 3) =~= "Blank"@);
    assert(files.drop_last() =~= Seq::<(String, u32)>::empty());
    assert(project_types_spec(files.drop_last()) =~= Seq::<Seq<char>>::empty());
    assert(has_suffix(name, ".sh"@));
    assert(project_type_spec(files.last().0@, files.last().1) == Some("Blank"@));
    assert(project_types_spec(files) =~= seq!["Blank"@]);
    assert(Seq::<Seq<char>>::empty() + seq!["Blank"@] =~= seq!["Blank"@]);
    assert(categories_known(Seq::empty(), seq!["Blank"@]) =~= Seq::empty());
}

/// The project type provided by the file `file_name` with permission bits `mode`.
pub fn project_type_of(file_name: &str, mode: u32) -> (r: Option<String>)
    ensures
        opt_view(r) == project_type_spec(file_name@, mode),
{
    proof {
        reveal_strlit(".sh");
    }
    if str_ends_with(file_name, ".sh") && mode & 0o111u32 != 0 {
        let n = file_name.unicode_len();
        Some(file_name.substring_char(0, n - 3).to_owned())
    } else {
        None
    }
}

/// The project types provided by the files of the types directory, each
/// given by name and permission bits, in directory order.
pub fn collect_project_types(files: &Vec<(String, u32)>) -> (r: Vec<String>)
    ensures
        strs(r@) == project_types_spec(files@),
{
    let n = files.len();
    let mut r: Vec<String> = Vec::new();
    let mut i: usize = 0;
    while i < n
        invariant
            n == files@.len(),
            i <= n,
            strs(r@) == project_types_spec(files@.take(i as int)),
        decreases n - i,
    {
        proof {
            assert(files@.take(i + 1).drop_last() =~= files@.take(i as int));
        }
        let t = project_type_of(files[i].0.as_str(), files[i].1);
        match t {
            Some(t) => {
                r.push(t);
                proof {
                    assert(strs(r@) =~= project_types_spec(files@.take(i as int)).push(t@));
                }
            },
            None => {},
        }
        i = i + 1;
    }
    proof {
        assert(files@.take(n as int) =~= files@);
    }
    r
}

/// `types` without the entries missing from `known`.
fn filter_known(types: &Vec<String>, known: &Vec<String>) -> (r: Vec<String>)
    ensures
        strs(r@) == known_types(strs(types@), strs(known@)),
{
    let n = types.len();
    let mut r: Vec<String> = Vec::new();
    let mut i: usize = 0;
    while i < n
        invariant
            n == types@.len(),
            i <= n,
            strs(r@) == known_types(strs(types@.take(i as int)), strs(known@)),
        decreases n - i,
    {
        proof {
            reveal(Seq::filter);
            assert(strs(types@.take(i + 1)).drop_last() =~= strs(types@.take(i as int)));
            assert(strs(types@.take(i + 1)).last() == types@[i as int]@);
        }
        if contains_str(known, types[i].as_str()) {
            r.push(types[i].clone());
            proof {
                assert(strs(r@) =~= known_types(strs(types@.take(i as int)), strs(known@)).push(types@[i as int]@));
            }
        }
        i = i + 1;
    }
    proof {
        assert(types@.take(n as int) =~= types@);
    }
    r
}

impl Data {
    /// The names of the categories, in order.
    pub open spec fn names(&self) -> Seq<Seq<char>> {
        self.categories@.map_values(|c: (String, Category)| c.0@)
    }

    /// Category names are unique, as the keys of the configuration's map.
    pub open spec fn wf(&self) -> bool {
        self.names().no_duplicates()
    }

    /// A configuration written from scratch: no categories, the default
    /// editor, menu bar and hint shown, the `Blank` project type.
    pub fn new_default() -> (r: Data)
        ensures
            is_default_data(r),
            r@ == default_view(),
            r.wf(),
    {
        let mut project_types: Vec<String> = Vec::new();
        project_types.push("Blank".to_owned());
        let r = Data {
            categories: Vec::new(),
            editor: default_editor(),
            show_menubar: bool_true(),
            show_hint: bool_true(),
            project_types,
            last: None,
        };
        assert(strs(r.project_types@) =~= seq!["Blank"@]);
        assert(r.names() =~= Seq::<Seq<char>>::empty());
        assert(r@.categories =~= Seq::<(Seq<char>, CategoryView)>::empty());
        r
    }

    /// The directory of project-type scripts, or `None` where the platform
    /// reports no configuration directory.
    pub fn types_dir() -> (r: Option<String>)
        ensures
            r matches Some(s) ==> exists|b: Seq<char>| s@ == join_path(join_path(b, app_name()), "types"@),
    {
        match get_dir(BaseDir::Config) {
            Some(d) => Some(types_dir_in(d.as_str())),
            None => None,
        }
    }

    /// Drops from every category the project types that are not known.
    pub fn retain_known_types(&mut self)
        ensures
            final(self).categories@.len() == old(self).categories@.len(),
            forall|i: int| 0 <= i < old(self).categories@.len() ==> {
                &&& (#[trigger] final(self).categories@[i]).0@ == old(self).categories@[i].0@
                &&& final(self).categories@[i].1.dir@ == old(self).categories@[i].1.dir@
                &&& strs(final(self).categories@[i].1.types@) == known_types(
                    strs(old(self).categories@[i].1.types@),
                    strs(old(self).project_types@),
                )
            },
            final(self).names() == old(self).names(),
            final(self).wf() == old(self).wf(),
            final(self).editor == old(self).editor,
            final(self).show_menubar == old(self).show_menubar,
            final(self).show_hint == old(self).show_hint,
            final(self).project_types == old(self).project_types,
            final(self).last == old(self).last,
    {
        let n = self.categories.len();
        let mut cats: Vec<(String, Category)> = Vec::new();
        let mut i: usize = 0;
        while i < n
            invariant
                n == self.categories@.len(),
                i <= n,
                cats@.len() == i,
                forall|k: int| 0 <= k < i ==> {
                    &&& (#[trigger] cats@[k]).0@ == self.categories@[k].0@
                    &&& cats@[k].1.dir@ == self.categories@[k].1.dir@
                    &&& strs(cats@[k].1.types@) == known_types(
                        strs(self.categories@[k].1.types@),
                        strs(self.project_types@),
                    )
                },
            decreases n - i,
        {
            let types = filter_known(&self.categories[i].1.types, &self.project_types);
            let name = self.categories[i].0.clone();
            let dir = self.categories[i].1.dir.clone();
            cats.push((name, Category { types, dir }));
            i = i + 1;
        }
        let ghost before = *self;
        self.categories = cats;
        assert(self.names() =~= before.names());
    }

    /// Completes a configuration read from disk: the last project (kept
    /// only if its path exists), the project types found in the types
    /// directory, and every category's types cut down to those known.
    pub fn finish_load(&mut self, last_read: Option<String>, last_exists: bool, type_files: &Vec<(String, u32)>)
        ensures
            final(self)@ == load_spec(old(self)@, opt_view(last_read), last_exists, type_files@),
            opt_view(final(self).last) == loaded_last(opt_view(last_read), last_exists),
            strs(final(self).project_types@) == strs(old(self).project_types@) + project_types_spec(type_files@),
            final(self).categories@.len() == old(self).categories@.len(),
            forall|i: int| 0 <= i < old(self).categories@.len() ==> {
                &&& (#[trigger] final(self).categories@[i]).0@ == old(self).categories@[i].0@
                &&& final(self).categories@[i].1.dir@ == old(self).categories@[i].1.dir@
                &&& strs(final(self).categories@[i].1.types@) == known_types(
                    strs(old(self).categories@[i].1.types@),
                    strs(final(self).project_types@),
                )
            },
            final(self).names() == old(self).names(),
            final(self).wf() == old(self).wf(),
            final(self).editor == old(self).editor,
            final(self).show_menubar == old(self).show_menubar,
            final(self).show_hint == old(self).show_hint,
    {
        self.last = match last_read {
            Some(p) => if last_exists { Some(p) } else { None },
            None => None,
        };
        let found = collect_project_types(type_files);
        let ghost before = self.project_types@;
        let n = found.len();
        let mut i: usize = 0;
        while i < n
            invariant
                n == found@.len(),
                i <= n,
                strs(self.project_types@) == strs(before) + strs(found@).take(i as int),
                self.categories == old(self).categories,
                self.editor == old(self).editor,
                self.show_menubar == old(self).show_menubar,
                self.show_hint == old(self).show_hint,
                opt_view(self.last) == loaded_last(opt_view(last_read), last_exists),
            decreases n - i,
        {
            let ghost pt = self.project_types@;
            self.project_types.push(found[i].clone());
            proof {
                assert(strs(self.project_types@) =~= strs(pt).push(found@[i as int]@));
                assert(strs(found@).take(i + 1) =~= strs(found@).take(i as int).push(found@[i as int]@));
                assert(strs(self.project_types@) =~= strs(before) + strs(found@).take(i + 1));
            }
            i = i + 1;
        }
        assert(strs(found@).take(n as int) =~= strs(found@));
        self.retain_known_types();
        proof {
            let pts = strs(self.project_types@);
            assert(self@.categories =~= categories_known(old(self)@.categories, pts)) by {
                assert forall|i: int| 0 <= i < self@.categories.len() implies #[trigger] self@.categories[i]
                    == categories_known(old(self)@.categories, pts)[i] by {
                    let c = self.categories@[i];
                    assert(c.1@ == CategoryView {
                        types: known_types(strs(old(self).categories@[i].1.types@), pts),
                        dir: old(self).categories@[i].1.dir@,
                    });
                }
            }
        }
    }

    /// What `save` writes: the configuration file only when asked to, the
    /// last project whenever one is known.
    pub fn save_plan(&self, save_config: bool, config_dir: &str, data_dir: &str) -> (r: SavePlan)
        ensures
            match r.config_file {
                Some(p) => save_config && p@ == join_path(config_dir@, "data.ron"@),
                None => !save_config,
            },
            match r.last {
                Some((p, c)) => saved_last(self@.last, data_dir@) == Some((p@, c@)),
                None => saved_last(self@.last, data_dir@) is None,
            },
    {
        let config = if save_config {
            Some(config_file(config_dir))
        } else {
            None
        };
        let last = match &self.last {
            Some(l) => Some((last_file(data_dir), l.clone())),
            None => None,
        };
        SavePlan { config_file: config, last }
    }

    /// Records that `target` was chosen: it becomes the last project unless
    /// `no_last` is set, and the result says whether to print the path
    /// (`out`) or open it in the configured editor.
    pub fn record_output(&mut self, target: &str, out: bool, no_last: bool) -> (r: OutputAction)
        ensures
            no_last ==> final(self).last == old(self).last,
            !no_last ==> opt_view(final(self).last) == Some(target@),
            final(self).categories == old(self).categories,
            final(self).editor == old(self).editor,
            final(self).project_types == old(self).project_types,
            final(self).show_hint == old(self).show_hint,
            final(self).show_menubar == old(self).show_menubar,
            match r {
                OutputAction::Print { text } => out && text@ == target@,
                OutputAction::OpenEditor { editor, target: t } => !out && editor@ == old(self).editor@
                    && t@ == target@,
            },
    {
        if !no_last {
            self.last = Some(target.to_owned());
        }
        if out {
            OutputAction::Print { text: target.to_owned() }
        } else {
            OutputAction::OpenEditor { editor: self.editor.clone(), target: target.to_owned() }
        }
    }
}

/// The files `Data::save` writes.
pub struct SavePlan {
    /// Where to write the configuration, if it is to be written.
    pub config_file: Option<String>,
    /// Where to write the last project, and what.
    pub last: Option<(String, String)>,
}

/// What to do with a chosen project.
pub enum OutputAction {
    /// Print its path on standard output.
    Print { text: String },
    /// Replace the process with the editor opened on it.
    OpenEditor { editor: String, target: String },
}

/// How start-up proceeds, from what exists on disk.
pub enum Startup {
    /// No configuration directory: create it with the `Blank` type script,
    /// then write a default configuration.
    CreateLayout,
    /// The directory exists but holds no configuration file: write a default one.
    WriteDefaults,
    /// Read the configuration file.
    Load,
}

/// The start-up step for the given state of the configuration directory.
pub fn startup_step(config_dir_exists: bool, config_file_exists: bool) -> (r: Startup)
    ensures
        !config_dir_exists <==> r is CreateLayout,
        config_dir_exists && !config_file_exists <==> r is WriteDefaults,
        config_dir_exists && config_file_exists <==> r is Load,
{
    if !config_dir_exists {
        Startup::CreateLayout
    } else if !config_file_exists {
        Startup::WriteDefaults
    } else {
        Startup::Load
    }
}

/// The script written for the `Blank` project type on first start.
pub fn blank_script() -> (r: String)
    ensures
        r@ == "#!/bin/bash\ngit init"@,
{
    "#!/bin/bash\ngit init".to_owned()
}

} // verus!
