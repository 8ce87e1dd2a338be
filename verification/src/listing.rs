//! The lists prmn shows: projects of a category, every project of every
//! category for the search, categories on the start screen, all ordered
//! by label as the selection views sort them.

use vstd::prelude::*;
use crate::data::{Category, Data};
use crate::rank::lemma_insert_multiset;
use crate::text::{
    find_char, join_path, lemma_lex_total, lemma_lex_trans, lex_le, path_join, str_eq, str_find_char,
    str_le, strs,
};

verus! {

/// One entry of a directory listing.
pub struct DirEntry {
    pub name: String,
    pub is_dir: bool,
}

/// The names of the subdirectories among `es`, in listing order.
pub open spec fn dir_names(es: Seq<DirEntry>) -> Seq<Seq<char>>
    decreases es.len(),
{
    if es.len() == 0 {
        Seq::empty()
    } else {
        let r = dir_names(es.drop_last());
        if es.last().is_dir {
            r.push(es.last().name@)
        } else {
            r
        }
    }
}

/// The listing recorded for `dir` in a snapshot, searching from index `i`.
pub open spec fn listing_from(snap: Seq<(String, Vec<DirEntry>)>, dir: Seq<char>, i: int) -> Option<Seq<DirEntry>>
    decreases snap.len() - i,
{
    if i < 0 || i >= snap.len() {
        None
    } else if snap[i].0@ == dir {
        Some(snap[i].1@)
    } else {
        listing_from(snap, dir, i + 1)
    }
}

/// The listing of `dir` in a snapshot of directory listings (`None`: it
/// could not be read).
pub open spec fn listing_of(snap: Seq<(String, Vec<DirEntry>)>, dir: Seq<char>) -> Option<Seq<DirEntry>> {
    listing_from(snap, dir, 0)
}

/// How the search names project `name` of category `cat`.
pub open spec fn qualified(cat: Seq<char>, name: Seq<char>) -> Seq<char> {
    cat + seq!['/'] + name
}

/// Every project of every category, qualified by category, categories in
/// order; the directory of the first category that cannot be listed is the error.
pub open spec fn all_files_spec(cats: Seq<(String, Category)>, snap: Seq<(String, Vec<DirEntry>)>) -> Result<
    Seq<Seq<char>>,
    Seq<char>,
>
    decreases cats.len(),
{
    if cats.len() == 0 {
        Ok(Seq::empty())
    } else {
        match all_files_spec(cats.drop_last(), snap) {
            Err(e) => Err(e),
            Ok(r) => {
                let c = cats.last();
                match listing_of(snap, c.1.dir@) {
                    None => Err(c.1.dir@),
                    Some(es) => Ok(r + dir_names(es).map_values(|n: Seq<char>| qualified(c.0@, n))),
                }
            },
        }
    }
}

/// The files the search offers: the projects of `cat` when it is given,
/// else those of every category, qualified by category name.
pub open spec fn get_all_files_spec(
    cats: Seq<(String, Category)>,
    cat: Option<Seq<char>>,
    snap: Seq<(String, Vec<DirEntry>)>,
) -> Result<Seq<Seq<char>>, Seq<char>> {
    match cat {
        Some(dir) => match listing_of(snap, dir) {
            Some(es) => Ok(dir_names(es)),
            None => Err(dir),
        },
        None => all_files_spec(cats, snap),
    }
}

/// The view of a result of strings.
pub open spec fn result_view(r: Result<Vec<String>, String>) -> Result<Seq<Seq<char>>, Seq<char>> {
    match r {
        Ok(v) => Ok(strs(v@)),
        Err(e) => Err(e@),
    }
}

/// The directory of the first category named `name`, from index `i` on.
pub open spec fn category_dir_from(cats: Seq<(String, Category)>, name: Seq<char>, i: int) -> Option<Seq<char>>
    decreases cats.len() - i,
{
    if i < 0 || i >= cats.len() {
        None
    } else if cats[i].0@ == name {
        Some(cats[i].1.dir@)
    } else {
        category_dir_from(cats, name, i + 1)
    }
}

/// The directory of the category named `name`.
pub open spec fn category_dir_spec(cats: Seq<(String, Category)>, name: Seq<char>) -> Option<Seq<char>> {
    category_dir_from(cats, name, 0)
}

/// The two first `/`-separated parts of a search entry (the category and
/// the project), if it has a `/`.
pub open spec fn pick_parts(e: Seq<char>) -> Option<(Seq<char>, Seq<char>)> {
    match find_char(e, '/') {
        None => None,
        Some(k) => {
            let rest = e.skip(k + 1);
            Some(
                (
                    e.take(k),
                    match find_char(rest, '/') {
                        Some(m) => rest.take(m),
                        None => rest,
                    },
                ),
            )
        },
    }
}

/// The project path a search entry stands for.
pub open spec fn resolve_pick_spec(cats: Seq<(String, Category)>, e: Seq<char>) -> Option<Seq<char>> {
    match pick_parts(e) {
        Some((c, n)) => match category_dir_spec(cats, c) {
            Some(d) => Some(join_path(d, n)),
            None => None,
        },
        None => None,
    }
}

/// Labels in the order the selection views sort them.
pub open spec fn sorted_lex(s: Seq<Seq<char>>) -> bool {
    forall|i: int, j: int| 0 <= i < j < s.len() ==> lex_le(#[trigger] s[i], #[trigger] s[j])
}

/// The names of the categories whose directory is among `existing`.
pub open spec fn visible_names(cats: Seq<(String, Category)>, existing: Seq<Seq<char>>) -> Seq<Seq<char>>
    decreases cats.len(),
{
    if cats.len() == 0 {
        Seq::empty()
    } else {
        let r = visible_names(cats.drop_last(), existing);
        if existing.contains(cats.last().1.dir@) {
            r.push(cats.last().0@)
        } else {
            r
        }
    }
}

/// The test "the category's directory is among `existing`".
pub open spec fn dir_among(existing: Seq<Seq<char>>) -> spec_fn((String, Category)) -> bool {
    |c: (String, Category)| existing.contains(c.1.dir@)
}

/// A category's name.
pub open spec fn cat_name() -> spec_fn((String, Category)) -> Seq<char> {
    |c: (String, Category)| c.0@
}

/// The start screen lists a category exactly when its directory exists:
/// the names of the categories whose directory is among `existing`, every
/// one of them, in configuration order.
pub proof fn lemma_visible_are_existing(cats: Seq<(String, Category)>, existing: Seq<Seq<char>>)
    ensures
        visible_names(cats, existing) == cats.filter(dir_among(existing)).map_values(cat_name()),
    decreases cats.len(),
{
    reveal(Seq::filter);
    if cats.len() > 0 {
        lemma_visible_are_existing(cats.drop_last(), existing);
        let f = cats.drop_last().filter(dir_among(existing));
        if existing.contains(cats.last().1.dir@) {
            assert(f.push(cats.last()).map_values(cat_name()) =~= f.map_values(cat_name()).push(cats.last().0@));
        }
    } else {
        assert(cats.filter(dir_among(existing)).map_values(cat_name()) =~= Seq::<Seq<char>>::empty());
    }
}

/// `true` when no character of `s` is `/`.
pub open spec fn no_slash(s: Seq<char>) -> bool {
    forall|i: int| 0 <= i < s.len() ==> s[i] != '/'
}

/// The subdirectory names of a listing, in listing order.
pub fn project_names(entries: &Vec<DirEntry>) -> (r: Vec<String>)
    ensures
        strs(r@) == dir_names(entries@),
{
    let n = entries.len();
    let mut r: Vec<String> = Vec::new();
    let mut i: usize = 0;
    while i < n
        invariant
            n == entries@.len(),
            i <= n,
            strs(r@) == dir_names(entries@.take(i as int)),
        decreases n - i,
    {
        proof {
            assert(entries@.take(i + 1).drop_last() =~= entries@.take(i as int));
        }
        if entries[i].is_dir {
            let ghost before = r@;
            r.push(entries[i].name.clone());
            proof {
                assert(strs(r@) =~= strs(before).push(entries@[i as int].name@));
            }
        }
        i = i + 1;
    }
    proof {
        assert(entries@.take(n as int) =~= entries@);
    }
    r
}

/// The listing of `dir` in the snapshot, if it was read.
fn find_listing(snap: &Vec<(String, Vec<DirEntry>)>, dir: &str) -> (r: Option<usize>)
    ensures
        match r {
            Some(i) => i < snap@.len() && listing_of(snap@, dir@) == Some(snap@[i as int].1@),
            None => listing_of(snap@, dir@) is None,
        },
{
    let n = snap.len();
    let mut i: usize = 0;
    while i < n
        invariant
            n == snap@.len(),
            i <= n,
            listing_of(snap@, dir@) == listing_from(snap@, dir@, i as int),
        decreases n - i,
    {
        if str_eq(snap[i].0.as_str(), dir) {
            return Some(i);
        }
        i = i + 1;
    }
    None
}

/// `cat/name`, the search's name for a project.
pub fn qualify(cat: &str, name: &str) -> (r: String)
    ensures
        r@ == qualified(cat@, name@),
{
    let mut s = cat.to_owned();
    s.append("/");
    proof {
        reveal_strlit("/");
    }
    s.append(name);
    s
}

/// The files the search offers, from a snapshot of directory listings
/// (each directory with its entries; a directory missing from it could not
/// be read): the projects of `cat` if given, else every project of every
/// category as `category/project`.
pub fn get_all_files(conf: &Data, cat: Option<&Category>, snap: &Vec<(String, Vec<DirEntry>)>) -> (r: Result<
    Vec<String>,
    String,
>)
    ensures
        result_view(r) == get_all_files_spec(
            conf.categories@,
            match cat {
                Some(c) => Some(c.dir@),
                None => None,
            },
            snap@,
        ),
{
    match cat {
        Some(c) => {
            match find_listing(snap, c.dir.as_str()) {
                Some(i) => Ok(project_names(&snap[i].1)),
                None => Err(c.dir.clone()),
            }
        },
        None => {
            let cats = &conf.categories;
            let n = cats.len();
            let mut out: Vec<String> = Vec::new();
            let mut i: usize = 0;
            assert(strs(out@) =~= Seq::<Seq<char>>::empty());
            while i < n
                invariant
                    n == cats@.len(),
                    cats@ == conf.categories@,
                    cat is None,
                    i <= n,
                    all_files_spec(cats@.take(i as int), snap@) == Ok::<Seq<Seq<char>>, Seq<char>>(strs(out@)),
                decreases n - i,
            {
                proof {
                    assert(cats@.take(i + 1).drop_last() =~= cats@.take(i as int));
                }
                let c = &cats[i];
                match find_listing(snap, c.1.dir.as_str()) {
                    None => {
                        proof {
                            assert(all_files_spec(cats@.take(i + 1), snap@) == Err::<Seq<Seq<char>>, Seq<char>>(c.1.dir@));
                            lemma_all_files_err_prefix(cats@, snap@, i + 1);
                            assert(all_files_spec(conf.categories@, snap@) == Err::<Seq<Seq<char>>, Seq<char>>(c.1.dir@));
                        }
                        let e = c.1.dir.clone();
                        assert(result_view(Err(e)) == Err::<Seq<Seq<char>>, Seq<char>>(c.1.dir@));
                        return Err(e);
                    },
                    Some(k) => {
                        let names = project_names(&snap[k].1);
                        let m = names.len();
                        let ghost base = strs(out@);
                        let ghost q = dir_names(snap@[k as int].1@).map_values(|nm: Seq<char>| qualified(c.0@, nm));
                        let mut j: usize = 0;
                        while j < m
                            invariant
                                m == names@.len(),
                                j <= m,
                                strs(names@) == dir_names(snap@[k as int].1@),
                                q == dir_names(snap@[k as int].1@).map_values(|nm: Seq<char>| qualified(c.0@, nm)),
                                strs(out@) == base + q.take(j as int),
                            decreases m - j,
                        {
                            let s = qualify(c.0.as_str(), names[j].as_str());
                            let ghost before = out@;
                            out.push(s);
                            proof {
                                assert(strs(out@) =~= strs(before).push(s@));
                                assert(q.take(j + 1) =~= q.take(j as int).push(q[j as int]));
                                assert(strs(out@) =~= base + q.take(j + 1));
                            }
                            j = j + 1;
                        }
                        proof {
                            assert(q.take(m as int) =~= q);
                        }
                    },
                }
                i = i + 1;
            }
            proof {
                assert(cats@.take(n as int) =~= cats@);
            }
            Ok(out)
        },
    }
}

proof fn lemma_all_files_err_prefix(cats: Seq<(String, Category)>, snap: Seq<(String, Vec<DirEntry>)>, i: int)
    requires
        0 <= i <= cats.len(),
        all_files_spec(cats.take(i), snap) is Err,
    ensures
        all_files_spec(cats, snap) == all_files_spec(cats.take(i), snap),
    decreases cats.len() - i,
{
    if i < cats.len() {
        assert(cats.take(i + 1).drop_last() =~= cats.take(i));
        lemma_all_files_err_prefix(cats, snap, i + 1);
    } else {
        assert(cats.take(i) =~= cats);
    }
}

/// The directory of the category named `name`, if there is one.
pub fn category_dir(conf: &Data, name: &str) -> (r: Option<String>)
    ensures
        match r {
            Some(d) => category_dir_spec(conf.categories@, name@) == Some(d@),
            None => category_dir_spec(conf.categories@, name@) is None,
        },
{
    let n = conf.categories.len();
    let mut i: usize = 0;
    while i < n
        invariant
            n == conf.categories@.len(),
            i <= n,
            category_dir_spec(conf.categories@, name@) == category_dir_from(conf.categories@, name@, i as int),
        decreases n - i,
    {
        if str_eq(conf.categories[i].0.as_str(), name) {
            return Some(conf.categories[i].1.dir.clone());
        }
        i = i + 1;
    }
    None
}

/// The project path that a search entry `category/project` stands for:
/// the project inside its category's directory. `None` when the entry has
/// no `/` or names no category.
pub fn resolve_pick(conf: &Data, entry: &str) -> (r: Option<String>)
    ensures
        match r {
            Some(p) => resolve_pick_spec(conf.categories@, entry@) == Some(p@),
            None => resolve_pick_spec(conf.categories@, entry@) is None,
        },
{
    let n = entry.unicode_len();
    match str_find_char(entry, '/') {
        None => None,
        Some(k) => {
            let cat = entry.substring_char(0, k);
            let rest = entry.substring_char(k + 1, n);
            let name = match str_find_char(rest, '/') {
                Some(m) => rest.substring_char(0, m),
                None => rest,
            };
            proof {
                assert(cat@ =~= entry@.take(k as int));
                assert(rest@ =~= entry@.skip(k + 1));
            }
            match category_dir(conf, cat) {
                Some(d) => Some(path_join(d.as_str(), name)),
                None => None,
            }
        },
    }
}

proof fn lemma_find_char_absent(s: Seq<char>, c: char, i: int)
    requires
        0 <= i,
        forall|k: int| i <= k < s.len() ==> s[k] != c,
    ensures
        crate::text::find_char_from(s, c, i) is None,
    decreases s.len() - i,
{
    if i < s.len() {
        lemma_find_char_absent(s, c, i + 1);
    }
}

proof fn lemma_find_char_first(s: Seq<char>, c: char, i: int, k: int)
    requires
        0 <= i <= k < s.len(),
        s[k] == c,
        forall|j: int| i <= j < k ==> s[j] != c,
    ensures
        crate::text::find_char_from(s, c, i) == Some(k),
    decreases k - i,
{
    if i < k {
        lemma_find_char_first(s, c, i + 1, k);
    }
}

proof fn lemma_category_dir_at(cats: Seq<(String, Category)>, i: int, k: int)
    requires
        0 <= i <= k < cats.len(),
        forall|j: int| i <= j < k ==> cats[j].0@ != cats[k].0@,
    ensures
        category_dir_from(cats, cats[k].0@, i) == Some(cats[k].1.dir@),
    decreases k - i,
{
    if i < k {
        lemma_category_dir_at(cats, i + 1, k);
    }
}

/// Every entry the search offers over all categories leads back to that
/// project: `category/project` resolves to the project inside the
/// category's directory, when category names are unique and neither name
/// holds a `/`.
pub proof fn lemma_pick_resolves(conf: Data, i: int, name: Seq<char>)
    requires
        conf.wf(),
        0 <= i < conf.categories@.len(),
        no_slash(conf.categories@[i].0@),
        no_slash(name),
    ensures
        resolve_pick_spec(conf.categories@, qualified(conf.categories@[i].0@, name)) == Some(
            join_path(conf.categories@[i].1.dir@, name),
        ),
{
    let cats = conf.categories@;
    let c = cats[i].0@;
    let e = qualified(c, name);
    lemma_find_char_first(e, '/', 0, c.len() as int);
    let rest = e.skip(c.len() as int + 1);
    assert(rest =~= name);
    assert(e.take(c.len() as int) =~= c);
    lemma_find_char_absent(name, '/', 0);
    assert forall|j: int| 0 <= j < i implies cats[j].0@ != cats[i].0@ by {
        assert(conf.names()[j] == cats[j].0@);
        assert(conf.names()[i] == cats[i].0@);
    }
    lemma_category_dir_at(cats, 0, i);
}

/// `v` in the order of the selection views' `sort_by_label`.
pub fn sort_labels(v: &Vec<String>) -> (r: Vec<String>)
    ensures
        sorted_lex(strs(r@)),
        strs(r@).to_multiset() == strs(v@).to_multiset(),
{
    broadcast use vstd::seq_lib::group_seq_properties;
    let n = v.len();
    let mut acc: Vec<String> = Vec::new();
    let mut i: usize = 0;
    while i < n
        invariant
            n == v@.len(),
            i <= n,
            sorted_lex(strs(acc@)),
            strs(acc@).to_multiset() == strs(v@.take(i as int)).to_multiset(),
        decreases n - i,
    {
        let x = v[i].clone();
        let ghost xv = x@;
        let mut j: usize = 0;
        while j < acc.len() && str_le(acc[j].as_str(), x.as_str())
            invariant
                j <= acc@.len(),
                forall|k: int| 0 <= k < j ==> lex_le(#[trigger] acc@[k]@, x@),
            decreases acc@.len() - j,
        {
            j = j + 1;
        }
        let ghost before = acc@;
        acc.insert(j, x);
        proof {
            let sb = strs(before);
            let sa = strs(acc@);
            assert(sa =~= sb.insert(j as int, xv));
            lemma_insert_multiset(sb, j as int, xv);
            assert(sa.to_multiset() =~= sb.to_multiset().insert(xv));
            assert(v@.take(i + 1) =~= v@.take(i as int).push(v@[i as int]));
            assert(strs(v@.take(i + 1)) =~= strs(v@.take(i as int)).push(xv));
            strs(v@.take(i as int)).to_multiset_ensures();
            assert(strs(v@.take(i as int)).push(xv).to_multiset() =~= strs(v@.take(i as int)).to_multiset().insert(xv));
            assert(strs(v@.take(i + 1)).to_multiset() =~= strs(v@.take(i as int)).to_multiset().insert(xv));
            if j < before.len() {
                lemma_lex_total(sb[j as int], x@);
            }
            assert forall|a: int, b: int| 0 <= a < b < sa.len() implies lex_le(#[trigger] sa[a], #[trigger] sa[b]) by {
                if b < j {
                } else if b == j {
                    assert(sa[a] == sb[a]);
                } else if a < j {
                    assert(sa[a] == sb[a]);
                    assert(sa[b] == sb[b - 1]);
                } else if a == j {
                    assert(sa[b] == sb[b - 1]);
                    if b - 1 > j {
                        assert(lex_le(sb[j as int], sb[b - 1]));
                    } else {
                        crate::text::lemma_lex_refl(sb[j as int]);
                    }
                    lemma_lex_trans(x@, sb[j as int], sb[b - 1]);
                } else {
                    assert(sa[a] == sb[a - 1]);
                    assert(sa[b] == sb[b - 1]);
                }
            }
        }
        i = i + 1;
    }
    proof {
        assert(v@.take(n as int) =~= v@);
    }
    acc
}

/// The names of the categories whose directory exists (is among
/// `existing`), sorted: the start screen's list.
pub fn visible_categories(conf: &Data, existing: &Vec<String>) -> (r: Vec<String>)
    ensures
        sorted_lex(strs(r@)),
        strs(r@).to_multiset() == visible_names(conf.categories@, strs(existing@)).to_multiset(),
        strs(r@).to_multiset() == conf.categories@.filter(dir_among(strs(existing@))).map_values(
            cat_name(),
        ).to_multiset(),
{
    let cats = &conf.categories;
    let n = cats.len();
    let mut names: Vec<String> = Vec::new();
    let mut i: usize = 0;
    while i < n
        invariant
            n == cats@.len(),
            i <= n,
            strs(names@) == visible_names(cats@.take(i as int), strs(existing@)),
        decreases n - i,
    {
        proof {
            assert(cats@.take(i + 1).drop_last() =~= cats@.take(i as int));
        }
        if crate::text::contains_str(existing, cats[i].1.dir.as_str()) {
            let ghost before = names@;
            names.push(cats[i].0.clone());
            proof {
                assert(strs(names@) =~= strs(before).push(cats@[i as int].0@));
            }
        }
        i = i + 1;
    }
    proof {
        assert(cats@.take(n as int) =~= cats@);
    }
    proof {
        lemma_visible_are_existing(cats@, strs(existing@));
    }
    sort_labels(&names)
}

/// The list after `label` was added (a project created or renamed to it).
pub fn with_label(labels: &Vec<String>, label: &str) -> (r: Vec<String>)
    ensures
        sorted_lex(strs(r@)),
        strs(r@).to_multiset() == strs(labels@).to_multiset().insert(label@),
{
    broadcast use vstd::seq_lib::group_seq_properties;
    let mut all = labels.clone();
    all.push(label.to_owned());
    proof {
        assert(strs(all@) =~= strs(labels@).push(label@));
    }
    sort_labels(&all)
}

/// The list after the entry at `i` was removed (its project deleted).
pub fn without_label(labels: &Vec<String>, i: usize) -> (r: Vec<String>)
    requires
        i < labels@.len(),
    ensures
        r@ == labels@.remove(i as int),
{
    let mut all = labels.clone();
    all.remove(i);
    all
}

} // verus!
