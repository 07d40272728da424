//! The template tree: folders of the mirror and the templates they hold.
use vstd::prelude::*;

use crate::matching::{is_ranking, lower_of, lowercase, rank_matches};
use crate::names::{has_template_extension, is_template_file};
use crate::template::{lemma_texts_push, template_at, texts, Template, TemplateView};

verus! {

/// The views of a sequence of templates.
pub open spec fn views(ts: Seq<Template>) -> Seq<TemplateView> {
    ts.map_values(|t: Template| t@)
}

/// A directory of the mirror as read from disk: its name, the names of its
/// files and its subdirectories.
#[derive(Debug)]
pub struct DirListing {
    pub name: String,
    pub files: Vec<String>,
    pub dirs: Vec<DirListing>,
}

/// A folder of the template tree: the templates it holds directly and its
/// subfolders.
#[derive(Debug)]
pub struct Folder {
    pub name: String,
    pub files: Vec<Template>,
    pub folders: Vec<Folder>,
}

/// Whether some folder of `fs` holds a template somewhere beneath it.
pub open spec fn any_template(fs: Seq<Folder>) -> bool
    decreases fs,
{
    if fs.len() == 0 {
        false
    } else {
        fs.last().contains_template() || any_template(fs.drop_last())
    }
}

/// Every folder of `fs` holds a template and is pruned itself.
pub open spec fn all_pruned(fs: Seq<Folder>) -> bool
    decreases fs,
{
    if fs.len() == 0 {
        true
    } else {
        fs.last().contains_template() && fs.last().pruned() && all_pruned(fs.drop_last())
    }
}

/// The templates beneath the folders of `fs`, depth first, in order.
pub open spec fn templates_below(fs: Seq<Folder>) -> Seq<TemplateView>
    decreases fs,
{
    if fs.len() == 0 {
        Seq::empty()
    } else {
        templates_below(fs.drop_last()) + fs.last().all_templates()
    }
}

/// `rs` is what pruning makes of `fs`: the folders of `fs` that hold a
/// template, in order, each pruned in turn.
pub open spec fn pruned_list(rs: Seq<Folder>, fs: Seq<Folder>) -> bool
    decreases fs,
{
    if fs.len() == 0 {
        rs.len() == 0
    } else if fs.last().contains_template() {
        &&& rs.len() > 0
        &&& rs.last().pruned_from(fs.last())
        &&& pruned_list(rs.drop_last(), fs.drop_last())
    } else {
        pruned_list(rs, fs.drop_last())
    }
}

/// The templates that the files `names` of a directory at `prefix` become.
pub open spec fn templates_of_files(prefix: Seq<Seq<char>>, names: Seq<Seq<char>>) -> Seq<TemplateView> {
    names.filter(|n: Seq<char>| is_template_file(n)).map_values(|n: Seq<char>| template_at(prefix.push(n)))
}

/// `fs` are the folders read from the directories `ds` that lie at `prefix`.
pub open spec fn read_list(fs: Seq<Folder>, ds: Seq<DirListing>, prefix: Seq<Seq<char>>) -> bool
    decreases ds,
{
    if ds.len() == 0 {
        fs.len() == 0
    } else {
        &&& fs.len() == ds.len()
        &&& fs.last().read_from(ds.last(), prefix.push(ds.last().name@))
        &&& read_list(fs.drop_last(), ds.drop_last(), prefix)
    }
}

impl Folder {
    /// Whether a template lies anywhere beneath this folder.
    pub open spec fn contains_template(&self) -> bool
        decreases self,
    {
        self.files@.len() > 0 || any_template(self.folders@)
    }

    /// Every subfolder, at every depth, holds a template.
    pub open spec fn pruned(&self) -> bool
        decreases self,
    {
        all_pruned(self.folders@)
    }

    /// The number of entries the picker lists for this folder.
    pub open spec fn item_count(&self) -> nat {
        self.folders@.len() + self.files@.len()
    }

    /// All templates beneath this folder: its own, then each subfolder's, depth first.
    pub open spec fn all_templates(&self) -> Seq<TemplateView>
        decreases self,
    {
        views(self.files@) + templates_below(self.folders@)
    }

    /// This folder is `f` with every template-free subfolder removed, at every depth.
    pub open spec fn pruned_from(&self, f: Folder) -> bool
        decreases f,
    {
        &&& self.name == f.name
        &&& self.files == f.files
        &&& pruned_list(self.folders@, f.folders@)
    }

    /// This folder is the directory `d` lying at `prefix` below the mirror
    /// root, read as it is: every subdirectory kept.
    pub open spec fn read_from(&self, d: DirListing, prefix: Seq<Seq<char>>) -> bool
        decreases d,
    {
        &&& self.name@ == d.name@
        &&& views(self.files@) == templates_of_files(prefix, texts(d.files@))
        &&& read_list(self.folders@, d.dirs@, prefix)
    }
}


/// Reads the directory `d`, which lies at `prefix` below the mirror root,
/// keeping every subdirectory.
fn read_dir(d: &DirListing, prefix: &Vec<String>) -> (r: Folder)
    ensures
        r.read_from(*d, texts(prefix@)),
    decreases d,
{
    let ghost pre = texts(prefix@);
    let mut files: Vec<Template> = Vec::new();
    let mut i: usize = 0;
    while i < d.files.len()
        invariant
            i <= d.files@.len(),
            pre == texts(prefix@),
            views(files@) == templates_of_files(pre, texts(d.files@.take(i as int))),
        decreases d.files@.len() - i,
    {
        let ghost names = texts(d.files@.take(i as int));
        let ghost name = d.files@[i as int]@;
        proof {
            assert(texts(d.files@.take(i + 1)) =~= names.push(name));
            names.lemma_filter_push(name, |n: Seq<char>| is_template_file(n));
        }
        if has_template_extension(d.files[i].as_str()) {
            let mut path = prefix.clone();
            assert(path@ =~= prefix@);
            let ghost before = path@;
            path.push(d.files[i].clone());
            proof {
                lemma_texts_push(before, d.files@[i as int]);
            }
            let t = Template::new(path);
            let ghost old_files = files@;
            files.push(t);
            proof {
                lemma_views_push(old_files, t);
                let kept = names.filter(|n: Seq<char>| is_template_file(n));
                assert(kept.push(name).map_values(|n: Seq<char>| template_at(pre.push(n)))
                    =~= kept.map_values(|n: Seq<char>| template_at(pre.push(n))).push(template_at(pre.push(name))));
            }
        }
        i = i + 1;
    }
    assert(d.files@.take(i as int) =~= d.files@);
    let mut folders: Vec<Folder> = Vec::new();
    let mut j: usize = 0;
    while j < d.dirs.len()
        invariant
            j <= d.dirs@.len(),
            pre == texts(prefix@),
            folders@.len() == j,
            read_list(folders@, d.dirs@.take(j as int), pre),
        decreases d.dirs@.len() - j,
    {
        let mut sub = prefix.clone();
        assert(sub@ =~= prefix@);
        let ghost before = sub@;
        sub.push(d.dirs[j].name.clone());
        proof {
            lemma_texts_push(before, d.dirs@[j as int].name);
        }
        let f = read_dir(&d.dirs[j], &sub);
        let ghost old_folders = folders@;
        folders.push(f);
        assert(folders@.drop_last() =~= old_folders);
        assert(d.dirs@.take(j + 1).drop_last() =~= d.dirs@.take(j as int));
        j = j + 1;
    }
    assert(d.dirs@.take(j as int) =~= d.dirs@);
    Folder { name: d.name.clone(), files, folders }
}

/// An entry the picker lists: a subfolder or a template.
pub enum Item<'a> {
    Folder(&'a Folder),
    Template(&'a Template),
}

impl<'a> Item<'a> {
    pub open spec fn spec_name(&self) -> Seq<char> {
        match self {
            Item::Folder(f) => f.name@,
            Item::Template(t) => t@.name,
        }
    }

    pub fn name(&self) -> (r: &str)
        ensures
            r@ == self.spec_name(),
    {
        match self {
            Item::Folder(f) => f.name.as_str(),
            Item::Template(t) => t.name(),
        }
    }

    pub fn is_folder(&self) -> (r: bool)
        ensures
            r == (self is Folder),
    {
        match self {
            Item::Folder(_) => true,
            Item::Template(_) => false,
        }
    }
}

impl Folder {
    /// The name of the picker's entry `k`: subfolders come first, then templates.
    pub open spec fn item_name(&self, k: int) -> Seq<char> {
        if k < self.folders@.len() {
            self.folders@[k].name@
        } else {
            self.files@[k - self.folders@.len()]@.name
        }
    }

    /// The picker's entry `k`: subfolders come first, then templates.
    pub fn item(&self, k: usize) -> (r: Item<'_>)
        requires
            k < self.item_count(),
        ensures
            r.spec_name() == self.item_name(k as int),
            (r is Folder) == (k < self.folders@.len()),
            r matches Item::Folder(f) ==> *f == self.folders@[k as int],
            r matches Item::Template(t) ==> *t == self.files@[k - self.folders@.len()],
    {
        if k < self.folders.len() {
            Item::Folder(&self.folders[k])
        } else {
            Item::Template(&self.files[k - self.folders.len()])
        }
    }

    /// Every entry the picker lists for this folder: subfolders, then templates.
    pub fn list_items(&self) -> (r: Vec<Item<'_>>)
        ensures
            r@.len() == self.item_count(),
            forall|k: int| 0 <= k < r@.len() ==> (#[trigger] r@[k]).spec_name() == self.item_name(k),
            forall|k: int| 0 <= k < r@.len() ==> ((#[trigger] r@[k]) is Folder) == (k < self.folders@.len()),
            forall|k: int| 0 <= k < r@.len() ==> (#[trigger] r@[k] matches Item::Folder(f) ==> *f == self.folders@[k]),
            forall|k: int| 0 <= k < r@.len() ==> (#[trigger] r@[k] matches Item::Template(t) ==> *t == self.files@[k - self.folders@.len()]),
    {
        let mut items: Vec<Item<'_>> = Vec::new();
        let mut k: usize = 0;
        while k < self.folders.len()
            invariant
                k <= self.folders@.len(),
                items@.len() == k,
                forall|j: int| 0 <= j < k ==> (#[trigger] items@[j]).spec_name() == self.item_name(j),
                forall|j: int| 0 <= j < k ==> (#[trigger] items@[j] matches Item::Folder(f) && *f == self.folders@[j]),
            decreases self.folders@.len() - k,
        {
            items.push(Item::Folder(&self.folders[k]));
            k = k + 1;
        }
        let mut t: usize = 0;
        while t < self.files.len()
            invariant
                k == self.folders@.len(),
                t <= self.files@.len(),
                items@.len() == k + t,
                forall|j: int| 0 <= j < k + t ==> (#[trigger] items@[j]).spec_name() == self.item_name(j),
                forall|j: int| 0 <= j < k ==> (#[trigger] items@[j] matches Item::Folder(f) && *f == self.folders@[j]),
                forall|j: int| k <= j < k + t ==> (#[trigger] items@[j] matches Item::Template(x) && *x == self.files@[j - k]),
            decreases self.files@.len() - t,
        {
            items.push(Item::Template(&self.files[t]));
            t = t + 1;
        }
        items
    }

    /// The folder model of a directory read from the mirror root: its
    /// templates are the files with the template extension, and every
    /// subfolder that holds no template, at any depth, is left out.
    pub fn load_path(dir: &DirListing) -> (r: Folder)
        ensures
            r.pruned(),
            exists|raw: Folder| raw.read_from(*dir, Seq::empty()) && r.pruned_from(raw),
    {
        let prefix: Vec<String> = Vec::new();
        let raw = read_dir(dir, &prefix);
        assert(texts(prefix@) =~= Seq::<Seq<char>>::empty());
        raw.cleanup()
    }

    /// Whether no template lies anywhere beneath this folder.
    pub fn is_empty(&self) -> (r: bool)
        ensures
            r == !self.contains_template(),
        decreases self,
    {
        if self.files.len() > 0 {
            return false;
        }
        let mut i: usize = 0;
        while i < self.folders.len()
            invariant
                i <= self.folders@.len(),
                !any_template(self.folders@.take(i as int)),
            decreases self.folders@.len() - i,
        {
            assert(self.folders@.take(i + 1).drop_last() =~= self.folders@.take(i as int));
            if !self.folders[i].is_empty() {
                proof {
                    lemma_any_template_grows(self.folders@, i + 1);
                }
                return false;
            }
            i = i + 1;
        }
        assert(self.folders@.take(i as int) =~= self.folders@);
        true
    }

    /// This folder with every subfolder that holds no template removed, at
    /// every depth. Removing a subfolder can leave its parent without
    /// templates, so the parent goes too: what remains has no dead ends.
    pub fn cleanup(self) -> (r: Folder)
        ensures
            r.pruned_from(self),
            r.pruned(),
            r.all_templates() == self.all_templates(),
        decreases self,
    {
        let ghost fs = self.folders@;
        let n = self.folders.len();
        let mut source = self.folders;
        let mut pending: Vec<Folder> = Vec::new();
        // Reverse the subfolders so that popping yields them in order.
        while source.len() > 0
            invariant
                source@.len() + pending@.len() == n == fs.len(),
                source@ == fs.take(source@.len() as int),
                forall|j: int| 0 <= j < pending@.len() ==> pending@[j] == fs[n - 1 - j],
            decreases source@.len(),
        {
            let f = source.pop().unwrap();
            pending.push(f);
        }
        let mut kept: Vec<Folder> = Vec::new();
        let mut k: usize = 0;
        while pending.len() > 0
            invariant
                pending@.len() + k == n == fs.len(),
                fs == self.folders@,
                forall|j: int| 0 <= j < pending@.len() ==> pending@[j] == fs[n - 1 - j],
                pruned_list(kept@, fs.take(k as int)),
                all_pruned(kept@),
                templates_below(kept@) == templates_below(fs.take(k as int)),
            decreases pending@.len(),
        {
            let f = pending.pop().unwrap();
            assert(f == fs[k as int]);
            assert(fs.take(k + 1).drop_last() =~= fs.take(k as int));
            assert(fs.take(k + 1).last() == f);
            if !f.is_empty() {
                let c = f.cleanup();
                proof {
                    lemma_contains_iff_some(f);
                    lemma_contains_iff_some(c);
                }
                let ghost before = kept@;
                kept.push(c);
                assert(kept@.drop_last() =~= before);
            } else {
                proof {
                    lemma_no_templates_below(f);
                }
                assert(templates_below(fs.take(k + 1)) =~= templates_below(fs.take(k as int)));
            }
            k = k + 1;
        }
        assert(fs.take(n as int) =~= fs);
        Folder { name: self.name, files: self.files, folders: kept }
    }

    /// The templates held directly by this folder.
    pub fn list_templates(&self) -> (r: &[Template])
        ensures
            r@ == self.files@,
    {
        self.files.as_slice()
    }

    /// Every template beneath this folder, depth first: its own templates,
    /// then those of each subfolder in order.
    pub fn list_templates_recursively(&self) -> (r: Vec<Template>)
        ensures
            views(r@) == self.all_templates(),
        decreases self,
    {
        let mut templates: Vec<Template> = Vec::new();
        let mut i: usize = 0;
        while i < self.files.len()
            invariant
                i <= self.files@.len(),
                views(templates@) =~= views(self.files@.take(i as int)),
            decreases self.files@.len() - i,
        {
            let t = self.files[i].clone();
            let ghost before = templates@;
            templates.push(t);
            assert(views(templates@) =~= views(self.files@.take(i + 1))) by {
                assert(templates@ == before.push(t));
                lemma_views_push(before, t);
                lemma_views_push(self.files@.take(i as int), self.files@[i as int]);
                assert(self.files@.take(i + 1) == self.files@.take(i as int).push(self.files@[i as int]));
            }
            i = i + 1;
        }
        assert(self.files@.take(i as int) =~= self.files@);
        let mut j: usize = 0;
        while j < self.folders.len()
            invariant
                j <= self.folders@.len(),
                views(templates@) == views(self.files@) + templates_below(self.folders@.take(j as int)),
            decreases self.folders@.len() - j,
        {
            let mut sub = self.folders[j].list_templates_recursively();
            let ghost before = templates@;
            let ghost added = sub@;
            templates.append(&mut sub);
            proof {
                assert(views(templates@) =~= views(before) + views(added));
                assert(self.folders@.take(j + 1).drop_last() =~= self.folders@.take(j as int));
                assert(templates_below(self.folders@.take(j + 1)) == templates_below(self.folders@.take(j as int)) + self.folders@[j as int].all_templates());
            }
            j = j + 1;
        }
        assert(self.folders@.take(j as int) =~= self.folders@);
        templates
    }
}

/// The folder reached from `f` by following the subfolder positions `path`.
pub open spec fn descendant(f: Folder, path: Seq<usize>) -> Option<Folder>
    decreases path.len(),
{
    if path.len() == 0 {
        Some(f)
    } else if path[0] < f.folders@.len() {
        descendant(f.folders@[path[0] as int], path.drop_first())
    } else {
        None
    }
}

proof fn lemma_all_pruned_each(fs: Seq<Folder>, i: int)
    requires
        all_pruned(fs),
        0 <= i < fs.len(),
    ensures
        fs[i].contains_template(),
        fs[i].pruned(),
    decreases fs.len(),
{
    if i < fs.len() - 1 {
        lemma_all_pruned_each(fs.drop_last(), i);
    }
}

/// No dead ends: in a pruned tree, every folder reached by descending at
/// least once holds a template, so the picker lists at least one item there.
pub proof fn lemma_no_dead_ends(f: Folder, path: Seq<usize>)
    requires
        f.pruned(),
        path.len() > 0,
        descendant(f, path) is Some,
    ensures
        descendant(f, path)->0.contains_template(),
        descendant(f, path)->0.item_count() > 0,
    decreases path.len(),
{
    let c = f.folders@[path[0] as int];
    lemma_all_pruned_each(f.folders@, path[0] as int);
    if path.len() > 1 {
        lemma_no_dead_ends(c, path.drop_first());
    } else {
        assert(descendant(c, path.drop_first()) == Some(c));
        if c.files@.len() == 0 {
            assert(c.folders@.len() > 0);
        }
    }
}

/// Descending one more step goes to the chosen subfolder of where the path led.
pub proof fn lemma_descendant_push(f: Folder, path: Seq<usize>, k: usize)
    ensures
        descendant(f, path.push(k)) == (match descendant(f, path) {
            Some(g) => if k < g.folders@.len() { Some(g.folders@[k as int]) } else { None },
            None => None,
        }),
    decreases path.len(),
{
    if path.len() > 0 {
        assert(path.push(k).drop_first() =~= path.drop_first().push(k));
        if path[0] < f.folders@.len() {
            lemma_descendant_push(f.folders@[path[0] as int], path.drop_first(), k);
        }
    } else {
        assert(path.push(k).drop_first() =~= Seq::<usize>::empty());
        reveal_with_fuel(descendant, 2);
    }
}

/// Appending a template appends its view.
pub proof fn lemma_views_push(ts: Seq<Template>, t: Template)
    ensures
        views(ts.push(t)) == views(ts).push(t@),
{
    assert(views(ts.push(t)) =~= views(ts).push(t@));
}

/// A folder holds a template exactly when its listing of all templates is non-empty.
proof fn lemma_contains_iff_some(f: Folder)
    ensures
        f.contains_template() <==> f.all_templates().len() > 0,
    decreases f,
{
    lemma_any_iff_some(f.folders@);
}

proof fn lemma_any_iff_some(fs: Seq<Folder>)
    ensures
        any_template(fs) <==> templates_below(fs).len() > 0,
    decreases fs,
{
    if fs.len() > 0 {
        lemma_any_iff_some(fs.drop_last());
        lemma_contains_iff_some(fs.last());
    }
}

proof fn lemma_any_template_grows(fs: Seq<Folder>, k: int)
    requires
        0 < k <= fs.len(),
        fs[k - 1].contains_template(),
    ensures
        any_template(fs),
    decreases fs.len(),
{
    if k < fs.len() {
        lemma_any_template_grows(fs.drop_last(), k);
    }
}

proof fn lemma_no_templates_below(f: Folder)
    requires
        !f.contains_template(),
    ensures
        f.all_templates() == Seq::<TemplateView>::empty(),
    decreases f,
{
    lemma_none_below(f.folders@);
    assert(views(f.files@) =~= Seq::<TemplateView>::empty());
}

proof fn lemma_none_below(fs: Seq<Folder>)
    requires
        !any_template(fs),
    ensures
        templates_below(fs) == Seq::<TemplateView>::empty(),
    decreases fs,
{
    if fs.len() > 0 {
        lemma_none_below(fs.drop_last());
        lemma_no_templates_below(fs.last());
        assert(templates_below(fs) =~= Seq::<TemplateView>::empty());
    }
}

/// The loaded mirror: the template tree built from its directory.
#[derive(Debug)]
pub struct Cache {
    pub root: Folder,
}

/// Whether `t` carries the name `name`, ignoring case.
pub open spec fn named(t: TemplateView, name: Seq<char>) -> bool {
    lower_of(t.name) == lower_of(name)
}

impl Cache {
    pub fn new(root: Folder) -> (r: Cache)
        ensures
            r.root == root,
    {
        Cache { root }
    }

    /// Every template of the mirror, depth first.
    pub fn list_templates(&self) -> (r: Vec<Template>)
        ensures
            views(r@) == self.root.all_templates(),
    {
        self.root.list_templates_recursively()
    }

    /// The first template, depth first, whose name equals `name` ignoring
    /// case; `None` when there is none.
    pub fn find_template(&self, name: &str) -> (r: Option<Template>)
        ensures
            match r {
                Some(t) => exists|i: int|
                    0 <= i < self.root.all_templates().len()
                    && #[trigger] self.root.all_templates()[i] == t@
                    && named(t@, name@)
                    && forall|j: int| 0 <= j < i ==> !named(#[trigger] self.root.all_templates()[j], name@),
                None => forall|j: int|
                    0 <= j < self.root.all_templates().len() ==> !named(#[trigger] self.root.all_templates()[j], name@),
            },
    {
        let templates = self.root.list_templates_recursively();
        let wanted = lowercase(name);
        let mut i: usize = 0;
        while i < templates.len()
            invariant
                i <= templates@.len(),
                views(templates@) == self.root.all_templates(),
                wanted@ == lower_of(name@),
                forall|j: int| 0 <= j < i ==> !named(#[trigger] self.root.all_templates()[j], name@),
            decreases templates@.len() - i,
        {
            assert(views(templates@)[i as int] == templates@[i as int]@);
            if lowercase(templates[i].name()) == wanted {
                let t = templates[i].clone();
                return Some(t);
            }
            i = i + 1;
        }
        None
    }
}

/// Entries of a directory all rank alike, so they are ordered by name alone.
pub open spec fn equal_scores(n: nat) -> Seq<Option<i64>> {
    Seq::new(n, |k: int| Some(0i64))
}

/// The lower-cased names.
pub open spec fn lowered(names: Seq<String>) -> Seq<Seq<char>> {
    Seq::new(names.len(), |k: int| lower_of(names[k]@))
}

/// The order in which the entries `names` of a directory are read into the
/// tree: every entry once, by lower-cased name, then by position, so that the
/// tree does not depend on the order the platform lists a directory in.
pub fn listing_order(names: &Vec<String>) -> (r: Vec<usize>)
    ensures
        is_ranking(r@, equal_scores(names@.len()), lowered(names@)),
{
    let mut scores: Vec<Option<i64>> = Vec::new();
    let mut keys: Vec<String> = Vec::new();
    let mut k: usize = 0;
    while k < names.len()
        invariant
            k <= names@.len(),
            scores@.len() == k,
            keys@.len() == k,
            forall|j: int| 0 <= j < k ==> #[trigger] scores@[j] == Some(0i64),
            forall|j: int| 0 <= j < k ==> #[trigger] keys@[j]@ == lower_of(names@[j]@),
        decreases names@.len() - k,
    {
        scores.push(Some(0));
        keys.push(lowercase(names[k].as_str()));
        k = k + 1;
    }
    assert(scores@ =~= equal_scores(names@.len()));
    assert(texts(keys@) =~= lowered(names@));
    rank_matches(&scores, &keys)
}

/// Whether a subdirectory of the mirror is the repository's own metadata
/// (`.git`), which holds no templates and is not read into the tree.
pub fn is_repository_metadata(name: &str) -> (r: bool)
    ensures
        r == (name@ == seq!['.', 'g', 'i', 't']),
{
    let given = String::from_str(name);
    let metadata = String::from_str(".git");
    proof {
        reveal_strlit(".git");
        assert(".git"@ =~= seq!['.', 'g', 'i', 't']);
    }
    given == metadata
}

} // verus!
