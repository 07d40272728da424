//! Templates: the leaves of the tree, each a file of the mirror.
use std::collections::VecDeque;
use vstd::prelude::*;

use crate::names::{file_stem, stem_of};

verus! {

/// Where a template sits below the mirror root.
#[derive(Debug, PartialEq, Eq)]
pub enum Category {
    /// The folder names between the mirror root and the template, outermost first.
    Subfolder(VecDeque<String>),
    /// The template lies directly in the mirror root.
    Root,
}

/// The text of each string.
pub open spec fn texts(v: Seq<String>) -> Seq<Seq<char>> {
    v.map_values(|s: String| s@)
}

/// Appending a string appends its text.
pub proof fn lemma_texts_push(v: Seq<String>, x: String)
    ensures
        texts(v.push(x)) == texts(v).push(x@),
{
    assert(texts(v.push(x)) =~= texts(v).push(x@));
}

/// `"a/b/"` for the components `["a", "b"]`: each component followed by a slash.
pub open spec fn category_text(components: Seq<Seq<char>>) -> Seq<char>
    decreases components.len(),
{
    if components.len() == 0 {
        Seq::empty()
    } else {
        category_text(components.drop_last()) + components.last() + seq!['/']
    }
}

impl Category {
    /// The folder names, outermost first; empty for the root.
    pub open spec fn components(&self) -> Seq<Seq<char>> {
        match self {
            Category::Subfolder(c) => texts(c@),
            Category::Root => Seq::empty(),
        }
    }

    /// A subfolder category names at least one folder.
    pub open spec fn wf(&self) -> bool {
        match self {
            Category::Subfolder(c) => c@.len() > 0,
            Category::Root => true,
        }
    }

    pub fn is_root(&self) -> (r: bool)
        ensures
            r == (self is Root),
    {
        match self {
            Category::Root => true,
            Category::Subfolder(_) => false,
        }
    }

    /// The category as text: every folder name followed by `/`.
    pub fn to_string(&self) -> (r: String)
        ensures
            r@ == category_text(self.components()),
    {
        let mut out = String::new();
        match self {
            Category::Subfolder(c) => {
                let mut i: usize = 0;
                while i < c.len()
                    invariant
                        i <= c@.len(),
                        out@ == category_text(texts(c@).take(i as int)),
                    decreases c@.len() - i,
                {
                    proof {
                        let cs = texts(c@);
                        assert(cs.take(i + 1).drop_last() =~= cs.take(i as int));
                    }
                    out.append(c[i].as_str());
                    out.append("/");
                    proof {
                        reveal_strlit("/");
                    }
                    i = i + 1;
                }
                proof {
                    let cs = texts(c@);
                    assert(cs.take(c@.len() as int) =~= cs);
                }
            },
            Category::Root => {},
        }
        out
    }
}


/// A template as a value: its name, its path below the mirror root, and the
/// folder names that lead to it.
pub struct TemplateView {
    pub name: Seq<char>,
    pub path: Seq<Seq<char>>,
    pub category: Seq<Seq<char>>,
}

/// The template that the file at `path` (below the mirror root) becomes: named
/// by the file's stem, categorised by the folders that lead to it.
pub open spec fn template_at(path: Seq<Seq<char>>) -> TemplateView {
    TemplateView { name: file_stem(path.last()), path, category: path.drop_last() }
}

/// One selectable template of the mirror. A template is a snapshot: it is built
/// once from its place in the mirror and never changed afterwards.
#[derive(Debug, PartialEq, Eq)]
pub struct Template {
    name: String,
    path: Vec<String>,
    category: Category,
}

impl View for Template {
    type V = TemplateView;

    closed spec fn view(&self) -> TemplateView {
        TemplateView {
            name: self.name@,
            path: texts(self.path@),
            category: self.category.components(),
        }
    }
}

impl Clone for Category {
    fn clone(&self) -> (r: Self)
        ensures
            r.components() == self.components(),
            r.wf() == self.wf(),
            r is Root == self is Root,
    {
        match self {
            Category::Subfolder(c) => {
                let d = c.clone();
                proof {
                    assert(texts(d@) =~= texts(c@));
                }
                Category::Subfolder(d)
            },
            Category::Root => Category::Root,
        }
    }
}

impl Clone for Template {
    fn clone(&self) -> (r: Self)
        ensures
            r@ == self@,
    {
        proof {
            use_type_invariant(self);
        }
        let path = self.path.clone();
        proof {
            assert(texts(path@) =~= texts(self.path@));
        }
        Template { name: self.name.clone(), path, category: self.category.clone() }
    }
}

impl Template {
    /// A built template: its path names a file, and its category names the
    /// folders of that path (the root when there are none). Every template
    /// is built so.
    #[verifier::type_invariant]
    pub closed spec fn wf(&self) -> bool {
        &&& self.category.wf()
        &&& self.path@.len() > 0
        &&& self@ == template_at(self@.path)
    }

    /// The template for the file at `path`, given as its components below the
    /// mirror root (the folders, then the file name).
    pub fn new(path: Vec<String>) -> (r: Template)
        requires
            path@.len() > 0,
        ensures
            r@ == template_at(texts(path@)),
    {
        let n = path.len();
        let name = stem_of(path[n - 1].as_str());
        let category = if n == 1 {
            Category::Root
        } else {
            let mut folders: VecDeque<String> = VecDeque::new();
            let mut i: usize = 0;
            while i < n - 1
                invariant
                    n == path@.len() > 0,
                    i <= n - 1,
                    texts(folders@) =~= texts(path@).take(i as int),
                decreases n - 1 - i,
            {
                let item = path[i].clone();
                let ghost before = folders@;
                folders.push_back(item);
                proof {
                    assert(folders@ == before.push(item));
                    assert(item@ == path@[i as int]@);
                    lemma_texts_push(before, item);
                    assert(texts(path@).take(i + 1) =~= texts(path@).take(i as int).push(item@));
                    assert(texts(folders@) =~= texts(path@).take(i + 1));
                }
                i = i + 1;
            }
            Category::Subfolder(folders)
        };
        proof {
            assert(category.components() =~= texts(path@).drop_last());
        }
        Template { name, path, category }
    }

    pub fn name(&self) -> (r: &str)
        ensures
            r@ == self@.name,
    {
        self.name.as_str()
    }

    /// Where the template's file lies, as components below the mirror root.
    pub fn path(&self) -> (r: &Vec<String>)
        ensures
            texts(r@) == self@.path,
    {
        &self.path
    }

    /// The template's category: the root exactly when no folder leads to it.
    pub fn category(&self) -> (r: &Category)
        ensures
            r.components() == self@.category,
            r.wf(),
            (r is Root) <==> self@.category.len() == 0,
    {
        proof {
            use_type_invariant(self);
        }
        &self.category
    }

    /// The path below the mirror root; templates are recorded relative to it,
    /// so this is always present.
    pub fn relative_path(&self) -> (r: Option<Vec<String>>)
        ensures
            r matches Some(p) && texts(p@) == self@.path,
    {
        let p = self.path.clone();
        proof {
            assert(texts(p@) =~= texts(self.path@));
        }
        Some(p)
    }

    /// The rest of the template's path after `base`, or `None` when `base` is
    /// not a prefix of it.
    pub fn given_relative_path(&self, base: &Vec<String>) -> (r: Option<Vec<String>>)
        ensures
            match r {
                Some(rest) => {
                    let b = texts(base@);
                    &&& self@.path.take(b.len() as int) == b
                    &&& b.len() <= self@.path.len()
                    &&& texts(rest@) == self@.path.skip(b.len() as int)
                },
                None => {
                    let b = texts(base@);
                    b.len() > self@.path.len() || self@.path.take(b.len() as int) != b
                },
            },
    {
        let ghost b = texts(base@);
        let ghost p = texts(self.path@);
        if base.len() > self.path.len() {
            return None;
        }
        let mut i: usize = 0;
        while i < base.len()
            invariant
                base@.len() <= self.path@.len(),
                i <= base@.len(),
                b == texts(base@),
                p == texts(self.path@),
                p.take(i as int) =~= b.take(i as int),
            decreases base@.len() - i,
        {
            if base[i] != self.path[i] {
                proof {
                    assert(p.take(b.len() as int)[i as int] != b[i as int]);
                }
                return None;
            }
            proof {
                assert(p.take(i + 1) =~= b.take(i + 1));
            }
            i = i + 1;
        }
        let mut rest: Vec<String> = Vec::new();
        let mut j: usize = base.len();
        while j < self.path.len()
            invariant
                base@.len() <= j <= self.path@.len(),
                p == texts(self.path@),
                texts(rest@) =~= p.subrange(base@.len() as int, j as int),
            decreases self.path@.len() - j,
        {
            let item = self.path[j].clone();
            let ghost before = rest@;
            rest.push(item);
            proof {
                assert(rest@ == before.push(item));
                lemma_texts_push(before, item);
                assert(p.subrange(base@.len() as int, j + 1) =~= p.subrange(base@.len() as int, j as int).push(item@));
                assert(texts(rest@) =~= p.subrange(base@.len() as int, j + 1));
            }
            j = j + 1;
        }
        proof {
            assert(p.take(b.len() as int) =~= b);
        }
        Some(rest)
    }

    /// The template as text: its category, then its name (`"Global/Windows"`).
    pub fn to_string(&self) -> (r: String)
        ensures
            r@ == category_text(self@.category) + self@.name,
    {
        let mut out = self.category.to_string();
        out.append(self.name.as_str());
        out
    }
}

} // verus!
