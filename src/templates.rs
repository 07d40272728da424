//! Templates bundled with the program: each gitignore file of a bundle
//! directory, together with a patch file that amends it, if there is one.
use vstd::prelude::*;

use crate::names::{file_extension, file_stem, has_extension, stem_of};

verus! {

/// A file of a bundle directory: its name and its contents.
#[derive(Debug, PartialEq, Eq)]
pub struct EmbeddedFile {
    pub path: String,
    pub contents: Vec<u8>,
}

/// A file as a value: its name and its contents.
pub open spec fn file_view(f: EmbeddedFile) -> (Seq<char>, Seq<u8>) {
    (f.path@, f.contents@)
}

impl Clone for EmbeddedFile {
    fn clone(&self) -> (r: Self)
        ensures
            file_view(r) == file_view(*self),
    {
        let contents = self.contents.clone();
        assert(contents@ =~= self.contents@);
        EmbeddedFile { path: self.path.clone(), contents }
    }
}

/// A bundle directory: its files.
#[derive(Debug)]
pub struct EmbeddedDir {
    pub files: Vec<EmbeddedFile>,
}

impl EmbeddedDir {
    /// The files of a directory have distinct names.
    pub open spec fn wf(&self) -> bool {
        forall|i: int, j: int| 0 <= i < j < self.files@.len() ==> self.files@[i].path@ != self.files@[j].path@
    }
}

/// The name of the gitignore file that a bundle file `name` belongs to.
pub open spec fn companion(name: Seq<char>) -> Seq<char> {
    file_stem(name) + seq!['.', 'g', 'i', 't', 'i', 'g', 'n', 'o', 'r', 'e']
}

/// Whether a bundle file is a patch (`Some(true)`), a gitignore file
/// (`Some(false)`), or neither.
pub open spec fn bundle_kind(name: Seq<char>) -> Option<bool> {
    if file_extension(name) == Some(seq!['p', 'a', 't', 'c', 'h']) {
        Some(true)
    } else if file_extension(name) == Some(seq!['g', 'i', 't', 'i', 'g', 'n', 'o', 'r', 'e']) {
        Some(false)
    } else {
        None
    }
}

/// Position of the first of `names` equal to `name`.
pub open spec fn first_named(names: Seq<Seq<char>>, name: Seq<char>) -> Option<int>
    decreases names.len(),
{
    if names.len() == 0 {
        None
    } else {
        match first_named(names.drop_last(), name) {
            Some(i) => Some(i),
            None => if names.last() == name { Some(names.len() - 1) } else { None },
        }
    }
}

/// The templates the first `k` files of a bundle with file names `names`
/// give, as (position of the gitignore file, position of the patch file).
pub open spec fn bundle_plan(names: Seq<Seq<char>>, k: int) -> Seq<(int, Option<int>)>
    decreases k,
{
    if k <= 0 {
        Seq::empty()
    } else {
        let before = bundle_plan(names, k - 1);
        let name = names[k - 1];
        match bundle_kind(name) {
            None => before,
            Some(is_patch) => match first_named(names, companion(name)) {
                None => before,
                Some(g) => before.push((g, if is_patch { Some(k - 1) } else { None })),
            },
        }
    }
}

/// The names of the files.
pub open spec fn file_names(files: Seq<EmbeddedFile>) -> Seq<Seq<char>> {
    files.map_values(|f: EmbeddedFile| f.path@)
}

/// `ts` are the templates of the bundle directory `dir`: one for each entry of
/// its plan, with the gitignore file and the patch that the entry names.
pub open spec fn bundled_from(ts: Seq<Template>, dir: EmbeddedDir) -> bool {
    let plan = bundle_plan(file_names(dir.files@), dir.files@.len() as int);
    &&& ts.len() == plan.len()
    &&& forall|i: int| 0 <= i < ts.len() ==> {
        let (g, p) = #[trigger] plan[i];
        &&& ts[i].spec_file() == file_view(dir.files@[g])
        &&& ts[i].spec_patch() == (match p {
            Some(pi) => Some(file_view(dir.files@[pi])),
            None => None,
        })
    }
}

/// A bundled template: a gitignore file, and the patch that amends it.
#[derive(Debug, PartialEq, Eq)]
pub struct Template {
    file: EmbeddedFile,
    patch: Option<EmbeddedFile>,
}

/// The file of an optional file, as a value.
pub open spec fn patch_view(p: Option<EmbeddedFile>) -> Option<(Seq<char>, Seq<u8>)> {
    match p {
        Some(f) => Some(file_view(f)),
        None => None,
    }
}

impl Template {
    pub closed spec fn spec_file(&self) -> (Seq<char>, Seq<u8>) {
        file_view(self.file)
    }

    pub closed spec fn spec_patch(&self) -> Option<(Seq<char>, Seq<u8>)> {
        patch_view(self.patch)
    }

    pub fn file(&self) -> (r: &EmbeddedFile)
        ensures
            file_view(*r) == self.spec_file(),
    {
        &self.file
    }

    pub fn patch(&self) -> (r: Option<&EmbeddedFile>)
        ensures
            (match r {
                Some(f) => self.spec_patch() == Some(file_view(*f)),
                None => self.spec_patch() is None,
            }),
    {
        match &self.patch {
            Some(f) => Some(f),
            None => None,
        }
    }

    /// The templates of a bundle directory: one for each patch or gitignore
    /// file whose gitignore file is present, in the order of the files.
    ///
    /// Files are paired through the ordered plan `bundle_plan` rather than a
    /// `HashMap` keyed by file name: with `String` keys vstd's `HashMap`
    /// specification lets nothing be proved of the contents, and a
    /// `HashMap`'s walking order is not determined, so the result's order
    /// could not be stated.
    pub fn from_dir(dir: &EmbeddedDir) -> (r: Vec<Template>)
        requires
            dir.wf(),
        ensures
            bundled_from(r@, *dir),
    {
        let ghost names = file_names(dir.files@);
        let n = dir.files.len();
        let mut out: Vec<Template> = Vec::new();
        let mut k: usize = 0;
        while k < n
            invariant
                n == dir.files@.len(),
                k <= n,
                names == file_names(dir.files@),
                out@.len() == bundle_plan(names, k as int).len(),
                forall|i: int| 0 <= i < out@.len() ==> {
                    let (g, p) = #[trigger] bundle_plan(names, k as int)[i];
                    &&& 0 <= g < n
                    &&& out@[i].spec_file() == file_view(dir.files@[g])
                    &&& out@[i].spec_patch() == (match p {
                        Some(pi) => Some(file_view(dir.files@[pi])),
                        None => None,
                    })
                },
            decreases n - k,
        {
            let name = dir.files[k].path.as_str();
            let is_patch = has_extension(name, "patch");
            let is_gitignore = has_extension(name, "gitignore");
            proof {
                reveal_strlit("patch");
                reveal_strlit("gitignore");
                assert("patch"@ =~= seq!['p', 'a', 't', 'c', 'h']);
                assert("gitignore"@ =~= seq!['g', 'i', 't', 'i', 'g', 'n', 'o', 'r', 'e']);
                assert(names[k as int] == name@);
            }
            if is_patch || is_gitignore {
                let mut wanted = stem_of(name);
                wanted.append(".gitignore");
                proof {
                    reveal_strlit(".gitignore");
                    assert(".gitignore"@ =~= seq!['.', 'g', 'i', 't', 'i', 'g', 'n', 'o', 'r', 'e']);
                    assert(wanted@ == companion(name@));
                }
                let found = find_named(dir, &wanted);
                match found {
                    Some(g) => {
                        let patch = if is_patch { Some(dir.files[k].clone()) } else { None };
                        let t = Template { file: dir.files[g].clone(), patch };
                        let ghost before = out@;
                        out.push(t);
                        proof {
                            assert forall|i: int| 0 <= i < out@.len() implies {
                                let (g2, p2) = #[trigger] bundle_plan(names, k + 1)[i];
                                &&& 0 <= g2 < n
                                &&& out@[i].spec_file() == file_view(dir.files@[g2])
                                &&& out@[i].spec_patch() == (match p2 {
                                    Some(pi) => Some(file_view(dir.files@[pi])),
                                    None => None,
                                })
                            } by {
                                if i < before.len() {
                                    assert(out@[i] == before[i]);
                                    assert(bundle_plan(names, k + 1)[i] == bundle_plan(names, k as int)[i]);
                                }
                            }
                        }
                    },
                    None => {},
                }
            }
            k = k + 1;
        }
        out
    }
}

/// Position of the first file of `dir` named `name`.
fn find_named(dir: &EmbeddedDir, name: &String) -> (r: Option<usize>)
    ensures
        (match r {
            Some(g) => first_named(file_names(dir.files@), name@) == Some(g as int) && g < dir.files@.len(),
            None => first_named(file_names(dir.files@), name@) is None,
        }),
{
    let ghost names = file_names(dir.files@);
    let mut j: usize = 0;
    while j < dir.files.len()
        invariant
            j <= dir.files@.len(),
            names == file_names(dir.files@),
            first_named(names.take(j as int), name@) is None,
        decreases dir.files@.len() - j,
    {
        assert(names.take(j + 1).drop_last() =~= names.take(j as int));
        if dir.files[j].path == *name {
            proof {
                lemma_first_named_prefix(names, j as int + 1, j as int, name@);
            }
            return Some(j);
        }
        j = j + 1;
    }
    assert(names.take(j as int) =~= names);
    None
}

proof fn lemma_first_named_prefix(names: Seq<Seq<char>>, k: int, g: int, name: Seq<char>)
    requires
        0 < k <= names.len(),
        first_named(names.take(k), name) == Some(g),
    ensures
        first_named(names, name) == Some(g),
    decreases names.len() - k,
{
    if k < names.len() {
        assert(names.take(k + 1).drop_last() =~= names.take(k));
        lemma_first_named_prefix(names, k + 1, g, name);
    } else {
        assert(names.take(k) =~= names);
    }
}

/// The templates bundled with the program.
#[derive(Debug, PartialEq, Eq)]
pub struct Templates(Vec<Template>);

impl Templates {
    pub closed spec fn spec_templates(&self) -> Seq<Template> {
        self.0@
    }

    /// The bundled templates of `dir`, as `Template::from_dir` finds them.
    pub fn from_dir(dir: &EmbeddedDir) -> (r: Templates)
        requires
            dir.wf(),
        ensures
            bundled_from(r.spec_templates(), *dir),
    {
        Templates(Template::from_dir(dir))
    }

    pub fn list_templates(&self) -> (r: &[Template])
        ensures
            r@ == self.spec_templates(),
    {
        self.0.as_slice()
    }
}

} // verus!
