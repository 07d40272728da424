//! File-name rules of the mirror: the extension that marks a template and
//! the stem that names it.
use vstd::prelude::*;

verus! {

/// Index of the last `'.'` in `f` at or after `from`, or -1 if there is none.
pub open spec fn last_dot_from(f: Seq<char>, from: int) -> int
    decreases f.len() - from,
{
    if from >= f.len() {
        -1
    } else {
        let rest = last_dot_from(f, from + 1);
        if rest >= 0 {
            rest
        } else if f[from] == '.' {
            from
        } else {
            -1
        }
    }
}

/// Index of the dot that starts the file name's extension: the last dot,
/// provided it is not the first character; -1 when the name has no extension.
pub open spec fn extension_dot(f: Seq<char>) -> int {
    let d = last_dot_from(f, 0);
    if d > 0 {
        d
    } else {
        -1
    }
}

/// The file name without its extension (the whole name when it has none).
pub open spec fn file_stem(f: Seq<char>) -> Seq<char> {
    let d = extension_dot(f);
    if d > 0 {
        f.subrange(0, d)
    } else {
        f
    }
}

/// The extension of a file name, when it has one.
pub open spec fn file_extension(f: Seq<char>) -> Option<Seq<char>> {
    let d = extension_dot(f);
    if d > 0 {
        Some(f.subrange(d + 1, f.len() as int))
    } else {
        None
    }
}

/// The extension that marks a file of the mirror as a template.
pub open spec fn template_extension() -> Seq<char> {
    seq!['g', 'i', 't', 'i', 'g', 'n', 'o', 'r', 'e']
}

/// Whether a file of the mirror is a template.
pub open spec fn is_template_file(f: Seq<char>) -> bool {
    file_extension(f) == Some(template_extension())
}

proof fn lemma_last_dot_range(f: Seq<char>, from: int)
    requires
        0 <= from,
    ensures
        last_dot_from(f, from) == -1 || (from <= last_dot_from(f, from) < f.len() && f[last_dot_from(f, from)] == '.'),
    decreases f.len() - from,
{
    if from < f.len() {
        lemma_last_dot_range(f, from + 1);
    }
}

/// Position of the dot that starts the extension of `f`, if it has one.
fn find_extension_dot(f: &str) -> (r: Option<usize>)
    ensures
        match r {
            Some(d) => d as int == extension_dot(f@) && 0 < d < f@.len(),
            None => extension_dot(f@) == -1,
        },
{
    let n = f.unicode_len();
    let mut i: usize = n;
    proof {
        lemma_last_dot_range(f@, 0);
    }
    // Scan from the end: the first dot met is the last one.
    while i > 0
        invariant
            i <= n == f@.len(),
            forall|j: int| i <= j < n ==> f@[j] != '.',
        decreases i,
    {
        if f.get_char(i - 1) == '.' {
            proof {
                lemma_last_dot_is(f@, (i - 1) as int, 0);
            }
            if i - 1 > 0 {
                return Some(i - 1);
            } else {
                return None;
            }
        }
        i = i - 1;
    }
    proof {
        lemma_no_dot(f@, 0);
    }
    None
}

proof fn lemma_last_dot_is(f: Seq<char>, d: int, from: int)
    requires
        0 <= from <= d < f.len(),
        f[d] == '.',
        forall|j: int| d < j < f.len() ==> f[j] != '.',
    ensures
        last_dot_from(f, from) == d,
    decreases f.len() - from,
{
    lemma_no_dot(f, d + 1);
    if from < d {
        lemma_last_dot_is(f, d, from + 1);
    }
}

proof fn lemma_no_dot(f: Seq<char>, from: int)
    requires
        0 <= from,
        forall|j: int| from <= j < f.len() ==> f[j] != '.',
    ensures
        last_dot_from(f, from) == -1,
    decreases f.len() - from,
{
    if from < f.len() {
        lemma_no_dot(f, from + 1);
    }
}

/// The stem of a file name: `"Go.gitignore"` gives `"Go"`.
pub fn stem_of(f: &str) -> (r: String)
    ensures
        r@ == file_stem(f@),
{
    match find_extension_dot(f) {
        Some(d) => String::from_str(f.substring_char(0, d)),
        None => String::from_str(f),
    }
}

/// Whether the file name `f` has the extension `ext`.
pub fn has_extension(f: &str, ext: &str) -> (r: bool)
    ensures
        r == (file_extension(f@) == Some(ext@)),
{
    match find_extension_dot(f) {
        Some(d) => {
            let n = f.unicode_len();
            let found = String::from_str(f.substring_char(d + 1, n));
            let wanted = String::from_str(ext);
            found == wanted
        },
        None => false,
    }
}

/// Whether a file name carries the template extension.
pub fn has_template_extension(f: &str) -> (r: bool)
    ensures
        r == is_template_file(f@),
{
    proof {
        reveal_strlit("gitignore");
        assert("gitignore"@ =~= template_extension());
    }
    has_extension(f, "gitignore")
}

} // verus!
