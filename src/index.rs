//! The flat index of a mirror directory's template files: lower-cased name
//! to name.
use vstd::prelude::*;

use crate::matching::{lower_of, lowercase};

verus! {

/// The suffix of a template file name.
pub open spec fn suffix() -> Seq<char> {
    seq!['.', 'g', 'i', 't', 'i', 'g', 'n', 'o', 'r', 'e']
}

/// Whether `f` ends with the template suffix.
pub open spec fn ends_with_suffix(f: Seq<char>) -> bool {
    f.len() >= suffix().len() && f.subrange(f.len() - suffix().len(), f.len() as int) == suffix()
}

/// Position of the first `'.'` of `f` at or after `from` (`f.len()` when there is none).
pub open spec fn first_dot_from(f: Seq<char>, from: int) -> int
    decreases f.len() - from,
{
    if from >= f.len() {
        f.len() as int
    } else if f[from] == '.' {
        from
    } else {
        first_dot_from(f, from + 1)
    }
}

/// The part of `f` before its first `'.'`.
pub open spec fn before_first_dot(f: Seq<char>) -> Seq<char> {
    f.subrange(0, first_dot_from(f, 0))
}

/// Position of the entry with key `key`, if any.
pub open spec fn key_position(entries: Seq<(Seq<char>, Seq<char>)>, key: Seq<char>) -> Option<int>
    decreases entries.len(),
{
    if entries.len() == 0 {
        None
    } else if entries.last().0 == key {
        Some(entries.len() - 1)
    } else {
        key_position(entries.drop_last(), key)
    }
}

/// `entries` with `key` mapped to `value`: replaced in place when present,
/// appended otherwise.
pub open spec fn upsert(entries: Seq<(Seq<char>, Seq<char>)>, key: Seq<char>, value: Seq<char>) -> Seq<(Seq<char>, Seq<char>)> {
    match key_position(entries, key) {
        Some(i) => entries.update(i, (key, value)),
        None => entries.push((key, value)),
    }
}

/// The index of the first `k` file names: every name ending with the
/// template suffix maps its lower-cased part before the first dot to that
/// part; a later file with the same key replaces the earlier one's value.
pub open spec fn index_of(names: Seq<Seq<char>>, k: int) -> Seq<(Seq<char>, Seq<char>)>
    decreases k,
{
    if k <= 0 {
        Seq::empty()
    } else {
        let before = index_of(names, k - 1);
        let f = names[k - 1];
        if ends_with_suffix(f) {
            upsert(before, lower_of(before_first_dot(f)), before_first_dot(f))
        } else {
            before
        }
    }
}

/// The views of the index entries.
pub open spec fn entry_views(v: Seq<(String, String)>) -> Seq<(Seq<char>, Seq<char>)> {
    v.map_values(|e: (String, String)| (e.0@, e.1@))
}

proof fn lemma_entry_views_push(v: Seq<(String, String)>, e: (String, String))
    ensures
        entry_views(v.push(e)) == entry_views(v).push((e.0@, e.1@)),
{
    assert(entry_views(v.push(e)) =~= entry_views(v).push((e.0@, e.1@)));
}

proof fn lemma_entry_views_update(v: Seq<(String, String)>, i: int, e: (String, String))
    requires
        0 <= i < v.len(),
    ensures
        entry_views(v.update(i, e)) == entry_views(v).update(i, (e.0@, e.1@)),
{
    assert(entry_views(v.update(i, e)) =~= entry_views(v).update(i, (e.0@, e.1@)));
}

/// Position of the entry with key `key` in `entries`.
fn find_key(entries: &Vec<(String, String)>, key: &String) -> (r: Option<usize>)
    ensures
        (match r {
            Some(i) => key_position(entry_views(entries@), key@) == Some(i as int) && i < entries@.len(),
            None => key_position(entry_views(entries@), key@) is None,
        }),
{
    let ghost ev = entry_views(entries@);
    let mut i: usize = entries.len();
    assert(ev.take(i as int) =~= ev);
    while i > 0
        invariant
            i <= entries@.len(),
            ev == entry_views(entries@),
            key_position(ev, key@) == key_position(ev.take(i as int), key@),
        decreases i,
    {
        assert(ev.take(i as int).drop_last() =~= ev.take(i - 1));
        if entries[i - 1].0 == *key {
            return Some(i - 1);
        }
        i = i - 1;
    }
    None
}

/// Whether `f` ends with the template suffix.
fn has_suffix(f: &str) -> (r: bool)
    ensures
        r == ends_with_suffix(f@),
{
    let n = f.unicode_len();
    if n < 10 {
        return false;
    }
    let tail = String::from_str(f.substring_char(n - 10, n));
    let wanted = String::from_str(".gitignore");
    proof {
        reveal_strlit(".gitignore");
        assert(".gitignore"@ =~= suffix());
    }
    tail == wanted
}

/// The part of `f` before its first dot.
fn name_before_dot(f: &str) -> (r: String)
    ensures
        r@ == before_first_dot(f@),
{
    let n = f.unicode_len();
    let mut i: usize = 0;
    while i < n
        invariant
            n == f@.len(),
            i <= n,
            forall|j: int| 0 <= j < i ==> f@[j] != '.',
            first_dot_from(f@, 0) == first_dot_from(f@, i as int),
        ensures
            i < n ==> f@[i as int] == '.',
            i <= n,
            first_dot_from(f@, 0) == first_dot_from(f@, i as int),
        decreases n - i,
    {
        if f.get_char(i) == '.' {
            break;
        }
        i = i + 1;
    }
    String::from_str(f.substring_char(0, i))
}

/// The index of the template files among `file_names`: lower-cased name to
/// name, one entry per key in the order keys first appear; for a repeated
/// key the last file wins.
///
/// The index is a vector of pairs with distinct keys rather than a
/// `HashMap<String, String>`: with `String` keys vstd's `HashMap`
/// specification lets nothing be proved of the contents, and the order in
/// which a `HashMap` is walked is not determined, so the contract could not
/// say what the index holds.
pub fn get_templates(file_names: &Vec<String>) -> (r: Vec<(String, String)>)
    ensures
        entry_views(r@) == index_of(file_names@.map_values(|s: String| s@), file_names@.len() as int),
{
    let ghost names = file_names@.map_values(|s: String| s@);
    let mut entries: Vec<(String, String)> = Vec::new();
    let mut k: usize = 0;
    while k < file_names.len()
        invariant
            k <= file_names@.len(),
            names == file_names@.map_values(|s: String| s@),
            entry_views(entries@) == index_of(names, k as int),
        decreases file_names@.len() - k,
    {
        let f = file_names[k].as_str();
        assert(names[k as int] == f@);
        if has_suffix(f) {
            let name = name_before_dot(f);
            let key = lowercase(name.as_str());
            match find_key(&entries, &key) {
                Some(i) => {
                    let ghost before = entries@;
                    entries.set(i, (key, name));
                    proof {
                        lemma_entry_views_update(before, i as int, (key, name));
                    }
                },
                None => {
                    let ghost before = entries@;
                    entries.push((key, name));
                    proof {
                        lemma_entry_views_push(before, (key, name));
                    }
                },
            }
        }
        k = k + 1;
    }
    entries
}

} // verus!
