//! The template list as served over HTTP: a comma-separated list of names,
//! and the files downloaded for them.
use vstd::prelude::*;

use crate::template::{lemma_texts_push, texts};
use crate::text::push_char;

verus! {

/// A downloaded template file: its name and its contents.
#[derive(Debug)]
pub struct GitignoreFile {
    path: String,
    bytes: Vec<u8>,
}

impl GitignoreFile {
    pub closed spec fn name(&self) -> Seq<char> {
        self.path@
    }

    pub closed spec fn contents(&self) -> Seq<u8> {
        self.bytes@
    }

    pub fn new(path: String, bytes: Vec<u8>) -> (r: GitignoreFile)
        ensures
            r.name() == path@,
            r.contents() == bytes@,
    {
        GitignoreFile { path, bytes }
    }

    /// Where the file goes below `base`: `base` with the file's name appended.
    pub fn path(&self, base: &Vec<String>) -> (r: Vec<String>)
        ensures
            texts(r@) == texts(base@).push(self.name()),
    {
        let mut r = base.clone();
        assert(r@ =~= base@);
        let ghost before = r@;
        r.push(self.path.clone());
        proof {
            lemma_texts_push(before, self.path);
        }
        r
    }

    pub fn bytes(&self) -> (r: &[u8])
        ensures
            r@ == self.contents(),
    {
        self.bytes.as_slice()
    }
}

/// The files fetched from the template service.
#[derive(Debug)]
pub struct GithubApi {
    pub response: Vec<GitignoreFile>,
}

/// The pieces of `s` between commas, in order (one piece when there is no comma).
pub open spec fn split_commas(s: Seq<char>) -> Seq<Seq<char>>
    decreases s.len(),
{
    if s.len() == 0 {
        seq![Seq::empty()]
    } else {
        let init = split_commas(s.drop_last());
        if s.last() == ',' {
            init.push(Seq::empty())
        } else {
            init.update(init.len() - 1, init.last().push(s.last()))
        }
    }
}

proof fn lemma_split_nonempty(s: Seq<char>)
    ensures
        split_commas(s).len() > 0,
    decreases s.len(),
{
    if s.len() > 0 {
        lemma_split_nonempty(s.drop_last());
    }
}

/// The template names of a comma-separated list, as the service sends it.
pub fn parse_template_list(text: &str) -> (r: Vec<String>)
    ensures
        texts(r@) == split_commas(text@),
{
    let n = text.unicode_len();
    let mut pieces: Vec<String> = Vec::new();
    let mut current = String::new();
    let mut i: usize = 0;
    assert(text@.take(0) =~= Seq::<char>::empty());
    while i < n
        invariant
            n == text@.len(),
            i <= n,
            texts(pieces@).push(current@) == split_commas(text@.take(i as int)),
        decreases n - i,
    {
        let c = text.get_char(i);
        let ghost prev = text@.take(i as int);
        assert(text@.take(i + 1).drop_last() =~= prev);
        proof {
            lemma_split_nonempty(prev);
        }
        if c == ',' {
            let ghost before = pieces@;
            let done = current;
            pieces.push(done);
            current = String::new();
            proof {
                lemma_texts_push(before, done);
            }
        } else {
            push_char(&mut current, c);
            proof {
                assert(texts(pieces@).push(current@) =~= split_commas(prev).update(split_commas(prev).len() - 1, split_commas(prev).last().push(c)));
            }
        }
        i = i + 1;
    }
    assert(text@.take(n as int) =~= text@);
    let ghost before = pieces@;
    pieces.push(current);
    proof {
        lemma_texts_push(before, current);
    }
    pieces
}

} // verus!
