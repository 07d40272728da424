//! The picker: a state machine over the template tree that turns key presses
//! into moves of the cursor, edits of the search term, and descents into and
//! ascents out of folders, until a template is chosen or the user cancels.
use vstd::prelude::*;

use crate::matching::{
    fuzzy_accepts, lemma_accepts_shorter, fuzzy_indices, is_ranking, lower_of, lowercase, rank_matches, skim_match,
};
use crate::template::{texts, Template, TemplateView};
use crate::text::{pop_char, push_char};
use crate::tree::{descendant, lemma_descendant_push, Folder};

verus! {

/// The fuzzy score of each entry of `f` for `term`; `None` where the search rejects it.
pub open spec fn scores_for(f: Folder, term: Seq<char>) -> Seq<Option<i64>> {
    Seq::new(
        f.item_count(),
        |k: int|
            if fuzzy_accepts(f.item_name(k), term) {
                Some(skim_match(f.item_name(k), term).0)
            } else {
                None
            },
    )
}

/// The lower-cased name of each entry of `f`.
pub open spec fn keys_for(f: Folder) -> Seq<Seq<char>> {
    Seq::new(f.item_count(), |k: int| lower_of(f.item_name(k)))
}

/// `order` is the visible list of `f` for `term`: the entries that the fuzzy
/// search accepts, each once, by descending score, then by lower-cased name.
pub open spec fn is_visible_list(order: Seq<usize>, f: Folder, term: Seq<char>) -> bool {
    is_ranking(order, scores_for(f, term), keys_for(f))
}

/// The visible list of `f` for `term`, as positions of its entries.
pub fn visible_order(f: &Folder, term: &str) -> (r: Vec<usize>)
    ensures
        is_visible_list(r@, *f, term@),
{
    let items = f.list_items();
    let mut scores: Vec<Option<i64>> = Vec::new();
    let mut keys: Vec<String> = Vec::new();
    let mut k: usize = 0;
    while k < items.len()
        invariant
            items@.len() == f.item_count(),
            forall|j: int| 0 <= j < items@.len() ==> (#[trigger] items@[j]).spec_name() == f.item_name(j),
            k <= items@.len(),
            scores@.len() == k,
            keys@.len() == k,
            forall|j: int| 0 <= j < k ==> #[trigger] scores@[j] == scores_for(*f, term@)[j],
            forall|j: int| 0 <= j < k ==> #[trigger] keys@[j]@ == keys_for(*f)[j],
        decreases items@.len() - k,
    {
        let name = items[k].name();
        match fuzzy_indices(name, term) {
            Some(m) => scores.push(Some(m.0)),
            None => scores.push(None),
        }
        keys.push(lowercase(name));
        k = k + 1;
    }
    assert(scores@ =~= scores_for(*f, term@));
    assert(texts(keys@) =~= keys_for(*f));
    rank_matches(&scores, &keys)
}

/// A key press, as far as the picker tells keys apart.
#[derive(Debug, Clone, Copy, PartialEq, Eq)]
pub enum Key {
    /// A printable character: extends the search term.
    Char(char),
    /// Removes the last character of the search term.
    Backspace,
    Up,
    Down,
    /// Descends into the folder under the cursor, or chooses the template there.
    Enter,
    /// Descends into the folder under the cursor; does nothing on a template.
    Right,
    /// Goes back to the folder the last descent came from.
    Left,
    /// Ends the session without a choice.
    Cancel,
    /// Any other key: no effect.
    Other,
}

/// Where the picker stood: a folder (subfolder positions from the root), the
/// cursor, and the search term.
pub struct Visit {
    pub folder: Seq<usize>,
    pub cursor: int,
    pub term: Seq<char>,
}

/// What a descent records so that the matching ascent can restore it.
#[derive(Debug)]
pub struct HistoryEntry {
    pub folder: Vec<usize>,
    pub selection: usize,
    pub search_term: String,
}

impl HistoryEntry {
    pub open spec fn visit(&self) -> Visit {
        Visit { folder: self.folder@, cursor: self.selection as int, term: self.search_term@ }
    }
}

/// The picker as a value: where it stands, and the visits it can go back to.
pub struct PickerModel {
    pub at: Visit,
    pub history: Seq<Visit>,
}

/// The cursor after moving down once in a list of `n` entries: wraps to the top.
pub open spec fn cursor_down(c: int, n: int) -> int {
    if n > 0 {
        (c + 1) % n
    } else {
        c
    }
}

/// The cursor after moving up once in a list of `n` entries: wraps to the bottom.
pub open spec fn cursor_up(c: int, n: int) -> int {
    if n > 0 {
        (c - 1 + n) % n
    } else {
        c
    }
}

/// The cursor kept if still in a list of `n` entries, else the last entry.
pub open spec fn clamp_cursor(c: int, n: int) -> int {
    if c < n {
        c
    } else if n > 0 {
        n - 1
    } else {
        0
    }
}

/// A cursor that points into a list of `n` entries (0 when the list is empty).
pub open spec fn cursor_fits(c: int, n: int) -> bool {
    (n == 0 && c == 0) || (0 <= c < n)
}

proof fn lemma_wrap(c: int, n: int)
    requires
        cursor_fits(c, n),
    ensures
        n > 0 ==> cursor_up(c, n) == if c == 0 { n - 1 } else { c - 1 },
        n > 0 ==> cursor_down(c, n) == if c == n - 1 { 0 } else { c + 1 },
{
    if n > 0 {
        vstd::arithmetic::div_mod::lemma_mod_self_0(n);
        if c == 0 {
            vstd::arithmetic::div_mod::lemma_small_mod((n - 1) as nat, n as nat);
        } else {
            vstd::arithmetic::div_mod::lemma_mod_add_multiples_vanish(c - 1, n);
            vstd::arithmetic::div_mod::lemma_small_mod((c - 1) as nat, n as nat);
        }
        if c + 1 < n {
            vstd::arithmetic::div_mod::lemma_small_mod((c + 1) as nat, n as nat);
        }
    }
}

/// The folder a model stands in.
pub open spec fn folder_of(root: Folder, m: PickerModel) -> Folder {
    descendant(root, m.at.folder)->0
}

/// The model with only the cursor changed.
pub open spec fn with_cursor(m: PickerModel, c: int) -> PickerModel {
    PickerModel { at: Visit { cursor: c, ..m.at }, history: m.history }
}

/// The model with the search term changed and the cursor fitted to a list of `n`.
pub open spec fn with_term(m: PickerModel, term: Seq<char>, n: int) -> PickerModel {
    PickerModel {
        at: Visit { folder: m.at.folder, cursor: clamp_cursor(m.at.cursor, n), term },
        history: m.history,
    }
}

/// What one key press does. `m` is the picker before, `vis` its visible list,
/// `m2` the picker after and `n2` the length of its visible list; `quit` and
/// `chosen` are what the press returns.
pub open spec fn key_effect(
    root: Folder,
    m: PickerModel,
    key: Key,
    vis: Seq<usize>,
    m2: PickerModel,
    n2: int,
    quit: bool,
    chosen: Option<TemplateView>,
) -> bool {
    let f = folder_of(root, m);
    match key {
        Key::Cancel => m2 == m && quit && chosen is None,
        Key::Up => m2 == with_cursor(m, cursor_up(m.at.cursor, vis.len() as int)) && !quit && chosen is None,
        Key::Down => m2 == with_cursor(m, cursor_down(m.at.cursor, vis.len() as int)) && !quit && chosen is None,
        Key::Char(c) => m2 == with_term(m, m.at.term.push(c), n2) && !quit && chosen is None,
        Key::Backspace => {
            &&& !quit && chosen is None
            &&& if m.at.term.len() == 0 {
                m2 == m
            } else {
                m2 == with_term(m, m.at.term.drop_last(), n2)
            }
        },
        Key::Enter | Key::Right => {
            if vis.len() == 0 {
                m2 == m && !quit && chosen is None
            } else {
                let k = vis[m.at.cursor];
                if k < f.folders@.len() {
                    &&& m2.at == Visit { folder: m.at.folder.push(k), cursor: 0, term: Seq::empty() }
                    &&& m2.history == m.history.push(m.at)
                    &&& !quit && chosen is None
                } else if key is Enter {
                    m2 == m && quit && chosen == Some(f.files@[k - f.folders@.len()]@)
                } else {
                    m2 == m && !quit && chosen is None
                }
            }
        },
        Key::Left => {
            &&& !quit && chosen is None
            &&& if m.history.len() == 0 {
                m2 == m
            } else {
                m2 == PickerModel { at: m.history.last(), history: m.history.drop_last() }
            }
        },
        Key::Other => m2 == m && !quit && chosen is None,
    }
}

/// The view of a chosen template, if any.
pub open spec fn chosen_view(t: Option<Template>) -> Option<TemplateView> {
    match t {
        Some(t) => Some(t@),
        None => None,
    }
}

/// Two visible lists of the same folder for the same term have the same length.
pub proof fn lemma_rankings_same_len(
    o1: Seq<usize>,
    o2: Seq<usize>,
    scores: Seq<Option<i64>>,
    keys: Seq<Seq<char>>,
)
    requires
        is_ranking(o1, scores, keys),
        is_ranking(o2, scores, keys),
    ensures
        o1.len() == o2.len(),
{
    assert(o1.to_set() =~= o2.to_set()) by {
        assert forall|x: usize| o1.to_set().contains(x) <==> o2.to_set().contains(x) by {
            assert(o1.contains(x) <==> o2.contains(x));
        }
    }
    assert(o1.no_duplicates());
    assert(o2.no_duplicates());
    o1.unique_seq_to_set();
    o2.unique_seq_to_set();
}

/// A history entry that the picker can return to: it records the folder
/// reached by the first `i` steps of the current path, and a cursor that fits
/// that folder's visible list for the recorded term.
pub open spec fn history_fits(root: Folder, path: Seq<usize>, i: int, v: Visit) -> bool {
    &&& v.folder == path.take(i)
    &&& forall|o: Seq<usize>| #[trigger] is_visible_list(o, descendant(root, v.folder)->0, v.term) ==> cursor_fits(v.cursor, o.len() as int)
}

proof fn lemma_descendant_prefix(f: Folder, path: Seq<usize>, i: int)
    requires
        descendant(f, path) is Some,
        0 <= i <= path.len(),
    ensures
        descendant(f, path.take(i)) is Some,
    decreases path.len(),
{
    if i > 0 {
        assert(path.take(i).drop_first() =~= path.drop_first().take(i - 1));
        lemma_descendant_prefix(f.folders@[path[0] as int], path.drop_first(), i - 1);
    } else {
        assert(path.take(i) =~= Seq::<usize>::empty());
    }
}

/// The picker's state. The visible list is recomputed whenever the folder or
/// the search term changes.
pub struct State {
    /// The root of the template tree; never changed.
    pub root: Folder,
    /// The current folder, as subfolder positions from the root.
    pub current: Vec<usize>,
    pub search_term: String,
    /// Position in the visible list.
    pub cursor: usize,
    /// One entry per descent, oldest first.
    pub history: Vec<HistoryEntry>,
    /// The visible list: positions of the current folder's entries.
    pub visible: Vec<usize>,
}

impl State {
    pub open spec fn model(&self) -> PickerModel {
        PickerModel {
            at: Visit { folder: self.current@, cursor: self.cursor as int, term: self.search_term@ },
            history: self.history@.map_values(|h: HistoryEntry| h.visit()),
        }
    }

    /// The folder the picker stands in.
    pub open spec fn folder(&self) -> Folder {
        descendant(self.root, self.current@)->0
    }

    pub open spec fn wf(&self) -> bool {
        &&& descendant(self.root, self.current@) is Some
        &&& is_visible_list(self.visible@, self.folder(), self.search_term@)
        &&& cursor_fits(self.cursor as int, self.visible@.len() as int)
        &&& self.history@.len() == self.current@.len()
        &&& forall|i: int| 0 <= i < self.history@.len() ==> history_fits(self.root, self.current@, i, #[trigger] self.history@[i].visit())
    }

    /// The picker at the root: empty search term, cursor on the first entry,
    /// no history.
    pub fn new(root: Folder) -> (r: State)
        ensures
            r.wf(),
            r.root == root,
            r.model().at == (Visit { folder: Seq::empty(), cursor: 0, term: Seq::empty() }),
            r.model().history.len() == 0,
    {
        let term = String::new();
        let visible = visible_order(&root, term.as_str());
        let r = State { root, current: Vec::new(), search_term: term, cursor: 0, history: Vec::new(), visible };
        assert(descendant(r.root, r.current@) == Some(r.root));
        r
    }

    /// The folder the picker stands in.
    pub fn current_folder(&self) -> (r: &Folder)
        requires
            descendant(self.root, self.current@) is Some,
        ensures
            *r == self.folder(),
    {
        let mut f = &self.root;
        let mut i: usize = 0;
        while i < self.current.len()
            invariant
                i <= self.current@.len(),
                descendant(self.root, self.current@) is Some,
                descendant(self.root, self.current@.take(i as int)) == Some(*f),
            decreases self.current@.len() - i,
        {
            proof {
                lemma_descendant_push(self.root, self.current@.take(i as int), self.current@[i as int]);
                assert(self.current@.take(i + 1) =~= self.current@.take(i as int).push(self.current@[i as int]));
                lemma_descendant_prefix(self.root, self.current@, i + 1);
            }
            f = &f.folders[self.current[i]];
            i = i + 1;
        }
        assert(self.current@.take(i as int) =~= self.current@);
        f
    }

    /// Recomputes the visible list for the current folder and search term.
    fn refresh(&mut self)
        requires
            descendant(old(self).root, old(self).current@) is Some,
        ensures
            final(self).root == old(self).root,
            final(self).current == old(self).current,
            final(self).search_term == old(self).search_term,
            final(self).cursor == old(self).cursor,
            final(self).history == old(self).history,
            is_visible_list(final(self).visible@, final(self).folder(), final(self).search_term@),
    {
        let visible = visible_order(self.current_folder(), self.search_term.as_str());
        self.visible = visible;
    }

    /// The cursor kept if it still fits the visible list, else moved to its last entry.
    fn clamp(&mut self)
        ensures
            final(self).root == old(self).root,
            final(self).current == old(self).current,
            final(self).search_term == old(self).search_term,
            final(self).history == old(self).history,
            final(self).visible == old(self).visible,
            final(self).cursor == clamp_cursor(old(self).cursor as int, old(self).visible@.len() as int),
    {
        let n = self.visible.len();
        if self.cursor >= n {
            self.cursor = if n > 0 { n - 1 } else { 0 };
        }
    }

    /// The cursor after one move up (`up`) or down, wrapping at either end.
    fn adjust_index(&self, up: bool) -> (r: usize)
        requires
            cursor_fits(self.cursor as int, self.visible@.len() as int),
        ensures
            up ==> r == cursor_up(self.cursor as int, self.visible@.len() as int),
            !up ==> r == cursor_down(self.cursor as int, self.visible@.len() as int),
            cursor_fits(r as int, self.visible@.len() as int),
    {
        let n = self.visible.len();
        let index = self.cursor;
        proof {
            lemma_wrap(index as int, n as int);
        }
        if n == 0 {
            index
        } else if up {
            if index == 0 {
                n - 1
            } else {
                index - 1
            }
        } else if index == n - 1 {
            0
        } else {
            index + 1
        }
    }
}

impl State {
    /// Enters subfolder `k` of the current folder, recording where the
    /// picker stood so that `ascend` can restore it.
    fn descend(&mut self, k: usize)
        requires
            old(self).wf(),
            k < old(self).folder().folders@.len(),
        ensures
            final(self).wf(),
            final(self).root == old(self).root,
            final(self).model().at == (Visit { folder: old(self).current@.push(k), cursor: 0, term: Seq::empty() }),
            final(self).model().history == old(self).model().history.push(old(self).model().at),
    {
        let ghost before = *self;
        let mut term = String::new();
        std::mem::swap(&mut term, &mut self.search_term);
        let folder = self.current.clone();
        assert(folder@ =~= before.current@);
        let entry = HistoryEntry { folder, selection: self.cursor, search_term: term };
        self.history.push(entry);
        self.current.push(k);
        self.cursor = 0;
        proof {
            lemma_descendant_push(before.root, before.current@, k);
        }
        self.refresh();
        proof {
            let cur = self.current@;
            assert forall|i: int| 0 <= i < self.history@.len() implies history_fits(self.root, cur, i, #[trigger] self.history@[i].visit()) by {
                if i < before.history@.len() {
                    assert(self.history@[i] == before.history@[i]);
                    assert(cur.take(i) =~= before.current@.take(i));
                } else {
                    assert(self.history@[i] == entry);
                    assert(cur.take(i) =~= before.current@);
                    assert forall|o: Seq<usize>| #[trigger] is_visible_list(o, descendant(self.root, entry.visit().folder)->0, entry.visit().term) implies cursor_fits(entry.visit().cursor, o.len() as int) by {
                        lemma_rankings_same_len(o, before.visible@, scores_for(before.folder(), before.search_term@), keys_for(before.folder()));
                    }
                }
            }
            assert(self.history@.map_values(|h: HistoryEntry| h.visit()) =~= before.history@.map_values(|h: HistoryEntry| h.visit()).push(entry.visit()));
        }
    }

    /// Goes back to where the last descent started, if there was one.
    fn ascend(&mut self)
        requires
            old(self).wf(),
        ensures
            final(self).wf(),
            final(self).root == old(self).root,
            old(self).model().history.len() == 0 ==> final(self).model() == old(self).model(),
            old(self).model().history.len() > 0 ==> final(self).model() == (PickerModel {
                at: old(self).model().history.last(),
                history: old(self).model().history.drop_last(),
            }),
    {
        let ghost before = *self;
        match self.history.pop() {
            None => {},
            Some(h) => {
                proof {
                    let n = before.history@.len() - 1;
                    assert(before.history@[n] == h);
                    assert(history_fits(before.root, before.current@, n, h.visit()));
                    lemma_descendant_prefix(before.root, before.current@, n);
                }
                self.current = h.folder;
                self.cursor = h.selection;
                self.search_term = h.search_term;
                self.refresh();
                proof {
                    let n = before.history@.len() - 1;
                    assert(history_fits(before.root, before.current@, n, h.visit()));
                    assert(is_visible_list(self.visible@, descendant(self.root, h.visit().folder)->0, h.visit().term));
                    assert forall|i: int| 0 <= i < self.history@.len() implies history_fits(self.root, self.current@, i, #[trigger] self.history@[i].visit()) by {
                        assert(self.history@[i] == before.history@[i]);
                        assert(self.current@.take(i) =~= before.current@.take(i));
                    }
                    assert(self.history@.map_values(|h: HistoryEntry| h.visit()) =~= before.history@.map_values(|h: HistoryEntry| h.visit()).drop_last());
                }
            },
        }
    }

    /// Acts on the entry under the cursor: descends into a folder; on a
    /// template, chooses it when `choose` is set and does nothing otherwise.
    fn select(&mut self, choose: bool) -> (r: (bool, Option<Template>))
        requires
            old(self).wf(),
        ensures
            final(self).wf(),
            final(self).root == old(self).root,
            key_effect(
                old(self).root,
                old(self).model(),
                if choose { Key::Enter } else { Key::Right },
                old(self).visible@,
                final(self).model(),
                final(self).visible@.len() as int,
                r.0,
                chosen_view(r.1),
            ),
    {
        let n = self.visible.len();
        if n == 0 {
            return (false, None);
        }
        let k = self.visible[self.cursor];
        proof {
            assert(self.visible@.contains(k));
        }
        let nf = self.current_folder().folders.len();
        if k < nf {
            self.descend(k);
            (false, None)
        } else if choose {
            let t = self.current_folder().files[k - nf].clone();
            (true, Some(t))
        } else {
            (false, None)
        }
    }

    /// Handles one key press: returns whether the session ends, and the
    /// template chosen, if any.
    pub fn handle_key_event(&mut self, key: Key) -> (r: (bool, Option<Template>))
        requires
            old(self).wf(),
        ensures
            final(self).wf(),
            final(self).root == old(self).root,
            key_effect(
                old(self).root,
                old(self).model(),
                key,
                old(self).visible@,
                final(self).model(),
                final(self).visible@.len() as int,
                r.0,
                chosen_view(r.1),
            ),
    {
        match key {
            Key::Cancel => (true, None),
            Key::Up => {
                self.cursor = self.adjust_index(true);
                (false, None)
            },
            Key::Down => {
                self.cursor = self.adjust_index(false);
                (false, None)
            },
            Key::Char(c) => {
                push_char(&mut self.search_term, c);
                self.refresh();
                self.clamp();
                (false, None)
            },
            Key::Backspace => {
                let popped = pop_char(&mut self.search_term);
                if popped.is_some() {
                    self.refresh();
                    self.clamp();
                }
                (false, None)
            },
            Key::Enter => self.select(true),
            Key::Right => self.select(false),
            Key::Left => {
                self.ascend();
                (false, None)
            },
            Key::Other => (false, None),
        }
    }
}

/// Round trip: an ascent right after a descent brings the picker back to the
/// folder, cursor and search term it had just before the descent, with the
/// history as it was.
pub proof fn lemma_descend_ascend_round_trip(
    root: Folder,
    m0: PickerModel,
    key: Key,
    v0: Seq<usize>,
    m1: PickerModel,
    n1: int,
    q1: bool,
    c1: Option<TemplateView>,
    v1: Seq<usize>,
    m2: PickerModel,
    n2: int,
    q2: bool,
    c2: Option<TemplateView>,
)
    requires
        key is Enter || key is Right,
        v0.len() > 0,
        v0[m0.at.cursor] < folder_of(root, m0).folders@.len(),
        key_effect(root, m0, key, v0, m1, n1, q1, c1),
        key_effect(root, m1, Key::Left, v1, m2, n2, q2, c2),
    ensures
        m2.at == m0.at,
        m2.history == m0.history,
        !q1 && !q2,
{
    assert(m1.history == m0.history.push(m0.at));
    assert(m1.history.drop_last() =~= m0.history);
}

/// The cursor after `k` moves down in a list of `n` entries, starting at `c`.
pub open spec fn cursor_after_downs(c: int, k: nat, n: int) -> int
    decreases k,
{
    if k == 0 {
        c
    } else {
        cursor_down(cursor_after_downs(c, (k - 1) as nat, n), n)
    }
}

proof fn lemma_downs_from_top(k: nat, n: int)
    requires
        0 <= k < n,
    ensures
        cursor_after_downs(0, k, n) == k,
    decreases k,
{
    if k > 0 {
        lemma_downs_from_top((k - 1) as nat, n);
        vstd::arithmetic::div_mod::lemma_small_mod(k, n as nat);
    }
}

/// Cursor wrap: in a list of `n` entries, `n` moves down from the first entry
/// come back to it, and one move up from the first entry reaches the last.
pub proof fn lemma_cursor_wrap(n: int)
    requires
        n > 0,
    ensures
        cursor_after_downs(0, n as nat, n) == 0,
        cursor_up(0, n) == n - 1,
{
    lemma_downs_from_top((n - 1) as nat, n);
    vstd::arithmetic::div_mod::lemma_mod_self_0(n);
    vstd::arithmetic::div_mod::lemma_small_mod((n - 1) as nat, n as nat);
}

/// Search narrowing: in a fixed folder, typing one more character never
/// shows an entry that was not shown before.
pub proof fn lemma_search_narrows(f: Folder, term: Seq<char>, c: char, before: Seq<usize>, after: Seq<usize>)
    requires
        is_visible_list(before, f, term),
        is_visible_list(after, f, term.push(c)),
    ensures
        forall|k: usize| after.contains(k) ==> before.contains(k),
{
    assert forall|k: usize| after.contains(k) implies before.contains(k) by {
        assert(scores_for(f, term.push(c))[k as int] is Some);
        lemma_accepts_shorter(f.item_name(k as int), term, c);
        assert(scores_for(f, term)[k as int] is Some);
    }
}

/// Each character of `name`, marked when its position is among `positions`.
pub open spec fn marked(name: Seq<char>, positions: Seq<usize>) -> Seq<(char, bool)> {
    Seq::new(name.len(), |i: int| (name[i], positions.contains(i as usize)))
}

/// Each character of `name`, paired with whether the search matched it.
pub fn indices_template(name: &str, indices: &Vec<usize>) -> (r: Vec<(char, bool)>)
    ensures
        r@ == marked(name@, indices@),
{
    let n = name.unicode_len();
    let mut cells: Vec<(char, bool)> = Vec::new();
    let mut i: usize = 0;
    while i < n
        invariant
            n == name@.len(),
            i <= n,
            cells@ =~= marked(name@, indices@).take(i as int),
        decreases n - i,
    {
        let mut hit = false;
        let mut j: usize = 0;
        while j < indices.len()
            invariant
                j <= indices@.len(),
                hit == indices@.take(j as int).contains(i),
            decreases indices@.len() - j,
        {
            proof {
                let pre = indices@.take(j as int);
                let x = indices@[j as int];
                assert(indices@.take(j + 1) =~= pre.push(x));
                if x == i {
                    assert(pre.push(x)[pre.len() as int] == x);
                }
                if pre.contains(i) {
                    let w = choose|w: int| 0 <= w < pre.len() && pre[w] == i;
                    assert(pre.push(x)[w] == i);
                }
                if pre.push(x).contains(i) && x != i {
                    let w = choose|w: int| 0 <= w < pre.len() + 1 && pre.push(x)[w] == i;
                    assert(pre[w] == i);
                }
            }
            if indices[j] == i {
                hit = true;
            }
            j = j + 1;
        }
        assert(indices@.take(j as int) =~= indices@);
        cells.push((name.get_char(i), hit));
        i = i + 1;
    }
    cells
}

/// The positions the search matched in `name`, empty when it rejects the name.
pub open spec fn match_positions(name: Seq<char>, term: Seq<char>) -> Seq<usize> {
    if fuzzy_accepts(name, term) {
        skim_match(name, term).1
    } else {
        Seq::empty()
    }
}

/// `name` with the characters the search for `term` matched marked.
pub fn highlight(name: &str, term: &str) -> (r: Vec<(char, bool)>)
    ensures
        r@ == marked(name@, match_positions(name@, term@)),
{
    match fuzzy_indices(name, term) {
        Some(m) => indices_template(name, &m.1),
        None => {
            let none: Vec<usize> = Vec::new();
            indices_template(name, &none)
        },
    }
}

/// The text shown for a folder: the mirror's root directory gets a title.
pub open spec fn display_name(name: Seq<char>) -> Seq<char> {
    if name == seq!['t', 'e', 'm', 'p', 'l', 'a', 't', 'e', 's'] {
        "Gitignore Templates"@
    } else {
        name
    }
}

/// The text shown for a folder named `name`.
pub fn folder_name(name: &str) -> (r: String)
    ensures
        r@ == display_name(name@),
{
    let given = String::from_str(name);
    let root = String::from_str("templates");
    proof {
        reveal_strlit("templates");
        assert("templates"@ =~= seq!['t', 'e', 'm', 'p', 'l', 'a', 't', 'e', 's']);
    }
    if given == root {
        String::from_str("Gitignore Templates")
    } else {
        given
    }
}

/// The breadcrumbs of the first `k` folders of `path`: each one's shown name
/// followed by `/`.
pub open spec fn breadcrumbs(root: Folder, path: Seq<usize>, k: int) -> Seq<char>
    decreases k,
{
    if k <= 0 {
        Seq::empty()
    } else {
        breadcrumbs(root, path, k - 1) + display_name(descendant(root, path.take(k - 1))->0.name@) + "/"@
    }
}

/// One row of the rendered list.
#[derive(Debug)]
pub struct Row {
    pub folder: bool,
    /// The entry's name, character by character, marked where the search matched.
    pub cells: Vec<(char, bool)>,
}

impl State {
    /// The title: the folders descended through, then the current folder.
    pub fn title(&self) -> (r: String)
        requires
            self.wf(),
        ensures
            r@ == breadcrumbs(self.root, self.current@, self.current@.len() as int) + display_name(self.folder().name@),
    {
        let mut out = String::new();
        let mut f = &self.root;
        let mut i: usize = 0;
        while i < self.current.len()
            invariant
                i <= self.current@.len(),
                descendant(self.root, self.current@) is Some,
                descendant(self.root, self.current@.take(i as int)) == Some(*f),
                out@ == breadcrumbs(self.root, self.current@, i as int),
            decreases self.current@.len() - i,
        {
            let shown = folder_name(f.name.as_str());
            out.append(shown.as_str());
            out.append("/");
            proof {
                lemma_descendant_push(self.root, self.current@.take(i as int), self.current@[i as int]);
                assert(self.current@.take(i + 1) =~= self.current@.take(i as int).push(self.current@[i as int]));
                lemma_descendant_prefix(self.root, self.current@, i + 1);
            }
            f = &f.folders[self.current[i]];
            i = i + 1;
        }
        assert(self.current@.take(i as int) =~= self.current@);
        let last = folder_name(f.name.as_str());
        out.append(last.as_str());
        out
    }

    /// The rows of the visible list, in order, with the matched characters marked.
    pub fn rows(&self) -> (r: Vec<Row>)
        requires
            self.wf(),
        ensures
            r@.len() == self.visible@.len(),
            forall|i: int| 0 <= i < r@.len() ==> {
                let k = self.visible@[i] as int;
                &&& (#[trigger] r@[i]).folder == (k < self.folder().folders@.len())
                &&& r@[i].cells@ == marked(self.folder().item_name(k), match_positions(self.folder().item_name(k), self.search_term@))
            },
    {
        let f = self.current_folder();
        let mut rows: Vec<Row> = Vec::new();
        let mut i: usize = 0;
        while i < self.visible.len()
            invariant
                *f == self.folder(),
                self.wf(),
                i <= self.visible@.len(),
                rows@.len() == i,
                forall|j: int| 0 <= j < i ==> {
                    let k = self.visible@[j] as int;
                    &&& (#[trigger] rows@[j]).folder == (k < self.folder().folders@.len())
                    &&& rows@[j].cells@ == marked(self.folder().item_name(k), match_positions(self.folder().item_name(k), self.search_term@))
                },
            decreases self.visible@.len() - i,
        {
            let k = self.visible[i];
            assert(self.visible@.contains(k));
            let item = f.item(k);
            let row = Row { folder: item.is_folder(), cells: highlight(item.name(), self.search_term.as_str()) };
            rows.push(row);
            i = i + 1;
        }
        rows
    }
}

} // verus!
