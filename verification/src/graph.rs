//! The dependency graph of a model and the search for a cycle in it.
//!
//! The graph maps the name of an evaluation to the names it depends on. The
//! search walks it depth first, with the names on the way from the start in
//! `path` and the names that are fully explored in `done`, in the order in
//! which they were finished.

use crate::text::views;
use vstd::prelude::*;

verus! {

/// The names that each evaluation depends on, in the order in which the
/// evaluations were first entered.
#[derive(Debug)]
pub struct DependencyGraph {
    entries: Vec<(String, Vec<String>)>,
}

/// The entries of a graph as the contracts see them.
pub open spec fn entry_views(entries: Seq<(String, Vec<String>)>) -> Seq<
    (Seq<char>, Seq<Seq<char>>),
> {
    Seq::new(entries.len(), |i: int| (entries[i].0@, views(entries[i].1@)))
}

/// Whether `name` has an entry in `g`.
pub open spec fn has_key(g: Seq<(Seq<char>, Seq<Seq<char>>)>, name: Seq<char>) -> bool {
    exists|i: int| 0 <= i < g.len() && (#[trigger] g[i]).0 == name
}

/// The index of the entry of `name` in `g`.
pub open spec fn key_index(g: Seq<(Seq<char>, Seq<Seq<char>>)>, name: Seq<char>) -> int {
    choose|i: int| 0 <= i < g.len() && (#[trigger] g[i]).0 == name
}

/// No two entries of `g` have the same name.
pub open spec fn distinct_keys(g: Seq<(Seq<char>, Seq<Seq<char>>)>) -> bool {
    forall|i: int, j: int|
        0 <= i < g.len() && 0 <= j < g.len() && i != j ==> (#[trigger] g[i]).0 != (#[trigger] g[j]).0
}

/// The names that `name` depends on; none where it has no entry.
pub open spec fn successors(g: Seq<(Seq<char>, Seq<Seq<char>>)>, name: Seq<char>) -> Seq<
    Seq<char>,
> {
    if has_key(g, name) {
        g[key_index(g, name)].1
    } else {
        Seq::empty()
    }
}

/// `a` depends on `b`.
pub open spec fn edge(g: Seq<(Seq<char>, Seq<Seq<char>>)>, a: Seq<char>, b: Seq<char>) -> bool {
    successors(g, a).contains(b)
}

/// Each name of `p` depends on the next one.
pub open spec fn walk(g: Seq<(Seq<char>, Seq<Seq<char>>)>, p: Seq<Seq<char>>) -> bool {
    forall|i: int| 0 <= i < p.len() - 1 ==> edge(g, #[trigger] p[i], p[i + 1])
}

/// Each name of `c` depends on the next one, and the last on the first.
pub open spec fn is_cycle(g: Seq<(Seq<char>, Seq<Seq<char>>)>, c: Seq<Seq<char>>) -> bool {
    c.len() > 0 && walk(g, c) && edge(g, c.last(), c[0])
}

/// The graph has no cycle.
pub open spec fn acyclic(g: Seq<(Seq<char>, Seq<Seq<char>>)>) -> bool {
    forall|c: Seq<Seq<char>>| !is_cycle(g, c)
}

/// There is a way along the dependencies from `a` to `b`.
pub open spec fn reaches(g: Seq<(Seq<char>, Seq<Seq<char>>)>, a: Seq<char>, b: Seq<char>) -> bool {
    exists|p: Seq<Seq<char>>| p.len() > 0 && walk(g, p) && p[0] == a && p.last() == b
}

/// The graph with the entry of `key` set to `deps`: in its old place where
/// the key had an entry, at the end where it had none.
pub open spec fn inserted(
    g: Seq<(Seq<char>, Seq<Seq<char>>)>,
    key: Seq<char>,
    deps: Seq<Seq<char>>,
) -> Seq<(Seq<char>, Seq<Seq<char>>)> {
    if has_key(g, key) {
        g.update(key_index(g, key), (key, deps))
    } else {
        g.push((key, deps))
    }
}

/// Every name that occurs in the graph, entry by entry.
pub open spec fn all_names(g: Seq<(Seq<char>, Seq<Seq<char>>)>) -> Seq<Seq<char>>
    decreases g.len(),
{
    if g.len() == 0 {
        Seq::empty()
    } else {
        all_names(g.drop_last()) + seq![g.last().0] + g.last().1
    }
}

/// The names of the entries and the names they depend on are names of the
/// graph.
pub proof fn lemma_all_names(g: Seq<(Seq<char>, Seq<Seq<char>>)>, i: int)
    requires
        0 <= i < g.len(),
    ensures
        all_names(g).contains(g[i].0),
        forall|d: Seq<char>| g[i].1.contains(d) ==> all_names(g).contains(d),
    decreases g.len(),
{
    let init = all_names(g.drop_last());
    let whole = all_names(g);
    if i == g.len() - 1 {
        assert(whole[init.len() as int] == g[i].0);
        assert forall|d: Seq<char>| g[i].1.contains(d) implies whole.contains(d) by {
            let k = choose|k: int| 0 <= k < g[i].1.len() && g[i].1[k] == d;
            assert(whole[init.len() + 1 + k] == d);
        }
    } else {
        lemma_all_names(g.drop_last(), i);
        assert(g.drop_last()[i] == g[i]);
        let k = choose|k: int| 0 <= k < init.len() && init[k] == g[i].0;
        assert(whole[k] == g[i].0);
        assert forall|d: Seq<char>| g[i].1.contains(d) implies whole.contains(d) by {
            assert(g.drop_last()[i].1.contains(d));
            assert(init.contains(d));
            let k = choose|k: int| 0 <= k < init.len() && init[k] == d;
            assert(whole[k] == d);
        }
    }
}

/// A list without repetitions whose members all occur in another list is
/// not longer than that one.
pub proof fn lemma_distinct_members_fit(s: Seq<Seq<char>>, t: Seq<Seq<char>>)
    requires
        s.no_duplicates(),
        forall|x: Seq<char>| s.contains(x) ==> t.contains(x),
    ensures
        s.len() <= t.len(),
{
    s.unique_seq_to_set();
    t.lemma_cardinality_of_set();
    vstd::seq_lib::seq_to_set_is_finite(t);
    assert(s.to_set().subset_of(t.to_set())) by {
        assert forall|x: Seq<char>| s.to_set().contains(x) implies t.to_set().contains(x) by {
            assert(s.contains(x));
        }
    }
    vstd::set_lib::lemma_len_subset(s.to_set(), t.to_set());
}

/// With distinct keys, the entry of a name is the one that carries it.
pub proof fn lemma_successors(g: Seq<(Seq<char>, Seq<Seq<char>>)>, i: int)
    requires
        distinct_keys(g),
        0 <= i < g.len(),
    ensures
        has_key(g, g[i].0),
        key_index(g, g[i].0) == i,
        successors(g, g[i].0) == g[i].1,
{
    assert(has_key(g, g[i].0));
    let k = key_index(g, g[i].0);
    assert(0 <= k < g.len() && g[k].0 == g[i].0);
}

/// The names of `c` from `k` on, followed by those before `k`.
pub open spec fn rotated(c: Seq<Seq<char>>, k: int) -> Seq<Seq<char>> {
    c.subrange(k, c.len() as int) + c.subrange(0, k)
}

/// The index in `c` of the name that stands at `i` in `rotated(c, k)`,
/// where `c` has `n` names.
pub open spec fn unrotated_index(n: int, k: int, i: int) -> int {
    if i < n - k {
        i + k
    } else {
        i - (n - k)
    }
}

/// Where the names of a rotated sequence come from.
pub proof fn lemma_rotated_index(c: Seq<Seq<char>>, k: int, i: int)
    requires
        0 <= k < c.len(),
        0 <= i < c.len(),
    ensures
        rotated(c, k).len() == c.len(),
        rotated(c, k)[i] == c[unrotated_index(c.len() as int, k, i)],
        0 <= unrotated_index(c.len() as int, k, i) < c.len(),
{
}

/// In a rotated cycle each name depends on the next.
proof fn lemma_rotated_step(g: Seq<(Seq<char>, Seq<Seq<char>>)>, c: Seq<Seq<char>>, k: int, i: int)
    requires
        is_cycle(g, c),
        0 <= k < c.len(),
        0 <= i < c.len() - 1,
    ensures
        edge(g, rotated(c, k)[i], rotated(c, k)[i + 1]),
{
    let n = c.len() as int;
    lemma_rotated_index(c, k, i);
    lemma_rotated_index(c, k, i + 1);
    let a = unrotated_index(n, k, i);
    let b = unrotated_index(n, k, i + 1);
    if a == n - 1 {
        assert(b == 0);
        assert(c.last() == c[a]);
    } else {
        assert(b == a + 1);
        assert(edge(g, c[a], c[a + 1]));
    }
}

/// In a rotated cycle the last name depends on the first.
proof fn lemma_rotated_close(g: Seq<(Seq<char>, Seq<Seq<char>>)>, c: Seq<Seq<char>>, k: int)
    requires
        is_cycle(g, c),
        0 <= k < c.len(),
    ensures
        edge(g, rotated(c, k).last(), rotated(c, k)[0]),
{
    let n = c.len() as int;
    lemma_rotated_index(c, k, n - 1);
    lemma_rotated_index(c, k, 0);
    if k == 0 {
        assert(c.last() == c[n - 1]);
    } else {
        assert(unrotated_index(n, k, n - 1) == k - 1);
        assert(unrotated_index(n, k, 0) == k);
        assert(edge(g, c[k - 1], c[k]));
    }
}

/// A rotated sequence holds the names of the sequence.
proof fn lemma_rotated_members(c: Seq<Seq<char>>, k: int, x: Seq<char>)
    requires
        0 <= k < c.len(),
    ensures
        c.contains(x) <==> rotated(c, k).contains(x),
{
    let n = c.len() as int;
    let r = rotated(c, k);
    if c.contains(x) {
        let i = choose|i: int| 0 <= i < c.len() && c[i] == x;
        let at = if i >= k {
            i - k
        } else {
            i + (n - k)
        };
        lemma_rotated_index(c, k, at);
        assert(r[at] == x);
    }
    if r.contains(x) {
        let i = choose|i: int| 0 <= i < r.len() && r[i] == x;
        lemma_rotated_index(c, k, i);
        assert(c[unrotated_index(n, k, i)] == x);
    }
}

/// A cycle may begin at any of its names: the names from `k` on, followed
/// by those before `k`, are a cycle too. They are the same names, and none
/// occurs twice where none did before.
pub proof fn lemma_rotated_cycle(g: Seq<(Seq<char>, Seq<Seq<char>>)>, c: Seq<Seq<char>>, k: int)
    requires
        is_cycle(g, c),
        0 <= k < c.len(),
    ensures
        is_cycle(g, rotated(c, k)),
        c.no_duplicates() ==> rotated(c, k).no_duplicates(),
        forall|x: Seq<char>| c.contains(x) <==> rotated(c, k).contains(x),
{
    let r = rotated(c, k);
    lemma_rotated_index(c, k, 0);
    assert(walk(g, r)) by {
        assert forall|i: int| 0 <= i < r.len() - 1 implies edge(g, #[trigger] r[i], r[i + 1]) by {
            lemma_rotated_step(g, c, k, i);
        }
    }
    lemma_rotated_close(g, c, k);
    if c.no_duplicates() {
        assert forall|i: int, j: int| 0 <= i < r.len() && 0 <= j < r.len() && i != j implies r[i]
            != r[j] by {
            lemma_rotated_index(c, k, i);
            lemma_rotated_index(c, k, j);
        }
    }
    assert forall|x: Seq<char>| c.contains(x) <==> r.contains(x) by {
        lemma_rotated_members(c, k, x);
    }
}

impl View for DependencyGraph {
    type V = Seq<(Seq<char>, Seq<Seq<char>>)>;

    closed spec fn view(&self) -> Seq<(Seq<char>, Seq<Seq<char>>)> {
        entry_views(self.entries@)
    }
}

/// The index of `name` in `list`, if it occurs there.
pub fn index_of_name(list: &Vec<String>, name: &String) -> (r: Option<usize>)
    ensures
        match r {
            Some(i) => i < list@.len() && list@[i as int]@ == name@ && forall|j: int|
                0 <= j < i ==> list@[j]@ != name@,
            None => !views(list@).contains(name@),
        },
{
    let mut i: usize = 0;
    while i < list.len()
        invariant
            i <= list@.len(),
            forall|j: int| 0 <= j < i ==> list@[j]@ != name@,
        decreases list@.len() - i,
    {
        if list[i] == *name {
            return Some(i);
        }
        i += 1;
    }
    assert forall|j: int| 0 <= j < views(list@).len() implies views(list@)[j] != name@ by {
        assert(views(list@)[j] == list@[j]@);
    }
    None
}

/// Whether `name` occurs in `list`.
pub fn contains_name(list: &Vec<String>, name: &String) -> (b: bool)
    ensures
        b == views(list@).contains(name@),
{
    match index_of_name(list, name) {
        Some(i) => {
            assert(views(list@)[i as int] == name@);
            true
        },
        None => false,
    }
}

impl DependencyGraph {
    /// No two entries have the same name.
    pub open spec fn wf(self) -> bool {
        distinct_keys(self@)
    }

    /// A graph without entries.
    pub fn new() -> (g: DependencyGraph)
        ensures
            g@ == Seq::<(Seq<char>, Seq<Seq<char>>)>::empty(),
            g.wf(),
    {
        let g = DependencyGraph { entries: Vec::new() };
        assert(entry_views(g.entries@) =~= Seq::<(Seq<char>, Seq<Seq<char>>)>::empty());
        g
    }

    /// The number of entries.
    pub fn len(&self) -> (n: usize)
        ensures
            n == self@.len(),
    {
        self.entries.len()
    }

    /// The name of the entry `i`.
    pub fn key_at(&self, i: usize) -> (key: &String)
        requires
            i < self@.len(),
        ensures
            key@ == self@[i as int].0,
    {
        &self.entries[i].0
    }

    /// The names that the entry `i` depends on.
    pub fn dependencies_at(&self, i: usize) -> (deps: &Vec<String>)
        requires
            i < self@.len(),
        ensures
            views(deps@) == self@[i as int].1,
    {
        &self.entries[i].1
    }

    /// The index of the entry of `name`, if it has one.
    fn find(&self, name: &String) -> (r: Option<usize>)
        requires
            self.wf(),
        ensures
            match r {
                Some(i) => i < self@.len() && self@[i as int].0 == name@ && key_index(
                    self@,
                    name@,
                ) == i && has_key(self@, name@),
                None => !has_key(self@, name@),
            },
    {
        let mut i: usize = 0;
        while i < self.entries.len()
            invariant
                self.wf(),
                i <= self.entries@.len(),
                forall|j: int| 0 <= j < i ==> (#[trigger] self@[j]).0 != name@,
            decreases self.entries@.len() - i,
        {
            if self.entries[i].0 == *name {
                proof {
                    lemma_successors(self@, i as int);
                }
                return Some(i);
            }
            i += 1;
        }
        None
    }

    /// The names that `name` depends on, where it has an entry.
    pub fn get(&self, name: &String) -> (r: Option<&Vec<String>>)
        requires
            self.wf(),
        ensures
            match r {
                Some(deps) => has_key(self@, name@) && views(deps@) == successors(self@, name@),
                None => !has_key(self@, name@) && successors(self@, name@) == Seq::<
                    Seq<char>,
                >::empty(),
            },
    {
        match self.find(name) {
            Some(i) => Some(&self.entries[i].1),
            None => None,
        }
    }

    /// Sets the entry of `key` to `deps`.
    pub fn insert(&mut self, key: String, deps: Vec<String>)
        requires
            old(self).wf(),
        ensures
            final(self)@ == inserted(old(self)@, key@, views(deps@)),
            final(self).wf(),
    {
        let ghost before = self@;
        match self.find(&key) {
            Some(i) => {
                self.entries.set(i, (key, deps));
                proof {
                    assert(entry_views(self.entries@) =~= before.update(
                        i as int,
                        (key@, views(deps@)),
                    ));
                }
            },
            None => {
                self.entries.push((key, deps));
                proof {
                    assert(entry_views(self.entries@) =~= before.push((key@, views(deps@))));
                }
            },
        }
    }
}

} // verus!
