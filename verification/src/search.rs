//! The search for a cycle among the dependencies, depth first, with the
//! names on the way from the start in `path` and the names that are fully
//! explored in `done`, in the order in which they were finished; and why the
//! search is right: whatever the graph, it finds a cycle exactly where there
//! is one, and what it reports is a cycle of the graph.

use crate::diagnostics::{AnalyzerError, AnalyzerErrorView};
use crate::graph::{
    acyclic, all_names, contains_name, edge, has_key, index_of_name, is_cycle, key_index,
    lemma_all_names, lemma_distinct_members_fit, reaches, successors, walk, DependencyGraph,
};
use crate::text::views;
use vstd::prelude::*;

verus! {

/// How a search stands: the cycle that it found, if any, the names on the
/// way from the start, and the names that are fully explored.
pub struct Search {
    pub cycle: Option<Seq<Seq<char>>>,
    pub path: Seq<Seq<char>>,
    pub done: Seq<Seq<char>>,
}

/// The search from `node` on, depth first, with `path` the names on the way
/// to it and `done` the names that are fully explored. A name that stands
/// on the path closes a cycle: the names of the path from that name on. A
/// name that is fully explored is not looked at again. Any other name is
/// entered: the names that it depends on are searched in turn and, where
/// they give no cycle, the name is fully explored. (That there is room for
/// another name is asked only so that the definition is seen to end: in a
/// state of the search there always is, see `lemma_visit`.)
pub open spec fn visit(
    g: Seq<(Seq<char>, Seq<Seq<char>>)>,
    node: Seq<char>,
    path: Seq<Seq<char>>,
    done: Seq<Seq<char>>,
) -> Search
    decreases all_names(g).len() - path.len() - done.len(), 0int, 0int,
{
    if path.contains(node) {
        Search { cycle: Some(path.subrange(path.index_of(node), path.len() as int)), path, done }
    } else if done.contains(node) || path.len() + done.len() >= all_names(g).len() {
        Search { cycle: None, path, done }
    } else {
        let below = visit_all(g, successors(g, node), 0, path.push(node), done);
        if below.cycle is Some {
            below
        } else {
            Search { cycle: None, path, done: below.done.push(node) }
        }
    }
}

/// The search from each of the names `deps[j..]` in turn, up to the first
/// that gives a cycle.
pub open spec fn visit_all(
    g: Seq<(Seq<char>, Seq<Seq<char>>)>,
    deps: Seq<Seq<char>>,
    j: int,
    path: Seq<Seq<char>>,
    done: Seq<Seq<char>>,
) -> Search
    decreases all_names(g).len() - path.len() - done.len(), 1int, deps.len() - j,
{
    if 0 <= j < deps.len() {
        let first = visit(g, deps[j], path, done);
        if first.cycle is Some || first.done.len() < done.len() || path.len() + first.done.len()
            > all_names(g).len() {
            first
        } else {
            visit_all(g, deps, j + 1, path, first.done)
        }
    } else {
        Search { cycle: None, path, done }
    }
}

/// The first cycle that the search finds when it starts from the entries
/// `g[i..]` in turn, with the entry from which it was found.
pub open spec fn first_cycle_from(g: Seq<(Seq<char>, Seq<Seq<char>>)>, i: int, done: Seq<Seq<char>>) -> Option<
    (Seq<char>, Seq<Seq<char>>),
>
    decreases g.len() - i,
{
    if 0 <= i < g.len() {
        let start = g[i].0;
        if done.contains(start) {
            first_cycle_from(g, i + 1, done)
        } else {
            let found = visit(g, start, Seq::empty(), done);
            match found.cycle {
                Some(chain) => Some((start, chain)),
                None => first_cycle_from(g, i + 1, found.done),
            }
        }
    } else {
        None
    }
}

/// The first cycle that the search finds when it starts from each entry of
/// the graph in turn, with the entry from which it was found.
pub open spec fn first_cycle(g: Seq<(Seq<char>, Seq<Seq<char>>)>) -> Option<
    (Seq<char>, Seq<Seq<char>>),
> {
    first_cycle_from(g, 0, Seq::empty())
}

/// What a search that found a cycle leaves: the way from the start to the
/// name that closed the cycle, and the cycle at its end.
pub open spec fn found_cycle(
    g: Seq<(Seq<char>, Seq<Seq<char>>)>,
    stack: Seq<Seq<char>>,
    chain: Seq<Seq<char>>,
) -> bool {
    &&& is_cycle(g, chain)
    &&& chain.no_duplicates()
    &&& walk(g, stack)
    &&& stack.no_duplicates()
    &&& exists|k: int| 0 <= k < stack.len() && chain == stack.subrange(k, stack.len() as int)
}

/// All names that `done[i]` depends on stand before it in `done`.
pub open spec fn closed_at(g: Seq<(Seq<char>, Seq<Seq<char>>)>, done: Seq<Seq<char>>, i: int) -> bool {
    forall|v: Seq<char>| #[trigger] edge(g, done[i], v) ==> done.take(i).contains(v)
}

/// Every name of `done` stands behind all names that it depends on.
pub open spec fn settled(g: Seq<(Seq<char>, Seq<Seq<char>>)>, done: Seq<Seq<char>>) -> bool {
    forall|i: int| 0 <= i < done.len() ==> #[trigger] closed_at(g, done, i)
}

/// The state of a search: `path` leads along the dependencies, `done` is
/// settled, no name occurs twice in the two, and all of them are names of
/// the graph.
pub open spec fn search_state(
    g: Seq<(Seq<char>, Seq<Seq<char>>)>,
    path: Seq<Seq<char>>,
    done: Seq<Seq<char>>,
) -> bool {
    &&& (path + done).no_duplicates()
    &&& forall|x: Seq<char>| #[trigger] (path + done).contains(x) ==> all_names(g).contains(x)
    &&& walk(g, path)
    &&& settled(g, done)
}

/// The position of `x` in `s`.
pub open spec fn place(s: Seq<Seq<char>>, x: Seq<char>) -> int {
    choose|i: int| 0 <= i < s.len() && s[i] == x
}

/// Along a walk through settled names the places in `done` go down.
proof fn lemma_walk_descends(
    g: Seq<(Seq<char>, Seq<Seq<char>>)>,
    done: Seq<Seq<char>>,
    c: Seq<Seq<char>>,
    k: int,
)
    requires
        settled(g, done),
        done.no_duplicates(),
        walk(g, c),
        0 <= k < c.len(),
        done.contains(c[0]),
    ensures
        done.contains(c[k]),
        place(done, c[k]) <= place(done, c[0]) - k,
    decreases k,
{
    if k > 0 {
        lemma_walk_descends(g, done, c, k - 1);
        let i = place(done, c[k - 1]);
        assert(closed_at(g, done, i));
        assert(edge(g, done[i], c[k]));
        assert(done.take(i).contains(c[k]));
        let j = choose|j: int| 0 <= j < done.take(i).len() && done.take(i)[j] == c[k];
        assert(done[j] == c[k]);
        let p = place(done, c[k]);
        assert(done[p] == c[k]);
        assert(p == j);
    }
}

/// Where every entry of the graph is settled, the graph has no cycle.
pub proof fn lemma_settled_is_acyclic(g: Seq<(Seq<char>, Seq<Seq<char>>)>, done: Seq<Seq<char>>)
    requires
        settled(g, done),
        done.no_duplicates(),
        forall|i: int| 0 <= i < g.len() ==> done.contains(#[trigger] g[i].0),
    ensures
        acyclic(g),
{
    assert forall|c: Seq<Seq<char>>| !is_cycle(g, c) by {
        if is_cycle(g, c) {
            let first = c[0];
            let last = c.last();
            assert(has_key(g, last));
            let e = key_index(g, last);
            assert(done.contains(g[e].0));
            if c.len() == 1 {
                let i = place(done, first);
                assert(closed_at(g, done, i));
                assert(edge(g, done[i], first));
                assert(done.take(i).contains(first));
                let j = choose|j: int| 0 <= j < done.take(i).len() && done.take(i)[j] == first;
                assert(done[j] == first);
            } else {
                assert(edge(g, c[0], c[1]));
                assert(has_key(g, first));
                let e0 = key_index(g, first);
                assert(done.contains(g[e0].0));
                lemma_walk_descends(g, done, c, c.len() - 1);
                let i = place(done, last);
                assert(closed_at(g, done, i));
                assert(edge(g, done[i], first));
                assert(done.take(i).contains(first));
                let j = choose|j: int| 0 <= j < done.take(i).len() && done.take(i)[j] == first;
                assert(done[j] == first);
                let p = place(done, first);
                assert(done[p] == first);
                assert(p == j);
            }
        }
    }
}

/// What the report of a cycle says: the chain is a cycle of the graph in
/// which no name occurs twice, and it can be reached from the evaluation
/// that is named, which has an entry in the graph.
pub open spec fn cycle_report(g: Seq<(Seq<char>, Seq<Seq<char>>)>, e: AnalyzerErrorView) -> bool {
    &&& e matches AnalyzerErrorView::CircularDependency { evaluation_name, dependency_chain }
    &&& is_cycle(g, dependency_chain)
    &&& dependency_chain.no_duplicates()
    &&& has_key(g, evaluation_name)
    &&& reaches(g, evaluation_name, dependency_chain[0])
}

/// What a search that found no cycle leaves: the path as it was, and all
/// that was explored before still explored.
pub open spec fn search_went_on(
    g: Seq<(Seq<char>, Seq<Seq<char>>)>,
    path: Seq<Seq<char>>,
    done: Seq<Seq<char>>,
    after: Seq<Seq<char>>,
) -> bool {
    &&& search_state(g, path, after)
    &&& after.len() >= done.len()
    &&& forall|x: Seq<char>| done.contains(x) ==> after.contains(x)
}

/// The path of a search that enters `node`.
proof fn lemma_enter(
    g: Seq<(Seq<char>, Seq<Seq<char>>)>,
    node: Seq<char>,
    path: Seq<Seq<char>>,
    done: Seq<Seq<char>>,
)
    requires
        search_state(g, path, done),
        all_names(g).contains(node),
        path.len() > 0 ==> edge(g, path.last(), node),
        !path.contains(node),
        !done.contains(node),
    ensures
        search_state(g, path.push(node), done),
        path.len() + done.len() < all_names(g).len(),
{
    let longer = path.push(node);
    let n = path.len() as int;
    assert forall|a: int, b: int|
        0 <= a < (longer + done).len() && 0 <= b < (longer + done).len() && a != b implies (longer
        + done)[a] != (longer + done)[b] by {
        let x = (longer + done)[a];
        let y = (longer + done)[b];
        if a < n {
            assert(x == (path + done)[a]);
            assert(path[a] == x);
        } else if a > n {
            assert(x == (path + done)[a - 1]);
            assert(done[a - 1 - n] == x);
        }
        if b < n {
            assert(y == (path + done)[b]);
            assert(path[b] == y);
        } else if b > n {
            assert(y == (path + done)[b - 1]);
            assert(done[b - 1 - n] == y);
        }
    }
    assert forall|x: Seq<char>| #[trigger] (longer + done).contains(x) implies all_names(
        g,
    ).contains(x) by {
        let a = choose|a: int| 0 <= a < (longer + done).len() && (longer + done)[a] == x;
        if a < n {
            assert((path + done)[a] == x);
            assert((path + done).contains(x));
        } else if a > n {
            assert((path + done)[a - 1] == x);
            assert((path + done).contains(x));
        }
    }
    assert forall|j: int| 0 <= j < longer.len() - 1 implies edge(
        g,
        #[trigger] longer[j],
        longer[j + 1],
    ) by {
        if j < path.len() - 1 {
            assert(longer[j] == path[j] && longer[j + 1] == path[j + 1]);
            assert(edge(g, path[j], path[j + 1]));
        } else {
            assert(longer[j] == path.last());
        }
    }
    lemma_distinct_members_fit(longer + done, all_names(g));
}

/// The state of a search that leaves `node`, all of whose dependencies are
/// explored.
proof fn lemma_leave(
    g: Seq<(Seq<char>, Seq<Seq<char>>)>,
    node: Seq<char>,
    path: Seq<Seq<char>>,
    done: Seq<Seq<char>>,
)
    requires
        search_state(g, path.push(node), done),
        forall|v: Seq<char>| edge(g, node, v) ==> done.contains(v),
    ensures
        search_state(g, path, done.push(node)),
{
    let longer = path.push(node);
    let after = done.push(node);
    let n = path.len() as int;
    assert forall|a: int, b: int|
        0 <= a < (path + after).len() && 0 <= b < (path + after).len() && a != b implies (path
        + after)[a] != (path + after)[b] by {
        let last = (path + after).len() - 1;
        let ia = if a == last {
            n
        } else if a < n {
            a
        } else {
            a + 1
        };
        let ib = if b == last {
            n
        } else if b < n {
            b
        } else {
            b + 1
        };
        assert((longer + done)[ia] == (path + after)[a]);
        assert((longer + done)[ib] == (path + after)[b]);
    }
    assert forall|x: Seq<char>| #[trigger] (path + after).contains(x) implies all_names(
        g,
    ).contains(x) by {
        let a = choose|a: int| 0 <= a < (path + after).len() && (path + after)[a] == x;
        let last = (path + after).len() - 1;
        let ia = if a == last {
            n
        } else if a < n {
            a
        } else {
            a + 1
        };
        assert((longer + done)[ia] == x);
        assert((longer + done).contains(x));
    }
    assert forall|j: int| 0 <= j < path.len() - 1 implies edge(g, #[trigger] path[j], path[j + 1]) by {
        assert(longer[j] == path[j] && longer[j + 1] == path[j + 1]);
        assert(edge(g, longer[j], longer[j + 1]));
    }
    assert forall|i: int| 0 <= i < after.len() implies #[trigger] closed_at(g, after, i) by {
        if i < done.len() {
            assert(closed_at(g, done, i));
            assert(after.take(i) =~= done.take(i));
            assert(after[i] == done[i]);
        } else {
            assert(after.take(i) =~= done);
        }
    }
}

/// The cycle that a name on the path closes.
proof fn lemma_closed_cycle(
    g: Seq<(Seq<char>, Seq<Seq<char>>)>,
    node: Seq<char>,
    path: Seq<Seq<char>>,
    done: Seq<Seq<char>>,
)
    requires
        search_state(g, path, done),
        path.len() > 0 ==> edge(g, path.last(), node),
        path.contains(node),
    ensures
        found_cycle(g, path, path.subrange(path.index_of(node), path.len() as int)),
{
    let k = path.index_of(node);
    assert(0 <= k < path.len() && path[k] == node);
    let chain = path.subrange(k, path.len() as int);
    assert forall|a: int, b: int| 0 <= a < path.len() && 0 <= b < path.len() && a != b implies path[a]
        != path[b] by {
        assert((path + done)[a] == path[a]);
        assert((path + done)[b] == path[b]);
    }
    assert forall|j: int| 0 <= j < chain.len() - 1 implies edge(
        g,
        #[trigger] chain[j],
        chain[j + 1],
    ) by {
        assert(chain[j] == path[k + j]);
        assert(chain[j + 1] == path[k + j + 1]);
        assert(edge(g, path[k + j], path[k + j + 1]));
    }
    assert(chain.last() == path.last());
    assert(chain[0] == node);
}

/// What holds of the search from one name.
pub proof fn lemma_visit(
    g: Seq<(Seq<char>, Seq<Seq<char>>)>,
    node: Seq<char>,
    path: Seq<Seq<char>>,
    done: Seq<Seq<char>>,
)
    requires
        search_state(g, path, done),
        all_names(g).contains(node),
        path.len() > 0 ==> edge(g, path.last(), node),
    ensures
        ({
            let r = visit(g, node, path, done);
            match r.cycle {
                Some(chain) => {
                    &&& found_cycle(g, r.path, chain)
                    &&& r.path.len() >= path.len()
                    &&& r.path.take(path.len() as int) == path
                    &&& path.contains(node) || (r.path.len() > path.len() && r.path[path.len() as int]
                        == node)
                },
                None => {
                    &&& r.path == path
                    &&& search_went_on(g, path, done, r.done)
                    &&& r.done.contains(node)
                },
            }
        }),
    decreases all_names(g).len() - path.len() - done.len(), 0int, 0int,
{
    if path.contains(node) {
        lemma_closed_cycle(g, node, path, done);
        assert(path.take(path.len() as int) =~= path);
    } else if done.contains(node) {
    } else {
        lemma_enter(g, node, path, done);
        let longer = path.push(node);
        let deps = successors(g, node);
        assert forall|k: int| 0 <= k < deps.len() implies edge(g, longer.last(), #[trigger] deps[k])
            && all_names(g).contains(deps[k]) by {
            assert(deps.contains(deps[k]));
            assert(has_key(g, node));
            lemma_all_names(g, key_index(g, node));
        }
        lemma_visit_all(g, deps, 0, longer, done);
        let below = visit_all(g, deps, 0, longer, done);
        match below.cycle {
            Some(chain) => {
                assert(below.path.take(path.len() as int) =~= longer.take(path.len() as int));
                assert(longer.take(path.len() as int) =~= path);
                assert(below.path.take(longer.len() as int)[path.len() as int] == longer[path.len() as int]);
            },
            None => {
                assert forall|v: Seq<char>| edge(g, node, v) implies below.done.contains(v) by {
                    let k = choose|k: int| 0 <= k < deps.len() && deps[k] == v;
                    assert(below.done.contains(deps[k]));
                }
                lemma_leave(g, node, path, below.done);
                let after = below.done.push(node);
                assert(after[below.done.len() as int] == node);
                assert forall|x: Seq<char>| done.contains(x) implies after.contains(x) by {
                    let q = choose|q: int| 0 <= q < below.done.len() && below.done[q] == x;
                    assert(after[q] == x);
                }
            },
        }
    }
}

/// What holds of the search from the names `deps[j..]` in turn.
pub proof fn lemma_visit_all(
    g: Seq<(Seq<char>, Seq<Seq<char>>)>,
    deps: Seq<Seq<char>>,
    j: int,
    path: Seq<Seq<char>>,
    done: Seq<Seq<char>>,
)
    requires
        search_state(g, path, done),
        path.len() > 0,
        0 <= j <= deps.len(),
        forall|k: int|
            0 <= k < deps.len() ==> edge(g, path.last(), #[trigger] deps[k]) && all_names(
                g,
            ).contains(deps[k]),
    ensures
        ({
            let r = visit_all(g, deps, j, path, done);
            match r.cycle {
                Some(chain) => {
                    &&& found_cycle(g, r.path, chain)
                    &&& r.path.len() >= path.len()
                    &&& r.path.take(path.len() as int) == path
                },
                None => {
                    &&& r.path == path
                    &&& search_went_on(g, path, done, r.done)
                    &&& forall|k: int| j <= k < deps.len() ==> r.done.contains(#[trigger] deps[k])
                },
            }
        }),
    decreases all_names(g).len() - path.len() - done.len(), 1int, deps.len() - j,
{
    if j < deps.len() {
        lemma_visit(g, deps[j], path, done);
        let first = visit(g, deps[j], path, done);
        if first.cycle is None {
            lemma_distinct_members_fit(path + first.done, all_names(g));
            lemma_visit_all(g, deps, j + 1, path, first.done);
            let rest = visit_all(g, deps, j + 1, path, first.done);
            if rest.cycle is None {
                assert forall|k: int| j <= k < deps.len() implies rest.done.contains(
                    #[trigger] deps[k],
                ) by {
                    if k == j {
                        assert(first.done.contains(deps[j]));
                    }
                }
            }
        }
    }
}

/// Whether the search for a cycle in `g` does what it is for: it finds a
/// cycle exactly where there is one, and what it reports is a cycle of the
/// graph without repetitions that can be reached from the entry it names.
pub open spec fn search_is_right(g: Seq<(Seq<char>, Seq<Seq<char>>)>) -> bool {
    match first_cycle(g) {
        None => acyclic(g),
        Some((start, chain)) => !acyclic(g) && cycle_report(
            g,
            AnalyzerErrorView::CircularDependency {
                evaluation_name: start,
                dependency_chain: chain,
            },
        ),
    }
}

/// What holds of the search from the entries `g[i..]` in turn.
proof fn lemma_first_cycle_from(g: Seq<(Seq<char>, Seq<Seq<char>>)>, i: int, done: Seq<Seq<char>>)
    requires
        0 <= i <= g.len(),
        search_state(g, Seq::empty(), done),
        forall|k: int| 0 <= k < i ==> done.contains(#[trigger] g[k].0),
    ensures
        match first_cycle_from(g, i, done) {
            None => acyclic(g),
            Some((start, chain)) => !acyclic(g) && cycle_report(
                g,
                AnalyzerErrorView::CircularDependency {
                    evaluation_name: start,
                    dependency_chain: chain,
                },
            ),
        },
    decreases g.len() - i,
{
    let none = Seq::<Seq<char>>::empty();
    if i < g.len() {
        let start = g[i].0;
        lemma_all_names(g, i);
        if done.contains(start) {
            lemma_first_cycle_from(g, i + 1, done);
        } else {
            lemma_visit(g, start, none, done);
            let found = visit(g, start, none, done);
            match found.cycle {
                Some(chain) => {
                    let stack = found.path;
                    let k = choose|k: int|
                        0 <= k < stack.len() && chain == stack.subrange(k, stack.len() as int);
                    let way = stack.take(k + 1);
                    assert(way[0] == start);
                    assert(way.last() == chain[0]);
                    assert forall|q: int| 0 <= q < way.len() - 1 implies edge(
                        g,
                        #[trigger] way[q],
                        way[q + 1],
                    ) by {
                        assert(way[q] == stack[q] && way[q + 1] == stack[q + 1]);
                        assert(edge(g, stack[q], stack[q + 1]));
                    }
                    assert(walk(g, way));
                    assert(reaches(g, start, chain[0]));
                    assert(has_key(g, start));
                    assert(is_cycle(g, chain));
                },
                None => {
                    assert forall|k: int| 0 <= k < i + 1 implies found.done.contains(
                        #[trigger] g[k].0,
                    ) by {
                        if k < i {
                            assert(done.contains(g[k].0));
                        }
                    }
                    lemma_first_cycle_from(g, i + 1, found.done);
                },
            }
        }
    } else {
        assert(none + done =~= done);
        lemma_settled_is_acyclic(g, done);
    }
}

/// The search finds a cycle exactly where the graph has one; the chain that
/// it reports is a cycle of the graph in which no name occurs twice, and
/// the evaluation that it names has an entry in the graph from which the
/// chain can be reached.
pub proof fn lemma_search_is_right(g: Seq<(Seq<char>, Seq<Seq<char>>)>)
    ensures
        search_is_right(g),
{
    let none = Seq::<Seq<char>>::empty();
    assert(none + none =~= none);
    lemma_first_cycle_from(g, 0, none);
}

impl DependencyGraph {
    /// Searches the graph from `node` on, depth first. `path` holds the
    /// names on the way to `node`, `done` those that are fully explored. A
    /// name that stands on the path closes a cycle: the names of the path
    /// from that name on. A name that is fully explored is not looked at
    /// again. Where a cycle is found, `path` is left as it stood then.
    pub fn detect_cycle(&self, node: &String, done: &mut Vec<String>, path: &mut Vec<String>) -> (r:
        Option<Vec<String>>)
        requires
            self.wf(),
            search_state(self@, views(old(path)@), views(old(done)@)),
            all_names(self@).contains(node@),
            old(path)@.len() > 0 ==> edge(self@, views(old(path)@).last(), node@),
        ensures
            visit(self@, node@, views(old(path)@), views(old(done)@)) == (Search {
                cycle: match r {
                    Some(chain) => Some(views(chain@)),
                    None => None,
                },
                path: views(final(path)@),
                done: views(final(done)@),
            }),
        decreases all_names(self@).len() - (old(path)@.len() + old(done)@.len()),
    {
        let ghost g = self@;
        let ghost path0 = views(path@);
        let ghost done0 = views(done@);
        if let Some(k) = index_of_name(path, node) {
            let chain = copy_from(path, k);
            proof {
                assert(views(path@)[k as int] == path@[k as int]@);
                assert(path0[k as int] == node@);
                assert(path0.contains(node@));
                lemma_closed_cycle(g, node@, path0, done0);
                let first = path0.index_of(node@);
                assert(0 <= first < path0.len() && path0[first] == node@);
                assert(first == k);
            }
            return Some(chain);
        }
        if contains_name(done, node) {
            return None;
        }
        path.push(node.clone());
        let ghost path1 = views(path@);
        proof {
            assert(path1 =~= path0.push(node@));
            lemma_enter(g, node@, path0, done0);
        }
        match self.get(node) {
            None => {},
            Some(deps) => {
                let mut j: usize = 0;
                while j < deps.len()
                    invariant
                        j <= deps@.len(),
                        self.wf(),
                        g == self@,
                        views(deps@) == successors(g, node@),
                        has_key(g, node@),
                        views(path@) == path1,
                        path1 == path0.push(node@),
                        path@.len() == old(path)@.len() + 1,
                        done@.len() >= old(done)@.len(),
                        search_state(g, path1, views(done@)),
                        path0 == views(old(path)@),
                        done0 == views(old(done)@),
                        !path0.contains(node@),
                        !done0.contains(node@),
                        path0.len() + done0.len() < all_names(g).len(),
                        visit_all(g, views(deps@), 0, path1, done0) == visit_all(
                            g,
                            views(deps@),
                            j as int,
                            path1,
                            views(done@),
                        ),
                    decreases deps@.len() - j,
                {
                    let dep = &deps[j];
                    let ghost before = views(done@);
                    proof {
                        assert(views(deps@)[j as int] == dep@);
                        assert(successors(g, node@).contains(dep@));
                        lemma_all_names(g, key_index(g, node@));
                        assert(path1.last() == node@);
                        lemma_distinct_members_fit(path1 + before, all_names(g));
                        assert((path1 + before).len() == path@.len() + done@.len());
                        lemma_visit(g, dep@, path1, before);
                    }
                    let ghost this = visit_all(g, views(deps@), j as int, path1, before);
                    let ghost first = visit(g, dep@, path1, before);
                    if let Some(chain) = self.detect_cycle(dep, done, path) {
                        proof {
                            assert(this == first);
                            let below = visit_all(g, successors(g, node@), 0, path1, done0);
                            assert(below == first);
                            assert(visit(g, node@, path0, done0) == below);
                        }
                        return Some(chain);
                    }
                    proof {
                        assert(first.done == views(done@));
                        assert(views(done@).len() == done@.len());
                        assert(before.len() == done@.len() || before.len() <= done@.len());
                        lemma_distinct_members_fit(path1 + views(done@), all_names(g));
                        assert((path1 + views(done@)).len() == path1.len() + first.done.len());
                        assert(this == visit_all(g, views(deps@), j + 1, path1, first.done));
                    }
                    j += 1;
                }
            },
        }
        let ghost stack = path@;
        let ghost done1 = views(done@);
        path.pop();
        done.push(node.clone());
        proof {
            assert(visit_all(g, successors(g, node@), 0, path1, done0) == (Search {
                cycle: None,
                path: path1,
                done: done1,
            }));
            assert(visit(g, node@, path0, done0) == (Search {
                cycle: None,
                path: path0,
                done: done1.push(node@),
            }));
            assert(path@ =~= stack.drop_last());
            assert(views(path@) =~= path0) by {
                assert(views(path@).len() == path0.len());
                assert forall|i: int| 0 <= i < path0.len() implies views(path@)[i] == path0[i] by {
                    assert(views(path@)[i] == path@[i]@);
                    assert(views(stack)[i] == stack[i]@);
                    assert(path1[i] == path0[i]);
                }
            }
            assert(views(done@) =~= done1.push(node@));
        }
        None
    }

    /// Looks for a cycle in the graph, starting from each entry in turn,
    /// and reports the first one found: the entry from which the search set
    /// out, and the names of the cycle in the order in which they depend on
    /// each other.
    pub fn find_cycle(&self) -> (r: Result<(), AnalyzerError>)
        requires
            self.wf(),
        ensures
            match r {
                Ok(()) => first_cycle(self@) is None && acyclic(self@),
                Err(e) => first_cycle(self@) matches Some((start, chain)) && e@ == (
                AnalyzerErrorView::CircularDependency {
                    evaluation_name: start,
                    dependency_chain: chain,
                }) && cycle_report(self@, e@),
            },
    {
        let ghost g = self@;
        let mut done: Vec<String> = Vec::new();
        let mut path: Vec<String> = Vec::new();
        let n = self.len();
        let mut i: usize = 0;
        proof {
            lemma_search_is_right(g);
            assert(views(path@) =~= Seq::<Seq<char>>::empty());
            assert(views(done@) =~= Seq::<Seq<char>>::empty());
            assert(views(path@) + views(done@) =~= Seq::<Seq<char>>::empty());
        }
        while i < n
            invariant
                i <= n,
                n == g.len(),
                g == self@,
                self.wf(),
                path@.len() == 0,
                search_state(g, views(path@), views(done@)),
                search_is_right(g),
                first_cycle(g) == first_cycle_from(g, i as int, views(done@)),
            decreases n - i,
        {
            let start = self.key_at(i);
            proof {
                lemma_all_names(g, i as int);
                assert(views(path@) =~= Seq::<Seq<char>>::empty());
                lemma_visit(g, start@, views(path@), views(done@));
            }
            if !contains_name(&done, start) {
                let ghost before = views(done@);
                if let Some(cycle) = self.detect_cycle(start, &mut done, &mut path) {
                    assert(first_cycle_from(g, i as int, before) == Some((start@, views(cycle@))));
                    return Err(
                        AnalyzerError::CircularDependency {
                            evaluation_name: start.clone(),
                            dependency_chain: cycle,
                        },
                    );
                }
                assert(path@.len() == 0) by {
                    assert(views(path@).len() == path@.len());
                }
            }
            i += 1;
        }
        Ok(())
    }
}

/// A copy of the strings of `list` from the index `from` on.
pub fn copy_from(list: &Vec<String>, from: usize) -> (r: Vec<String>)
    requires
        from <= list@.len(),
    ensures
        views(r@) == views(list@).subrange(from as int, list@.len() as int),
{
    let mut out: Vec<String> = Vec::new();
    let mut i: usize = from;
    assert(views(out@) =~= views(list@).subrange(from as int, from as int));
    while i < list.len()
        invariant
            from <= i <= list@.len(),
            views(out@) == views(list@).subrange(from as int, i as int),
        decreases list@.len() - i,
    {
        let ghost before = views(out@);
        out.push(list[i].clone());
        proof {
            assert(views(list@)[i as int] == list@[i as int]@);
            assert(views(out@) =~= before.push(views(list@)[i as int]));
            assert(views(list@).subrange(from as int, i + 1) =~= views(list@).subrange(
                from as int,
                i as int,
            ).push(views(list@)[i as int]));
        }
        i += 1;
    }
    out
}

} // verus!
