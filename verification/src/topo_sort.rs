//! Parent graphs of changesets and their topological order.

use crate::ids::ChangesetId;
use vstd::prelude::*;
use vstd::set_lib::*;

verus! {

/// Whether `parent` is listed among the parents of `child`.
pub open spec fn has_edge(
    g: Map<ChangesetId, Seq<ChangesetId>>,
    child: ChangesetId,
    parent: ChangesetId,
) -> bool {
    g.contains_key(child) && g[child].contains(parent)
}

/// Whether `x` occurs in the graph, as a key or as somebody's parent.
pub open spec fn is_node(g: Map<ChangesetId, Seq<ChangesetId>>, x: ChangesetId) -> bool {
    g.contains_key(x) || exists|c: ChangesetId| has_edge(g, c, x)
}

/// Whether `order` lists every node of the graph exactly once, each one
/// after all of its parents.
pub open spec fn is_topological_order(
    g: Map<ChangesetId, Seq<ChangesetId>>,
    order: Seq<ChangesetId>,
) -> bool {
    &&& order.no_duplicates()
    &&& forall|x: ChangesetId| order.contains(x) <==> is_node(g, x)
    &&& forall|a: int, b: int|
        0 <= a < order.len() && 0 <= b < order.len() && #[trigger] has_edge(g, order[a], order[b])
            ==> b < a
}

/// The position after `k` on a closed path of `len` nodes.
pub open spec fn next_on_cycle(k: int, len: int) -> int {
    if k + 1 == len {
        0
    } else {
        k + 1
    }
}

/// Whether `path` is a closed walk along parent edges: each node lists the
/// next one as a parent, and the last one lists the first.
pub open spec fn is_cycle(g: Map<ChangesetId, Seq<ChangesetId>>, path: Seq<ChangesetId>) -> bool {
    &&& path.len() > 0
    &&& forall|k: int|
        0 <= k < path.len() ==> #[trigger] has_edge(
            g,
            path[k],
            path[next_on_cycle(k, path.len() as int)],
        )
}

/// Whether some changeset of the graph is its own ancestor.
pub open spec fn has_cycle(g: Map<ChangesetId, Seq<ChangesetId>>) -> bool {
    exists|path: Seq<ChangesetId>| is_cycle(g, path)
}

proof fn lemma_positions_descend(
    g: Map<ChangesetId, Seq<ChangesetId>>,
    order: Seq<ChangesetId>,
    path: Seq<ChangesetId>,
    k: int,
)
    requires
        is_topological_order(g, order),
        is_cycle(g, path),
        0 <= k < path.len(),
    ensures
        order.contains(path[k]),
        order.index_of(path[k]) + k <= order.index_of(path[0]),
    decreases k,
{
    assert(has_edge(g, path[k], path[next_on_cycle(k, path.len() as int)]));
    assert(is_node(g, path[k]));
    assert(order.contains(path[k]));
    if k > 0 {
        lemma_positions_descend(g, order, path, k - 1);
        let a = order.index_of(path[k - 1]);
        let b = order.index_of(path[k]);
        assert(has_edge(g, path[k - 1], path[next_on_cycle(k - 1, path.len() as int)]));
        assert(has_edge(g, order[a], order[b]));
    }
}

/// A graph whose nodes can be put in topological order has no cycle.
pub proof fn lemma_order_excludes_cycle(
    g: Map<ChangesetId, Seq<ChangesetId>>,
    order: Seq<ChangesetId>,
)
    requires
        is_topological_order(g, order),
    ensures
        !has_cycle(g),
{
    if has_cycle(g) {
        let path = choose|path: Seq<ChangesetId>| is_cycle(g, path);
        let last = path.len() - 1;
        lemma_positions_descend(g, order, path, last);
        lemma_positions_descend(g, order, path, 0);
        let a = order.index_of(path[last]);
        let b = order.index_of(path[0]);
        assert(has_edge(g, path[last], path[next_on_cycle(last, path.len() as int)]));
        assert(has_edge(g, order[a], order[b]));
    }
}

/// A finite map from changesets to their lists of parents.
pub struct ParentGraph {
    ids: Vec<ChangesetId>,
    parents: Vec<Vec<ChangesetId>>,
}

impl View for ParentGraph {
    type V = Map<ChangesetId, Seq<ChangesetId>>;

    closed spec fn view(&self) -> Map<ChangesetId, Seq<ChangesetId>> {
        Map::new(
            |id: ChangesetId| self.ids@.contains(id),
            |id: ChangesetId| self.parents@[self.ids@.index_of(id)]@,
        )
    }
}

/// Position of `x` in `ids`, if it occurs there.
pub fn find_id(ids: &Vec<ChangesetId>, x: ChangesetId) -> (r: Option<usize>)
    ensures
        match r {
            Some(k) => k < ids.len() && ids@[k as int] == x && forall|j: int|
                0 <= j < k ==> ids@[j] != x,
            None => !ids@.contains(x),
        },
{
    let mut i: usize = 0;
    while i < ids.len()
        invariant
            0 <= i <= ids.len(),
            forall|j: int| 0 <= j < i ==> ids@[j] != x,
        decreases ids.len() - i,
    {
        if ids[i] == x {
            return Some(i);
        }
        i += 1;
    }
    None
}

impl ParentGraph {
    #[verifier::type_invariant]
    spec fn inv(self) -> bool {
        self.ids.len() == self.parents.len() && self.ids@.no_duplicates()
    }

    proof fn lemma_entry(self, i: int)
        requires
            self.inv(),
            0 <= i < self.ids.len(),
        ensures
            self@.contains_key(self.ids@[i]),
            self@[self.ids@[i]] == self.parents@[i]@,
    {
        assert(self.ids@.contains(self.ids@[i]));
        assert(self.ids@.index_of(self.ids@[i]) == i);
    }

    /// The graph without changesets.
    pub fn new() -> (r: Self)
        ensures
            r@ == Map::<ChangesetId, Seq<ChangesetId>>::empty(),
    {
        let r = ParentGraph { ids: Vec::new(), parents: Vec::new() };
        assert(r@ =~= Map::<ChangesetId, Seq<ChangesetId>>::empty());
        r
    }

    /// Number of changesets that have a list of parents.
    pub fn len(&self) -> (r: usize)
        ensures
            r == self@.dom().len(),
            self@.dom().finite(),
    {
        proof {
            use_type_invariant(self);
            self.ids@.unique_seq_to_set();
            assert(self@.dom() =~= self.ids@.to_set());
        }
        self.ids.len()
    }

    /// Whether `id` has a list of parents.
    pub fn contains(&self, id: ChangesetId) -> (r: bool)
        ensures
            r == self@.contains_key(id),
    {
        find_id(&self.ids, id).is_some()
    }

    /// The parents listed for `id`.
    pub fn get(&self, id: ChangesetId) -> (r: Option<&Vec<ChangesetId>>)
        ensures
            match r {
                Some(ps) => self@.contains_key(id) && ps@ == self@[id],
                None => !self@.contains_key(id),
            },
    {
        proof {
            use_type_invariant(self);
        }
        match find_id(&self.ids, id) {
            Some(k) => {
                proof {
                    self.lemma_entry(k as int);
                }
                Some(&self.parents[k])
            },
            None => None,
        }
    }

    /// The graph in which `parents` are listed as the parents of `id`, in
    /// place of any earlier list.
    pub fn insert(self, id: ChangesetId, parents: Vec<ChangesetId>) -> (r: Self)
        ensures
            r@ == self@.insert(id, parents@),
    {
        proof {
            use_type_invariant(&self);
        }
        let ghost before = self;
        let ParentGraph { ids: mut ids, parents: mut lists } = self;
        match find_id(&ids, id) {
            Some(k) => {
                lists[k] = parents;
                let r = ParentGraph { ids, parents: lists };
                proof {
                    assert forall|x: ChangesetId| r@.contains_key(x) implies #[trigger] r@[x]
                        == before@.insert(id, parents@)[x] by {
                        let j = r.ids@.index_of(x);
                        assert(before.ids@.index_of(x) == j);
                    }
                    assert(r@ =~= before@.insert(id, parents@));
                }
                r
            },
            None => {
                ids.push(id);
                lists.push(parents);
                let r = ParentGraph { ids, parents: lists };
                proof {
                    let n = before.ids.len() as int;
                    assert(r.ids@ =~= before.ids@.push(id));
                    assert forall|x: ChangesetId| r.ids@.contains(x) implies (x == id
                        || before.ids@.contains(x)) by {
                        let j = r.ids@.index_of(x);
                        if j < n {
                            assert(before.ids@[j] == x);
                        }
                    }
                    assert forall|x: ChangesetId| before.ids@.contains(x) implies r.ids@.contains(
                        x,
                    ) by {
                        let j = before.ids@.index_of(x);
                        assert(r.ids@[j] == x);
                    }
                    assert(r.ids@[n] == id);
                    assert forall|x: ChangesetId| r@.contains_key(x) implies #[trigger] r@[x]
                        == before@.insert(id, parents@)[x] by {
                        let j = r.ids@.index_of(x);
                        if j < n {
                            assert(before.ids@[j] == x);
                            assert(before.ids@.index_of(x) == j);
                        }
                    }
                    assert(r@ =~= before@.insert(id, parents@));
                }
                r
            },
        }
    }
}

/// Whether `k` stands in `order` before position `a`.
spec fn placed_before(order: Seq<usize>, a: int, k: usize) -> bool {
    exists|b: int| 0 <= b < a && order[b] == k
}

/// What the sweeps keep true: `order` lists, without repetition, the entries
/// that are done, each one after the entries of its row.
spec fn sweep_inv(rows: Seq<Vec<usize>>, done: Seq<bool>, order: Seq<usize>) -> bool {
    &&& done.len() == rows.len()
    &&& order.no_duplicates()
    &&& forall|a: int| 0 <= a < order.len() ==> (#[trigger] order[a]) < rows.len()
    &&& forall|i: int| 0 <= i < rows.len() ==> (#[trigger] done[i] <==> order.contains(i as usize))
    &&& forall|a: int, t: int|
        0 <= a < order.len() && 0 <= t < rows[order[a] as int]@.len() ==> #[trigger] placed_before(
            order,
            a,
            rows[order[a] as int]@[t],
        )
}

/// Whether every entry that is not done waits for one that is not done.
spec fn stuck(rows: Seq<Vec<usize>>, done: Seq<bool>) -> bool {
    forall|i: int|
        0 <= i < rows.len() && !#[trigger] done[i] ==> exists|t: int|
            0 <= t < rows[i]@.len() && !done[rows[i]@[t] as int]
}

spec fn rows_in_range(rows: Seq<Vec<usize>>) -> bool {
    forall|i: int, t: int|
        0 <= i < rows.len() && 0 <= t < rows[i]@.len() ==> (#[trigger] rows[i]@[t]) < rows.len()
}

fn all_done(row: &Vec<usize>, done: &Vec<bool>) -> (r: bool)
    requires
        forall|t: int| 0 <= t < row@.len() ==> (#[trigger] row@[t]) < done@.len(),
    ensures
        r <==> forall|t: int| 0 <= t < row@.len() ==> done@[#[trigger] row@[t] as int],
{
    let mut t: usize = 0;
    while t < row.len()
        invariant
            0 <= t <= row.len(),
            forall|u: int| 0 <= u < row@.len() ==> (#[trigger] row@[u]) < done@.len(),
            forall|u: int| 0 <= u < t ==> done@[#[trigger] row@[u] as int],
        decreases row.len() - t,
    {
        if !done[row[t]] {
            return false;
        }
        t += 1;
    }
    true
}

/// One pass over the entries, from the last to the first if `backward` is
/// set: every entry whose row is done becomes done.
fn sweep(rows: &Vec<Vec<usize>>, done: Vec<bool>, order: Vec<usize>, backward: bool) -> (r: (
    Vec<bool>,
    Vec<usize>,
    bool,
))
    requires
        rows_in_range(rows@),
        sweep_inv(rows@, done@, order@),
    ensures
        sweep_inv(rows@, r.0@, r.1@),
        r.2 ==> r.1@.len() > order@.len(),
        !r.2 ==> r.0@ == done@ && r.1@ == order@ && stuck(rows@, done@),
{
    let n = rows.len();
    let mut done = done;
    let mut order = order;
    let ghost done0 = done@;
    let ghost order0 = order@;
    let mut progress = false;
    let mut seen: usize = 0;
    while seen < n
        invariant
            0 <= seen <= n,
            n == rows@.len(),
            rows_in_range(rows@),
            sweep_inv(rows@, done@, order@),
            progress ==> order@.len() > order0.len(),
            !progress ==> done@ == done0 && order@ == order0,
            !progress ==> forall|x: int|
                0 <= x < n && (if backward {
                    x >= n - seen
                } else {
                    x < seen
                }) && !#[trigger] done@[x] ==> exists|t: int|
                    0 <= t < rows@[x]@.len() && !done@[rows@[x]@[t] as int],
        decreases n - seen,
    {
        let i: usize = if backward {
            n - 1 - seen
        } else {
            seen
        };
        if !done[i] {
            assert forall|t: int| 0 <= t < rows@[i as int]@.len() implies (
            #[trigger] rows@[i as int]@[t]) < done@.len() by {}
            if all_done(&rows[i], &done) {
                let ghost done_before = done@;
                let ghost order_before = order@;
                done[i] = true;
                order.push(i);
                progress = true;
                proof {
                    let a_new = order_before.len() as int;
                    assert(!order_before.contains(i));
                    assert(order@ =~= order_before.push(i));
                    assert(done@ =~= done_before.update(i as int, true));
                    assert(order@.no_duplicates());
                    assert(forall|a: int| 0 <= a < order@.len() ==> (#[trigger] order@[a]) < rows@.len());
                    assert forall|x: int| 0 <= x < rows@.len() implies (#[trigger] done@[x]
                        <==> order@.contains(x as usize)) by {
                        if x == i {
                            assert(order@[a_new] == i);
                        } else {
                            if done_before[x] {
                                let b = order_before.index_of(x as usize);
                                assert(order@[b] == x as usize);
                            }
                            if order@.contains(x as usize) {
                                let b = order@.index_of(x as usize);
                                assert(b < a_new);
                                assert(order_before[b] == x as usize);
                            }
                        }
                    }
                    assert forall|a: int, t: int|
                        0 <= a < order@.len() && 0 <= t < rows@[order@[a] as int]@.len() implies #[trigger] placed_before(
                        order@,
                        a,
                        rows@[order@[a] as int]@[t],
                    ) by {
                        if a < a_new {
                            assert(order@[a] == order_before[a]);
                            assert(placed_before(order_before, a, rows@[order_before[a] as int]@[t]));
                            let b = choose|b: int|
                                0 <= b < a && order_before[b] == rows@[order_before[a] as int]@[t];
                            assert(order@[b] == order_before[b]);
                        } else {
                            let k = rows@[i as int]@[t];
                            assert(done_before[k as int]);
                            let b = order_before.index_of(k);
                            assert(order@[b] == k);
                        }
                    }
                    assert(sweep_inv(rows@, done@, order@));
                }
            }
        }
        seen += 1;
    }
    (done, order, progress)
}

/// A sequence that holds every number below `n` once, and nothing else, has
/// the length `n`.
pub proof fn lemma_permutation_len(s: Seq<int>, n: int)
    requires
        n >= 0,
        s.no_duplicates(),
        forall|a: int| 0 <= a < s.len() ==> 0 <= #[trigger] s[a] < n,
        forall|x: int| 0 <= x < n ==> s.contains(x),
    ensures
        s.len() == n,
{
    s.unique_seq_to_set();
    lemma_int_range(0, n);
    assert(s.to_set() =~= set_int_range(0, n)) by {
        assert forall|v: int| s.to_set().contains(v) <==> set_int_range(0, n).contains(v) by {
            if s.to_set().contains(v) {
                let a = s.index_of(v);
                assert(0 <= s[a] < n);
            }
        }
    }
}

/// A sequence of distinct numbers below `n`, none of them `x`, is shorter
/// than `n`.
proof fn lemma_distinct_below(s: Seq<usize>, n: int, x: int)
    requires
        s.no_duplicates(),
        0 <= x < n,
        forall|a: int| 0 <= a < s.len() ==> (#[trigger] s[a]) < n && s[a] != x,
    ensures
        s.len() < n,
{
    let ints = s.map_values(|v: usize| v as int);
    assert(ints.no_duplicates()) by {
        assert forall|a: int, b: int| 0 <= a < ints.len() && 0 <= b < ints.len() && a != b implies ints[a] != ints[b] by {
            assert(s[a] != s[b]);
        }
    }
    ints.unique_seq_to_set();
    lemma_int_range(0, n);
    let range = set_int_range(0, n).remove(x);
    assert(ints.to_set().subset_of(range)) by {
        assert forall|v: int| ints.to_set().contains(v) implies range.contains(v) by {
            let a = ints.index_of(v);
            assert(ints[a] == s[a] as int);
        }
    }
    lemma_len_subset(ints.to_set(), range);
}

/// A sequence of distinct numbers below `n` is no longer than `n`.
proof fn lemma_distinct_bounded(s: Seq<usize>, n: int)
    requires
        n >= 0,
        s.no_duplicates(),
        forall|a: int| 0 <= a < s.len() ==> (#[trigger] s[a]) < n,
    ensures
        s.len() <= n,
{
    let ints = s.map_values(|v: usize| v as int);
    assert(ints.no_duplicates()) by {
        assert forall|a: int, b: int|
            0 <= a < ints.len() && 0 <= b < ints.len() && a != b implies ints[a] != ints[b] by {
            assert(s[a] != s[b]);
        }
    }
    ints.unique_seq_to_set();
    lemma_int_range(0, n);
    assert(ints.to_set().subset_of(set_int_range(0, n))) by {
        assert forall|v: int| ints.to_set().contains(v) implies set_int_range(0, n).contains(
            v,
        ) by {
            let a = ints.index_of(v);
            assert(ints[a] == s[a] as int);
        }
    }
    lemma_len_subset(ints.to_set(), set_int_range(0, n));
}

/// A sequence of more than `n` numbers below `n` holds some number twice.
proof fn lemma_pigeonhole(s: Seq<usize>, n: int) -> (r: (int, int))
    requires
        s.len() > n,
        n >= 0,
        forall|a: int| 0 <= a < s.len() ==> (#[trigger] s[a]) < n,
    ensures
        0 <= r.0 < r.1 < s.len(),
        s[r.0] == s[r.1],
{
    if s.no_duplicates() {
        lemma_distinct_bounded(s, n);
        (0, 0)
    } else {
        let (a, b) = choose|a: int, b: int|
            0 <= a < s.len() && 0 <= b < s.len() && a != b && s[a] == s[b];
        if a < b {
            (a, b)
        } else {
            (b, a)
        }
    }
}

/// The entry that a stuck entry waits for.
spec fn blocker(rows: Seq<Vec<usize>>, done: Seq<bool>, i: usize) -> usize {
    let t = choose|t: int| 0 <= t < rows[i as int]@.len() && !done[rows[i as int]@[t] as int];
    rows[i as int]@[t]
}

/// The entry reached from `start` after `steps` steps from a stuck entry to
/// the one it waits for.
spec fn stuck_walk(rows: Seq<Vec<usize>>, done: Seq<bool>, start: usize, steps: nat) -> usize
    decreases steps,
{
    if steps == 0 {
        start
    } else {
        blocker(rows, done, stuck_walk(rows, done, start, (steps - 1) as nat))
    }
}

proof fn lemma_stuck_walk(rows: Seq<Vec<usize>>, done: Seq<bool>, start: usize, steps: nat)
    requires
        rows_in_range(rows),
        done.len() == rows.len(),
        stuck(rows, done),
        start < rows.len(),
        !done[start as int],
    ensures
        stuck_walk(rows, done, start, steps) < rows.len(),
        !done[stuck_walk(rows, done, start, steps) as int],
        steps > 0 ==> rows[stuck_walk(rows, done, start, (steps - 1) as nat) as int]@.contains(
            stuck_walk(rows, done, start, steps),
        ),
    decreases steps,
{
    if steps > 0 {
        lemma_stuck_walk(rows, done, start, (steps - 1) as nat);
        let i = stuck_walk(rows, done, start, (steps - 1) as nat);
        assert(!done[i as int]);
        let t = choose|t: int| 0 <= t < rows[i as int]@.len() && !done[rows[i as int]@[t] as int];
        assert(rows[i as int]@[t] < rows.len());
    }
}

/// Entries that wait for one another in a circle, found among stuck entries.
proof fn lemma_stuck_has_circle(rows: Seq<Vec<usize>>, done: Seq<bool>, start: usize) -> (r: Seq<
    usize,
>)
    requires
        rows_in_range(rows),
        done.len() == rows.len(),
        stuck(rows, done),
        start < rows.len(),
        !done[start as int],
    ensures
        r.len() > 0,
        forall|k: int| 0 <= k < r.len() ==> (#[trigger] r[k]) < rows.len(),
        forall|k: int|
            0 <= k < r.len() ==> rows[#[trigger] r[k] as int]@.contains(
                r[next_on_cycle(k, r.len() as int)],
            ),
{
    let n = rows.len() as int;
    let walk = Seq::new((n + 1) as nat, |k: int| stuck_walk(rows, done, start, k as nat));
    assert forall|a: int| 0 <= a < walk.len() implies (#[trigger] walk[a]) < n by {
        lemma_stuck_walk(rows, done, start, a as nat);
    }
    let (i, j) = lemma_pigeonhole(walk, n);
    let r = walk.subrange(i, j);
    assert forall|k: int| 0 <= k < r.len() implies rows[#[trigger] r[k] as int]@.contains(
        r[next_on_cycle(k, r.len() as int)],
    ) by {
        lemma_stuck_walk(rows, done, start, (i + k + 1) as nat);
        assert(r[k] == walk[i + k]);
        if k + 1 == r.len() {
            assert(walk[i + k + 1] == walk[j]);
            assert(r[0] == walk[i]);
        } else {
            assert(r[k + 1] == walk[i + k + 1]);
        }
    }
    r
}

/// Sweeps, in turns forward and backward, until every entry is done or
/// the entries left are stuck.
fn settle(rows: &Vec<Vec<usize>>) -> (r: (Vec<bool>, Vec<usize>))
    requires
        rows_in_range(rows@),
    ensures
        sweep_inv(rows@, r.0@, r.1@),
        stuck(rows@, r.0@),
{
    let n = rows.len();
    let mut done: Vec<bool> = Vec::new();
    let mut i: usize = 0;
    while i < n
        invariant
            0 <= i <= n,
            done@.len() == i,
            forall|x: int| 0 <= x < i ==> !#[trigger] done@[x],
        decreases n - i,
    {
        done.push(false);
        i += 1;
    }
    let mut order: Vec<usize> = Vec::new();
    let mut round: usize = 0;
    let mut progress = true;
    let mut backward = false;
    while progress && round < n
        invariant
            0 <= round <= n,
            n == rows@.len(),
            rows_in_range(rows@),
            sweep_inv(rows@, done@, order@),
            progress ==> order@.len() >= round,
            !progress ==> stuck(rows@, done@),
        decreases n - round,
    {
        let (d, o, p) = sweep(rows, done, order, backward);
        done = d;
        order = o;
        progress = p;
        backward = !backward;
        round += 1;
    }
    proof {
        if progress {
            assert forall|x: int| 0 <= x < rows@.len() implies #[trigger] done@[x] by {
                if !done@[x] {
                    assert forall|a: int| 0 <= a < order@.len() implies (#[trigger] order@[a]) < n
                        && order@[a] != x by {
                        if order@[a] == x {
                            assert(order@.contains(x as usize));
                        }
                    }
                    lemma_distinct_below(order@, n as int, x);
                }
            }
        }
    }
    (done, order)
}

fn first_not_done(done: &Vec<bool>) -> (r: Option<usize>)
    ensures
        match r {
            Some(x) => x < done@.len() && !done@[x as int],
            None => forall|x: int| 0 <= x < done@.len() ==> #[trigger] done@[x],
        },
{
    let mut i: usize = 0;
    while i < done.len()
        invariant
            0 <= i <= done.len(),
            forall|x: int| 0 <= x < i ==> #[trigger] done@[x],
        decreases done.len() - i,
    {
        if !done[i] {
            return Some(i);
        }
        i += 1;
    }
    None
}

/// Whether `x` is listed as a parent in one of the first `upto` lists.
spec fn listed(lists: Seq<Vec<ChangesetId>>, upto: int, x: ChangesetId) -> bool {
    exists|i: int, j: int| 0 <= i < upto && 0 <= j < lists[i]@.len() && lists[i]@[j] == x
}

/// Whether `row` holds the positions in `ids` of the members of `list` that
/// occur there.
spec fn row_matches(ids: Seq<ChangesetId>, list: Seq<ChangesetId>, row: Seq<usize>) -> bool {
    &&& forall|t: int|
        0 <= t < row.len() ==> (#[trigger] row[t]) < ids.len() && list.contains(ids[row[t] as int])
    &&& forall|j: int|
        0 <= j < list.len() && ids.contains(#[trigger] list[j]) ==> row.contains(
            ids.index_of(list[j]) as usize,
        )
}

/// Whether `x` occurs in `ids`.
pub fn contains_id(ids: &Vec<ChangesetId>, x: ChangesetId) -> (r: bool)
    ensures
        r == ids@.contains(x),
{
    find_id(ids, x).is_some()
}

/// Turns one list of parents into positions, and collects the parents
/// that have no position.
fn index_row(ids: &Vec<ChangesetId>, list: &Vec<ChangesetId>, sources: &mut Vec<ChangesetId>) -> (row:
    Vec<usize>)
    requires
        ids@.no_duplicates(),
        old(sources)@.no_duplicates(),
    ensures
        final(sources)@.no_duplicates(),
        forall|x: ChangesetId|
            #![trigger final(sources)@.contains(x)]
            final(sources)@.contains(x) <==> old(sources)@.contains(x) || (!ids@.contains(x)
                && list@.contains(x)),
        row_matches(ids@, list@, row@),
{
    let mut row: Vec<usize> = Vec::new();
    let mut j: usize = 0;
    while j < list.len()
        invariant
            0 <= j <= list.len(),
            ids@.no_duplicates(),
            sources@.no_duplicates(),
            forall|x: ChangesetId|
                #![trigger sources@.contains(x)]
                sources@.contains(x) <==> old(sources)@.contains(x) || (!ids@.contains(x)
                    && list@.take(j as int).contains(x)),
            row_matches(ids@, list@.take(j as int), row@),
        decreases list.len() - j,
    {
        let p = list[j];
        let ghost row_before = row@;
        let ghost sources_before = sources@;
        let ghost seen = list@.take(j as int);
        let ghost seen_next = list@.take(j + 1);
        proof {
            assert(seen_next =~= seen.push(p));
            assert forall|x: ChangesetId|
                #![trigger seen_next.contains(x)]
                seen_next.contains(x) <==> seen.contains(x) || x == p by {
                if seen.contains(x) {
                    let a = seen.index_of(x);
                    assert(seen_next[a] == x);
                }
                if x == p {
                    assert(seen_next[j as int] == p);
                }
                if seen_next.contains(x) {
                    let a = seen_next.index_of(x);
                    if a < j {
                        assert(seen[a] == x);
                    }
                }
            }
        }
        match find_id(ids, p) {
            Some(k) => {
                row.push(k);
                proof {
                    assert(ids@.index_of(p) == k);
                    assert(row@ =~= row_before.push(k));
                    assert forall|t: int| 0 <= t < row@.len() implies (#[trigger] row@[t])
                        < ids@.len() && seen_next.contains(ids@[row@[t] as int]) by {
                        if t < row_before.len() {
                            assert(row@[t] == row_before[t]);
                        }
                    }
                    assert forall|a: int|
                        0 <= a < seen_next.len() && ids@.contains(
                            #[trigger] seen_next[a],
                        ) implies row@.contains(ids@.index_of(seen_next[a]) as usize) by {
                        if a < j {
                            assert(seen[a] == seen_next[a]);
                            let w = ids@.index_of(seen[a]) as usize;
                            assert(row_before.contains(w));
                            let t = row_before.index_of(w);
                            assert(row@[t] == w);
                        } else {
                            assert(row@[row_before.len() as int] == k);
                        }
                    }
                }
            },
            None => {
                if !contains_id(sources, p) {
                    sources.push(p);
                    proof {
                        assert(sources@ =~= sources_before.push(p));
                        assert forall|x: ChangesetId|
                            #![trigger sources@.contains(x)]
                            sources@.contains(x) <==> sources_before.contains(x) || x == p by {
                            if sources_before.contains(x) {
                                let a = sources_before.index_of(x);
                                assert(sources@[a] == x);
                            }
                            if x == p {
                                assert(sources@[sources_before.len() as int] == p);
                            }
                            if sources@.contains(x) {
                                let a = sources@.index_of(x);
                                if a < sources_before.len() {
                                    assert(sources_before[a] == x);
                                }
                            }
                        }
                    }
                }
                proof {
                    assert forall|t: int| 0 <= t < row@.len() implies (#[trigger] row@[t])
                        < ids@.len() && seen_next.contains(ids@[row@[t] as int]) by {}
                    assert forall|a: int|
                        0 <= a < seen_next.len() && ids@.contains(
                            #[trigger] seen_next[a],
                        ) implies row@.contains(ids@.index_of(seen_next[a]) as usize) by {
                        if a < j {
                            assert(seen[a] == seen_next[a]);
                        }
                    }
                }
            },
        }
        proof {
            assert forall|x: ChangesetId|
                #![trigger sources@.contains(x)]
                sources@.contains(x) <==> old(sources)@.contains(x) || (!ids@.contains(x)
                    && seen_next.contains(x)) by {
                assert(sources_before.contains(x) <==> old(sources)@.contains(x) || (
                !ids@.contains(x) && seen.contains(x)));
                assert(seen_next.contains(x) <==> seen.contains(x) || x == p);
            }
        }
        j += 1;
    }
    proof {
        assert(list@.take(list@.len() as int) =~= list@);
    }
    row
}

/// Whether each of the first `upto` rows matches its list of parents.
spec fn rows_match(
    ids: Seq<ChangesetId>,
    lists: Seq<Vec<ChangesetId>>,
    rows: Seq<Vec<usize>>,
    upto: int,
) -> bool {
    forall|i: int| 0 <= i < upto ==> #[trigger] row_matches(ids, lists[i]@, rows[i]@)
}

spec fn sources_match(
    ids: Seq<ChangesetId>,
    lists: Seq<Vec<ChangesetId>>,
    upto: int,
    sources: Seq<ChangesetId>,
) -> bool {
    &&& sources.no_duplicates()
    &&& forall|x: ChangesetId|
        sources.contains(x) <==> !ids.contains(x) && listed(lists, upto, x)
}

proof fn lemma_rows_in_range(ids: Seq<ChangesetId>, lists: Seq<Vec<ChangesetId>>, rows: Seq<Vec<usize>>)
    requires
        rows.len() == ids.len(),
        rows_match(ids, lists, rows, rows.len() as int),
    ensures
        rows_in_range(rows),
{
    assert forall|i: int, t: int| 0 <= i < rows.len() && 0 <= t < rows[i]@.len() implies (
    #[trigger] rows[i]@[t]) < rows.len() by {
        assert(row_matches(ids, lists[i]@, rows[i]@));
    }
}

impl ParentGraph {
    /// The positions of the parents that are keys, list by list, and the
    /// parents that are not keys.
    fn index(&self) -> (r: (Vec<Vec<usize>>, Vec<ChangesetId>))
        ensures
            r.0@.len() == self.ids@.len(),
            rows_match(self.ids@, self.parents@, r.0@, self.ids@.len() as int),
            sources_match(self.ids@, self.parents@, self.ids@.len() as int, r.1@),
    {
        proof {
            use_type_invariant(self);
        }
        let n = self.ids.len();
        let mut rows: Vec<Vec<usize>> = Vec::new();
        let mut sources: Vec<ChangesetId> = Vec::new();
        let mut i: usize = 0;
        while i < n
            invariant
                0 <= i <= n,
                n == self.ids@.len(),
                n == self.parents@.len(),
                self.ids@.no_duplicates(),
                rows@.len() == i,
                rows_match(self.ids@, self.parents@, rows@, i as int),
                sources_match(self.ids@, self.parents@, i as int, sources@),
            decreases n - i,
        {
            let ghost rows_before = rows@;
            let ghost sources_before = sources@;
            let row = index_row(&self.ids, &self.parents[i], &mut sources);
            rows.push(row);
            proof {
                assert forall|x: int| 0 <= x < i + 1 implies #[trigger] row_matches(
                    self.ids@,
                    self.parents@[x]@,
                    rows@[x]@,
                ) by {
                    if x < i {
                        assert(rows@[x] == rows_before[x]);
                        assert(row_matches(self.ids@, self.parents@[x]@, rows_before[x]@));
                    }
                }
                assert forall|x: ChangesetId|
                    sources@.contains(x) <==> !self.ids@.contains(x) && listed(
                        self.parents@,
                        i + 1,
                        x,
                    ) by {
                    if listed(self.parents@, i as int, x) {
                        let (a, b) = choose|a: int, b: int|
                            0 <= a < i && 0 <= b < self.parents@[a]@.len() && self.parents@[a]@[b]
                                == x;
                        assert(0 <= a < i + 1 && 0 <= b < self.parents@[a]@.len()
                            && self.parents@[a]@[b] == x);
                    }
                    if self.parents@[i as int]@.contains(x) {
                        let b = self.parents@[i as int]@.index_of(x);
                        assert(0 <= i < i + 1 && 0 <= b < self.parents@[i as int]@.len()
                            && self.parents@[i as int]@[b] == x);
                    }
                    if listed(self.parents@, i + 1, x) {
                        let (a, b) = choose|a: int, b: int|
                            0 <= a < i + 1 && 0 <= b < self.parents@[a]@.len()
                                && self.parents@[a]@[b] == x;
                        if a < i {
                            assert(listed(self.parents@, i as int, x));
                        } else {
                            assert(self.parents@[i as int]@.contains(x));
                        }
                    }
                }
            }
            i += 1;
        }
        (rows, sources)
    }

    /// The sources followed by the keys in the order of `order` are a
    /// topological order of the graph.
    proof fn lemma_assembled(
        self,
        rows: Seq<Vec<usize>>,
        done: Seq<bool>,
        order: Seq<usize>,
        sources: Seq<ChangesetId>,
        out: Seq<ChangesetId>,
    )
        requires
            self.inv(),
            rows.len() == self.ids@.len(),
            rows_match(self.ids@, self.parents@, rows, rows.len() as int),
            sources_match(self.ids@, self.parents@, rows.len() as int, sources),
            sweep_inv(rows, done, order),
            forall|x: int| 0 <= x < done.len() ==> #[trigger] done[x],
            out.len() == sources.len() + order.len(),
            forall|a: int| 0 <= a < sources.len() ==> out[a] == sources[a],
            forall|a: int|
                0 <= a < order.len() ==> out[sources.len() + a] == self.ids@[order[a] as int],
        ensures
            is_topological_order(self@, out),
    {
        let g = self@;
        let ids = self.ids@;
        let lists = self.parents@;
        let n = ids.len() as int;
        let m = sources.len() as int;
        assert forall|a: int| 0 <= a < n implies g.contains_key(#[trigger] ids[a]) && g[ids[a]]
            == lists[a]@ by {
            self.lemma_entry(a);
        }
        assert forall|a: int| 0 <= a < m implies !ids.contains(#[trigger] out[a]) by {
            assert(sources.contains(sources[a]));
        }
        assert forall|a: int| m <= a < out.len() implies ids.contains(#[trigger] out[a]) by {
            assert(out[m + (a - m)] == ids[order[a - m] as int]);
        }
        assert forall|a: int, b: int| 0 <= a < out.len() && 0 <= b < out.len() && a != b implies out[a]
            != out[b] by {
            if a < m && b < m {
                assert(sources[a] != sources[b]);
            } else if a >= m && b >= m {
                assert(out[m + (a - m)] == ids[order[a - m] as int]);
                assert(out[m + (b - m)] == ids[order[b - m] as int]);
                assert(order[a - m] != order[b - m]);
            }
        }
        assert forall|x: ChangesetId| out.contains(x) <==> is_node(g, x) by {
            if out.contains(x) {
                let a = out.index_of(x);
                if a < m {
                    assert(sources.contains(sources[a]));
                    assert(listed(lists, n, x));
                    let (i, j) = choose|i: int, j: int|
                        0 <= i < n && 0 <= j < lists[i]@.len() && lists[i]@[j] == x;
                    assert(has_edge(g, ids[i], x));
                } else {
                    assert(ids.contains(out[a]));
                }
            }
            if is_node(g, x) {
                if ids.contains(x) {
                    let k = ids.index_of(x);
                    assert(done[k]);
                    assert(order.contains(k as usize));
                    let b = order.index_of(k as usize);
                    assert(out[m + b] == x);
                } else {
                    let c = choose|c: ChangesetId| has_edge(g, c, x);
                    let i = ids.index_of(c);
                    self.lemma_entry(i);
                    let j = lists[i]@.index_of(x);
                    assert(0 <= i < n && 0 <= j < lists[i]@.len() && lists[i]@[j] == x);
                    assert(listed(lists, n, x));
                    assert(sources.contains(x));
                    let a = sources.index_of(x);
                    assert(out[a] == x);
                }
            }
        }
        assert forall|a: int, b: int|
            0 <= a < out.len() && 0 <= b < out.len() && #[trigger] has_edge(
                g,
                out[a],
                out[b],
            ) implies b < a by {
            assert(ids.contains(out[a]));
            assert(a >= m);
            if b >= m {
                let c = order[a - m];
                let p = order[b - m];
                assert(out[m + (a - m)] == ids[c as int]);
                assert(out[m + (b - m)] == ids[p as int]);
                self.lemma_entry(c as int);
                assert(lists[c as int]@.contains(ids[p as int]));
                assert(row_matches(ids, lists[c as int]@, rows[c as int]@));
                let j = lists[c as int]@.index_of(ids[p as int]);
                assert(ids.contains(lists[c as int]@[j]));
                assert(ids.index_of(ids[p as int]) == p);
                assert(rows[c as int]@.contains(p));
                let t = rows[c as int]@.index_of(p);
                assert(placed_before(order, a - m, rows[order[a - m] as int]@[t]));
                let b2 = choose|b2: int| 0 <= b2 < a - m && order[b2] == p;
                assert(b2 == b - m);
            }
        }
    }

    /// A circle among the rows is a cycle of the graph.
    proof fn lemma_circle_is_cycle(self, rows: Seq<Vec<usize>>, circle: Seq<usize>)
        requires
            self.inv(),
            rows.len() == self.ids@.len(),
            rows_match(self.ids@, self.parents@, rows, rows.len() as int),
            circle.len() > 0,
            forall|k: int| 0 <= k < circle.len() ==> (#[trigger] circle[k]) < rows.len(),
            forall|k: int|
                0 <= k < circle.len() ==> rows[#[trigger] circle[k] as int]@.contains(
                    circle[next_on_cycle(k, circle.len() as int)],
                ),
        ensures
            has_cycle(self@),
    {
        let ids = self.ids@;
        let path = Seq::new(circle.len(), |k: int| ids[circle[k] as int]);
        assert forall|k: int| 0 <= k < path.len() implies #[trigger] has_edge(
            self@,
            path[k],
            path[next_on_cycle(k, path.len() as int)],
        ) by {
            let c = circle[k];
            let nk = next_on_cycle(k, circle.len() as int);
            let p = circle[nk];
            self.lemma_entry(c as int);
            assert(row_matches(ids, self.parents@[c as int]@, rows[c as int]@));
            let t = rows[c as int]@.index_of(p);
            assert(rows[c as int]@[t] == p);
        }
        assert(is_cycle(self@, path));
    }
}

/// Orders the nodes of the graph so that every changeset comes after all of
/// its parents. Returns `None` when the graph has a cycle, and only then.
pub fn sort_topological(dag: &ParentGraph) -> (r: Option<Vec<ChangesetId>>)
    ensures
        r is None <==> has_cycle(dag@),
        r matches Some(order) ==> is_topological_order(dag@, order@),
{
    proof {
        use_type_invariant(dag);
    }
    let (rows, sources) = dag.index();
    proof {
        lemma_rows_in_range(dag.ids@, dag.parents@, rows@);
    }
    let (done, order) = settle(&rows);
    match first_not_done(&done) {
        Some(x) => {
            proof {
                let circle = lemma_stuck_has_circle(rows@, done@, x);
                dag.lemma_circle_is_cycle(rows@, circle);
            }
            None
        },
        None => {
            let mut out = sources;
            let ghost m = out@.len();
            let mut a: usize = 0;
            while a < order.len()
                invariant
                    0 <= a <= order.len(),
                    dag.inv(),
                    rows@.len() == dag.ids@.len(),
                    sweep_inv(rows@, done@, order@),
                    out@.len() == m + a,
                    forall|b: int| 0 <= b < m ==> out@[b] == sources@[b],
                    forall|b: int| 0 <= b < a ==> out@[m + b] == dag.ids@[order@[b] as int],
                decreases order.len() - a,
            {
                out.push(dag.ids[order[a]]);
                a += 1;
            }
            proof {
                dag.lemma_assembled(rows@, done@, order@, sources@, out@);
                lemma_order_excludes_cycle(dag@, out@);
            }
            Some(out)
        },
    }
}

} // verus!
