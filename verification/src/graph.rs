use vstd::prelude::*;
use vstd::hash_map::StringHashMap;
use vstd::hash_set::HashSetWithView;

use crate::names::{name_less, name_lt, law_name_order_transitive};

verus! {

broadcast use vstd::std_specs::hash::group_hash_axioms;

/// One reply relation between two users: `from` replied to `to`.
#[derive(Debug, Clone, PartialEq, Eq, Hash)]
pub struct Pair {
    pub from: String,
    pub to: String,
}

/// Some row of `edges` says that `x` replied to `y`.
pub open spec fn has_edge(edges: Seq<Pair>, x: Seq<char>, y: Seq<char>) -> bool {
    exists|k: int| 0 <= k < edges.len() && #[trigger] edges[k].from@ == x && edges[k].to@ == y
}

/// `x` and `y` replied to each other.
pub open spec fn mutual(edges: Seq<Pair>, x: Seq<char>, y: Seq<char>) -> bool {
    has_edge(edges, x, y) && has_edge(edges, y, x)
}

/// `a`, `b`, `c` are three users who all replied to each other, named in
/// increasing order.
pub open spec fn is_triangle(edges: Seq<Pair>, a: Seq<char>, b: Seq<char>, c: Seq<char>) -> bool {
    &&& name_lt(a, b)
    &&& name_lt(b, c)
    &&& mutual(edges, a, b)
    &&& mutual(edges, b, c)
    &&& mutual(edges, a, c)
}

/// One more than the largest id: keys put the first id above every second id.
spec fn key_base() -> int {
    0x1_0000_0000_0000_0000
}

/// The number under which the ordered pair of ids `(i, j)` is stored in a set.
spec fn key(i: usize, j: usize) -> u128 {
    (i as int * key_base() + j as int) as u128
}

proof fn lemma_key(i: usize, j: usize)
    ensures
        key(i, j) as int == i as int * key_base() + j as int,
{
    assert(0 <= i as int * key_base() + j as int <= u128::MAX) by (nonlinear_arith)
        requires
            i <= u64::MAX,
            j <= u64::MAX,
    ;
}

proof fn lemma_key_injective(i: usize, j: usize, i2: usize, j2: usize)
    ensures
        key(i, j) == key(i2, j2) <==> (i == i2 && j == j2),
{
    lemma_key(i, j);
    lemma_key(i2, j2);
    if key(i, j) == key(i2, j2) {
        assert(i == i2 && j == j2) by (nonlinear_arith)
            requires
                i as int * key_base() + j as int == i2 as int * key_base() + j2 as int,
                0 <= j <= u64::MAX,
                0 <= j2 <= u64::MAX,
                key_base() == 0x1_0000_0000_0000_0000,
        ;
    }
}

/// Distinct names, each numbered by its position.
struct NameTable {
    names: Vec<String>,
    ids: StringHashMap<usize>,
}

impl NameTable {
    spec fn wf(&self) -> bool {
        &&& forall|i: int|
            0 <= i < self.names.len() ==> #[trigger] self.ids@.contains_key(self.names@[i]@)
                && self.ids@[self.names@[i]@] == i
        &&& forall|k: Seq<char>|
            #[trigger] self.ids@.contains_key(k) ==> self.ids@[k] < self.names.len()
                && self.names@[self.ids@[k] as int]@ == k
    }

    spec fn name(&self, i: int) -> Seq<char> {
        self.names@[i]@
    }

    proof fn lemma_distinct(&self, i: int, j: int)
        requires
            self.wf(),
            0 <= i < self.names.len(),
            0 <= j < self.names.len(),
            self.name(i) == self.name(j),
        ensures
            i == j,
    {
        assert(self.ids@.contains_key(self.names@[i]@));
        assert(self.ids@.contains_key(self.names@[j]@));
    }

    fn new() -> (r: Self)
        ensures
            r.wf(),
            r.names.len() == 0,
    {
        NameTable { names: Vec::new(), ids: StringHashMap::new() }
    }

    fn intern(&mut self, s: &String) -> (r: usize)
        requires
            old(self).wf(),
        ensures
            final(self).wf(),
            r < final(self).names.len(),
            final(self).name(r as int) == s@,
            final(self).ids@.contains_key(s@),
            final(self).ids@[s@] == r,
            old(self).names.len() <= final(self).names.len(),
            forall|i: int|
                0 <= i < old(self).names.len() ==> #[trigger] final(self).names@[i] == old(
                    self,
                ).names@[i],
            forall|k: Seq<char>| #[trigger]
                old(self).ids@.contains_key(k) ==> final(self).ids@.contains_key(k)
                    && final(self).ids@[k] == old(self).ids@[k],
    {
        match self.ids.get(s.as_str()) {
            Some(i) => *i,
            None => {
                let i = self.names.len();
                self.names.push(s.clone());
                self.ids.insert(s.clone(), i);
                proof {
                    assert(self.names@[i as int]@ == s@);
                    assert forall|j: int|
                        0 <= j < self.names.len() implies #[trigger] self.ids@.contains_key(
                        self.names@[j]@,
                    ) && self.ids@[self.names@[j]@] == j by {
                        if j < i {
                            assert(old(self).ids@.contains_key(old(self).names@[j]@));
                        }
                    }
                }
                i
            },
        }
    }
}


/// Some of the first `upto` rows say that `x` replied to `y`.
spec fn seen_edge(edges: Seq<Pair>, upto: int, x: Seq<char>, y: Seq<char>) -> bool {
    exists|k: int| 0 <= k < upto && #[trigger] edges[k].from@ == x && edges[k].to@ == y
}

spec fn pair_key(p: (usize, usize)) -> u128 {
    key(p.0, p.1)
}

/// The reply relation of the first `upto` rows, over numbered names.
struct Graph {
    table: NameTable,
    edge_keys: HashSetWithView<u128>,
    distinct: Vec<(usize, usize)>,
}

impl Graph {
    spec fn n(&self) -> int {
        self.table.names.len() as int
    }

    #[verifier::opaque]
    spec fn keys_match(&self) -> bool {
        &&& forall|m: int|
            0 <= m < self.distinct.len() ==> self.edge_keys@.contains(
                pair_key(#[trigger] self.distinct@[m]),
            )
        &&& forall|x: u128| #[trigger]
            self.edge_keys@.contains(x) ==> exists|m: int|
                0 <= m < self.distinct.len() && pair_key(#[trigger] self.distinct@[m]) == x
    }

    spec fn bounded(&self) -> bool {
        &&& forall|m: int|
            0 <= m < self.distinct.len() ==> (#[trigger] self.distinct@[m]).0 < self.n()
                && self.distinct@[m].1 < self.n()
        &&& self.distinct@.no_duplicates()
    }

    #[verifier::opaque]
    spec fn relation(&self, edges: Seq<Pair>, upto: int) -> bool {
        forall|i: usize, j: usize|
            i < self.n() && j < self.n() ==> (#[trigger] self.distinct@.contains((i, j))
                <==> seen_edge(edges, upto, self.table.name(i as int), self.table.name(j as int)))
    }

    #[verifier::opaque]
    spec fn interned(&self, edges: Seq<Pair>, upto: int) -> bool {
        forall|k: int|
            0 <= k < upto ==> self.table.ids@.contains_key((#[trigger] edges[k]).from@)
                && self.table.ids@.contains_key(edges[k].to@)
    }

    spec fn wf(&self, edges: Seq<Pair>, upto: int) -> bool {
        &&& self.table.wf()
        &&& self.bounded()
        &&& self.keys_match()
        &&& self.relation(edges, upto)
        &&& self.interned(edges, upto)
    }

    proof fn lemma_key_in(&self, i: usize, j: usize)
        requires
            self.keys_match(),
        ensures
            self.edge_keys@.contains(key(i, j)) <==> self.distinct@.contains((i, j)),
    {
        reveal(Graph::keys_match);
        if self.edge_keys@.contains(key(i, j)) {
            let m = choose|m: int|
                0 <= m < self.distinct.len() && pair_key(#[trigger] self.distinct@[m]) == key(i, j);
            lemma_key_injective(i, j, self.distinct@[m].0, self.distinct@[m].1);
        }
        if self.distinct@.contains((i, j)) {
            let m = choose|m: int| 0 <= m < self.distinct.len() && self.distinct@[m] == (i, j);
            assert(self.edge_keys@.contains(pair_key(self.distinct@[m])));
        }
    }
}

fn read_edges(edges: &Vec<Pair>) -> (g: Graph)
    ensures
        g.wf(edges@, edges.len() as int),
{
    let mut g = Graph {
        table: NameTable::new(),
        edge_keys: HashSetWithView::new(),
        distinct: Vec::new(),
    };
    let mut k: usize = 0;
    proof {
        reveal(Graph::keys_match);
        reveal(Graph::relation);
        reveal(Graph::interned);
    }
    while k < edges.len()
        invariant
            k <= edges.len(),
            g.wf(edges@, k as int),
        decreases edges.len() - k,
    {
        proof {
            reveal(Graph::keys_match);
            reveal(Graph::relation);
            reveal(Graph::interned);
        }
        let ghost old_g = g;
        let f = g.table.intern(&edges[k].from);
        let t = g.table.intern(&edges[k].to);
        let fresh = g.edge_keys.insert(pair_key_of(f, t));
        proof {
            old_g.lemma_key_in(f, t);
        }
        if fresh {
            g.distinct.push((f, t));
        }
        proof {
            let n0 = old_g.n();
            let e = edges@;
            let kk = k as int;
            assert(g.table.name(f as int) == e[kk].from@);
            assert(g.table.name(t as int) == e[kk].to@);
            assert(g.distinct@.contains((f, t))) by {
                if fresh {
                    assert(g.distinct@[g.distinct.len() - 1] == (f, t));
                } else {
                    let m = choose|m: int| 0 <= m < old_g.distinct.len() && old_g.distinct@[m] == (f, t);
                    assert(g.distinct@[m] == (f, t));
                }
            }
            assert forall|m: int|
                0 <= m < g.distinct.len() implies (#[trigger] g.distinct@[m]).0 < g.n()
                && g.distinct@[m].1 < g.n() by {
                if m < old_g.distinct.len() {
                    assert(g.distinct@[m] == old_g.distinct@[m]);
                }
            }
            if fresh {
                assert forall|a: int, b: int|
                    0 <= a < g.distinct.len() && 0 <= b < g.distinct.len() && a != b implies g.distinct@[a] != g.distinct@[b] by {
                    if b == g.distinct.len() - 1 {
                        assert(old_g.distinct@[a] == g.distinct@[a]);
                    } else if a == g.distinct.len() - 1 {
                        assert(old_g.distinct@[b] == g.distinct@[b]);
                    } else {
                        assert(old_g.distinct@[a] == g.distinct@[a]);
                        assert(old_g.distinct@[b] == g.distinct@[b]);
                    }
                }
            }
            assert forall|m: int|
                0 <= m < g.distinct.len() implies g.edge_keys@.contains(
                pair_key(#[trigger] g.distinct@[m]),
            ) by {
                if m < old_g.distinct.len() {
                    assert(g.distinct@[m] == old_g.distinct@[m]);
                }
            }
            assert forall|x: u128| #[trigger]
                g.edge_keys@.contains(x) implies exists|m: int|
                0 <= m < g.distinct.len() && pair_key(#[trigger] g.distinct@[m]) == x by {
                if x == key(f, t) {
                    let m = choose|m: int| 0 <= m < g.distinct.len() && g.distinct@[m] == (f, t);
                    assert(pair_key(g.distinct@[m]) == x);
                } else {
                    let m = choose|m: int|
                        0 <= m < old_g.distinct.len() && pair_key(#[trigger] old_g.distinct@[m]) == x;
                    assert(g.distinct@[m] == old_g.distinct@[m]);
                }
            }
            assert forall|i: usize, j: usize|
                i < g.n() && j < g.n() implies (#[trigger] g.distinct@.contains((i, j))
                <==> seen_edge(e, kk + 1, g.table.name(i as int), g.table.name(j as int))) by {
                if i == f && j == t {
                    assert(seen_edge(e, kk + 1, g.table.name(i as int), g.table.name(j as int)));
                } else {
                    // the row just read names other users than (i, j)
                    assert(!(e[kk].from@ == g.table.name(i as int) && e[kk].to@ == g.table.name(j as int))) by {
                        if e[kk].from@ == g.table.name(i as int) && e[kk].to@ == g.table.name(j as int) {
                            g.table.lemma_distinct(i as int, f as int);
                            g.table.lemma_distinct(j as int, t as int);
                        }
                    }
                    if i < n0 && j < n0 {
                        assert(g.table.names@[i as int] == old_g.table.names@[i as int]);
                        assert(g.table.names@[j as int] == old_g.table.names@[j as int]);
                        assert(old_g.distinct@.contains((i, j)) <==> seen_edge(e, kk, old_g.table.name(i as int), old_g.table.name(j as int)));
                        if g.distinct@.contains((i, j)) {
                            let m = choose|m: int| 0 <= m < g.distinct.len() && g.distinct@[m] == (i, j);
                            assert(old_g.distinct@[m] == (i, j));
                        }
                        if old_g.distinct@.contains((i, j)) {
                            let m = choose|m: int| 0 <= m < old_g.distinct.len() && old_g.distinct@[m] == (i, j);
                            assert(g.distinct@[m] == (i, j));
                        }
                        if seen_edge(e, kk + 1, g.table.name(i as int), g.table.name(j as int)) {
                            let k2 = choose|k2: int| 0 <= k2 < kk + 1 && #[trigger] e[k2].from@ == g.table.name(i as int) && e[k2].to@ == g.table.name(j as int);
                            assert(k2 < kk);
                        }
                    } else {
                        // a name met for the first time had no earlier row
                        assert(!g.distinct@.contains((i, j))) by {
                            if g.distinct@.contains((i, j)) {
                                let m = choose|m: int| 0 <= m < g.distinct.len() && g.distinct@[m] == (i, j);
                                assert(old_g.distinct@[m] == (i, j));
                            }
                        }
                        assert(!seen_edge(e, kk + 1, g.table.name(i as int), g.table.name(j as int))) by {
                            if seen_edge(e, kk + 1, g.table.name(i as int), g.table.name(j as int)) {
                                let k2 = choose|k2: int| 0 <= k2 < kk + 1 && #[trigger] e[k2].from@ == g.table.name(i as int) && e[k2].to@ == g.table.name(j as int);
                                assert(k2 < kk);
                                assert(old_g.table.ids@.contains_key(e[k2].from@));
                                assert(old_g.table.ids@.contains_key(e[k2].to@));
                                let i0 = old_g.table.ids@[e[k2].from@];
                                let j0 = old_g.table.ids@[e[k2].to@];
                                assert(g.table.names@[i0 as int] == old_g.table.names@[i0 as int]);
                                assert(g.table.names@[j0 as int] == old_g.table.names@[j0 as int]);
                                g.table.lemma_distinct(i as int, i0 as int);
                                g.table.lemma_distinct(j as int, j0 as int);
                            }
                        }
                    }
                }
            }
            assert forall|k2: int|
                0 <= k2 < kk + 1 implies g.table.ids@.contains_key((#[trigger] e[k2]).from@)
                && g.table.ids@.contains_key(e[k2].to@) by {
                if k2 < kk {
                    assert(old_g.table.ids@.contains_key(e[k2].from@));
                    assert(old_g.table.ids@.contains_key(e[k2].to@));
                }
            }
        }
        k = k + 1;
    }
    g
}

fn pair_key_of(i: usize, j: usize) -> (r: u128)
    ensures
        r == key(i, j),
{
    proof {
        lemma_key(i, j);
    }
    assert((i as u128) * 0x1_0000_0000_0000_0000u128 + (j as u128) <= u128::MAX) by (nonlinear_arith)
        requires
            i <= u64::MAX,
            j <= u64::MAX,
    ;
    (i as u128) * 0x1_0000_0000_0000_0000u128 + (j as u128)
}

impl Graph {
    /// `i` replied to `j`.
    spec fn linked(&self, i: usize, j: usize) -> bool {
        self.distinct@.contains((i, j))
    }

    spec fn below(&self, i: usize, j: usize) -> bool {
        name_lt(self.table.name(i as int), self.table.name(j as int))
    }

    /// `(i, j)` is a pair of users who replied to each other, `i` first by name.
    spec fn mutual_pair(&self, p: (usize, usize)) -> bool {
        self.below(p.0, p.1) && self.linked(p.0, p.1) && self.linked(p.1, p.0)
    }
}

#[verifier::opaque]
spec fn keys_cover(pairs: Seq<(usize, usize)>, keys: Set<u128>) -> bool {
    &&& forall|q: int|
        0 <= q < pairs.len() ==> keys.contains(key((#[trigger] pairs[q]).0, pairs[q].1))
            && keys.contains(key(pairs[q].1, pairs[q].0))
    &&& forall|x: u128| #[trigger]
        keys.contains(x) ==> exists|q: int|
            0 <= q < pairs.len() && (x == key((#[trigger] pairs[q]).0, pairs[q].1) || x == key(
                pairs[q].1,
                pairs[q].0,
            ))
}

#[verifier::opaque]
spec fn forward_cover(pairs: Seq<(usize, usize)>, forward: Seq<Vec<usize>>, n: int) -> bool {
    &&& forward.len() == n
    &&& forall|a: usize, c: usize|
        a < n ==> (#[trigger] forward[a as int]@.contains(c) <==> pairs.contains((a, c)))
    &&& forall|a: int| 0 <= a < n ==> (#[trigger] forward[a])@.no_duplicates()
}

proof fn lemma_add_keys(pairs: Seq<(usize, usize)>, keys: Set<u128>, f: usize, t: usize)
    requires
        keys_cover(pairs, keys),
    ensures
        keys_cover(pairs.push((f, t)), keys.insert(key(f, t)).insert(key(t, f))),
{
    reveal(keys_cover);
    let np = pairs.push((f, t));
    let nk = keys.insert(key(f, t)).insert(key(t, f));
    let last = np.len() - 1;
    assert(np[last] == (f, t));
    assert forall|q: int|
        0 <= q < np.len() implies nk.contains(key((#[trigger] np[q]).0, np[q].1)) && nk.contains(
        key(np[q].1, np[q].0),
    ) by {
        if q < last {
            assert(np[q] == pairs[q]);
        }
    }
    assert forall|x: u128| #[trigger]
        nk.contains(x) implies exists|q: int|
        0 <= q < np.len() && (x == key((#[trigger] np[q]).0, np[q].1) || x == key(np[q].1, np[q].0)) by {
        if x == key(f, t) || x == key(t, f) {
            assert(np[last] == (f, t));
        } else {
            let q = choose|q: int|
                0 <= q < pairs.len() && (x == key((#[trigger] pairs[q]).0, pairs[q].1) || x == key(
                    pairs[q].1,
                    pairs[q].0,
                ));
            assert(np[q] == pairs[q]);
        }
    }
}

proof fn lemma_add_forward(
    pairs: Seq<(usize, usize)>,
    forward: Seq<Vec<usize>>,
    new_forward: Seq<Vec<usize>>,
    n: int,
    f: usize,
    t: usize,
)
    requires
        forward_cover(pairs, forward, n),
        f < n,
        !pairs.contains((f, t)),
        new_forward.len() == forward.len(),
        new_forward[f as int]@ == forward[f as int]@.push(t),
        forall|a: int| 0 <= a < n && a != f ==> new_forward[a] == forward[a],
    ensures
        forward_cover(pairs.push((f, t)), new_forward, n),
{
    reveal(forward_cover);
    let np = pairs.push((f, t));
    assert forall|a: usize, c: usize|
        a < n implies (#[trigger] new_forward[a as int]@.contains(c) <==> np.contains((a, c))) by {
        if np.contains((a, c)) && (a, c) != (f, t) {
            let q = choose|q: int| 0 <= q < np.len() && np[q] == (a, c);
            assert(pairs[q] == (a, c));
        }
        if pairs.contains((a, c)) {
            let q = choose|q: int| 0 <= q < pairs.len() && pairs[q] == (a, c);
            assert(np[q] == (a, c));
        }
        if (a, c) == (f, t) {
            assert(np[np.len() - 1] == (f, t));
        }
        if a == f {
            let w = forward[a as int]@;
            let v = new_forward[a as int]@;
            if c != t {
                if v.contains(c) {
                    let j = choose|j: int| 0 <= j < v.len() && v[j] == c;
                    assert(w[j] == c);
                }
                if w.contains(c) {
                    let j = choose|j: int| 0 <= j < w.len() && w[j] == c;
                    assert(v[j] == c);
                }
            } else {
                assert(v[w.len() as int] == t);
            }
        }
    }
    assert forall|a: int| 0 <= a < n implies (#[trigger] new_forward[a])@.no_duplicates() by {
        if a == f {
            let v = new_forward[a]@;
            let w = forward[a]@;
            assert(!w.contains(t));
            assert forall|x: int, y: int|
                0 <= x < v.len() && 0 <= y < v.len() && x != y implies v[x] != v[y] by {
                if x == w.len() {
                    assert(w.contains(v[y]));
                } else if y == w.len() {
                    assert(w.contains(v[x]));
                }
            }
        }
    }
}

/// The mutual pairs among the first `upto` distinct edges.
struct Mutual {
    pairs: Vec<(usize, usize)>,
    keys: HashSetWithView<u128>,
    forward: Vec<Vec<usize>>,
}

impl Mutual {
    #[verifier::opaque]
    spec fn sound(&self, g: Graph) -> bool {
        forall|q: int| 0 <= q < self.pairs.len() ==> g.mutual_pair(#[trigger] self.pairs@[q])
    }

    #[verifier::opaque]
    spec fn origin(&self, g: Graph, upto: int) -> bool {
        forall|q: int|
            0 <= q < self.pairs.len() ==> exists|m: int|
                0 <= m < upto && g.distinct@[m] == #[trigger] self.pairs@[q]
    }

    #[verifier::opaque]
    spec fn complete(&self, g: Graph, upto: int) -> bool {
        forall|m: int|
            0 <= m < upto && g.mutual_pair(#[trigger] g.distinct@[m]) ==> self.pairs@.contains(
                g.distinct@[m],
            )
    }

    spec fn keys_ok(&self) -> bool {
        keys_cover(self.pairs@, self.keys@)
    }

    spec fn forward_ok(&self, n: int) -> bool {
        forward_cover(self.pairs@, self.forward@, n)
    }

    spec fn wf(&self, g: Graph, upto: int) -> bool {
        &&& self.sound(g)
        &&& self.origin(g, upto)
        &&& self.complete(g, upto)
        &&& self.pairs@.no_duplicates()
        &&& self.keys_ok()
        &&& self.forward_ok(g.n())
    }

    proof fn lemma_skip(&self, g: Graph, m: int)
        requires
            0 <= m < g.distinct.len(),
            self.wf(g, m),
            !g.mutual_pair(g.distinct@[m]),
        ensures
            self.wf(g, m + 1),
    {
        reveal(Mutual::origin);
        reveal(Mutual::complete);
        assert forall|q: int|
            0 <= q < self.pairs.len() implies exists|m2: int|
                0 <= m2 < m + 1 && g.distinct@[m2] == #[trigger] self.pairs@[q] by {
            let m2 = choose|m2: int| 0 <= m2 < m && g.distinct@[m2] == self.pairs@[q];
        }
    }

    proof fn lemma_fresh(&self, g: Graph, m: int)
        requires
            0 <= m < g.distinct.len(),
            g.bounded(),
            self.origin(g, m),
        ensures
            !self.pairs@.contains(g.distinct@[m]),
    {
        reveal(Mutual::origin);
        if self.pairs@.contains(g.distinct@[m]) {
            let q = choose|q: int| 0 <= q < self.pairs.len() && self.pairs@[q] == g.distinct@[m];
            let m2 = choose|m2: int| 0 <= m2 < m && g.distinct@[m2] == #[trigger] self.pairs@[q];
        }
    }

    proof fn lemma_pushed_pairs(old_mu: Mutual, new_pairs: Seq<(usize, usize)>, g: Graph, m: int)
        requires
            0 <= m < g.distinct.len(),
            g.bounded(),
            old_mu.wf(g, m),
            g.mutual_pair(g.distinct@[m]),
            new_pairs == old_mu.pairs@.push(g.distinct@[m]),
        ensures
            forall|q: int| 0 <= q < new_pairs.len() ==> g.mutual_pair(#[trigger] new_pairs[q]),
            forall|q: int|
                0 <= q < new_pairs.len() ==> exists|m2: int|
                    0 <= m2 < m + 1 && g.distinct@[m2] == #[trigger] new_pairs[q],
            forall|m2: int|
                0 <= m2 < m + 1 && g.mutual_pair(#[trigger] g.distinct@[m2]) ==> new_pairs.contains(
                    g.distinct@[m2],
                ),
            new_pairs.no_duplicates(),
    {
        reveal(Mutual::sound);
        reveal(Mutual::origin);
        reveal(Mutual::complete);
        old_mu.lemma_fresh(g, m);
        let last = new_pairs.len() - 1;
        assert(new_pairs[last] == g.distinct@[m]);
        assert forall|q: int|
            0 <= q < new_pairs.len() implies exists|m2: int|
                0 <= m2 < m + 1 && g.distinct@[m2] == #[trigger] new_pairs[q] by {
            if q < last {
                assert(new_pairs[q] == old_mu.pairs@[q]);
                let m2 = choose|m2: int| 0 <= m2 < m && g.distinct@[m2] == #[trigger] old_mu.pairs@[q];
            }
        }
        assert forall|m2: int|
            0 <= m2 < m + 1 && g.mutual_pair(#[trigger] g.distinct@[m2]) implies new_pairs.contains(
                g.distinct@[m2],
            ) by {
            if m2 < m {
                let q = choose|q: int| 0 <= q < old_mu.pairs.len() && old_mu.pairs@[q] == g.distinct@[m2];
                assert(new_pairs[q] == old_mu.pairs@[q]);
            }
        }
        assert forall|a: int, b: int|
            0 <= a < new_pairs.len() && 0 <= b < new_pairs.len() && a != b implies new_pairs[a]
            != new_pairs[b] by {
            if a == last {
                assert(old_mu.pairs@.contains(new_pairs[b]));
            } else if b == last {
                assert(old_mu.pairs@.contains(new_pairs[a]));
            }
        }
    }

    fn add(&mut self, g: &Graph, m: usize)
        requires
            m < g.distinct.len(),
            g.bounded(),
            old(self).wf(*g, m as int),
            g.mutual_pair(g.distinct@[m as int]),
        ensures
            final(self).wf(*g, m + 1),
    {
        let (f, t) = g.distinct[m];
        let ghost old_mu = *self;
        proof {
            old_mu.lemma_fresh(*g, m as int);
            reveal(forward_cover);
        }
        self.pairs.push((f, t));
        self.keys.insert(pair_key_of(f, t));
        self.keys.insert(pair_key_of(t, f));
        self.forward[f].push(t);
        proof {
            Mutual::lemma_pushed_pairs(old_mu, self.pairs@, *g, m as int);
            lemma_add_keys(old_mu.pairs@, old_mu.keys@, f, t);
            assert(f < g.n());
            lemma_add_forward(old_mu.pairs@, old_mu.forward@, self.forward@, g.n(), f, t);
            reveal(Mutual::sound);
            reveal(Mutual::origin);
            reveal(Mutual::complete);
        }
    }
}

fn empty_lists(n: usize) -> (r: Vec<Vec<usize>>)
    ensures
        r.len() == n,
        forall|a: int| 0 <= a < n ==> (#[trigger] r@[a])@.len() == 0,
{
    let mut r: Vec<Vec<usize>> = Vec::new();
    while r.len() < n
        invariant
            r.len() <= n,
            forall|a: int| 0 <= a < r.len() ==> (#[trigger] r@[a])@.len() == 0,
        decreases n - r.len(),
    {
        r.push(Vec::new());
    }
    r
}

fn find_mutual(g: &Graph, Ghost(edges): Ghost<Seq<Pair>>) -> (mu: Mutual)
    requires
        g.wf(edges, edges.len() as int),
    ensures
        mu.wf(*g, g.distinct.len() as int),
{
    let n = g.table.names.len();
    let mut mu = Mutual { pairs: Vec::new(), keys: HashSetWithView::new(), forward: empty_lists(n) };
    proof {
        reveal(Mutual::sound);
        reveal(Mutual::origin);
        reveal(Mutual::complete);
        reveal(keys_cover);
        reveal(forward_cover);
    }
    let mut m: usize = 0;
    while m < g.distinct.len()
        invariant
            g.wf(edges, edges.len() as int),
            n == g.n(),
            m <= g.distinct.len(),
            mu.wf(*g, m as int),
        decreases g.distinct.len() - m,
    {
        let (f, t) = g.distinct[m];
        proof {
            g.lemma_key_in(t, f);
        }
        if name_less(g.table.names[f].as_str(), g.table.names[t].as_str())
            && g.edge_keys.contains(&pair_key_of(t, f)) {
            mu.add(g, m);
        } else {
            proof {
                mu.lemma_skip(*g, m as int);
            }
        }
        m = m + 1;
    }
    mu
}

impl Mutual {
    /// The mutual pairs are listed once, so a key names a mutual pair in one
    /// of its two directions.
    proof fn lemma_keys(&self, g: Graph, m: int, a: usize, c: usize)
        requires
            self.wf(g, m),
            m == g.distinct.len(),
            g.bounded(),
        ensures
            self.keys@.contains(key(a, c)) ==> g.linked(a, c) && g.linked(c, a),
            g.below(a, c) && g.linked(a, c) && g.linked(c, a) ==> self.keys@.contains(key(a, c)),
    {
        reveal(keys_cover);
        reveal(Mutual::sound);
        reveal(Mutual::complete);
        if self.keys@.contains(key(a, c)) {
            let q = choose|q: int|
                0 <= q < self.pairs.len() && (key(a, c) == key((#[trigger] self.pairs@[q]).0, self.pairs@[q].1)
                    || key(a, c) == key(self.pairs@[q].1, self.pairs@[q].0));
            lemma_key_injective(a, c, self.pairs@[q].0, self.pairs@[q].1);
            lemma_key_injective(a, c, self.pairs@[q].1, self.pairs@[q].0);
            assert(g.mutual_pair(self.pairs@[q]));
        }
        if g.below(a, c) && g.linked(a, c) && g.linked(c, a) {
            let m2 = choose|m2: int| 0 <= m2 < g.distinct.len() && g.distinct@[m2] == (a, c);
            assert(g.mutual_pair(g.distinct@[m2]));
            let q = choose|q: int| 0 <= q < self.pairs.len() && self.pairs@[q] == (a, c);
            assert(self.keys@.contains(key(self.pairs@[q].0, self.pairs@[q].1)));
        }
    }

    /// The triple made from pair `q` and the `j`-th forward neighbour of its
    /// second member.
    spec fn made_at(&self, e: (usize, usize, usize), q: int, j: int) -> bool {
        &&& 0 <= q < self.pairs.len()
        &&& 0 <= j < self.forward@[self.pairs@[q].1 as int]@.len()
        &&& e == (self.pairs@[q].0, self.pairs@[q].1, self.forward@[self.pairs@[q].1 as int]@[j])
    }

    spec fn made_before(&self, e: (usize, usize, usize), q: int, j: int) -> bool {
        exists|q2: int, j2: int| (q2 < q || (q2 == q && j2 < j)) && #[trigger] self.made_at(e, q2, j2)
    }

    proof fn lemma_made_once(&self, g: Graph, e: (usize, usize, usize), q1: int, j1: int, q2: int, j2: int)
        requires
            self.wf(g, g.distinct.len() as int),
            g.bounded(),
            self.made_at(e, q1, j1),
            self.made_at(e, q2, j2),
        ensures
            q1 == q2 && j1 == j2,
    {
        reveal(forward_cover);
        reveal(Mutual::sound);
        assert(self.pairs@[q1] == self.pairs@[q2]);
        let b = self.pairs@[q1].1;
        assert(b < g.n());
        assert(self.forward@[b as int]@.no_duplicates());
    }

    /// Facts about the `j`-th forward neighbour of the second member of pair `q`.
    proof fn lemma_forward_pair(&self, g: Graph, q: int, j: int)
        requires
            self.wf(g, g.distinct.len() as int),
            g.bounded(),
            0 <= q < self.pairs.len(),
            0 <= j < self.forward@[self.pairs@[q].1 as int]@.len(),
        ensures
            g.mutual_pair(self.pairs@[q]),
            g.mutual_pair((self.pairs@[q].1, self.forward@[self.pairs@[q].1 as int]@[j])),
            self.forward@[self.pairs@[q].1 as int]@[j] < g.n(),
    {
        reveal(forward_cover);
        reveal(Mutual::sound);
        let b = self.pairs@[q].1;
        let c = self.forward@[b as int]@[j];
        assert(g.mutual_pair(self.pairs@[q]));
        assert(b < g.n()) by {
            let m2 = choose|m2: int| 0 <= m2 < g.distinct.len() && g.distinct@[m2] == (self.pairs@[q].0, b);
        }
        assert(self.forward@[b as int]@.contains(c));
        let q2 = choose|q2: int| 0 <= q2 < self.pairs.len() && self.pairs@[q2] == (b, c);
        assert(g.mutual_pair(self.pairs@[q2]));
        let m2 = choose|m2: int| 0 <= m2 < g.distinct.len() && g.distinct@[m2] == (b, c);
    }
}

spec fn id_triangle(g: Graph, e: (usize, usize, usize)) -> bool {
    &&& g.below(e.0, e.1)
    &&& g.below(e.1, e.2)
    &&& g.linked(e.0, e.1) && g.linked(e.1, e.0)
    &&& g.linked(e.1, e.2) && g.linked(e.2, e.1)
    &&& g.linked(e.0, e.2) && g.linked(e.2, e.0)
}

/// What the triangle scan has produced once it reached pair `q`, neighbour `j`.
spec fn scanned(g: Graph, mu: Mutual, out: Seq<(usize, usize, usize)>, q: int, j: int) -> bool {
    &&& forall|r: int| 0 <= r < out.len() ==> id_triangle(g, #[trigger] out[r])
    &&& forall|r: int| 0 <= r < out.len() ==> mu.made_before(#[trigger] out[r], q, j)
    &&& out.no_duplicates()
    &&& forall|q2: int, j2: int, e: (usize, usize, usize)|
        (q2 < q || (q2 == q && j2 < j)) && #[trigger] mu.made_at(e, q2, j2) && g.linked(e.0, e.2)
            && g.linked(e.2, e.0) ==> out.contains(e)
}

fn scan_pair(g: &Graph, mu: &Mutual, q: usize, out: &mut Vec<(usize, usize, usize)>)
    requires
        mu.wf(*g, g.distinct.len() as int),
        g.bounded(),
        q < mu.pairs.len(),
        scanned(*g, *mu, old(out)@, q as int, 0),
    ensures
        scanned(*g, *mu, final(out)@, q as int + 1, 0),
{
    let (a, b) = mu.pairs[q];
    proof {
        reveal(forward_cover);
        reveal(Mutual::sound);
        assert(g.mutual_pair(mu.pairs@[q as int]));
        let m2 = choose|m2: int| 0 <= m2 < g.distinct.len() && g.distinct@[m2] == (a, b);
        assert(b < g.n());
    }
    let ghost fw = mu.forward@[b as int]@;
    let mut j: usize = 0;
    while j < mu.forward[b].len()
        invariant
            mu.wf(*g, g.distinct.len() as int),
            g.bounded(),
            q < mu.pairs.len(),
            mu.pairs@[q as int] == (a, b),
            b < g.n(),
            mu.forward.len() == g.n(),
            fw == mu.forward@[b as int]@,
            j <= fw.len(),
            scanned(*g, *mu, out@, q as int, j as int),
        decreases fw.len() - j,
    {
        let c = mu.forward[b][j];
        let ghost old_out = out@;
        proof {
            mu.lemma_forward_pair(*g, q as int, j as int);
            law_name_order_transitive(g.table.name(a as int), g.table.name(b as int), g.table.name(c as int));
            mu.lemma_keys(*g, g.distinct.len() as int, a, c);
            assert(mu.made_at((a, b, c), q as int, j as int));
        }
        let found = mu.keys.contains(&pair_key_of(a, c));
        if found {
            proof {
                assert(!old_out.contains((a, b, c))) by {
                    if old_out.contains((a, b, c)) {
                        let r = choose|r: int| 0 <= r < old_out.len() && old_out[r] == (a, b, c);
                        assert(mu.made_before(old_out[r], q as int, j as int));
                        let (q2, j2) = choose|q2: int, j2: int|
                            (q2 < q || (q2 == q && j2 < j)) && #[trigger] mu.made_at(old_out[r], q2, j2);
                        mu.lemma_made_once(*g, (a, b, c), q as int, j as int, q2, j2);
                    }
                }
            }
            out.push((a, b, c));
        }
        proof {
            let o = out@;
            assert forall|r: int| 0 <= r < o.len() implies mu.made_before(#[trigger] o[r], q as int, j + 1) by {
                if r < old_out.len() {
                    assert(o[r] == old_out[r]);
                    assert(mu.made_before(old_out[r], q as int, j as int));
                    let (q2, j2) = choose|q2: int, j2: int|
                        (q2 < q || (q2 == q && j2 < j)) && #[trigger] mu.made_at(old_out[r], q2, j2);
                } else {
                    assert(mu.made_at(o[r], q as int, j as int));
                }
            }
            assert forall|r: int| 0 <= r < o.len() implies id_triangle(*g, #[trigger] o[r]) by {
                if r < old_out.len() {
                    assert(o[r] == old_out[r]);
                }
            }
            if found {
                assert forall|x: int, y: int| 0 <= x < o.len() && 0 <= y < o.len() && x != y implies o[x] != o[y] by {
                    if x == old_out.len() {
                        assert(old_out.contains(o[y]));
                    } else if y == old_out.len() {
                        assert(old_out.contains(o[x]));
                    }
                }
            }
            assert forall|q2: int, j2: int, e: (usize, usize, usize)|
                (q2 < q || (q2 == q && j2 < j + 1)) && #[trigger] mu.made_at(e, q2, j2) && g.linked(e.0, e.2)
                    && g.linked(e.2, e.0) implies o.contains(e) by {
                if q2 == q && j2 == j {
                    assert(e == (a, b, c));
                    assert(o[o.len() - 1] == e);
                } else {
                    let r = choose|r: int| 0 <= r < old_out.len() && old_out[r] == e;
                    assert(o[r] == e);
                }
            }
        }
        j = j + 1;
    }
    proof {
        let o = out@;
        assert forall|r: int| 0 <= r < o.len() implies mu.made_before(#[trigger] o[r], q + 1, 0) by {
            let (q2, j2) = choose|q2: int, j2: int|
                (q2 < q || (q2 == q && j2 < j)) && #[trigger] mu.made_at(o[r], q2, j2);
        }
        assert forall|q2: int, j2: int, e: (usize, usize, usize)|
            (q2 < q + 1 || (q2 == q + 1 && j2 < 0)) && #[trigger] mu.made_at(e, q2, j2) && g.linked(e.0, e.2)
                && g.linked(e.2, e.0) implies o.contains(e) by {
            assert(q2 < q || (q2 == q && j2 < j));
        }
    }
}

fn triangle_ids(g: &Graph, mu: &Mutual) -> (out: Vec<(usize, usize, usize)>)
    requires
        mu.wf(*g, g.distinct.len() as int),
        g.bounded(),
    ensures
        forall|r: int| 0 <= r < out.len() ==> id_triangle(*g, #[trigger] out@[r]),
        out@.no_duplicates(),
        forall|e: (usize, usize, usize)|
            e.0 < g.n() && e.1 < g.n() && e.2 < g.n() && id_triangle(*g, e) ==> out@.contains(e),
{
    let mut out: Vec<(usize, usize, usize)> = Vec::new();
    let mut q: usize = 0;
    while q < mu.pairs.len()
        invariant
            mu.wf(*g, g.distinct.len() as int),
            g.bounded(),
            q <= mu.pairs.len(),
            scanned(*g, *mu, out@, q as int, 0),
        decreases mu.pairs.len() - q,
    {
        scan_pair(g, mu, q, &mut out);
        q = q + 1;
    }
    proof {
        reveal(forward_cover);
        reveal(Mutual::complete);
        assert forall|e: (usize, usize, usize)|
            e.0 < g.n() && e.1 < g.n() && e.2 < g.n() && id_triangle(*g, e) implies out@.contains(e) by {
            let (a, b, c) = e;
            let m1 = choose|m1: int| 0 <= m1 < g.distinct.len() && g.distinct@[m1] == (a, b);
            assert(g.mutual_pair(g.distinct@[m1]));
            let q1 = choose|q1: int| 0 <= q1 < mu.pairs.len() && mu.pairs@[q1] == (a, b);
            let m2 = choose|m2: int| 0 <= m2 < g.distinct.len() && g.distinct@[m2] == (b, c);
            assert(g.mutual_pair(g.distinct@[m2]));
            assert(mu.pairs@.contains((b, c)));
            assert(mu.forward@[b as int]@.contains(c));
            let j1 = choose|j1: int| 0 <= j1 < mu.forward@[b as int]@.len() && mu.forward@[b as int]@[j1] == c;
            assert(mu.made_at(e, q1, j1));
        }
    }
    out
}

/// The names of a triple of users.
pub open spec fn names_of(t: (String, String, String)) -> (Seq<char>, Seq<char>, Seq<char>) {
    (t.0@, t.1@, t.2@)
}

impl Graph {
    proof fn lemma_linked(&self, edges: Seq<Pair>, i: usize, j: usize)
        requires
            self.wf(edges, edges.len() as int),
            i < self.n(),
            j < self.n(),
        ensures
            self.linked(i, j) <==> has_edge(edges, self.table.name(i as int), self.table.name(j as int)),
    {
        reveal(Graph::relation);
        assert(self.distinct@.contains((i, j)) <==> seen_edge(edges, edges.len() as int, self.table.name(i as int), self.table.name(j as int)));
    }

    /// A user named in some row has a number.
    proof fn lemma_named(&self, edges: Seq<Pair>, x: Seq<char>, y: Seq<char>) -> (i: usize)
        requires
            self.wf(edges, edges.len() as int),
            has_edge(edges, x, y) || has_edge(edges, y, x),
        ensures
            i < self.n(),
            self.table.name(i as int) == x,
    {
        reveal(Graph::interned);
        if has_edge(edges, x, y) {
            let k = choose|k: int| 0 <= k < edges.len() && #[trigger] edges[k].from@ == x && edges[k].to@ == y;
            assert(self.table.ids@.contains_key(edges[k].from@));
            self.table.ids@[x]
        } else {
            let k = choose|k: int| 0 <= k < edges.len() && #[trigger] edges[k].from@ == y && edges[k].to@ == x;
            assert(self.table.ids@.contains_key(edges[k].to@));
            self.table.ids@[x]
        }
    }
}

/// Finds every group of three users who all replied to one another.
///
/// Each such group comes out once, its members in increasing name order,
/// and nothing else comes out.
pub fn find_triangles(edges: &Vec<Pair>) -> (r: Vec<(String, String, String)>)
    ensures
        forall|i: int|
            0 <= i < r.len() ==> #[trigger] is_triangle(edges@, r@[i].0@, r@[i].1@, r@[i].2@),
        forall|i: int, j: int|
            0 <= i < r.len() && 0 <= j < r.len() && i != j ==> names_of(r@[i]) != names_of(r@[j]),
        forall|a: Seq<char>, b: Seq<char>, c: Seq<char>|
            #[trigger] is_triangle(edges@, a, b, c) ==> exists|i: int|
                0 <= i < r.len() && names_of(r@[i]) == (a, b, c),
{
    let g = read_edges(edges);
    let mu = find_mutual(&g, Ghost(edges@));
    let ids = triangle_ids(&g, &mu);
    proof {
        assert forall|x: int| 0 <= x < ids.len() implies (#[trigger] ids@[x]).0 < g.n() && ids@[x].1 < g.n() && ids@[x].2 < g.n() by {
            assert(id_triangle(g, ids@[x]));
            let m1 = choose|m1: int| 0 <= m1 < g.distinct.len() && g.distinct@[m1] == (ids@[x].0, ids@[x].1);
            let m2 = choose|m2: int| 0 <= m2 < g.distinct.len() && g.distinct@[m2] == (ids@[x].1, ids@[x].2);
        }
    }
    let mut r: Vec<(String, String, String)> = Vec::new();
    let mut i: usize = 0;
    while i < ids.len()
        invariant
            g.wf(edges@, edges.len() as int),
            forall|x: int| 0 <= x < ids.len() ==> id_triangle(g, #[trigger] ids@[x]),
            ids@.no_duplicates(),
            forall|e: (usize, usize, usize)|
                e.0 < g.n() && e.1 < g.n() && e.2 < g.n() && id_triangle(g, e) ==> ids@.contains(e),
            i <= ids.len(),
            r.len() == i,
            forall|x: int| 0 <= x < i ==> #[trigger] names_of(r@[x]) == (
                g.table.name(ids@[x].0 as int),
                g.table.name(ids@[x].1 as int),
                g.table.name(ids@[x].2 as int),
            ),
            forall|x: int| 0 <= x < ids.len() ==> (#[trigger] ids@[x]).0 < g.n() && ids@[x].1 < g.n() && ids@[x].2 < g.n(),
        decreases ids.len() - i,
    {
        let (a, b, c) = ids[i];
        r.push((g.table.names[a].clone(), g.table.names[b].clone(), g.table.names[c].clone()));
        proof {
            assert(names_of(r@[i as int]) == (
                g.table.name(ids@[i as int].0 as int),
                g.table.name(ids@[i as int].1 as int),
                g.table.name(ids@[i as int].2 as int),
            ));
        }
        i = i + 1;
    }
    proof {
        assert forall|x: int|
            0 <= x < r.len() implies #[trigger] is_triangle(edges@, r@[x].0@, r@[x].1@, r@[x].2@) by {
            let (a, b, c) = ids@[x];
            assert(id_triangle(g, ids@[x]));
            assert(names_of(r@[x]) == (g.table.name(a as int), g.table.name(b as int), g.table.name(c as int)));
            g.lemma_linked(edges@, a, b);
            g.lemma_linked(edges@, b, a);
            g.lemma_linked(edges@, b, c);
            g.lemma_linked(edges@, c, b);
            g.lemma_linked(edges@, a, c);
            g.lemma_linked(edges@, c, a);
        }
        assert forall|x: int, y: int|
            0 <= x < r.len() && 0 <= y < r.len() && x != y implies names_of(r@[x]) != names_of(r@[y]) by {
            if names_of(r@[x]) == names_of(r@[y]) {
                assert(names_of(r@[x]) == (g.table.name(ids@[x].0 as int), g.table.name(ids@[x].1 as int), g.table.name(ids@[x].2 as int)));
                assert(names_of(r@[y]) == (g.table.name(ids@[y].0 as int), g.table.name(ids@[y].1 as int), g.table.name(ids@[y].2 as int)));
                g.table.lemma_distinct(ids@[x].0 as int, ids@[y].0 as int);
                g.table.lemma_distinct(ids@[x].1 as int, ids@[y].1 as int);
                g.table.lemma_distinct(ids@[x].2 as int, ids@[y].2 as int);
                assert(ids@[x] == ids@[y]);
            }
        }
        assert forall|a: Seq<char>, b: Seq<char>, c: Seq<char>|
            #[trigger] is_triangle(edges@, a, b, c) implies exists|x: int|
            0 <= x < r.len() && names_of(r@[x]) == (a, b, c) by {
            let ia = g.lemma_named(edges@, a, b);
            let ib = g.lemma_named(edges@, b, a);
            let ic = g.lemma_named(edges@, c, b);
            g.lemma_linked(edges@, ia, ib);
            g.lemma_linked(edges@, ib, ia);
            g.lemma_linked(edges@, ib, ic);
            g.lemma_linked(edges@, ic, ib);
            g.lemma_linked(edges@, ia, ic);
            g.lemma_linked(edges@, ic, ia);
            assert(id_triangle(g, (ia, ib, ic)));
            assert(ids@.contains((ia, ib, ic)));
            let x = choose|x: int| 0 <= x < ids.len() && ids@[x] == (ia, ib, ic);
            assert(names_of(r@[x]) == (g.table.name(ids@[x].0 as int), g.table.name(ids@[x].1 as int), g.table.name(ids@[x].2 as int)));
        }
    }
    r
}

} // verus!
