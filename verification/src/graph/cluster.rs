//! Clusters of wallets: a union-find forest over wallet indices.

use crate::bytes::{byte_lists, bytes_eq, copy_bytes};
use vstd::prelude::*;

verus! {

/// The links of a forest are sound: every parent is an element, and every
/// element that is not its own parent lies on a lower level than its parent,
/// with all levels below `bound`.
pub open spec fn links_ok(parent: Seq<usize>, level: Seq<nat>, bound: nat) -> bool {
    &&& level.len() == parent.len()
    &&& forall|i: int| 0 <= i < level.len() ==> #[trigger] level[i] <= bound
    &&& forall|i: int|
        0 <= i < parent.len() ==> (#[trigger] parent[i]) < parent.len() && (parent[i] != i
            ==> level[i] < level[parent[i] as int])
}

/// The element at the top of the tree of `x`: `x` itself where it is its
/// own parent, else the top of its parent's tree.
pub open spec fn root_of(parent: Seq<usize>, level: Seq<nat>, bound: nat, x: int) -> int
    decreases
            if 0 <= x < parent.len() && links_ok(parent, level, bound) {
                bound - level[x] + 1
            } else {
                0
            },
{
    if 0 <= x < parent.len() && links_ok(parent, level, bound) && parent[x] != x {
        root_of(parent, level, bound, parent[x] as int)
    } else {
        x
    }
}

/// The root of an element is an element that is its own parent, and lies
/// on a level that is not below the element's.
proof fn lemma_root_is_root(parent: Seq<usize>, level: Seq<nat>, bound: nat, x: int)
    requires
        links_ok(parent, level, bound),
        0 <= x < parent.len(),
    ensures
        0 <= root_of(parent, level, bound, x) < parent.len(),
        parent[root_of(parent, level, bound, x)] == root_of(parent, level, bound, x),
        level[x] <= level[root_of(parent, level, bound, x)],
        parent[x] != x ==> level[x] < level[root_of(parent, level, bound, x)],
    decreases bound - level[x],
{
    if parent[x] != x {
        lemma_root_is_root(parent, level, bound, parent[x] as int);
    }
}

/// Hanging `x` directly under its own root changes the root of no element.
proof fn lemma_compress_keeps_roots(
    parent: Seq<usize>,
    level: Seq<nat>,
    bound: nat,
    x: int,
    i: int,
)
    requires
        links_ok(parent, level, bound),
        0 <= x < parent.len(),
        0 <= i < parent.len(),
    ensures
        links_ok(parent.update(x, root_of(parent, level, bound, x) as usize), level, bound),
        root_of(parent.update(x, root_of(parent, level, bound, x) as usize), level, bound, i)
            == root_of(parent, level, bound, i),
    decreases bound - level[i],
{
    let r = root_of(parent, level, bound, x);
    lemma_root_is_root(parent, level, bound, x);
    let after = parent.update(x, r as usize);
    assert(links_ok(after, level, bound)) by {
        assert forall|j: int| 0 <= j < after.len() implies (#[trigger] after[j]) < after.len()
            && (after[j] != j ==> level[j] < level[after[j] as int]) by {
            assert(parent[j] < parent.len());
        }
    }
    if i == x {
        if r != x {
            assert(after[r] == parent[r]);
            assert(root_of(after, level, bound, r) == r);
        }
    } else if parent[i] != i {
        assert(parent[i] < parent.len());
        lemma_compress_keeps_roots(parent, level, bound, x, parent[i] as int);
    }
}

/// Hanging the root `a` under another root `b`, whose level is raised above
/// that of `a`, gives every element of the tree of `a` the root `b` and
/// leaves every other root as it was.
proof fn lemma_link_roots(
    parent: Seq<usize>,
    level: Seq<nat>,
    bound: nat,
    a: int,
    b: int,
    i: int,
)
    requires
        links_ok(parent, level, bound),
        0 <= a < parent.len(),
        0 <= b < parent.len(),
        a != b,
        parent[a] == a,
        parent[b] == b,
        0 <= i < parent.len(),
    ensures
        ({
            let top = if level[b] > level[a] {
                level[b]
            } else {
                level[a] + 1
            };
            let level2 = level.update(b, top);
            let bound2 = if bound > top {
                bound
            } else {
                top
            };
            let parent2 = parent.update(a, b as usize);
            &&& links_ok(parent2, level2, bound2)
            &&& root_of(parent2, level2, bound2, i) == if root_of(parent, level, bound, i) == a {
                b
            } else {
                root_of(parent, level, bound, i)
            }
        }),
    decreases bound - level[i],
{
    let top = if level[b] > level[a] {
        level[b]
    } else {
        level[a] + 1
    };
    let level2 = level.update(b, top);
    let bound2 = if bound > top {
        bound
    } else {
        top
    };
    let parent2 = parent.update(a, b as usize);
    assert(links_ok(parent2, level2, bound2)) by {
        assert forall|j: int| 0 <= j < parent2.len() implies (#[trigger] parent2[j])
            < parent2.len() && (parent2[j] != j ==> level2[j] < level2[parent2[j] as int]) by {
            assert(parent[j] < parent.len());
        }
        assert forall|j: int| 0 <= j < level2.len() implies #[trigger] level2[j] <= bound2 by {
            assert(level[j] <= bound);
        }
    }
    if i == a {
        assert(parent2[b] == b);
        assert(root_of(parent2, level2, bound2, b) == b);
    } else if parent[i] != i {
        assert(parent[i] < parent.len());
        lemma_link_roots(parent, level, bound, a, b, parent[i] as int);
    }
}

/// A union-find forest over the elements `0 .. len`.
pub struct UnionFind {
    pub parent: Vec<usize>,
    pub rank: Vec<usize>,
    /// For each element a level that rises along every link.
    pub level: Ghost<Seq<nat>>,
    /// A level that none exceeds.
    pub bound: Ghost<nat>,
}

impl UnionFind {
    /// The forest is well formed.
    pub open spec fn wf(&self) -> bool {
        self.rank@.len() == self.parent@.len() && links_ok(self.parent@, self.level@, self.bound@)
    }

    /// The number of elements.
    pub open spec fn len(&self) -> nat {
        self.parent@.len()
    }

    /// The representative of the set of `x`.
    pub open spec fn root(&self, x: int) -> int {
        root_of(self.parent@, self.level@, self.bound@, x)
    }

    /// Whether `x` and `y` are in the same set.
    pub open spec fn same_set(&self, x: int, y: int) -> bool {
        self.root(x) == self.root(y)
    }

    /// Whether `i` and `j` are in the same set once the sets of `x` and `y`
    /// are joined: they are so already, or one is with `x` and the other
    /// with `y`.
    pub open spec fn joined(&self, x: int, y: int, i: int, j: int) -> bool {
        self.same_set(i, j) || (self.same_set(i, x) && self.same_set(j, y)) || (self.same_set(i, y)
            && self.same_set(j, x))
    }

    /// A forest of `size` elements, each in a set of its own.
    pub fn new(size: usize) -> (forest: Self)
        ensures
            forest.wf(),
            forest.len() == size,
            forall|i: int| 0 <= i < size ==> forest.root(i) == i,
    {
        let mut parent: Vec<usize> = Vec::new();
        let mut rank: Vec<usize> = Vec::new();
        let mut i: usize = 0;
        while i < size
            invariant
                i <= size,
                parent@.len() == i,
                rank@.len() == i,
                forall|j: int| 0 <= j < i ==> parent@[j] == j,
            decreases size - i,
        {
            parent.push(i);
            rank.push(0);
            i += 1;
        }
        let forest = UnionFind {
            parent,
            rank,
            level: Ghost(Seq::new(size as nat, |j: int| 0nat)),
            bound: Ghost(0nat),
        };
        assert(forest.wf());
        forest
    }

    /// The representative of the set of `x`. The path from `x` to it is
    /// shortened on the way; no element changes its set.
    pub fn find(&mut self, x: usize) -> (r: usize)
        requires
            old(self).wf(),
            x < old(self).len(),
        ensures
            final(self).wf(),
            final(self).len() == old(self).len(),
            r == old(self).root(x as int),
            r < final(self).len(),
            final(self).rank@ == old(self).rank@,
            final(self).level@ == old(self).level@,
            final(self).bound@ == old(self).bound@,
            forall|i: int| 0 <= i < old(self).len() ==> final(self).root(i) == old(self).root(i),
        decreases old(self).bound@ - old(self).level@[x as int],
    {
        proof {
            lemma_root_is_root(self.parent@, self.level@, self.bound@, x as int);
        }
        let p = self.parent[x];
        if p != x {
            let r = self.find(p);
            let ghost mid = self.parent@;
            proof {
                assert(self.root(x as int) == old(self).root(x as int));
                assert forall|i: int| 0 <= i < mid.len() implies root_of(
                    mid.update(x as int, r),
                    self.level@,
                    self.bound@,
                    i,
                ) == old(self).root(i) by {
                    lemma_compress_keeps_roots(mid, self.level@, self.bound@, x as int, i);
                }
                lemma_compress_keeps_roots(mid, self.level@, self.bound@, x as int, x as int);
            }
            self.parent[x] = r;
            assert(self.parent@ == mid.update(x as int, r));
            r
        } else {
            x
        }
    }

    /// Joins the sets of `x` and `y`. Two elements are in the same set
    /// afterwards where they were so before, or where one was with `x` and
    /// the other with `y`.
    pub fn union(&mut self, x: usize, y: usize)
        requires
            old(self).wf(),
            x < old(self).len(),
            y < old(self).len(),
        ensures
            final(self).wf(),
            final(self).len() == old(self).len(),
            forall|i: int, j: int|
                0 <= i < old(self).len() && 0 <= j < old(self).len() ==> (
                #[trigger] final(self).same_set(i, j) <==> old(self).joined(x as int, y as int, i, j)),
    {
        let rx = self.find(x);
        let ry = self.find(y);
        if rx == ry {
            return;
        }
        let ghost parent0 = self.parent@;
        let ghost level0 = self.level@;
        let ghost bound0 = self.bound@;
        proof {
            lemma_root_is_root(parent0, level0, bound0, x as int);
            lemma_root_is_root(parent0, level0, bound0, y as int);
            assert(self.root(x as int) == rx);
            assert(self.root(y as int) == ry);
        }
        let rank_x = self.rank[rx];
        let rank_y = self.rank[ry];
        if rank_x < rank_y {
            proof {
                let top = if level0[ry as int] > level0[rx as int] {
                    level0[ry as int]
                } else {
                    level0[rx as int] + 1
                };
                self.level = Ghost(level0.update(ry as int, top));
                self.bound = Ghost(
                    if bound0 > top {
                        bound0
                    } else {
                        top
                    },
                );
                assert forall|i: int| 0 <= i < parent0.len() implies root_of(
                    parent0.update(rx as int, ry),
                    self.level@,
                    self.bound@,
                    i,
                ) == if root_of(parent0, level0, bound0, i) == rx {
                    ry as int
                } else {
                    root_of(parent0, level0, bound0, i)
                } by {
                    lemma_link_roots(parent0, level0, bound0, rx as int, ry as int, i);
                }
                lemma_link_roots(parent0, level0, bound0, rx as int, ry as int, 0);
            }
            self.parent[rx] = ry;
        } else {
            proof {
                let top = if level0[rx as int] > level0[ry as int] {
                    level0[rx as int]
                } else {
                    level0[ry as int] + 1
                };
                self.level = Ghost(level0.update(rx as int, top));
                self.bound = Ghost(
                    if bound0 > top {
                        bound0
                    } else {
                        top
                    },
                );
                assert forall|i: int| 0 <= i < parent0.len() implies root_of(
                    parent0.update(ry as int, rx),
                    self.level@,
                    self.bound@,
                    i,
                ) == if root_of(parent0, level0, bound0, i) == ry {
                    rx as int
                } else {
                    root_of(parent0, level0, bound0, i)
                } by {
                    lemma_link_roots(parent0, level0, bound0, ry as int, rx as int, i);
                }
                lemma_link_roots(parent0, level0, bound0, ry as int, rx as int, 0);
            }
            self.parent[ry] = rx;
            if rank_x == rank_y && rank_x < usize::MAX {
                self.rank[rx] = rank_x + 1;
            }
        }
    }
}

/// Two wallets that sent to each other.
#[derive(Debug)]
pub struct WalletPair {
    pub source: Vec<u8>,
    pub dest: Vec<u8>,
}

impl View for WalletPair {
    type V = (Seq<u8>, Seq<u8>);

    open spec fn view(&self) -> (Seq<u8>, Seq<u8>) {
        (self.source@, self.dest@)
    }
}

/// The views of a run of pairs.
pub open spec fn pairs_view(pairs: Seq<WalletPair>) -> Seq<(Seq<u8>, Seq<u8>)> {
    pairs.map_values(|p: WalletPair| p@)
}

/// The list with `x` at its end, unless it holds `x` already.
pub open spec fn with_address(list: Seq<Seq<u8>>, x: Seq<u8>) -> Seq<Seq<u8>> {
    if list.contains(x) {
        list
    } else {
        list.push(x)
    }
}

/// The wallets of the pairs, each once, in the order in which they first
/// occur: the source of a pair before its destination.
pub open spec fn endpoints(pairs: Seq<(Seq<u8>, Seq<u8>)>) -> Seq<Seq<u8>>
    decreases pairs.len(),
{
    if pairs.len() == 0 {
        Seq::empty()
    } else {
        with_address(with_address(endpoints(pairs.drop_last()), pairs.last().0), pairs.last().1)
    }
}

/// Whether `a` and `b` are linked by the first `k` pairs: they are the
/// same wallet, or a chain of those pairs leads from one to the other.
pub open spec fn linked(pairs: Seq<(Seq<u8>, Seq<u8>)>, k: int, a: Seq<u8>, b: Seq<u8>) -> bool
    decreases k,
{
    if k <= 0 || k > pairs.len() {
        a == b
    } else {
        let (s, d) = pairs[k - 1];
        linked(pairs, k - 1, a, b) || (linked(pairs, k - 1, a, s) && linked(pairs, k - 1, b, d))
            || (linked(pairs, k - 1, a, d) && linked(pairs, k - 1, b, s))
    }
}

/// The wallets of the pairs are listed once each, and every wallet of a
/// pair is listed.
proof fn lemma_endpoints(pairs: Seq<(Seq<u8>, Seq<u8>)>)
    ensures
        forall|i: int, j: int|
            0 <= i < j < endpoints(pairs).len() ==> endpoints(pairs)[i] != endpoints(pairs)[j],
        forall|k: int|
            0 <= k < pairs.len() ==> endpoints(pairs).contains((#[trigger] pairs[k]).0)
                && endpoints(pairs).contains(pairs[k].1),
    decreases pairs.len(),
{
    if pairs.len() > 0 {
        let prefix = pairs.drop_last();
        lemma_endpoints(prefix);
        let e0 = endpoints(prefix);
        let e1 = with_address(e0, pairs.last().0);
        let e2 = with_address(e1, pairs.last().1);
        assert(e2 == endpoints(pairs));
        assert forall|x: Seq<u8>| e0.contains(x) implies e2.contains(x) by {
            let i = choose|i: int| 0 <= i < e0.len() && e0[i] == x;
            assert(e1[i] == x);
            assert(e2[i] == x);
        }
        assert(e1.contains(pairs.last().0)) by {
            if !e0.contains(pairs.last().0) {
                assert(e1[e0.len() as int] == pairs.last().0);
            }
        }
        assert(e2.contains(pairs.last().0)) by {
            let i = choose|i: int| 0 <= i < e1.len() && e1[i] == pairs.last().0;
            assert(e2[i] == pairs.last().0);
        }
        assert(e2.contains(pairs.last().1)) by {
            if !e1.contains(pairs.last().1) {
                assert(e2[e1.len() as int] == pairs.last().1);
            }
        }
        assert forall|k: int| 0 <= k < pairs.len() implies e2.contains((#[trigger] pairs[k]).0)
            && e2.contains(pairs[k].1) by {
            if k < prefix.len() {
                assert(pairs[k] == prefix[k]);
            } else {
                assert(pairs[k] == pairs.last());
            }
        }
        assert forall|i: int, j: int| 0 <= i < j < e1.len() implies e1[i] != e1[j] by {
            if j == e0.len() {
                assert(e1[i] == e0[i]);
            }
        }
        assert forall|i: int, j: int| 0 <= i < j < e2.len() implies e2[i] != e2[j] by {
            if j == e1.len() {
                assert(e2[i] == e1[i]);
            }
        }
    }
}

/// A wallet and the cluster that it belongs to.
#[derive(Debug)]
pub struct ClusterAssignment {
    pub address: Vec<u8>,
    pub cluster_id: u64,
}

/// One of the first `upto` assignments has the cluster `id`.
pub open spec fn cluster_used(out: Seq<ClusterAssignment>, upto: int, id: int) -> bool {
    exists|i: int| 0 <= i < upto && i < out.len() && (#[trigger] out[i]).cluster_id == id
}

/// The cluster of the assignment at `i` is the first, or the one before
/// it occurs earlier.
pub open spec fn cluster_in_order(out: Seq<ClusterAssignment>, i: int) -> bool {
    out[i].cluster_id >= 1 && (out[i].cluster_id > 1 ==> cluster_used(
        out,
        i,
        out[i].cluster_id - 1,
    ))
}

/// What the assignments say of the pairs: the wallets are those of the
/// pairs, once each in the order in which they first occur; two wallets
/// have the same cluster where the pairs link them, and only there; and the
/// clusters are numbered from one in the order in which they first occur.
pub open spec fn clusters_of(pairs: Seq<(Seq<u8>, Seq<u8>)>, out: Seq<ClusterAssignment>) -> bool {
    &&& out.len() == endpoints(pairs).len()
    &&& forall|i: int| 0 <= i < out.len() ==> (#[trigger] out[i]).address@ == endpoints(pairs)[i]
    &&& forall|i: int, j: int|
        0 <= i < out.len() && 0 <= j < out.len() ==> ((#[trigger] out[i]).cluster_id == (
        #[trigger] out[j]).cluster_id <==> linked(
            pairs,
            pairs.len() as int,
            endpoints(pairs)[i],
            endpoints(pairs)[j],
        ))
    &&& forall|i: int| 0 <= i < out.len() ==> #[trigger] cluster_in_order(out, i)
}

fn position_of(list: &Vec<Vec<u8>>, x: &[u8]) -> (i: usize)
    ensures
        i <= list@.len(),
        i < list@.len() ==> byte_lists(list@)[i as int] == x@,
        i == list@.len() ==> !byte_lists(list@).contains(x@),
{
    let mut i: usize = 0;
    while i < list.len()
        invariant
            i <= list@.len(),
            forall|j: int| 0 <= j < i ==> byte_lists(list@)[j] != x@,
        decreases list@.len() - i,
    {
        if bytes_eq(list[i].as_slice(), x) {
            assert(byte_lists(list@)[i as int] == x@);
            return i;
        }
        assert(byte_lists(list@)[i as int] != x@);
        i += 1;
    }
    i
}

fn list_endpoints(pairs: &[WalletPair]) -> (list: Vec<Vec<u8>>)
    ensures
        byte_lists(list@) == endpoints(pairs_view(pairs@)),
{
    let mut list: Vec<Vec<u8>> = Vec::new();
    let mut k: usize = 0;
    assert(pairs_view(pairs@).take(0) =~= Seq::<(Seq<u8>, Seq<u8>)>::empty());
    assert(byte_lists(list@) =~= Seq::<Seq<u8>>::empty());
    while k < pairs.len()
        invariant
            k <= pairs@.len(),
            byte_lists(list@) == endpoints(pairs_view(pairs@).take(k as int)),
        decreases pairs@.len() - k,
    {
        let pair = &pairs[k];
        proof {
            let next = pairs_view(pairs@).take(k + 1);
            assert(next.drop_last() =~= pairs_view(pairs@).take(k as int));
            assert(next.last() == pair@);
        }
        let ghost e0 = byte_lists(list@);
        if position_of(&list, pair.source.as_slice()) == list.len() {
            list.push(copy_bytes(pair.source.as_slice()));
            assert(byte_lists(list@) =~= e0.push(pair.source@));
        }
        let ghost e1 = byte_lists(list@);
        assert(e1 == with_address(e0, pair.source@));
        if position_of(&list, pair.dest.as_slice()) == list.len() {
            list.push(copy_bytes(pair.dest.as_slice()));
            assert(byte_lists(list@) =~= e1.push(pair.dest@));
        }
        assert(byte_lists(list@) == with_address(e1, pair.dest@));
        k += 1;
    }
    assert(pairs_view(pairs@).take(pairs@.len() as int) =~= pairs_view(pairs@));
    list
}

fn join_pairs(pairs: &[WalletPair], addresses: &Vec<Vec<u8>>) -> (forest: UnionFind)
    requires
        byte_lists(addresses@) == endpoints(pairs_view(pairs@)),
    ensures
        forest.wf(),
        forest.len() == addresses@.len(),
        forall|a: int, b: int|
            0 <= a < addresses@.len() && 0 <= b < addresses@.len() ==> (#[trigger] forest.same_set(
                a,
                b,
            ) <==> linked(
                pairs_view(pairs@),
                pairs@.len() as int,
                byte_lists(addresses@)[a],
                byte_lists(addresses@)[b],
            )),
{
    let ghost all = pairs_view(pairs@);
    let ghost ep = byte_lists(addresses@);
    let mut forest = UnionFind::new(addresses.len());
    proof {
        lemma_endpoints(all);
    }
    let mut k: usize = 0;
    while k < pairs.len()
        invariant
            k <= pairs@.len(),
            all == pairs_view(pairs@),
            ep == byte_lists(addresses@),
            ep == endpoints(all),
            forest.wf(),
            forest.len() == addresses@.len(),
            forall|i: int, j: int| 0 <= i < j < ep.len() ==> ep[i] != ep[j],
            forall|n: int|
                0 <= n < all.len() ==> ep.contains((#[trigger] all[n]).0) && ep.contains(all[n].1),
            forall|a: int, b: int|
                0 <= a < ep.len() && 0 <= b < ep.len() ==> (#[trigger] forest.same_set(a, b)
                    <==> linked(all, k as int, ep[a], ep[b])),
        decreases pairs@.len() - k,
    {
        let pair = &pairs[k];
        assert(all[k as int] == pair@);
        let i = position_of(addresses, pair.source.as_slice());
        let j = position_of(addresses, pair.dest.as_slice());
        let ghost before = forest;
        forest.union(i, j);
        proof {
            assert forall|a: int, b: int| 0 <= a < ep.len() && 0 <= b < ep.len() implies (
            #[trigger] forest.same_set(a, b) <==> linked(all, k + 1, ep[a], ep[b])) by {
                assert(forest.same_set(a, b) <==> before.joined(i as int, j as int, a, b));
                assert(before.same_set(a, b) <==> linked(all, k as int, ep[a], ep[b]));
                assert(before.same_set(a, i as int) <==> linked(all, k as int, ep[a], ep[i as int]));
                assert(before.same_set(b, j as int) <==> linked(all, k as int, ep[b], ep[j as int]));
                assert(before.same_set(a, j as int) <==> linked(all, k as int, ep[a], ep[j as int]));
                assert(before.same_set(b, i as int) <==> linked(all, k as int, ep[b], ep[i as int]));
            }
        }
        k += 1;
    }
    forest
}

/// Clusters the wallets that sent to each other. Two wallets are in one
/// cluster where a chain of pairs leads from one to the other. Every wallet
/// of a pair is listed once, in the order in which the pairs first show it,
/// and the clusters are numbered from one in the order in which they first
/// occur.
pub fn recluster(pairs: &[WalletPair]) -> (out: Vec<ClusterAssignment>)
    ensures
        clusters_of(pairs_view(pairs@), out@),
{
    let addresses = list_endpoints(pairs);
    let mut forest = join_pairs(pairs, &addresses);
    let ghost all = pairs_view(pairs@);
    let ghost ep = byte_lists(addresses@);
    let ghost first = forest;
    let n = addresses.len();
    let mut roots: Vec<usize> = Vec::new();
    let mut out: Vec<ClusterAssignment> = Vec::new();
    let mut idx: usize = 0;
    while idx < n
        invariant
            idx <= n,
            n == addresses@.len(),
            ep == byte_lists(addresses@),
            forest.wf(),
            forest.len() == n,
            first.len() == n,
            forall|i: int| 0 <= i < n ==> forest.root(i) == first.root(i),
            out@.len() == idx,
            roots@.len() <= idx,
            forall|i: int| 0 <= i < idx ==> (#[trigger] out@[i]).address@ == ep[i],
            forall|p: int, q: int| 0 <= p < q < roots@.len() ==> roots@[p] != roots@[q],
            forall|i: int|
                0 <= i < idx ==> 1 <= (#[trigger] out@[i]).cluster_id <= roots@.len()
                    && roots@[out@[i].cluster_id - 1] == first.root(i),
            forall|p: int|
                0 <= p < roots@.len() ==> #[trigger] cluster_used(out@, idx as int, p + 1),
            forall|i: int| 0 <= i < idx ==> #[trigger] cluster_in_order(out@, i),
        decreases n - idx,
    {
        let root = forest.find(idx);
        assert(root == first.root(idx as int));
        let mut p: usize = 0;
        while p < roots.len() && roots[p] != root
            invariant
                p <= roots@.len(),
                forall|q: int| 0 <= q < p ==> roots@[q] != root,
            decreases roots@.len() - p,
        {
            p += 1;
        }
        let ghost old_roots = roots@;
        let ghost old_out = out@;
        if p == roots.len() {
            roots.push(root);
        }
        let id = (p as u64) + 1;
        out.push(ClusterAssignment { address: copy_bytes(addresses[idx].as_slice()), cluster_id: id });
        proof {
            assert forall|i: int| 0 <= i < idx implies out@[i] == #[trigger] old_out[i] by {}
            assert forall|q: int, upto: int|
                0 <= upto <= idx && cluster_used(old_out, upto, q) implies #[trigger] cluster_used(
                out@,
                upto,
                q,
            ) by {
                let i = choose|i: int|
                    0 <= i < upto && i < old_out.len() && (#[trigger] old_out[i]).cluster_id == q;
                assert(out@[i] == old_out[i]);
            }
            assert forall|i: int| 0 <= i < idx + 1 implies 1 <= (#[trigger] out@[i]).cluster_id
                <= roots@.len() && roots@[out@[i].cluster_id - 1] == first.root(i) by {
                if i < idx {
                    assert(out@[i] == old_out[i]);
                    assert(roots@[old_out[i].cluster_id - 1] == old_roots[old_out[i].cluster_id - 1]);
                }
            }
            assert forall|q: int| 0 <= q < roots@.len() implies #[trigger] cluster_used(
                out@,
                idx + 1,
                q + 1,
            ) by {
                if q < old_roots.len() {
                    assert(cluster_used(old_out, idx as int, q + 1));
                    let i = choose|i: int|
                        0 <= i < idx && i < old_out.len() && (#[trigger] old_out[i]).cluster_id == q
                            + 1;
                    assert(out@[i] == old_out[i]);
                } else {
                    assert(out@[idx as int].cluster_id == q + 1);
                }
            }
            assert forall|i: int| 0 <= i < idx + 1 implies #[trigger] cluster_in_order(out@, i) by {
                if i < idx {
                    assert(cluster_in_order(old_out, i));
                    assert(out@[i] == old_out[i]);
                    if old_out[i].cluster_id > 1 {
                        assert(cluster_used(old_out, i, old_out[i].cluster_id - 1));
                    }
                } else if id > 1 {
                    assert(cluster_used(old_out, idx as int, (p - 1) + 1));
                    assert(cluster_used(out@, idx as int, p as int));
                }
            }
            assert forall|i: int| 0 <= i < idx + 1 implies (#[trigger] out@[i]).address@ == ep[i] by {
                if i < idx {
                    assert(out@[i] == old_out[i]);
                }
            }
        }
        idx += 1;
    }
    proof {
        assert forall|i: int, j: int| 0 <= i < out@.len() && 0 <= j < out@.len() implies ((
        #[trigger] out@[i]).cluster_id == (#[trigger] out@[j]).cluster_id <==> linked(
            all,
            all.len() as int,
            ep[i],
            ep[j],
        )) by {
            assert(first.same_set(i, j) <==> linked(all, all.len() as int, ep[i], ep[j]));
            let a = out@[i].cluster_id - 1;
            let b = out@[j].cluster_id - 1;
            assert(roots@[a] == first.root(i));
            assert(roots@[b] == first.root(j));
            if a != b {
                if a < b {
                    assert(roots@[a] != roots@[b]);
                } else {
                    assert(roots@[b] != roots@[a]);
                }
            }
        }
    }
    out
}

} // verus!
