use vstd::prelude::*;

verus! {

// ---------------------------------------------------------------------------
// Model: a parent array `p` is a disjoint-set forest when every index points
// inside the array and following parent links from any node reaches a node
// that is its own parent (a root) after finitely many steps.
// ---------------------------------------------------------------------------

/// Every parent link points inside the array.
pub open spec fn uf_bounded(p: Seq<usize>) -> bool {
    forall|j: int| 0 <= j < p.len() ==> #[trigger] p[j] < p.len()
}

/// `r` is its own parent.
pub open spec fn uf_is_root(p: Seq<usize>, r: int) -> bool {
    p[r] == r
}

/// The node reached from `i` after following at most `n` parent links
/// (the walk stops early at a root).
pub open spec fn uf_walk(p: Seq<usize>, i: int, n: nat) -> int
    decreases n,
{
    if n == 0 || p[i] == i {
        i
    } else {
        uf_walk(p, p[i] as int, (n - 1) as nat)
    }
}

/// The number of links that `uf_walk` follows from `i` with fuel `n`.
pub open spec fn uf_depth(p: Seq<usize>, i: int, n: nat) -> nat
    decreases n,
{
    if n == 0 || p[i] == i {
        0
    } else {
        1 + uf_depth(p, p[i] as int, (n - 1) as nat)
    }
}

/// `j` lies on the path from `i` towards its root (within `n` links);
/// the path includes `i` itself.
pub open spec fn uf_on_path(p: Seq<usize>, i: int, j: int, n: nat) -> bool
    decreases n,
{
    j == i || (n > 0 && p[i] != i && uf_on_path(p, p[i] as int, j, (n - 1) as nat))
}

/// With fuel `n`, every walk ends at a root.
pub open spec fn uf_settles(p: Seq<usize>, n: nat) -> bool {
    forall|j: int| 0 <= j < p.len() ==> uf_is_root(p, #[trigger] uf_walk(p, j, n))
}

/// `p` is a well-formed disjoint-set forest.
pub open spec fn uf_forest(p: Seq<usize>) -> bool {
    &&& uf_bounded(p)
    &&& exists|n: nat| uf_settles(p, n)
}

/// Some fuel with which every walk settles.
pub open spec fn uf_fuel(p: Seq<usize>) -> nat {
    choose|n: nat| uf_settles(p, n)
}

/// The representative (root) of the set that contains `i`.
pub open spec fn uf_root(p: Seq<usize>, i: int) -> int {
    uf_walk(p, i, uf_fuel(p))
}

/// `x` and `y` are in the same set.
pub open spec fn uf_same_set(p: Seq<usize>, x: int, y: int) -> bool {
    uf_root(p, x) == uf_root(p, y)
}

/// The parent array after full path compression from `i`: every node on the
/// path from `i` to its root now points directly at that root.
pub open spec fn uf_compressed(p: Seq<usize>, i: int) -> Seq<usize> {
    Seq::new(
        p.len(),
        |j: int|
            if uf_on_path(p, i, j, uf_fuel(p)) {
                uf_root(p, i) as usize
            } else {
                p[j]
            },
    )
}

/// Of two distinct roots, the one that stays a root when they are linked
/// by rank (ties keep the root of `a`).
pub open spec fn uf_winner(rank: Seq<usize>, ra: int, rb: int) -> int {
    if rank[ra] < rank[rb] {
        rb
    } else {
        ra
    }
}

/// Of two distinct roots, the one that is linked below the other.
pub open spec fn uf_loser(rank: Seq<usize>, ra: int, rb: int) -> int {
    if rank[ra] < rank[rb] {
        ra
    } else {
        rb
    }
}

/// The parent array after `union_find_merge(p, rank, a, b)`.
pub open spec fn uf_merge_parent(p: Seq<usize>, rank: Seq<usize>, a: int, b: int) -> Seq<usize> {
    let p1 = uf_compressed(p, a);
    let p2 = uf_compressed(p1, b);
    let ra = uf_root(p, a);
    let rb = uf_root(p, b);
    if ra == rb {
        p2
    } else {
        p2.update(uf_loser(rank, ra, rb), uf_winner(rank, ra, rb) as usize)
    }
}

/// The rank array after `union_find_merge(p, rank, a, b)`.
pub open spec fn uf_merge_rank(p: Seq<usize>, rank: Seq<usize>, a: int, b: int) -> Seq<usize> {
    let ra = uf_root(p, a);
    let rb = uf_root(p, b);
    if ra != rb && rank[ra] == rank[rb] {
        rank.update(ra, (rank[ra] + 1) as usize)
    } else {
        rank
    }
}

/// The representative of `j` after merging the sets of `a` and `b`.
pub open spec fn uf_merged_root(p: Seq<usize>, rank: Seq<usize>, a: int, b: int, j: int) -> int {
    let ra = uf_root(p, a);
    let rb = uf_root(p, b);
    if ra != rb && uf_root(p, j) == uf_loser(rank, ra, rb) {
        uf_winner(rank, ra, rb)
    } else {
        uf_root(p, j)
    }
}

/// What `union_find_merge` needs of the rank array: the two roots index it,
/// and a tie does not overflow the rank it increments.
pub open spec fn uf_rank_ok(p: Seq<usize>, rank: Seq<usize>, a: int, b: int) -> bool {
    let ra = uf_root(p, a);
    let rb = uf_root(p, b);
    ra != rb ==> {
        &&& ra < rank.len()
        &&& rb < rank.len()
        &&& rank[ra] == rank[rb] ==> rank[ra] < usize::MAX
    }
}

// ---------------------------------------------------------------------------
// Lemmas about walks
// ---------------------------------------------------------------------------

proof fn lemma_walk_in_range(p: Seq<usize>, i: int, n: nat)
    requires
        uf_bounded(p),
        0 <= i < p.len(),
    ensures
        0 <= uf_walk(p, i, n) < p.len(),
        uf_depth(p, i, n) <= n,
    decreases n,
{
    if n > 0 && p[i] != i {
        lemma_walk_in_range(p, p[i] as int, (n - 1) as nat);
    }
}

/// Once a walk has reached a root, more fuel changes nothing.
proof fn lemma_walk_stable(p: Seq<usize>, i: int, n: nat, m: nat)
    requires
        uf_bounded(p),
        0 <= i < p.len(),
        n <= m,
        uf_is_root(p, uf_walk(p, i, n)),
    ensures
        uf_walk(p, i, m) == uf_walk(p, i, n),
        uf_depth(p, i, m) == uf_depth(p, i, n),
        forall|x: int| uf_on_path(p, i, x, m) == uf_on_path(p, i, x, n),
    decreases n,
{
    if p[i] == i {
        assert forall|x: int| uf_on_path(p, i, x, m) == uf_on_path(p, i, x, n) by {}
    } else if n == 0 {
    } else {
        lemma_walk_stable(p, p[i] as int, (n - 1) as nat, (m - 1) as nat);
        assert forall|x: int| uf_on_path(p, i, x, m) == uf_on_path(p, i, x, n) by {
            assert(uf_on_path(p, p[i] as int, x, (m - 1) as nat) == uf_on_path(
                p,
                p[i] as int,
                x,
                (n - 1) as nat,
            ));
        }
    }
}

/// The walk with fuel `n` ends where the walk of its own depth ends.
proof fn lemma_walk_at_depth(p: Seq<usize>, i: int, n: nat)
    requires
        uf_bounded(p),
        0 <= i < p.len(),
    ensures
        uf_walk(p, i, uf_depth(p, i, n)) == uf_walk(p, i, n),
    decreases n,
{
    if n > 0 && p[i] != i {
        lemma_walk_at_depth(p, p[i] as int, (n - 1) as nat);
    }
}

/// Any two settling fuels give the same walks.
proof fn lemma_settles_same(p: Seq<usize>, n: nat, m: nat, i: int)
    requires
        uf_bounded(p),
        uf_settles(p, n),
        uf_settles(p, m),
        0 <= i < p.len(),
    ensures
        uf_walk(p, i, n) == uf_walk(p, i, m),
{
    assert(uf_is_root(p, uf_walk(p, i, n)));
    assert(uf_is_root(p, uf_walk(p, i, m)));
    if n <= m {
        lemma_walk_stable(p, i, n, m);
    } else {
        lemma_walk_stable(p, i, m, n);
    }
}

/// In a forest the representative of `i` is a root inside the array, and
/// any settling fuel computes it.
pub proof fn lemma_root_facts(p: Seq<usize>, i: int)
    requires
        uf_forest(p),
        0 <= i < p.len(),
    ensures
        uf_settles(p, uf_fuel(p)),
        0 <= uf_root(p, i) < p.len(),
        uf_is_root(p, uf_root(p, i)),
        uf_depth(p, i, uf_fuel(p)) <= uf_fuel(p),
        forall|n: nat| uf_settles(p, n) ==> uf_walk(p, i, n) == uf_root(p, i),
{
    let f = uf_fuel(p);
    assert(uf_settles(p, f));
    lemma_walk_in_range(p, i, f);
    assert(uf_is_root(p, uf_walk(p, i, f)));
    assert forall|n: nat| uf_settles(p, n) implies uf_walk(p, i, n) == uf_root(p, i) by {
        lemma_settles_same(p, n, f, i);
    }
}

/// One step towards the root keeps the representative and shortens the path.
proof fn lemma_root_step(p: Seq<usize>, i: int)
    requires
        uf_forest(p),
        0 <= i < p.len(),
        p[i] != i,
    ensures
        uf_fuel(p) > 0,
        uf_root(p, p[i] as int) == uf_root(p, i),
        uf_depth(p, p[i] as int, uf_fuel(p)) + 1 == uf_depth(p, i, uf_fuel(p)),
        forall|x: int|
            uf_on_path(p, i, x, uf_fuel(p)) == (x == i || uf_on_path(p, p[i] as int, x, uf_fuel(p))),
{
    let f = uf_fuel(p);
    lemma_root_facts(p, i);
    assert(f > 0);
    let f1 = (f - 1) as nat;
    assert(uf_walk(p, i, f) == uf_walk(p, p[i] as int, f1));
    lemma_walk_stable(p, p[i] as int, f1, f);
}

/// A node on the path from `i` has the same representative as `i`.
proof fn lemma_on_path_root(p: Seq<usize>, i: int, j: int, n: nat)
    requires
        uf_forest(p),
        0 <= i < p.len(),
        uf_on_path(p, i, j, n),
    ensures
        0 <= j < p.len(),
        uf_root(p, j) == uf_root(p, i),
    decreases n,
{
    if j != i {
        lemma_root_step(p, i);
        lemma_on_path_root(p, p[i] as int, j, (n - 1) as nat);
    }
}

// ---------------------------------------------------------------------------
// Redirecting nodes to their roots, and linking two roots
// ---------------------------------------------------------------------------

proof fn lemma_redirect_walk(p: Seq<usize>, q: Seq<usize>, j: int)
    requires
        uf_forest(p),
        q.len() == p.len(),
        forall|k: int| 0 <= k < p.len() ==> q[k] == p[k] || q[k] == uf_root(p, k),
        0 <= j < p.len(),
    ensures
        uf_walk(q, j, uf_depth(p, j, uf_fuel(p))) == uf_root(p, j),
    decreases uf_depth(p, j, uf_fuel(p)),
{
    let f = uf_fuel(p);
    lemma_root_facts(p, j);
    if p[j] == j {
        assert(uf_depth(p, j, f) == 0);
        assert(uf_walk(p, j, f) == j);
    } else {
        lemma_root_step(p, j);
        let d = uf_depth(p, j, f);
        let r = uf_root(p, j);
        lemma_root_facts(p, r);
        assert(uf_walk(p, r, f) == r);
        assert(q[r] == r);
        if q[j] == r {
            assert(r != j);
            assert(uf_walk(q, r, (d - 1) as nat) == r);
        } else {
            assert(q[j] == p[j]);
            lemma_redirect_walk(p, q, p[j] as int);
        }
    }
}

/// Pointing any nodes directly at their own roots keeps a forest and keeps
/// every node's representative.
pub proof fn lemma_redirect_to_roots(p: Seq<usize>, q: Seq<usize>)
    requires
        uf_forest(p),
        q.len() == p.len(),
        forall|k: int| 0 <= k < p.len() ==> q[k] == p[k] || q[k] == uf_root(p, k),
    ensures
        uf_forest(q),
        forall|j: int| 0 <= j < q.len() ==> uf_root(q, j) == uf_root(p, j),
{
    let f = uf_fuel(p);
    assert forall|k: int| 0 <= k < q.len() implies #[trigger] q[k] < q.len() by {
        lemma_root_facts(p, k);
    }
    assert forall|j: int| 0 <= j < q.len() implies uf_is_root(q, #[trigger] uf_walk(q, j, f)) && uf_walk(q, j, f) == uf_root(p, j) by {
        lemma_root_facts(p, j);
        let r = uf_root(p, j);
        lemma_root_facts(p, r);
        assert(uf_walk(p, r, f) == r);
        assert(q[r] == r);
        lemma_redirect_walk(p, q, j);
        lemma_walk_stable(q, j, uf_depth(p, j, f), f);
    }
    assert(uf_settles(q, f));
    assert forall|j: int| 0 <= j < q.len() implies uf_root(q, j) == uf_root(p, j) by {
        lemma_settles_same(q, f, uf_fuel(q), j);
    }
}

proof fn lemma_link_walk(p: Seq<usize>, lo: int, w: int, j: int)
    requires
        uf_forest(p),
        0 <= lo < p.len(),
        0 <= w < p.len(),
        lo != w,
        uf_is_root(p, lo),
        uf_is_root(p, w),
        0 <= j < p.len(),
    ensures
        uf_walk(p.update(lo, w as usize), j, uf_depth(p, j, uf_fuel(p)) + 1) == (if uf_root(p, j)
            == lo {
            w
        } else {
            uf_root(p, j)
        }),
    decreases uf_depth(p, j, uf_fuel(p)),
{
    let q = p.update(lo, w as usize);
    let f = uf_fuel(p);
    lemma_root_facts(p, j);
    if p[j] == j {
        assert(uf_root(p, j) == j);
        if j == lo {
            assert(uf_walk(q, w, 0) == w);
        } else {
            assert(q[j] == j);
        }
    } else {
        lemma_root_step(p, j);
        assert(j != lo);
        lemma_link_walk(p, lo, w, p[j] as int);
    }
}

/// Linking root `lo` below another root `w` keeps a forest; exactly the
/// nodes whose representative was `lo` now have representative `w`.
pub proof fn lemma_link_roots(p: Seq<usize>, lo: int, w: int)
    requires
        uf_forest(p),
        0 <= lo < p.len(),
        0 <= w < p.len(),
        lo != w,
        uf_is_root(p, lo),
        uf_is_root(p, w),
    ensures
        uf_forest(p.update(lo, w as usize)),
        forall|j: int|
            0 <= j < p.len() ==> uf_root(p.update(lo, w as usize), j) == (if uf_root(p, j) == lo {
                w
            } else {
                uf_root(p, j)
            }),
{
    let q = p.update(lo, w as usize);
    let f = uf_fuel(p);
    let f2 = f + 1;
    assert forall|k: int| 0 <= k < q.len() implies #[trigger] q[k] < q.len() by {}
    assert forall|j: int| 0 <= j < q.len() implies uf_is_root(q, #[trigger] uf_walk(q, j, f2 as nat)) && uf_walk(q, j, f2 as nat) == (if uf_root(p, j) == lo {
        w
    } else {
        uf_root(p, j)
    }) by {
        lemma_root_facts(p, j);
        let r = uf_root(p, j);
        lemma_root_facts(p, r);
        lemma_link_walk(p, lo, w, j);
        let d = uf_depth(p, j, f) + 1;
        let nr = if r == lo {
            w
        } else {
            r
        };
        assert(q[nr] == nr);
        lemma_walk_stable(q, j, d as nat, f2 as nat);
    }
    assert(uf_settles(q, f2 as nat));
    assert forall|j: int| 0 <= j < q.len() implies uf_root(q, j) == (if uf_root(p, j) == lo {
        w
    } else {
        uf_root(p, j)
    }) by {
        lemma_settles_same(q, f2 as nat, uf_fuel(q), j);
    }
}

/// Path compression from `i` keeps a forest, and every node keeps its
/// representative.
pub proof fn lemma_compressed_forest(p: Seq<usize>, i: int)
    requires
        uf_forest(p),
        0 <= i < p.len(),
    ensures
        uf_forest(uf_compressed(p, i)),
        forall|j: int| 0 <= j < p.len() ==> uf_root(uf_compressed(p, i), j) == uf_root(p, j),
{
    let q = uf_compressed(p, i);
    assert forall|k: int| 0 <= k < p.len() implies q[k] == p[k] || q[k] == uf_root(p, k) by {
        if uf_on_path(p, i, k, uf_fuel(p)) {
            lemma_on_path_root(p, i, k, uf_fuel(p));
            lemma_root_facts(p, i);
        }
    }
    lemma_redirect_to_roots(p, q);
}

// ---------------------------------------------------------------------------
// Executable operations
// ---------------------------------------------------------------------------

/// Finds the representative of `i`, compressing the path from `i` so that
/// every node on it points directly at the representative.
pub fn union_find_parent(parent: &mut Vec<usize>, i: usize) -> (r: usize)
    requires
        uf_forest(old(parent)@),
        i < old(parent).len(),
    ensures
        r == uf_root(old(parent)@, i as int),
        final(parent)@ == uf_compressed(old(parent)@, i as int),
    decreases uf_depth(old(parent)@, i as int, uf_fuel(old(parent)@)),
{
    let ghost p = parent@;
    proof {
        lemma_root_facts(p, i as int);
    }
    if parent[i] != i {
        let pi = parent[i];
        proof {
            lemma_root_step(p, i as int);
        }
        let r = union_find_parent(parent, pi);
        parent.set(i, r);
        proof {
            assert(parent@ =~= uf_compressed(p, i as int));
        }
    } else {
        proof {
            assert(uf_walk(p, i as int, uf_fuel(p)) == i);
            assert forall|j: int| uf_on_path(p, i as int, j, uf_fuel(p)) == (j == i) by {}
            assert(parent@ =~= uf_compressed(p, i as int));
        }
    }
    parent[i]
}

/// Merges the sets that contain `a` and `b`, linking the root of lower rank
/// below the other (on a tie the root of `b` goes below the root of `a`,
/// whose rank grows by one).
pub fn union_find_merge(parent: &mut Vec<usize>, rank: &mut Vec<usize>, a: usize, b: usize)
    requires
        uf_forest(old(parent)@),
        a < old(parent).len(),
        b < old(parent).len(),
        uf_rank_ok(old(parent)@, old(rank)@, a as int, b as int),
    ensures
        final(parent)@ == uf_merge_parent(old(parent)@, old(rank)@, a as int, b as int),
        final(rank)@ == uf_merge_rank(old(parent)@, old(rank)@, a as int, b as int),
        uf_forest(final(parent)@),
        forall|j: int|
            0 <= j < old(parent)@.len() ==> uf_root(final(parent)@, j) == uf_merged_root(
                old(parent)@,
                old(rank)@,
                a as int,
                b as int,
                j,
            ),
{
    let ghost p = parent@;
    let ghost rk = rank@;
    let ra = union_find_parent(parent, a);
    let ghost p1 = parent@;
    proof {
        lemma_compressed_forest(p, a as int);
    }
    let rb = union_find_parent(parent, b);
    let ghost p2 = parent@;
    proof {
        lemma_compressed_forest(p1, b as int);
        lemma_root_facts(p, a as int);
        lemma_root_facts(p, b as int);
        lemma_root_facts(p2, ra as int);
        lemma_root_facts(p2, rb as int);
        assert(uf_root(p2, ra as int) == ra);
        assert(uf_root(p2, rb as int) == rb);
    }
    if ra == rb {
        return;
    }
    if rank[ra] < rank[rb] {
        parent.set(ra, rb);
        proof {
            lemma_link_roots(p2, ra as int, rb as int);
        }
    } else if rank[ra] > rank[rb] {
        parent.set(rb, ra);
        proof {
            lemma_link_roots(p2, rb as int, ra as int);
        }
    } else {
        parent.set(rb, ra);
        rank.set(ra, rank[ra] + 1);
        proof {
            lemma_link_roots(p2, rb as int, ra as int);
        }
    }
}

// ---------------------------------------------------------------------------
// Laws
// ---------------------------------------------------------------------------

/// The representative of a representative is itself.
pub proof fn law_root_idempotent(p: Seq<usize>, i: int)
    requires
        uf_forest(p),
        0 <= i < p.len(),
    ensures
        uf_root(p, uf_root(p, i)) == uf_root(p, i),
{
    lemma_root_facts(p, i);
    let r = uf_root(p, i);
    lemma_root_facts(p, r);
    assert(uf_walk(p, r, uf_fuel(p)) == r);
}

/// Finding a representative changes no set: after path compression from
/// `i`, any two nodes are in the same set exactly when they were before.
pub proof fn law_find_keeps_sets(p: Seq<usize>, i: int, x: int, y: int)
    requires
        uf_forest(p),
        0 <= i < p.len(),
        0 <= x < p.len(),
        0 <= y < p.len(),
    ensures
        uf_same_set(uf_compressed(p, i), x, y) == uf_same_set(p, x, y),
{
    lemma_compressed_forest(p, i);
}

/// After merging the sets of `a` and `b`, two nodes are in the same set
/// exactly when they were before, or one was with `a` and the other with `b`.
pub proof fn law_merge_joins_sets(p: Seq<usize>, rank: Seq<usize>, a: int, b: int, x: int, y: int)
    requires
        uf_forest(p),
        0 <= a < p.len(),
        0 <= b < p.len(),
        0 <= x < p.len(),
        0 <= y < p.len(),
        uf_rank_ok(p, rank, a, b),
    ensures
        uf_root(p, a) != uf_root(p, b) ==> (uf_merged_root(p, rank, a, b, x) == uf_merged_root(
            p,
            rank,
            a,
            b,
            y,
        ) <==> (uf_same_set(p, x, y) || (uf_same_set(p, x, a) && uf_same_set(p, y, b)) || (
        uf_same_set(p, x, b) && uf_same_set(p, y, a)))),
        uf_root(p, a) == uf_root(p, b) ==> (uf_merged_root(p, rank, a, b, x) == uf_merged_root(
            p,
            rank,
            a,
            b,
            y,
        ) <==> uf_same_set(p, x, y)),
        uf_merged_root(p, rank, a, b, a) == uf_merged_root(p, rank, a, b, b),
{
    lemma_root_facts(p, a);
    lemma_root_facts(p, b);
    lemma_root_facts(p, x);
    lemma_root_facts(p, y);
    law_root_idempotent(p, a);
    law_root_idempotent(p, b);
}

} // verus!
