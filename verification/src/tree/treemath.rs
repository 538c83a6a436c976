use vstd::prelude::*;
use vstd::arithmetic::power2::*;
use crate::tree::index::{LeafIndex, NodeIndex};

verus! {

/// Height of node `x` above the leaves: the number of one bits at the low
/// end of `x`.
pub open spec fn spec_level(x: nat) -> nat
    decreases x,
{
    if x % 2 == 0 {
        0
    } else {
        1 + spec_level(x / 2)
    }
}

/// Number of nodes of a tree with `n` leaves.
pub open spec fn spec_node_width(n: nat) -> nat {
    if n == 0 {
        0
    } else {
        (2 * n - 1) as nat
    }
}

/// Position of the highest one bit of `x`; 0 for 0.
pub open spec fn spec_log2(x: nat) -> nat
    decreases x,
{
    if x <= 1 {
        0
    } else {
        1 + spec_log2(x / 2)
    }
}

/// A node of level `k` is `q * 2^(k+1) + 2^k - 1` for exactly one `q`, which
/// this lemma returns.
pub proof fn lemma_level_shape(x: nat) -> (q: nat)
    ensures
        x == q * (2 * pow2(spec_level(x))) + pow2(spec_level(x)) - 1,
    decreases x,
{
    lemma2_to64();
    if x % 2 == 0 {
        let h = pow2(spec_level(x));
        assert(h == 1);
        let q = x / 2;
        assert(x == q * (2 * h) + h - 1) by (nonlinear_arith)
            requires
                h == 1,
                x == 2 * q,
        ;
        q
    } else {
        let y = x / 2;
        let q = lemma_level_shape(y);
        let k = spec_level(y);
        let h = pow2(k);
        lemma_pow2_unfold(k + 1);
        assert(pow2(k + 1) == 2 * h);
        assert(spec_level(x) == k + 1);
        assert(x == q * (2 * (2 * h)) + 2 * h - 1) by (nonlinear_arith)
            requires
                x == 2 * y + 1,
                y == q * (2 * h) + h - 1,
        ;
        q
    }
}

/// The converse: a number of that shape has level `k`.
pub proof fn lemma_level_of_shape(x: nat, q: nat, k: nat)
    requires
        x == q * (2 * pow2(k)) + pow2(k) - 1,
    ensures
        spec_level(x) == k,
    decreases k,
{
    lemma2_to64();
    lemma_pow2_pos(k);
    let hk = pow2(k);
    if k == 0 {
        assert(x == 2 * q) by (nonlinear_arith)
            requires
                hk == 1,
                x == q * (2 * hk) + hk - 1,
        ;
    } else {
        let h = pow2((k - 1) as nat);
        lemma_pow2_unfold(k);
        lemma_pow2_pos((k - 1) as nat);
        assert(hk == 2 * h);
        let a = q * h;
        assert(x == 4 * a + 2 * h - 1) by (nonlinear_arith)
            requires
                a == q * h,
                hk == 2 * h,
                x == q * (2 * hk) + hk - 1,
        ;
        assert(x % 2 == 1);
        assert(x / 2 == 2 * a + h - 1);
        assert(x / 2 == q * (2 * h) + h - 1) by (nonlinear_arith)
            requires
                a == q * h,
                x / 2 == 2 * a + h - 1,
        ;
        lemma_level_of_shape(x / 2, q, (k - 1) as nat);
    }
}


/// The root of a tree with `n` leaves: the node of the highest level.
pub open spec fn spec_root(n: nat) -> nat {
    (pow2(spec_log2(spec_node_width(n))) - 1) as nat
}

/// Left child of `x`, one level down. A leaf is its own left child.
pub open spec fn spec_left(x: nat) -> nat {
    if spec_level(x) == 0 {
        x
    } else {
        (x - pow2((spec_level(x) - 1) as nat)) as nat
    }
}

/// The first node at or below `r`, going left, that lies inside a tree of
/// `w` nodes.
pub open spec fn spec_descend(r: nat, w: nat) -> nat
    decreases spec_level(r),
{
    if r < w || spec_level(r) == 0 {
        r
    } else {
        proof {
            lemma_left(r);
        }
        spec_descend(spec_left(r), w)
    }
}

/// Right child of `x` in a tree with `n` leaves: the child one level down on
/// the right or, where that lies outside the tree, the first of its left
/// descendants inside. A leaf is its own right child.
pub open spec fn spec_right(x: nat, n: nat) -> nat {
    if spec_level(x) == 0 {
        x
    } else {
        spec_descend(x + pow2((spec_level(x) - 1) as nat), spec_node_width(n))
    }
}

/// The node one level above `x` whose subtree holds `x`, in a tree without
/// bound.
pub open spec fn spec_parent_step(x: nat) -> nat {
    let h = pow2(spec_level(x));
    if (x / (2 * h)) % 2 == 0 {
        x + h
    } else {
        (x - h) as nat
    }
}

/// The first node at or above `p` that lies inside the tree with `n` leaves.
pub open spec fn spec_ascend(p: nat, n: nat) -> nat
    decreases spec_level(spec_root(n)) - spec_level(p),
{
    if p < spec_node_width(n) || spec_level(p) >= spec_level(spec_root(n)) {
        p
    } else {
        proof {
            lemma_parent_step(p);
        }
        spec_ascend(spec_parent_step(p), n)
    }
}

/// Parent of `x` in a tree with `n` leaves. The root is its own parent.
pub open spec fn spec_parent(x: nat, n: nat) -> nat {
    if x == spec_root(n) {
        x
    } else {
        spec_ascend(spec_parent_step(x), n)
    }
}

/// The other child of the parent of `x`. The root is its own sibling.
pub open spec fn spec_sibling(x: nat, n: nat) -> nat {
    let p = spec_parent(x, n);
    if x < p {
        spec_right(p, n)
    } else if x > p {
        spec_left(p)
    } else {
        p
    }
}

/// The nodes from `x` up to the root, both included.
pub open spec fn spec_dirpath_long(x: nat, n: nat) -> Seq<nat>
    decreases spec_level(spec_root(n)) - spec_level(x),
{
    if x == spec_root(n) || x >= spec_node_width(n) {
        seq![x]
    } else {
        proof {
            lemma_parent(x, n);
        }
        seq![x] + spec_dirpath_long(spec_parent(x, n), n)
    }
}

/// The nodes above `x` up to the root, the root included and `x` not.
pub open spec fn spec_dirpath_root(x: nat, n: nat) -> Seq<nat> {
    spec_dirpath_long(x, n).drop_first()
}

/// The nodes strictly between `x` and the root.
pub open spec fn spec_dirpath(x: nat, n: nat) -> Seq<nat> {
    if spec_dirpath_root(x, n).len() == 0 {
        Seq::empty()
    } else {
        spec_dirpath_root(x, n).drop_last()
    }
}

/// The sibling of each node from `x` up to the root, the root excluded.
pub open spec fn spec_copath(x: nat, n: nat) -> Seq<nat> {
    spec_dirpath_long(x, n).drop_last().map_values(|y: nat| spec_sibling(y, n))
}

/// Number of low bits that must be cut from `x` and `y` until they agree.
pub open spec fn spec_divergence(x: nat, y: nat) -> nat
    decreases x + y,
{
    if x == y {
        0
    } else {
        1 + spec_divergence(x / 2, y / 2)
    }
}

/// Whether the subtree of `a` holds `x`.
pub open spec fn spec_covers(a: nat, x: nat) -> bool {
    a + 1 - pow2(spec_level(a)) <= x <= a + pow2(spec_level(a)) - 1
}

/// The lowest node whose subtree holds both `x` and `y`.
pub open spec fn spec_common_ancestor(x: nat, y: nat) -> nat {
    if spec_covers(y, x) {
        y
    } else if spec_covers(x, y) {
        x
    } else {
        let k = spec_divergence(x, y);
        ((x / pow2(k)) * pow2(k) + pow2((k - 1) as nat) - 1) as nat
    }
}

pub proof fn lemma_pow2_double(k: nat)
    ensures
        pow2(k + 1) == 2 * pow2(k),
        pow2(k) >= 1,
{
    lemma_pow2_unfold(k + 1);
    lemma_pow2_pos(k);
}

pub proof fn lemma_pow2_monotone(a: nat, b: nat)
    requires
        a <= b,
    ensures
        pow2(a) <= pow2(b),
{
    if a < b {
        lemma_pow2_strictly_increases(a, b);
    }
}

/// The left child of a parent lies one level down, `2^(k-1)` to the left.
pub proof fn lemma_left(x: nat)
    requires
        spec_level(x) > 0,
    ensures
        spec_level(spec_left(x)) == spec_level(x) - 1,
        spec_left(x) + pow2((spec_level(x) - 1) as nat) == x,
        spec_left(x) < x,
{
    let k = spec_level(x);
    let q = lemma_level_shape(x);
    let h = pow2((k - 1) as nat);
    lemma_pow2_double((k - 1) as nat);
    assert(pow2(k) == 2 * h);
    let a = q * h;
    assert(x == 4 * a + 2 * h - 1) by (nonlinear_arith)
        requires
            a == q * h,
            x == q * (2 * (2 * h)) + 2 * h - 1,
    ;
    let l = (x - h) as nat;
    assert(l == (2 * q) * (2 * h) + h - 1) by (nonlinear_arith)
        requires
            a == q * h,
            l == 4 * a + h - 1,
    ;
    lemma_level_of_shape(l, 2 * q, (k - 1) as nat);
}

/// The node `2^(k-1)` to the right of a parent lies one level down.
pub proof fn lemma_right_full(x: nat)
    requires
        spec_level(x) > 0,
    ensures
        spec_level(x + pow2((spec_level(x) - 1) as nat)) == spec_level(x) - 1,
{
    let k = spec_level(x);
    let q = lemma_level_shape(x);
    let h = pow2((k - 1) as nat);
    lemma_pow2_double((k - 1) as nat);
    let a = q * h;
    assert(x == 4 * a + 2 * h - 1) by (nonlinear_arith)
        requires
            a == q * h,
            x == q * (2 * (2 * h)) + 2 * h - 1,
    ;
    let r = x + h;
    assert(r == (2 * q + 1) * (2 * h) + h - 1) by (nonlinear_arith)
        requires
            a == q * h,
            r == 4 * a + 3 * h - 1,
    ;
    lemma_level_of_shape(r, 2 * q + 1, (k - 1) as nat);
}

/// First leaf of the subtree of `r`.
pub open spec fn spec_first_leaf(r: nat) -> int {
    r + 1 - pow2(spec_level(r))
}

/// Going left from `r` ends inside the tree, above `x`, when the first leaf
/// under `r` is `x + 1` and lies inside.
pub proof fn lemma_descend(r: nat, w: nat, x: nat)
    requires
        spec_first_leaf(r) == x + 1,
        x + 1 < w,
    ensures
        x < spec_descend(r, w) < w,
        spec_level(spec_descend(r, w)) <= spec_level(r),
    decreases spec_level(r),
{
    lemma_pow2_pos(spec_level(r));
    lemma2_to64();
    if r < w {
    } else if spec_level(r) == 0 {
    } else {
        lemma_left(r);
        lemma_pow2_double((spec_level(r) - 1) as nat);
        lemma_descend(spec_left(r), w, x);
    }
}

/// Inside a tree, the right child of a parent lies to its right, inside the
/// tree and at a lower level.
pub proof fn lemma_right(x: nat, n: nat)
    requires
        x < spec_node_width(n),
        spec_level(x) > 0,
    ensures
        x < spec_right(x, n) < spec_node_width(n),
        spec_level(spec_right(x, n)) < spec_level(x),
{
    let k = spec_level(x);
    let h = pow2((k - 1) as nat);
    lemma_right_full(x);
    lemma_pow2_pos((k - 1) as nat);
    assert(x % 2 == 1);
    lemma_descend(x + h, spec_node_width(n), x);
}

/// The step up from `x` lands one level up on a node of which `x` is the
/// left child or the node `2^k` to its right.
pub proof fn lemma_parent_step(x: nat)
    ensures
        spec_level(spec_parent_step(x)) == spec_level(x) + 1,
        spec_parent_step(x) == x + pow2(spec_level(x)) || spec_parent_step(x) + pow2(
            spec_level(x),
        ) == x,
{
    let k = spec_level(x);
    let q = lemma_level_shape(x);
    let h = pow2(k);
    lemma_pow2_double(k);
    let a = q * h;
    assert(q * (2 * h) == 2 * a) by (nonlinear_arith)
        requires
            a == q * h,
    ;
    assert(x == 2 * a + h - 1);
    vstd::arithmetic::div_mod::lemma_fundamental_div_mod_converse(
        x as int,
        (2 * h) as int,
        q as int,
        (h - 1) as int,
    );
    assert(x / (2 * h) == q);
    let p = spec_parent_step(x);
    let q2 = q / 2;
    let b = q2 * h;
    if q % 2 == 0 {
        assert(p == x + h);
        assert(a == 2 * b) by (nonlinear_arith)
            requires
                a == q * h,
                b == q2 * h,
                q == 2 * q2,
        ;
        assert(p == q2 * (2 * (2 * h)) + 2 * h - 1) by (nonlinear_arith)
            requires
                p == 4 * b + 2 * h - 1,
                b == q2 * h,
        ;
    } else {
        assert(a == 2 * b + h) by (nonlinear_arith)
            requires
                a == q * h,
                b == q2 * h,
                q == 2 * q2 + 1,
        ;
        assert(x >= h);
        assert(p == x - h);
        assert(p == q2 * (2 * (2 * h)) + 2 * h - 1) by (nonlinear_arith)
            requires
                p == 4 * b + 2 * h - 1,
                b == q2 * h,
        ;
    }
    lemma_level_of_shape(p, q2, k + 1);
}

/// `2^log2(w) <= w < 2^(log2(w)+1)` for a positive `w`.
pub proof fn lemma_log2_bounds(w: nat)
    requires
        w >= 1,
    ensures
        pow2(spec_log2(w)) <= w < pow2(spec_log2(w) + 1),
    decreases w,
{
    lemma2_to64();
    if w <= 1 {
    } else {
        lemma_log2_bounds(w / 2);
        lemma_pow2_double(spec_log2(w / 2));
        lemma_pow2_double(spec_log2(w / 2) + 1);
    }
}

/// The only `j` with `2^j <= w < 2^(j+1)` is `log2(w)`.
pub proof fn lemma_log2_unique(w: nat, j: nat)
    requires
        pow2(j) <= w < pow2(j + 1),
    ensures
        spec_log2(w) == j,
    decreases j,
{
    lemma2_to64();
    lemma_pow2_double(j);
    if j == 0 {
    } else {
        lemma_pow2_double((j - 1) as nat);
        lemma_log2_unique(w / 2, (j - 1) as nat);
    }
}

/// The root lies inside the tree and its level is `log2` of the width.
pub proof fn lemma_root(n: nat)
    requires
        n >= 1,
    ensures
        spec_root(n) < spec_node_width(n),
        spec_level(spec_root(n)) == spec_log2(spec_node_width(n)),
        spec_node_width(n) < pow2(spec_level(spec_root(n)) + 1),
{
    let w = spec_node_width(n);
    let l = spec_log2(w);
    lemma_log2_bounds(w);
    lemma_pow2_pos(l);
    assert(0 * (2 * pow2(l)) == 0) by (nonlinear_arith);
    lemma_level_of_shape(spec_root(n), 0, l);
}

/// In the full tree whose root has level `l`, every other node has a lower
/// level and its step up stays inside that tree.
pub proof fn lemma_below_root(x: nat, l: nat)
    requires
        x + 1 < pow2(l + 1),
        x + 1 != pow2(l),
    ensures
        spec_level(x) < l,
        spec_parent_step(x) + 1 < pow2(l + 1),
{
    let k = spec_level(x);
    let q = lemma_level_shape(x);
    let h = pow2(k);
    lemma_pow2_double(k);
    lemma_pow2_double(l);
    let a = q * h;
    assert(q * (2 * h) == 2 * a) by (nonlinear_arith)
        requires
            a == q * h,
    ;
    assert(x == 2 * a + h - 1);
    if k >= l {
        lemma_pow2_monotone(l, k);
        if k == l {
            assert(a == 0) by (nonlinear_arith)
                requires
                    a == q * h,
                    h >= 1,
                    2 * a + h < 2 * h,
            ;
            assert(false);
        } else {
            lemma_pow2_monotone(l + 1, k);
            assert(false);
        }
    }
    assert(k < l);
    lemma_parent_step(x);
    let p = spec_parent_step(x);
    vstd::arithmetic::div_mod::lemma_fundamental_div_mod_converse(
        x as int,
        (2 * h) as int,
        q as int,
        (h - 1) as int,
    );
    assert(x / (2 * h) == q);
    if q % 2 == 0 {
        // the full tree is a multiple of 4h wide
        let m = pow2((l - k - 1) as nat);
        lemma_pow2_adds((l - k - 1) as nat, k + 2);
        lemma_pow2_double(k + 1);
        assert(pow2(l + 1) == m * (4 * h));
        let q2 = q / 2;
        let b = q2 * h;
        assert(a == 2 * b) by (nonlinear_arith)
            requires
                a == q * h,
                b == q2 * h,
                q == 2 * q2,
        ;
        assert(q2 < m) by (nonlinear_arith)
            requires
                b == q2 * h,
                4 * b + h < m * (4 * h),
                h >= 1,
        ;
        assert(4 * b + 4 * h <= m * (4 * h)) by (nonlinear_arith)
            requires
                b == q2 * h,
                q2 + 1 <= m,
                h >= 1,
        ;
        assert(p == x + h);
    } else {
        assert(a >= h) by (nonlinear_arith)
            requires
                a == q * h,
                q >= 1,
        ;
        assert(p == x - h);
    }
}

/// Going up from a node of the full tree ends inside the tree with `n`
/// leaves, at a level no lower.
pub proof fn lemma_ascend(p: nat, n: nat)
    requires
        n >= 1,
        p + 1 < pow2(spec_level(spec_root(n)) + 1),
    ensures
        spec_ascend(p, n) < spec_node_width(n),
        spec_level(spec_ascend(p, n)) >= spec_level(p),
    decreases spec_level(spec_root(n)) - spec_level(p),
{
    lemma_root(n);
    let l = spec_level(spec_root(n));
    lemma_pow2_pos(l);
    if p < spec_node_width(n) {
    } else {
        lemma_below_root(p, l);
        lemma_parent_step(p);
        lemma_ascend(spec_parent_step(p), n);
    }
}

/// Inside a tree, the parent of a node other than the root lies inside the
/// tree at a higher level.
pub proof fn lemma_parent(x: nat, n: nat)
    requires
        x < spec_node_width(n),
        x != spec_root(n),
    ensures
        spec_parent(x, n) < spec_node_width(n),
        spec_level(spec_parent(x, n)) > spec_level(x),
        spec_level(x) < spec_level(spec_root(n)),
        spec_level(spec_parent(x, n)) <= spec_level(spec_root(n)),
        spec_parent(x, n) != x,
{
    lemma_root(n);
    let l = spec_level(spec_root(n));
    lemma_pow2_pos(l);
    lemma_below_root(x, l);
    lemma_parent_step(x);
    lemma_ascend(spec_parent_step(x), n);
    let p = spec_parent(x, n);
    if p != spec_root(n) {
        lemma_below_root(p, l);
    }
}


/// Whether `x` is a node of the tree with `n` leaves, and every node of that
/// tree has a 32-bit position.
pub open spec fn spec_in_tree(x: nat, n: nat) -> bool {
    x < spec_node_width(n) <= 0x1_0000_0000
}

/// The positions that a vector of indices holds.
pub open spec fn spec_indices(v: Seq<NodeIndex>) -> Seq<nat> {
    v.map_values(|i: NodeIndex| i.0 as nat)
}

/// Level of `x` together with `2^level`.
fn level_span(x: u64) -> (r: (usize, u64))
    requires
        x < 0x2_0000_0000,
    ensures
        r.0 == spec_level(x as nat),
        r.1 == pow2(r.0 as nat),
        r.0 <= 33,
        1 <= r.1 <= 0x2_0000_0000,
{
    let mut y: u64 = x;
    let mut k: usize = 0;
    let mut h: u64 = 1;
    proof {
        lemma2_to64();
        lemma2_to64_rest();
    }
    while y % 2 == 1
        invariant
            spec_level(x as nat) == k + spec_level(y as nat),
            h == pow2(k as nat),
            y < pow2((33 - k) as nat),
            k <= 33,
        decreases y,
    {
        proof {
            lemma2_to64();
            if k == 33 {
                assert(false);
            }
            lemma_pow2_double((32 - k) as nat);
            lemma_pow2_double(k as nat);
            lemma_pow2_monotone(k as nat, 32);
        }
        y = y / 2;
        k += 1;
        h = h * 2;
    }
    proof {
        lemma2_to64_rest();
        lemma_pow2_monotone(k as nat, 33);
        lemma_pow2_pos(k as nat);
    }
    (k, h)
}

/// Height of a node above the leaves.
pub fn level(index: NodeIndex) -> (k: usize)
    ensures
        k == spec_level(index.0 as nat),
        k <= 33,
{
    level_span(index.0 as u64).0
}

/// Number of nodes of a tree with `size` leaves.
pub fn node_width(size: LeafIndex) -> (w: u64)
    ensures
        w == spec_node_width(size.0 as nat),
{
    if size.0 == 0 {
        0
    } else {
        2 * (size.0 as u64) - 1
    }
}

/// Root of a tree with `size` leaves.
pub fn root(size: LeafIndex) -> (r: NodeIndex)
    ensures
        r.0 == spec_root(size.0 as nat),
        size.0 >= 1 ==> r.0 < spec_node_width(size.0 as nat),
{
    let w: u64 = node_width(size);
    proof {
        lemma2_to64();
        lemma2_to64_rest();
    }
    if w == 0 {
        return NodeIndex(0);
    }
    let mut p: u64 = 1;
    let ghost mut j: nat = 0;
    while 2 * p <= w
        invariant
            p == pow2(j),
            p <= w,
            w < 0x2_0000_0000,
        decreases w - p,
    {
        proof {
            lemma_pow2_double(j);
            j = j + 1;
        }
        p = 2 * p;
    }
    proof {
        lemma_pow2_double(j);
        lemma_log2_unique(w as nat, j);
        if j >= 33 {
            lemma_pow2_monotone(33, j);
        }
        lemma_pow2_monotone(j, 32);
        lemma_root(size.0 as nat);
    }
    NodeIndex((p - 1) as u32)
}

/// Left child of a node; a leaf is its own left child.
pub fn left(index: NodeIndex) -> (r: NodeIndex)
    ensures
        r.0 == spec_left(index.0 as nat),
        spec_level(index.0 as nat) > 0 ==> r.0 < index.0 && spec_level(r.0 as nat) + 1
            == spec_level(index.0 as nat),
{
    let (k, h) = level_span(index.0 as u64);
    if k == 0 {
        index
    } else {
        proof {
            lemma_left(index.0 as nat);
            lemma_pow2_double((k - 1) as nat);
        }
        NodeIndex((index.0 as u64 - h / 2) as u32)
    }
}

/// Right child of a node in a tree with `size` leaves; a leaf is its own
/// right child.
pub fn right(index: NodeIndex, size: LeafIndex) -> (r: NodeIndex)
    requires
        spec_in_tree(index.0 as nat, size.0 as nat),
    ensures
        r.0 == spec_right(index.0 as nat, size.0 as nat),
        r.0 < spec_node_width(size.0 as nat),
        spec_level(index.0 as nat) > 0 ==> index.0 < r.0 && spec_level(r.0 as nat) < spec_level(
            index.0 as nat,
        ),
{
    let x: u64 = index.0 as u64;
    let (k, h) = level_span(x);
    if k == 0 {
        return index;
    }
    let w: u64 = node_width(size);
    proof {
        lemma_pow2_double((k - 1) as nat);
        lemma_right_full(x as nat);
        lemma_right(x as nat, size.0 as nat);
        let q = lemma_level_shape(x as nat);
        assert(x + 1 >= h) by (nonlinear_arith)
            requires
                x == q * (2 * h) + h - 1,
                q >= 0,
                h >= 0,
        ;
    }
    let mut r: u64 = x + h / 2;
    while r >= w
        invariant
            spec_descend(r as nat, w as nat) == spec_right(x as nat, size.0 as nat),
            spec_first_leaf(r as nat) == x + 1,
            x + 1 < w,
            r < 0x2_0000_0000,
            w == spec_node_width(size.0 as nat),
        decreases spec_level(r as nat),
    {
        proof {
            lemma2_to64();
            lemma_left(r as nat);
            lemma_pow2_double((spec_level(r as nat) - 1) as nat);
        }
        let (kr, hr) = level_span(r);
        r = r - hr / 2;
    }
    NodeIndex(r as u32)
}

/// The node one level above `x` whose subtree holds `x`.
fn parent_step(x: u64) -> (p: u64)
    requires
        x < 0x2_0000_0000,
    ensures
        p == spec_parent_step(x as nat),
{
    let (k, h) = level_span(x);
    if (x / (2 * h)) % 2 == 0 {
        x + h
    } else {
        proof {
            let q = lemma_level_shape(x as nat);
            let a = q * (h as nat);
            assert(q * (2 * h) == 2 * a) by (nonlinear_arith)
                requires
                    a == q * (h as nat),
            ;
            vstd::arithmetic::div_mod::lemma_fundamental_div_mod_converse(
                x as int,
                (2 * h) as int,
                q as int,
                (h - 1) as int,
            );
            assert(a >= h) by (nonlinear_arith)
                requires
                    a == q * (h as nat),
                    q >= 1,
            ;
        }
        x - h
    }
}

/// Parent of a node in a tree with `size` leaves; the root is its own
/// parent.
pub fn parent(index: NodeIndex, size: LeafIndex) -> (r: NodeIndex)
    requires
        spec_in_tree(index.0 as nat, size.0 as nat),
    ensures
        r.0 == spec_parent(index.0 as nat, size.0 as nat),
        r.0 < spec_node_width(size.0 as nat),
        index.0 != spec_root(size.0 as nat) ==> spec_level(r.0 as nat) > spec_level(
            index.0 as nat,
        ),
{
    let x: u64 = index.0 as u64;
    let rt = root(size);
    if index.0 == rt.0 {
        return index;
    }
    let w: u64 = node_width(size);
    let ghost n = size.0 as nat;
    let ghost l = spec_level(spec_root(n));
    proof {
        lemma_root(n);
        lemma_parent(x as nat, n);
        lemma_below_root(x as nat, l);
        lemma_parent_step(x as nat);
        lemma_pow2_double(l);
        lemma2_to64();
        lemma2_to64_rest();
        // the full tree is less than twice as wide as the tree
        assert(pow2(l) <= w);
    }
    let mut p: u64 = parent_step(x);
    while p >= w
        invariant
            n >= 1,
            n == size.0,
            l == spec_level(spec_root(n)),
            w == spec_node_width(n),
            w <= 0x1_0000_0000,
            pow2(l + 1) <= 2 * w,
            p + 1 < pow2(l + 1),
            spec_ascend(p as nat, n) == spec_parent(x as nat, n),
        decreases l - spec_level(p as nat),
    {
        proof {
            lemma_root(n);
            lemma_below_root(p as nat, l);
            lemma_parent_step(p as nat);
        }
        p = parent_step(p);
    }
    NodeIndex(p as u32)
}

/// The other child of a node's parent; the root is its own sibling.
pub fn sibling(index: NodeIndex, size: LeafIndex) -> (r: NodeIndex)
    requires
        spec_in_tree(index.0 as nat, size.0 as nat),
    ensures
        r.0 == spec_sibling(index.0 as nat, size.0 as nat),
        r.0 < spec_node_width(size.0 as nat),
{
    let p = parent(index, size);
    if index.0 < p.0 {
        proof {
            if index.0 == spec_root(size.0 as nat) {
            }
        }
        right(p, size)
    } else if index.0 > p.0 {
        let r = left(p);
        r
    } else {
        p
    }
}

/// The nodes from `index` up to the root, both included, lowest first.
pub fn dirpath_long(index: NodeIndex, size: LeafIndex) -> (d: Vec<NodeIndex>)
    requires
        spec_in_tree(index.0 as nat, size.0 as nat),
    ensures
        spec_indices(d@) == spec_dirpath_long(index.0 as nat, size.0 as nat),
        forall|i: int| 0 <= i < d@.len() ==> (#[trigger] d@[i]).0 < spec_node_width(size.0 as nat),
        forall|i: int| 1 <= i < d@.len() ==> spec_level((#[trigger] d@[i]).0 as nat) > 0,
        d@.len() >= 1,
        d@[0] == index,
{
    let mut d: Vec<NodeIndex> = Vec::new();
    d.push(index);
    let rest = dirpath_root(index, size);
    let mut i: usize = 0;
    while i < rest.len()
        invariant
            i <= rest@.len(),
            d@ == seq![index] + rest@.subrange(0, i as int),
        decreases rest@.len() - i,
    {
        d.push(rest[i]);
        i += 1;
        assert(d@ =~= seq![index] + rest@.subrange(0, i as int));
    }
    proof {
        assert(rest@.subrange(0, i as int) =~= rest@);
        assert forall|k: int| 1 <= k < d@.len() implies spec_level((#[trigger] d@[k]).0 as nat)
            > 0 by {
            assert(d@[k] == rest@[k - 1]);
        }
        let ghost long = spec_dirpath_long(index.0 as nat, size.0 as nat);
        assert(long =~= seq![index.0 as nat] + long.drop_first());
        assert(spec_indices(d@) =~= long);
    }
    d
}

/// The nodes above `index` up to the root, the root included, lowest first.
pub fn dirpath_root(index: NodeIndex, size: LeafIndex) -> (d: Vec<NodeIndex>)
    requires
        spec_in_tree(index.0 as nat, size.0 as nat),
    ensures
        spec_indices(d@) == spec_dirpath_root(index.0 as nat, size.0 as nat),
        forall|i: int| 0 <= i < d@.len() ==> (#[trigger] d@[i]).0 < spec_node_width(size.0 as nat),
        forall|i: int| 0 <= i < d@.len() ==> spec_level((#[trigger] d@[i]).0 as nat) > 0,
{
    let rt = root(size);
    let ghost n = size.0 as nat;
    let mut d: Vec<NodeIndex> = Vec::new();
    let mut cur = index;
    assert(spec_indices(d@) =~= Seq::<nat>::empty());
    while cur.0 != rt.0
        invariant
            n == size.0,
            rt.0 == spec_root(n),
            spec_in_tree(cur.0 as nat, n),
            spec_indices(d@) + spec_dirpath_long(cur.0 as nat, n).drop_first()
                == spec_dirpath_long(index.0 as nat, n).drop_first(),
            forall|i: int| 0 <= i < d@.len() ==> (#[trigger] d@[i]).0 < spec_node_width(n),
            forall|i: int| 0 <= i < d@.len() ==> spec_level((#[trigger] d@[i]).0 as nat) > 0,
        decreases spec_level(spec_root(n)) - spec_level(cur.0 as nat),
    {
        let next = parent(cur, size);
        proof {
            lemma_parent(cur.0 as nat, n);
            let ghost tail = spec_dirpath_long(next.0 as nat, n);
            assert(tail =~= seq![next.0 as nat] + tail.drop_first());
            assert(spec_dirpath_long(cur.0 as nat, n).drop_first() =~= tail);
            assert(spec_indices(d@.push(next)) =~= spec_indices(d@) + seq![next.0 as nat]);
            assert(spec_indices(d@.push(next)) + tail.drop_first() =~= spec_indices(d@) + tail);
        }
        d.push(next);
        cur = next;
    }
    proof {
        assert(spec_dirpath_long(cur.0 as nat, n).drop_first() =~= Seq::<nat>::empty());
        assert(spec_indices(d@) + Seq::<nat>::empty() =~= spec_indices(d@));
    }
    d
}

/// The nodes strictly between `index` and the root, lowest first.
pub fn dirpath(index: NodeIndex, size: LeafIndex) -> (d: Vec<NodeIndex>)
    requires
        spec_in_tree(index.0 as nat, size.0 as nat),
    ensures
        spec_indices(d@) == spec_dirpath(index.0 as nat, size.0 as nat),
        forall|i: int| 0 <= i < d@.len() ==> (#[trigger] d@[i]).0 < spec_node_width(size.0 as nat),
        forall|i: int| 0 <= i < d@.len() ==> spec_level((#[trigger] d@[i]).0 as nat) > 0,
{
    let mut d = dirpath_root(index, size);
    let ghost full = d@;
    if d.len() > 0 {
        d.pop();
        assert(d@ =~= full.drop_last());
        assert(spec_indices(d@) =~= spec_indices(full).drop_last());
    } else {
        assert(spec_indices(d@) =~= Seq::<nat>::empty());
    }
    d
}

/// The sibling of each node from `index` up to the root, the root excluded,
/// lowest first.
pub fn copath(index: NodeIndex, size: LeafIndex) -> (c: Vec<NodeIndex>)
    requires
        spec_in_tree(index.0 as nat, size.0 as nat),
    ensures
        spec_indices(c@) == spec_copath(index.0 as nat, size.0 as nat),
        c@.len() == spec_dirpath_root(index.0 as nat, size.0 as nat).len(),
        forall|i: int| 0 <= i < c@.len() ==> (#[trigger] c@[i]).0 < spec_node_width(size.0 as nat),
{
    let long = dirpath_long(index, size);
    let ghost n = size.0 as nat;
    let ghost path = spec_dirpath_long(index.0 as nat, n);
    let mut c: Vec<NodeIndex> = Vec::new();
    let mut i: usize = 0;
    assert(spec_indices(long@).len() == long@.len());
    let last: usize = long.len() - 1;
    while i < last
        invariant
            n == size.0,
            last + 1 == long@.len(),
            i <= last,
            spec_node_width(n) <= 0x1_0000_0000,
            spec_indices(long@) == path,
            forall|j: int| 0 <= j < long@.len() ==> (#[trigger] long@[j]).0 < spec_node_width(n),
            c@.len() == i,
            forall|j: int| 0 <= j < i ==> (#[trigger] c@[j]).0 == spec_sibling(path[j], n),
            forall|j: int| 0 <= j < i ==> (#[trigger] c@[j]).0 < spec_node_width(n),
        decreases last - i,
    {
        let s = sibling(long[i], size);
        proof {
            assert(spec_indices(long@)[i as int] == long@[i as int].0);
        }
        c.push(s);
        i += 1;
    }
    proof {
        assert(spec_indices(c@) =~= spec_copath(index.0 as nat, n));
    }
    c
}


/// Whether the subtree of `a` holds `x`.
pub fn covers(a: NodeIndex, x: NodeIndex) -> (r: bool)
    ensures
        r == spec_covers(a.0 as nat, x.0 as nat),
{
    let (k, h) = level_span(a.0 as u64);
    (a.0 as u64) + 1 <= (x.0 as u64) + h && (x.0 as u64) + 1 <= (a.0 as u64) + h
}

/// Where `x` and `y` differ and agree after cutting `k` low bits but not
/// after cutting `k - 1`, the node made of their common high bits lies
/// between them.
proof fn lemma_split_between(x: nat, y: nat, k: nat)
    requires
        k >= 1,
        x / pow2(k) == y / pow2(k),
        x / pow2((k - 1) as nat) < y / pow2((k - 1) as nat),
    ensures
        x <= (x / pow2(k)) * pow2(k) + pow2((k - 1) as nat) - 1 < y,
{
    let h = pow2((k - 1) as nat);
    lemma_pow2_double((k - 1) as nat);
    let m = x / pow2(k);
    let xp = x / h;
    let yp = y / h;
    vstd::arithmetic::div_mod::lemma_div_denominator(x as int, h as int, 2);
    vstd::arithmetic::div_mod::lemma_div_denominator(y as int, h as int, 2);
    assert(h * 2 == pow2(k));
    assert(xp / 2 == m);
    assert(yp / 2 == m);
    assert(xp == 2 * m);
    assert(yp == 2 * m + 1);
    vstd::arithmetic::div_mod::lemma_fundamental_div_mod(x as int, h as int);
    vstd::arithmetic::div_mod::lemma_fundamental_div_mod(y as int, h as int);
    vstd::arithmetic::div_mod::lemma_mod_bound(x as int, h as int);
    vstd::arithmetic::div_mod::lemma_mod_bound(y as int, h as int);
    let a = m * h;
    assert(h * xp == 2 * a) by (nonlinear_arith)
        requires
            xp == 2 * m,
            a == m * h,
    ;
    assert(h * yp == 2 * a + h) by (nonlinear_arith)
        requires
            yp == 2 * m + 1,
            a == m * h,
    ;
    assert(m * pow2(k) == 2 * a) by (nonlinear_arith)
        requires
            pow2(k) == 2 * h,
            a == m * h,
    ;
}

/// The lowest node whose subtree holds both `x` and `y`.
pub fn common_ancestor(x: NodeIndex, y: NodeIndex) -> (r: NodeIndex)
    ensures
        r.0 == spec_common_ancestor(x.0 as nat, y.0 as nat),
        x.0 <= y.0 ==> x.0 <= r.0 <= y.0,
        y.0 <= x.0 ==> y.0 <= r.0 <= x.0,
{
    if covers(y, x) {
        return y;
    }
    if covers(x, y) {
        return x;
    }
    proof {
        lemma2_to64();
        lemma_pow2_pos(spec_level(x.0 as nat));
    }
    assert(x.0 != y.0);
    let mut xn: u64 = x.0 as u64;
    let mut yn: u64 = y.0 as u64;
    let mut k: usize = 0;
    let mut pk: u64 = 1;
    let ghost mut xp: nat = 0;
    let ghost mut yp: nat = 1;
    while xn != yn
        invariant
            spec_divergence(x.0 as nat, y.0 as nat) == k + spec_divergence(xn as nat, yn as nat),
            xn == x.0 as nat / pow2(k as nat),
            yn == y.0 as nat / pow2(k as nat),
            pk == pow2(k as nat),
            k <= 32,
            xn < pow2((32 - k) as nat),
            yn < pow2((32 - k) as nat),
            k >= 1 ==> xp == x.0 as nat / pow2((k - 1) as nat) && yp == y.0 as nat / pow2(
                (k - 1) as nat,
            ) && xp != yp,
            k == 0 ==> xn != yn,
        decreases xn + yn,
    {
        proof {
            lemma2_to64();
            if k == 32 {
                assert(false);
            }
            lemma_pow2_double((31 - k) as nat);
            lemma_pow2_double(k as nat);
            lemma_pow2_pos(k as nat);
            lemma_pow2_monotone(k as nat, 31);
            vstd::arithmetic::div_mod::lemma_div_denominator(x.0 as int, pk as int, 2);
            vstd::arithmetic::div_mod::lemma_div_denominator(y.0 as int, pk as int, 2);
            xp = xn as nat;
            yp = yn as nat;
        }
        xn = xn / 2;
        yn = yn / 2;
        k += 1;
        pk = pk * 2;
    }
    proof {
        lemma2_to64();
        lemma_pow2_double((k - 1) as nat);
        lemma_pow2_pos((k - 1) as nat);
        if xp < yp {
            lemma_split_between(x.0 as nat, y.0 as nat, k as nat);
        } else {
            lemma_split_between(y.0 as nat, x.0 as nat, k as nat);
        }
    }
    let ghost m = xn as nat * pk as nat;
    assert(m + pk / 2 - 1 <= u32::MAX);
    let base: u64 = xn * pk;
    NodeIndex((base + pk / 2 - 1) as u32)
}


/// Position of the first occurrence of `x` in a list.
pub open spec fn spec_first_index(s: Seq<nat>, x: nat) -> Option<int>
    decreases s.len(),
{
    if s.len() == 0 {
        None
    } else {
        match spec_first_index(s.drop_last(), x) {
            Some(i) => Some(i),
            None => if s.last() == x {
                Some(s.len() - 1)
            } else {
                None
            },
        }
    }
}

/// The first occurrence is in the list, holds `x`, and nothing before it
/// does.
pub proof fn lemma_first_index(s: Seq<nat>, x: nat)
    ensures
        match spec_first_index(s, x) {
            Some(i) => 0 <= i < s.len() && s[i] == x && forall|j: int| 0 <= j < i ==> s[j] != x,
            None => forall|j: int| 0 <= j < s.len() ==> s[j] != x,
        },
    decreases s.len(),
{
    if s.len() > 0 {
        lemma_first_index(s.drop_last(), x);
        assert forall|j: int| 0 <= j < s.len() - 1 implies s[j] == s.drop_last()[j] by {}
    }
}

/// What is found among the first `n` is found in the whole list.
pub proof fn lemma_first_index_stays(s: Seq<nat>, x: nat, n: int)
    requires
        0 <= n <= s.len(),
        spec_first_index(s.take(n), x).is_some(),
    ensures
        spec_first_index(s, x) == spec_first_index(s.take(n), x),
    decreases s.len() - n,
{
    if n < s.len() {
        assert(s.take(n + 1).drop_last() =~= s.take(n));
        lemma_first_index_stays(s, x, n + 1);
    } else {
        assert(s.take(n) =~= s);
    }
}

/// Position of the first occurrence of a node in a list of nodes.
pub fn first_index(list: &[NodeIndex], x: NodeIndex) -> (r: Option<usize>)
    ensures
        r.is_some() == spec_first_index(spec_indices(list@), x.0 as nat).is_some(),
        r.is_some() ==> r.unwrap() as int == spec_first_index(
            spec_indices(list@),
            x.0 as nat,
        ).unwrap() && r.unwrap() < list@.len() && list@[r.unwrap() as int] == x,
{
    let ghost s = spec_indices(list@);
    let mut i: usize = 0;
    while i < list.len()
        invariant
            i <= list@.len(),
            s == spec_indices(list@),
            spec_first_index(s.take(i as int), x.0 as nat).is_none(),
        decreases list@.len() - i,
    {
        proof {
            assert(s.take(i + 1).drop_last() =~= s.take(i as int));
            assert(s.take(i + 1).last() == list@[i as int].0);
        }
        if list[i].0 == x.0 {
            proof {
                lemma_first_index_stays(s, x.0 as nat, i + 1);
            }
            return Some(i);
        }
        i += 1;
    }
    assert(s.take(i as int) =~= s);
    None
}

/// The nodes of one level inside a tree of `width` nodes, lowest first:
/// `2^level - 1`, and then every `2^(level+1)`-th node.
pub open spec fn spec_level_nodes(level: nat, width: nat) -> Seq<nat> {
    let h = pow2(level);
    Seq::new(((width + h) / (2 * h)) as nat, |k: int| (h - 1 + k * (2 * h)) as nat)
}

/// The list of a level holds exactly the nodes of that level inside the
/// tree.
pub proof fn lemma_level_nodes(level: nat, width: nat, x: nat)
    ensures
        spec_level_nodes(level, width).contains(x) <==> x < width && spec_level(x) == level,
{
    let h = pow2(level);
    lemma_pow2_pos(level);
    let list = spec_level_nodes(level, width);
    let count = (width + h) / (2 * h);
    vstd::arithmetic::div_mod::lemma_fundamental_div_mod((width + h) as int, (2 * h) as int);
    vstd::arithmetic::div_mod::lemma_mod_bound((width + h) as int, (2 * h) as int);
    let m = (width + h) % (2 * h);
    let c = count * h;
    assert((2 * h) * count == 2 * c) by (nonlinear_arith)
        requires
            c == count * h,
    ;
    assert(width + h == 2 * c + m);
    if list.contains(x) {
        let k = choose|k: int| 0 <= k < list.len() && list[k] == x;
        let a = k * h;
        assert(k * (2 * h) == 2 * a) by (nonlinear_arith)
            requires
                a == k * h,
        ;
        assert(a + h <= c) by (nonlinear_arith)
            requires
                a == k * h,
                c == count * h,
                k + 1 <= count,
                h >= 1,
        ;
        assert(x == (k as nat) * (2 * h) + h - 1);
        lemma_level_of_shape(x, k as nat, level);
    }
    if x < width && spec_level(x) == level {
        let q = lemma_level_shape(x);
        let a = q * h;
        assert(q * (2 * h) == 2 * a) by (nonlinear_arith)
            requires
                a == q * h,
        ;
        assert(q < count) by (nonlinear_arith)
            requires
                a == q * h,
                c == count * h,
                2 * a + h - 1 < 2 * c + m - h,
                m < 2 * h,
                h >= 1,
        ;
        assert(list[q as int] == x);
    }
}

/// The nodes of one level of a tree with `size` leaves, lowest first.
pub fn level_nodes(level: usize, size: LeafIndex) -> (r: Vec<NodeIndex>)
    requires
        level <= 32,
        spec_node_width(size.0 as nat) <= 0x1_0000_0000,
    ensures
        spec_indices(r@) == spec_level_nodes(level as nat, spec_node_width(size.0 as nat)),
{
    let width: u64 = node_width(size);
    let mut h: u64 = 1;
    let mut l: usize = 0;
    proof {
        lemma2_to64();
    }
    while l < level
        invariant
            l <= level <= 32,
            h == pow2(l as nat),
        decreases level - l,
    {
        proof {
            lemma_pow2_double(l as nat);
            lemma_pow2_monotone(l as nat, 31);
            lemma2_to64();
        }
        h = h * 2;
        l += 1;
    }
    proof {
        lemma_pow2_monotone(level as nat, 32);
        lemma2_to64();
        lemma_pow2_pos(level as nat);
    }
    let ghost list = spec_level_nodes(level as nat, width as nat);
    let count: u64 = (width + h) / (2 * h);
    let mut r: Vec<NodeIndex> = Vec::new();
    let mut k: u64 = 0;
    let mut x: u64 = h - 1;
    proof {
        vstd::arithmetic::div_mod::lemma_fundamental_div_mod((width + h) as int, (2 * h) as int);
        vstd::arithmetic::div_mod::lemma_mod_bound((width + h) as int, (2 * h) as int);
        assert(spec_indices(r@) =~= list.take(0));
    }
    let ghost c = (count as nat) * (h as nat);
    assert((2 * h) * count == 2 * c) by (nonlinear_arith)
        requires
            c == (count as nat) * (h as nat),
    ;
    while k < count
        invariant
            k <= count,
            h >= 1,
            h <= 0x1_0000_0000,
            width <= 0x1_0000_0000,
            list == spec_level_nodes(level as nat, width as nat),
            list.len() == count,
            h == pow2(level as nat),
            c == (count as nat) * (h as nat),
            2 * c + h <= width + 2 * h,
            x == h - 1 + k * (2 * h),
            spec_indices(r@) == list.take(k as int),
        decreases count - k,
    {
        let ghost a = (k as nat) * (h as nat);
        proof {
            assert(k * (2 * h) == 2 * a) by (nonlinear_arith)
                requires
                    a == (k as nat) * (h as nat),
            ;
            assert(a + h <= c) by (nonlinear_arith)
                requires
                    a == (k as nat) * (h as nat),
                    c == (count as nat) * (h as nat),
                    k + 1 <= count,
                    h >= 1,
            ;
            assert((k + 1) * (2 * h) == 2 * a + 2 * h) by (nonlinear_arith)
                requires
                    a == (k as nat) * (h as nat),
            ;
        }
        let ghost found = r@;
        r.push(NodeIndex(x as u32));
        assert(spec_indices(r@) =~= spec_indices(found).push(x as nat));
        assert(list[k as int] == x);
        x = x + 2 * h;
        k += 1;
        assert(spec_indices(r@) =~= list.take(k as int));
    }
    assert(list.take(k as int) =~= list);
    r
}


/// The subtree of the node one step up holds what the subtree of a node
/// holds.
pub proof fn lemma_step_covers(p: nat, x: nat)
    requires
        spec_covers(p, x),
    ensures
        spec_covers(spec_parent_step(p), x),
{
    lemma_parent_step(p);
    lemma_pow2_double(spec_level(p));
}

/// The subtree of the first node at or above `p` inside the tree holds
/// what the subtree of `p` holds.
pub proof fn lemma_ascend_covers(p: nat, n: nat, x: nat)
    requires
        spec_covers(p, x),
    ensures
        spec_covers(spec_ascend(p, n), x),
    decreases spec_level(spec_root(n)) - spec_level(p),
{
    if p < spec_node_width(n) || spec_level(p) >= spec_level(spec_root(n)) {
    } else {
        lemma_parent_step(p);
        lemma_step_covers(p, x);
        lemma_ascend_covers(spec_parent_step(p), n, x);
    }
}

/// Every node from `y` up to the root holds in its subtree what the
/// subtree of `y` holds.
pub proof fn lemma_dirpath_covers(y: nat, n: nat, x: nat, i: int)
    requires
        spec_covers(y, x),
        0 <= i < spec_dirpath_long(y, n).len(),
    ensures
        spec_covers(spec_dirpath_long(y, n)[i], x),
    decreases spec_level(spec_root(n)) - spec_level(y),
{
    if y == spec_root(n) || y >= spec_node_width(n) {
    } else {
        lemma_parent(y, n);
        let p = spec_parent(y, n);
        lemma_step_covers(y, x);
        lemma_ascend_covers(spec_parent_step(y), n, x);
        if i > 0 {
            lemma_dirpath_covers(p, n, x, i - 1);
        }
    }
}

} // verus!
