//! Why generated consistency proofs verify: the RFC 9162 verification walk
//! over the proof that the SUBPROOF recursion generates rebuilds both the
//! old and the new canonical root.
//!
//! The argument follows the recursion. Each node of it is a range of leaves
//! `[a, a + size)` that occupies the aligned block of `span(size)` leaves at
//! position `a / span(size)`; after the proof hashes below a node, the walk's
//! indices are that position and the position of the last leaf at the node's
//! level, and its two running hashes are the hashes of the node's old part
//! and of the whole node.

use vstd::arithmetic::div_mod::{
    lemma_div_denominator, lemma_div_is_ordered, lemma_fundamental_div_mod,
    lemma_fundamental_div_mod_converse,
};
use vstd::prelude::*;

use crate::merkle::{
    consistency_walk, is_pow2, largest_pow2_below, lemma_largest_pow2_below, lemma_lp2_between,
    lemma_pow2_even,
    lemma_pow2_le_double, mth, pair_hash, strip_even, strip_odd, subproof_spec, texts,
    consistency_holds, ConsistencyProof,
};

verus! {

/// The walk of RFC 9162 section 2.1.4.2 steps 5 over `rest`, giving the
/// final indices and hashes, or `None` where it fails (the second index
/// reaching zero with proof hashes left).
spec fn walk_run(f: nat, sn: nat, fr: Seq<char>, sr: Seq<char>, rest: Seq<Seq<char>>) -> Option<
    (nat, nat, Seq<char>, Seq<char>),
>
    decreases rest.len(),
{
    if rest.len() == 0 {
        Some((f, sn, fr, sr))
    } else if sn == 0 {
        None
    } else {
        let c = rest[0];
        if f % 2 == 1 || f == sn {
            let (f2, sn2) = strip_even(f, sn);
            walk_run(f2 / 2, sn2 / 2, pair_hash(c, fr), pair_hash(c, sr), rest.drop_first())
        } else {
            walk_run(f / 2, sn / 2, fr, pair_hash(sr, c), rest.drop_first())
        }
    }
}

proof fn lemma_walk_run_verdict(
    f: nat,
    sn: nat,
    fr: Seq<char>,
    sr: Seq<char>,
    rest: Seq<Seq<char>>,
    old_root: Seq<char>,
    new_root: Seq<char>,
)
    ensures
        consistency_walk(f, sn, fr, sr, rest, old_root, new_root) == match walk_run(
            f,
            sn,
            fr,
            sr,
            rest,
        ) {
            Some(st) => st.1 == 0 && st.2 == old_root && st.3 == new_root,
            None => false,
        },
    decreases rest.len(),
{
    if rest.len() > 0 && sn != 0 {
        let c = rest[0];
        if f % 2 == 1 || f == sn {
            let (f2, sn2) = strip_even(f, sn);
            lemma_walk_run_verdict(
                f2 / 2,
                sn2 / 2,
                pair_hash(c, fr),
                pair_hash(c, sr),
                rest.drop_first(),
                old_root,
                new_root,
            );
        } else {
            lemma_walk_run_verdict(f / 2, sn / 2, fr, pair_hash(sr, c), rest.drop_first(), old_root, new_root);
        }
    }
}

/// A state of the walk.
spec fn run_on(st: (nat, nat, Seq<char>, Seq<char>), rest: Seq<Seq<char>>) -> Option<
    (nat, nat, Seq<char>, Seq<char>),
> {
    walk_run(st.0, st.1, st.2, st.3, rest)
}

proof fn lemma_walk_run_append(st: (nat, nat, Seq<char>, Seq<char>), x: Seq<Seq<char>>, y: Seq<Seq<char>>)
    ensures
        run_on(st, x + y) == match run_on(st, x) {
            Some(st2) => run_on(st2, y),
            None => None,
        },
    decreases x.len(),
{
    if x.len() == 0 {
        assert(x + y =~= y);
    } else {
        assert((x + y)[0] == x[0]);
        assert((x + y).drop_first() =~= x.drop_first() + y);
        if st.1 != 0 {
            let c = x[0];
            let (f, sn, fr, sr) = st;
            if f % 2 == 1 || f == sn {
                let (f2, sn2) = strip_even(f, sn);
                lemma_walk_run_append((f2 / 2, sn2 / 2, pair_hash(c, fr), pair_hash(c, sr)), x.drop_first(), y);
            } else {
                lemma_walk_run_append((f / 2, sn / 2, fr, pair_hash(sr, c)), x.drop_first(), y);
            }
        }
    }
}


/// The smallest power of two that is at least `n`, for `n >= 1`: the width
/// of the aligned block that a node of `n` leaves occupies.
spec fn span(n: nat) -> nat {
    if n <= 1 {
        1
    } else {
        2 * largest_pow2_below(n)
    }
}

/// The walk's state once it has climbed to the node `[a, a + size)` of the
/// leaves `s`, for the old size `m`.
spec fn node_state(s: Seq<Seq<char>>, a: nat, size: nat, m: nat) -> (nat, nat, Seq<char>, Seq<char>) {
    (
        a / span(size),
        ((s.len() - 1) as nat) / span(size),
        mth(s.subrange(a as int, m as int)),
        mth(s.subrange(a as int, (a + size) as int)),
    )
}

proof fn lemma_pow2_divides(q: nat, k: nat)
    requires
        is_pow2(q),
        is_pow2(k),
        q <= k,
    ensures
        k % q == 0,
        is_pow2(k / q),
        q * (k / q) == k,
    decreases k,
{
    if q == k {
        lemma_fundamental_div_mod_converse(k as int, k as int, 1, 0);
    } else {
        lemma_pow2_le_double(q, k);
        lemma_pow2_even(k);
        let h = k / 2;
        lemma_pow2_divides(q, h);
        let t = h / q;
        assert(q * (2 * t) == 2 * (q * t)) by (nonlinear_arith);
        lemma_fundamental_div_mod_converse(k as int, q as int, (2 * t) as int, 0);
        assert(is_pow2(2 * t)) by {
            assert((2 * t) / 2 == t);
        }
    }
}

proof fn lemma_span(n: nat)
    requires
        n >= 1,
    ensures
        is_pow2(span(n)),
        n <= span(n),
        is_pow2(n) ==> span(n) == n,
{
    if n >= 2 {
        let k = largest_pow2_below(n);
        lemma_largest_pow2_below(n);
        assert(is_pow2(2 * k)) by {
            assert((2 * k) / 2 == k);
        }
        if is_pow2(n) {
            lemma_pow2_even(n);
            lemma_lp2_between(1, n / 2, n);
        }
    }
}

proof fn lemma_span_le(r: nat, k: nat)
    requires
        1 <= r <= k,
        is_pow2(k),
    ensures
        span(r) <= k,
{
    if r >= 2 {
        lemma_largest_pow2_below(r);
        lemma_pow2_le_double(largest_pow2_below(r), k);
    }
}

/// Shifting out the low run of ones of `u * q + (q - 1)`, `u` even.
proof fn lemma_strip_odd(u: nat, q: nat, w: nat)
    requires
        is_pow2(q),
        u % 2 == 0,
    ensures
        strip_odd((u * q + (q - 1)) as nat, w) == (u, w / q),
    decreases q,
{
    if q == 1 {
        assert(u * q == u) by (nonlinear_arith)
            requires
                q == 1,
        ;
    } else {
        lemma_pow2_even(q);
        let h = q / 2;
        assert(u * q == 2 * (u * h)) by (nonlinear_arith)
            requires
                q == 2 * h,
        ;
        let x = (u * q + (q - 1)) as nat;
        lemma_fundamental_div_mod_converse(x as int, 2, u * h + h - 1, 1);
        lemma_strip_odd(u, h, w / 2);
        lemma_div_denominator(w as int, 2, h as int);
    }
}

/// Shifting out the low run of zeros of `u * p`, `u` odd.
proof fn lemma_strip_even(u: nat, p: nat, w: nat)
    requires
        is_pow2(p),
        u % 2 == 1,
    ensures
        strip_even(u * p, w) == (u, w / p),
    decreases p,
{
    if p == 1 {
        assert(u * p == u) by (nonlinear_arith)
            requires
                p == 1,
        ;
    } else {
        lemma_pow2_even(p);
        let h = p / 2;
        assert(u * p == 2 * (u * h) && u * h >= 1) by (nonlinear_arith)
            requires
                p == 2 * h,
                h >= 1,
                u >= 1,
        ;
        lemma_fundamental_div_mod_converse((u * p) as int, 2, (u * h) as int, 0);
        lemma_strip_even(u, h, w / 2);
        lemma_div_denominator(w as int, 2, h as int);
    }
}

/// The hash of the leaves `[a, a + size)` joins those of its two parts at
/// `k`, where `k` is the largest power of two below `size`.
proof fn lemma_mth_split(s: Seq<Seq<char>>, a: int, size: nat, k: nat)
    requires
        size >= 2,
        k == largest_pow2_below(size),
        0 <= a,
        a + size <= s.len(),
    ensures
        mth(s.subrange(a, a + size)) == pair_hash(
            mth(s.subrange(a, a + k)),
            mth(s.subrange(a + k, a + size)),
        ),
{
    lemma_largest_pow2_below(size);
    let sub = s.subrange(a, a + size);
    assert(sub.take(k as int) =~= s.subrange(a, a + k));
    assert(sub.skip(k as int) =~= s.subrange(a + k, a + size));
}

/// Climbing from a left child: the old part lies in it, the walk's first
/// index is even and below the second, and the right sibling's hash joins
/// the new side only.
proof fn lemma_left_step(s: Seq<Seq<char>>, a: nat, size: nat, m: nat)
    requires
        size >= 2,
        a % (2 * largest_pow2_below(size)) == 0,
        a + size <= s.len(),
        a < m <= a + largest_pow2_below(size),
    ensures
        run_on(
            node_state(s, a, largest_pow2_below(size), m),
            seq![mth(s.subrange((a + largest_pow2_below(size)) as int, (a + size) as int))],
        ) == Some(node_state(s, a, size, m)),
{
    let k = largest_pow2_below(size);
    let n1 = (s.len() - 1) as nat;
    lemma_largest_pow2_below(size);
    lemma_span(k);
    let t = a / (2 * k);
    lemma_fundamental_div_mod(a as int, (2 * k) as int);
    assert(a == k * (2 * t)) by (nonlinear_arith)
        requires
            a == (2 * k) * t,
    ;
    lemma_fundamental_div_mod_converse(a as int, k as int, (2 * t) as int, 0);
    let f = a / k;
    let sn = n1 / k;
    assert(k * (2 * t + 1) == a + k) by (nonlinear_arith)
        requires
            a == k * (2 * t),
    ;
    lemma_fundamental_div_mod_converse((a + k) as int, k as int, (2 * t + 1) as int, 0);
    lemma_div_is_ordered((a + k) as int, n1 as int, k as int);
    assert(f / 2 == t);
    lemma_div_denominator(n1 as int, k as int, 2);
    lemma_mth_split(s, a as int, size, k);
    let c = mth(s.subrange((a + k) as int, (a + size) as int));
    let st = node_state(s, a, k, m);
    assert(st.0 == f && st.1 == sn);
    assert(seq![c].drop_first() =~= Seq::<Seq<char>>::empty());
    assert(walk_run(f / 2, sn / 2, st.2, pair_hash(st.3, c), Seq::<Seq<char>>::empty()) == Some(
        (f / 2, sn / 2, st.2, pair_hash(st.3, c)),
    ));
}

/// The walk's indices on climbing from a right child of `[a, a + size)`
/// (`n1` the last leaf's position): the step joins both sides, and after
/// it the indices are the parent's.
proof fn lemma_right_indices(a: nat, size: nat, n1: nat)
    requires
        size >= 2,
        a % (2 * largest_pow2_below(size)) == 0,
        a + largest_pow2_below(size) <= n1,
        a + size == n1 + 1 || is_pow2(size),
        a + size <= n1 + 1,
    ensures
        ({
            let k = largest_pow2_below(size);
            let q = span((size - k) as nat);
            let f = (a + k) / q;
            let sn = n1 / q;
            &&& sn != 0
            &&& f % 2 == 1 || f == sn
            &&& strip_even(f, sn).0 / 2 == a / (2 * k)
            &&& strip_even(f, sn).1 / 2 == n1 / (2 * k)
        }),
{
    let k = largest_pow2_below(size);
    let r = (size - k) as nat;
    lemma_largest_pow2_below(size);
    lemma_span(r);
    lemma_span_le(r, k);
    let q = span(r);
    lemma_pow2_divides(q, k);
    let p = k / q;
    let t = a / (2 * k);
    lemma_fundamental_div_mod(a as int, (2 * k) as int);
    let u = (2 * t + 1) as nat;
    assert(a + k == (u * p) * q && u * p >= 1) by (nonlinear_arith)
        requires
            a == (2 * k) * t,
            k == q * p,
            u == 2 * t + 1,
            p >= 1,
    ;
    lemma_fundamental_div_mod_converse((a + k) as int, q as int, (u * p) as int, 0);
    let f = (a + k) / q;
    let sn = n1 / q;
    lemma_div_is_ordered((a + k) as int, n1 as int, q as int);
    if p != 1 {
        if a + size != n1 + 1 {
            lemma_span(size);
            assert(q == k);
            assert(false) by (nonlinear_arith)
                requires
                    q == k,
                    k == q * p,
                    p != 1,
                    k >= 1,
            ;
        }
        lemma_fundamental_div_mod_converse(n1 as int, q as int, (u * p) as int, (r - 1) as int);
    } else {
        assert(u * p == u) by (nonlinear_arith)
            requires
                p == 1,
        ;
    }
    lemma_strip_even(u, p, sn);
    lemma_div_denominator(n1 as int, q as int, p as int);
    lemma_div_denominator(n1 as int, k as int, 2);
    lemma_fundamental_div_mod_converse(a as int, (2 * k) as int, t as int, 0);
}

/// Climbing from a right child: the left sibling's hash joins both sides.
/// Where the child is narrower than its sibling it ends the tree, so the
/// walk's two indices agree and shift down together to the sibling's level.
proof fn lemma_right_step(s: Seq<Seq<char>>, a: nat, size: nat, m: nat)
    requires
        size >= 2,
        a % (2 * largest_pow2_below(size)) == 0,
        a + size <= s.len(),
        a + size == s.len() || is_pow2(size),
        a + largest_pow2_below(size) < m <= a + size,
    ensures
        run_on(
            node_state(s, a + largest_pow2_below(size), (size - largest_pow2_below(size)) as nat, m),
            seq![mth(s.subrange(a as int, (a + largest_pow2_below(size)) as int))],
        ) == Some(node_state(s, a, size, m)),
{
    let k = largest_pow2_below(size);
    let r = (size - k) as nat;
    let n1 = (s.len() - 1) as nat;
    lemma_largest_pow2_below(size);
    lemma_right_indices(a, size, n1);
    lemma_mth_split(s, a as int, size, k);
    lemma_largest_pow2_below((m - a) as nat);
    lemma_lp2_between(1, k, (m - a) as nat);
    lemma_mth_split(s, a as int, (m - a) as nat, k);
    let c = mth(s.subrange(a as int, (a + k) as int));
    let st = node_state(s, a + k, r, m);
    let next = strip_even(st.0, st.1);
    assert(seq![c].drop_first() =~= Seq::<Seq<char>>::empty());
    assert(walk_run(
        next.0 / 2,
        next.1 / 2,
        pair_hash(c, st.2),
        pair_hash(c, st.3),
        Seq::<Seq<char>>::empty(),
    ) == Some((next.0 / 2, next.1 / 2, pair_hash(c, st.2), pair_hash(c, st.3))));
}

/// The proof hashes that the SUBPROOF recursion gives for the node
/// `[a, a + size)`, with the old root put first where the recursion ends in
/// the old tree's complete prefix, as the verifier does.
spec fn verifier_path(s: Seq<Seq<char>>, m: nat, a: nat, size: nat, complete: bool, a0: nat) -> Seq<
    Seq<char>,
> {
    let p = subproof_spec(s, (m - a) as nat, a as int, size, complete);
    if complete && a0 == 0 {
        seq![mth(s.subrange(a0 as int, m as int))] + p
    } else {
        p
    }
}

/// What holds of each node that the recursion visits for the old size `m`.
spec fn visited(s: Seq<Seq<char>>, m: nat, a: nat, size: nat, complete: bool) -> bool {
    &&& m < s.len()
    &&& a < m <= a + size <= s.len()
    &&& a + size == s.len() || is_pow2(size)
    &&& a % span(size) == 0
    &&& complete ==> a == 0
    &&& m == a + size ==> a % (2 * size) == 0
}

/// The walk over the hashes that the recursion gives below the node
/// `[a, a + size)` climbs from the node where the recursion ends,
/// `[a0, m)`, to the node itself.
spec fn climbs(s: Seq<Seq<char>>, m: nat, a: nat, size: nat, complete: bool, a0: nat) -> bool {
    let v = verifier_path(s, m, a, size, complete, a0);
    &&& a <= a0 < m
    &&& is_pow2((m - a0) as nat)
    &&& a0 % (2 * (m - a0) as nat) == 0
    &&& v.len() >= 1
    &&& v[0] == mth(s.subrange(a0 as int, m as int))
    &&& run_on(node_state(s, a0, (m - a0) as nat, m), v.drop_first()) == Some(
        node_state(s, a, size, m),
    )
}

proof fn lemma_left_child_visited(s: Seq<Seq<char>>, m: nat, a: nat, size: nat, complete: bool)
    requires
        visited(s, m, a, size, complete),
        m < a + size,
        m - a <= largest_pow2_below(size),
    ensures
        size >= 2,
        a % (2 * largest_pow2_below(size)) == 0,
        visited(s, m, a, largest_pow2_below(size), complete),
{
    let k = largest_pow2_below(size);
    lemma_largest_pow2_below(size);
    lemma_span(k);
    let t = a / (2 * k);
    lemma_fundamental_div_mod(a as int, (2 * k) as int);
    assert(a == (2 * t) * k) by (nonlinear_arith)
        requires
            a == (2 * k) * t,
    ;
    lemma_fundamental_div_mod_converse(a as int, k as int, (2 * t) as int, 0);
}

proof fn lemma_right_child_visited(s: Seq<Seq<char>>, m: nat, a: nat, size: nat, complete: bool)
    requires
        visited(s, m, a, size, complete),
        m < a + size,
        m - a > largest_pow2_below(size),
    ensures
        size >= 2,
        a % (2 * largest_pow2_below(size)) == 0,
        visited(s, m, a + largest_pow2_below(size), (size - largest_pow2_below(size)) as nat, false),
{
    let k = largest_pow2_below(size);
    let r = (size - k) as nat;
    lemma_largest_pow2_below(size);
    lemma_span(r);
    lemma_span_le(r, k);
    lemma_pow2_divides(span(r), k);
    let p = k / span(r);
    let t = a / (2 * k);
    lemma_fundamental_div_mod(a as int, (2 * k) as int);
    assert(a + k == (p * (2 * t + 1)) * span(r)) by (nonlinear_arith)
        requires
            a == (2 * k) * t,
            k == span(r) * p,
    ;
    lemma_fundamental_div_mod_converse((a + k) as int, span(r) as int, (p * (2 * t + 1)) as int, 0);
    if a + size != s.len() {
        lemma_span(size);
    }
}

proof fn lemma_left_climb(s: Seq<Seq<char>>, m: nat, a: nat, size: nat, complete: bool, a0: nat)
    requires
        visited(s, m, a, size, complete),
        m < a + size,
        m - a <= largest_pow2_below(size),
        size >= 2,
        a % (2 * largest_pow2_below(size)) == 0,
        climbs(s, m, a, largest_pow2_below(size), complete, a0),
    ensures
        climbs(s, m, a, size, complete, a0),
{
    let k = largest_pow2_below(size);
    lemma_largest_pow2_below(size);
    let c = mth(s.subrange((a + k) as int, (a + size) as int));
    let vx = verifier_path(s, m, a, k, complete, a0);
    let vy = verifier_path(s, m, a, size, complete, a0);
    assert(vy =~= vx + seq![c]);
    assert(vy.drop_first() =~= vx.drop_first() + seq![c]);
    lemma_walk_run_append(node_state(s, a0, (m - a0) as nat, m), vx.drop_first(), seq![c]);
    lemma_left_step(s, a, size, m);
}

proof fn lemma_right_climb(s: Seq<Seq<char>>, m: nat, a: nat, size: nat, complete: bool, a0: nat)
    requires
        visited(s, m, a, size, complete),
        m < a + size,
        m - a > largest_pow2_below(size),
        size >= 2,
        a % (2 * largest_pow2_below(size)) == 0,
        climbs(s, m, a + largest_pow2_below(size), (size - largest_pow2_below(size)) as nat, false, a0),
    ensures
        climbs(s, m, a, size, complete, a0),
{
    let k = largest_pow2_below(size);
    let r = (size - k) as nat;
    lemma_largest_pow2_below(size);
    let c = mth(s.subrange(a as int, (a + k) as int));
    let vx = verifier_path(s, m, a + k, r, false, a0);
    let vy = verifier_path(s, m, a, size, complete, a0);
    assert(vy =~= vx + seq![c]);
    assert(vy.drop_first() =~= vx.drop_first() + seq![c]);
    lemma_walk_run_append(node_state(s, a0, (m - a0) as nat, m), vx.drop_first(), seq![c]);
    lemma_right_step(s, a, size, m);
}

/// Induction over the recursion, from each visited node down to where it ends.
proof fn lemma_subproof_walk(s: Seq<Seq<char>>, m: nat, a: nat, size: nat, complete: bool) -> (a0:
    nat)
    requires
        visited(s, m, a, size, complete),
    ensures
        climbs(s, m, a, size, complete, a0),
    decreases size,
{
    if m == a + size {
        let v = verifier_path(s, m, a, size, complete, a);
        assert(v =~= seq![mth(s.subrange(a as int, m as int))]);
        assert(v.drop_first() =~= Seq::<Seq<char>>::empty());
        a
    } else if m - a <= largest_pow2_below(size) {
        lemma_left_child_visited(s, m, a, size, complete);
        lemma_largest_pow2_below(size);
        let a0 = lemma_subproof_walk(s, m, a, largest_pow2_below(size), complete);
        lemma_left_climb(s, m, a, size, complete, a0);
        a0
    } else {
        lemma_right_child_visited(s, m, a, size, complete);
        lemma_largest_pow2_below(size);
        let a0 = lemma_subproof_walk(
            s,
            m,
            a + largest_pow2_below(size),
            (size - largest_pow2_below(size)) as nat,
            false,
        );
        lemma_right_climb(s, m, a, size, complete, a0);
        a0
    }
}

/// An odd multiple `q * (2t + 1)` of a power of two `q`, with `t >= 1`, is
/// no power of two.
proof fn lemma_odd_multiple_not_pow2(q: nat, t: nat)
    requires
        is_pow2(q),
        t >= 1,
    ensures
        !is_pow2(q * (2 * t + 1)),
{
    let m = q * (2 * t + 1);
    assert(q <= m && m == (2 * t + 1) * q) by (nonlinear_arith)
        requires
            q >= 1,
            m == q * (2 * t + 1),
    ;
    if is_pow2(m) {
        lemma_pow2_divides(q, m);
        lemma_fundamental_div_mod_converse(m as int, q as int, (2 * t + 1) as int, 0);
        assert(!is_pow2(2 * t + 1));
    }
}

/// Every consistency proof that a tree gives for an older size verifies:
/// with the canonical roots of the first `old_size` leaves and of all of
/// them, and the SUBPROOF hashes between them, the RFC 9162 check passes.
pub proof fn lemma_generated_consistency_verifies(leaves: Seq<Seq<char>>, p: ConsistencyProof)
    requires
        1 <= p.old_size <= p.new_size,
        p.new_size == leaves.len(),
        p.old_root@ == mth(leaves.take(p.old_size as int)),
        p.new_root@ == mth(leaves),
        texts(p.path@) == if p.old_size == p.new_size {
            Seq::<Seq<char>>::empty()
        } else {
            subproof_spec(leaves, p.old_size as nat, 0, leaves.len(), true)
        },
    ensures
        consistency_holds(p),
{
    let s = leaves;
    let m = p.old_size as nat;
    let n = s.len();
    assert(s.subrange(0, n as int) =~= s);
    assert(s.take(n as int) =~= s);
    if m == n {
        assert(texts(p.path@).len() == p.path@.len());
    } else {
        lemma_span(n);
        lemma_fundamental_div_mod_converse(0, span(n) as int, 0, 0);
        let a0 = lemma_subproof_walk(s, m, 0, n, true);
        let q = (m - a0) as nat;
        lemma_span(q);
        let t = a0 / (2 * q);
        lemma_fundamental_div_mod(a0 as int, (2 * q) as int);
        assert(a0 == (2 * t) * q) by (nonlinear_arith)
            requires
                a0 == (2 * q) * t,
        ;
        lemma_fundamental_div_mod_converse(a0 as int, q as int, (2 * t) as int, 0);
        if a0 != 0 {
            assert(t >= 1) by (nonlinear_arith)
                requires
                    a0 == (2 * t) * q,
                    a0 != 0,
            ;
            assert(m == q * (2 * t + 1)) by (nonlinear_arith)
                requires
                    a0 == (2 * t) * q,
                    m == a0 + q,
            ;
            lemma_odd_multiple_not_pow2(q, t);
        }
        assert(s.subrange(0, m as int) =~= s.take(m as int));
        let v = verifier_path(s, m, 0, n, true, a0);
        let path = if is_pow2(m) {
            seq![p.old_root@] + texts(p.path@)
        } else {
            texts(p.path@)
        };
        assert(path =~= v);
        let u = a0 / q;
        assert(((m - 1) as nat) == ((u * q + (q - 1)) as nat));
        lemma_strip_odd(u, q, (n - 1) as nat);
        lemma_fundamental_div_mod_converse((n - 1) as int, span(n) as int, 0, (n - 1) as int);
        lemma_walk_run_verdict(
            u,
            ((n - 1) as nat) / q,
            path[0],
            path[0],
            path.drop_first(),
            p.old_root@,
            p.new_root@,
        );
    }
}

} // verus!
