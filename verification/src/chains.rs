//! States that are passed on: when what is taken balances with what is left.
use vstd::multiset::Multiset;
use vstd::prelude::*;

verus! {

/// What is taken is what is left.
pub open spec fn passed_on<S>(taken: Seq<S>, ends: Seq<S>, left: Seq<S>, starts: Seq<S>) -> bool {
    (taken + ends).to_multiset() == (left + starts).to_multiset()
}

/// A state that is left, or that is a start, is taken, or is an end.
pub proof fn lemma_left_is_taken<S>(
    taken: Seq<S>,
    ends: Seq<S>,
    left: Seq<S>,
    starts: Seq<S>,
    t: S,
)
    requires
        passed_on(taken, ends, left, starts),
        left.contains(t) || starts.contains(t),
    ensures
        taken.contains(t) || ends.contains(t),
{
    let (l, r) = (taken + ends, left + starts);
    l.to_multiset_ensures();
    r.to_multiset_ensures();
    assert(r.contains(t)) by {
        if left.contains(t) {
            let i = choose|i: int| 0 <= i < left.len() && left[i] == t;
            assert(r[i] == t);
        } else {
            let s = choose|s: int| 0 <= s < starts.len() && starts[s] == t;
            assert(r[left.len() + s] == t);
        }
    }
    assert(r.to_multiset().count(t) > 0);
    assert(l.contains(t));
    let k = choose|k: int| 0 <= k < l.len() && l[k] == t;
    if k < taken.len() {
        assert(taken[k] == t);
    } else {
        assert(ends[k - taken.len()] == t);
    }
}

/// The first `n` states of a sequence.
spec fn first<S>(s: Seq<S>, n: nat) -> Multiset<S>
    decreases n,
{
    if n == 0 {
        Multiset::empty()
    } else {
        first(s, (n - 1) as nat).insert(s[n - 1])
    }
}

proof fn lemma_first<S>(s: Seq<S>, n: nat)
    requires
        n <= s.len(),
    ensures
        s.take(n as int).to_multiset() == first(s, n),
    decreases n,
{
    if n == 0 {
        assert(s.take(0) =~= Seq::empty());
        assert(Seq::<S>::empty().to_multiset() =~= Multiset::empty()) by {
            Seq::<S>::empty().to_multiset_ensures();
        }
    } else {
        let m = (n - 1) as nat;
        lemma_first(s, m);
        assert(s.take(n as int) =~= s.take(m as int).push(s[m as int]));
        vstd::seq_lib::to_multiset_build(s.take(m as int), s[m as int]);
    }
}

/// State `j` of chain `s` is `f(s, j)`; the states between the ends of `n` chains
/// of `k` steps, one chain after the other.
pub open spec fn block_taken<S>(f: spec_fn(int, int) -> S, n: nat, k: nat) -> Seq<S> {
    Seq::new(n * k, |i: int| f(i / k as int, i % k as int))
}

pub open spec fn block_left<S>(f: spec_fn(int, int) -> S, n: nat, k: nat) -> Seq<S> {
    Seq::new(n * k, |i: int| f(i / k as int, i % k as int + 1))
}

/// State `j` of each chain.
pub open spec fn all_at<S>(f: spec_fn(int, int) -> S, n: nat, j: int) -> Seq<S> {
    Seq::new(n, |s: int| f(s, j))
}

/// The first `s` chains and `j` steps of the next one balance.
proof fn lemma_telescopes<S>(f: spec_fn(int, int) -> S, n: nat, k: nat, s: nat, j: nat)
    requires
        0 < k,
        s < n,
        j <= k,
    ensures
        first(block_taken(f, n, k), s * k + j).insert(f(s as int, j as int)).add(
            first(all_at(f, n, k as int), s),
        ) == first(block_left(f, n, k), s * k + j).add(first(all_at(f, n, 0), s + 1)),
    decreases s, j,
{
    let (taken, left) = (block_taken(f, n, k), block_left(f, n, k));
    let (starts, ends) = (all_at(f, n, 0), all_at(f, n, k as int));
    let m = s * k + j;
    if j == 0 {
        let head = f(s as int, 0);
        assert(starts[s as int] == head);
        let fs = first(starts, s);
        assert(first(starts, s + 1) == fs.insert(head));
        if s == 0 {
            assert(s * k == 0) by (nonlinear_arith)
                requires
                    s == 0,
            ;
            assert(first(taken, 0).insert(head).add(first(ends, 0)) =~= first(left, 0).add(
                fs.insert(head),
            ));
        } else {
            let q = (s - 1) as nat;
            lemma_telescopes(f, n, k, q, k);
            assert(q * k + k == s * k) by (nonlinear_arith)
                requires
                    q == s - 1,
            ;
            let end = f(q as int, k as int);
            assert(ends[q as int] == end);
            let (b, a, e) = (first(taken, m), first(left, m), first(ends, q));
            assert(first(ends, s) == e.insert(end));
            assert(b.insert(end).add(e) == a.add(fs));
            assert(b.insert(head).add(e.insert(end)) =~= b.insert(end).add(e).insert(head));
            assert(a.add(fs.insert(head)) =~= a.add(fs).insert(head));
        }
    } else {
        let i = (j - 1) as nat;
        lemma_telescopes(f, n, k, s, i);
        let r = (s * k + i) as int;
        assert(0 <= r < n * k) by (nonlinear_arith)
            requires
                s < n,
                0 <= i < k,
                r == s * k + i,
        ;
        assert(k * s + i == r) by (nonlinear_arith)
            requires
                r == s * k + i,
        ;
        vstd::arithmetic::div_mod::lemma_fundamental_div_mod_converse(
            r,
            k as int,
            s as int,
            i as int,
        );
        let (here, next) = (f(s as int, i as int), f(s as int, j as int));
        assert(taken[r] == here && left[r] == next);
        let (b, a) = (first(taken, r as nat), first(left, r as nat));
        let (e, fs) = (first(ends, s), first(starts, s + 1));
        assert(m == r + 1);
        assert(first(taken, m) == b.insert(here));
        assert(first(left, m) == a.insert(next));
        assert(b.insert(here).insert(next).add(e) =~= b.insert(here).add(e).insert(next));
        assert(a.insert(next).add(fs) =~= a.add(fs).insert(next));
    }
}

/// Chains whose steps each take the state before and leave the state after pass
/// their states on, from their starts to their ends.
pub proof fn lemma_chains_pass_on<S>(f: spec_fn(int, int) -> S, n: nat, k: nat)
    requires
        0 < k,
        0 < n,
    ensures
        passed_on(
            block_taken(f, n, k),
            all_at(f, n, k as int),
            block_left(f, n, k),
            all_at(f, n, 0),
        ),
{
    let (taken, left) = (block_taken(f, n, k), block_left(f, n, k));
    let (starts, ends) = (all_at(f, n, 0), all_at(f, n, k as int));
    let last = (n - 1) as nat;
    lemma_telescopes(f, n, k, last, k);
    assert(last * k + k == n * k) by (nonlinear_arith)
        requires
            last == n - 1,
    ;
    let end = f(last as int, k as int);
    assert(ends[last as int] == end);
    let (b, e) = (first(taken, n * k), first(ends, last));
    assert(first(ends, n) == e.insert(end));
    assert(b.insert(end).add(e) =~= b.add(e.insert(end)));
    lemma_first(taken, n * k);
    lemma_first(left, n * k);
    lemma_first(starts, n);
    lemma_first(ends, n);
    assert(taken.take((n * k) as int) =~= taken);
    assert(left.take((n * k) as int) =~= left);
    assert(starts.take(n as int) =~= starts);
    assert(ends.take(n as int) =~= ends);
    vstd::seq_lib::lemma_multiset_commutative(taken, ends);
    vstd::seq_lib::lemma_multiset_commutative(left, starts);
}

} // verus!
