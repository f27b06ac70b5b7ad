//! Enumeration of the orderings of a collection, one at a time.
//!
//! The orderings of `n` positions are numbered from `0` to `n! - 1`. The
//! ordering with number `k` is read off the digits of `k` in the factorial
//! number system: the first digit picks one of the `n` positions, the second
//! one of the `n - 1` that are left, and so on. Numbered this way the
//! orderings come in lexicographic order, each exactly once.

use crate::model::{clone_tracks, track_views, Track, TrackView, Tracklist};
use vstd::arithmetic::div_mod::{
    lemma_fundamental_div_mod, lemma_fundamental_div_mod_converse, lemma_mod_pos_bound,
};
use vstd::prelude::*;

verus! {

/// The product of the numbers from 1 to `n`.
pub open spec fn factorial(n: nat) -> nat
    decreases n,
{
    if n == 0 {
        1
    } else {
        n * factorial((n - 1) as nat)
    }
}

/// The positions `0, 1, .., n - 1` in their natural order.
pub open spec fn identity(n: nat) -> Seq<int> {
    Seq::new(n, |i: int| i)
}

/// Whether `p` holds each of the positions `0, .., n - 1` exactly once.
pub open spec fn is_permutation(p: Seq<int>, n: nat) -> bool {
    &&& p.len() == n
    &&& p.no_duplicates()
    &&& forall|i: int| 0 <= i < p.len() ==> 0 <= #[trigger] p[i] < n
}

/// Whether `digits` is a number in the factorial number system: the digit at
/// place `i` of `len` places is below `len - i`.
pub open spec fn valid_digits(digits: Seq<int>) -> bool {
    forall|i: int| 0 <= i < digits.len() ==> 0 <= #[trigger] digits[i] < digits.len() - i
}

/// The `n` digits of `k` in the factorial number system, the most significant
/// first.
pub open spec fn digits_of(n: nat, k: nat) -> Seq<int>
    decreases n,
{
    if n == 0 {
        Seq::empty()
    } else {
        let block = factorial((n - 1) as nat);
        seq![(k as int) / (block as int)] + digits_of((n - 1) as nat, (k % block) as nat)
    }
}

/// The number that `digits` stand for in the factorial number system.
pub open spec fn rank_of(digits: Seq<int>) -> int
    decreases digits.len(),
{
    if digits.len() == 0 {
        0
    } else {
        digits[0] * factorial((digits.len() - 1) as nat) + rank_of(digits.drop_first())
    }
}

/// The ordering of `items` that `digits` select: each digit picks, by its
/// index, one of the items that the digits before it have left.
pub open spec fn select(items: Seq<int>, digits: Seq<int>) -> Seq<int>
    decreases digits.len(),
{
    if digits.len() == 0 || !(0 <= digits[0] < items.len()) {
        Seq::empty()
    } else {
        seq![items[digits[0]]] + select(items.remove(digits[0]), digits.drop_first())
    }
}

/// The ordering of the positions `0, .., n - 1` with number `k`.
pub open spec fn nth_permutation(n: nat, k: nat) -> Seq<int> {
    select(identity(n), digits_of(n, k))
}

/// `items` rearranged as `p` says: the result holds at `i` the item that
/// stood at `p[i]`.
pub open spec fn arrange<T>(items: Seq<T>, p: Seq<int>) -> Seq<T> {
    Seq::new(p.len(), |i: int| items[p[i]])
}

/// The ordering of `tracks` with number `k`.
pub open spec fn nth_ordering(tracks: Seq<TrackView>, k: nat) -> Seq<TrackView> {
    arrange(tracks, nth_permutation(tracks.len(), k))
}

/// A factorial is at least one.
pub proof fn lemma_factorial_positive(n: nat)
    ensures
        factorial(n) >= 1,
    decreases n,
{
    if n > 0 {
        lemma_factorial_positive((n - 1) as nat);
        assert(n * factorial((n - 1) as nat) >= 1) by (nonlinear_arith)
            requires
                n >= 1,
                factorial((n - 1) as nat) >= 1,
        ;
    }
}

/// The digits of a number below `n!` are a number of `n` places in the
/// factorial number system, and they stand for that number.
pub proof fn lemma_digits_of_rank(n: nat, k: nat)
    requires
        k < factorial(n),
    ensures
        digits_of(n, k).len() == n,
        valid_digits(digits_of(n, k)),
        rank_of(digits_of(n, k)) == k,
    decreases n,
{
    if n > 0 {
        let block = factorial((n - 1) as nat);
        let q = (k as int) / (block as int);
        let r = (k % block) as nat;
        lemma_fundamental_div_mod(k as int, block as int);
        assert(0 <= q < n) by (nonlinear_arith)
            requires
                k == block * q + r,
                0 <= r < block,
                k < n * block,
                0 <= k,
        ;
        lemma_digits_of_rank((n - 1) as nat, r);
        let rest = digits_of((n - 1) as nat, r);
        let digits = digits_of(n, k);
        assert(digits.drop_first() =~= rest);
        assert(q * block == block * q) by (nonlinear_arith);
    }
}

/// A number of `n` places in the factorial number system is below `n!`.
pub proof fn lemma_rank_bound(digits: Seq<int>)
    requires
        valid_digits(digits),
    ensures
        0 <= rank_of(digits) < factorial(digits.len()),
    decreases digits.len(),
{
    if digits.len() > 0 {
        let rest = digits.drop_first();
        lemma_rank_bound(rest);
        let block = factorial((digits.len() - 1) as nat);
        let d = digits[0];
        let n = digits.len();
        assert(0 <= d * block && d * block + block <= n * block) by (nonlinear_arith)
            requires
                0 <= d < n,
                block >= 0,
        ;
    }
}

/// The digits of the number that `digits` stand for are `digits`.
pub proof fn lemma_rank_digits(digits: Seq<int>)
    requires
        valid_digits(digits),
    ensures
        0 <= rank_of(digits) < factorial(digits.len()),
        digits_of(digits.len(), rank_of(digits) as nat) == digits,
    decreases digits.len(),
{
    lemma_rank_bound(digits);
    if digits.len() > 0 {
        let rest = digits.drop_first();
        lemma_rank_digits(rest);
        let block = factorial((digits.len() - 1) as nat);
        lemma_fundamental_div_mod_converse(
            rank_of(digits),
            block as int,
            digits[0],
            rank_of(rest),
        );
    }
}

/// Removing one item of a sequence without repetitions leaves a sequence
/// without repetitions that lacks that item and holds no new one.
pub proof fn lemma_remove_distinct(items: Seq<int>, i: int)
    requires
        items.no_duplicates(),
        0 <= i < items.len(),
    ensures
        items.remove(i).len() == items.len() - 1,
        items.remove(i).no_duplicates(),
        !items.remove(i).contains(items[i]),
        forall|x: int| items.remove(i).contains(x) ==> items.contains(x),
        forall|x: int| items.contains(x) && x != items[i] ==> items.remove(i).contains(x),
{
    let rest = items.remove(i);
    assert forall|x: int| items.contains(x) && x != items[i] implies rest.contains(x) by {
        let j = choose|j: int| 0 <= j < items.len() && items[j] == x;
        if j < i {
            assert(rest[j] == x);
        } else {
            assert(rest[j - 1] == x);
        }
    }
}

/// Selecting from items without repetitions gives an ordering of the same
/// length, without repetitions, of those items.
pub proof fn lemma_select_arranges(items: Seq<int>, digits: Seq<int>)
    requires
        items.no_duplicates(),
        digits.len() == items.len(),
        valid_digits(digits),
    ensures
        select(items, digits).len() == items.len(),
        select(items, digits).no_duplicates(),
        forall|x: int| select(items, digits).contains(x) <==> items.contains(x),
    decreases digits.len(),
{
    if digits.len() > 0 {
        let d = digits[0];
        let rest = digits.drop_first();
        let left = items.remove(d);
        lemma_remove_distinct(items, d);
        lemma_select_arranges(left, rest);
        let tail = select(left, rest);
        let all = select(items, digits);
        assert forall|x: int| all.contains(x) <==> items.contains(x) by {
            if items.contains(x) {
                if x == items[d] {
                    assert(all[0] == x);
                } else {
                    let i = choose|i: int| 0 <= i < tail.len() && tail[i] == x;
                    assert(all[i + 1] == x);
                }
            }
        }
    }
}

/// Different digits select different orderings of items without repetitions.
pub proof fn lemma_select_injective(items: Seq<int>, first: Seq<int>, second: Seq<int>)
    requires
        items.no_duplicates(),
        first.len() == items.len(),
        second.len() == items.len(),
        valid_digits(first),
        valid_digits(second),
        select(items, first) == select(items, second),
    ensures
        first == second,
    decreases items.len(),
{
    if items.len() > 0 {
        let a = first[0];
        let b = second[0];
        let tail_a = select(items.remove(a), first.drop_first());
        let tail_b = select(items.remove(b), second.drop_first());
        let all_a = select(items, first);
        let all_b = select(items, second);
        assert(all_b[0] == items[b]);
        assert(tail_a =~= all_a.drop_first());
        assert(tail_b =~= all_b.drop_first());
        let rest_a = first.drop_first();
        let rest_b = second.drop_first();
        lemma_select_injective(items.remove(a), rest_a, rest_b);
        assert(second =~= seq![b] + rest_b);
    }
}

/// Every ordering of items without repetitions is selected by some digits.
pub proof fn lemma_select_surjective(items: Seq<int>, p: Seq<int>) -> (digits: Seq<int>)
    requires
        items.no_duplicates(),
        p.no_duplicates(),
        p.len() == items.len(),
        forall|i: int| 0 <= i < p.len() ==> items.contains(#[trigger] p[i]),
    ensures
        digits.len() == items.len(),
        valid_digits(digits),
        select(items, digits) == p,
    decreases items.len(),
{
    if items.len() == 0 {
        Seq::empty()
    } else {
        let head = p[0];
        let d = choose|d: int| 0 <= d < items.len() && items[d] == head;
        let left = items.remove(d);
        let tail = p.drop_first();
        lemma_remove_distinct(items, d);
        let rest = lemma_select_surjective(left, tail);
        let digits = seq![d] + rest;
        assert(digits.drop_first() =~= rest);
        digits
    }
}

/// The positions in their natural order hold each position once.
pub proof fn lemma_identity_distinct(n: nat)
    ensures
        identity(n).len() == n,
        identity(n).no_duplicates(),
        forall|x: int| identity(n).contains(x) <==> 0 <= x < n,
{
    assert forall|x: int| 0 <= x < n implies identity(n).contains(x) by {
        assert(identity(n)[x] == x);
    }
}

/// Every numbered ordering is an ordering: for `k` below `n!`, the ordering
/// with number `k` holds each of the `n` positions exactly once.
pub proof fn lemma_nth_is_permutation(n: nat, k: nat)
    requires
        k < factorial(n),
    ensures
        is_permutation(nth_permutation(n, k), n),
{
    lemma_digits_of_rank(n, k);
    lemma_select_arranges(identity(n), digits_of(n, k));
    let p = nth_permutation(n, k);
    assert forall|i: int| 0 <= i < p.len() implies 0 <= #[trigger] p[i] < n by {
        assert(identity(n).contains(p[i]));
    }
}

/// No ordering comes twice: two different numbers below `n!` give two
/// different orderings.
pub proof fn lemma_nth_distinct(n: nat, j: nat, k: nat)
    requires
        j < factorial(n),
        k < factorial(n),
        j != k,
    ensures
        nth_permutation(n, j) != nth_permutation(n, k),
{
    lemma_digits_of_rank(n, j);
    lemma_digits_of_rank(n, k);
    if nth_permutation(n, j) == nth_permutation(n, k) {
        lemma_select_injective(identity(n), digits_of(n, j), digits_of(n, k));
    }
}

/// No ordering is left out: every ordering of `n` positions has a number
/// below `n!`, which the proof returns.
pub proof fn lemma_nth_complete(n: nat, p: Seq<int>) -> (k: nat)
    requires
        is_permutation(p, n),
    ensures
        k < factorial(n),
        nth_permutation(n, k) == p,
{
    lemma_identity_distinct(n);
    let digits = lemma_select_surjective(identity(n), p);
    lemma_rank_digits(digits);
    rank_of(digits) as nat
}

/// The numbers below `n!` name the orderings of `n` positions, each exactly
/// once: every number names an ordering, no two numbers name the same, and
/// every ordering has a number.
pub proof fn lemma_orderings_exactly_once(n: nat)
    ensures
        forall|k: nat| k < factorial(n) ==> is_permutation(#[trigger] nth_permutation(n, k), n),
        forall|j: nat, k: nat|
            #![trigger nth_permutation(n, j), nth_permutation(n, k)]
            j < factorial(n) && k < factorial(n) && j != k ==> nth_permutation(n, j)
                != nth_permutation(n, k),
        forall|p: Seq<int>| #[trigger]
            is_permutation(p, n) ==> exists|k: nat|
                k < factorial(n) && #[trigger] nth_permutation(n, k) == p,
{
    assert forall|k: nat| k < factorial(n) implies is_permutation(
        #[trigger] nth_permutation(n, k),
        n,
    ) by {
        lemma_nth_is_permutation(n, k);
    }
    assert forall|j: nat, k: nat|
        #![trigger nth_permutation(n, j), nth_permutation(n, k)]
        j < factorial(n) && k < factorial(n) && j != k implies nth_permutation(n, j)
        != nth_permutation(n, k) by {
        lemma_nth_distinct(n, j, k);
    }
    assert forall|p: Seq<int>| #[trigger] is_permutation(p, n) implies exists|k: nat|
        k < factorial(n) && #[trigger] nth_permutation(n, k) == p by {
        let k = lemma_nth_complete(n, p);
        assert(nth_permutation(n, k) == p);
    }
}

/// Whether every item of `items` is smaller than the items after it.
pub open spec fn rising(items: Seq<int>) -> bool {
    forall|i: int, j: int| 0 <= i < j < items.len() ==> items[i] < items[j]
}

/// Whether `p` and `q` agree before the place `i` and `p` holds the smaller
/// item there.
pub open spec fn smaller_at(p: Seq<int>, q: Seq<int>, i: int) -> bool {
    &&& 0 <= i < p.len()
    &&& i < q.len()
    &&& p.take(i) == q.take(i)
    &&& p[i] < q[i]
}

/// Whether `p` comes before `q` in lexicographic order.
pub open spec fn comes_before(p: Seq<int>, q: Seq<int>) -> bool {
    exists|i: int| smaller_at(p, q, i)
}

/// Of two numbers below `n!`, the smaller selects from rising items the
/// ordering that comes first in lexicographic order.
pub proof fn lemma_select_in_order(items: Seq<int>, j: nat, k: nat)
    requires
        rising(items),
        j < k < factorial(items.len()),
    ensures
        comes_before(
            select(items, digits_of(items.len(), j)),
            select(items, digits_of(items.len(), k)),
        ),
    decreases items.len(),
{
    let n = items.len();
    if n > 0 {
        let block = factorial((n - 1) as nat);
        lemma_factorial_positive((n - 1) as nat);
        let qj = (j as int) / (block as int);
        let rj = (j % block) as nat;
        let qk = (k as int) / (block as int);
        let rk = (k % block) as nat;
        lemma_fundamental_div_mod(j as int, block as int);
        lemma_fundamental_div_mod(k as int, block as int);
        lemma_digits_of_rank(n, k);
        let dj = digits_of(n, j);
        let dk = digits_of(n, k);
        assert(dj.drop_first() =~= digits_of((n - 1) as nat, rj));
        assert(dk.drop_first() =~= digits_of((n - 1) as nat, rk));
        assert(qj <= qk && (qj == qk ==> rj < rk)) by (nonlinear_arith)
            requires
                j == block * qj + rj,
                k == block * qk + rk,
                0 <= rj < block,
                0 <= rk < block,
                j < k,
        ;
        let p = select(items, dj);
        let q = select(items, dk);
        let tail_p = select(items.remove(qj), digits_of((n - 1) as nat, rj));
        let tail_q = select(items.remove(qk), digits_of((n - 1) as nat, rk));
        if qj < qk {
            assert(p.take(0) =~= q.take(0));
            assert(smaller_at(p, q, 0));
        } else {
            let left = items.remove(qj);
            lemma_select_in_order(left, rj, rk);
            let i = choose|i: int| smaller_at(tail_p, tail_q, i);
            assert(p.take(i + 1) =~= seq![items[qj]] + tail_p.take(i));
            assert(q.take(i + 1) =~= seq![items[qk]] + tail_q.take(i));
            assert(smaller_at(p, q, i + 1));
        }
    }
}

/// The orderings come in lexicographic order: of two numbers below `n!`, the
/// smaller is the number of the ordering that comes first.
pub proof fn lemma_nth_in_order(n: nat, j: nat, k: nat)
    requires
        j < k < factorial(n),
    ensures
        comes_before(nth_permutation(n, j), nth_permutation(n, k)),
{
    lemma_select_in_order(identity(n), j, k);
}

/// The positions held by a vector of indices.
pub open spec fn positions(indices: Seq<usize>) -> Seq<int> {
    indices.map_values(|x: usize| x as int)
}

/// `digits` counted up by one at place `i`: the digit there grows by one and
/// the digits after it fall back to zero.
pub open spec fn successor_digits(digits: Seq<int>, i: int) -> Seq<int> {
    Seq::new(
        digits.len(),
        |j: int|
            if j < i {
                digits[j]
            } else if j == i {
                digits[i] + 1
            } else {
                0
            },
    )
}

/// Digits that are all zero stand for zero.
pub proof fn lemma_zero_rank(digits: Seq<int>)
    requires
        forall|j: int| 0 <= j < digits.len() ==> digits[j] == 0,
    ensures
        rank_of(digits) == 0,
    decreases digits.len(),
{
    if digits.len() > 0 {
        lemma_zero_rank(digits.drop_first());
    }
}

/// Digits that are each as large as their place allows stand for the last
/// number, `n! - 1`.
pub proof fn lemma_full_rank(digits: Seq<int>)
    requires
        forall|j: int| 0 <= j < digits.len() ==> digits[j] == digits.len() - 1 - j,
    ensures
        rank_of(digits) == factorial(digits.len()) - 1,
    decreases digits.len(),
{
    if digits.len() > 0 {
        let rest = digits.drop_first();
        lemma_full_rank(rest);
        let n = digits.len();
        let block = factorial((n - 1) as nat);
        assert((n - 1) * block + block == n * block) by (nonlinear_arith);
    }
}

/// Counting up at the last place that is not yet full gives the next number.
pub proof fn lemma_successor_rank(digits: Seq<int>, i: int)
    requires
        valid_digits(digits),
        0 <= i < digits.len(),
        digits[i] + 1 < digits.len() - i,
        forall|j: int| i < j < digits.len() ==> digits[j] == digits.len() - 1 - j,
    ensures
        valid_digits(successor_digits(digits, i)),
        rank_of(successor_digits(digits, i)) == rank_of(digits) + 1,
    decreases digits.len(),
{
    let next = successor_digits(digits, i);
    let rest = digits.drop_first();
    let n = digits.len();
    let block = factorial((n - 1) as nat);
    if i == 0 {
        lemma_full_rank(rest);
        lemma_zero_rank(next.drop_first());
        assert((digits[0] + 1) * block == digits[0] * block + block) by (nonlinear_arith);
    } else {
        lemma_successor_rank(rest, i - 1);
        assert(next.drop_first() =~= successor_digits(rest, i - 1));
    }
}

/// The ordering of the positions that `digits` select.
fn select_positions(digits: &Vec<usize>) -> (r: Vec<usize>)
    requires
        valid_digits(positions(digits@)),
    ensures
        positions(r@) == select(identity(digits@.len()), positions(digits@)),
{
    let n = digits.len();
    let ghost code = positions(digits@);
    let mut remaining: Vec<usize> = Vec::new();
    let mut i: usize = 0;
    while i < n
        invariant
            i <= n,
            remaining@.len() == i,
            forall|j: int| 0 <= j < i ==> remaining@[j] == j,
        decreases n - i,
    {
        remaining.push(i);
        i = i + 1;
    }
    assert(positions(remaining@) =~= identity(n as nat));
    let mut out: Vec<usize> = Vec::new();
    let mut i: usize = 0;
    assert(code.skip(0) =~= code);
    while i < n
        invariant
            i <= n,
            n == digits.len(),
            code == positions(digits@),
            valid_digits(code),
            remaining.len() == n - i,
            positions(out@) + select(positions(remaining@), code.skip(i as int)) == select(
                identity(n as nat),
                code,
            ),
        decreases n - i,
    {
        let d = digits[i];
        let ghost left = positions(remaining@);
        let x = remaining.remove(d);
        out.push(x);
        proof {
            assert(code.skip(i as int).drop_first() =~= code.skip(i + 1));
            assert(positions(remaining@) =~= left.remove(d as int));
        }
        i = i + 1;
    }
    out
}

/// An enumerator of the orderings of `n` positions. It holds one number in
/// the factorial number system and hands out one ordering at a time, so the
/// orderings never stand in memory together.
pub struct Permutations {
    digits: Vec<usize>,
    exhausted: bool,
    emitted: Ghost<nat>,
}

impl Permutations {
    /// The number of positions that are ordered.
    pub closed spec fn size(&self) -> nat {
        self.digits@.len()
    }

    /// The number of orderings handed out so far, which is also the number
    /// of the ordering that comes next.
    pub closed spec fn position(&self) -> nat {
        self.emitted@
    }

    /// The enumerator's invariant.
    pub closed spec fn wf(&self) -> bool {
        if self.exhausted {
            self.emitted@ == factorial(self.digits@.len())
        } else {
            &&& valid_digits(positions(self.digits@))
            &&& self.emitted@ == rank_of(positions(self.digits@))
        }
    }

    /// An enumerator never hands out more than `n!` orderings.
    pub proof fn lemma_position_bound(&self)
        requires
            self.wf(),
        ensures
            self.position() <= factorial(self.size()),
    {
        if !self.exhausted {
            lemma_rank_bound(positions(self.digits@));
        }
    }

    /// A fresh enumerator of the orderings of `n` positions.
    pub fn new(n: usize) -> (r: Self)
        ensures
            r.wf(),
            r.size() == n,
            r.position() == 0,
    {
        let mut digits: Vec<usize> = Vec::new();
        let mut i: usize = 0;
        while i < n
            invariant
                i <= n,
                digits@.len() == i,
                forall|j: int| 0 <= j < i ==> digits@[j] == 0,
            decreases n - i,
        {
            digits.push(0);
            i = i + 1;
        }
        proof {
            lemma_zero_rank(positions(digits@));
        }
        Permutations { digits, exhausted: false, emitted: Ghost(0) }
    }

    /// Hands out the next ordering, as the positions in the order in which
    /// they are to stand, or `None` once all `n!` orderings have been handed
    /// out.
    pub fn next_permutation(&mut self) -> (r: Option<Vec<usize>>)
        requires
            old(self).wf(),
        ensures
            final(self).wf(),
            final(self).size() == old(self).size(),
            match r {
                Some(p) => {
                    &&& old(self).position() < factorial(old(self).size())
                    &&& positions(p@) == nth_permutation(old(self).size(), old(self).position())
                    &&& final(self).position() == old(self).position() + 1
                },
                None => {
                    &&& old(self).position() == factorial(old(self).size())
                    &&& final(self).position() == old(self).position()
                },
            },
    {
        if self.exhausted {
            return None;
        }
        let n = self.digits.len();
        let ghost before = positions(self.digits@);
        proof {
            lemma_rank_digits(before);
        }
        let p = select_positions(&self.digits);
        let mut i: usize = n;
        while i > 0 && self.digits[i - 1] == n - i
            invariant
                i <= n,
                n == self.digits.len(),
                before == positions(self.digits@),
                forall|j: int| i <= j < n ==> before[j] == n - 1 - j,
            decreases i,
        {
            i = i - 1;
        }
        if i == 0 {
            proof {
                lemma_full_rank(before);
            }
            self.exhausted = true;
            self.emitted = Ghost((self.emitted@ + 1) as nat);
        } else {
            let place = i - 1;
            assert(before[place as int] == self.digits@[place as int]);
            let digit = self.digits[place];
            let ghost count = self.emitted@;
            self.digits.set(place, digit + 1);
            let mut j: usize = i;
            while j < n
                invariant
                    place + 1 <= j <= n,
                    !self.exhausted,
                    self.emitted@ == count,
                    n == self.digits.len(),
                    n == before.len(),
                    forall|t: int| 0 <= t < place ==> self.digits@[t] == before[t],
                    self.digits@[place as int] == before[place as int] + 1,
                    forall|t: int| place < t < j ==> self.digits@[t] == 0,
                decreases n - j,
            {
                self.digits.set(j, 0);
                j = j + 1;
            }
            proof {
                lemma_successor_rank(before, place as int);
                assert(positions(self.digits@) =~= successor_digits(before, place as int));
            }
            self.emitted = Ghost((self.emitted@ + 1) as nat);
        }
        Some(p)
    }
}

/// Whether every index of `p` names one of `len` items.
pub open spec fn in_range(p: Seq<usize>, len: nat) -> bool {
    forall|i: int| 0 <= i < p.len() ==> #[trigger] p[i] < len
}

/// Copies `tracks` into the order that `p` gives: the result holds at `i` the
/// track that stands at `p[i]`. It is `None` if and only if `p` holds an
/// index that names no track.
pub fn arrange_tracks(tracks: &Vec<Track>, p: &Vec<usize>) -> (r: Option<Tracklist>)
    ensures
        r is Some <==> in_range(p@, tracks@.len()),
        r matches Some(t) ==> t@ == arrange(track_views(tracks@), positions(p@)),
{
    let mut out: Vec<Track> = Vec::new();
    let mut i: usize = 0;
    while i < p.len()
        invariant
            i <= p.len(),
            out@.len() == i,
            forall|j: int| 0 <= j < i ==> #[trigger] p@[j] < tracks@.len(),
            forall|j: int| 0 <= j < i ==> (#[trigger] out@[j])@ == tracks@[p@[j] as int]@,
        decreases p.len() - i,
    {
        let source = p[i];
        if source >= tracks.len() {
            return None;
        }
        out.push(tracks[source].clone());
        i = i + 1;
    }
    let t = Tracklist(out);
    Some(t)
}

/// An enumerator of the orderings of a collection of tracks. Tracks are told
/// apart by where they stand in the collection, so tracks that are equal
/// still give `n!` orderings.
pub struct TracklistPermutations {
    tracks: Vec<Track>,
    inner: Permutations,
}

impl TracklistPermutations {
    /// The tracks that are ordered, as they were given.
    pub closed spec fn source(&self) -> Seq<TrackView> {
        track_views(self.tracks@)
    }

    /// The number of orderings handed out so far.
    pub closed spec fn position(&self) -> nat {
        self.inner.position()
    }

    /// The enumerator's invariant.
    pub closed spec fn wf(&self) -> bool {
        self.inner.wf() && self.inner.size() == self.tracks@.len()
    }

    /// An enumerator never hands out more than `n!` orderings.
    pub proof fn lemma_position_bound(&self)
        requires
            self.wf(),
        ensures
            self.position() <= factorial(self.source().len()),
    {
        self.inner.lemma_position_bound();
    }

    /// A fresh enumerator of the orderings of `tracks`.
    pub fn new(tracks: &Vec<Track>) -> (r: Self)
        ensures
            r.wf(),
            r.source() == track_views(tracks@),
            r.position() == 0,
    {
        TracklistPermutations {
            tracks: clone_tracks(tracks),
            inner: Permutations::new(tracks.len()),
        }
    }

    /// Hands out the next ordering of the tracks, or `None` once all `n!`
    /// orderings have been handed out.
    pub fn next_tracklist(&mut self) -> (r: Option<Tracklist>)
        requires
            old(self).wf(),
        ensures
            final(self).wf(),
            final(self).source() == old(self).source(),
            match r {
                Some(t) => {
                    &&& old(self).position() < factorial(old(self).source().len())
                    &&& t@ == nth_ordering(old(self).source(), old(self).position())
                    &&& final(self).position() == old(self).position() + 1
                },
                None => {
                    &&& old(self).position() == factorial(old(self).source().len())
                    &&& final(self).position() == old(self).position()
                },
            },
    {
        let ghost n = self.inner.size();
        let ghost k = self.inner.position();
        match self.inner.next_permutation() {
            Some(p) => {
                proof {
                    lemma_nth_is_permutation(n, k);
                    assert forall|i: int| 0 <= i < p@.len() implies #[trigger] p@[i]
                        < self.tracks@.len() by {
                        assert(positions(p@)[i] == p@[i]);
                    }
                }
                arrange_tracks(&self.tracks, &p)
            },
            None => None,
        }
    }
}

} // verus!
