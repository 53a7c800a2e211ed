//! One line of flaps: every column advances one face per tick, all at once,
//! until the whole line shows its target.

use vstd::prelude::*;
use crate::alphabet::{
    chain_char, chain_index, chain_len, in_chain, lemma_chain_bijection, lemma_chain_order,
    next_char, successor,
};

verus! {

/// The line after one tick: each column turned one face toward its target.
pub open spec fn step_line(line: Seq<char>, target: Seq<char>) -> Seq<char> {
    Seq::new(line.len(), |i: int| successor(line[i], target[i]))
}

/// A line of `n` copies of `c`.
pub open spec fn filled(c: char, n: nat) -> Seq<char> {
    Seq::new(n, |_i: int| c)
}

/// Relies on String::push: the character is appended at the end.
#[verifier::external_body]
fn push_char(s: &mut String, c: char)
    ensures
        final(s)@ == old(s)@.push(c),
{
    s.push(c);
}

/// Advances every column of `line` one face toward the matching column of
/// `target`; `None` once the line already shows the target.
pub fn flip_flaps(line: &str, target: &str) -> (r: Option<String>)
    requires
        line@.len() == target@.len(),
    ensures
        r is None <==> line@ == target@,
        r matches Some(next) ==> next@ == step_line(line@, target@),
        r matches Some(next) ==> next@.len() == line@.len() && next@.len() == target@.len(),
{
    let n = line.unicode_len();
    let mut next = String::new();
    let mut settled = true;
    let mut i: usize = 0;
    while i < n
        invariant
            n == line@.len(),
            line@.len() == target@.len(),
            i <= n,
            next@ == step_line(line@.subrange(0, i as int), target@.subrange(0, i as int)),
            settled <==> line@.subrange(0, i as int) =~= target@.subrange(0, i as int),
        decreases n - i,
    {
        let c = line.get_char(i);
        let t = target.get_char(i);
        if c != t {
            settled = false;
        }
        push_char(&mut next, next_char(c, t));
        proof {
            let l0 = line@.subrange(0, i as int);
            let t0 = target@.subrange(0, i as int);
            let l1 = line@.subrange(0, i + 1);
            let t1 = target@.subrange(0, i + 1);
            assert(l1 == l0.push(c));
            assert(t1 == t0.push(t));
            assert(step_line(l1, t1) =~= step_line(l0, t0).push(successor(c, t)));
            if l1 =~= t1 {
                assert(l0 =~= l1.drop_last());
                assert(t0 =~= t1.drop_last());
                assert(c == l1[i as int]);
            }
        }
        i = i + 1;
    }
    assert(line@.subrange(0, n as int) =~= line@);
    assert(target@.subrange(0, n as int) =~= target@);
    if settled {
        None
    } else {
        Some(next)
    }
}

/// Builds a line of `n` copies of `c`.
fn filled_string(c: char, n: usize) -> (r: String)
    ensures
        r@ == filled(c, n as nat),
{
    let mut r = String::new();
    let mut i: usize = 0;
    while i < n
        invariant
            i <= n,
            r@ =~= filled(c, i as nat),
        decreases n - i,
    {
        push_char(&mut r, c);
        i = i + 1;
    }
    r
}

/// The line a flap display starts from: `A` in every column of `target`.
pub fn initial_line(target: &str) -> (r: String)
    ensures
        r@ == filled('A', target@.len()),
{
    filled_string('A', target.unicode_len())
}

/// A line of spaces as wide as `target`, used to wipe the display.
pub fn blank_line(target: &str) -> (r: String)
    ensures
        r@ == filled(' ', target@.len()),
{
    filled_string(' ', target.unicode_len())
}

/// The line after `n` ticks from `line`.
pub open spec fn after_ticks(line: Seq<char>, target: Seq<char>, n: nat) -> Seq<char>
    decreases n,
{
    if n == 0 {
        line
    } else {
        step_line(after_ticks(line, target, (n - 1) as nat), target)
    }
}

/// Ticks a single flap needs to get from `A` to `t`: its position on the drum,
/// or the whole drum for a face that is not on it.
pub open spec fn distance(t: char) -> nat {
    if in_chain(t) {
        chain_index(t) as nat
    } else {
        chain_len() as nat
    }
}

/// Ticks a whole line needs from all `A`s: the largest distance of its columns.
pub open spec fn ticks_to_settle(target: Seq<char>) -> nat
    decreases target.len(),
{
    if target.len() == 0 {
        0
    } else {
        let rest = ticks_to_settle(target.drop_last());
        let d = distance(target.last());
        if rest >= d {
            rest
        } else {
            d
        }
    }
}

proof fn lemma_ticks_is_max(target: Seq<char>)
    ensures
        ticks_to_settle(target) <= chain_len(),
        forall|i: int| 0 <= i < target.len() ==> distance(#[trigger] target[i]) <= ticks_to_settle(target),
        ticks_to_settle(target) > 0 ==> exists|i: int|
            0 <= i < target.len() && distance(#[trigger] target[i]) == ticks_to_settle(target),
    decreases target.len(),
{
    lemma_chain_bijection();
    if target.len() > 0 {
        let rest = target.drop_last();
        lemma_ticks_is_max(rest);
        assert forall|i: int| 0 <= i < target.len() implies distance(#[trigger] target[i]) <= ticks_to_settle(target) by {
            if i < rest.len() {
                assert(target[i] == rest[i]);
            }
        }
        if ticks_to_settle(target) > 0 {
            if ticks_to_settle(rest) >= distance(target.last()) {
                let j = choose|j: int| 0 <= j < rest.len() && distance(#[trigger] rest[j]) == ticks_to_settle(rest);
                assert(target[j] == rest[j]);
            } else {
                assert(target[target.len() - 1] == target.last());
            }
        }
    }
}

proof fn lemma_column_after_ticks(target: Seq<char>, n: nat)
    ensures
        after_ticks(filled('A', target.len()), target, n).len() == target.len(),
        forall|i: int|
            0 <= i < target.len() ==> #[trigger] after_ticks(filled('A', target.len()), target, n)[i]
                == if n >= distance(target[i]) {
                target[i]
            } else {
                chain_char(n as int)
            },
    decreases n,
{
    lemma_chain_bijection();
    lemma_chain_order('A');
    let start = filled('A', target.len());
    if n > 0 {
        let m = (n - 1) as nat;
        lemma_column_after_ticks(target, m);
        let prev = after_ticks(start, target, m);
        assert forall|i: int| 0 <= i < target.len() implies #[trigger] after_ticks(start, target, n)[i]
            == if n >= distance(target[i]) {
            target[i]
        } else {
            chain_char(n as int)
        } by {
            let t = target[i];
            assert(after_ticks(start, target, n)[i] == successor(prev[i], t));
            if m < distance(t) {
                assert(in_chain(chain_char(m as int)));
                assert(chain_char(m as int) != t);
                lemma_chain_order(t);
            }
        }
    }
}

/// Started from all `A`s, a line shows its target after exactly
/// `ticks_to_settle(target)` ticks and not before, and that is never more than
/// the number of faces on the drum. So `flip_flaps`, called again on each line
/// it returns, first answers `None` at call `ticks_to_settle(target) + 1`, at
/// most one more than the number of faces. The line keeps its length throughout.
pub proof fn lemma_line_settles(target: Seq<char>)
    ensures
        ticks_to_settle(target) <= chain_len(),
        after_ticks(filled('A', target.len()), target, ticks_to_settle(target)) == target,
        forall|n: nat|
            n < ticks_to_settle(target) ==> #[trigger] after_ticks(filled('A', target.len()), target, n)
                != target,
        forall|n: nat| #[trigger] after_ticks(filled('A', target.len()), target, n).len() == target.len(),
{
    lemma_ticks_is_max(target);
    lemma_chain_bijection();
    let k = ticks_to_settle(target);
    let start = filled('A', target.len());
    lemma_column_after_ticks(target, k);
    assert(after_ticks(start, target, k) =~= target);
    assert forall|n: nat| n < k implies #[trigger] after_ticks(start, target, n) != target by {
        lemma_column_after_ticks(target, n);
        let j = choose|j: int| 0 <= j < target.len() && distance(#[trigger] target[j]) == k;
        assert(after_ticks(start, target, n)[j] == chain_char(n as int));
        assert(in_chain(chain_char(n as int)));
    }
    assert forall|n: nat| #[trigger] after_ticks(start, target, n).len() == target.len() by {
        lemma_column_after_ticks(target, n);
    }
}

/// A target holding a character that is not on the drum still settles: its
/// columns walk the whole drum and the last face jumps to the target, so the
/// line shows exactly the target after as many ticks as the drum has faces.
pub proof fn lemma_off_drum_target_settles(target: Seq<char>, i: int)
    requires
        0 <= i < target.len(),
        !in_chain(target[i]),
    ensures
        ticks_to_settle(target) == chain_len(),
        after_ticks(filled('A', target.len()), target, chain_len() as nat) == target,
{
    lemma_ticks_is_max(target);
    lemma_line_settles(target);
}

} // verus!
