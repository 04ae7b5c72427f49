//! Laws of the traversal and of the passes: arguments pass through any
//! identity-argument chain unchanged, surviving statements keep their input
//! order under any keep-or-drop pass, and the deduplicating pass is
//! idempotent when each run starts with a fresh seen-set.

use vstd::prelude::*;

use crate::folder::{args_out, args_state, stmts_out, Folder};
use crate::passes::{Deduplicator, DummyOptimizer};

verus! {

/// Holds when `r` can be obtained from `s` by deleting elements only, so
/// the elements of `r` occur in `s` in the same relative order.
pub open spec fn subsequence_of(r: Seq<u64>, s: Seq<u64>) -> bool
    decreases s.len(),
{
    if r.len() == 0 {
        true
    } else if s.len() == 0 {
        false
    } else if r.first() == s.first() {
        subsequence_of(r.drop_first(), s.drop_first())
    } else {
        subsequence_of(r, s.drop_first())
    }
}

/// Dropping the first element of a subsequence leaves a subsequence.
proof fn lemma_subsequence_drop_first(r: Seq<u64>, s: Seq<u64>)
    requires
        r.len() > 0,
        subsequence_of(r, s),
    ensures
        subsequence_of(r.drop_first(), s),
    decreases s.len(),
{
    let r1 = r.drop_first();
    let s1 = s.drop_first();
    if r.first() == s.first() {
        if r1.len() == 0 {
        } else if r1.first() == s.first() {
            lemma_subsequence_drop_first(r1, s1);
        }
    } else {
        lemma_subsequence_drop_first(r, s1);
        if r1.len() == 0 {
        } else if r1.first() == s.first() {
            lemma_subsequence_drop_first(r1, s1);
        }
    }
}

/// A subsequence of `s` is also a subsequence of `s` with one element put
/// in front.
proof fn lemma_subsequence_cons(r: Seq<u64>, s: Seq<u64>, x: u64)
    requires
        subsequence_of(r, s),
    ensures
        subsequence_of(r, seq![x] + s),
{
    let sx = seq![x] + s;
    assert(sx.first() == x);
    assert(sx.drop_first() =~= s);
    if r.len() == 0 {
    } else if r.first() == x {
        lemma_subsequence_drop_first(r, s);
    }
}

/// Order preservation: a pass whose statement hook either keeps a statement
/// unchanged or drops it emits the surviving statements in input order:
/// its output is a subsequence of its input, from any starting state.
pub proof fn lemma_stmts_order_preserved<F: Folder>(m: F::Model, stmts: Seq<u64>)
    requires
        forall|v: F::Model, s: u64|
            (#[trigger] F::stmt_out(v, s)) == None::<u64> || F::stmt_out(v, s) == Some(s),
    ensures
        subsequence_of(stmts_out::<F>(m, stmts), stmts),
    decreases stmts.len(),
{
    if stmts.len() == 0 {
    } else {
        let s0 = stmts.first();
        let rest = stmts.drop_first();
        let m1 = F::stmt_next(m, s0);
        lemma_stmts_order_preserved::<F>(m1, rest);
        assert(stmts =~= seq![s0] + rest);
        match F::stmt_out(m, s0) {
            Some(t) => {
                assert(t == s0);
                let out = seq![s0] + stmts_out::<F>(m1, rest);
                assert(stmts_out::<F>(m, stmts) == out);
                assert(out.first() == stmts.first());
                assert(out.drop_first() =~= stmts_out::<F>(m1, rest));
            },
            None => {
                lemma_subsequence_cons(stmts_out::<F>(m1, rest), rest, s0);
            },
        }
    }
}

/// A pass whose argument hook is the identity returns every argument
/// sequence unchanged, from any starting state.
pub proof fn lemma_args_identity<F: Folder>(m: F::Model, args: Seq<u64>)
    requires
        forall|v: F::Model, a: u64| (#[trigger] F::arg_out(v, a)) == a,
    ensures
        args_out::<F>(m, args) == args,
    decreases args.len(),
{
    if args.len() == 0 {
        assert(args_out::<F>(m, args) =~= args);
    } else {
        lemma_args_identity::<F>(F::arg_next(m, args.first()), args.drop_first());
        assert(args_out::<F>(m, args) =~= args);
    }
}

/// A pass whose argument hook leaves the state alone ends an argument
/// traversal in the state it began with.
pub proof fn lemma_args_state_unchanged<F: Folder>(m: F::Model, args: Seq<u64>)
    requires
        forall|v: F::Model, a: u64| (#[trigger] F::arg_next(v, a)) == v,
    ensures
        args_state::<F>(m, args) == m,
    decreases args.len(),
{
    if args.len() == 0 {
    } else {
        lemma_args_state_unchanged::<F>(F::arg_next(m, args.first()), args.drop_first());
    }
}

/// Arguments are never filtered: a chain of two passes whose argument
/// hooks are both the identity returns the argument sequence unchanged,
/// whatever its length and whatever the passes' states.
pub proof fn lemma_chain_args_identity<F1: Folder, F2: Folder>(
    m1: F1::Model,
    m2: F2::Model,
    args: Seq<u64>,
)
    requires
        forall|v: F1::Model, a: u64| (#[trigger] F1::arg_out(v, a)) == a,
        forall|v: F2::Model, a: u64| (#[trigger] F2::arg_out(v, a)) == a,
    ensures
        args_out::<F2>(m2, args_out::<F1>(m1, args)) == args,
{
    lemma_args_identity::<F1>(m1, args);
    lemma_args_identity::<F2>(m2, args);
}

/// Holds when the elements of `r` are pairwise distinct and none of them
/// is in the seen-set `m`: such a sequence passes a deduplicator starting
/// from `m` untouched.
spec fn fresh_for(m: Set<u64>, r: Seq<u64>) -> bool {
    (forall|i: int, j: int| 0 <= i < j < r.len() ==> r[i] != r[j])
        && (forall|i: int| 0 <= i < r.len() ==> !m.contains(#[trigger] r[i]))
}

/// What the deduplicating pass emits is fresh for the seen-set it started
/// from: no duplicates remain, and nothing already seen reappears.
proof fn lemma_dedup_output_fresh(m: Set<u64>, stmts: Seq<u64>)
    ensures
        fresh_for(m, stmts_out::<Deduplicator>(m, stmts)),
    decreases stmts.len(),
{
    if stmts.len() == 0 {
    } else {
        let s0 = stmts.first();
        let rest = stmts.drop_first();
        if m.contains(s0) {
            lemma_dedup_output_fresh(m, rest);
        } else {
            lemma_dedup_output_fresh(m.insert(s0), rest);
            let r1 = stmts_out::<Deduplicator>(m.insert(s0), rest);
            let out = stmts_out::<Deduplicator>(m, stmts);
            assert(out == seq![s0] + r1);
            assert forall|i: int, j: int| 0 <= i < j < out.len() implies out[i] != out[j] by {
                if i == 0 {
                    assert(out[j] == r1[j - 1]);
                    assert(!m.insert(s0).contains(r1[j - 1]));
                } else {
                    assert(out[i] == r1[i - 1] && out[j] == r1[j - 1]);
                }
            }
            assert forall|i: int| 0 <= i < out.len() implies !m.contains(out[i]) by {
                if i > 0 {
                    assert(out[i] == r1[i - 1]);
                    assert(!m.insert(s0).contains(r1[i - 1]));
                }
            }
        }
    }
}

/// A sequence that is fresh for the seen-set passes the deduplicating pass
/// unchanged.
proof fn lemma_dedup_fresh_identity(m: Set<u64>, r: Seq<u64>)
    requires
        fresh_for(m, r),
    ensures
        stmts_out::<Deduplicator>(m, r) == r,
    decreases r.len(),
{
    if r.len() == 0 {
        assert(stmts_out::<Deduplicator>(m, r) =~= r);
    } else {
        let r0 = r.first();
        let rest = r.drop_first();
        assert(!m.contains(r0));
        assert forall|i: int| 0 <= i < rest.len() implies !m.insert(r0).contains(
            #[trigger] rest[i],
        ) by {
            assert(rest[i] == r[i + 1]);
            assert(r[0] != r[i + 1]);
        }
        assert forall|i: int, j: int| 0 <= i < j < rest.len() implies rest[i] != rest[j] by {
            assert(rest[i] == r[i + 1] && rest[j] == r[j + 1]);
        }
        lemma_dedup_fresh_identity(m.insert(r0), rest);
        assert(stmts_out::<Deduplicator>(m, r) =~= r);
    }
}

/// Idempotence of deduplication: running the deduplicating pass twice in
/// succession, each run with a fresh (empty) seen-set, gives the same
/// program as running it once — the first run leaves no duplicates for the
/// second to remove, and arguments pass through untouched both times.
pub proof fn lemma_dedup_idempotent(args: Seq<u64>, stmts: Seq<u64>)
    ensures
        args_out::<Deduplicator>(
            Set::empty(),
            args_out::<Deduplicator>(Set::empty(), args),
        ) == args_out::<Deduplicator>(Set::empty(), args),
        stmts_out::<Deduplicator>(
            args_state::<Deduplicator>(
                Set::empty(),
                args_out::<Deduplicator>(Set::empty(), args),
            ),
            stmts_out::<Deduplicator>(args_state::<Deduplicator>(Set::empty(), args), stmts),
        ) == stmts_out::<Deduplicator>(args_state::<Deduplicator>(Set::empty(), args), stmts),
{
    let e = Set::<u64>::empty();
    lemma_args_state_unchanged::<Deduplicator>(e, args);
    lemma_args_state_unchanged::<Deduplicator>(e, args_out::<Deduplicator>(e, args));
    lemma_args_identity::<Deduplicator>(e, args_out::<Deduplicator>(e, args));
    lemma_dedup_output_fresh(e, stmts);
    lemma_dedup_fresh_identity(e, stmts_out::<Deduplicator>(e, stmts));
}

/// The deduplicating pass preserves order: from any seen-set, its output
/// statements form a subsequence of its input statements.
pub proof fn lemma_dedup_order_preserved(m: Set<u64>, stmts: Seq<u64>)
    ensures
        subsequence_of(stmts_out::<Deduplicator>(m, stmts), stmts),
{
    lemma_stmts_order_preserved::<Deduplicator>(m, stmts);
}

/// The dummy optimiser is observationally the identity: every statement
/// sequence passes through it unchanged.
pub proof fn lemma_dummy_identity(stmts: Seq<u64>)
    ensures
        stmts_out::<DummyOptimizer>((), stmts) == stmts,
    decreases stmts.len(),
{
    if stmts.len() == 0 {
        assert(stmts_out::<DummyOptimizer>((), stmts) =~= stmts);
    } else {
        lemma_dummy_identity(stmts.drop_first());
        assert(stmts_out::<DummyOptimizer>((), stmts) =~= stmts);
    }
}

/// Chaining the deduplicator with the dummy optimiser gives the same
/// statements in either order: both chains come to deduplication alone.
pub proof fn lemma_dedup_dummy_commute(m: Set<u64>, stmts: Seq<u64>)
    ensures
        stmts_out::<DummyOptimizer>((), stmts_out::<Deduplicator>(m, stmts))
            == stmts_out::<Deduplicator>(m, stmts_out::<DummyOptimizer>((), stmts)),
{
    lemma_dummy_identity(stmts);
    lemma_dummy_identity(stmts_out::<Deduplicator>(m, stmts));
}

/// A statement sequence whose every element is already in the seen-set is
/// dropped entirely by the deduplicating pass.
proof fn lemma_dedup_all_seen(m: Set<u64>, stmts: Seq<u64>)
    requires
        forall|i: int| 0 <= i < stmts.len() ==> m.contains(#[trigger] stmts[i]),
    ensures
        stmts_out::<Deduplicator>(m, stmts) == Seq::<u64>::empty(),
    decreases stmts.len(),
{
    if stmts.len() == 0 {
        assert(stmts_out::<Deduplicator>(m, stmts) =~= Seq::<u64>::empty());
    } else {
        assert(m.contains(stmts[0]));
        assert forall|i: int| 0 <= i < stmts.drop_first().len() implies m.contains(
            #[trigger] stmts.drop_first()[i],
        ) by {
            assert(stmts.drop_first()[i] == stmts[i + 1]);
        }
        lemma_dedup_all_seen(m, stmts.drop_first());
    }
}

/// Benchmark sanity: a non-empty constant statement sequence collapses
/// under deduplication to the single statement that repeats in it.
pub proof fn lemma_dedup_constant_input(n: nat, v: u64)
    requires
        n > 0,
    ensures
        stmts_out::<Deduplicator>(Set::empty(), Seq::new(n, |i: int| v)) == seq![v],
{
    let ss = Seq::new(n, |i: int| v);
    let rest = ss.drop_first();
    assert(ss.first() == v);
    assert(!Set::<u64>::empty().contains(v));
    assert(forall|i: int| 0 <= i < rest.len() ==> (#[trigger] rest[i]) == v);
    lemma_dedup_all_seen(Set::<u64>::empty().insert(v), rest);
    assert(stmts_out::<Deduplicator>(Set::empty(), ss)
        =~= seq![v] + Seq::<u64>::empty());
    assert(seq![v] + Seq::<u64>::empty() =~= seq![v]);
}

} // verus!
