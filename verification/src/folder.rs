//! The traversal abstraction: a pass is a `Folder`, an object with two
//! element hooks (transform an argument, transform-or-drop a statement) and
//! a whole-program traversal built from them.
//!
//! Every hook's behaviour is pinned by a mathematical model of the pass's
//! state (`Folder::Model`): the hook's result and its successor state are
//! spec functions of the current state and the element alone. The free spec
//! functions below fold those per-element functions over whole sequences;
//! they are the vocabulary in which every traversal contract is stated.

use vstd::prelude::*;

use crate::program::Prog;

verus! {

/// A transformation pass. Implementors give a mathematical model of their
/// mutable state and per-element spec functions; the executable hooks are
/// then bound to those functions, and the whole-program traversal
/// `fold_program` is verified once, generically, against them.
pub trait Folder: Sized {
    /// Mathematical model of the pass's mutable state.
    type Model;

    /// The model of this pass's current state.
    spec fn model(&self) -> Self::Model;

    /// What `fold_argument` returns, as a function of state and element.
    spec fn arg_out(m: Self::Model, a: u64) -> u64;

    /// The state after `fold_argument`.
    spec fn arg_next(m: Self::Model, a: u64) -> Self::Model;

    /// What `fold_statement` returns; `None` signals that the statement
    /// is omitted from the output.
    spec fn stmt_out(m: Self::Model, s: u64) -> Option<u64>;

    /// The state after `fold_statement`.
    spec fn stmt_next(m: Self::Model, s: u64) -> Self::Model;

    /// Transforms one argument element.
    fn fold_argument(&mut self, a: u64) -> (r: u64)
        ensures
            r == Self::arg_out(old(self).model(), a),
            final(self).model() == Self::arg_next(old(self).model(), a),
    ;

    /// Transforms one statement element, or drops it by returning `None`.
    fn fold_statement(&mut self, s: u64) -> (r: Option<u64>)
        ensures
            r == Self::stmt_out(old(self).model(), s),
            final(self).model() == Self::stmt_next(old(self).model(), s),
    ;
}

/// The whole-program traversal shared by every pass: every argument is
/// transformed in order, then every statement is transformed or dropped in
/// order. Order is preserved; no element is visited twice.
pub fn fold_program<F: Folder>(f: &mut F, p: Prog) -> (r: Prog)
    ensures
        r.arguments@ == args_out::<F>(old(f).model(), p.arguments@),
        r.statements@ == stmts_out::<F>(
            args_state::<F>(old(f).model(), p.arguments@),
            p.statements@,
        ),
        final(f).model() == stmts_state::<F>(
            args_state::<F>(old(f).model(), p.arguments@),
            p.statements@,
        ),
{
    let ghost m0 = f.model();
    let mut arguments: Vec<u64> = Vec::new();
    let mut i: usize = 0;
    while i < p.arguments.len()
        invariant
            i <= p.arguments.len(),
            f.model() == args_state::<F>(m0, p.arguments@.take(i as int)),
            arguments@ == args_out::<F>(m0, p.arguments@.take(i as int)),
        decreases p.arguments.len() - i,
    {
        let a = p.arguments[i];
        proof {
            assert(p.arguments@.take((i + 1) as int)
                =~= p.arguments@.take(i as int).push(a));
            lemma_args_push::<F>(m0, p.arguments@.take(i as int), a);
        }
        let b = f.fold_argument(a);
        arguments.push(b);
        i = i + 1;
    }
    proof {
        assert(p.arguments@.take(p.arguments@.len() as int) =~= p.arguments@);
    }
    let ghost m1 = f.model();
    let mut statements: Vec<u64> = Vec::new();
    let mut j: usize = 0;
    while j < p.statements.len()
        invariant
            j <= p.statements.len(),
            f.model() == stmts_state::<F>(m1, p.statements@.take(j as int)),
            statements@ == stmts_out::<F>(m1, p.statements@.take(j as int)),
        decreases p.statements.len() - j,
    {
        let s = p.statements[j];
        proof {
            assert(p.statements@.take((j + 1) as int)
                =~= p.statements@.take(j as int).push(s));
            lemma_stmts_push::<F>(m1, p.statements@.take(j as int), s);
        }
        let r = f.fold_statement(s);
        match r {
            Some(t) => statements.push(t),
            None => {},
        }
        j = j + 1;
    }
    proof {
        assert(p.statements@.take(p.statements@.len() as int) =~= p.statements@);
    }
    Prog { arguments, statements }
}

/// The argument sequence that folding `F`'s argument hook over `args`,
/// starting from state `m`, produces.
pub open spec fn args_out<F: Folder>(m: F::Model, args: Seq<u64>) -> Seq<u64>
    decreases args.len(),
{
    if args.len() == 0 {
        Seq::empty()
    } else {
        seq![F::arg_out(m, args.first())]
            + args_out::<F>(F::arg_next(m, args.first()), args.drop_first())
    }
}

/// The state that folding `F`'s argument hook over `args` leaves behind.
pub open spec fn args_state<F: Folder>(m: F::Model, args: Seq<u64>) -> F::Model
    decreases args.len(),
{
    if args.len() == 0 {
        m
    } else {
        args_state::<F>(F::arg_next(m, args.first()), args.drop_first())
    }
}

/// The statement sequence that folding `F`'s statement hook over `stmts`,
/// starting from state `m`, produces: transformed survivors in input order,
/// with every dropped statement omitted.
pub open spec fn stmts_out<F: Folder>(m: F::Model, stmts: Seq<u64>) -> Seq<u64>
    decreases stmts.len(),
{
    if stmts.len() == 0 {
        Seq::empty()
    } else {
        match F::stmt_out(m, stmts.first()) {
            Some(t) => seq![t]
                + stmts_out::<F>(F::stmt_next(m, stmts.first()), stmts.drop_first()),
            None => stmts_out::<F>(F::stmt_next(m, stmts.first()), stmts.drop_first()),
        }
    }
}

/// The state that folding `F`'s statement hook over `stmts` leaves behind.
pub open spec fn stmts_state<F: Folder>(m: F::Model, stmts: Seq<u64>) -> F::Model
    decreases stmts.len(),
{
    if stmts.len() == 0 {
        m
    } else {
        stmts_state::<F>(F::stmt_next(m, stmts.first()), stmts.drop_first())
    }
}

/// Folding arguments extends element by element at the back: appending `x`
/// appends its transform under the accumulated state, and steps the state.
pub proof fn lemma_args_push<F: Folder>(m: F::Model, s: Seq<u64>, x: u64)
    ensures
        args_out::<F>(m, s.push(x))
            == args_out::<F>(m, s).push(F::arg_out(args_state::<F>(m, s), x)),
        args_state::<F>(m, s.push(x)) == F::arg_next(args_state::<F>(m, s), x),
    decreases s.len(),
{
    if s.len() == 0 {
        assert(s =~= Seq::<u64>::empty());
        assert(s.push(x).first() == x);
        assert(s.push(x).drop_first() =~= Seq::<u64>::empty());
        reveal_with_fuel(args_out, 2);
        reveal_with_fuel(args_state, 2);
        assert(args_out::<F>(m, s.push(x))
            =~= args_out::<F>(m, s).push(F::arg_out(args_state::<F>(m, s), x)));
    } else {
        assert(s.push(x).first() == s.first());
        assert(s.push(x).drop_first() =~= s.drop_first().push(x));
        lemma_args_push::<F>(F::arg_next(m, s.first()), s.drop_first(), x);
        assert(args_out::<F>(m, s.push(x))
            =~= args_out::<F>(m, s).push(F::arg_out(args_state::<F>(m, s), x)));
    }
}

/// Folding statements extends element by element at the back: appending `x`
/// appends its transform when the hook keeps it, appends nothing when the
/// hook drops it, and steps the state either way.
pub proof fn lemma_stmts_push<F: Folder>(m: F::Model, s: Seq<u64>, x: u64)
    ensures
        stmts_state::<F>(m, s.push(x)) == F::stmt_next(stmts_state::<F>(m, s), x),
        stmts_out::<F>(m, s.push(x)) == (match F::stmt_out(stmts_state::<F>(m, s), x) {
            Some(t) => stmts_out::<F>(m, s).push(t),
            None => stmts_out::<F>(m, s),
        }),
    decreases s.len(),
{
    if s.len() == 0 {
        assert(s =~= Seq::<u64>::empty());
        assert(s.push(x).first() == x);
        assert(s.push(x).drop_first() =~= Seq::<u64>::empty());
        reveal_with_fuel(stmts_out, 2);
        reveal_with_fuel(stmts_state, 2);
        match F::stmt_out(stmts_state::<F>(m, s), x) {
            Some(t) => {
                assert(stmts_out::<F>(m, s.push(x)) =~= stmts_out::<F>(m, s).push(t));
            },
            None => {
                assert(stmts_out::<F>(m, s.push(x)) =~= stmts_out::<F>(m, s));
            },
        }
    } else {
        assert(s.push(x).first() == s.first());
        assert(s.push(x).drop_first() =~= s.drop_first().push(x));
        lemma_stmts_push::<F>(F::stmt_next(m, s.first()), s.drop_first(), x);
        let tail = s.drop_first();
        let m1 = F::stmt_next(m, s.first());
        assert(stmts_state::<F>(m, s) == stmts_state::<F>(m1, tail));
        assert(stmts_state::<F>(m, s.push(x)) == stmts_state::<F>(m1, tail.push(x)));
        match F::stmt_out(m, s.first()) {
            Some(h) => {
                assert(stmts_out::<F>(m, s) == seq![h] + stmts_out::<F>(m1, tail));
                assert(stmts_out::<F>(m, s.push(x)) == seq![h] + stmts_out::<F>(m1, tail.push(x)));
            },
            None => {
                assert(stmts_out::<F>(m, s) == stmts_out::<F>(m1, tail));
                assert(stmts_out::<F>(m, s.push(x)) == stmts_out::<F>(m1, tail.push(x)));
            },
        }
        match F::stmt_out(stmts_state::<F>(m, s), x) {
            Some(t) => {
                assert(stmts_out::<F>(m, s.push(x)) =~= stmts_out::<F>(m, s).push(t));
            },
            None => {
                assert(stmts_out::<F>(m, s.push(x)) =~= stmts_out::<F>(m, s));
            },
        }
    }
}

} // verus!
