//! The two strategies for composing a chain of two passes over one program.
//!
//! Both functions carry the same postcondition: the resulting program is the
//! one obtained by applying the first pass's whole-program fold and then the
//! second pass's whole-program fold. `fold_chain_per_pass` computes it that
//! way; `fold_chain_per_item` visits each element once, handing it through
//! both passes inline, and is proved to reach the very same result. That
//! shared contract is the equivalence of the two composition strategies,
//! for every input program and every pair of passes.

use vstd::prelude::*;

use crate::folder::{
    args_out, args_state, fold_program, lemma_args_push, lemma_stmts_push, stmts_out, stmts_state,
    Folder,
};
use crate::program::Prog;

verus! {

/// Per-item composition: a single traversal per sequence; each element is
/// passed through both passes before the next element is visited. A
/// statement dropped by the first pass is never shown to the second.
pub fn fold_chain_per_item<F1: Folder, F2: Folder>(f1: &mut F1, f2: &mut F2, p: Prog) -> (r: Prog)
    ensures
        r.arguments@ == args_out::<F2>(
            old(f2).model(),
            args_out::<F1>(old(f1).model(), p.arguments@),
        ),
        r.statements@ == stmts_out::<F2>(
            args_state::<F2>(old(f2).model(), args_out::<F1>(old(f1).model(), p.arguments@)),
            stmts_out::<F1>(args_state::<F1>(old(f1).model(), p.arguments@), p.statements@),
        ),
        final(f1).model() == stmts_state::<F1>(
            args_state::<F1>(old(f1).model(), p.arguments@),
            p.statements@,
        ),
        final(f2).model() == stmts_state::<F2>(
            args_state::<F2>(old(f2).model(), args_out::<F1>(old(f1).model(), p.arguments@)),
            stmts_out::<F1>(args_state::<F1>(old(f1).model(), p.arguments@), p.statements@),
        ),
{
    let ghost m1 = f1.model();
    let ghost m2 = f2.model();
    let mut arguments: Vec<u64> = Vec::new();
    let mut i: usize = 0;
    while i < p.arguments.len()
        invariant
            i <= p.arguments.len(),
            f1.model() == args_state::<F1>(m1, p.arguments@.take(i as int)),
            f2.model() == args_state::<F2>(m2, args_out::<F1>(m1, p.arguments@.take(i as int))),
            arguments@ == args_out::<F2>(m2, args_out::<F1>(m1, p.arguments@.take(i as int))),
        decreases p.arguments.len() - i,
    {
        let a = p.arguments[i];
        proof {
            assert(p.arguments@.take((i + 1) as int)
                =~= p.arguments@.take(i as int).push(a));
            lemma_args_push::<F1>(m1, p.arguments@.take(i as int), a);
        }
        let b = f1.fold_argument(a);
        proof {
            lemma_args_push::<F2>(m2, args_out::<F1>(m1, p.arguments@.take(i as int)), b);
        }
        let c = f2.fold_argument(b);
        arguments.push(c);
        i = i + 1;
    }
    proof {
        assert(p.arguments@.take(p.arguments@.len() as int) =~= p.arguments@);
    }
    let ghost a1 = f1.model();
    let ghost a2 = f2.model();
    let mut statements: Vec<u64> = Vec::new();
    let mut j: usize = 0;
    while j < p.statements.len()
        invariant
            j <= p.statements.len(),
            f1.model() == stmts_state::<F1>(a1, p.statements@.take(j as int)),
            f2.model() == stmts_state::<F2>(a2, stmts_out::<F1>(a1, p.statements@.take(j as int))),
            statements@ == stmts_out::<F2>(a2, stmts_out::<F1>(a1, p.statements@.take(j as int))),
        decreases p.statements.len() - j,
    {
        let s = p.statements[j];
        proof {
            assert(p.statements@.take((j + 1) as int)
                =~= p.statements@.take(j as int).push(s));
            lemma_stmts_push::<F1>(a1, p.statements@.take(j as int), s);
        }
        let r1 = f1.fold_statement(s);
        match r1 {
            Some(t) => {
                proof {
                    lemma_stmts_push::<F2>(a2, stmts_out::<F1>(a1, p.statements@.take(j as int)), t);
                }
                let r2 = f2.fold_statement(t);
                match r2 {
                    Some(u) => statements.push(u),
                    None => {},
                }
            },
            None => {},
        }
        j = j + 1;
    }
    proof {
        assert(p.statements@.take(p.statements@.len() as int) =~= p.statements@);
    }
    Prog { arguments, statements }
}

/// Per-pass composition: the first pass's whole-program traversal produces
/// an intermediate program, and the second pass traverses that result.
pub fn fold_chain_per_pass<F1: Folder, F2: Folder>(f1: &mut F1, f2: &mut F2, p: Prog) -> (r: Prog)
    ensures
        r.arguments@ == args_out::<F2>(
            old(f2).model(),
            args_out::<F1>(old(f1).model(), p.arguments@),
        ),
        r.statements@ == stmts_out::<F2>(
            args_state::<F2>(old(f2).model(), args_out::<F1>(old(f1).model(), p.arguments@)),
            stmts_out::<F1>(args_state::<F1>(old(f1).model(), p.arguments@), p.statements@),
        ),
        final(f1).model() == stmts_state::<F1>(
            args_state::<F1>(old(f1).model(), p.arguments@),
            p.statements@,
        ),
        final(f2).model() == stmts_state::<F2>(
            args_state::<F2>(old(f2).model(), args_out::<F1>(old(f1).model(), p.arguments@)),
            stmts_out::<F1>(args_state::<F1>(old(f1).model(), p.arguments@), p.statements@),
        ),
{
    let q = fold_program(f1, p);
    fold_program(f2, q)
}

} // verus!
