//! The program container: two ordered sequences of elements.

use vstd::prelude::*;

verus! {

/// A program is a plain aggregate of two ordered element sequences,
/// distinguished only by which traversal hook is applied to them.
pub struct Prog {
    pub arguments: Vec<u64>,
    pub statements: Vec<u64>,
}

/// Builds the fixed synthetic benchmark input: `n_args` arguments and
/// `n_stmts` statements, every element the same `value`.
pub fn synthetic_program(n_args: usize, n_stmts: usize, value: u64) -> (p: Prog)
    ensures
        p.arguments@ == Seq::new(n_args as nat, |i: int| value),
        p.statements@ == Seq::new(n_stmts as nat, |i: int| value),
{
    let mut arguments: Vec<u64> = Vec::new();
    let mut i: usize = 0;
    while i < n_args
        invariant
            i <= n_args,
            arguments@ == Seq::new(i as nat, |k: int| value),
        decreases n_args - i,
    {
        arguments.push(value);
        proof {
            assert(arguments@ =~= Seq::new((i + 1) as nat, |k: int| value));
        }
        i = i + 1;
    }
    let mut statements: Vec<u64> = Vec::new();
    let mut j: usize = 0;
    while j < n_stmts
        invariant
            j <= n_stmts,
            statements@ == Seq::new(j as nat, |k: int| value),
        decreases n_stmts - j,
    {
        statements.push(value);
        proof {
            assert(statements@ =~= Seq::new((j + 1) as nat, |k: int| value));
        }
        j = j + 1;
    }
    Prog { arguments, statements }
}

} // verus!
