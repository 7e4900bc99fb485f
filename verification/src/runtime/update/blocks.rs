//! The updates of a program, grouped into transactions.

use vstd::prelude::*;

use crate::runtime::ast;
use crate::runtime::ast::{clone_stmts, Stmt, StmtV};
use crate::runtime::tt::types;

verus! {

/// The transactions of a program, in order: each update block that stands alone is one, and the
/// updates of each atomic block are one together.
pub open spec fn transaction_blocks(prog: Seq<StmtV>) -> Seq<Seq<StmtV>>
    decreases prog.len(),
{
    if prog.len() == 0 {
        Seq::empty()
    } else {
        let before = transaction_blocks(prog.drop_last());
        match prog.last() {
            StmtV::Update { .. } => before.push(seq![prog.last()]),
            StmtV::Atomic { updates } => before.push(updates),
            _ => before,
        }
    }
}

/// What blocks of statements stand for.
pub open spec fn blocks_view(blocks: Seq<Vec<Stmt>>) -> Seq<Seq<StmtV>> {
    blocks.map_values(|b: Vec<Stmt>| types::views(b@))
}

/// The transactions of a program, in order.
pub fn transactions_of(program: &[Stmt]) -> (res: Vec<Vec<Stmt>>)
    ensures
        blocks_view(res@) == transaction_blocks(types::views(program@)),
{
    let ghost prog = types::views(program@);
    let mut res: Vec<Vec<Stmt>> = Vec::new();
    assert(blocks_view(res@) =~= transaction_blocks(prog.take(0)));
    let mut i: usize = 0;
    while i < program.len()
        invariant
            i <= program@.len(),
            prog == types::views(program@),
            blocks_view(res@) == transaction_blocks(prog.take(i as int)),
        decreases program@.len() - i,
    {
        let ghost before = blocks_view(res@);
        assert(prog.take(i + 1).drop_last() =~= prog.take(i as int));
        assert(prog.take(i + 1).last() == program@[i as int]@);
        proof {
            ast::lemma_stmt_view(program@[i as int]);
        }
        match &program[i] {
            Stmt::Update { .. } => {
                let mut block: Vec<Stmt> = Vec::new();
                block.push(program[i].clone());
                assert(types::views(block@) =~= seq![program@[i as int]@]);
                res.push(block);
                assert(blocks_view(res@) =~= before.push(seq![program@[i as int]@]));
            },
            Stmt::Atomic { updates } => {
                res.push(clone_stmts(updates));
                assert(blocks_view(res@) =~= before.push(types::views(updates@)));
            },
            _ => {},
        }
        i += 1;
    }
    assert(prog.take(i as int) =~= prog);
    res
}

} // verus!
