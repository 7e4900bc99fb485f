//! The tree of an expression: what stands where in it, and which names are bound there.

use vstd::prelude::*;

use crate::runtime::ast::{ActionStmtV, DeclV, ExprV};
use crate::runtime::interner::Symbol;

verus! {

/// A node of the tree: an expression, or a block of statements.
pub enum Node {
    Expr(ExprV),
    Block(Seq<ActionStmtV>),
}

/// The expression that stands in a statement itself.
pub open spec fn stmt_expr(s: ActionStmtV) -> ExprV {
    match s {
        ActionStmtV::Let { expr, .. } => expr,
        ActionStmtV::Assign { expr, .. } => expr,
        ActionStmtV::Do(expr) => expr,
        ActionStmtV::Assert(expr, _) => expr,
        ActionStmtV::Expr(expr) => expr,
        ActionStmtV::Insert { row, .. } => row,
        ActionStmtV::For { iterable, .. } => iterable,
    }
}

/// The names that the statements before position `i` introduce.
pub open spec fn introduced(stmts: Seq<ActionStmtV>, i: int) -> Set<Symbol> {
    Set::new(
        |x: Symbol|
            exists|j: int|
                0 <= j < i && j < stmts.len() && (#[trigger] stmts[j]) is Let && stmts[j]->Let_name
                    == x,
    )
}

/// Whether declaration `i` is the first table of a name.
pub open spec fn is_table(decls: Seq<DeclV>, i: int, t: Symbol) -> bool {
    &&& 0 <= i < decls.len()
    &&& decls[i] is TableDecl
    &&& decls[i]->TableDecl_name == t
    &&& forall|j: int|
        0 <= j < i ==> !((#[trigger] decls[j]) is TableDecl && decls[j]->TableDecl_name == t)
}

/// Whether declarations declare a table of a name.
pub open spec fn has_table(decls: Seq<DeclV>, t: Symbol) -> bool {
    exists|i: int| #[trigger] is_table(decls, i, t)
}

/// The columns of the first table of a name.
pub open spec fn columns(decls: Seq<DeclV>, t: Symbol) -> Set<Symbol> {
    Set::new(
        |x: Symbol|
            exists|i: int, f: int|
                #![trigger is_table(decls, i, t), decls[i]->TableDecl_fields[f]]
                is_table(decls, i, t) && 0 <= f < decls[i]->TableDecl_fields.len()
                    && decls[i]->TableDecl_fields[f].name == x,
    )
}

/// Whether `c` stands directly in an expression, where `bound` are the names that the expression
/// binds around it, and `opened` is the number of scopes that it opens.
pub open spec fn part_of_expr(
    decls: Seq<DeclV>,
    e: ExprV,
    c: Node,
    bound: Set<Symbol>,
    opened: int,
) -> bool {
    match e {
        ExprV::KeyVal { value, .. } => bound == Set::<Symbol>::empty() && opened == 0 && c
            == Node::Expr(*value),
        ExprV::Tuple { val } => bound == Set::<Symbol>::empty() && opened == 0 && exists|i: int|
            0 <= i < val.len() && c == Node::Expr(#[trigger] val[i]),
        ExprV::List(val) => bound == Set::<Symbol>::empty() && opened == 0 && exists|i: int|
            0 <= i < val.len() && c == Node::Expr(#[trigger] val[i]),
        ExprV::Range { start, end } => bound == Set::<Symbol>::empty() && opened == 0 && (c
            == Node::Expr(*start) || c == Node::Expr(*end)),
        ExprV::Unop { expr, .. } => bound == Set::<Symbol>::empty() && opened == 0 && c
            == Node::Expr(*expr),
        ExprV::Binop { expr1, expr2, .. } => bound == Set::<Symbol>::empty() && opened == 0 && (c
            == Node::Expr(*expr1) || c == Node::Expr(*expr2)),
        ExprV::If { cond, expr1, expr2 } => bound == Set::<Symbol>::empty() && opened == 0 && (c
            == Node::Expr(*cond) || c == Node::Expr(*expr1) || c == Node::Expr(*expr2)),
        ExprV::Func { params, body, .. } => {
            &&& bound == Set::new(
                |x: Symbol|
                    exists|i: int| 0 <= i < params.len() && (#[trigger] params[i]).name == x,
            )
            &&& opened == 1
            &&& c == Node::Expr(*body)
        },
        ExprV::Call { func, args } => bound == Set::<Symbol>::empty() && opened == 0 && (c
            == Node::Expr(*func) || exists|i: int|
            0 <= i < args.len() && c == Node::Expr(#[trigger] args[i])),
        ExprV::Action(stmts) => bound == Set::<Symbol>::empty() && opened == 1 && c
            == Node::Block(stmts),
        ExprV::Select { table_name, where_clause, .. } => bound == columns(decls, table_name)
            && opened == 0 && c == Node::Expr(*where_clause),
        ExprV::Fold { operation, identity, .. } => bound == Set::<Symbol>::empty() && opened == 0
            && (c == Node::Expr(*operation) || c == Node::Expr(*identity)),
        ExprV::Html(parts) => bound == Set::<Symbol>::empty() && opened == 0 && exists|i: int|
            0 <= i < parts.len() && (#[trigger] parts[i]) is Expr && c == Node::Expr(
                parts[i]->Expr_0,
            ),
        _ => false,
    }
}

/// Whether `c` stands directly in a block.
pub open spec fn part_of_block(
    stmts: Seq<ActionStmtV>,
    c: Node,
    bound: Set<Symbol>,
    opened: int,
) -> bool {
    exists|i: int| #[trigger] part_of_stmt(stmts, i, c, bound, opened)
}

/// Whether `c` stands directly in `p`, where `bound` are the names that `p` binds around it, and
/// `opened` is the number of scopes that it opens.
pub open spec fn part(
    decls: Seq<DeclV>,
    p: Node,
    c: Node,
    bound: Set<Symbol>,
    opened: int,
) -> bool {
    match p {
        Node::Expr(e) => part_of_expr(decls, e, c, bound, opened),
        Node::Block(stmts) => part_of_block(stmts, c, bound, opened),
    }
}

/// Whether `c` stands directly in statement `i` of a block.
pub open spec fn part_of_stmt(
    stmts: Seq<ActionStmtV>,
    i: int,
    c: Node,
    bound: Set<Symbol>,
    opened: int,
) -> bool {
    let s = stmts[i];
    &&& 0 <= i < stmts.len()
    &&& (c == Node::Expr(stmt_expr(s)) && bound == introduced(stmts, i) && opened == 0) || (s is For
        && c == Node::Block(s->For_body) && bound == introduced(stmts, i).insert(s->For_var)
        && opened == 1)
}

/// Whether `c` stands directly in a tree, so that what stands in `c` with `b2` bound and `o2` scopes
/// open stands in the tree with `bound` bound and `opened` scopes open.
pub open spec fn leads(
    decls: Seq<DeclV>,
    root: Node,
    c: Node,
    b2: Set<Symbol>,
    o2: int,
    bound: Set<Symbol>,
    opened: int,
) -> bool {
    exists|b1: Set<Symbol>, o1: int|
        #[trigger] part(decls, root, c, b1, o1) && bound == b1.union(b2) && opened == o1 + o2
}

/// Whether a node stands in a tree, `n` steps below its root, where these names are bound around
/// it and that many scopes are open.
pub open spec fn stands_below(
    n: nat,
    decls: Seq<DeclV>,
    root: Node,
    node: Node,
    bound: Set<Symbol>,
    opened: int,
) -> bool
    decreases n,
{
    if n == 0 {
        node == root && bound == Set::<Symbol>::empty() && opened == 0
    } else {
        exists|c: Node, b2: Set<Symbol>, o2: int|
            #[trigger] leads(decls, root, c, b2, o2, bound, opened) && stands_below(
                (n - 1) as nat,
                decls,
                c,
                node,
                b2,
                o2,
            )
    }
}

/// Whether a node stands in a tree, where these names are bound around it and that many scopes are
/// open.
pub open spec fn stands(
    decls: Seq<DeclV>,
    root: Node,
    node: Node,
    bound: Set<Symbol>,
    opened: int,
) -> bool {
    exists|n: nat| #[trigger] stands_below(n, decls, root, node, bound, opened)
}

/// What stands directly in a statement of a block stands directly in the block.
pub proof fn lemma_stmt_parts(decls: Seq<DeclV>, stmts: Seq<ActionStmtV>, i: int)
    requires
        0 <= i < stmts.len(),
    ensures
        part(
            decls,
            Node::Block(stmts),
            Node::Expr(stmt_expr(stmts[i])),
            introduced(stmts, i),
            0,
        ),
        stmts[i] is For ==> part(
            decls,
            Node::Block(stmts),
            Node::Block(stmts[i]->For_body),
            introduced(stmts, i).insert(stmts[i]->For_var),
            1,
        ),
{
    let b = introduced(stmts, i);
    assert(part_of_stmt(stmts, i, Node::Expr(stmt_expr(stmts[i])), b, 0));
    if stmts[i] is For {
        assert(part_of_stmt(
            stmts,
            i,
            Node::Block(stmts[i]->For_body),
            b.insert(stmts[i]->For_var),
            1,
        ));
    }
}

/// The root of a tree stands in it.
pub proof fn lemma_root(decls: Seq<DeclV>, root: Node)
    ensures
        stands(decls, root, root, Set::empty(), 0),
{
    assert(stands_below(0, decls, root, root, Set::empty(), 0));
}

/// What stands in a part of a tree stands in the tree.
pub proof fn lemma_in_part(
    decls: Seq<DeclV>,
    root: Node,
    c: Node,
    b1: Set<Symbol>,
    o1: int,
    node: Node,
    b2: Set<Symbol>,
    o2: int,
)
    requires
        part(decls, root, c, b1, o1),
        stands(decls, c, node, b2, o2),
    ensures
        stands(decls, root, node, b1.union(b2), o1 + o2),
{
    let n = choose|n: nat| #[trigger] stands_below(n, decls, c, node, b2, o2);
    assert(leads(decls, root, c, b2, o2, b1.union(b2), o1 + o2));
    assert(stands_below((n + 1) as nat, decls, root, node, b1.union(b2), o1 + o2));
}

/// What stands in a tree is its root, or stands in a part of it.
pub proof fn lemma_parts(
    decls: Seq<DeclV>,
    root: Node,
    node: Node,
    bound: Set<Symbol>,
    opened: int,
)
    requires
        stands(decls, root, node, bound, opened),
    ensures
        (node == root && bound == Set::<Symbol>::empty() && opened == 0) || exists|
            c: Node,
            b2: Set<Symbol>,
            o2: int,
        |
            #[trigger] leads(decls, root, c, b2, o2, bound, opened) && stands(
                decls,
                c,
                node,
                b2,
                o2,
            ),
{
    let n = choose|n: nat| #[trigger] stands_below(n, decls, root, node, bound, opened);
    if n > 0 {
        let (c, b2, o2) = choose|c: Node, b2: Set<Symbol>, o2: int|
            #[trigger] leads(decls, root, c, b2, o2, bound, opened) && stands_below(
                (n - 1) as nat,
                decls,
                c,
                node,
                b2,
                o2,
            );
        assert(stands(decls, c, node, b2, o2));
    }
}

} // verus!
