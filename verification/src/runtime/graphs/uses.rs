//! Which names and members an expression uses: those that stand in its tree.

use vstd::prelude::*;

use crate::runtime::ast::{ActionStmtV, DeclV, ExprV, HtmlPartV};
use crate::runtime::graphs::free_var;
use crate::runtime::interner::Symbol;
use crate::runtime::tree;
use crate::runtime::tree::Node;
use crate::runtime::tt::types::Member;

verus! {

/// The access to a member of a service.
pub open spec fn access(m: Member) -> Node {
    Node::Expr(ExprV::MemberAccess { service_name: m.0, member_name: m.1 })
}

/// Whether an access to a member stands anywhere in a tree.
pub open spec fn accesses(root: Node, m: Member) -> bool {
    exists|b: Set<Symbol>, o: int| #[trigger]
        tree::stands(Seq::empty(), root, access(m), b, o)
}

/// Whether a node is the use of a name: as a variable, or as a table that is searched.
pub open spec fn is_use(node: Node, x: Symbol) -> bool {
    match node {
        Node::Expr(ExprV::Variable { name }) => name == x,
        Node::Expr(ExprV::Select { table_name, .. }) => table_name == x,
        _ => false,
    }
}

/// Whether a name is used somewhere in a tree where nothing in the tree binds it.
pub open spec fn uses(root: Node, x: Symbol) -> bool {
    exists|node: Node, b: Set<Symbol>, o: int|
        #[trigger] tree::stands(Seq::empty(), root, node, b, o) && is_use(node, x) && !b.contains(x)
}

/// What is listed of a node.
spec fn lists(node: Node, m: Member) -> bool {
    match node {
        Node::Expr(e) => free_var::names_member(e, m),
        Node::Block(stmts) => free_var::block_names_member(stmts, m),
    }
}

/// What is free in a node.
spec fn is_free(node: Node, x: Symbol) -> bool {
    match node {
        Node::Expr(e) => free_var::occurs_free(e, x),
        Node::Block(stmts) => free_var::occurs_free_in_block(stmts, x),
    }
}

/// Without tables nothing has columns.
proof fn lemma_no_columns(t: Symbol)
    ensures
        tree::columns(Seq::<DeclV>::empty(), t) == Set::<Symbol>::empty(),
{
    assert(tree::columns(Seq::<DeclV>::empty(), t) =~= Set::<Symbol>::empty());
}

/// What a part lists and uses, the whole does.
#[verifier::rlimit(60)]
proof fn lemma_part(p: Node, c: Node, b: Set<Symbol>, o: int, m: Member, x: Symbol)
    requires
        tree::part(Seq::empty(), p, c, b, o),
    ensures
        lists(c, m) ==> lists(p, m),
        is_free(c, x) && !b.contains(x) ==> is_free(p, x),
{
    match p {
        Node::Expr(e) => match e {
            ExprV::Func { params, .. } => {
                if free_var::binds(params, x) {
                    let i = choose|i: int| 0 <= i < params.len() && (#[trigger] params[i]).name == x;
                    assert(b.contains(x));
                }
            },
            ExprV::Tuple { val } => {
                let i = choose|i: int| 0 <= i < val.len() && c == Node::Expr(#[trigger] val[i]);
                assert(lists(c, m) ==> free_var::any_names_member(val, m));
                assert(is_free(c, x) ==> free_var::occurs_free_in_any(val, x));
            },
            ExprV::List(val) => {
                let i = choose|i: int| 0 <= i < val.len() && c == Node::Expr(#[trigger] val[i]);
                assert(lists(c, m) ==> free_var::any_names_member(val, m));
                assert(is_free(c, x) ==> free_var::occurs_free_in_any(val, x));
            },
            ExprV::Call { func, args } => {
                if c != Node::Expr(*func) {
                    let i = choose|i: int|
                        0 <= i < args.len() && c == Node::Expr(#[trigger] args[i]);
                    assert(lists(c, m) ==> free_var::any_names_member(args, m));
                    assert(is_free(c, x) ==> free_var::occurs_free_in_any(args, x));
                }
            },
            ExprV::Html(parts) => {
                let i = choose|i: int|
                    0 <= i < parts.len() && (#[trigger] parts[i]) is Expr && c == Node::Expr(
                        parts[i]->Expr_0,
                    );
                assert(free_var::part_names_member(parts[i], m) == lists(c, m));
                assert(free_var::occurs_free_in_part(parts[i], x) == is_free(c, x));
                assert(lists(c, m) ==> free_var::parts_name_member(parts, m));
                assert(is_free(c, x) ==> free_var::occurs_free_in_parts(parts, x));
            },
            _ => {},
        },
        Node::Block(stmts) => {
            let i = choose|i: int| #[trigger] tree::part_of_stmt(stmts, i, c, b, o);
            let s = stmts[i];
            if lists(c, m) {
                assert(free_var::stmt_names_member(s, m));
            }
            if is_free(c, x) && !b.contains(x) {
                assert(free_var::occurs_free_in_stmt(s, x));
                assert forall|j: int| 0 <= j < i implies !free_var::lets(#[trigger] stmts[j], x) by {
                    if free_var::lets(stmts[j], x) {
                        assert(stmts[j] is Let && stmts[j]->Let_name == x);
                        assert(tree::introduced(stmts, i).contains(x));
                    }
                }
            }
        },
    }
}

/// What stands in a tree is listed and free there.
proof fn lemma_listed(n: nat, root: Node, node: Node, b: Set<Symbol>, o: int, m: Member, x: Symbol)
    requires
        tree::stands_below(n, Seq::empty(), root, node, b, o),
    ensures
        node == access(m) ==> lists(root, m),
        is_use(node, x) && !b.contains(x) ==> is_free(root, x),
    decreases n,
{
    if n > 0 {
        let none = Seq::<DeclV>::empty();
        let (c, b2, o2) = choose|c: Node, b2: Set<Symbol>, o2: int|
            #[trigger] tree::leads(none, root, c, b2, o2, b, o) && tree::stands_below(
                (n - 1) as nat,
                none,
                c,
                node,
                b2,
                o2,
            );
        let (b1, o1) = choose|b1: Set<Symbol>, o1: int|
            #[trigger] tree::part(none, root, c, b1, o1) && b == b1.union(b2) && o == o1 + o2;
        lemma_listed((n - 1) as nat, c, node, b2, o2, m, x);
        lemma_part(root, c, b1, o1, m, x);
    }
}

/// What a part accesses and uses, the whole does.
proof fn lemma_grows(p: Node, c: Node, b1: Set<Symbol>, o1: int, m: Member, x: Symbol)
    requires
        tree::part(Seq::empty(), p, c, b1, o1),
    ensures
        accesses(c, m) ==> accesses(p, m),
        uses(c, x) && !b1.contains(x) ==> uses(p, x),
{
    let none = Seq::<DeclV>::empty();
    if accesses(c, m) {
        let (b, o) = choose|b: Set<Symbol>, o: int| #[trigger]
            tree::stands(none, c, access(m), b, o);
        tree::lemma_in_part(none, p, c, b1, o1, access(m), b, o);
    }
    if uses(c, x) && !b1.contains(x) {
        let (node, b, o) = choose|node: Node, b: Set<Symbol>, o: int|
            #[trigger] tree::stands(none, c, node, b, o) && is_use(node, x) && !b.contains(x);
        tree::lemma_in_part(none, p, c, b1, o1, node, b, o);
    }
}

/// The same for a part that binds nothing.
proof fn lemma_plain(p: Node, e: ExprV, m: Member, x: Symbol)
    requires
        tree::part(Seq::empty(), p, Node::Expr(e), Set::empty(), 0),
    ensures
        accesses(Node::Expr(e), m) ==> accesses(p, m),
        uses(Node::Expr(e), x) ==> uses(p, x),
{
    lemma_grows(p, Node::Expr(e), Set::empty(), 0, m, x);
}

/// A node that is an access or a use is found in its own tree.
proof fn lemma_itself(node: Node, m: Member, x: Symbol)
    ensures
        node == access(m) ==> accesses(node, m),
        is_use(node, x) ==> uses(node, x),
{
    tree::lemma_root(Seq::empty(), node);
}

/// What is listed and free in an expression stands in its tree.
#[verifier::rlimit(60)]
proof fn lemma_found(e: ExprV, m: Member, x: Symbol)
    ensures
        free_var::names_member(e, m) ==> accesses(Node::Expr(e), m),
        free_var::occurs_free(e, x) ==> uses(Node::Expr(e), x),
    decreases e, 0int,
{
    let p = Node::Expr(e);
    lemma_itself(p, m, x);
    match e {
        ExprV::Literal { .. } | ExprV::Table { .. } => {},
        ExprV::Variable { .. } => {},
        ExprV::MemberAccess { .. } => {},
        ExprV::KeyVal { value, .. } => {
            lemma_found(*value, m, x);
            lemma_plain(p, *value, m, x);
        },
        ExprV::Tuple { val } => {
            lemma_found_in_any(p, val, m, x);
        },
        ExprV::List(val) => {
            lemma_found_in_any(p, val, m, x);
        },
        ExprV::Range { start, end } => {
            lemma_found(*start, m, x);
            lemma_found(*end, m, x);
            lemma_plain(p, *start, m, x);
            lemma_plain(p, *end, m, x);
        },
        ExprV::Unop { expr, .. } => {
            lemma_found(*expr, m, x);
            lemma_plain(p, *expr, m, x);
        },
        ExprV::Binop { expr1, expr2, .. } => {
            lemma_found(*expr1, m, x);
            lemma_found(*expr2, m, x);
            lemma_plain(p, *expr1, m, x);
            lemma_plain(p, *expr2, m, x);
        },
        ExprV::If { cond, expr1, expr2 } => {
            lemma_found(*cond, m, x);
            lemma_found(*expr1, m, x);
            lemma_found(*expr2, m, x);
            lemma_plain(p, *cond, m, x);
            lemma_plain(p, *expr1, m, x);
            lemma_plain(p, *expr2, m, x);
        },
        ExprV::Func { params, body, .. } => {
            lemma_found(*body, m, x);
            let b = Set::new(
                |y: Symbol|
                    exists|i: int| 0 <= i < params.len() && (#[trigger] params[i]).name == y,
            );
            lemma_grows(p, Node::Expr(*body), b, 1, m, x);
        },
        ExprV::Call { func, args } => {
            lemma_found(*func, m, x);
            lemma_plain(p, *func, m, x);
            lemma_found_in_any(p, args, m, x);
        },
        ExprV::Action(stmts) => {
            lemma_found_in_block(stmts, m, x);
            lemma_grows(p, Node::Block(stmts), Set::empty(), 1, m, x);
        },
        ExprV::Select { table_name, where_clause, .. } => {
            lemma_no_columns(table_name);
            lemma_found(*where_clause, m, x);
            lemma_plain(p, *where_clause, m, x);
        },
        ExprV::Fold { operation, identity, .. } => {
            lemma_found(*operation, m, x);
            lemma_found(*identity, m, x);
            lemma_plain(p, *operation, m, x);
            lemma_plain(p, *identity, m, x);
        },
        ExprV::Html(parts) => {
            assert forall|i: int| 0 <= i < parts.len() implies {
                &&& free_var::part_names_member(#[trigger] parts[i], m) ==> accesses(p, m)
                &&& free_var::occurs_free_in_part(parts[i], x) ==> uses(p, x)
            } by {
                if let HtmlPartV::Expr(inner) = parts[i] {
                    lemma_found(inner, m, x);
                    assert(parts[i] is Expr && parts[i]->Expr_0 == inner);
                    lemma_plain(p, inner, m, x);
                }
            }
            assert(free_var::parts_name_member(parts, m) ==> accesses(p, m));
            assert(free_var::occurs_free_in_parts(parts, x) ==> uses(p, x));
        },
    }
}

/// What is listed and free in one of several expressions stands in the tree that they are parts of.
proof fn lemma_found_in_any(p: Node, es: Seq<ExprV>, m: Member, x: Symbol)
    requires
        forall|i: int|
            0 <= i < es.len() ==> tree::part(
                Seq::empty(),
                p,
                Node::Expr(#[trigger] es[i]),
                Set::empty(),
                0,
            ),
    ensures
        free_var::any_names_member(es, m) ==> accesses(p, m),
        free_var::occurs_free_in_any(es, x) ==> uses(p, x),
    decreases es, 0int,
{
    assert forall|i: int| 0 <= i < es.len() implies {
        &&& free_var::names_member(#[trigger] es[i], m) ==> accesses(p, m)
        &&& free_var::occurs_free(es[i], x) ==> uses(p, x)
    } by {
        lemma_found(es[i], m, x);
        lemma_plain(p, es[i], m, x);
    }
}

/// What is listed and free in a block stands in its tree.
proof fn lemma_found_in_block(stmts: Seq<ActionStmtV>, m: Member, x: Symbol)
    ensures
        free_var::block_names_member(stmts, m) ==> accesses(Node::Block(stmts), m),
        free_var::occurs_free_in_block(stmts, x) ==> uses(Node::Block(stmts), x),
    decreases stmts, 0int,
{
    let p = Node::Block(stmts);
    assert forall|i: int| 0 <= i < stmts.len() implies {
        &&& free_var::stmt_names_member(#[trigger] stmts[i], m) ==> accesses(p, m)
        &&& free_var::occurs_free_in_stmt(stmts[i], x) && (forall|j: int|
            0 <= j < i ==> !free_var::lets(#[trigger] stmts[j], x)) ==> uses(p, x)
    } by {
        let s = stmts[i];
        let b = tree::introduced(stmts, i);
        let first = tree::stmt_expr(s);
        assert(decreases_to!(stmts => s));
        lemma_stmt_expr_smaller(s);
        lemma_found(first, m, x);
        tree::lemma_stmt_parts(Seq::empty(), stmts, i);
        lemma_grows(p, Node::Expr(first), b, 0, m, x);
        if s is For {
            let body = s->For_body;
            lemma_found_in_block(body, m, x);
            lemma_grows(p, Node::Block(body), b.insert(s->For_var), 1, m, x);
        }
        if forall|j: int| 0 <= j < i ==> !free_var::lets(#[trigger] stmts[j], x) {
            if b.contains(x) {
                let j = choose|j: int|
                    0 <= j < i && j < stmts.len() && (#[trigger] stmts[j]) is Let
                        && stmts[j]->Let_name == x;
                assert(free_var::lets(stmts[j], x));
            }
        }
    }
}

/// The expression of a statement is smaller than the statement.
proof fn lemma_stmt_expr_smaller(s: ActionStmtV)
    ensures
        decreases_to!(s => tree::stmt_expr(s)),
        s is For ==> decreases_to!(s => s->For_body),
{
    match s {
        ActionStmtV::Let { .. } => {},
        ActionStmtV::Assign { .. } => {},
        ActionStmtV::Do(_) => {},
        ActionStmtV::Assert(_, _) => {},
        ActionStmtV::Expr(_) => {},
        ActionStmtV::Insert { .. } => {},
        ActionStmtV::For { .. } => {},
    }
}

/// The members listed for an expression are exactly those to which an access stands anywhere in
/// its tree: in a condition, a branch, an argument, the body of a function, a statement of an
/// action or a piece of a template as well as on top.
pub proof fn listed_members_are_those_accessed(e: ExprV, m: Member)
    ensures
        free_var::names_member(e, m) <==> accesses(Node::Expr(e), m),
{
    lemma_found(e, m, 0);
    if accesses(Node::Expr(e), m) {
        let (b, o) = choose|b: Set<Symbol>, o: int| #[trigger]
            tree::stands(Seq::empty(), Node::Expr(e), access(m), b, o);
        let n = choose|n: nat| #[trigger]
            tree::stands_below(n, Seq::empty(), Node::Expr(e), access(m), b, o);
        lemma_listed(n, Node::Expr(e), access(m), b, o, m, 0);
    }
}

/// The free names of an expression are exactly those that are used somewhere in its tree where no
/// function around has them as a parameter, no loop around as its variable, and no statement
/// before introduces them.
pub proof fn free_names_are_those_used_unbound(e: ExprV, x: Symbol)
    ensures
        free_var::occurs_free(e, x) <==> uses(Node::Expr(e), x),
{
    let m: Member = (0, 0);
    lemma_found(e, m, x);
    if uses(Node::Expr(e), x) {
        let (node, b, o) = choose|node: Node, b: Set<Symbol>, o: int|
            #[trigger] tree::stands(Seq::empty(), Node::Expr(e), node, b, o) && is_use(node, x)
                && !b.contains(x);
        let n = choose|n: nat| #[trigger]
            tree::stands_below(n, Seq::empty(), Node::Expr(e), node, b, o);
        lemma_listed(n, Node::Expr(e), node, b, o, m, x);
    }
}

} // verus!
