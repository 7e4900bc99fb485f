//! Which programs name resolution accepts: those in whose trees every name is bound or declared.

use vstd::prelude::*;

use crate::runtime::ast;
use crate::runtime::ast::{ActionStmtV, DeclV, ExprV, HtmlPartV, StmtV};
use crate::runtime::graphs::analysis;
use crate::runtime::interner::Symbol;
use crate::runtime::limits::MAX_SCOPE_DEPTH;
use crate::runtime::nameres;
use crate::runtime::nameres::ScopeV;
use crate::runtime::tree;
use crate::runtime::tree::Node;
use crate::runtime::tt::types::Member;

verus! {

/// Whether a name is declared.
pub open spec fn declared(decls: Seq<DeclV>, x: Symbol) -> bool {
    exists|i: int| 0 <= i < decls.len() && ast::decl_name(#[trigger] decls[i]) == x
}

/// Whether statement `k` is the first service of a name.
pub open spec fn is_service(prog: Seq<StmtV>, k: int, s: Symbol) -> bool {
    &&& 0 <= k < prog.len()
    &&& prog[k] is Service
    &&& prog[k]->Service_name == s
    &&& forall|j: int|
        0 <= j < k ==> !((#[trigger] prog[j]) is Service && prog[j]->Service_name == s)
}

/// Whether a service of a name is declared.
pub open spec fn has_service(prog: Seq<StmtV>, s: Symbol) -> bool {
    exists|k: int| #[trigger] is_service(prog, k, s)
}

/// Whether a service of a name is imported.
pub open spec fn is_imported(prog: Seq<StmtV>, s: Symbol) -> bool {
    exists|k: int|
        0 <= k < prog.len() && (#[trigger] prog[k]) is Import && prog[k]->Import_service_name == s
}

/// Whether a member exists: its service declares it, or is not declared here and is imported.
pub open spec fn member_exists(prog: Seq<StmtV>, m: Member) -> bool {
    ||| exists|k: int| #[trigger] is_service(prog, k, m.0) && declared(prog[k]->Service_decls, m.1)
    ||| !has_service(prog, m.0) && is_imported(prog, m.0)
}

/// Whether everything is right with a node that stands where `bound` names are bound and `opened`
/// scopes are open: a variable is bound, known around, or declared; a member exists; a table is
/// declared; an assigned name is bound before, known around, or declared; and no more than `depth`
/// scopes are open.
pub open spec fn fine(
    prog: Seq<StmtV>,
    decls: Seq<DeclV>,
    known: Set<Symbol>,
    depth: int,
    node: Node,
    bound: Set<Symbol>,
    opened: int,
) -> bool {
    &&& opened <= depth
    &&& match node {
        Node::Expr(ExprV::Variable { name }) => bound.contains(name) || known.contains(name)
            || declared(decls, name),
        Node::Expr(ExprV::MemberAccess { service_name, member_name }) => member_exists(
            prog,
            (service_name, member_name),
        ),
        Node::Expr(ExprV::Select { table_name, .. }) => tree::has_table(decls, table_name),
        Node::Expr(ExprV::Fold { table_name, .. }) => tree::has_table(decls, table_name),
        Node::Expr(_) => true,
        Node::Block(stmts) => forall|i: int|
            0 <= i < stmts.len() ==> target_fine(
                decls,
                known.union(bound).union(tree::introduced(stmts, i)),
                #[trigger] stmts[i],
            ),
    }
}

/// Whether what a statement changes is known or declared.
pub open spec fn target_fine(decls: Seq<DeclV>, known: Set<Symbol>, s: ActionStmtV) -> bool {
    &&& s is Assign ==> known.contains(s->Assign_name) || declared(decls, s->Assign_name)
    &&& s is Insert ==> tree::has_table(decls, s->Insert_table_name)
}

/// Whether everything is right with all nodes of a tree.
pub open spec fn all_fine(
    prog: Seq<StmtV>,
    decls: Seq<DeclV>,
    known: Set<Symbol>,
    depth: int,
    root: Node,
) -> bool {
    forall|node: Node, bound: Set<Symbol>, opened: int| #[trigger]
        tree::stands(decls, root, node, bound, opened) ==> fine(
            prog,
            decls,
            known,
            depth,
            node,
            bound,
            opened,
        )
}

/// Whether a name is known is the same whether it is bound around or known from before.
proof fn lemma_shift(
    prog: Seq<StmtV>,
    decls: Seq<DeclV>,
    known: Set<Symbol>,
    depth: int,
    node: Node,
    b1: Set<Symbol>,
    o1: int,
    b2: Set<Symbol>,
    o2: int,
)
    ensures
        fine(prog, decls, known, depth, node, b1.union(b2), o1 + o2) <==> fine(
            prog,
            decls,
            known.union(b1),
            depth - o1,
            node,
            b2,
            o2,
        ),
{
    if let Node::Block(stmts) = node {
        assert forall|i: int| 0 <= i < stmts.len() implies known.union(b1.union(b2)).union(
            #[trigger] tree::introduced(stmts, i),
        ) == known.union(b1).union(b2).union(tree::introduced(stmts, i)) by {
            assert(known.union(b1.union(b2)).union(tree::introduced(stmts, i)) =~= known.union(
                b1,
            ).union(b2).union(tree::introduced(stmts, i)));
        }
        let left = fine(prog, decls, known, depth, node, b1.union(b2), o1 + o2);
        let right = fine(prog, decls, known.union(b1), depth - o1, node, b2, o2);
        if left {
            assert forall|i: int| 0 <= i < stmts.len() implies target_fine(
                decls,
                known.union(b1).union(b2).union(tree::introduced(stmts, i)),
                #[trigger] stmts[i],
            ) by {
                let same = tree::introduced(stmts, i);
                assert(target_fine(decls, known.union(b1.union(b2)).union(same), stmts[i]));
            }
        }
        if right {
            assert forall|i: int| 0 <= i < stmts.len() implies target_fine(
                decls,
                known.union(b1.union(b2)).union(tree::introduced(stmts, i)),
                #[trigger] stmts[i],
            ) by {
                let same = tree::introduced(stmts, i);
                assert(target_fine(decls, known.union(b1).union(b2).union(same), stmts[i]));
            }
        }
    }
}

/// Whether everything is right with the parts of a node.
spec fn parts_fine(
    prog: Seq<StmtV>,
    decls: Seq<DeclV>,
    known: Set<Symbol>,
    depth: int,
    root: Node,
) -> bool {
    forall|c: Node, b: Set<Symbol>, o: int| #[trigger]
        tree::part(decls, root, c, b, o) ==> all_fine(prog, decls, known.union(b), depth - o, c)
}

/// Everything is right with a tree where it is with its root and its parts.
proof fn lemma_step(
    prog: Seq<StmtV>,
    decls: Seq<DeclV>,
    known: Set<Symbol>,
    depth: int,
    root: Node,
)
    ensures
        all_fine(prog, decls, known, depth, root) <==> fine(
            prog,
            decls,
            known,
            depth,
            root,
            Set::empty(),
            0,
        ) && parts_fine(prog, decls, known, depth, root),
{
    if all_fine(prog, decls, known, depth, root) {
        tree::lemma_root(decls, root);
        assert forall|c: Node, b: Set<Symbol>, o: int| #[trigger]
            tree::part(decls, root, c, b, o) implies all_fine(
            prog,
            decls,
            known.union(b),
            depth - o,
            c,
        ) by {
            assert forall|node: Node, b2: Set<Symbol>, o2: int| #[trigger]
                tree::stands(decls, c, node, b2, o2) implies fine(
                prog,
                decls,
                known.union(b),
                depth - o,
                node,
                b2,
                o2,
            ) by {
                tree::lemma_in_part(decls, root, c, b, o, node, b2, o2);
                lemma_shift(prog, decls, known, depth, node, b, o, b2, o2);
            }
        }
    }
    if fine(prog, decls, known, depth, root, Set::empty(), 0) && parts_fine(
        prog,
        decls,
        known,
        depth,
        root,
    ) {
        assert forall|node: Node, bound: Set<Symbol>, opened: int| #[trigger]
            tree::stands(decls, root, node, bound, opened) implies fine(
            prog,
            decls,
            known,
            depth,
            node,
            bound,
            opened,
        ) by {
            tree::lemma_parts(decls, root, node, bound, opened);
            if !(node == root && bound == Set::<Symbol>::empty() && opened == 0) {
                let (c, b2, o2) = choose|c: Node, b2: Set<Symbol>, o2: int|
                    #[trigger] tree::leads(decls, root, c, b2, o2, bound, opened) && tree::stands(
                        decls,
                        c,
                        node,
                        b2,
                        o2,
                    );
                let (b1, o1) = choose|b1: Set<Symbol>, o1: int|
                    #[trigger] tree::part(decls, root, c, b1, o1) && bound == b1.union(b2) && opened
                        == o1 + o2;
                lemma_shift(prog, decls, known, depth, node, b1, o1, b2, o2);
            }
        }
    }
}

/// The first table of a name, and its columns.
proof fn lemma_columns(decls: Seq<DeclV>, i: int, t: Symbol)
    requires
        0 <= i,
        forall|j: int|
            0 <= j < i && j < decls.len() ==> !((#[trigger] decls[j]) is TableDecl
                && decls[j]->TableDecl_name == t),
    ensures
        nameres::columns_from(decls, i, t) is Some <==> tree::has_table(decls, t),
        nameres::columns_from(decls, i, t) matches Some(fields) ==> nameres::field_names(
            fields,
        ).to_set() == tree::columns(decls, t),
    decreases decls.len() - i,
{
    if i < decls.len() {
        if decls[i] is TableDecl && decls[i]->TableDecl_name == t {
            assert(tree::is_table(decls, i, t));
            let fields = decls[i]->TableDecl_fields;
            let names = nameres::field_names(fields);
            assert forall|x: Symbol| names.to_set().contains(x) <==> tree::columns(
                decls,
                t,
            ).contains(x) by {
                if names.contains(x) {
                    let f = choose|f: int| 0 <= f < names.len() && names[f] == x;
                    assert(decls[i]->TableDecl_fields[f].name == x);
                    assert(tree::is_table(decls, i, t));
                }
                if tree::columns(decls, t).contains(x) {
                    let (i2, f) = choose|i2: int, f: int|
                        #![trigger tree::is_table(decls, i2, t), decls[i2]->TableDecl_fields[f]]
                        tree::is_table(decls, i2, t) && 0 <= f < decls[i2]->TableDecl_fields.len()
                            && decls[i2]->TableDecl_fields[f].name == x;
                    if i2 < i {
                        assert(decls[i2] is TableDecl);
                    } else if i < i2 {
                        assert(decls[i] is TableDecl);
                    }
                    assert(names[f] == x);
                }
            }
            assert(names.to_set() =~= tree::columns(decls, t));
        } else {
            lemma_columns(decls, i + 1, t);
        }
    } else if tree::has_table(decls, t) {
        let k = choose|k: int| #[trigger] tree::is_table(decls, k, t);
        assert(decls[k] is TableDecl);
    }
}

/// The first service of a name.
proof fn lemma_service(prog: Seq<StmtV>, i: int, s: Symbol)
    requires
        0 <= i,
        forall|j: int|
            0 <= j < i && j < prog.len() ==> !((#[trigger] prog[j]) is Service
                && prog[j]->Service_name == s),
    ensures
        match nameres::service_from(prog, i, s) {
            Some(decls) => exists|k: int| #[trigger]
                is_service(prog, k, s) && prog[k]->Service_decls == decls,
            None => !has_service(prog, s),
        },
    decreases prog.len() - i,
{
    if i < prog.len() {
        if prog[i] is Service && prog[i]->Service_name == s {
            assert(is_service(prog, i, s));
        } else {
            lemma_service(prog, i + 1, s);
        }
    } else if has_service(prog, s) {
        let k = choose|k: int| #[trigger] is_service(prog, k, s);
        assert(prog[k] is Service);
    }
}

/// There is one first service of a name.
proof fn lemma_one_service(prog: Seq<StmtV>, k: int, l: int, s: Symbol)
    requires
        is_service(prog, k, s),
        is_service(prog, l, s),
    ensures
        k == l,
{
    if k < l {
        assert(prog[k] is Service);
    } else if l < k {
        assert(prog[l] is Service);
    }
}

/// Nothing is wrong with the use of a member exactly where it exists.
proof fn lemma_member(prog: Seq<StmtV>, sc: ScopeV, m: Member)
    ensures
        nameres::bad_member(prog, sc, m.0, m.1) is None <==> member_exists(prog, m),
{
    lemma_service(prog, 0, m.0);
    match nameres::service_from(prog, 0, m.0) {
        Some(decls) => {
            let k = choose|k: int| #[trigger]
                is_service(prog, k, m.0) && prog[k]->Service_decls == decls;
            assert(has_service(prog, m.0));
            assert(analysis::declares(decls, m.1) == declared(decls, m.1));
            if member_exists(prog, m) {
                let l = choose|l: int| #[trigger]
                    is_service(prog, l, m.0) && declared(prog[l]->Service_decls, m.1);
                lemma_one_service(prog, k, l, m.0);
            }
        },
        None => {
            assert forall|k: int| !is_service(prog, k, m.0) by {}
            if nameres::imports_service(prog, m.0) {
                let i = choose|i: int|
                    0 <= i < prog.len() && ((#[trigger] prog[i]) matches StmtV::Import {
                        service_name,
                        ..
                    } && service_name == m.0);
                assert(prog[i] is Import && prog[i]->Import_service_name == m.0);
            }
            if is_imported(prog, m.0) {
                let i = choose|i: int|
                    0 <= i < prog.len() && (#[trigger] prog[i]) is Import
                        && prog[i]->Import_service_name == m.0;
                assert(prog[i] matches StmtV::Import { service_name, .. } && service_name == m.0);
            }
        },
    }
}

/// The names known in a scope.
pub open spec fn known_in(sc: ScopeV) -> Set<Symbol> {
    sc.locals.to_set()
}

/// More local names are more known names.
proof fn lemma_more(sc: ScopeV, more: Seq<Symbol>)
    ensures
        (sc.locals + more).to_set() == known_in(sc).union(more.to_set()),
{
    let all = sc.locals + more;
    assert forall|x: Symbol| all.to_set().contains(x) <==> known_in(sc).union(
        more.to_set(),
    ).contains(x) by {
        if sc.locals.contains(x) {
            let i = choose|i: int| 0 <= i < sc.locals.len() && sc.locals[i] == x;
            assert(all[i] == x);
        }
        if more.contains(x) {
            let i = choose|i: int| 0 <= i < more.len() && more[i] == x;
            assert(all[sc.locals.len() + i] == x);
        }
        if all.contains(x) {
            let i = choose|i: int| 0 <= i < all.len() && all[i] == x;
            if i < sc.locals.len() {
                assert(sc.locals[i] == x);
            } else {
                assert(more[i - sc.locals.len()] == x);
            }
        }
    }
    assert(all.to_set() =~= known_in(sc).union(more.to_set()));
}

/// Everything is right with a plain part where it is right with the whole.
spec fn ok(prog: Seq<StmtV>, sc: ScopeV, e: ExprV) -> bool {
    all_fine(prog, sc.decls, known_in(sc), sc.depth as int, Node::Expr(e))
}

/// Joining nothing changes nothing.
proof fn lemma_nothing(known: Set<Symbol>)
    ensures
        known.union(Set::<Symbol>::empty()) == known,
{
    assert(known.union(Set::<Symbol>::empty()) =~= known);
}

/// An expression resolves exactly where everything is right in its tree.
#[verifier::rlimit(100)]
#[verifier::spinoff_prover]
proof fn lemma_expr(prog: Seq<StmtV>, sc: ScopeV, e: ExprV)
    ensures
        nameres::bad_expr(prog, sc, e) is None <==> ok(prog, sc, e),
    decreases e, 0int,
{
    let p = Node::Expr(e);
    let known = known_in(sc);
    let depth = sc.depth as int;
    lemma_step(prog, sc.decls, known, depth, p);
    lemma_nothing(known);
    match e {
        ExprV::Literal { .. } => {},
        ExprV::Table { .. } => {},
        ExprV::Variable { name } => {
            assert(analysis::declares(sc.decls, name) == declared(sc.decls, name));
        },
        ExprV::MemberAccess { service_name, member_name } => {
            lemma_member(prog, sc, (service_name, member_name));
        },
        ExprV::KeyVal { value, .. } => {
            lemma_expr(prog, sc, *value);
            lemma_use_part(prog, sc, p, *value);
        },
        ExprV::Tuple { val } => {
            lemma_exprs(prog, sc, val, 0);
            lemma_use_parts(prog, sc, p, val);
        },
        ExprV::List(val) => {
            lemma_exprs(prog, sc, val, 0);
            lemma_use_parts(prog, sc, p, val);
        },
        ExprV::Range { start, end } => {
            lemma_expr(prog, sc, *start);
            lemma_expr(prog, sc, *end);
            lemma_use_part(prog, sc, p, *start);
            lemma_use_part(prog, sc, p, *end);
        },
        ExprV::Unop { expr, .. } => {
            lemma_expr(prog, sc, *expr);
            lemma_use_part(prog, sc, p, *expr);
        },
        ExprV::Binop { expr1, expr2, .. } => {
            lemma_expr(prog, sc, *expr1);
            lemma_expr(prog, sc, *expr2);
            lemma_use_part(prog, sc, p, *expr1);
            lemma_use_part(prog, sc, p, *expr2);
        },
        ExprV::If { cond, expr1, expr2 } => {
            lemma_expr(prog, sc, *cond);
            lemma_expr(prog, sc, *expr1);
            lemma_expr(prog, sc, *expr2);
            lemma_use_part(prog, sc, p, *cond);
            lemma_use_part(prog, sc, p, *expr1);
            lemma_use_part(prog, sc, p, *expr2);
        },
        ExprV::Func { params, body, .. } => {
            let names = nameres::param_names(params);
            let b = Set::new(
                |x: Symbol|
                    exists|i: int| 0 <= i < params.len() && (#[trigger] params[i]).name == x,
            );
            assert forall|x: Symbol| names.to_set().contains(x) <==> b.contains(x) by {
                if names.contains(x) {
                    let i = choose|i: int| 0 <= i < names.len() && names[i] == x;
                    assert(params[i].name == x);
                }
                if b.contains(x) {
                    let i = choose|i: int|
                        0 <= i < params.len() && (#[trigger] params[i]).name == x;
                    assert(names[i] == x);
                }
            }
            assert(names.to_set() =~= b);
            lemma_more(sc, names);
            if sc.depth > 0 {
                lemma_expr(prog, nameres::inner_scope(sc, names), *body);
            }
            lemma_too_deep(prog, sc.decls, known.union(b), depth - 1, Node::Expr(*body));
            assert(tree::part(sc.decls, p, Node::Expr(*body), b, 1));
            assert(parts_fine(prog, sc.decls, known, depth, p) <==> all_fine(
                prog,
                sc.decls,
                known.union(b),
                depth - 1,
                Node::Expr(*body),
            ));
        },
        ExprV::Call { func, args } => {
            lemma_expr(prog, sc, *func);
            lemma_exprs(prog, sc, args, 0);
            lemma_use_part(prog, sc, p, *func);
            lemma_use_parts(prog, sc, p, args);
        },
        ExprV::Action(stmts) => {
            let none = Seq::<Symbol>::empty();
            lemma_more(sc, none);
            assert(none.to_set() =~= Set::<Symbol>::empty());
            if sc.depth > 0 {
                lemma_block(prog, nameres::inner_scope(sc, none), stmts);
            }
            lemma_too_deep(prog, sc.decls, known, depth - 1, Node::Block(stmts));
            assert(tree::part(sc.decls, p, Node::Block(stmts), Set::empty(), 1));
            assert(parts_fine(prog, sc.decls, known, depth, p) <==> all_fine(
                prog,
                sc.decls,
                known,
                depth - 1,
                Node::Block(stmts),
            ));
        },
        ExprV::Select { table_name, where_clause, .. } => {
            lemma_columns(sc.decls, 0, table_name);
            let b = tree::columns(sc.decls, table_name);
            if let Some(fields) = nameres::columns_from(sc.decls, 0, table_name) {
                let names = nameres::field_names(fields);
                lemma_more(sc, names);
                let inner = ScopeV { locals: sc.locals + names, ..sc };
                lemma_expr(prog, inner, *where_clause);
                assert(known_in(inner) == known.union(b));
            }
            assert(tree::part(sc.decls, p, Node::Expr(*where_clause), b, 0));
            assert(parts_fine(prog, sc.decls, known, depth, p) <==> all_fine(
                prog,
                sc.decls,
                known.union(b),
                depth,
                Node::Expr(*where_clause),
            ));
        },
        ExprV::Fold { table_name, operation, identity, .. } => {
            lemma_columns(sc.decls, 0, table_name);
            lemma_expr(prog, sc, *operation);
            lemma_expr(prog, sc, *identity);
            lemma_use_part(prog, sc, p, *operation);
            lemma_use_part(prog, sc, p, *identity);
        },
        ExprV::Html(parts) => {
            lemma_html(prog, sc, parts, 0);
            assert forall|i: int|
                0 <= i < parts.len() && (#[trigger] parts[i]) is Expr && parts_fine(
                    prog,
                    sc.decls,
                    known,
                    depth,
                    p,
                ) implies ok(prog, sc, parts[i]->Expr_0) by {
                lemma_use_part(prog, sc, p, parts[i]->Expr_0);
            }
        },
    }
}

/// A part that binds nothing is right where the parts of the whole are.
proof fn lemma_use_part(prog: Seq<StmtV>, sc: ScopeV, p: Node, e: ExprV)
    requires
        tree::part(sc.decls, p, Node::Expr(e), Set::empty(), 0),
    ensures
        parts_fine(prog, sc.decls, known_in(sc), sc.depth as int, p) ==> ok(prog, sc, e),
{
    lemma_nothing(known_in(sc));
}

/// The same of several parts.
proof fn lemma_use_parts(prog: Seq<StmtV>, sc: ScopeV, p: Node, es: Seq<ExprV>)
    requires
        forall|i: int|
            0 <= i < es.len() ==> tree::part(
                sc.decls,
                p,
                Node::Expr(#[trigger] es[i]),
                Set::empty(),
                0,
            ),
    ensures
        parts_fine(prog, sc.decls, known_in(sc), sc.depth as int, p) ==> forall|i: int|
            0 <= i < es.len() ==> ok(prog, sc, #[trigger] es[i]),
{
    assert forall|i: int|
        0 <= i < es.len() && parts_fine(
            prog,
            sc.decls,
            known_in(sc),
            sc.depth as int,
            p,
        ) implies ok(prog, sc, #[trigger] es[i]) by {
        lemma_use_part(prog, sc, p, es[i]);
    }
}

/// Nothing is right below the deepest scope.
proof fn lemma_too_deep(
    prog: Seq<StmtV>,
    decls: Seq<DeclV>,
    known: Set<Symbol>,
    depth: int,
    root: Node,
)
    ensures
        depth < 0 ==> !all_fine(prog, decls, known, depth, root),
{
    tree::lemma_root(decls, root);
}

/// Expressions resolve exactly where everything is right in their trees.
proof fn lemma_exprs(prog: Seq<StmtV>, sc: ScopeV, es: Seq<ExprV>, i: int)
    requires
        0 <= i,
    ensures
        nameres::bad_exprs(prog, sc, es, i) is None <==> forall|k: int|
            i <= k < es.len() ==> ok(prog, sc, #[trigger] es[k]),
    decreases es, es.len() - i,
{
    if i < es.len() {
        lemma_expr(prog, sc, es[i]);
        lemma_exprs(prog, sc, es, i + 1);
    }
}

/// A template resolves exactly where everything is right in the trees of its expressions.
proof fn lemma_html(prog: Seq<StmtV>, sc: ScopeV, parts: Seq<HtmlPartV>, i: int)
    requires
        0 <= i,
    ensures
        nameres::bad_parts(prog, sc, parts, i) is None <==> forall|k: int|
            i <= k < parts.len() && (#[trigger] parts[k]) is Expr ==> ok(
                prog,
                sc,
                parts[k]->Expr_0,
            ),
    decreases parts, parts.len() - i,
{
    if i < parts.len() {
        if let HtmlPartV::Expr(e) = parts[i] {
            lemma_expr(prog, sc, e);
        }
        lemma_html(prog, sc, parts, i + 1);
    }
}

/// Whether everything is right with a statement where these names are known.
spec fn stmt_ok(
    prog: Seq<StmtV>,
    decls: Seq<DeclV>,
    known: Set<Symbol>,
    depth: int,
    s: ActionStmtV,
) -> bool {
    &&& target_fine(decls, known, s)
    &&& all_fine(prog, decls, known, depth, Node::Expr(tree::stmt_expr(s)))
    &&& s is For ==> all_fine(
        prog,
        decls,
        known.insert(s->For_var),
        depth - 1,
        Node::Block(s->For_body),
    )
}

/// A statement resolves exactly where everything is right with it.
proof fn lemma_stmt(prog: Seq<StmtV>, sc: ScopeV, s: ActionStmtV)
    ensures
        nameres::bad_stmt(prog, sc, s) is None <==> stmt_ok(
            prog,
            sc.decls,
            known_in(sc),
            sc.depth as int,
            s,
        ),
    decreases s, 0int,
{
    match s {
        ActionStmtV::Let { expr, .. } => lemma_expr(prog, sc, expr),
        ActionStmtV::Assign { name, expr } => {
            lemma_expr(prog, sc, expr);
            assert(analysis::declares(sc.decls, name) == declared(sc.decls, name));
        },
        ActionStmtV::Do(expr) => lemma_expr(prog, sc, expr),
        ActionStmtV::Assert(expr, _) => lemma_expr(prog, sc, expr),
        ActionStmtV::Expr(expr) => lemma_expr(prog, sc, expr),
        ActionStmtV::Insert { table_name, row } => {
            lemma_expr(prog, sc, row);
            lemma_columns(sc.decls, 0, table_name);
        },
        ActionStmtV::For { var, iterable, body } => {
            lemma_expr(prog, sc, iterable);
            let more = seq![var];
            lemma_more(sc, more);
            assert(known_in(sc).union(more.to_set()) =~= known_in(sc).insert(var)) by {
                assert(more[0] == var);
            }
            lemma_too_deep(
                prog,
                sc.decls,
                known_in(sc).insert(var),
                sc.depth - 1,
                Node::Block(body),
            );
            if sc.depth > 0 {
                lemma_block(prog, nameres::inner_scope(sc, more), body);
            }
        },
    }
}

/// The statements of a block from position `i` on resolve exactly where everything is right with
/// them.
proof fn lemma_stmts(prog: Seq<StmtV>, base: ScopeV, sc: ScopeV, stmts: Seq<ActionStmtV>, i: int)
    requires
        0 <= i <= stmts.len(),
        sc == (ScopeV { locals: sc.locals, ..base }),
        known_in(sc) == known_in(base).union(tree::introduced(stmts, i)),
    ensures
        nameres::bad_block(prog, sc, stmts, i) is None <==> forall|k: int|
            i <= k < stmts.len() ==> stmt_ok(
                prog,
                base.decls,
                known_in(base).union(tree::introduced(stmts, k)),
                base.depth as int,
                #[trigger] stmts[k],
            ),
    decreases stmts, stmts.len() - i,
{
    if i < stmts.len() {
        let here = ScopeV { later: sc.later + nameres::lets_from(stmts, i), ..sc };
        lemma_stmt(prog, here, stmts[i]);
        let behind = match stmts[i] {
            ActionStmtV::Let { name, .. } => ScopeV { locals: sc.locals.push(name), ..sc },
            _ => sc,
        };
        assert(known_in(behind) =~= known_in(base).union(tree::introduced(stmts, i + 1))) by {
            assert forall|x: Symbol| known_in(behind).contains(x) <==> known_in(base).union(
                tree::introduced(stmts, i + 1),
            ).contains(x) by {
                lemma_introduced(stmts, i, x);
                assert(sc.locals.contains(x) <==> known_in(base).contains(x) || tree::introduced(
                    stmts,
                    i,
                ).contains(x)) by {
                    assert(known_in(sc).contains(x) <==> known_in(base).union(
                        tree::introduced(stmts, i),
                    ).contains(x));
                }
                assert(known_in(behind).contains(x) <==> behind.locals.contains(x));
                if let ActionStmtV::Let { name, .. } = stmts[i] {
                    let all = sc.locals.push(name);
                    assert(all[sc.locals.len() as int] == name);
                    if sc.locals.contains(x) {
                        let q = choose|q: int| 0 <= q < sc.locals.len() && sc.locals[q] == x;
                        assert(all[q] == x);
                    }
                    if all.contains(x) && x != name {
                        let q = choose|q: int| 0 <= q < all.len() && all[q] == x;
                        assert(sc.locals[q] == x);
                    }
                    assert(behind.locals == all);
                }
            }
        }
        lemma_stmts(prog, base, behind, stmts, i + 1);
    }
}

/// One more statement introduces its name, where it has one.
proof fn lemma_introduced(stmts: Seq<ActionStmtV>, i: int, x: Symbol)
    requires
        0 <= i < stmts.len(),
    ensures
        tree::introduced(stmts, i + 1).contains(x) <==> tree::introduced(stmts, i).contains(x) || (
        stmts[i] is Let && stmts[i]->Let_name == x),
{
    if tree::introduced(stmts, i + 1).contains(x) {
        let j = choose|j: int|
            0 <= j < i + 1 && j < stmts.len() && (#[trigger] stmts[j]) is Let && stmts[j]->Let_name
                == x;
        assert(stmts[j] is Let);
    }
    if tree::introduced(stmts, i).contains(x) {
        let j = choose|j: int|
            0 <= j < i && j < stmts.len() && (#[trigger] stmts[j]) is Let && stmts[j]->Let_name == x;
        assert(stmts[j] is Let);
    }
}

/// A block resolves exactly where everything is right in its tree.
proof fn lemma_block(prog: Seq<StmtV>, sc: ScopeV, stmts: Seq<ActionStmtV>)
    ensures
        nameres::bad_block(prog, sc, stmts, 0) is None <==> all_fine(
            prog,
            sc.decls,
            known_in(sc),
            sc.depth as int,
            Node::Block(stmts),
        ),
    decreases stmts, stmts.len() + 1,
{
    let known = known_in(sc);
    let depth = sc.depth as int;
    let p = Node::Block(stmts);
    assert(known.union(tree::introduced(stmts, 0)) =~= known);
    lemma_stmts(prog, sc, sc, stmts, 0);
    lemma_step(prog, sc.decls, known, depth, p);
    lemma_nothing(known);
    if all_fine(prog, sc.decls, known, depth, p) {
        assert forall|k: int| 0 <= k < stmts.len() implies stmt_ok(
            prog,
            sc.decls,
            known.union(tree::introduced(stmts, k)),
            depth,
            #[trigger] stmts[k],
        ) by {
            let b = tree::introduced(stmts, k);
            tree::lemma_stmt_parts(sc.decls, stmts, k);
            assert(target_fine(sc.decls, known.union(Set::empty()).union(b), stmts[k]));
            if stmts[k] is For {
                let var = stmts[k]->For_var;
                assert(known.union(b.insert(var)) =~= known.union(b).insert(var));
            }
        }
    }
    if forall|k: int|
        0 <= k < stmts.len() ==> stmt_ok(
            prog,
            sc.decls,
            known.union(tree::introduced(stmts, k)),
            depth,
            #[trigger] stmts[k],
        ) {
        assert(fine(prog, sc.decls, known, depth, p, Set::empty(), 0)) by {
            assert forall|i: int| 0 <= i < stmts.len() implies target_fine(
                sc.decls,
                known.union(Set::empty()).union(tree::introduced(stmts, i)),
                #[trigger] stmts[i],
            ) by {
                assert(stmt_ok(
                    prog,
                    sc.decls,
                    known.union(tree::introduced(stmts, i)),
                    depth,
                    stmts[i],
                ));
            }
        }
        assert forall|c: Node, b: Set<Symbol>, o: int| #[trigger]
            tree::part(sc.decls, p, c, b, o) implies all_fine(
            prog,
            sc.decls,
            known.union(b),
            depth - o,
            c,
        ) by {
            let i = choose|i: int| #[trigger] tree::part_of_stmt(stmts, i, c, b, o);
            let names = tree::introduced(stmts, i);
            assert(stmt_ok(prog, sc.decls, known.union(names), depth, stmts[i]));
            if stmts[i] is For {
                let var = stmts[i]->For_var;
                assert(known.union(names.insert(var)) =~= known.union(names).insert(var));
            }
        }
    }
}

/// The names that statements outside of all services introduce before statement `k`.
pub open spec fn introduced_outside(prog: Seq<StmtV>, k: int) -> Set<Symbol> {
    Set::new(
        |x: Symbol|
            exists|j: int|
                0 <= j < k && j < prog.len() && (#[trigger] prog[j]) is ActionStmt
                    && prog[j]->ActionStmt_0 is Let && prog[j]->ActionStmt_0->Let_name == x,
    )
}

/// Whether everything is right with the trees of a declaration.
pub open spec fn decl_fine(prog: Seq<StmtV>, decls: Seq<DeclV>, d: DeclV) -> bool {
    let depth = MAX_SCOPE_DEPTH as int;
    &&& d is VarDecl ==> all_fine(prog, decls, Set::empty(), depth, Node::Expr(d->VarDecl_val))
    &&& d is DefDecl ==> all_fine(prog, decls, Set::empty(), depth, Node::Expr(d->DefDecl_val))
}

/// Whether everything is right with the trees of statement `k`. A test stands in the service that
/// it tests.
pub open spec fn stmt_fine(prog: Seq<StmtV>, k: int) -> bool {
    let none = Seq::<DeclV>::empty();
    let depth = MAX_SCOPE_DEPTH as int;
    let s = prog[k];
    &&& s is Service ==> forall|j: int|
        0 <= j < s->Service_decls.len() ==> decl_fine(
            prog,
            s->Service_decls,
            #[trigger] s->Service_decls[j],
        )
    &&& s is Test ==> exists|l: int| #[trigger]
        is_service(prog, l, s->Test_service_name) && all_fine(
            prog,
            prog[l]->Service_decls,
            Set::empty(),
            depth,
            Node::Block(s->Test_stmts),
        )
    &&& s is ActionStmt ==> all_fine(
        prog,
        none,
        introduced_outside(prog, k),
        depth,
        Node::Block(seq![s->ActionStmt_0]),
    )
    &&& s is Watch ==> all_fine(
        prog,
        none,
        introduced_outside(prog, k),
        depth,
        Node::Expr(s->Watch_expr),
    )
}

/// The declarations of a service from position `i` on resolve exactly where everything is right
/// with them.
proof fn lemma_decls(prog: Seq<StmtV>, svc: Symbol, decls: Seq<DeclV>, i: int)
    requires
        0 <= i,
    ensures
        nameres::bad_decls(prog, svc, decls, i) is None <==> forall|j: int|
            i <= j < decls.len() ==> decl_fine(prog, decls, #[trigger] decls[j]),
    decreases decls.len() - i,
{
    if i < decls.len() {
        let sc = nameres::service_scope(svc, decls);
        assert(known_in(sc) =~= Set::<Symbol>::empty());
        match decls[i] {
            DeclV::VarDecl { val, .. } => lemma_expr(prog, sc, val),
            DeclV::DefDecl { val, .. } => lemma_expr(prog, sc, val),
            DeclV::TableDecl { .. } => {},
        }
        lemma_decls(prog, svc, decls, i + 1);
    }
}

/// The statements of a program from position `i` on resolve exactly where everything is right with
/// them.
proof fn lemma_program(prog: Seq<StmtV>, locals: Seq<Symbol>, i: int)
    requires
        0 <= i <= prog.len(),
        locals.to_set() == introduced_outside(prog, i),
    ensures
        nameres::bad_from(prog, locals, i) is None <==> forall|k: int|
            i <= k < prog.len() ==> #[trigger] stmt_fine(prog, k),
    decreases prog.len() - i,
{
    if i < prog.len() {
        let s = prog[i];
        let outer = nameres::outer_scope(locals);
        let behind = match s {
            StmtV::ActionStmt(ActionStmtV::Let { name, .. }) => locals.push(name),
            _ => locals,
        };
        assert(behind.to_set() =~= introduced_outside(prog, i + 1)) by {
            assert forall|x: Symbol| behind.to_set().contains(x) <==> introduced_outside(
                prog,
                i + 1,
            ).contains(x) by {
                lemma_introduced_outside(prog, i, x);
                assert(locals.contains(x) <==> introduced_outside(prog, i).contains(x)) by {
                    assert(locals.to_set().contains(x) <==> introduced_outside(prog, i).contains(x));
                }
                if let StmtV::ActionStmt(ActionStmtV::Let { name, .. }) = s {
                    assert(behind[locals.len() as int] == name);
                    if locals.contains(x) {
                        let q = choose|q: int| 0 <= q < locals.len() && locals[q] == x;
                        assert(behind[q] == x);
                    }
                    if behind.contains(x) && x != name {
                        let q = choose|q: int| 0 <= q < behind.len() && behind[q] == x;
                        assert(locals[q] == x);
                    }
                }
            }
        }
        lemma_program(prog, behind, i + 1);
        match s {
            StmtV::Service { name, decls } => {
                lemma_decls(prog, name, decls, 0);
            },
            StmtV::Test { service_name, stmts } => {
                lemma_service(prog, 0, service_name);
                match nameres::service_from(prog, 0, service_name) {
                    Some(decls) => {
                        let sc = nameres::service_scope(service_name, decls);
                        assert(known_in(sc) =~= Set::<Symbol>::empty());
                        lemma_block(prog, sc, stmts);
                        let l = choose|l: int| #[trigger]
                            is_service(prog, l, service_name) && prog[l]->Service_decls == decls;
                        assert forall|l2: int| #[trigger]
                            is_service(prog, l2, service_name) implies l2 == l by {
                            lemma_one_service(prog, l, l2, service_name);
                        }
                    },
                    None => {
                        assert forall|l: int| !is_service(prog, l, service_name) by {}
                    },
                }
            },
            StmtV::ActionStmt(stmt) => {
                let block = seq![stmt];
                lemma_stmt(prog, outer, stmt);
                lemma_block(prog, outer, block);
                assert(known_in(outer).union(tree::introduced(block, 0)) =~= known_in(outer));
                lemma_stmts(prog, outer, outer, block, 0);
                assert(block[0] == stmt);
            },
            StmtV::Watch { expr } => {
                lemma_expr(prog, outer, expr);
            },
            _ => {},
        }
        assert(nameres::bad_from(prog, locals, i) is None <==> stmt_fine(prog, i)
            && nameres::bad_from(prog, behind, i + 1) is None);
    }
}

/// One more statement introduces its name, where it has one.
proof fn lemma_introduced_outside(prog: Seq<StmtV>, i: int, x: Symbol)
    requires
        0 <= i < prog.len(),
    ensures
        introduced_outside(prog, i + 1).contains(x) <==> introduced_outside(prog, i).contains(x) || (
        prog[i] is ActionStmt && prog[i]->ActionStmt_0 is Let && prog[i]->ActionStmt_0->Let_name
            == x),
{
    if introduced_outside(prog, i + 1).contains(x) {
        let j = choose|j: int|
            0 <= j < i + 1 && j < prog.len() && (#[trigger] prog[j]) is ActionStmt
                && prog[j]->ActionStmt_0 is Let && prog[j]->ActionStmt_0->Let_name == x;
        assert(prog[j] is ActionStmt);
    }
    if introduced_outside(prog, i).contains(x) {
        let j = choose|j: int|
            0 <= j < i && j < prog.len() && (#[trigger] prog[j]) is ActionStmt
                && prog[j]->ActionStmt_0 is Let && prog[j]->ActionStmt_0->Let_name == x;
        assert(prog[j] is ActionStmt);
    }
}

/// A program resolves exactly where, in every tree of it, each variable is a parameter of a function
/// around it, the variable of a loop around it, a column of a table that is searched around it, a
/// name that an earlier statement of a block around it introduces, or a declaration of its service;
/// each assigned name is one of these too; each member that is accessed exists, and each table that
/// is used is declared; no more scopes than allowed are open at once; and each test is for a
/// service that is declared.
pub proof fn programs_resolve_where_all_names_are_bound(prog: Seq<StmtV>)
    ensures
        nameres::bad_from(prog, Seq::empty(), 0) is None <==> forall|k: int|
            0 <= k < prog.len() ==> #[trigger] stmt_fine(prog, k),
{
    assert(Seq::<Symbol>::empty().to_set() =~= introduced_outside(prog, 0));
    lemma_program(prog, Seq::empty(), 0);
}

} // verus!
