//! A node: the program of a process, its static checks, and how it starts.

use vstd::prelude::*;

use crate::error::{Error, ErrorV};
use crate::runtime::ast;
use crate::runtime::ast::{clone_stmts, DeclV, Stmt, StmtV};
use crate::runtime::interner;
use crate::runtime::interner::{Interner, Symbol};
use crate::runtime::nameres;
use crate::runtime::nameres::NameError;
use crate::runtime::parser;
use crate::runtime::parser::parse_string;
use crate::runtime::tt::check;
use crate::runtime::tt::check::{CheckError, CheckErrorV, Known};
use crate::runtime::tt::flow::Flow;
use crate::runtime::tt::types;
use crate::runtime::tt::types::{type_to_string, Member};

verus! {

broadcast use types::views_push;

/// What is reported of a name that does not resolve.
pub open spec fn name_error_text(e: NameError, names: Seq<Seq<char>>) -> Seq<char> {
    match e {
        NameError::UnknownIdentifier { name, expected, context_name } => {
            let what = "Unknown identifier '"@ + interner::name_text(names, name) + "' (expected "@
                + expected.word() + ")"@;
            match context_name {
                Some(ctx) => what + " in service '"@ + interner::name_text(names, ctx) + "'"@,
                None => what,
            }
        },
        NameError::ForwardReference(name) => "Invalid forward reference to uninitialized value '"@
            + interner::name_text(names, name) + "'"@,
        NameError::DepthLimit => "scope depth limit exceeded"@,
    }
}

/// What is reported of a program that does not type check.
pub open spec fn check_error_text(e: CheckErrorV, names: Seq<Seq<char>>) -> Seq<char> {
    match e {
        CheckErrorV::DependencyCycle { service, member } =>
            "type check error: dependency cycle detected at service '"@ + interner::name_text(
            names,
            service,
        ) + "', member '"@ + interner::name_text(names, member) + "'."@,
        CheckErrorV::UnboundVariable(s) => "type check error: unbound variable: '"@
            + interner::name_text(names, s) + "'."@,
        CheckErrorV::TypeMismatch { expected, found } =>
            "type check error: type mismatch: expected "@ + types::type_text(expected) + ", found "@
            + types::type_text(found) + "."@,
        CheckErrorV::CannotInferType => "type check error: cannot infer type."@,
        CheckErrorV::DepthLimitExceeded => "type check error: depth limit exceeded."@,
        CheckErrorV::InvalidTupleArity => "type check error: invalid tuple arity."@,
        CheckErrorV::NotAFunction => "type check error: not a function."@,
        CheckErrorV::IllegalDependency { service, member } =>
            "Invalid forward reference to uninitialized value '"@ + interner::name_text(
            names,
            member,
        ) + "' of service '"@ + interner::name_text(names, service) + "'"@,
    }
}

/// The first thing that the static checks find wrong with a program.
pub open spec fn static_error(prog: Seq<StmtV>, names: Seq<Seq<char>>) -> Option<ErrorV> {
    match nameres::bad_from(prog, Seq::empty(), 0) {
        Some(e) => Some(ErrorV::Message(name_error_text(e, names))),
        None => match check::checked(prog) {
            Err(e) => Some(ErrorV::Message(check_error_text(e, names))),
            Ok(_) => None,
        },
    }
}

/// What is reported of a name that does not resolve.
pub fn format_name_error(e: NameError, interner: &Interner) -> (res: String)
    ensures
        res@ == name_error_text(e, interner@),
{
    match e {
        NameError::UnknownIdentifier { name, expected, context_name } => {
            let mut msg = "Unknown identifier '".to_owned();
            msg.append(interner.text(name));
            msg.append("' (expected ");
            msg.append(expected.text());
            msg.append(")");
            if let Some(ctx) = context_name {
                msg.append(" in service '");
                msg.append(interner.text(ctx));
                msg.append("'");
            }
            msg
        },
        NameError::ForwardReference(name) => {
            let mut msg = "Invalid forward reference to uninitialized value '".to_owned();
            msg.append(interner.text(name));
            msg.append("'");
            msg
        },
        NameError::DepthLimit => "scope depth limit exceeded".to_owned(),
    }
}

/// What is reported of a program that does not type check.
pub fn format_tt_error(e: &CheckError, interner: &Interner) -> (res: String)
    ensures
        res@ == check_error_text(e@, interner@),
{
    match e {
        CheckError::DependencyCycle { service, member } => {
            let mut msg = "type check error: dependency cycle detected at service '".to_owned();
            msg.append(interner.text(*service));
            msg.append("', member '");
            msg.append(interner.text(*member));
            msg.append("'.");
            msg
        },
        CheckError::UnboundVariable(s) => {
            let mut msg = "type check error: unbound variable: '".to_owned();
            msg.append(interner.text(*s));
            msg.append("'.");
            msg
        },
        CheckError::TypeMismatch { expected, found } => {
            let mut msg = "type check error: type mismatch: expected ".to_owned();
            msg.append(type_to_string(expected).as_str());
            msg.append(", found ");
            msg.append(type_to_string(found).as_str());
            msg.append(".");
            msg
        },
        CheckError::CannotInferType => "type check error: cannot infer type.".to_owned(),
        CheckError::DepthLimitExceeded => "type check error: depth limit exceeded.".to_owned(),
        CheckError::InvalidTupleArity => "type check error: invalid tuple arity.".to_owned(),
        CheckError::NotAFunction => "type check error: not a function.".to_owned(),
        CheckError::IllegalDependency { service, member } => {
            let mut msg = "Invalid forward reference to uninitialized value '".to_owned();
            msg.append(interner.text(*member));
            msg.append("' of service '");
            msg.append(interner.text(*service));
            msg.append("'");
            msg
        },
    }
}

/// The program of a process.
pub struct Node {
    /// Types of the members of the services checked last.
    pub local_services: Vec<(Member, Flow)>,
    /// Types of the members of the services of other nodes.
    pub imported_services: Vec<(Member, Flow)>,
    /// The program with all that it imports.
    pub unified_ast: Vec<Stmt>,
    /// The names of the process.
    pub interner: Interner,
}

/// The line that announces where a service is reached.
pub open spec fn service_url_line(addr: Seq<char>, name: Seq<char>) -> Seq<char> {
    "Service URL: "@ + addr + "/"@ + name
}

/// The lines that announce where the services of a program are reached.
pub open spec fn url_lines(
    services: Seq<(Symbol, Seq<DeclV>)>,
    addr: Seq<char>,
    names: Seq<Seq<char>>,
) -> Seq<Seq<char>> {
    services.map_values(
        |s: (Symbol, Seq<DeclV>)| service_url_line(addr, interner::name_text(names, s.0)),
    )
}

impl Node {
    /// A node without a program.
    pub fn new() -> (res: Node)
        ensures
            res.local_services@.len() == 0,
            res.imported_services@.len() == 0,
            res.unified_ast@.len() == 0,
            res.interner@ == Seq::<Seq<char>>::empty(),
    {
        Node {
            local_services: Vec::new(),
            imported_services: Vec::new(),
            unified_ast: Vec::new(),
            interner: Interner::new(),
        }
    }

    /// Parse the contents of a program file.
    pub fn load_file(&mut self, contents: &str) -> (res: Result<Vec<Stmt>, Error>)
        ensures
            final(self).interner@ == parser::lex::lexed(contents@, old(self).interner@).names,
            final(self).local_services == old(self).local_services,
            final(self).imported_services == old(self).imported_services,
            final(self).unified_ast == old(self).unified_ast,
            match res {
                Ok(stmts) => parser::parsed(contents@, old(self).interner@) == Ok::<
                    Seq<StmtV>,
                    Seq<char>,
                >(types::views(stmts@)),
                Err(e) => e@ is Message && parser::parsed(contents@, old(self).interner@) == Err::<
                    Seq<StmtV>,
                    Seq<char>,
                >(e@->Message_0),
            },
            res matches Ok(stmts) ==> parser::grammar::imports_known(
                types::views(stmts@),
                final(self).interner@,
            ),
    {
        match parse_string(contents, &mut self.interner) {
            Ok(stmts) => Ok(stmts),
            Err(msg) => Err(Error::Message(msg)),
        }
    }

    /// Put the program together: what it imports first, then the program itself.
    pub fn set_unified_ast(&mut self, local_prog: &Vec<Stmt>, imported_ast: Vec<Stmt>)
        ensures
            types::views(final(self).unified_ast@) == types::views(imported_ast@) + types::views(
                local_prog@,
            ),
            final(self).interner == old(self).interner,
            final(self).local_services == old(self).local_services,
            final(self).imported_services == old(self).imported_services,
    {
        let mut unified = imported_ast;
        let mut local = clone_stmts(local_prog);
        let ghost a = unified@;
        let ghost b = local@;
        unified.append(&mut local);
        assert(types::views(a + b) =~= types::views(a) + types::views(b));
        self.unified_ast = unified;
    }

    /// Check the names and types of the unified program.
    pub fn static_checks(&mut self) -> (res: Result<(), Error>)
        ensures
            *final(self) == *old(self),
            match res {
                Ok(()) => static_error(
                    types::views(old(self).unified_ast@),
                    old(self).interner@,
                ) is None,
                Err(e) => static_error(types::views(old(self).unified_ast@), old(self).interner@)
                    == Some(e@),
            },
    {
        if let Err(e) = nameres::resolve(self.unified_ast.as_slice()) {
            return Err(Error::Message(format_name_error(e, &self.interner)));
        }
        match check::check(self.unified_ast.as_slice()) {
            Err(e) => Err(Error::Message(format_tt_error(&e, &self.interner))),
            Ok(_) => Ok(()),
        }
    }

    /// Check the names and types of a program, and keep the types of its members.
    pub fn run_static_checks(&mut self, program: &[Stmt]) -> (res: Result<(), Error>)
        ensures
            final(self).unified_ast == old(self).unified_ast,
            final(self).imported_services == old(self).imported_services,
            final(self).interner == old(self).interner,
            match res {
                Ok(()) => {
                    &&& static_error(types::views(program@), old(self).interner@) is None
                    &&& check::checked(types::views(program@)) == Ok::<Known, CheckErrorV>(
                        check::known_view(final(self).local_services@),
                    )
                },
                Err(e) => {
                    &&& static_error(types::views(program@), old(self).interner@) == Some(e@)
                    &&& final(self).local_services == old(self).local_services
                },
            },
    {
        if let Err(e) = nameres::resolve(program) {
            return Err(Error::Message(format_name_error(e, &self.interner)));
        }
        match check::check(program) {
            Err(e) => Err(Error::Message(format_tt_error(&e, &self.interner))),
            Ok(known) => {
                self.local_services = known;
                Ok(())
            },
        }
    }

    /// The lines that announce where the services of a program are reached.
    pub fn startup_lines(&self, local_ast: &[Stmt], full_addr: &str) -> (res: Vec<String>)
        ensures
            types::views(res@) == url_lines(
                ast::services(types::views(local_ast@)),
                full_addr@,
                self.interner@,
            ),
    {
        let ghost ps = types::views(local_ast@);
        let mut res: Vec<String> = Vec::new();
        assert(types::views(res@) =~= url_lines(
            ast::services(ps.take(0)),
            full_addr@,
            self.interner@,
        ));
        let mut i: usize = 0;
        while i < local_ast.len()
            invariant
                i <= local_ast@.len(),
                ps == types::views(local_ast@),
                types::views(res@) == url_lines(
                    ast::services(ps.take(i as int)),
                    full_addr@,
                    self.interner@,
                ),
            decreases local_ast@.len() - i,
        {
            assert(ps.take(i + 1).drop_last() =~= ps.take(i as int));
            assert(ps.take(i + 1).last() == local_ast@[i as int]@);
            proof {
                ast::lemma_stmt_view(local_ast@[i as int]);
            }
            if let Stmt::Service { name, .. } = &local_ast[i] {
                let mut line = "Service URL: ".to_owned();
                line.append(full_addr);
                line.append("/");
                line.append(self.interner.text(*name));
                res.push(line);
                assert(types::views(res@) =~= url_lines(
                    ast::services(ps.take(i + 1)),
                    full_addr@,
                    self.interner@,
                ));
            }
            i += 1;
        }
        assert(ps.take(i as int) =~= ps);
        res
    }
}

impl Default for Node {
    fn default() -> (res: Node)
        ensures
            res.local_services@.len() == 0,
            res.imported_services@.len() == 0,
            res.unified_ast@.len() == 0,
            res.interner@ == Seq::<Seq<char>>::empty(),
    {
        Node::new()
    }
}

} // verus!
