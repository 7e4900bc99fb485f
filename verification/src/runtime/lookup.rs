//! Evaluating at a running node, and reading what lives on other nodes.

use vstd::prelude::*;

use crate::net::types::Address;
use crate::runtime::ast;
use crate::runtime::ast::{Expr, ExprV, Value, ValueV};
use crate::runtime::interner;
use crate::runtime::interner::Symbol;
use crate::runtime::interpreter::evaluator;
use crate::runtime::interpreter::evaluator::{
    eval, ContextV, EvalContext, EvalError, EvalErrorV, Evaluated,
};
use crate::runtime::manager::{Manager, ManagerV};
use crate::runtime::tt::types::Member;

verus! {

broadcast use vstd::std_specs::hash::group_hash_axioms;

/// What an expression of a service is evaluated in at a node. A service that does not run there is
/// known on the network by its name.
pub open spec fn service_context(
    m: ManagerV,
    svc: Symbol,
    fetched: Seq<(Member, ValueV)>,
) -> ContextV {
    ContextV {
        services: m.services,
        svc,
        net_id: if m.services.dom().contains(svc) {
            m.services[svc].net_id
        } else {
            interner::name_text(m.names, svc)
        },
        fetched,
    }
}

/// The value of an expression of a service at a node, once these values were fetched.
pub open spec fn value_at(
    m: ManagerV,
    svc: Symbol,
    e: ExprV,
    fetched: Seq<(Member, ValueV)>,
) -> Evaluated {
    evaluator::evaluated(
        service_context(m, svc, fetched),
        Seq::empty(),
        e,
        evaluator::unbounded(),
    )
}

/// What is to be done next for the value of an expression.
pub enum LookupStep {
    /// Nothing: this is its value, or why it has none.
    Ready(Result<Value, EvalError>),
    /// Read a member from the node at an address, and evaluate again.
    Read { addr: Address, service: String, name: String, member: Member },
}

/// What a `LookupStep` stands for.
pub enum LookupStepV {
    Ready(Evaluated),
    Read { addr: Seq<char>, service: Seq<char>, name: Seq<char>, member: Member },
}

impl View for LookupStep {
    type V = LookupStepV;

    open spec fn view(&self) -> LookupStepV {
        match *self {
            LookupStep::Ready(Ok(v)) => LookupStepV::Ready(Ok(v@)),
            LookupStep::Ready(Err(e)) => LookupStepV::Ready(Err(e@)),
            LookupStep::Read { addr, service, name, member } => LookupStepV::Read {
                addr: addr@,
                service: service@,
                name: name@,
                member,
            },
        }
    }
}

/// What is to be done next for the value of an expression. A member that is not known here is read
/// from the node that its service runs on, where there is one.
pub open spec fn looked_up(
    m: ManagerV,
    svc: Symbol,
    e: ExprV,
    fetched: Seq<(Member, ValueV)>,
) -> LookupStepV {
    let r = value_at(m, svc, e, fetched);
    match r {
        Err(EvalErrorV::NeedLookup(at)) if m.remote.contains_key(at.0) => LookupStepV::Read {
            addr: m.remote[at.0],
            service: interner::name_text(m.names, at.0),
            name: interner::name_text(m.names, at.1),
            member: at,
        },
        _ => LookupStepV::Ready(r),
    }
}

/// The value of an expression of a service in the running state.
pub fn evaluate_in_service(
    manager: &Manager,
    svc: Symbol,
    expr: &Expr,
    fetched: &Vec<(Member, Value)>,
) -> (res: Result<Value, EvalError>)
    ensures
        evaluator::yields(
            res,
            value_at(manager@, svc, expr@, evaluator::fetched_view(fetched@)),
        ),
{
    let env: Vec<(Symbol, Value)> = Vec::new();
    assert(ast::env_view(env@) =~= Seq::<(Symbol, ValueV)>::empty());
    let net_id = match manager.services.get(&svc) {
        Some(s) => s.net_id.as_str(),
        None => manager.interner.text(svc),
    };
    let ctx = EvalContext {
        services: &manager.services,
        service_name: svc,
        service_net_id: net_id,
        fetched,
    };
    eval(expr, &env, &ctx)
}

/// What is to be done next for the value of an expression of a service.
pub fn look_up(
    manager: &Manager,
    svc: Symbol,
    expr: &Expr,
    fetched: &Vec<(Member, Value)>,
) -> (res: LookupStep)
    ensures
        res@ == looked_up(manager@, svc, expr@, evaluator::fetched_view(fetched@)),
{
    match evaluate_in_service(manager, svc, expr, fetched) {
        Err(EvalError::NeedLookup(member)) => match manager.remote_services.get(&member.0) {
            Some(addr) => LookupStep::Read {
                addr: addr.clone(),
                service: manager.interner.text(member.0).to_owned(),
                name: manager.interner.text(member.1).to_owned(),
                member,
            },
            None => LookupStep::Ready(Err(EvalError::NeedLookup(member))),
        },
        r => LookupStep::Ready(r),
    }
}

} // verus!
