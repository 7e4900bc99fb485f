//! The debug form of what a type check finds wrong: what a failed update is reported with.

use vstd::prelude::*;

use crate::runtime::interner::Symbol;
use crate::runtime::text;
use crate::runtime::text::{join, nat_to_string};
use crate::runtime::tt::check::{CheckError, CheckErrorV};
use crate::runtime::tt::types;
use crate::runtime::tt::types::{Type, TypeV};

verus! {

/// The debug form of a name: its number in the table.
pub open spec fn symbol_debug(s: Symbol) -> Seq<char> {
    "Symbol("@ + text::nat_text(s as nat) + ")"@
}

/// The debug form of a type.
pub open spec fn type_debug(t: TypeV) -> Seq<char>
    decreases t,
{
    match t {
        TypeV::Int => "Int"@,
        TypeV::Bool => "Bool"@,
        TypeV::String => "String"@,
        TypeV::Unit => "Unit"@,
        TypeV::Html => "Html"@,
        TypeV::Action => "Action"@,
        TypeV::Tuple(ts) => "Tuple(["@ + text::joined(type_debugs(ts), ", "@) + "])"@,
        TypeV::List(t) => "List("@ + type_debug(*t) + ")"@,
        TypeV::Func { params, ret } => "Func { params: ["@ + text::joined(
            type_debugs(params),
            ", "@,
        ) + "], ret: "@ + type_debug(*ret) + " }"@,
    }
}

/// The debug forms of types.
pub open spec fn type_debugs(ts: Seq<TypeV>) -> Seq<Seq<char>>
    decreases ts,
{
    if ts.len() == 0 {
        Seq::empty()
    } else {
        type_debugs(ts.drop_last()).push(type_debug(ts.last()))
    }
}

/// The debug form of a variant that names a member.
pub open spec fn member_debug(variant: Seq<char>, service: Symbol, member: Symbol) -> Seq<char> {
    variant + " { service: "@ + symbol_debug(service) + ", member: "@ + symbol_debug(member)
        + " }"@
}

/// The debug form of what a type check finds wrong.
pub open spec fn check_error_debug(e: CheckErrorV) -> Seq<char> {
    match e {
        CheckErrorV::DependencyCycle { service, member } => member_debug(
            "DependencyCycle"@,
            service,
            member,
        ),
        CheckErrorV::UnboundVariable(s) => "UnboundVariable("@ + symbol_debug(s) + ")"@,
        CheckErrorV::TypeMismatch { expected, found } => "TypeMismatch { expected: "@
            + type_debug(expected) + ", found: "@ + type_debug(found) + " }"@,
        CheckErrorV::CannotInferType => "CannotInferType"@,
        CheckErrorV::DepthLimitExceeded => "DepthLimitExceeded"@,
        CheckErrorV::InvalidTupleArity => "InvalidTupleArity"@,
        CheckErrorV::NotAFunction => "NotAFunction"@,
        CheckErrorV::IllegalDependency { service, member } => member_debug(
            "IllegalDependency"@,
            service,
            member,
        ),
    }
}

fn debug_symbol(s: Symbol) -> (res: String)
    ensures
        res@ == symbol_debug(s),
{
    let mut res = "Symbol(".to_owned();
    res.append(nat_to_string(s as u64).as_str());
    res.append(")");
    res
}

/// The debug form of a type.
pub fn debug_type(t: &Type) -> (res: String)
    ensures
        res@ == type_debug(t@),
    decreases *t,
{
    proof {
        types::lemma_type_view(*t);
    }
    match t {
        Type::Int => "Int".to_owned(),
        Type::Bool => "Bool".to_owned(),
        Type::String => "String".to_owned(),
        Type::Unit => "Unit".to_owned(),
        Type::Html => "Html".to_owned(),
        Type::Action => "Action".to_owned(),
        Type::Tuple(ts) => {
            let mut res = "Tuple([".to_owned();
            res.append(join(&debug_types(ts), ", ").as_str());
            res.append("])");
            res
        },
        Type::List(u) => {
            let mut res = "List(".to_owned();
            res.append(debug_type(u).as_str());
            res.append(")");
            res
        },
        Type::Func { params, ret } => {
            let mut res = "Func { params: [".to_owned();
            res.append(join(&debug_types(params), ", ").as_str());
            res.append("], ret: ");
            res.append(debug_type(ret).as_str());
            res.append(" }");
            res
        },
    }
}

fn debug_types(ts: &Vec<Type>) -> (res: Vec<String>)
    ensures
        types::views(res@) == type_debugs(types::views(ts@)),
    decreases *ts,
{
    let ghost vs = types::views(ts@);
    let mut res: Vec<String> = Vec::new();
    assert(types::views(res@) =~= type_debugs(vs.take(0)));
    let mut i: usize = 0;
    while i < ts.len()
        invariant
            i <= ts@.len(),
            vs == types::views(ts@),
            types::views(res@) == type_debugs(vs.take(i as int)),
            decreases_to!(*ts => ts@),
        decreases ts@.len() - i,
    {
        assert(decreases_to!(ts@ => ts@[i as int]));
        assert(vs.take(i + 1).drop_last() =~= vs.take(i as int));
        assert(vs.take(i + 1).last() == ts@[i as int]@);
        let ghost before = res@;
        res.push(debug_type(&ts[i]));
        proof {
            types::views_push(before, res@[i as int]);
        }
        i += 1;
    }
    assert(vs.take(i as int) =~= vs);
    res
}

fn debug_member(variant: &str, service: Symbol, member: Symbol) -> (res: String)
    ensures
        res@ == member_debug(variant@, service, member),
{
    let mut res = variant.to_owned();
    res.append(" { service: ");
    res.append(debug_symbol(service).as_str());
    res.append(", member: ");
    res.append(debug_symbol(member).as_str());
    res.append(" }");
    res
}

/// The debug form of what a type check finds wrong.
pub fn debug_check_error(e: &CheckError) -> (res: String)
    ensures
        res@ == check_error_debug(e@),
{
    match e {
        CheckError::DependencyCycle { service, member } => debug_member(
            "DependencyCycle",
            *service,
            *member,
        ),
        CheckError::UnboundVariable(s) => {
            let mut res = "UnboundVariable(".to_owned();
            res.append(debug_symbol(*s).as_str());
            res.append(")");
            res
        },
        CheckError::TypeMismatch { expected, found } => {
            let mut res = "TypeMismatch { expected: ".to_owned();
            res.append(debug_type(expected).as_str());
            res.append(", found: ");
            res.append(debug_type(found).as_str());
            res.append(" }");
            res
        },
        CheckError::CannotInferType => "CannotInferType".to_owned(),
        CheckError::DepthLimitExceeded => "DepthLimitExceeded".to_owned(),
        CheckError::InvalidTupleArity => "InvalidTupleArity".to_owned(),
        CheckError::NotAFunction => "NotAFunction".to_owned(),
        CheckError::IllegalDependency { service, member } => debug_member(
            "IllegalDependency",
            *service,
            *member,
        ),
    }
}

} // verus!
