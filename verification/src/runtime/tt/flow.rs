//! Types of expressions, with the members that a function reads when it is called.

use vstd::prelude::*;

use crate::runtime::collections;
use crate::runtime::collections::{copy_members, insert_members};
use crate::runtime::tt::types;
use crate::runtime::tt::types::{Member, Type, TypeV};

verus! {

broadcast use {types::views_push, types::group_type_views};

/// The type of an expression. A function type lists the members that a call reads.
#[derive(Debug, PartialEq, Eq)]
pub enum Flow {
    Int,
    Bool,
    String,
    Unit,
    Html,
    Action,
    Tuple(Vec<Flow>),
    List(Box<Flow>),
    Func { params: Vec<Flow>, ret: Box<Flow>, deps: Vec<Member> },
}

/// What a `Flow` stands for.
pub enum FlowV {
    Int,
    Bool,
    String,
    Unit,
    Html,
    Action,
    Tuple(Seq<FlowV>),
    List(Box<FlowV>),
    Func { params: Seq<FlowV>, ret: Box<FlowV>, deps: Seq<Member> },
}

pub closed spec fn flow_view(f: Flow) -> FlowV
    decreases f,
{
    match f {
        Flow::Int => FlowV::Int,
        Flow::Bool => FlowV::Bool,
        Flow::String => FlowV::String,
        Flow::Unit => FlowV::Unit,
        Flow::Html => FlowV::Html,
        Flow::Action => FlowV::Action,
        Flow::Tuple(fs) => FlowV::Tuple(
            Seq::new(
                fs@.len(),
                |i: int|
                    if 0 <= i < fs@.len() {
                        flow_view(fs@[i])
                    } else {
                        arbitrary()
                    },
            ),
        ),
        Flow::List(f) => FlowV::List(Box::new(flow_view(*f))),
        Flow::Func { params, ret, deps } => FlowV::Func {
            params: Seq::new(
                params@.len(),
                |i: int|
                    if 0 <= i < params@.len() {
                        flow_view(params@[i])
                    } else {
                        arbitrary()
                    },
            ),
            ret: Box::new(flow_view(*ret)),
            deps: deps@,
        },
    }
}

impl View for Flow {
    type V = FlowV;

    open spec fn view(&self) -> FlowV {
        flow_view(*self)
    }
}

/// The view of a flow.
pub proof fn lemma_flow_view(f: Flow)
    ensures
        match f {
            Flow::Int => f@ == FlowV::Int,
            Flow::Bool => f@ == FlowV::Bool,
            Flow::String => f@ == FlowV::String,
            Flow::Unit => f@ == FlowV::Unit,
            Flow::Html => f@ == FlowV::Html,
            Flow::Action => f@ == FlowV::Action,
            Flow::Tuple(fs) => f@ == FlowV::Tuple(types::views(fs@)),
            Flow::List(g) => f@ == FlowV::List(Box::new(g@)),
            Flow::Func { params, ret, deps } => f@ == (FlowV::Func {
                params: types::views(params@),
                ret: Box::new(ret@),
                deps: deps@,
            }),
        },
{
    match f {
        Flow::Tuple(fs) => {
            assert(f@->Tuple_0 =~= types::views(fs@));
        },
        Flow::Func { params, ret, deps } => {
            assert(f@->Func_params =~= types::views(params@));
        },
        _ => {},
    }
}

/// The type without the members read.
pub open spec fn erased(f: FlowV) -> TypeV
    decreases f,
{
    match f {
        FlowV::Int => TypeV::Int,
        FlowV::Bool => TypeV::Bool,
        FlowV::String => TypeV::String,
        FlowV::Unit => TypeV::Unit,
        FlowV::Html => TypeV::Html,
        FlowV::Action => TypeV::Action,
        FlowV::Tuple(fs) => TypeV::Tuple(erased_all(fs)),
        FlowV::List(f) => TypeV::List(Box::new(erased(*f))),
        FlowV::Func { params, ret, deps } => TypeV::Func {
            params: erased_all(params),
            ret: Box::new(erased(*ret)),
        },
    }
}

/// The types without the members read.
pub open spec fn erased_all(fs: Seq<FlowV>) -> Seq<TypeV>
    decreases fs,
{
    if fs.len() == 0 {
        Seq::empty()
    } else {
        erased_all(fs.drop_last()).push(erased(fs.last()))
    }
}

/// The type that an annotation writes: its functions read nothing known.
pub open spec fn annotated(t: TypeV) -> FlowV
    decreases t,
{
    match t {
        TypeV::Int => FlowV::Int,
        TypeV::Bool => FlowV::Bool,
        TypeV::String => FlowV::String,
        TypeV::Unit => FlowV::Unit,
        TypeV::Html => FlowV::Html,
        TypeV::Action => FlowV::Action,
        TypeV::Tuple(ts) => FlowV::Tuple(annotated_all(ts)),
        TypeV::List(t) => FlowV::List(Box::new(annotated(*t))),
        TypeV::Func { params, ret } => FlowV::Func {
            params: annotated_all(params),
            ret: Box::new(annotated(*ret)),
            deps: Seq::empty(),
        },
    }
}

/// The types that annotations write.
pub open spec fn annotated_all(ts: Seq<TypeV>) -> Seq<FlowV>
    decreases ts,
{
    if ts.len() == 0 {
        Seq::empty()
    } else {
        annotated_all(ts.drop_last()).push(annotated(ts.last()))
    }
}

/// The members that calls of the functions in a value of this type read.
pub open spec fn latent(f: FlowV) -> Seq<Member>
    decreases f,
{
    match f {
        FlowV::Tuple(fs) => latent_all(fs),
        FlowV::List(f) => latent(*f),
        FlowV::Func { ret, deps, .. } => collections::merged(deps, latent(*ret)),
        _ => Seq::empty(),
    }
}

/// The members that calls of the functions in values of these types read.
pub open spec fn latent_all(fs: Seq<FlowV>) -> Seq<Member>
    decreases fs,
{
    if fs.len() == 0 {
        Seq::empty()
    } else {
        collections::merged(latent_all(fs.drop_last()), latent(fs.last()))
    }
}

/// A copy of a flow.
pub fn clone_flow(f: &Flow) -> (res: Flow)
    ensures
        res@ == f@,
    decreases *f,
{
    proof {
        lemma_flow_view(*f);
    }
    let res = match f {
        Flow::Int => Flow::Int,
        Flow::Bool => Flow::Bool,
        Flow::String => Flow::String,
        Flow::Unit => Flow::Unit,
        Flow::Html => Flow::Html,
        Flow::Action => Flow::Action,
        Flow::Tuple(fs) => Flow::Tuple(clone_flows(fs)),
        Flow::List(g) => Flow::List(Box::new(clone_flow(g))),
        Flow::Func { params, ret, deps } => Flow::Func {
            params: clone_flows(params),
            ret: Box::new(clone_flow(ret)),
            deps: copy_members(deps),
        },
    };
    proof {
        lemma_flow_view(res);
    }
    res
}

/// A copy of a list of flows.
pub fn clone_flows(fs: &Vec<Flow>) -> (res: Vec<Flow>)
    ensures
        types::views(res@) == types::views(fs@),
    decreases *fs,
{
    let mut res: Vec<Flow> = Vec::new();
    let mut i: usize = 0;
    while i < fs.len()
        invariant
            i <= fs@.len(),
            res@.len() == i,
            forall|k: int| 0 <= k < i ==> (#[trigger] res@[k])@ == fs@[k]@,
            decreases_to!(*fs => fs@),
        decreases fs@.len() - i,
    {
        assert(decreases_to!(fs@ => fs@[i as int]));
        res.push(clone_flow(&fs[i]));
        i += 1;
    }
    assert(types::views(res@) =~= types::views(fs@));
    res
}

impl Clone for Flow {
    fn clone(&self) -> (res: Flow)
        ensures
            res@ == self@,
    {
        clone_flow(self)
    }
}

/// The type without the members read.
pub fn erase(f: &Flow) -> (res: Type)
    ensures
        res@ == erased(f@),
    decreases *f,
{
    proof {
        lemma_flow_view(*f);
    }
    match f {
        Flow::Int => Type::Int,
        Flow::Bool => Type::Bool,
        Flow::String => Type::String,
        Flow::Unit => Type::Unit,
        Flow::Html => Type::Html,
        Flow::Action => Type::Action,
        Flow::Tuple(fs) => Type::Tuple(erase_all(fs)),
        Flow::List(g) => Type::List(Box::new(erase(g))),
        Flow::Func { params, ret, .. } => Type::Func {
            params: erase_all(params),
            ret: Box::new(erase(ret)),
        },
    }
}

/// The types without the members read.
pub fn erase_all(fs: &Vec<Flow>) -> (res: Vec<Type>)
    ensures
        types::views(res@) == erased_all(types::views(fs@)),
    decreases *fs,
{
    let ghost vs = types::views(fs@);
    let mut res: Vec<Type> = Vec::new();
    assert(types::views(res@) =~= erased_all(vs.take(0)));
    let mut i: usize = 0;
    while i < fs.len()
        invariant
            i <= fs@.len(),
            vs == types::views(fs@),
            types::views(res@) == erased_all(vs.take(i as int)),
            decreases_to!(*fs => fs@),
        decreases fs@.len() - i,
    {
        assert(decreases_to!(fs@ => fs@[i as int]));
        assert(vs.take(i + 1).drop_last() =~= vs.take(i as int));
        assert(vs.take(i + 1).last() == fs@[i as int]@);
        res.push(erase(&fs[i]));
        i += 1;
    }
    assert(vs.take(i as int) =~= vs);
    res
}

/// The type that an annotation writes.
pub fn annotate(t: &Type) -> (res: Flow)
    ensures
        res@ == annotated(t@),
    decreases *t,
{
    proof {
        types::lemma_type_view(*t);
    }
    let res = match t {
        Type::Int => Flow::Int,
        Type::Bool => Flow::Bool,
        Type::String => Flow::String,
        Type::Unit => Flow::Unit,
        Type::Html => Flow::Html,
        Type::Action => Flow::Action,
        Type::Tuple(ts) => Flow::Tuple(annotate_all(ts)),
        Type::List(u) => Flow::List(Box::new(annotate(u))),
        Type::Func { params, ret } => Flow::Func {
            params: annotate_all(params),
            ret: Box::new(annotate(ret)),
            deps: Vec::new(),
        },
    };
    proof {
        lemma_flow_view(res);
    }
    res
}

/// The types that annotations write.
pub fn annotate_all(ts: &Vec<Type>) -> (res: Vec<Flow>)
    ensures
        types::views(res@) == annotated_all(types::views(ts@)),
    decreases *ts,
{
    let ghost vs = types::views(ts@);
    let mut res: Vec<Flow> = Vec::new();
    assert(types::views(res@) =~= annotated_all(vs.take(0)));
    let mut i: usize = 0;
    while i < ts.len()
        invariant
            i <= ts@.len(),
            vs == types::views(ts@),
            types::views(res@) == annotated_all(vs.take(i as int)),
            decreases_to!(*ts => ts@),
        decreases ts@.len() - i,
    {
        assert(decreases_to!(ts@ => ts@[i as int]));
        assert(vs.take(i + 1).drop_last() =~= vs.take(i as int));
        assert(vs.take(i + 1).last() == ts@[i as int]@);
        res.push(annotate(&ts[i]));
        i += 1;
    }
    assert(vs.take(i as int) =~= vs);
    res
}

/// The members that calls of the functions in a value of this type read.
pub fn latent_deps(f: &Flow) -> (res: Vec<Member>)
    ensures
        res@ == latent(f@),
    decreases *f,
{
    proof {
        lemma_flow_view(*f);
    }
    match f {
        Flow::Tuple(fs) => latent_deps_all(fs),
        Flow::List(g) => latent_deps(g),
        Flow::Func { ret, deps, .. } => {
            let mut res = copy_members(deps);
            insert_members(&mut res, &latent_deps(ret));
            res
        },
        _ => Vec::new(),
    }
}

/// The members that calls of the functions in values of these types read.
pub fn latent_deps_all(fs: &Vec<Flow>) -> (res: Vec<Member>)
    ensures
        res@ == latent_all(types::views(fs@)),
    decreases *fs,
{
    let ghost vs = types::views(fs@);
    let mut res: Vec<Member> = Vec::new();
    assert(res@ =~= latent_all(vs.take(0)));
    let mut i: usize = 0;
    while i < fs.len()
        invariant
            i <= fs@.len(),
            vs == types::views(fs@),
            res@ == latent_all(vs.take(i as int)),
            decreases_to!(*fs => fs@),
        decreases fs@.len() - i,
    {
        assert(decreases_to!(fs@ => fs@[i as int]));
        assert(vs.take(i + 1).drop_last() =~= vs.take(i as int));
        assert(vs.take(i + 1).last() == fs@[i as int]@);
        insert_members(&mut res, &latent_deps(&fs[i]));
        i += 1;
    }
    assert(vs.take(i as int) =~= vs);
    res
}

} // verus!
