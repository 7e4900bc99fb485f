//! The types of the language.

use vstd::prelude::*;

use crate::runtime::interner::Symbol;
use crate::runtime::text;
use crate::runtime::text::join;

verus! {

/// A member of a service.
pub type Member = (Symbol, Symbol);

/// A type.
#[derive(Debug, PartialEq, Eq)]
pub enum Type {
    Int,
    Bool,
    String,
    Unit,
    Html,
    Action,
    Tuple(Vec<Type>),
    List(Box<Type>),
    Func { params: Vec<Type>, ret: Box<Type> },
}

/// What a `Type` stands for.
pub enum TypeV {
    Int,
    Bool,
    String,
    Unit,
    Html,
    Action,
    Tuple(Seq<TypeV>),
    List(Box<TypeV>),
    Func { params: Seq<TypeV>, ret: Box<TypeV> },
}

/// A function parameter.
#[derive(Debug, PartialEq, Eq)]
pub struct Param {
    pub name: Symbol,
    pub ty: Option<Type>,
}

/// What a `Param` stands for.
pub struct ParamV {
    pub name: Symbol,
    pub ty: Option<TypeV>,
}

/// A sequence element by element.
pub open spec fn views<T: View>(s: Seq<T>) -> Seq<T::V> {
    s.map_values(|t: T| t@)
}

/// The views of a sequence with one more item.
pub broadcast proof fn views_push<T: View>(s: Seq<T>, x: T)
    ensures
        #[trigger] views(s.push(x)) == views(s).push(x@),
{
    assert(views(s.push(x)) =~= views(s).push(x@));
}

/// An optional value by its view.
pub open spec fn opt_view<T: View>(o: Option<T>) -> Option<T::V> {
    match o {
        Some(t) => Some(t@),
        None => None,
    }
}

pub closed spec fn type_view(t: Type) -> TypeV
    decreases t,
{
    match t {
        Type::Int => TypeV::Int,
        Type::Bool => TypeV::Bool,
        Type::String => TypeV::String,
        Type::Unit => TypeV::Unit,
        Type::Html => TypeV::Html,
        Type::Action => TypeV::Action,
        Type::Tuple(ts) => TypeV::Tuple(
            Seq::new(
                ts@.len(),
                |i: int|
                    if 0 <= i < ts@.len() {
                        type_view(ts@[i])
                    } else {
                        arbitrary()
                    },
            ),
        ),
        Type::List(t) => TypeV::List(Box::new(type_view(*t))),
        Type::Func { params, ret } => TypeV::Func {
            params: Seq::new(
                params@.len(),
                |i: int|
                    if 0 <= i < params@.len() {
                        type_view(params@[i])
                    } else {
                        arbitrary()
                    },
            ),
            ret: Box::new(type_view(*ret)),
        },
    }
}

impl View for Type {
    type V = TypeV;

    open spec fn view(&self) -> TypeV {
        type_view(*self)
    }
}

impl View for Param {
    type V = ParamV;

    open spec fn view(&self) -> ParamV {
        ParamV { name: self.name, ty: opt_view(self.ty) }
    }
}

/// The view of a type.
pub proof fn lemma_type_view(t: Type)
    ensures
        match t {
            Type::Int => t@ == TypeV::Int,
            Type::Bool => t@ == TypeV::Bool,
            Type::String => t@ == TypeV::String,
            Type::Unit => t@ == TypeV::Unit,
            Type::Html => t@ == TypeV::Html,
            Type::Action => t@ == TypeV::Action,
            Type::Tuple(ts) => t@ == TypeV::Tuple(views(ts@)),
            Type::List(u) => t@ == TypeV::List(Box::new(u@)),
            Type::Func { params, ret } => t@ == (TypeV::Func {
                params: views(params@),
                ret: Box::new(ret@),
            }),
        },
{
    match t {
        Type::Tuple(ts) => {
            assert(t@->Tuple_0 =~= views(ts@));
        },
        Type::Func { params, ret } => {
            assert(t@->Func_params =~= views(params@));
        },
        _ => {},
    }
}

/// The view of a type without parts.
pub open spec fn simple_type_view(t: Type) -> TypeV {
    match t {
        Type::Int => TypeV::Int,
        Type::Bool => TypeV::Bool,
        Type::String => TypeV::String,
        Type::Unit => TypeV::Unit,
        Type::Html => TypeV::Html,
        _ => TypeV::Action,
    }
}

/// The view of a type without parts.
pub broadcast proof fn view_type_simple(t: Type)
    ensures
        !(t is Tuple) && !(t is List) && !(t is Func) ==> #[trigger] type_view(t)
            == simple_type_view(t),
{
}

/// The view of `Type::Tuple`.
pub broadcast proof fn view_type_tuple(a: Vec<Type>)
    ensures
        #[trigger] type_view(Type::Tuple(a)) == TypeV::Tuple(views(a@)),
{
    lemma_type_view(Type::Tuple(a));
}

/// The view of `Type::List`.
pub broadcast proof fn view_type_list(a: Box<Type>)
    ensures
        #[trigger] type_view(Type::List(a)) == TypeV::List(Box::new(a@)),
{
}

/// The view of `Type::Func`.
pub broadcast proof fn view_type_func(params: Vec<Type>, ret: Box<Type>)
    ensures
        #[trigger] type_view(Type::Func { params, ret }) == (TypeV::Func {
            params: views(params@),
            ret: Box::new(ret@),
        }),
{
    lemma_type_view(Type::Func { params, ret });
}

/// The views of types, constructor by constructor.
pub broadcast group group_type_views {
    view_type_simple,
    view_type_tuple,
    view_type_list,
    view_type_func,
}

fn clone_type(t: &Type) -> (res: Type)
    ensures
        res@ == t@,
    decreases *t,
{
    match t {
        Type::Int => Type::Int,
        Type::Bool => Type::Bool,
        Type::String => Type::String,
        Type::Unit => Type::Unit,
        Type::Html => Type::Html,
        Type::Action => Type::Action,
        Type::Tuple(ts) => {
            let res = Type::Tuple(clone_type_list(ts));
            proof {
                lemma_type_view(*t);
                lemma_type_view(res);
            }
            res
        },
        Type::List(inner) => Type::List(Box::new(clone_type(inner))),
        Type::Func { params, ret } => {
            let res = Type::Func {
                params: clone_type_list(params),
                ret: Box::new(clone_type(ret)),
            };
            proof {
                lemma_type_view(*t);
                lemma_type_view(res);
            }
            res
        },
    }
}

/// A copy of a list of types.
pub fn clone_type_list(ts: &Vec<Type>) -> (res: Vec<Type>)
    ensures
        views(res@) == views(ts@),
    decreases *ts,
{
    let mut res: Vec<Type> = Vec::new();
    let mut i: usize = 0;
    while i < ts.len()
        invariant
            i <= ts@.len(),
            res@.len() == i,
            forall|k: int| 0 <= k < i ==> (#[trigger] res@[k])@ == ts@[k]@,
            decreases_to!(*ts => ts@),
        decreases ts@.len() - i,
    {
        assert(decreases_to!(ts@ => ts@[i as int]));
        res.push(clone_type(&ts[i]));
        i += 1;
    }
    assert(views(res@) =~= views(ts@));
    res
}

impl Clone for Type {
    fn clone(&self) -> (res: Type)
        ensures
            res@ == self@,
    {
        clone_type(self)
    }
}

/// A copy of an optional type.
pub fn clone_type_opt(ty: &Option<Type>) -> (res: Option<Type>)
    ensures
        opt_view(res) == opt_view(*ty),
{
    match ty {
        Some(t) => Some(t.clone()),
        None => None,
    }
}

impl Clone for Param {
    fn clone(&self) -> (res: Param)
        ensures
            res@ == self@,
    {
        Param { name: self.name, ty: clone_type_opt(&self.ty) }
    }
}

/// A copy of a parameter list.
pub fn clone_params(ps: &Vec<Param>) -> (res: Vec<Param>)
    ensures
        views(res@) == views(ps@),
{
    let mut res: Vec<Param> = Vec::new();
    let mut i: usize = 0;
    while i < ps.len()
        invariant
            i <= ps@.len(),
            res@.len() == i,
            forall|k: int| 0 <= k < i ==> (#[trigger] res@[k])@ == ps@[k]@,
        decreases ps@.len() - i,
    {
        res.push(ps[i].clone());
        i += 1;
    }
    assert(views(res@) =~= views(ps@));
    res
}

/// Whether two types are the same.
pub fn same_type(a: &Type, b: &Type) -> (res: bool)
    ensures
        res == (a@ == b@),
    decreases *a,
{
    match (a, b) {
        (Type::Int, Type::Int) => true,
        (Type::Bool, Type::Bool) => true,
        (Type::String, Type::String) => true,
        (Type::Unit, Type::Unit) => true,
        (Type::Html, Type::Html) => true,
        (Type::Action, Type::Action) => true,
        (Type::Tuple(x), Type::Tuple(y)) => {
            proof {
                lemma_type_view(*a);
                lemma_type_view(*b);
            }
            same_type_list(x, y)
        },
        (Type::List(x), Type::List(y)) => same_type(x, y),
        (Type::Func { params: p, ret: r }, Type::Func { params: q, ret: s }) => {
            proof {
                lemma_type_view(*a);
                lemma_type_view(*b);
            }
            same_type_list(p, q) && same_type(r, s)
        },
        _ => false,
    }
}

/// Whether two lists of types are the same.
pub fn same_type_list(a: &Vec<Type>, b: &Vec<Type>) -> (res: bool)
    ensures
        res == (views(a@) == views(b@)),
    decreases *a,
{
    if a.len() != b.len() {
        assert(views(a@).len() != views(b@).len());
        return false;
    }
    let mut i: usize = 0;
    while i < a.len()
        invariant
            i <= a@.len(),
            a@.len() == b@.len(),
            forall|k: int| 0 <= k < i ==> (#[trigger] a@[k])@ == b@[k]@,
            decreases_to!(*a => a@),
        decreases a@.len() - i,
    {
        assert(decreases_to!(a@ => a@[i as int]));
        if !same_type(&a[i], &b[i]) {
            assert(views(a@)[i as int] != views(b@)[i as int]);
            return false;
        }
        i += 1;
    }
    assert(views(a@) =~= views(b@));
    true
}

/// How a type is written.
pub open spec fn type_text(t: TypeV) -> Seq<char>
    decreases t,
{
    match t {
        TypeV::Int => "int"@,
        TypeV::Bool => "bool"@,
        TypeV::String => "string"@,
        TypeV::Unit => "unit"@,
        TypeV::Html => "html"@,
        TypeV::Action => "action"@,
        TypeV::Tuple(ts) => "("@ + text::joined(type_texts(ts), ", "@) + ")"@,
        TypeV::List(t) => "["@ + type_text(*t) + "]"@,
        TypeV::Func { params, ret } => "("@ + text::joined(type_texts(params), ", "@) + ") -> "@
            + type_text(*ret),
    }
}

/// How types are written.
pub open spec fn type_texts(ts: Seq<TypeV>) -> Seq<Seq<char>>
    decreases ts,
{
    if ts.len() == 0 {
        Seq::empty()
    } else {
        type_texts(ts.drop_last()).push(type_text(ts.last()))
    }
}

/// How a type is written.
pub fn type_to_string(t: &Type) -> (res: String)
    ensures
        res@ == type_text(t@),
    decreases *t,
{
    proof {
        lemma_type_view(*t);
    }
    match t {
        Type::Int => "int".to_owned(),
        Type::Bool => "bool".to_owned(),
        Type::String => "string".to_owned(),
        Type::Unit => "unit".to_owned(),
        Type::Html => "html".to_owned(),
        Type::Action => "action".to_owned(),
        Type::Tuple(ts) => {
            let mut res = "(".to_owned();
            res.append(join(&type_strings(ts), ", ").as_str());
            res.append(")");
            res
        },
        Type::List(u) => {
            let mut res = "[".to_owned();
            res.append(type_to_string(u).as_str());
            res.append("]");
            res
        },
        Type::Func { params, ret } => {
            let mut res = "(".to_owned();
            res.append(join(&type_strings(params), ", ").as_str());
            res.append(") -> ");
            res.append(type_to_string(ret).as_str());
            res
        },
    }
}

fn type_strings(ts: &Vec<Type>) -> (res: Vec<String>)
    ensures
        views(res@) == type_texts(views(ts@)),
    decreases *ts,
{
    let ghost vs = views(ts@);
    let mut res: Vec<String> = Vec::new();
    assert(views(res@) =~= type_texts(vs.take(0)));
    let mut i: usize = 0;
    while i < ts.len()
        invariant
            i <= ts@.len(),
            vs == views(ts@),
            views(res@) == type_texts(vs.take(i as int)),
            decreases_to!(*ts => ts@),
        decreases ts@.len() - i,
    {
        assert(decreases_to!(ts@ => ts@[i as int]));
        assert(vs.take(i + 1).drop_last() =~= vs.take(i as int));
        assert(vs.take(i + 1).last() == ts@[i as int]@);
        let ghost before = res@;
        res.push(type_to_string(&ts[i]));
        proof {
            views_push(before, res@[i as int]);
        }
        i += 1;
    }
    assert(vs.take(i as int) =~= vs);
    res
}

} // verus!
