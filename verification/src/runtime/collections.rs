//! Lists and sets of symbols.

use std::collections::HashSet;
use vstd::prelude::*;

use crate::runtime::interner::Symbol;
use crate::runtime::tt::types::Member;

verus! {

broadcast use vstd::std_specs::hash::group_hash_axioms;

/// What the first `i + 1` items hold: what the first `i` hold, and item `i`.
pub proof fn lemma_take_contains<T>(s: Seq<T>, i: int)
    requires
        0 <= i < s.len(),
    ensures
        forall|x: T| #[trigger]
            s.take(i + 1).contains(x) <==> s.take(i).contains(x) || x == s[i],
{
    let longer = s.take(i + 1);
    let shorter = s.take(i);
    assert forall|x: T| #[trigger] longer.contains(x) <==> shorter.contains(x) || x == s[i] by {
        if shorter.contains(x) {
            let k = choose|k: int| 0 <= k < shorter.len() && shorter[k] == x;
            assert(longer[k] == x);
        }
        if x == s[i] {
            assert(longer[i] == x);
        }
        if longer.contains(x) {
            let k = choose|k: int| 0 <= k < longer.len() && longer[k] == x;
            if k < i {
                assert(shorter[k] == x);
            }
        }
    }
}

/// The set of the symbols in a list.
pub fn set_of(xs: &Vec<Symbol>) -> (res: HashSet<Symbol>)
    ensures
        res@ == xs@.to_set(),
{
    let mut res: HashSet<Symbol> = HashSet::new();
    let mut i: usize = 0;
    while i < xs.len()
        invariant
            i <= xs@.len(),
            forall|x: Symbol| #[trigger] res@.contains(x) <==> xs@.take(i as int).contains(x),
        decreases xs@.len() - i,
    {
        proof {
            lemma_take_contains(xs@, i as int);
        }
        res.insert(xs[i]);
        i += 1;
    }
    assert(xs@.take(i as int) =~= xs@);
    assert(res@ =~= xs@.to_set());
    res
}

/// A copy of a set.
pub fn copy_set(xs: &HashSet<Symbol>) -> (res: HashSet<Symbol>)
    ensures
        res@ == xs@,
{
    let mut res: HashSet<Symbol> = HashSet::new();
    for x in iter: xs.iter()
        invariant
            iter.seq().unref().to_set() == xs@,
            forall|y: Symbol| #[trigger]
                res@.contains(y) <==> iter.seq().unref().take(iter.index() as int).contains(y),
    {
        proof {
            lemma_take_contains(iter.seq().unref(), iter.index() as int);
        }
        res.insert(*x);
    }
    proof {
        let all = vstd::std_specs::iter::IteratorSpec::remaining(
            &vstd::std_specs::hash::spec_hash_keys_iter(xs),
        ).unref();
        assert(all.take(all.len() as int) =~= all);
    }
    assert(res@ =~= xs@);
    res
}

/// Whether a list holds a member.
pub fn has_member(xs: &Vec<Member>, m: Member) -> (res: bool)
    ensures
        res == xs@.contains(m),
{
    let mut i: usize = 0;
    while i < xs.len()
        invariant
            i <= xs@.len(),
            forall|k: int| 0 <= k < i ==> xs@[k] != m,
        decreases xs@.len() - i,
    {
        if xs[i].0 == m.0 && xs[i].1 == m.1 {
            assert(xs@[i as int] == m);
            return true;
        }
        i += 1;
    }
    false
}

/// A list with a member appended that it did not hold.
pub open spec fn with_member(xs: Seq<Member>, m: Member) -> Seq<Member> {
    if xs.contains(m) {
        xs
    } else {
        xs.push(m)
    }
}

/// A list with the members of another appended that it did not hold.
pub open spec fn merged(xs: Seq<Member>, ys: Seq<Member>) -> Seq<Member>
    decreases ys.len(),
{
    if ys.len() == 0 {
        xs
    } else {
        with_member(merged(xs, ys.drop_last()), ys.last())
    }
}

/// What a list with one more member holds.
pub proof fn lemma_with_member(xs: Seq<Member>, m: Member)
    ensures
        forall|x: Member| #[trigger]
            with_member(xs, m).contains(x) <==> xs.contains(x) || x == m,
        xs.no_duplicates() ==> with_member(xs, m).no_duplicates(),
{
    if !xs.contains(m) {
        let after = xs.push(m);
        assert forall|x: Member| #[trigger] after.contains(x) <==> xs.contains(x) || x == m by {
            if xs.contains(x) {
                let k = choose|k: int| 0 <= k < xs.len() && xs[k] == x;
                assert(after[k] == x);
            }
            if x == m {
                assert(after[xs.len() as int] == m);
            }
        }
    }
}

/// What a merged list holds.
pub proof fn lemma_merged(xs: Seq<Member>, ys: Seq<Member>)
    ensures
        forall|x: Member| #[trigger]
            merged(xs, ys).contains(x) <==> xs.contains(x) || ys.contains(x),
        xs.no_duplicates() ==> merged(xs, ys).no_duplicates(),
    decreases ys.len(),
{
    if ys.len() > 0 {
        lemma_merged(xs, ys.drop_last());
        lemma_with_member(merged(xs, ys.drop_last()), ys.last());
        lemma_take_contains(ys, ys.len() - 1);
        assert(ys.take(ys.len() as int) =~= ys);
        assert(ys.take(ys.len() - 1) =~= ys.drop_last());
    }
}

/// Append a member to a list that does not hold it yet.
pub fn insert_member(xs: &mut Vec<Member>, m: Member)
    ensures
        final(xs)@ == with_member(old(xs)@, m),
{
    if !has_member(xs, m) {
        xs.push(m);
    }
}

/// Append to a list the members of another that it does not hold yet.
pub fn insert_members(xs: &mut Vec<Member>, ys: &Vec<Member>)
    ensures
        final(xs)@ == merged(old(xs)@, ys@),
{
    let mut i: usize = 0;
    while i < ys.len()
        invariant
            i <= ys@.len(),
            xs@ == merged(old(xs)@, ys@.take(i as int)),
        decreases ys@.len() - i,
    {
        assert(ys@.take(i + 1).drop_last() =~= ys@.take(i as int));
        insert_member(xs, ys[i]);
        i += 1;
    }
    assert(ys@.take(i as int) =~= ys@);
}

/// A copy of a list of members.
pub fn copy_members(xs: &Vec<Member>) -> (res: Vec<Member>)
    ensures
        res@ == xs@,
{
    let mut res: Vec<Member> = Vec::new();
    let mut i: usize = 0;
    while i < xs.len()
        invariant
            i <= xs@.len(),
            res@ == xs@.take(i as int),
        decreases xs@.len() - i,
    {
        res.push(xs[i]);
        i += 1;
        assert(res@ =~= xs@.take(i as int));
    }
    assert(res@ =~= xs@);
    res
}

} // verus!
