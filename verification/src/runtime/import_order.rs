//! In which order imported files are put together.

use vstd::prelude::*;

use crate::runtime::imports;
use crate::runtime::imports::ModuleV;

verus! {

/// Whether file `x` imports a service that file `y` declares.
pub open spec fn needs(mods: Seq<ModuleV>, x: int, y: int) -> bool {
    &&& 0 <= x < mods.len()
    &&& exists|k: int|
        0 <= k < mods[x].imports.len() && imports::owner(
            mods,
            #[trigger] mods[x].imports[k],
        ) == Some(y)
}

/// Whether each file of a path needs the next.
pub open spec fn is_chain(mods: Seq<ModuleV>, p: Seq<int>) -> bool {
    forall|i: int| 0 <= i < p.len() - 1 ==> needs(mods, #[trigger] p[i], p[i + 1])
}

/// Whether file `x` is file `y`, or needs it directly or through others.
pub open spec fn leads_to(mods: Seq<ModuleV>, x: int, y: int) -> bool {
    exists|p: Seq<int>| #[trigger]
        is_chain(mods, p) && p.len() > 0 && p[0] == x && p.last() == y
}

/// Whether numbers are numbers of files, none twice.
pub open spec fn are_files(mods: Seq<ModuleV>, s: Seq<int>) -> bool {
    s.no_duplicates() && forall|i: int| 0 <= i < s.len() ==> 0 <= #[trigger] s[i] < mods.len()
}

/// Whether each file stands behind those it needs, but for those that lead back to it.
pub open spec fn is_ordered(mods: Seq<ModuleV>, s: Seq<int>) -> bool {
    forall|j: int, y: int|
        0 <= j < s.len() && #[trigger] needs(mods, s[j], y) ==> s.take(j).contains(y)
            || leads_to(mods, y, s[j])
}

/// The declaring file of a service is one of the files.
proof fn lemma_owner_range(mods: Seq<ModuleV>, i: int, s: usize)
    requires
        0 <= i,
    ensures
        imports::owner_from(mods, i, s) matches Some(k) ==> i <= k < mods.len(),
    decreases mods.len() - i,
{
    if i < mods.len() {
        lemma_owner_range(mods, i + 1, s);
    }
}

/// Distinct files are not more than the files.
proof fn lemma_file_count(mods: Seq<ModuleV>, s: Seq<int>)
    requires
        are_files(mods, s),
    ensures
        s.len() <= mods.len(),
{
    let all = vstd::set_lib::set_int_range(0, mods.len() as int);
    s.unique_seq_to_set();
    vstd::set_lib::lemma_int_range(0, mods.len() as int);
    assert(s.to_set().subset_of(all));
    vstd::set_lib::lemma_len_subset(s.to_set(), all);
}

/// A file on the way to another leads to it.
proof fn lemma_on_path(mods: Seq<ModuleV>, p: Seq<int>, y: int)
    requires
        is_chain(mods, p),
        p.contains(y),
    ensures
        leads_to(mods, y, p.last()),
{
    let k = choose|k: int| 0 <= k < p.len() && p[k] == y;
    let q = p.skip(k);
    assert forall|i: int| 0 <= i < q.len() - 1 implies needs(mods, #[trigger] q[i], q[i + 1]) by {
        assert(q[i] == p[k + i]);
        assert(q[i + 1] == p[k + i + 1]);
    }
    assert(is_chain(mods, q) && q.len() > 0 && q[0] == y && q.last() == p.last());
}

/// What placing keeps: what was placed stays in front, only files that are not under way are
/// added, and the order holds.
pub open spec fn kept(
    mods: Seq<ModuleV>,
    placed: Seq<int>,
    path: Seq<int>,
    r: Seq<int>,
) -> bool {
    &&& are_files(mods, r)
    &&& is_ordered(mods, r)
    &&& placed.len() <= r.len()
    &&& r.take(placed.len() as int) == placed
    &&& forall|x: int| #[trigger] r.contains(x) && path.contains(x) ==> placed.contains(x)
}

/// What stays placed.
proof fn lemma_stays(placed: Seq<int>, r: Seq<int>, x: int)
    requires
        placed.len() <= r.len(),
        r.take(placed.len() as int) == placed,
        placed.contains(x),
    ensures
        r.contains(x),
{
    let k = choose|k: int| 0 <= k < placed.len() && placed[k] == x;
    assert(r.take(placed.len() as int)[k] == r[k]);
}

/// Placing a file.
proof fn lemma_place(mods: Seq<ModuleV>, i: int, placed: Seq<int>, path: Seq<int>)
    requires
        are_files(mods, placed),
        is_ordered(mods, placed),
        are_files(mods, path),
        is_chain(mods, path),
        path.len() > 0 ==> needs(mods, path.last(), i),
        0 <= i < mods.len(),
    ensures
        kept(mods, placed, path, imports::place(mods, i, placed, path)),
        imports::place(mods, i, placed, path).contains(i) || path.contains(i),
    decreases mods.len() - path.len(), 1int, 0int,
{
    assert(placed.take(placed.len() as int) =~= placed);
    if !placed.contains(i) && !path.contains(i) {
        let longer = path.push(i);
        assert(longer.no_duplicates()) by {
            assert forall|a: int, b: int|
                0 <= a < longer.len() && 0 <= b < longer.len() && a != b implies longer[a]
                != longer[b] by {
                if a < path.len() && b < path.len() {
                } else if a < path.len() {
                    assert(path.contains(path[a]));
                } else {
                    assert(path.contains(path[b]));
                }
            }
        }
        lemma_file_count(mods, longer);
        assert(is_chain(mods, longer)) by {
            assert forall|k: int| 0 <= k < longer.len() - 1 implies needs(
                mods,
                #[trigger] longer[k],
                longer[k + 1],
            ) by {
                if k < path.len() - 1 {
                    assert(longer[k] == path[k] && longer[k + 1] == path[k + 1]);
                } else {
                    assert(longer[k] == path.last());
                }
            }
        }
        lemma_place_imports(mods, 0, placed, longer);
        let before = imports::place_imports(mods, mods[i].imports, 0, placed, longer);
        let r = before.push(i);
        assert(longer.contains(i)) by {
            assert(longer[path.len() as int] == i);
        }
        assert(!before.contains(i));
        assert(r.no_duplicates()) by {
            assert forall|a: int, b: int|
                0 <= a < r.len() && 0 <= b < r.len() && a != b implies r[a] != r[b] by {
                if a < before.len() && b < before.len() {
                } else if a < before.len() {
                    assert(before.contains(before[a]));
                } else {
                    assert(before.contains(before[b]));
                }
            }
        }
        assert(is_ordered(mods, r)) by {
            assert forall|j: int, y: int|
                0 <= j < r.len() && #[trigger] needs(mods, r[j], y) implies r.take(j).contains(y)
                || leads_to(mods, y, r[j]) by {
                if j < before.len() {
                    assert(r[j] == before[j]);
                    assert(needs(mods, before[j], y));
                    assert(r.take(j) =~= before.take(j));
                } else {
                    assert(r[j] == i);
                    let k = choose|k: int|
                        0 <= k < mods[i].imports.len() && imports::owner(
                            mods,
                            #[trigger] mods[i].imports[k],
                        ) == Some(y);
                    assert(before.contains(y) || longer.contains(y));
                    if before.contains(y) {
                        assert(r.take(j) =~= before);
                    } else {
                        lemma_on_path(mods, longer, y);
                    }
                }
            }
        }
        assert(r.take(placed.len() as int) =~= before.take(placed.len() as int));
        assert forall|x: int| #[trigger] r.contains(x) && path.contains(x) implies placed.contains(
            x,
        ) by {
            let a = choose|a: int| 0 <= a < r.len() && r[a] == x;
            let b = choose|b: int| 0 <= b < path.len() && path[b] == x;
            assert(longer[b] == x);
            if a < before.len() {
                assert(before[a] == x);
                assert(before.contains(x) && longer.contains(x));
            }
        }
        assert(r[before.len() as int] == i);
        assert(imports::place(mods, i, placed, path) == r);
    }
}

/// Placing the files that the last file under way needs, from position `k` of its imports on.
proof fn lemma_place_imports(mods: Seq<ModuleV>, k: int, placed: Seq<int>, path: Seq<int>)
    requires
        are_files(mods, placed),
        is_ordered(mods, placed),
        are_files(mods, path),
        is_chain(mods, path),
        path.len() > 0,
        0 <= k,
    ensures
        kept(
            mods,
            placed,
            path,
            imports::place_imports(mods, mods[path.last()].imports, k, placed, path),
        ),
        forall|q: int, y: int|
            k <= q < mods[path.last()].imports.len() && imports::owner(
                mods,
                #[trigger] mods[path.last()].imports[q],
            ) == Some(y) ==> #[trigger] imports::place_imports(
                mods,
                mods[path.last()].imports,
                k,
                placed,
                path,
            ).contains(y) || path.contains(y),
    decreases mods.len() - path.len(), 2int, mods[path.last()].imports.len() - k,
{
    let imps = mods[path.last()].imports;
    let r = imports::place_imports(mods, imps, k, placed, path);
    assert(placed.take(placed.len() as int) =~= placed);
    if k < imps.len() {
        let more = match imports::owner(mods, imps[k]) {
            Some(j) => imports::place(mods, j, placed, path),
            None => placed,
        };
        if let Some(j) = imports::owner(mods, imps[k]) {
            lemma_owner_range(mods, 0, imps[k]);
            assert(needs(mods, path.last(), j)) by {
                assert(path[path.len() - 1] == path.last());
            }
            lemma_file_count(mods, path);
            lemma_place(mods, j, placed, path);
        }
        lemma_place_imports(mods, k + 1, more, path);
        assert(r == imports::place_imports(mods, imps, k + 1, more, path));
        assert(r.take(placed.len() as int) =~= more.take(placed.len() as int)) by {
            assert(r.take(more.len() as int) == more);
            assert(r.take(placed.len() as int) =~= r.take(more.len() as int).take(
                placed.len() as int,
            ));
        }
        assert forall|x: int| #[trigger] r.contains(x) && path.contains(x) implies placed.contains(
            x,
        ) by {
            assert(more.contains(x));
        }
        assert forall|q: int, y: int|
            k <= q < imps.len() && imports::owner(mods, #[trigger] imps[q]) == Some(
                y,
            ) implies #[trigger] r.contains(y) || path.contains(y) by {
            if q == k {
                if !path.contains(y) {
                    lemma_stays(more, r, y);
                }
            }
        }
    }
}

/// Placing the first files.
proof fn lemma_placed_upto(mods: Seq<ModuleV>, i: int)
    requires
        0 <= i <= mods.len(),
    ensures
        are_files(mods, imports::placed_upto(mods, i)),
        is_ordered(mods, imports::placed_upto(mods, i)),
        forall|x: int|
            0 <= x < i ==> #[trigger] imports::placed_upto(mods, i).contains(x),
    decreases i,
{
    if i > 0 {
        lemma_placed_upto(mods, i - 1);
        let before = imports::placed_upto(mods, i - 1);
        let none = Seq::<int>::empty();
        lemma_place(mods, i - 1, before, none);
        let r = imports::placed_upto(mods, i);
        assert forall|x: int| 0 <= x < i implies #[trigger] r.contains(x) by {
            if x < i - 1 {
                lemma_stays(before, r, x);
            }
        }
    }
}

/// Every imported file is put into the program, none twice.
pub proof fn every_file_is_placed_once(mods: Seq<ModuleV>)
    ensures
        imports::module_order(mods).no_duplicates(),
        imports::module_order(mods).len() == mods.len(),
        forall|x: int|
            0 <= x < mods.len() <==> #[trigger] imports::module_order(mods).contains(x),
{
    let order = imports::module_order(mods);
    lemma_placed_upto(mods, mods.len() as int);
    lemma_file_count(mods, order);
    let all = vstd::set_lib::set_int_range(0, mods.len() as int);
    vstd::set_lib::lemma_int_range(0, mods.len() as int);
    order.unique_seq_to_set();
    assert(all.subset_of(order.to_set()));
    vstd::set_lib::lemma_len_subset(all, order.to_set());
}

/// A file stands behind the files that declare what it imports, but for those that lead back to
/// it: where there is no cycle, every import comes first.
pub proof fn imports_come_first(mods: Seq<ModuleV>, a: int, b: int)
    requires
        needs(mods, a, b),
        !leads_to(mods, b, a),
    ensures
        imports::module_order(mods).index_of(b) < imports::module_order(mods).index_of(a),
        imports::module_order(mods).contains(a),
        imports::module_order(mods).contains(b),
{
    let order = imports::module_order(mods);
    lemma_placed_upto(mods, mods.len() as int);
    assert(order.contains(a));
    let j = order.index_of(a);
    assert(needs(mods, order[j], b));
    assert(order.take(j).contains(b));
    let i = choose|i: int| 0 <= i < j && order.take(j)[i] == b;
    assert(order[i] == b);
    assert(order.contains(b));
    assert(order.index_of(b) == i);
}

} // verus!
