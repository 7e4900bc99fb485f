//! Text: numbers in decimal, and lists with separators.

use vstd::prelude::*;

use crate::runtime::tt::types;

verus! {

broadcast use types::views_push;

/// The character of a decimal digit.
pub open spec fn digit_char(d: int) -> char {
    ('0' as int + d) as char
}

/// A natural number in decimal.
pub open spec fn nat_text(n: nat) -> Seq<char>
    decreases n,
{
    if n < 10 {
        seq![digit_char(n as int)]
    } else {
        nat_text(n / 10).push(digit_char((n % 10) as int))
    }
}

/// An integer in decimal.
pub open spec fn int_text(i: int) -> Seq<char> {
    if i < 0 {
        seq!['-'] + nat_text((-i) as nat)
    } else {
        nat_text(i as nat)
    }
}

/// The texts one behind the other, with a separator between each two.
pub open spec fn joined(parts: Seq<Seq<char>>, sep: Seq<char>) -> Seq<char>
    decreases parts.len(),
{
    if parts.len() == 0 {
        Seq::empty()
    } else if parts.len() == 1 {
        parts[0]
    } else {
        joined(parts.drop_last(), sep) + sep + parts.last()
    }
}

fn digit_text(d: u64) -> (res: &'static str)
    requires
        d < 10,
    ensures
        res@ == seq![digit_char(d as int)],
{
    proof {
        reveal_strlit("0");
        reveal_strlit("1");
        reveal_strlit("2");
        reveal_strlit("3");
        reveal_strlit("4");
        reveal_strlit("5");
        reveal_strlit("6");
        reveal_strlit("7");
        reveal_strlit("8");
        reveal_strlit("9");
    }
    let res = if d == 0 {
        "0"
    } else if d == 1 {
        "1"
    } else if d == 2 {
        "2"
    } else if d == 3 {
        "3"
    } else if d == 4 {
        "4"
    } else if d == 5 {
        "5"
    } else if d == 6 {
        "6"
    } else if d == 7 {
        "7"
    } else if d == 8 {
        "8"
    } else {
        "9"
    };
    assert(res@ =~= seq![digit_char(d as int)]);
    res
}

/// A natural number in decimal.
pub fn nat_to_string(n: u64) -> (res: String)
    ensures
        res@ == nat_text(n as nat),
    decreases n,
{
    if n < 10 {
        digit_text(n).to_owned()
    } else {
        let mut res = nat_to_string(n / 10);
        res.append(digit_text(n % 10));
        assert(res@ =~= nat_text((n / 10) as nat).push(digit_char((n % 10) as int)));
        res
    }
}

/// An integer in decimal.
pub fn int_to_string(i: i32) -> (res: String)
    ensures
        res@ == int_text(i as int),
{
    if i < 0 {
        proof {
            reveal_strlit("-");
        }
        let mut res = "-".to_owned();
        let n: u64 = (-(i as i64)) as u64;
        res.append(nat_to_string(n).as_str());
        assert(res@ =~= seq!['-'] + nat_text((-i) as nat));
        res
    } else {
        nat_to_string(i as u64)
    }
}

/// The texts one behind the other, with a separator between each two.
pub fn join(parts: &Vec<String>, sep: &str) -> (res: String)
    ensures
        res@ == joined(types::views(parts@), sep@),
{
    let ghost ps = types::views(parts@);
    let mut res = String::new();
    let mut i: usize = 0;
    while i < parts.len()
        invariant
            i <= parts@.len(),
            ps == types::views(parts@),
            res@ == joined(ps.take(i as int), sep@),
        decreases parts@.len() - i,
    {
        assert(ps.take(i + 1).drop_last() =~= ps.take(i as int));
        assert(ps.take(i + 1).last() == parts@[i as int]@);
        if i > 0 {
            res.append(sep);
        }
        res.append(parts[i].as_str());
        assert(res@ =~= joined(ps.take(i + 1), sep@));
        i += 1;
    }
    assert(ps.take(i as int) =~= ps);
    res
}

/// Two texts one behind the other.
pub fn joined_text(a: &str, b: &str) -> (res: String)
    ensures
        res@ == a@ + b@,
{
    let mut res = a.to_owned();
    res.append(b);
    res
}

/// The number that digits stand for.
pub open spec fn digits_value(s: Seq<char>) -> int
    decreases s.len(),
{
    if s.len() == 0 {
        0
    } else {
        10 * digits_value(s.drop_last()) + (s.last() as int - '0' as int)
    }
}

/// A number is written with digits that stand for it, without a zero in front.
pub proof fn numbers_are_written_in_decimal(n: nat)
    ensures
        digits_value(nat_text(n)) == n,
        nat_text(n).len() > 0,
        nat_text(n)[0] == '0' ==> n == 0,
        forall|i: int| 0 <= i < nat_text(n).len() ==> '0' <= #[trigger] nat_text(n)[i] <= '9',
    decreases n,
{
    let t = nat_text(n);
    if n < 10 {
        assert(t.drop_last() =~= Seq::empty());
        assert(digits_value(t.drop_last()) == 0);
        assert(t.last() == digit_char(n as int));
    } else {
        let before = nat_text(n / 10);
        numbers_are_written_in_decimal(n / 10);
        assert(t.drop_last() =~= before);
        assert(t.last() == digit_char((n % 10) as int));
        assert(t[0] == before[0]);
    }
}

/// A negative number is written behind a sign, and one that is not as a natural number. So two
/// numbers that are written alike are the same.
pub proof fn integers_are_told_apart_by_their_text(a: int, b: int)
    requires
        int_text(a) == int_text(b),
    ensures
        a == b,
{
    let m = if a < 0 {
        (-a) as nat
    } else {
        a as nat
    };
    let n = if b < 0 {
        (-b) as nat
    } else {
        b as nat
    };
    numbers_are_written_in_decimal(m);
    numbers_are_written_in_decimal(n);
    assert(a < 0 ==> int_text(a)[0] == '-' && int_text(a).skip(1) =~= nat_text(m));
    assert(b < 0 ==> int_text(b)[0] == '-' && int_text(b).skip(1) =~= nat_text(n));
    assert(a >= 0 ==> int_text(a)[0] == nat_text(m)[0]);
    assert(b >= 0 ==> int_text(b)[0] == nat_text(n)[0]);
}

} // verus!
