use vstd::prelude::*;
use vstd::string::StringExecFns;

verus! {

/// The decimal digit character for a value below ten.
pub open spec fn digit_char(d: nat) -> char {
    if d == 0 {
        '0'
    } else if d == 1 {
        '1'
    } else if d == 2 {
        '2'
    } else if d == 3 {
        '3'
    } else if d == 4 {
        '4'
    } else if d == 5 {
        '5'
    } else if d == 6 {
        '6'
    } else if d == 7 {
        '7'
    } else if d == 8 {
        '8'
    } else {
        '9'
    }
}

/// Decimal notation of a natural number, without leading zeros.
pub open spec fn decimal(n: nat) -> Seq<char>
    decreases n,
{
    if n < 10 {
        seq![digit_char(n)]
    } else {
        decimal(n / 10).push(digit_char(n % 10))
    }
}

/// The generated name for placeholder `k` drawn at counter value `n`.
pub open spec fn gen_name(n: nat, k: Seq<char>) -> Seq<char> {
    seq!['_', '_', 'G', 'I', '_'] + decimal(n) + seq!['_'] + k
}

fn digit_str(d: usize) -> (r: &'static str)
    requires
        d < 10,
    ensures
        r@ == seq![digit_char(d as nat)],
{
    proof {
        reveal_strlit("0");
        reveal_strlit("1");
        reveal_strlit("2");
        reveal_strlit("3");
        reveal_strlit("4");
        reveal_strlit("5");
        reveal_strlit("6");
        reveal_strlit("7");
        reveal_strlit("8");
        reveal_strlit("9");
    }
    match d {
        0 => "0",
        1 => "1",
        2 => "2",
        3 => "3",
        4 => "4",
        5 => "5",
        6 => "6",
        7 => "7",
        8 => "8",
        _ => "9",
    }
}

/// Decimal notation of `n`.
pub fn decimal_string(n: usize) -> (r: String)
    ensures
        r@ == decimal(n as nat),
    decreases n,
{
    if n < 10 {
        String::from_str(digit_str(n))
    } else {
        let mut s = decimal_string(n / 10);
        s.append(digit_str(n % 10));
        s
    }
}

/// The generated name for placeholder `k` at counter value `n`.
pub fn make_name(n: usize, k: &String) -> (r: String)
    ensures
        r@ == gen_name(n as nat, k@),
{
    proof {
        reveal_strlit("__GI_");
        reveal_strlit("_");
    }
    let mut r = String::from_str("__GI_");
    let d = decimal_string(n);
    r.append(d.as_str());
    r.append("_");
    r.append(k.as_str());
    proof {
        assert(r@ =~= gen_name(n as nat, k@));
    }
    r
}

/// Decimal notation is never empty and holds no underscore.
pub proof fn lemma_decimal_shape(n: nat)
    ensures
        decimal(n).len() >= 1,
        forall|q: int| 0 <= q < decimal(n).len() ==> #[trigger] decimal(n)[q] != '_',
    decreases n,
{
    if n >= 10 {
        lemma_decimal_shape(n / 10);
    }
}

/// Different numbers have different decimal notations.
pub proof fn lemma_decimal_injective(a: nat, b: nat)
    requires
        decimal(a) == decimal(b),
    ensures
        a == b,
    decreases a,
{
    if a >= 10 {
        lemma_decimal_shape(a / 10);
    }
    if b >= 10 {
        lemma_decimal_shape(b / 10);
    }
    if a >= 10 && b >= 10 {
        assert(decimal(a) == decimal(a / 10).push(digit_char(a % 10)));
        assert(decimal(b) == decimal(b / 10).push(digit_char(b % 10)));
        assert(decimal(a).last() == digit_char(a % 10));
        assert(decimal(b).last() == digit_char(b % 10));
        assert(decimal(a).drop_last() =~= decimal(a / 10));
        assert(decimal(b).drop_last() =~= decimal(b / 10));
        assert(decimal(a).last() == decimal(b).last());
        assert(digit_char(a % 10) == digit_char(b % 10));
        assert(a % 10 == b % 10);
        lemma_decimal_injective(a / 10, b / 10);
        assert(a == 10 * (a / 10) + a % 10);
        assert(b == 10 * (b / 10) + b % 10);
    } else if a < 10 && b < 10 {
        assert(decimal(a)[0] == digit_char(a));
        assert(decimal(b)[0] == digit_char(b));
        assert(digit_char(a) == digit_char(b));
    } else if a < 10 {
        assert(decimal(b).len() == decimal(b / 10).len() + 1);
        assert(decimal(a).len() == 1);
    } else {
        assert(decimal(a).len() == decimal(a / 10).len() + 1);
        assert(decimal(b).len() == 1);
    }
}

/// Names drawn at different counter values differ, whatever their
/// placeholders; one name determines both its counter value and its
/// placeholder.
pub proof fn lemma_gen_name_injective(n1: nat, k1: Seq<char>, n2: nat, k2: Seq<char>)
    requires
        gen_name(n1, k1) == gen_name(n2, k2),
    ensures
        n1 == n2,
        k1 == k2,
{
    let g1 = gen_name(n1, k1);
    let g2 = gen_name(n2, k2);
    let d1 = decimal(n1);
    let d2 = decimal(n2);
    lemma_decimal_shape(n1);
    lemma_decimal_shape(n2);
    if d1.len() < d2.len() {
        assert(g1[(5 + d1.len()) as int] == '_');
        assert(g2[(5 + d1.len()) as int] == d2[d1.len() as int]);
    } else if d2.len() < d1.len() {
        assert(g2[(5 + d2.len()) as int] == '_');
        assert(g1[(5 + d2.len()) as int] == d1[d2.len() as int]);
    } else {
        assert(g1.subrange(5, (5 + d1.len()) as int) =~= d1);
        assert(g2.subrange(5, (5 + d2.len()) as int) =~= d2);
        lemma_decimal_injective(n1, n2);
        assert(g1.skip((6 + d1.len()) as int) =~= k1);
        assert(g2.skip((6 + d2.len()) as int) =~= k2);
    }
}

} // verus!
