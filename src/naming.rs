use vstd::prelude::*;

verus! {

/// The decimal digit for `d`.
pub open spec fn digit_char(d: nat) -> char {
    seq!['0', '1', '2', '3', '4', '5', '6', '7', '8', '9'][d as int]
}

/// `n` written in decimal, without leading zeros.
pub open spec fn decimal(n: nat) -> Seq<char>
    decreases n,
{
    if n < 10 {
        seq![digit_char(n)]
    } else {
        decimal(n / 10).push(digit_char(n % 10))
    }
}

/// The `n`-th name tried for `target`: the target itself, then `target_1`,
/// `target_2`, and so on.
pub open spec fn candidate(target: Seq<char>, n: nat) -> Seq<char> {
    if n == 0 {
        target
    } else {
        target + seq!['_'] + decimal(n)
    }
}

/// `n` is the first position at which `taken` says no.
pub open spec fn first_free(taken: Seq<bool>, n: int) -> bool {
    &&& 0 <= n < taken.len()
    &&& !taken[n]
    &&& forall|k: int| 0 <= k < n ==> taken[k]
}

fn digit_str(d: u64) -> (r: &'static str)
    requires
        d < 10,
    ensures
        r@ == seq![digit_char(d as nat)],
{
    proof {
        reveal_strlit("0");
        reveal_strlit("1");
        reveal_strlit("2");
        reveal_strlit("3");
        reveal_strlit("4");
        reveal_strlit("5");
        reveal_strlit("6");
        reveal_strlit("7");
        reveal_strlit("8");
        reveal_strlit("9");
    }
    match d {
        0 => "0",
        1 => "1",
        2 => "2",
        3 => "3",
        4 => "4",
        5 => "5",
        6 => "6",
        7 => "7",
        8 => "8",
        _ => "9",
    }
}

/// `n` in decimal.
pub fn decimal_string(n: u64) -> (r: String)
    ensures
        r@ == decimal(n as nat),
    decreases n,
{
    if n < 10 {
        String::from_str(digit_str(n))
    } else {
        let mut s = decimal_string(n / 10);
        s.append(digit_str(n % 10));
        s
    }
}

/// The `n`-th name tried for `target`.
pub fn collision_candidate(target: &String, n: u64) -> (r: String)
    ensures
        r@ == candidate(target@, n as nat),
{
    let mut s = target.clone();
    if n > 0 {
        proof {
            reveal_strlit("_");
        }
        s.append("_");
        s.append(decimal_string(n).as_str());
        assert(s@ =~= target@ + seq!['_'] + decimal(n as nat));
    }
    s
}

/// Picks the name for `target` that nothing occupies.
///
/// `taken[k]` says whether the `k`-th candidate (`target`, `target_1`, ...)
/// is already in use. The result is the first candidate that is not, or
/// `None` when every candidate asked about is taken and more must be asked.
pub fn avoid_collision(target: &String, taken: &Vec<bool>) -> (r: Option<String>)
    ensures
        r is None <==> forall|k: int| 0 <= k < taken@.len() ==> taken@[k],
        r matches Some(p) ==> exists|n: int|
            first_free(taken@, n) && p@ == candidate(target@, n as nat),
        r matches Some(p) ==> (p@ == target@ <==> !taken@[0]),
{
    let mut i: usize = 0;
    while i < taken.len()
        invariant
            i <= taken.len(),
            forall|k: int| 0 <= k < i ==> taken@[k],
        decreases taken.len() - i,
    {
        if !taken[i] {
            let p = collision_candidate(target, i as u64);
            proof {
                assert(first_free(taken@, i as int));
                if i > 0 {
                    assert(p@.len() > target@.len());
                }
            }
            return Some(p);
        }
        i += 1;
    }
    None
}

proof fn lemma_decimal_len(n: nat)
    ensures
        decimal(n).len() >= 1,
        n >= 10 ==> decimal(n).len() >= 2,
    decreases n,
{
    if n >= 10 {
        lemma_decimal_len(n / 10);
    }
}

/// Different numbers are written differently.
pub proof fn lemma_decimal_injective(a: nat, b: nat)
    requires
        decimal(a) == decimal(b),
    ensures
        a == b,
    decreases a,
{
    lemma_decimal_len(a);
    lemma_decimal_len(b);
    let digits = seq!['0', '1', '2', '3', '4', '5', '6', '7', '8', '9'];
    if a < 10 && b < 10 {
        assert(decimal(a)[0] == digits[a as int]);
        assert(decimal(b)[0] == digits[b as int]);
    } else if a >= 10 && b >= 10 {
        assert(decimal(a).drop_last() =~= decimal(a / 10));
        assert(decimal(b).drop_last() =~= decimal(b / 10));
        lemma_decimal_injective(a / 10, b / 10);
        assert(decimal(a).last() == digits[(a % 10) as int]);
        assert(decimal(b).last() == digits[(b % 10) as int]);
    }
}

/// Different counters give different names.
pub proof fn lemma_candidates_differ(target: Seq<char>, n: nat, m: nat)
    requires
        n != m,
    ensures
        candidate(target, n) != candidate(target, m),
{
    lemma_decimal_len(n);
    lemma_decimal_len(m);
    if n > 0 && m > 0 && candidate(target, n) == candidate(target, m) {
        let start = target.len() + 1;
        assert(candidate(target, n).subrange(start as int, candidate(target, n).len() as int)
            =~= decimal(n));
        assert(candidate(target, m).subrange(start as int, candidate(target, m).len() as int)
            =~= decimal(m));
        lemma_decimal_injective(n, m);
    }
}

/// Once the name picked for `target` is taken and the next candidate is
/// free, the next call picks that next candidate: the counter moves on by one.
pub proof fn lemma_next_counter(target: Seq<char>, taken: Seq<bool>, n: int, later: Seq<bool>)
    requires
        first_free(taken, n),
        later.len() > n + 1,
        forall|k: int| 0 <= k < n ==> later[k] == taken[k],
        later[n],
        !later[n + 1],
    ensures
        first_free(later, n + 1),
        candidate(target, (n + 1) as nat) == target + seq!['_'] + decimal((n + 1) as nat),
        candidate(target, (n + 1) as nat) != candidate(target, n as nat),
{
    lemma_candidates_differ(target, (n + 1) as nat, n as nat);
}

} // verus!
