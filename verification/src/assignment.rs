//! Variable assignments and their exhaustive enumeration by binary counting.

use vstd::arithmetic::div_mod::{lemma_div_denominator, lemma_fundamental_div_mod};
use vstd::arithmetic::power2::{lemma2_to64, lemma_pow2_pos, lemma_pow2_unfold, pow2};
use vstd::bits::{lemma_usize_pow2_no_overflow, lemma_usize_shl_is_mul, lemma_usize_shr_is_div};
use vstd::prelude::*;

verus! {

/// The value the first entry for `p` carries, or `None` when no entry
/// names `p`.
pub open spec fn lookup(entries: Seq<(char, bool)>, p: char) -> Option<bool>
    decreases entries.len(),
{
    if entries.len() == 0 {
        None
    } else if entries[0].0 == p {
        Some(entries[0].1)
    } else {
        lookup(entries.drop_first(), p)
    }
}

/// Bit `i` of `n` in the binary counting order: the low bit is bit 0.
pub open spec fn bit_of(n: nat, i: nat) -> bool {
    (n / pow2(i)) % 2 == 1
}

/// The entry list of assignment number `n` over `variables`: the variable
/// at position `i` is paired with bit `i` of `n`.
pub open spec fn assignment_of(variables: Seq<char>, n: nat) -> Seq<(char, bool)> {
    Seq::new(variables.len(), |i: int| (variables[i], bit_of(n, i as nat)))
}

/// The truth values an entry list carries, in entry order.
pub open spec fn values_of(entries: Seq<(char, bool)>) -> Seq<bool> {
    entries.map_values(|e: (char, bool)| e.1)
}

/// One point of the boolean hypercube: each variable in scope paired with
/// a truth value, built fresh for every row of the table and read only.
///
/// Lookup is strict: consulting the map for an identifier it does not
/// contain is a contract violation, not a silent `false`.
#[derive(Debug)]
pub struct VariableMap {
    vstates: Vec<(char, bool)>,
}

impl View for VariableMap {
    type V = Seq<(char, bool)>;

    closed spec fn view(&self) -> Seq<(char, bool)> {
        self.vstates@
    }
}

impl VariableMap {
    /// Builds assignment number `n` over `variables`: the variable at
    /// position `i` is set to true iff bit `i` of `n` is set.
    pub fn from_binary(variables: &[char], n: usize) -> (m: VariableMap)
        requires
            variables@.len() <= usize::BITS,
        ensures
            m@ == assignment_of(variables@, n as nat),
    {
        let mut vstates: Vec<(char, bool)> = Vec::new();
        let mut i: usize = 0;
        while i < variables.len()
            invariant
                i <= variables@.len(),
                variables@.len() <= usize::BITS,
                vstates@.len() == i,
                forall|j: int|
                    0 <= j < i ==> vstates@[j] == (variables@[j], bit_of(n as nat, j as nat)),
            decreases variables@.len() - i,
        {
            let set = ((n >> i) & 1) == 1;
            proof {
                lemma_usize_shr_is_div(n, i);
                assert((n >> i) & 1 == (n >> i) % 2) by (bit_vector);
                assert(set == bit_of(n as nat, i as nat));
            }
            vstates.push((variables[i], set));
            i = i + 1;
        }
        let m = VariableMap { vstates };
        proof {
            assert(m@ =~= assignment_of(variables@, n as nat));
        }
        m
    }

    /// Builds every assignment over `variables`, for `n` from 0 to
    /// 2^k - 1 inclusive in ascending order; this is the row order of the
    /// truth table.
    pub fn all(variables: &[char]) -> (maps: Vec<VariableMap>)
        requires
            variables@.len() < usize::BITS,
        ensures
            maps@.len() == pow2(variables@.len()),
            forall|n: int|
                0 <= n < maps@.len() ==> #[trigger] maps@[n]@ == assignment_of(
                    variables@,
                    n as nat,
                ),
    {
        let count: usize = 1usize << variables.len();
        proof {
            lemma_usize_pow2_no_overflow(variables@.len());
            lemma_usize_shl_is_mul(1usize, variables@.len() as usize);
        }
        let mut maps: Vec<VariableMap> = Vec::new();
        let mut n: usize = 0;
        while n < count
            invariant
                variables@.len() <= usize::BITS,
                count == pow2(variables@.len()),
                n <= count,
                maps@.len() == n,
                forall|k: int|
                    0 <= k < n ==> #[trigger] maps@[k]@ == assignment_of(variables@, k as nat),
            decreases count - n,
        {
            maps.push(Self::from_binary(variables, n));
            n = n + 1;
        }
        maps
    }

    /// Reports whether `p` is bound in this map.
    pub fn contains(&self, p: char) -> (b: bool)
        ensures
            b == (lookup(self@, p) is Some),
    {
        proof {
            assert(self@.skip(0) =~= self@);
        }
        let mut i: usize = 0;
        while i < self.vstates.len()
            invariant
                i <= self@.len(),
                lookup(self@, p) == lookup(self@.skip(i as int), p),
            decreases self@.len() - i,
        {
            let (var, _) = self.vstates[i];
            if var == p {
                proof {
                    assert(self@.skip(i as int)[0] == self@[i as int]);
                }
                return true;
            }
            proof {
                assert(self@.skip(i as int).drop_first() =~= self@.skip(i as int + 1));
            }
            i = i + 1;
        }
        proof {
            assert(self@.skip(self@.len() as int).len() == 0);
        }
        false
    }

    /// Reads the value assigned to `p`; `p` must be bound in this map.
    pub fn check(&self, p: char) -> (r: bool)
        requires
            lookup(self@, p) is Some,
        ensures
            Some(r) == lookup(self@, p),
    {
        proof {
            assert(self@.skip(0) =~= self@);
        }
        let mut i: usize = 0;
        while i < self.vstates.len()
            invariant
                i <= self@.len(),
                lookup(self@, p) is Some,
                lookup(self@, p) == lookup(self@.skip(i as int), p),
            decreases self@.len() - i,
        {
            let (var, state) = self.vstates[i];
            if var == p {
                proof {
                    assert(self@.skip(i as int)[0] == self@[i as int]);
                }
                return state;
            }
            proof {
                assert(self@.skip(i as int).drop_first() =~= self@.skip(i as int + 1));
            }
            i = i + 1;
        }
        proof {
            assert(self@.skip(self@.len() as int).len() == 0);
            assert(false);
        }
        false
    }
}

/// Shifting a number one bit right shifts its bit positions down by one.
proof fn lemma_bit_shift(n: nat, i: nat)
    ensures
        bit_of(n, i + 1) == bit_of(n / 2, i),
{
    lemma_pow2_pos(i);
    lemma_pow2_unfold(i + 1);
    lemma_div_denominator(n as int, 2, pow2(i) as int);
}

/// Two numbers below 2^k that agree on bits 0 through k - 1 are equal.
proof fn lemma_bits_injective(k: nat, n1: nat, n2: nat)
    requires
        n1 < pow2(k),
        n2 < pow2(k),
        forall|i: nat| i < k ==> #[trigger] bit_of(n1, i) == bit_of(n2, i),
    ensures
        n1 == n2,
    decreases k,
{
    lemma2_to64();
    if k == 0 {
        assert(pow2(0) == 1);
    } else {
        lemma_pow2_unfold(k);
        assert(bit_of(n1, 0) == bit_of(n2, 0));
        assert(n1 % 2 == n2 % 2) by {
            assert(pow2(0) == 1);
            assert(n1 / 1 == n1 && n2 / 1 == n2);
        }
        assert forall|i: nat| i < (k - 1) as nat implies #[trigger] bit_of(n1 / 2, i)
            == bit_of(n2 / 2, i) by {
            lemma_bit_shift(n1, i);
            lemma_bit_shift(n2, i);
            assert(bit_of(n1, i + 1) == bit_of(n2, i + 1));
        }
        assert(n1 / 2 < pow2((k - 1) as nat) && n2 / 2 < pow2((k - 1) as nat));
        lemma_bits_injective((k - 1) as nat, n1 / 2, n2 / 2);
        lemma_fundamental_div_mod(n1 as int, 2);
        lemma_fundamental_div_mod(n2 as int, 2);
    }
}

/// Every pattern of truth values is the bit pattern of some number below
/// 2^k; the returned witness is that number.
proof fn lemma_bits_cover(p: Seq<bool>) -> (n: nat)
    ensures
        n < pow2(p.len()),
        forall|i: nat| i < p.len() ==> #[trigger] bit_of(n, i) == p[i as int],
    decreases p.len(),
{
    lemma2_to64();
    if p.len() == 0 {
        assert(pow2(0) == 1);
        0
    } else {
        let m = lemma_bits_cover(p.drop_first());
        let n: nat = if p[0] {
            2 * m + 1
        } else {
            2 * m
        };
        lemma_pow2_unfold(p.len());
        assert(n < pow2(p.len()));
        assert(pow2(0) == 1);
        assert(bit_of(n, 0) == p[0]) by {
            assert(n / 1 == n);
            assert(n % 2 == if p[0] { 1nat } else { 0nat });
        }
        assert forall|i: nat| i < p.len() implies #[trigger] bit_of(n, i) == p[i as int] by {
            if i > 0 {
                lemma_bit_shift(n, (i - 1) as nat);
                assert(n / 2 == m);
                assert(bit_of(m, (i - 1) as nat) == p.drop_first()[i - 1]);
            }
        }
        n
    }
}

/// Law: binary counting walks the hypercube exactly once. Distinct numbers
/// below 2^k give distinct assignments over the same variables, and every
/// pattern of truth values over the variables is reached by some number
/// below 2^k.
pub proof fn lemma_all_covers_hypercube(variables: Seq<char>)
    ensures
        forall|n1: nat, n2: nat|
            n1 < pow2(variables.len()) && n2 < pow2(variables.len()) && n1 != n2
                ==> assignment_of(variables, n1) != assignment_of(variables, n2),
        forall|p: Seq<bool>|
            p.len() == variables.len() ==> exists|n: nat|
                n < pow2(variables.len()) && #[trigger] values_of(assignment_of(variables, n))
                    == p,
{
    let k = variables.len();
    assert forall|n1: nat, n2: nat|
        n1 < pow2(k) && n2 < pow2(k) && n1 != n2 implies assignment_of(variables, n1)
        != assignment_of(variables, n2) by {
        if assignment_of(variables, n1) == assignment_of(variables, n2) {
            assert forall|i: nat| i < k implies #[trigger] bit_of(n1, i) == bit_of(n2, i) by {
                assert(assignment_of(variables, n1)[i as int] == assignment_of(
                    variables,
                    n2,
                )[i as int]);
            }
            lemma_bits_injective(k, n1, n2);
        }
    }
    assert forall|p: Seq<bool>| p.len() == k implies exists|n: nat|
        n < pow2(k) && #[trigger] values_of(assignment_of(variables, n)) == p by {
        let n = lemma_bits_cover(p);
        assert(values_of(assignment_of(variables, n)) =~= p);
    }
}

} // verus!
