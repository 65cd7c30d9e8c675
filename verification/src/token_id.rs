//! Token identifiers: non-negative integers of arbitrary size.
//!
//! An identifier is held as its base-2^32 digits, least significant first,
//! with no zero digit at the top. Two identifiers are the same token exactly
//! when their digit sequences are equal.

use vstd::prelude::*;

verus! {

/// The number that a little-endian sequence of base-2^32 digits denotes.
pub open spec fn digits_value(d: Seq<u32>) -> nat
    decreases d.len(),
{
    if d.len() == 0 {
        0
    } else {
        (d[0] as nat) + 4294967296 * digits_value(d.drop_first())
    }
}

/// A digit sequence is normal when it does not end in a zero digit.
pub open spec fn digits_normal(d: Seq<u32>) -> bool {
    d.len() == 0 || d.last() != 0
}

/// The normal digit sequence of a number below 2^64.
pub open spec fn digits_of_u64(value: u64) -> Seq<u32> {
    if value == 0 {
        Seq::empty()
    } else if value < 4294967296 {
        seq![value as u32]
    } else {
        seq![(value % 4294967296) as u32, (value / 4294967296) as u32]
    }
}

/// Appending a zero digit does not change the number denoted.
pub proof fn lemma_value_push_zero(d: Seq<u32>)
    ensures
        digits_value(d.push(0u32)) == digits_value(d),
    decreases d.len(),
{
    if d.len() == 0 {
        assert(d.push(0u32).drop_first() =~= Seq::<u32>::empty());
        assert(digits_value(d.push(0u32).drop_first()) == 0);
    } else {
        lemma_value_push_zero(d.drop_first());
        assert(d.push(0u32).drop_first() =~= d.drop_first().push(0u32));
    }
}

/// A non-empty normal digit sequence denotes a positive number.
pub proof fn lemma_normal_positive(d: Seq<u32>)
    requires
        d.len() > 0,
        digits_normal(d),
    ensures
        digits_value(d) > 0,
    decreases d.len(),
{
    if d.len() > 1 {
        let rest = d.drop_first();
        assert(rest.last() == d.last());
        lemma_normal_positive(rest);
    }
}

/// A normal digit sequence of three or more digits denotes at least 2^64.
pub proof fn lemma_long_value(d: Seq<u32>)
    requires
        d.len() >= 3,
        digits_normal(d),
    ensures
        digits_value(d) >= 18446744073709551616,
    decreases d.len(),
{
    let r1 = d.drop_first();
    let r2 = r1.drop_first();
    assert(r1.last() == d.last());
    assert(r2.last() == d.last());
    lemma_normal_positive(r2);
    assert(digits_value(r1) == (r1[0] as nat) + 4294967296 * digits_value(r2));
    assert(digits_value(d) == (d[0] as nat) + 4294967296 * digits_value(r1));
}

/// Normal digit sequences that denote the same number are equal: the digits
/// of an identifier are a canonical form of its value.
pub proof fn lemma_value_injective(a: Seq<u32>, b: Seq<u32>)
    requires
        digits_normal(a),
        digits_normal(b),
        digits_value(a) == digits_value(b),
    ensures
        a == b,
    decreases a.len(),
{
    if a.len() == 0 {
        if b.len() > 0 {
            lemma_normal_positive(b);
        }
        assert(a =~= b);
    } else if b.len() == 0 {
        lemma_normal_positive(a);
    } else {
        let ra = a.drop_first();
        let rb = b.drop_first();
        let va = digits_value(ra);
        let vb = digits_value(rb);
        assert(digits_value(a) == (a[0] as nat) + 4294967296 * va);
        assert(digits_value(b) == (b[0] as nat) + 4294967296 * vb);
        assert(a[0] == b[0] && va == vb);
        assert(digits_normal(ra)) by {
            if ra.len() > 0 {
                assert(ra.last() == a.last());
            }
        }
        assert(digits_normal(rb)) by {
            if rb.len() > 0 {
                assert(rb.last() == b.last());
            }
        }
        lemma_value_injective(ra, rb);
        assert(a =~= seq![a[0]] + ra);
        assert(b =~= seq![b[0]] + rb);
    }
}

/// The digits chosen for a machine integer denote that integer.
pub proof fn lemma_digits_of_u64(value: u64)
    ensures
        digits_normal(digits_of_u64(value)),
        digits_value(digits_of_u64(value)) == value,
{
    let d = digits_of_u64(value);
    if value == 0 {
    } else if value < 4294967296 {
        assert(d.drop_first() =~= Seq::<u32>::empty());
        assert(digits_value(d) == (d[0] as nat) + 4294967296 * digits_value(d.drop_first()));
    } else {
        let r1 = d.drop_first();
        assert(r1 =~= seq![(value / 4294967296) as u32]);
        assert(r1.drop_first() =~= Seq::<u32>::empty());
        assert(digits_value(r1) == (r1[0] as nat) + 4294967296 * digits_value(r1.drop_first()));
        assert(digits_value(d) == (d[0] as nat) + 4294967296 * digits_value(r1));
    }
}

/// The identifiers in a list of tokens.
pub open spec fn ids_view(tokens: Seq<TokenId>) -> Seq<Seq<u32>> {
    tokens.map_values(|t: TokenId| t@)
}

/// Identifier of a token within one collection.
#[derive(Debug)]
pub struct TokenId {
    digits: Vec<u32>,
}

impl View for TokenId {
    type V = Seq<u32>;

    closed spec fn view(&self) -> Seq<u32> {
        self.digits@
    }
}

impl TokenId {
    /// The number this identifier stands for.
    pub open spec fn value(&self) -> nat {
        digits_value(self@)
    }

    /// Whether the digits are in normal form.
    pub open spec fn wf(&self) -> bool {
        digits_normal(self@)
    }

    /// The identifier of a machine integer.
    pub fn from_u64(value: u64) -> (id: TokenId)
        ensures
            id.wf(),
            id.value() == value,
            id@ == digits_of_u64(value),
    {
        let mut digits: Vec<u32> = Vec::new();
        if value != 0 {
            if value < 4294967296 {
                digits.push(value as u32);
            } else {
                digits.push((value % 4294967296) as u32);
                digits.push((value / 4294967296) as u32);
            }
        }
        proof {
            lemma_digits_of_u64(value);
            assert(digits@ =~= digits_of_u64(value));
        }
        TokenId { digits }
    }

    /// The identifier that a digit sequence denotes. Zero digits at the top
    /// are dropped, so the result is in normal form.
    pub fn from_digits(digits: Vec<u32>) -> (id: TokenId)
        ensures
            id.wf(),
            id.value() == digits_value(digits@),
            digits_normal(digits@) ==> id@ == digits@,
    {
        let ghost given = digits@;
        let mut digits = digits;
        while digits.len() > 0 && digits[digits.len() - 1] == 0
            invariant
                digits_value(digits@) == digits_value(given),
                digits_normal(given) ==> digits@ == given,
            decreases digits.len(),
        {
            let ghost before = digits@;
            digits.pop();
            proof {
                assert(before =~= digits@.push(0u32));
                lemma_value_push_zero(digits@);
            }
        }
        TokenId { digits }
    }

    /// The digits of the identifier, least significant first.
    pub fn digits(&self) -> (d: &Vec<u32>)
        ensures
            d@ == self@,
    {
        &self.digits
    }

    /// The identifier as a machine integer, where it fits.
    pub fn to_u64(&self) -> (r: Option<u64>)
        requires
            self.wf(),
        ensures
            r is Some <==> self.value() <= u64::MAX,
            r matches Some(v) ==> v == self.value(),
    {
        let n: usize = self.digits.len();
        let ghost d = self.digits@;
        if n == 0 {
            Some(0)
        } else if n == 1 {
            proof {
                assert(d.drop_first() =~= Seq::<u32>::empty());
                assert(digits_value(d) == (d[0] as nat) + 4294967296 * digits_value(
                    d.drop_first(),
                ));
            }
            Some(self.digits[0] as u64)
        } else if n == 2 {
            proof {
                let r1 = d.drop_first();
                assert(r1.drop_first() =~= Seq::<u32>::empty());
                assert(digits_value(r1) == (r1[0] as nat) + 4294967296 * digits_value(
                    r1.drop_first(),
                ));
                assert(digits_value(d) == (d[0] as nat) + 4294967296 * digits_value(r1));
            }
            let low: u64 = self.digits[0] as u64;
            let high: u64 = self.digits[1] as u64;
            Some(high * 4294967296 + low)
        } else {
            proof {
                lemma_long_value(d);
            }
            None
        }
    }
}

impl Clone for TokenId {
    fn clone(&self) -> (id: TokenId)
        ensures
            id@ == self@,
    {
        let digits = self.digits.clone();
        proof {
            assert(digits@ =~= self.digits@);
        }
        TokenId { digits }
    }
}

impl PartialEq for TokenId {
    fn eq(&self, other: &TokenId) -> (r: bool) {
        let r = self.digits == other.digits;
        proof {
            if r {
                assert(self.digits@ =~= other.digits@);
            }
        }
        r
    }
}

impl vstd::std_specs::cmp::PartialEqSpecImpl for TokenId {
    open spec fn obeys_eq_spec() -> bool {
        true
    }

    open spec fn eq_spec(&self, other: &TokenId) -> bool {
        self@ == other@
    }
}

impl Eq for TokenId {}

} // verus!
