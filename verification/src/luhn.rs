//! The Luhn checksum of a run of decimal digits.
use vstd::prelude::*;

verus! {

/// What one digit adds to the checksum.
pub open spec fn luhn_term(digit: int, doubled: bool) -> int {
    if !doubled {
        digit
    } else if 2 * digit > 9 {
        2 * digit - 9
    } else {
        2 * digit
    }
}

/// The checksum of `digits`, whose last digit is doubled when `doubled` is
/// set; going left, every second digit is doubled.
pub open spec fn luhn_sum(digits: Seq<u8>, doubled: bool) -> int
    decreases digits.len(),
{
    if digits.len() == 0 {
        0
    } else {
        luhn_term(digits.last() as int, doubled) + luhn_sum(digits.drop_last(), !doubled)
    }
}

/// Whether every item is a decimal digit.
pub open spec fn all_digits(digits: Seq<u8>) -> bool {
    forall|k: int| 0 <= k < digits.len() ==> digits[k] < 10
}

/// Whether `digits` pass the Luhn check: there is a digit, each is below
/// ten, and the checksum that starts undoubled at the last digit is a
/// multiple of ten.
pub open spec fn luhn_valid(digits: Seq<u8>) -> bool {
    digits.len() > 0 && all_digits(digits) && luhn_sum(digits, false) % 10 == 0
}

proof fn lemma_reduce(sum: int, term: int, rest: int)
    requires
        0 <= sum,
        0 <= term,
    ensures
        ((sum + term) % 10 + rest) % 10 == (sum + (term + rest)) % 10,
{
}

/// Whether `digits` pass the Luhn check.
pub fn luhn_check(digits: &Vec<u8>) -> (res: bool)
    ensures
        res == luhn_valid(digits@),
{
    if digits.len() == 0 {
        return false;
    }
    let mut k: usize = 0;
    while k < digits.len()
        invariant
            k <= digits.len(),
            forall|j: int| 0 <= j < k ==> digits@[j] < 10,
        decreases digits.len() - k,
    {
        if digits[k] >= 10 {
            return false;
        }
        k += 1;
    }
    let mut sum: u64 = 0;
    let mut doubled = false;
    let mut i: usize = digits.len();
    proof {
        assert(digits@.subrange(0, digits@.len() as int) =~= digits@);
    }
    while i > 0
        invariant
            i <= digits.len(),
            sum < 10,
            (sum + luhn_sum(digits@.subrange(0, i as int), doubled)) % 10 == luhn_sum(
                digits@,
                false,
            ) % 10,
        decreases i,
    {
        let ghost head = digits@.subrange(0, i as int);
        i -= 1;
        let d: u64 = digits[i] as u64;
        assert(digits@[i as int] < 10);
        let term: u64 = if !doubled {
            d
        } else if 2 * d > 9 {
            2 * d - 9
        } else {
            2 * d
        };
        proof {
            assert(head.last() == digits@[i as int]);
            assert(head.drop_last() =~= digits@.subrange(0, i as int));
            assert(term == luhn_term(d as int, doubled));
            let rest = luhn_sum(digits@.subrange(0, i as int), !doubled);
            assert(luhn_sum(head, doubled) == term + rest);
            lemma_reduce(sum as int, term as int, rest);
        }
        sum = (sum + term) % 10;
        doubled = !doubled;
    }
    proof {
        assert(digits@.subrange(0, 0) =~= Seq::<u8>::empty());
    }
    sum == 0
}

} // verus!
