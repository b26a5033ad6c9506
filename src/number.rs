use vstd::prelude::*;

verus! {

pub open spec fn is_digit(b: u8) -> bool {
    48 <= b <= 57
}

pub open spec fn all_digits(s: Seq<u8>) -> bool {
    forall|i: int| 0 <= i < s.len() ==> is_digit(s[i])
}

/// The number that a string of decimal digits spells, most significant first.
pub open spec fn decimal_value(s: Seq<u8>) -> nat
    decreases s.len(),
{
    if s.len() == 0 {
        0
    } else {
        decimal_value(s.drop_last()) * 10 + (s.last() - 48) as nat
    }
}

/// What a decimal numeral reads as, when it is one and its value does not exceed `limit`.
pub open spec fn decimal_within(s: Seq<u8>, limit: nat) -> Option<nat> {
    if s.len() > 0 && all_digits(s) && decimal_value(s) <= limit {
        Some(decimal_value(s))
    } else {
        None
    }
}

proof fn lemma_value_grows(s: Seq<u8>, i: int)
    requires
        0 <= i <= s.len(),
        all_digits(s),
    ensures
        decimal_value(s.take(i)) <= decimal_value(s),
    decreases s.len() - i,
{
    if i < s.len() {
        lemma_value_grows(s, i + 1);
        assert(s.take(i + 1).drop_last() =~= s.take(i));
    } else {
        assert(s.take(i) =~= s);
    }
}

/// Reads a decimal numeral of at most `limit`; anything else is refused.
pub fn parse_decimal(s: &[u8], limit: usize) -> (r: Option<usize>)
    ensures
        r matches Some(v) ==> decimal_within(s@, limit as nat) == Some(v as nat),
        r is None ==> decimal_within(s@, limit as nat) is None,
{
    if s.len() == 0 {
        return None;
    }
    let mut acc: usize = 0;
    let mut i: usize = 0;
    while i < s.len()
        invariant
            0 <= i <= s.len(),
            acc == decimal_value(s@.take(i as int)),
            acc <= limit,
            all_digits(s@.take(i as int)),
        decreases s.len() - i,
    {
        let b = s[i];
        assert(s@.take(i + 1).drop_last() =~= s@.take(i as int));
        if b < 48 || b > 57 {
            assert(!is_digit(s@[i as int]));
            return None;
        }
        let d: usize = (b - 48) as usize;
        if d > limit || acc > (limit - d) / 10 {
            proof {
                assert(all_digits(s@.take(i + 1)));
                if all_digits(s@) {
                    lemma_value_grows(s@, i + 1);
                }
            }
            return None;
        }
        acc = acc * 10 + d;
        i = i + 1;
        assert(all_digits(s@.take(i as int)));
    }
    assert(s@.take(i as int) =~= s@);
    Some(acc)
}

} // verus!
