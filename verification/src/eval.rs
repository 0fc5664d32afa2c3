//! Evaluation arithmetic: summing a sequence of rolls, removing the die a
//! drop rule names, adding the modifier, and flooring the total at zero.

use vstd::prelude::*;
use crate::expr::DropRule;

verus! {

/// Sum of a sequence of rolls.
pub open spec fn sum_seq(s: Seq<u16>) -> int
    decreases s.len(),
{
    if s.len() == 0 {
        0
    } else {
        sum_seq(s.drop_last()) + s.last()
    }
}

/// The largest roll in the sequence; zero when it is empty.
pub open spec fn max_val(s: Seq<u16>) -> int
    decreases s.len(),
{
    if s.len() == 0 {
        0
    } else if s.len() == 1 {
        s[0] as int
    } else if s.last() as int > max_val(s.drop_last()) {
        s.last() as int
    } else {
        max_val(s.drop_last())
    }
}

/// The smallest roll in the sequence; zero when it is empty.
pub open spec fn min_val(s: Seq<u16>) -> int
    decreases s.len(),
{
    if s.len() == 0 {
        0
    } else if s.len() == 1 {
        s[0] as int
    } else if (s.last() as int) < min_val(s.drop_last()) {
        s.last() as int
    } else {
        min_val(s.drop_last())
    }
}

/// The amount a drop rule removes from the sum: one occurrence of the
/// largest or smallest roll, or nothing.
pub open spec fn drop_amount(s: Seq<u16>, rule: Option<DropRule>) -> int {
    match rule {
        Some(DropRule::High) => max_val(s),
        Some(DropRule::Low) => min_val(s),
        Option::<DropRule>::None => 0,
    }
}

/// The total of an evaluation: the sum after the drop, plus the modifier,
/// unless the modifier would bring it to zero or below, in which case the
/// total is zero.
pub open spec fn total_spec(s: Seq<u16>, modifier: int, rule: Option<DropRule>) -> int {
    let after = sum_seq(s) - drop_amount(s, rule);
    if -modifier < after {
        after + modifier
    } else {
        0
    }
}

/// A sum of rolls lies between zero and the count times any bound on the
/// rolls.
pub proof fn lemma_sum_bounds(s: Seq<u16>, b: int)
    requires
        forall|i: int| 0 <= i < s.len() ==> s[i] as int <= b,
    ensures
        0 <= sum_seq(s),
        sum_seq(s) <= s.len() * b,
    decreases s.len(),
{
    if s.len() == 0 {
    } else {
        let shorter = s.drop_last();
        assert(forall|i: int| 0 <= i < shorter.len() ==> shorter[i] as int <= b);
        lemma_sum_bounds(shorter, b);
        assert(s.len() * b == shorter.len() * b + b) by (nonlinear_arith)
            requires s.len() == shorter.len() + 1;
    }
}

/// In a nonempty sequence the extremes are rolls themselves: non-negative
/// and no larger than the whole sum.
pub proof fn lemma_extremes(s: Seq<u16>)
    requires
        s.len() >= 1,
    ensures
        0 <= min_val(s),
        min_val(s) <= max_val(s),
        max_val(s) <= sum_seq(s),
    decreases s.len(),
{
    if s.len() == 1 {
        assert(s.drop_last() =~= Seq::<u16>::empty());
        assert(sum_seq(Seq::<u16>::empty()) == 0);
    } else {
        lemma_extremes(s.drop_last());
        lemma_sum_bounds(s.drop_last(), 0xFFFF);
    }
}

/// The total is never negative: the floor at zero sees to it.
pub proof fn lemma_total_nonnegative(s: Seq<u16>, modifier: int, rule: Option<DropRule>)
    ensures
        total_spec(s, modifier, rule) >= 0,
{
}

/// With every roll at the minimum value 1, the total is the die count plus
/// the modifier, less one for a dropped die, floored at zero.
pub proof fn lemma_minimum_rolls(s: Seq<u16>, modifier: int, rule: Option<DropRule>)
    requires
        s.len() >= 1,
        forall|i: int| 0 <= i < s.len() ==> s[i] == 1u16,
    ensures
        total_spec(s, modifier, rule) == {
            let after = s.len() - (if rule is Some { 1int } else { 0int });
            if -modifier < after {
                after + modifier
            } else {
                0
            }
        },
{
    lemma_all_ones(s);
}

/// Sum and extremes of an all-ones sequence.
proof fn lemma_all_ones(s: Seq<u16>)
    requires
        s.len() >= 1,
        forall|i: int| 0 <= i < s.len() ==> s[i] == 1u16,
    ensures
        sum_seq(s) == s.len(),
        max_val(s) == 1,
        min_val(s) == 1,
    decreases s.len(),
{
    if s.len() == 1 {
        assert(s.drop_last() =~= Seq::<u16>::empty());
        assert(sum_seq(Seq::<u16>::empty()) == 0);
    } else {
        let shorter = s.drop_last();
        assert(forall|i: int| 0 <= i < shorter.len() ==> shorter[i] == 1u16);
        lemma_all_ones(shorter);
    }
}

/// The largest roll in a nonempty vector.
fn max_exec(v: &Vec<u16>) -> (m: u16)
    requires
        v@.len() >= 1,
    ensures
        m as int == max_val(v@),
{
    let n = v.len();
    let mut m = v[0];
    let mut i: usize = 1;
    proof {
        assert(v@.subrange(0, 1) =~= seq![v@[0]]);
    }
    while i < n
        invariant
            1 <= i <= n,
            n == v@.len(),
            m as int == max_val(v@.subrange(0, i as int)),
        decreases n - i,
    {
        proof {
            let prefix = v@.subrange(0, i as int);
            let extended = v@.subrange(0, i as int + 1);
            assert(extended.drop_last() =~= prefix);
            assert(extended.last() == v@[i as int]);
        }
        if v[i] > m {
            m = v[i];
        }
        i = i + 1;
    }
    proof {
        assert(v@.subrange(0, n as int) =~= v@);
    }
    m
}

/// The smallest roll in a nonempty vector.
fn min_exec(v: &Vec<u16>) -> (m: u16)
    requires
        v@.len() >= 1,
    ensures
        m as int == min_val(v@),
{
    let n = v.len();
    let mut m = v[0];
    let mut i: usize = 1;
    proof {
        assert(v@.subrange(0, 1) =~= seq![v@[0]]);
    }
    while i < n
        invariant
            1 <= i <= n,
            n == v@.len(),
            m as int == min_val(v@.subrange(0, i as int)),
        decreases n - i,
    {
        proof {
            let prefix = v@.subrange(0, i as int);
            let extended = v@.subrange(0, i as int + 1);
            assert(extended.drop_last() =~= prefix);
            assert(extended.last() == v@[i as int]);
        }
        if v[i] < m {
            m = v[i];
        }
        i = i + 1;
    }
    proof {
        assert(v@.subrange(0, n as int) =~= v@);
    }
    m
}

/// Applies the drop rule and the modifier to a finished sequence of rolls
/// and floors the result at zero.
pub fn tally(rolls: &Vec<u16>, modifier: i16, rule: Option<DropRule>) -> (t: u16)
    requires
        rule is Some ==> rolls@.len() >= 1,
        rolls@.len() <= 0xFFFF,
        total_spec(rolls@, modifier as int, rule) <= 0xFFFF,
    ensures
        t as int == total_spec(rolls@, modifier as int, rule),
{
    let n = rolls.len();
    let mut sum: u32 = 0;
    let mut i: usize = 0;
    proof {
        assert(rolls@.subrange(0, 0) =~= Seq::<u16>::empty());
    }
    while i < n
        invariant
            0 <= i <= n,
            n == rolls@.len() <= 0xFFFF,
            sum as int == sum_seq(rolls@.subrange(0, i as int)),
            sum as int <= i * 0xFFFF,
        decreases n - i,
    {
        proof {
            let prefix = rolls@.subrange(0, i as int);
            let extended = rolls@.subrange(0, i as int + 1);
            assert(extended.drop_last() =~= prefix);
            assert(extended.last() == rolls@[i as int]);
            assert((i + 1) * 0xFFFF == i * 0xFFFF + 0xFFFF) by (nonlinear_arith);
            assert(i * 0xFFFF <= 0xFFFE * 0xFFFF) by (nonlinear_arith)
                requires 0 <= i <= 0xFFFE;
        }
        sum = sum + rolls[i] as u32;
        i = i + 1;
    }
    proof {
        assert(rolls@.subrange(0, n as int) =~= rolls@);
    }
    let dropped: u32 = match rule {
        Some(DropRule::High) => {
            proof {
                lemma_extremes(rolls@);
            }
            max_exec(rolls) as u32
        },
        Some(DropRule::Low) => {
            proof {
                lemma_extremes(rolls@);
            }
            min_exec(rolls) as u32
        },
        Option::<DropRule>::None => 0,
    };
    assert(dropped as int == drop_amount(rolls@, rule));
    assert(dropped <= sum);
    let after = sum - dropped;
    let m = modifier as i64;
    if -m < after as i64 {
        let total = after as i64 + m;
        assert(total == total_spec(rolls@, modifier as int, rule));
        total as u16
    } else {
        assert(0 == total_spec(rolls@, modifier as int, rule));
        0
    }
}

} // verus!
