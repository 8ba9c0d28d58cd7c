//! Lengths of time as people read them.

use crate::text::{decimal, push_decimal};
use vstd::prelude::*;

verus! {

/// The seconds of each unit, longest first: a year is fifty-two weeks.
pub open spec fn unit_seconds(c: int) -> int {
    if c == 0 {
        31449600
    } else if c == 1 {
        604800
    } else if c == 2 {
        86400
    } else if c == 3 {
        3600
    } else if c == 4 {
        60
    } else {
        1
    }
}

/// The letter of each unit, longest first.
pub open spec fn unit_letter(c: int) -> char {
    if c == 0 {
        'y'
    } else if c == 1 {
        'w'
    } else if c == 2 {
        'd'
    } else if c == 3 {
        'h'
    } else if c == 4 {
        'm'
    } else {
        's'
    }
}

/// The longest unit that fits into the length of time at least once.
pub open spec fn longest_unit(secs: int) -> int {
    if secs >= 31449600 {
        0
    } else if secs >= 604800 {
        1
    } else if secs >= 86400 {
        2
    } else if secs >= 3600 {
        3
    } else if secs >= 60 {
        4
    } else {
        5
    }
}

/// How often the longest unit fits.
pub open spec fn first_count(secs: int) -> int {
    secs / unit_seconds(longest_unit(secs))
}

/// What the longest unit leaves.
pub open spec fn first_rest(secs: int) -> int {
    secs % unit_seconds(longest_unit(secs))
}

/// How often the next shorter unit fits into what the longest one leaves.
pub open spec fn second_count(secs: int) -> int {
    first_rest(secs) / unit_seconds(longest_unit(secs) + 1)
}

/// A length of time in its longest unit and, if that leaves a rest, in the
/// next shorter unit, which may come out as zero.
pub open spec fn duration_text(secs: int) -> Seq<char> {
    let c = longest_unit(secs);
    let first = decimal(first_count(secs) as nat).push(unit_letter(c));
    if secs == 0 {
        seq!['0', 's']
    } else if first_rest(secs) == 0 {
        first
    } else {
        first.push(' ') + decimal(second_count(secs) as nat).push(unit_letter(c + 1))
    }
}

/// Writes a length of time in its two longest units.
pub fn duration_from(secs: u64) -> (result: String)
    ensures
        result@ == duration_text(secs as int),
{
    let mut result = String::new();
    if secs == 0 {
        result.push('0');
        result.push('s');
        return result;
    }
    let delta: [u64; 6] = [31449600, 604800, 86400, 3600, 60, 1];
    let unit: [char; 6] = ['y', 'w', 'd', 'h', 'm', 's'];
    let mut c: usize = 0;
    while secs < delta[c as usize]
        invariant
            secs > 0,
            0 <= c <= longest_unit(secs as int),
            delta@ == seq![31449600u64, 604800u64, 86400u64, 3600u64, 60u64, 1u64],
        decreases 6 - c,
    {
        c = c + 1;
    }
    assert(c == longest_unit(secs as int));
    push_decimal(&mut result, secs / delta[c]);
    result.push(unit[c]);
    let rest: u64 = secs % delta[c];
    if rest != 0 {
        result.push(' ');
        push_decimal(&mut result, rest / delta[c + 1]);
        result.push(unit[c + 1]);
    }
    result
}

proof fn lemma_count(x: int, unit: int)
    requires
        x >= 0,
        unit > 0,
    ensures
        x / unit * unit + x % unit == x,
        0 <= x % unit < unit,
        x >= unit ==> x / unit >= 1,
{
    assert(x / unit * unit + x % unit == x && 0 <= x % unit < unit && (x >= unit ==> x / unit >= 1))
        by (nonlinear_arith)
        requires
            x >= 0,
            unit > 0,
    ;
}

/// The two counts never say more than the length of time, and less by no more
/// than the shorter unit; without a rest the first count says it exactly. The
/// first count is at least one, and the second never makes up a longer unit.
pub proof fn duration_is_rounded_down(secs: u64)
    requires
        secs > 0,
    ensures
        ({
            let c = longest_unit(secs as int);
            let first = first_count(secs as int) * unit_seconds(c);
            let second = second_count(secs as int) * unit_seconds(c + 1);
            &&& first_count(secs as int) >= 1
            &&& first + second <= secs < first + second + unit_seconds(c + 1)
            &&& first_rest(secs as int) == 0 ==> first == secs
            &&& second < unit_seconds(c)
        }),
{
    let c = longest_unit(secs as int);
    lemma_count(secs as int, unit_seconds(c));
    lemma_count(first_rest(secs as int), unit_seconds(c + 1));
}

/// Below a year, the first count never makes up the next longer unit.
pub proof fn duration_uses_the_longest_unit(secs: u64)
    requires
        0 < secs < 31449600,
    ensures
        ({
            let c = longest_unit(secs as int);
            c > 0 && first_count(secs as int) * unit_seconds(c) < unit_seconds(c - 1)
        }),
{
    lemma_count(secs as int, unit_seconds(longest_unit(secs as int)));
}

} // verus!
