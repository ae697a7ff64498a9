use vstd::prelude::*;
use vstd::utf8::{encode_utf8, is_char_boundary};

use crate::text::{
    chars_of, has_arg, is_alphabetic, parse_unsigned, parse_unsigned_exec, subrange_exec,
    unicode_alphabetic, views,
};

verus! {

/// The index of the first alphabetic character of `s`.
pub open spec fn first_alphabetic(s: Seq<char>) -> Option<int>
    decreases s.len(),
{
    if s.len() == 0 {
        None
    } else if unicode_alphabetic(s[0]) {
        Some(0)
    } else {
        match first_alphabetic(s.skip(1)) {
            Some(k) => Some(k + 1),
            None => None,
        }
    }
}

/// Seconds per unit: `s`, `m`, `h`, `d`; anything else counts as seconds.
pub open spec fn unit_seconds(u: Seq<char>) -> nat {
    if u == "s"@ {
        1
    } else if u == "m"@ {
        60
    } else if u == "h"@ {
        3600
    } else if u == "d"@ {
        86400
    } else {
        1
    }
}

/// The number of seconds a duration denotes: a number followed by a unit, or a
/// bare number of seconds; `None` when the number is not a valid `u64`.
pub open spec fn duration_seconds(s: Seq<char>) -> Option<nat> {
    match first_alphabetic(s) {
        Some(k) => match parse_unsigned(s.take(k), u64::MAX as nat) {
            Some(n) => Some(n * unit_seconds(s.skip(k))),
            None => None,
        },
        None => parse_unsigned(s, u64::MAX as nat),
    }
}

/// The duration can be read without failing: the split before the unit falls on a
/// character boundary of the text's bytes, and the number of seconds fits a `u64`.
pub open spec fn duration_readable(s: Seq<char>) -> bool {
    &&& first_alphabetic(s) matches Some(k) ==> is_char_boundary(encode_utf8(s), k)
    &&& duration_seconds(s) matches Some(d) ==> d <= u64::MAX
}

proof fn lemma_first_alphabetic_bound(s: Seq<char>)
    ensures
        first_alphabetic(s) matches Some(k) ==> 0 <= k < s.len() && unicode_alphabetic(s[k]),
    decreases s.len(),
{
    if s.len() > 0 && !unicode_alphabetic(s[0]) {
        lemma_first_alphabetic_bound(s.skip(1));
    }
}

/// The index of the first alphabetic character of `s`.
pub fn first_alphabetic_exec(s: &[char]) -> (r: Option<usize>)
    ensures
        r matches Some(k) ==> first_alphabetic(s@) == Some(k as int),
        r is None ==> first_alphabetic(s@) is None,
{
    let mut i: usize = 0;
    assert(s@.skip(0) =~= s@);
    while i < s.len()
        invariant
            i <= s.len(),
            first_alphabetic(s@) == match first_alphabetic(s@.skip(i as int)) {
                Some(k) => Some(k + i),
                None => None::<int>,
            },
        decreases s.len() - i,
    {
        assert(s@.skip(i as int)[0] == s@[i as int]);
        if is_alphabetic(s[i]) {
            return Some(i);
        }
        assert(s@.skip(i as int).skip(1) =~= s@.skip(i + 1));
        i = i + 1;
    }
    assert(s@.skip(i as int) =~= Seq::<char>::empty());
    None
}

fn unit_seconds_exec(u: &[char]) -> (r: u64)
    ensures
        r as nat == unit_seconds(u@),
{
    let us = crate::text::string_of(u);
    if us == String::from_str("s") {
        1
    } else if us == String::from_str("m") {
        60
    } else if us == String::from_str("h") {
        3600
    } else if us == String::from_str("d") {
        86400
    } else {
        1
    }
}

/// Whether the duration can be read without failing.
pub fn duration_readable_exec(s: &str) -> (r: bool)
    ensures
        r == duration_readable(s@),
{
    let v = chars_of(s);
    let seconds = duration_parts(v.as_slice());
    match first_alphabetic_exec(v.as_slice()) {
        Some(k) => {
            if !s.is_char_boundary(k) {
                return false;
            }
        },
        None => {},
    }
    match seconds {
        Some((n, unit)) => n.checked_mul(unit).is_some(),
        None => true,
    }
}

/// The number and the unit's seconds of a duration, before they are multiplied.
fn duration_parts(v: &[char]) -> (r: Option<(u64, u64)>)
    ensures
        r matches Some((n, u)) ==> duration_seconds(v@) == Some((n as nat) * (u as nat)),
        r is None ==> duration_seconds(v@) is None,
{
    match first_alphabetic_exec(v) {
        Some(k) => {
            proof {
                lemma_first_alphabetic_bound(v@);
            }
            let number = subrange_exec(v, 0, k);
            let unit = subrange_exec(v, k, v.len());
            assert(number@ =~= v@.take(k as int));
            assert(unit@ =~= v@.skip(k as int));
            match parse_unsigned_exec(number.as_slice(), u64::MAX) {
                Some(n) => Some((n, unit_seconds_exec(unit.as_slice()))),
                None => None,
            }
        },
        None => match parse_unsigned_exec(v, u64::MAX) {
            Some(n) => Some((n, 1)),
            None => None,
        },
    }
}

/// Reads a duration: a number of seconds, or a number followed by `s`, `m`, `h` or
/// `d`; `None` when the number is not valid (the caller reports it and sleeps for 0
/// seconds).
pub fn parse_duration(s: &str) -> (r: Option<u64>)
    requires
        duration_readable(s@),
    ensures
        r matches Some(d) ==> duration_seconds(s@) == Some(d as nat),
        r is None ==> duration_seconds(s@) is None,
{
    let v = chars_of(s);
    match duration_parts(v.as_slice()) {
        Some((n, unit)) => {
            assert((n as nat) * (unit as nat) <= u64::MAX);
            Some(n * unit)
        },
        None => None,
    }
}

/// What `sleep` does with its arguments.
pub enum SleepPlan {
    Help,
    Version,
    MissingOperand,
    /// Sleep for `seconds`; `invalid` when the duration could not be read, which is
    /// reported before sleeping for 0 seconds.
    Sleep { seconds: u64, invalid: bool },
}

/// Decides what `sleep` does: `--help` and `--version` come first, then the first
/// argument is the duration.
pub fn sleep_command(arguments: &Vec<String>) -> (r: SleepPlan)
    requires
        !views(arguments@).contains("--help"@) && !views(arguments@).contains("--version"@)
            && arguments@.len() > 0 ==> duration_readable(arguments@[0]@),
    ensures
        views(arguments@).contains("--help"@) ==> r is Help,
        !views(arguments@).contains("--help"@) && views(arguments@).contains("--version"@)
            ==> r is Version,
        !views(arguments@).contains("--help"@) && !views(arguments@).contains("--version"@) ==> (
        if arguments@.len() == 0 {
            r is MissingOperand
        } else {
            r matches SleepPlan::Sleep { seconds, invalid } && match duration_seconds(
                arguments@[0]@,
            ) {
                Some(d) => seconds == d && !invalid,
                None => seconds == 0 && invalid,
            }
        }),
{
    if has_arg(arguments, "--help") {
        return SleepPlan::Help;
    }
    if has_arg(arguments, "--version") {
        return SleepPlan::Version;
    }
    if arguments.len() == 0 {
        return SleepPlan::MissingOperand;
    }
    match parse_duration(arguments[0].as_str()) {
        Some(d) => SleepPlan::Sleep { seconds: d, invalid: false },
        None => SleepPlan::Sleep { seconds: 0, invalid: true },
    }
}

/// `sleep_command` where the duration can be read: `None` when the arguments ask
/// for neither help nor the version and the first one is a duration whose reading
/// would fail (`sleep` stops there).
pub fn sleep_plan_checked(arguments: &Vec<String>) -> (r: Option<SleepPlan>)
    ensures
        r is None <==> (!views(arguments@).contains("--help"@) && !views(arguments@).contains(
            "--version"@,
        ) && arguments@.len() > 0 && !duration_readable(arguments@[0]@)),
        views(arguments@).contains("--help"@) ==> r matches Some(SleepPlan::Help),
        !views(arguments@).contains("--help"@) && views(arguments@).contains("--version"@)
            ==> r matches Some(SleepPlan::Version),
        !views(arguments@).contains("--help"@) && !views(arguments@).contains("--version"@)
            && arguments@.len() == 0 ==> r matches Some(SleepPlan::MissingOperand),
        !views(arguments@).contains("--help"@) && !views(arguments@).contains("--version"@)
            && arguments@.len() > 0 && duration_readable(arguments@[0]@) ==> (r matches Some(
            SleepPlan::Sleep { seconds, invalid },
        ) && match duration_seconds(arguments@[0]@) {
            Some(d) => seconds == d && !invalid,
            None => seconds == 0 && invalid,
        }),
{
    if !has_arg(arguments, "--help") && !has_arg(arguments, "--version") && arguments.len() > 0
        && !duration_readable_exec(arguments[0].as_str()) {
        return None;
    }
    Some(sleep_command(arguments))
}

} // verus!
