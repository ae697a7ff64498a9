use vstd::prelude::*;

use crate::text::views;

verus! {

/// What `time` does with its arguments.
pub enum TimePlan {
    /// No command was given: print the usage line.
    Usage,
    /// Run `command` with `args` and report how long it took.
    Run { command: String, args: Vec<String> },
}

/// Decides what `time` runs: the first argument is the command, the rest its arguments.
pub fn time_command(arguments: &Vec<String>) -> (r: TimePlan)
    ensures
        arguments@.len() == 0 ==> r is Usage,
        arguments@.len() > 0 ==> (r matches TimePlan::Run { command, args } && command@
            == arguments@[0]@ && views(args@) == views(arguments@).skip(1)),
{
    if arguments.len() == 0 {
        return TimePlan::Usage;
    }
    let mut args: Vec<String> = Vec::new();
    let mut i: usize = 1;
    while i < arguments.len()
        invariant
            1 <= i <= arguments.len(),
            views(args@) == views(arguments@).subrange(1, i as int),
        decreases arguments.len() - i,
    {
        let ghost before = args@;
        args.push(arguments[i].clone());
        assert(views(args@) =~= views(before).push(arguments@[i as int]@));
        assert(views(args@) =~= views(arguments@).subrange(1, i + 1));
        i = i + 1;
    }
    assert(views(arguments@).subrange(1, arguments.len() as int) =~= views(arguments@).skip(1));
    TimePlan::Run { command: arguments[0].clone(), args }
}

} // verus!
