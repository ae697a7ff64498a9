use vstd::prelude::*;

use crate::text::{has_arg, is_lit, lemma_contains_push, views};

verus! {

pub open spec fn is_mkdir_option(a: Seq<char>) -> bool {
    a == "-p"@ || a == "--parents"@ || a == "-v"@ || a == "--verbose"@
}

/// The arguments that are not options, in order.
pub open spec fn mkdir_operands(args: Seq<Seq<char>>) -> Seq<Seq<char>>
    decreases args.len(),
{
    if args.len() == 0 {
        Seq::empty()
    } else if is_mkdir_option(args.last()) {
        mkdir_operands(args.drop_last())
    } else {
        mkdir_operands(args.drop_last()).push(args.last())
    }
}

/// What `mkdir` does with its arguments.
pub enum MkdirPlan {
    Help,
    Version,
    Usage,
    /// Create each path; with `parents`, missing parents too and no error if it exists.
    Create { paths: Vec<String>, parents: bool, verbose: bool },
}

/// Decides what `mkdir` does: `--help` and `--version` come first, then at least one
/// argument is needed; `-p`/`--parents` and `-v`/`--verbose` are options and the
/// rest are the directories.
pub fn mkdir_command(arguments: &Vec<String>) -> (r: MkdirPlan)
    ensures
        views(arguments@).contains("--help"@) ==> r is Help,
        !views(arguments@).contains("--help"@) && views(arguments@).contains("--version"@)
            ==> r is Version,
        !views(arguments@).contains("--help"@) && !views(arguments@).contains("--version"@) ==> (
        if arguments@.len() == 0 {
            r is Usage
        } else {
            r matches MkdirPlan::Create { paths, parents, verbose } && views(paths@)
                == mkdir_operands(views(arguments@)) && parents == (views(arguments@).contains(
                "-p"@,
            ) || views(arguments@).contains("--parents"@)) && verbose == (views(
                arguments@,
            ).contains("-v"@) || views(arguments@).contains("--verbose"@))
        }),
{
    if has_arg(arguments, "--help") {
        return MkdirPlan::Help;
    }
    if has_arg(arguments, "--version") {
        return MkdirPlan::Version;
    }
    if arguments.len() == 0 {
        return MkdirPlan::Usage;
    }
    let ghost args = views(arguments@);
    let mut paths: Vec<String> = Vec::new();
    let mut parents = false;
    let mut verbose = false;
    let mut i: usize = 0;
    while i < arguments.len()
        invariant
            args == views(arguments@),
            i <= arguments.len(),
            views(paths@) == mkdir_operands(args.take(i as int)),
            parents == (args.take(i as int).contains("-p"@) || args.take(i as int).contains(
                "--parents"@,
            )),
            verbose == (args.take(i as int).contains("-v"@) || args.take(i as int).contains(
                "--verbose"@,
            )),
        decreases arguments.len() - i,
    {
        let a = &arguments[i];
        let ghost t = args.take(i + 1);
        assert(t.drop_last() =~= args.take(i as int));
        assert(t.last() == a@);
        proof {
            lemma_contains_push(args.take(i as int), a@);
            assert(t =~= args.take(i as int).push(a@));
        }
        proof {
            reveal_strlit("-p");
            reveal_strlit("--parents");
            reveal_strlit("-v");
            reveal_strlit("--verbose");
            assert("-p"@[1] != "-v"@[1]);
            assert("--parents"@[2] != "--verbose"@[2]);
            assert("-p"@.len() != "--verbose"@.len());
            assert("--parents"@.len() != "-v"@.len());
        }
        if is_lit(a, "-p") || is_lit(a, "--parents") {
            parents = true;
        } else if is_lit(a, "-v") || is_lit(a, "--verbose") {
            verbose = true;
        } else {
            let ghost before = paths@;
            paths.push(a.clone());
            assert(views(paths@) =~= views(before).push(a@));
        }
        i = i + 1;
    }
    assert(args.take(arguments.len() as int) =~= args);
    MkdirPlan::Create { paths, parents, verbose }
}

} // verus!
