use vstd::prelude::*;

use crate::text::{has_arg, is_lit, lemma_contains_push, views};

verus! {

pub struct RmOptions {
    pub recursive: bool,
    pub verbose: bool,
}

pub open spec fn is_rm_option(a: Seq<char>) -> bool {
    a == "-r"@ || a == "--recursive"@ || a == "-v"@ || a == "--verbose"@
}

/// The arguments that are not options, in order.
pub open spec fn rm_operands(args: Seq<Seq<char>>) -> Seq<Seq<char>>
    decreases args.len(),
{
    if args.len() == 0 {
        Seq::empty()
    } else if is_rm_option(args.last()) {
        rm_operands(args.drop_last())
    } else {
        rm_operands(args.drop_last()).push(args.last())
    }
}

/// Splits `rm`'s arguments into options and the files to remove.
pub fn parse_arguments(arguments: &Vec<String>) -> (r: (RmOptions, Vec<String>))
    ensures
        r.0.recursive == (views(arguments@).contains("-r"@) || views(arguments@).contains(
            "--recursive"@,
        )),
        r.0.verbose == (views(arguments@).contains("-v"@) || views(arguments@).contains(
            "--verbose"@,
        )),
        views(r.1@) == rm_operands(views(arguments@)),
{
    let ghost args = views(arguments@);
    let mut options = RmOptions { recursive: false, verbose: false };
    let mut files: Vec<String> = Vec::new();
    let mut i: usize = 0;
    while i < arguments.len()
        invariant
            args == views(arguments@),
            i <= arguments.len(),
            views(files@) == rm_operands(args.take(i as int)),
            options.recursive == (args.take(i as int).contains("-r"@) || args.take(i as int).contains(
                "--recursive"@,
            )),
            options.verbose == (args.take(i as int).contains("-v"@) || args.take(i as int).contains(
                "--verbose"@,
            )),
        decreases arguments.len() - i,
    {
        let a = &arguments[i];
        let ghost t = args.take(i + 1);
        assert(t.drop_last() =~= args.take(i as int));
        assert(t.last() == a@);
        proof {
            lemma_contains_push(args.take(i as int), a@);
            assert(t =~= args.take(i as int).push(a@));
        }
        proof {
            reveal_strlit("-r");
            reveal_strlit("--recursive");
            reveal_strlit("-v");
            reveal_strlit("--verbose");
            assert("-r"@[1] != "-v"@[1]);
            assert("--recursive"@[2] != "--verbose"@[2]);
            assert("-r"@.len() != "--verbose"@.len());
            assert("--recursive"@.len() != "-v"@.len());
        }
        if is_lit(a, "-r") || is_lit(a, "--recursive") {
            options.recursive = true;
        } else if is_lit(a, "-v") || is_lit(a, "--verbose") {
            options.verbose = true;
        } else {
            let ghost before = files@;
            files.push(a.clone());
            assert(views(files@) =~= views(before).push(a@));
        }
        i = i + 1;
    }
    assert(args.take(arguments.len() as int) =~= args);
    (options, files)
}

/// What `rm` does with its arguments.
pub enum RmPlan {
    Help,
    Version,
    Usage,
    Remove { options: RmOptions, files: Vec<String> },
}

/// Decides what `rm` does: `--help` and `--version` come first, then at least one
/// argument is needed.
pub fn rm_command(arguments: &Vec<String>) -> (r: RmPlan)
    ensures
        views(arguments@).contains("--help"@) ==> r is Help,
        !views(arguments@).contains("--help"@) && views(arguments@).contains("--version"@)
            ==> r is Version,
        !views(arguments@).contains("--help"@) && !views(arguments@).contains("--version"@) ==> (
        if arguments@.len() < 1 {
            r is Usage
        } else {
            r matches RmPlan::Remove { options, files } && views(files@) == rm_operands(
                views(arguments@),
            ) && options.recursive == (views(arguments@).contains("-r"@) || views(
                arguments@,
            ).contains("--recursive"@)) && options.verbose == (views(arguments@).contains(
                "-v"@,
            ) || views(arguments@).contains("--verbose"@))
        }),
{
    if has_arg(arguments, "--help") {
        return RmPlan::Help;
    }
    if has_arg(arguments, "--version") {
        return RmPlan::Version;
    }
    if arguments.len() < 1 {
        return RmPlan::Usage;
    }
    let (options, files) = parse_arguments(arguments);
    RmPlan::Remove { options, files }
}

/// What removing one path amounts to.
#[derive(PartialEq, Eq, Structural, Debug, Clone, Copy)]
pub enum Removal {
    /// Remove the directory and everything in it.
    RemoveTree,
    /// Remove the file.
    RemoveFile,
    /// Refuse: the path is a directory and removal is not recursive.
    IsADirectory,
    /// The path is neither a file nor a directory: nothing is removed.
    Nothing,
}

/// Decides how a path is removed, from whether it is a file or a directory.
pub fn removal(recursive: bool, is_file: bool, is_dir: bool) -> (r: Removal)
    ensures
        r == if recursive && is_dir {
            Removal::RemoveTree
        } else if is_file {
            Removal::RemoveFile
        } else if is_dir {
            Removal::IsADirectory
        } else {
            Removal::Nothing
        },
{
    if recursive && is_dir {
        Removal::RemoveTree
    } else if is_file {
        Removal::RemoveFile
    } else if is_dir {
        Removal::IsADirectory
    } else {
        Removal::Nothing
    }
}

} // verus!
