use vstd::prelude::*;

use crate::text::{has_arg, is_lit, lemma_contains_push, views};

verus! {

pub struct CpOptions {
    pub recursive: bool,
    pub verbose: bool,
}

pub open spec fn is_cp_option(a: Seq<char>) -> bool {
    a == "-r"@ || a == "--recursive"@ || a == "-v"@ || a == "--verbose"@
}

/// The arguments that are not options, in order.
pub open spec fn cp_operands(args: Seq<Seq<char>>) -> Seq<Seq<char>>
    decreases args.len(),
{
    if args.len() == 0 {
        Seq::empty()
    } else if is_cp_option(args.last()) {
        cp_operands(args.drop_last())
    } else {
        cp_operands(args.drop_last()).push(args.last())
    }
}

/// Splits `cp`'s arguments into options, sources and destination: the last operand
/// is the destination and the others are the sources.
pub fn parse_arguments(arguments: &Vec<String>) -> (r: (CpOptions, Vec<String>, String))
    ensures
        r.0.recursive == (views(arguments@).contains("-r"@) || views(arguments@).contains(
            "--recursive"@,
        )),
        r.0.verbose == (views(arguments@).contains("-v"@) || views(arguments@).contains(
            "--verbose"@,
        )),
        ({
            let ops = cp_operands(views(arguments@));
            if ops.len() == 0 {
                r.1@.len() == 0 && r.2@ == Seq::<char>::empty()
            } else {
                views(r.1@) == ops.drop_last() && r.2@ == ops.last()
            }
        }),
{
    let ghost args = views(arguments@);
    let mut options = CpOptions { recursive: false, verbose: false };
    let mut sources: Vec<String> = Vec::new();
    let mut i: usize = 0;
    while i < arguments.len()
        invariant
            args == views(arguments@),
            i <= arguments.len(),
            views(sources@) == cp_operands(args.take(i as int)),
            options.recursive == (args.take(i as int).contains("-r"@) || args.take(i as int).contains(
                "--recursive"@,
            )),
            options.verbose == (args.take(i as int).contains("-v"@) || args.take(i as int).contains(
                "--verbose"@,
            )),
        decreases arguments.len() - i,
    {
        let a = &arguments[i];
        let ghost t = args.take(i + 1);
        assert(t.drop_last() =~= args.take(i as int));
        assert(t.last() == a@);
        proof {
            lemma_contains_push(args.take(i as int), a@);
            assert(t =~= args.take(i as int).push(a@));
        }
        proof {
            reveal_strlit("-r");
            reveal_strlit("--recursive");
            reveal_strlit("-v");
            reveal_strlit("--verbose");
            assert("-r"@[1] != "-v"@[1]);
            assert("--recursive"@[2] != "--verbose"@[2]);
            assert("-r"@.len() != "--verbose"@.len());
            assert("--recursive"@.len() != "-v"@.len());
        }
        if is_lit(a, "-r") || is_lit(a, "--recursive") {
            options.recursive = true;
        } else if is_lit(a, "-v") || is_lit(a, "--verbose") {
            options.verbose = true;
        } else {
            let ghost before = sources@;
            sources.push(a.clone());
            assert(views(sources@) =~= views(before).push(a@));
        }
        i = i + 1;
    }
    assert(args.take(arguments.len() as int) =~= args);
    let mut destination = String::new();
    if sources.len() > 0 {
        let ghost before = sources@;
        destination = sources.pop().unwrap();
        assert(views(sources@) =~= views(before).drop_last());
    }
    (options, sources, destination)
}

/// What `cp` does with its arguments.
pub enum CpPlan {
    Help,
    Version,
    /// Fewer than two arguments: print the usage line.
    Usage,
    /// Copy each source to the destination; with more than one source the
    /// destination must be a directory.
    Copy { options: CpOptions, sources: Vec<String>, destination: String, needs_directory: bool },
}

/// Decides what `cp` does: `--help` and `--version` come first, then at least two
/// arguments are needed.
pub fn cp_command(arguments: &Vec<String>) -> (r: CpPlan)
    ensures
        views(arguments@).contains("--help"@) ==> r is Help,
        !views(arguments@).contains("--help"@) && views(arguments@).contains("--version"@)
            ==> r is Version,
        !views(arguments@).contains("--help"@) && !views(arguments@).contains("--version"@) ==> (
        if arguments@.len() < 2 {
            r is Usage
        } else {
            r matches CpPlan::Copy { options, sources, destination, needs_directory } && {
                let ops = cp_operands(views(arguments@));
                &&& options.recursive == (views(arguments@).contains("-r"@) || views(
                    arguments@,
                ).contains("--recursive"@))
                &&& options.verbose == (views(arguments@).contains("-v"@) || views(
                    arguments@,
                ).contains("--verbose"@))
                &&& ops.len() == 0 ==> sources@.len() == 0 && destination@ == Seq::<char>::empty()
                &&& ops.len() > 0 ==> views(sources@) == ops.drop_last() && destination@
                    == ops.last()
                &&& needs_directory == (sources@.len() > 1)
            }
        }),
{
    if has_arg(arguments, "--help") {
        return CpPlan::Help;
    }
    if has_arg(arguments, "--version") {
        return CpPlan::Version;
    }
    if arguments.len() < 2 {
        return CpPlan::Usage;
    }
    let (options, sources, destination) = parse_arguments(arguments);
    let needs_directory = sources.len() > 1;
    CpPlan::Copy { options, sources, destination, needs_directory }
}

/// What `Path::file_name` gives for a path: its last component, if it has one.
pub uninterp spec fn path_file_name(p: Seq<char>) -> Option<Seq<char>>;

/// What `Path::join` gives on Unix for a base path and a further path: an absolute
/// `more` replaces `base`; otherwise `more` is added after `base`, with a `/`
/// between them unless `base` is empty or already ends in one.
pub open spec fn path_joined(base: Seq<char>, more: Seq<char>) -> Seq<char> {
    if more.len() > 0 && more[0] == '/' {
        more
    } else if base.len() == 0 || base.last() == '/' {
        base + more
    } else {
        base + seq!['/'] + more
    }
}

pub open spec fn opt_view(o: Option<String>) -> Option<Seq<char>> {
    match o {
        Some(s) => Some(s@),
        None => None,
    }
}

/// `Path::file_name` of `p`, as a string; its result is named by `path_file_name`.
#[verifier::external_body]
fn file_name_of(p: &str) -> (r: Option<String>)
    ensures
        opt_view(r) == path_file_name(p@),
{
    std::path::Path::new(p).file_name().map(|n| n.to_string_lossy().into_owned())
}

/// `Path::join` of `base` and `more`, as a string (lossless, both being valid
/// UTF-8), as `path_joined` states it.
#[verifier::external_body]
fn join_path(base: &str, more: &str) -> (r: String)
    ensures
        r@ == path_joined(base@, more@),
{
    std::path::Path::new(base).join(more).to_string_lossy().into_owned()
}

/// Where a file is copied to: into the destination, under the source's file name,
/// when the destination is a directory; otherwise the destination itself. `None`
/// when the destination is a directory and the source has no file name.
pub fn copy_target(source: &str, destination: &str, destination_is_dir: bool) -> (r: Option<String>)
    ensures
        destination_is_dir ==> opt_view(r) == match path_file_name(source@) {
            Some(n) => Some(path_joined(destination@, n)),
            None => None,
        },
        !destination_is_dir ==> opt_view(r) == Some(destination@),
{
    if destination_is_dir {
        match file_name_of(source) {
            Some(n) => Some(join_path(destination, n.as_str())),
            None => None,
        }
    } else {
        Some(String::from_str(destination))
    }
}

} // verus!
