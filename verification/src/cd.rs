use vstd::prelude::*;

use crate::text::{has_arg, is_lit, views};

verus! {

/// How `cd` resolves the directory it was given.
#[derive(PartialEq, Eq, Structural, Debug, Clone, Copy)]
pub enum CdMode {
    /// `-L`: follow the symbolic link.
    FollowLink,
    /// `-P`: use the physical directory structure.
    Physical,
    /// `~`: go to the home directory.
    Home,
    /// Use the path as given.
    AsGiven,
}

/// What `cd` does with its arguments.
pub enum CdPlan {
    Help,
    Version,
    MissingDirectory,
    /// The home directory was asked for but is not known.
    NoHome { directory: String },
    /// Change to `target`, resolved by `mode`; with `check_exists`, only if it exists.
    /// `directory` is the directory operand, for messages.
    Change { directory: String, target: String, mode: CdMode, check_exists: bool },
}

/// Which resolution the arguments ask for: `-L` before `-P` before `~`.
pub open spec fn cd_mode(args: Seq<Seq<char>>) -> CdMode {
    if args.contains("-L"@) {
        CdMode::FollowLink
    } else if args.contains("-P"@) {
        CdMode::Physical
    } else if args.contains("~"@) {
        CdMode::Home
    } else {
        CdMode::AsGiven
    }
}

/// The user's home directory (`dirs::home_dir`, as a string). It depends on the
/// environment and the system's user database, so nothing is stated of it.
#[verifier::external_body]
fn home_directory() -> (r: Option<String>) {
    dirs::home_dir().map(|p| p.to_string_lossy().into_owned())
}

/// The options `cd` reads.
pub open spec fn is_cd_option(a: Seq<char>) -> bool {
    a == "-L"@ || a == "-P"@ || a == "-e"@ || a == "-@"@
}

/// The directory operand: the first argument that is not an option.
pub open spec fn cd_operand(args: Seq<Seq<char>>) -> Option<Seq<char>>
    decreases args.len(),
{
    if args.len() == 0 {
        None
    } else if is_cd_option(args[0]) {
        cd_operand(args.skip(1))
    } else {
        Some(args[0])
    }
}

/// The index of the directory operand.
fn cd_operand_exec(arguments: &Vec<String>) -> (r: Option<usize>)
    ensures
        match r {
            Some(i) => i < arguments@.len() && cd_operand(views(arguments@)) == Some(
                arguments@[i as int]@,
            ),
            None => cd_operand(views(arguments@)) is None,
        },
{
    let ghost args = views(arguments@);
    let mut i: usize = 0;
    assert(args.skip(0) =~= args);
    while i < arguments.len()
        invariant
            args == views(arguments@),
            i <= arguments.len(),
            cd_operand(args) == cd_operand(args.skip(i as int)),
        decreases arguments.len() - i,
    {
        assert(args.skip(i as int)[0] == arguments@[i as int]@);
        assert(args.skip(i as int).skip(1) =~= args.skip(i + 1));
        let a = &arguments[i];
        if !(is_lit(a, "-L") || is_lit(a, "-P") || is_lit(a, "-e") || is_lit(a, "-@")) {
            return Some(i);
        }
        i = i + 1;
    }
    assert(args.skip(i as int) =~= Seq::<Seq<char>>::empty());
    None
}

/// Decides what `cd` does, `home` being the user's home directory if known:
/// `--help` and `--version` come first; then the first argument that is not an
/// option names the directory, and `~` asks for the home directory.
pub fn cd_plan(arguments: &Vec<String>, home: Option<String>) -> (r: CdPlan)
    ensures
        views(arguments@).contains("--help"@) ==> r is Help,
        !views(arguments@).contains("--help"@) && views(arguments@).contains("--version"@)
            ==> r is Version,
        !views(arguments@).contains("--help"@) && !views(arguments@).contains("--version"@) ==> (
        match cd_operand(views(arguments@)) {
            None => r is MissingDirectory,
            Some(d) => if cd_mode(views(arguments@)) == CdMode::Home {
                match home {
                    Some(h) => r matches CdPlan::Change { directory, target, mode, check_exists }
                        && directory@ == d && target@ == h@ && mode == CdMode::Home
                        && check_exists == views(arguments@).contains("-e"@),
                    None => r matches CdPlan::NoHome { directory } && directory@ == d,
                }
            } else {
                r matches CdPlan::Change { directory, target, mode, check_exists } && directory@
                    == d && target@ == d && mode == cd_mode(views(arguments@)) && check_exists
                    == views(arguments@).contains("-e"@)
            },
        }),
{
    if has_arg(arguments, "--help") {
        return CdPlan::Help;
    }
    if has_arg(arguments, "--version") {
        return CdPlan::Version;
    }
    let k = match cd_operand_exec(arguments) {
        Some(k) => k,
        None => {
            return CdPlan::MissingDirectory;
        },
    };
    let directory = arguments[k].clone();
    let check_exists = has_arg(arguments, "-e");
    let mode = cd_mode_exec(arguments);
    if mode == CdMode::Home {
        match home {
            Some(h) => CdPlan::Change { directory, target: h, mode, check_exists },
            None => CdPlan::NoHome { directory },
        }
    } else {
        let target = directory.clone();
        CdPlan::Change { directory, target, mode, check_exists }
    }
}

fn cd_mode_exec(arguments: &Vec<String>) -> (m: CdMode)
    ensures
        m == cd_mode(views(arguments@)),
{
    if has_arg(arguments, "-L") {
        CdMode::FollowLink
    } else if has_arg(arguments, "-P") {
        CdMode::Physical
    } else if has_arg(arguments, "~") {
        CdMode::Home
    } else {
        CdMode::AsGiven
    }
}

/// Decides what `cd` does, looking the home directory up when `~` asks for it.
pub fn cd_command(arguments: &Vec<String>) -> (r: CdPlan)
    ensures
        views(arguments@).contains("--help"@) ==> r is Help,
        !views(arguments@).contains("--help"@) && views(arguments@).contains("--version"@)
            ==> r is Version,
        !views(arguments@).contains("--help"@) && !views(arguments@).contains("--version"@) ==> (
        match cd_operand(views(arguments@)) {
            None => r is MissingDirectory,
            Some(d) => if cd_mode(views(arguments@)) == CdMode::Home {
                (r matches CdPlan::NoHome { directory } && directory@ == d) || (
                r matches CdPlan::Change { directory, target, mode, check_exists } && directory@
                    == d && mode == CdMode::Home && check_exists == views(arguments@).contains(
                    "-e"@,
                ))
            } else {
                r matches CdPlan::Change { directory, target, mode, check_exists } && directory@
                    == d && target@ == d && mode == cd_mode(views(arguments@)) && check_exists
                    == views(arguments@).contains("-e"@)
            },
        }),
{
    let wants_home = !has_arg(arguments, "--help") && !has_arg(arguments, "--version")
        && cd_operand_exec(arguments).is_some() && cd_mode_exec(arguments) == CdMode::Home;
    let home = if wants_home {
        home_directory()
    } else {
        None
    };
    cd_plan(arguments, home)
}

} // verus!
