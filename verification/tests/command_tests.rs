use cacutils::cat::{apply_options, cat_command, numbering_fits_exec, CatPlan};
use cacutils::cd::{cd_command, cd_plan, CdMode, CdPlan};
use cacutils::cp::{copy_target, cp_command, parse_arguments as cp_parse, CpPlan};
use cacutils::echo::{echo_command, interpret_escapes_exec, EchoOutput};
use cacutils::ls::{format_size, listing_line, ls_command, ls_entry, LsPlan};
use cacutils::mkdir::{mkdir_command, MkdirPlan};
use cacutils::rm::{parse_arguments as rm_parse, removal, rm_command, Removal, RmPlan};
use cacutils::sleep::{
    duration_readable_exec, parse_duration, sleep_command, sleep_plan_checked, SleepPlan,
};
use cacutils::time::{time_command, TimePlan};

fn strings(v: &[&str]) -> Vec<String> {
    v.iter().map(|s| s.to_string()).collect()
}

fn cat(content: &str, args: &[&str]) -> String {
    let a = strings(args);
    assert!(numbering_fits_exec(&content.to_string(), &a));
    apply_options(content.to_string(), &a)
}

// ----- cat -----

#[test]
fn cat_plans() {
    assert!(matches!(cat_command(&strings(&["f", "--help", "--version"])), CatPlan::Help));
    assert!(matches!(cat_command(&strings(&["f", "--version"])), CatPlan::Version));
    assert!(matches!(cat_command(&strings(&[])), CatPlan::Usage));
    match cat_command(&strings(&["notes.txt", "-n"])) {
        CatPlan::Show { files } => assert_eq!(files, strings(&["notes.txt"])),
        _ => panic!("expected a file to show"),
    }
    match cat_command(&strings(&["-n", "f1", "-E", "f2"])) {
        CatPlan::Show { files } => assert_eq!(files, strings(&["f1", "f2"])),
        _ => panic!("every operand is a file, in order"),
    }
    assert!(matches!(cat_command(&strings(&["-n", "-A"])), CatPlan::Usage));
}

#[test]
fn cat_without_options_shows_content_as_is() {
    assert_eq!(cat("a\tb\n\nc\n", &["file"]), "a\tb\n\nc\n");
    assert_eq!(cat("", &["file"]), "");
}

#[test]
fn cat_numbers_all_lines() {
    assert_eq!(cat("a\nb", &["f", "-n"]), "1\ta\n2\tb");
    assert_eq!(cat("a\n\nb\n", &["f", "--number"]), "1\ta\n2\t\n3\tb\n4\t");
}

#[test]
fn cat_numbers_non_empty_lines() {
    assert_eq!(cat("a\n\nb", &["f", "-b"]), "1\ta\n\n2\tb");
    assert_eq!(cat("\n\n", &["f", "--number-nonblank"]), "\n\n");
}

#[test]
fn cat_nonblank_numbering_overrides_numbering_all() {
    assert_eq!(cat("a\n\nb", &["f", "-b", "-n"]), "1\ta\n\n2\tb");
    assert_eq!(cat("a\n\nb", &["f", "-n", "--number-nonblank"]), cat("a\n\nb", &["f", "-b"]));
}

#[test]
fn cat_shows_ends() {
    assert_eq!(cat("a\nb", &["f", "-E"]), "a$\nb$");
    assert_eq!(cat("a\nb", &["f", "--show-ends"]), "a$\nb$");
    assert_eq!(cat("a\nb", &["f", "-e"]), "a$\nb$");
    assert_eq!(cat("a\tb\nc", &["f", "-A"]), "a^Ib$\nc$");
    assert_eq!(cat("", &["f", "-A"]), "$");
    assert_eq!(cat("", &["f", "-A"]), cat("", &["f", "-E", "-T"]));
    assert_eq!(cat("x\ty\n\nz\n", &["f", "-A"]), cat("x\ty\n\nz\n", &["f", "-E", "-T"]));
    assert_eq!(cat("x\n", &["f", "-e"]), cat("x\n", &["f", "-E"]));
}

#[test]
fn cat_shows_tabs() {
    assert_eq!(cat("a\tb\t", &["f", "-T"]), "a^Ib^I");
    assert_eq!(cat("a\tb", &["f", "-t"]), "a^Ib");
    assert_eq!(cat("\t", &["f", "--show-tabs", "-t"]), "^I");
    assert!(!cat("x\t\ty\n\t", &["f", "-T", "-n"]).contains('\t'));
}

#[test]
fn cat_squeezes_repeated_empty_lines() {
    assert_eq!(cat("a\n\n\n\nb", &["f", "-s"]), "a\n\nb");
    assert_eq!(cat("\n\n\na", &["f", "--squeeze-blank"]), "\na");
    assert_eq!(cat("a\n\n\n", &["f", "-s"]), "a\n\n");
    assert_eq!(cat("a\nb\n", &["f", "-s"]), "a\nb\n");
    assert_eq!(cat("a\n\nb", &["f", "-s"]), "a\n\nb");
}

#[test]
fn cat_numbering_fits_for_small_files() {
    assert!(numbering_fits_exec(&"a\nb\nc".to_string(), &strings(&["f", "-n", "-b"])));
}

// ----- echo -----

fn echo_print(args: &[&str]) -> (String, bool) {
    match echo_command(&strings(args)) {
        EchoOutput::Print { text, newline } => (text, newline),
        _ => panic!("expected text to print"),
    }
}

#[test]
fn echo_joins_arguments_with_spaces() {
    assert_eq!(echo_print(&["hello", "world"]), ("hello world".to_string(), true));
    assert_eq!(echo_print(&[]), (String::new(), true));
    assert_eq!(echo_print(&["-n", "x"]), ("x".to_string(), false));
}

#[test]
fn echo_interprets_escapes_with_e() {
    assert_eq!(echo_print(&["-e", "a\\tb\\nc"]), ("a\tb\nc".to_string(), true));
    assert_eq!(echo_print(&["-e", "back\\\\slash"]), ("back\\slash".to_string(), true));
    assert_eq!(echo_print(&["-e", "\\\\n"]), ("\\n".to_string(), true));
    assert_eq!(echo_print(&["-e", "\\a\\b\\v\\r"]), ("\x07\x08\x0B\r".to_string(), true));
    assert_eq!(echo_print(&["a\\tb"]), ("a\\tb".to_string(), true));
}

#[test]
fn echo_last_escape_flag_wins() {
    assert_eq!(echo_print(&["-e", "-E", "a\\tb"]), ("a\\tb".to_string(), true));
    assert_eq!(echo_print(&["-E", "-e", "a\\tb"]), ("a\tb".to_string(), true));
}

#[test]
fn echo_plain_text_unchanged_by_escapes() {
    assert_eq!(interpret_escapes_exec("plain text, no escapes"), "plain text, no escapes");
    assert_eq!(interpret_escapes_exec("x\\ny"), "x\ny");
}

#[test]
fn echo_help_and_version() {
    assert!(matches!(echo_command(&strings(&["x", "--help"])), EchoOutput::Help));
    assert!(matches!(echo_command(&strings(&["--version", "x"])), EchoOutput::Version));
}

// ----- sleep -----

#[test]
fn sleep_durations() {
    assert_eq!(parse_duration("5"), Some(5));
    assert_eq!(parse_duration("10s"), Some(10));
    assert_eq!(parse_duration("2m"), Some(120));
    assert_eq!(parse_duration("1h"), Some(3600));
    assert_eq!(parse_duration("3d"), Some(259200));
    assert_eq!(parse_duration("4x"), Some(4));
    assert_eq!(parse_duration("1min"), Some(1));
    assert_eq!(parse_duration("abc"), None);
    assert_eq!(parse_duration(""), None);
    assert_eq!(parse_duration("-5"), None);
}

#[test]
fn sleep_readable_durations() {
    assert!(duration_readable_exec("5m"));
    assert!(duration_readable_exec("42"));
    assert!(!duration_readable_exec("€5m"));
    assert!(duration_readable_exec("é5m"));
    assert!(!duration_readable_exec("18446744073709551615m"));
}

#[test]
fn sleep_plans() {
    assert!(matches!(sleep_command(&strings(&[])), SleepPlan::MissingOperand));
    assert!(matches!(sleep_command(&strings(&["--help"])), SleepPlan::Help));
    assert!(matches!(sleep_command(&strings(&["1", "--version"])), SleepPlan::Version));
    assert!(matches!(
        sleep_command(&strings(&["2m"])),
        SleepPlan::Sleep { seconds: 120, invalid: false }
    ));
    assert!(matches!(
        sleep_command(&strings(&["soon"])),
        SleepPlan::Sleep { seconds: 0, invalid: true }
    ));
}

// ----- cp -----

#[test]
fn cp_parses_options_sources_and_destination() {
    let (opts, sources, dest) = cp_parse(&strings(&["-r", "a", "--verbose", "b", "dest"]));
    assert!(opts.recursive);
    assert!(opts.verbose);
    assert_eq!(sources, strings(&["a", "b"]));
    assert_eq!(dest, "dest");
    let (opts, sources, dest) = cp_parse(&strings(&["-v"]));
    assert!(!opts.recursive);
    assert!(opts.verbose);
    assert!(sources.is_empty());
    assert_eq!(dest, "");
}

#[test]
fn cp_plans() {
    assert!(matches!(cp_command(&strings(&["a", "--help"])), CpPlan::Help));
    assert!(matches!(cp_command(&strings(&["--version", "a", "b"])), CpPlan::Version));
    assert!(matches!(cp_command(&strings(&["a"])), CpPlan::Usage));
    match cp_command(&strings(&["a", "b", "dir"])) {
        CpPlan::Copy { options, sources, destination, needs_directory } => {
            assert!(!options.recursive);
            assert_eq!(sources, strings(&["a", "b"]));
            assert_eq!(destination, "dir");
            assert!(needs_directory);
        }
        _ => panic!("expected a copy"),
    }
    match cp_command(&strings(&["a", "b"])) {
        CpPlan::Copy { needs_directory, .. } => assert!(!needs_directory),
        _ => panic!("expected a copy"),
    }
}

#[test]
fn cp_target_in_directory_uses_file_name() {
    assert_eq!(copy_target("src/notes.txt", "out", true), Some("out/notes.txt".to_string()));
    assert_eq!(copy_target("notes.txt", "out/", true), Some("out/notes.txt".to_string()));
    assert_eq!(copy_target("src/notes.txt", "copy.txt", false), Some("copy.txt".to_string()));
    assert_eq!(copy_target("/", "out", true), None);
    assert_eq!(copy_target("a/..", "out", true), None);
}

// ----- rm -----

#[test]
fn rm_parses_and_plans() {
    let (opts, files) = rm_parse(&strings(&["-v", "x", "--recursive", "y"]));
    assert!(opts.recursive && opts.verbose);
    assert_eq!(files, strings(&["x", "y"]));
    assert!(matches!(rm_command(&strings(&[])), RmPlan::Usage));
    assert!(matches!(rm_command(&strings(&["x", "--help"])), RmPlan::Help));
    match rm_command(&strings(&["-r", "x"])) {
        RmPlan::Remove { options, files } => {
            assert!(options.recursive && !options.verbose);
            assert_eq!(files, strings(&["x"]));
        }
        _ => panic!("expected a removal"),
    }
}

#[test]
fn rm_removal_decision() {
    assert_eq!(removal(true, false, true), Removal::RemoveTree);
    assert_eq!(removal(true, true, false), Removal::RemoveFile);
    assert_eq!(removal(false, true, false), Removal::RemoveFile);
    assert_eq!(removal(false, false, true), Removal::IsADirectory);
    assert_eq!(removal(false, false, false), Removal::Nothing);
    assert_eq!(removal(true, false, false), Removal::Nothing);
}

// ----- mkdir -----

#[test]
fn mkdir_plans() {
    assert!(matches!(mkdir_command(&strings(&[])), MkdirPlan::Usage));
    assert!(matches!(mkdir_command(&strings(&["d", "--version"])), MkdirPlan::Version));
    match mkdir_command(&strings(&["-p", "a/b", "-v", "c"])) {
        MkdirPlan::Create { paths, parents, verbose } => {
            assert_eq!(paths, strings(&["a/b", "c"]));
            assert!(parents && verbose);
        }
        _ => panic!("expected directories to create"),
    }
    match mkdir_command(&strings(&["--parents"])) {
        MkdirPlan::Create { paths, parents, verbose } => {
            assert!(paths.is_empty());
            assert!(parents && !verbose);
        }
        _ => panic!("expected directories to create"),
    }
}

// ----- time -----

#[test]
fn time_plans() {
    assert!(matches!(time_command(&strings(&[])), TimePlan::Usage));
    match time_command(&strings(&["ls", "-l", "/tmp"])) {
        TimePlan::Run { command, args } => {
            assert_eq!(command, "ls");
            assert_eq!(args, strings(&["-l", "/tmp"]));
        }
        _ => panic!("expected a command to run"),
    }
}

// ----- ls -----

#[test]
fn ls_plans() {
    match ls_command(&strings(&[])) {
        LsPlan::List { directory, block_size, author } => {
            assert_eq!(directory, ".");
            assert_eq!(block_size, 1024);
            assert!(!author);
        }
        _ => panic!("expected a listing"),
    }
    match ls_command(&strings(&["-l", "/tmp", "--block-size=512", "--author"])) {
        LsPlan::List { directory, block_size, author } => {
            assert_eq!(directory, "/tmp");
            assert_eq!(block_size, 512);
            assert!(author);
        }
        _ => panic!("expected a listing"),
    }
    match ls_command(&strings(&["--block-size=big"])) {
        LsPlan::List { block_size, directory, .. } => {
            assert_eq!(block_size, 1024);
            assert_eq!(directory, ".");
        }
        _ => panic!("expected a listing"),
    }
    match ls_command(&strings(&["--block-size=x=7", "--block-size=9"])) {
        LsPlan::List { block_size, .. } => assert_eq!(block_size, 7),
        _ => panic!("expected a listing"),
    }
    match ls_command(&strings(&["d"])) {
        LsPlan::List { directory, .. } => assert_eq!(directory, "d"),
        _ => panic!("the first operand is the directory"),
    }
    match ls_command(&strings(&["--author", "-l"])) {
        LsPlan::List { directory, .. } => assert_eq!(directory, "."),
        _ => panic!("without an operand the current directory is listed"),
    }
    assert!(matches!(ls_command(&strings(&["--help"])), LsPlan::Help));
    assert!(matches!(ls_command(&strings(&["--version"])), LsPlan::Version));
}

#[test]
fn ls_formats_sizes() {
    assert_eq!(format_size(500, 1024), "500B");
    assert_eq!(format_size(1023, 1024), "1023B");
    assert_eq!(format_size(1024, 1024), "1KB");
    assert_eq!(format_size(2048, 1024), "2KB");
    assert_eq!(format_size(3 * 1024 * 1024 + 5, 1024), "3MB");
    assert_eq!(format_size(0, 1), "0B");
    assert_eq!(format_size(3, 2), "1KB");
    assert_eq!(format_size(7, 2), "1MB");
}

#[test]
fn ls_entry_line() {
    let line = ls_entry(2048, 1024, 0, 0, "notes.txt", false, 0).expect("a date for the epoch");
    assert!(line.starts_with("2KB "));
    assert!(line.ends_with(" notes.txt"));
    let parts: Vec<&str> = line.split(' ').collect();
    assert!(parts.len() >= 5);
}

// ----- cd -----

#[test]
fn cd_plans() {
    assert!(matches!(cd_command(&strings(&[])), CdPlan::MissingDirectory));
    assert!(matches!(cd_command(&strings(&["/tmp", "--help"])), CdPlan::Help));
    assert!(matches!(cd_command(&strings(&["--version"])), CdPlan::Version));
    match cd_command(&strings(&["/tmp"])) {
        CdPlan::Change { directory, target, mode, check_exists } => {
            assert_eq!(directory, "/tmp");
            assert_eq!(target, "/tmp");
            assert_eq!(mode, CdMode::AsGiven);
            assert!(!check_exists);
        }
        _ => panic!("expected a change of directory"),
    }
    match cd_command(&strings(&["link", "-P", "-L", "-e"])) {
        CdPlan::Change { mode, check_exists, .. } => {
            assert_eq!(mode, CdMode::FollowLink);
            assert!(check_exists);
        }
        _ => panic!("expected a change of directory"),
    }
    match cd_command(&strings(&["x", "-P"])) {
        CdPlan::Change { mode, .. } => assert_eq!(mode, CdMode::Physical),
        _ => panic!("expected a change of directory"),
    }
    match cd_command(&strings(&["-P", "d"])) {
        CdPlan::Change { directory, target, mode, .. } => {
            assert_eq!(directory, "d");
            assert_eq!(target, "d");
            assert_eq!(mode, CdMode::Physical);
        }
        _ => panic!("the operand after the options is the directory"),
    }
    assert!(matches!(cd_command(&strings(&["-L", "-e"])), CdPlan::MissingDirectory));
    match cd_command(&strings(&["x", "~"])) {
        CdPlan::Change { directory, mode, .. } => {
            assert_eq!(directory, "x");
            assert_eq!(mode, CdMode::Home);
        }
        CdPlan::NoHome { directory } => assert_eq!(directory, "x"),
        _ => panic!("expected the home directory"),
    }
}

#[test]
fn cd_home_uses_the_home_directory() {
    match cd_plan(&strings(&["~", "-e"]), Some("/home/me".to_string())) {
        CdPlan::Change { directory, target, mode, check_exists } => {
            assert_eq!(directory, "~");
            assert_eq!(target, "/home/me");
            assert_eq!(mode, CdMode::Home);
            assert!(check_exists);
        }
        _ => panic!("a change of directory"),
    }
    match cd_plan(&strings(&["~"]), None) {
        CdPlan::NoHome { directory } => assert_eq!(directory, "~"),
        _ => panic!("no home"),
    }
    match cd_plan(&strings(&["/tmp"]), Some("/home/me".to_string())) {
        CdPlan::Change { target, mode, .. } => {
            assert_eq!(target, "/tmp");
            assert_eq!(mode, CdMode::AsGiven);
        }
        _ => panic!("a change of directory"),
    }
}

#[test]
fn ls_listing_lines() {
    assert_eq!(
        listing_line(2048, 1024, Some("Jan 01 00:00".to_string()), "notes.txt", None),
        Some("2KB Jan 01 00:00 notes.txt".to_string())
    );
    assert_eq!(
        listing_line(
            100,
            1024,
            Some("Feb 02 10:30".to_string()),
            "a",
            Some("root".to_string())
        ),
        Some("100B Feb 02 10:30 a root".to_string())
    );
    assert_eq!(listing_line(100, 1024, None, "a", None), None);
}

#[test]
fn ls_entry_needs_a_valid_timestamp() {
    assert!(ls_entry(10, 1024, 1_700_000_000, 999_999_999, "f", false, 0).is_some());
    assert_eq!(ls_entry(10, 1024, 0, 2_000_000_000, "f", false, 0), None);
}

#[test]
fn cp_target_joins_paths() {
    assert_eq!(copy_target("a/b.txt", "", true), Some("b.txt".to_string()));
    assert_eq!(copy_target("a/b.txt", "/", true), Some("/b.txt".to_string()));
    assert_eq!(copy_target("x", "dir", false), Some("dir".to_string()));
}

#[test]
fn sleep_checked_plans() {
    assert!(matches!(
        sleep_plan_checked(&strings(&["5m"])),
        Some(SleepPlan::Sleep { seconds: 300, invalid: false })
    ));
    assert!(matches!(sleep_plan_checked(&strings(&["x", "--help"])), Some(SleepPlan::Help)));
    assert!(matches!(sleep_plan_checked(&strings(&[])), Some(SleepPlan::MissingOperand)));
    assert!(sleep_plan_checked(&strings(&["€5m"])).is_none());
}
