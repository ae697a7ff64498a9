use vstd::prelude::*;

use crate::text::{
    char_vecs, chars_of, decimal, has_arg, is_lit, join, join_exec, lemma_contains_push,
    lemma_replace_char_gone, push_decimal, replace_all, replace_str, split_on, split_on_exec,
    string_of, views,
};

verus! {

/// What `cat` does with its arguments.
pub enum CatPlan {
    Help,
    Version,
    /// No file was named: print the usage line.
    Usage,
    /// Read the named files, in order, and print their contents, concatenated, with
    /// the options applied.
    Show { files: Vec<String> },
}

/// The arguments that are not options, in order: the files to show.
pub open spec fn cat_operands(args: Seq<Seq<char>>) -> Seq<Seq<char>>
    decreases args.len(),
{
    if args.len() == 0 {
        Seq::empty()
    } else if cat_option(args.last()) {
        cat_operands(args.drop_last())
    } else {
        cat_operands(args.drop_last()).push(args.last())
    }
}

fn is_cat_option(a: &String) -> (r: bool)
    ensures
        r == cat_option(a@),
{
    is_lit(a, "-A") || is_lit(a, "--show-all") || is_lit(a, "-b") || is_lit(a, "--number-nonblank")
        || is_lit(a, "-e") || is_lit(a, "-E") || is_lit(a, "--show-ends") || is_lit(a, "-n")
        || is_lit(a, "--number") || is_lit(a, "-s") || is_lit(a, "--squeeze-blank") || is_lit(
        a,
        "-t",
    ) || is_lit(a, "-T") || is_lit(a, "--show-tabs")
}

/// Decides what `cat` does: `--help` and `--version` come first; otherwise the
/// arguments that are not options name the files, in order.
pub fn cat_command(arguments: &Vec<String>) -> (r: CatPlan)
    ensures
        views(arguments@).contains("--help"@) ==> r is Help,
        !views(arguments@).contains("--help"@) && views(arguments@).contains("--version"@)
            ==> r is Version,
        !views(arguments@).contains("--help"@) && !views(arguments@).contains("--version"@) ==> (
        if cat_operands(views(arguments@)).len() == 0 {
            r is Usage
        } else {
            r matches CatPlan::Show { files } && views(files@) == cat_operands(views(arguments@))
        }),
{
    if has_arg(arguments, "--help") {
        return CatPlan::Help;
    }
    if has_arg(arguments, "--version") {
        return CatPlan::Version;
    }
    let ghost args = views(arguments@);
    let mut files: Vec<String> = Vec::new();
    let mut i: usize = 0;
    assert(views(files@) =~= Seq::<Seq<char>>::empty());
    while i < arguments.len()
        invariant
            args == views(arguments@),
            i <= arguments.len(),
            views(files@) == cat_operands(args.take(i as int)),
        decreases arguments.len() - i,
    {
        let ghost t = args.take(i + 1);
        assert(t.drop_last() =~= args.take(i as int));
        assert(t.last() == arguments@[i as int]@);
        if !is_cat_option(&arguments[i]) {
            let ghost before = files@;
            files.push(arguments[i].clone());
            assert(views(files@) =~= views(before).push(arguments@[i as int]@));
        }
        i = i + 1;
    }
    assert(args.take(arguments.len() as int) =~= args);
    if files.len() == 0 {
        return CatPlan::Usage;
    }
    CatPlan::Show { files }
}

/// Each non-empty line prefixed by its number among the non-empty lines (counting
/// from `k`) and a tab.
pub open spec fn number_nonblank_lines(lines: Seq<Seq<char>>, k: nat) -> Seq<Seq<char>>
    decreases lines.len(),
{
    if lines.len() == 0 {
        Seq::empty()
    } else if lines[0].len() > 0 {
        seq![decimal(k) + "\t"@ + lines[0]] + number_nonblank_lines(lines.skip(1), k + 1)
    } else {
        seq![lines[0]] + number_nonblank_lines(lines.skip(1), k)
    }
}

/// Each line prefixed by its number (from 1) and a tab.
pub open spec fn number_all_lines(lines: Seq<Seq<char>>) -> Seq<Seq<char>> {
    Seq::new(lines.len(), |i: int| decimal((i + 1) as nat) + "\t"@ + lines[i])
}

pub open spec fn nonblank_count(lines: Seq<Seq<char>>) -> nat
    decreases lines.len(),
{
    if lines.len() == 0 {
        0
    } else {
        (if lines[0].len() > 0 {
            1nat
        } else {
            0nat
        }) + nonblank_count(lines.skip(1))
    }
}

pub open spec fn has(args: Seq<Seq<char>>, a: Seq<char>) -> bool {
    args.contains(a)
}

/// `-A` (`--show-all`), `-e`, `-E` and `--show-ends` show line ends as `$`.
pub open spec fn shows_ends(args: Seq<Seq<char>>) -> bool {
    has(args, "-A"@) || has(args, "--show-all"@) || has(args, "-e"@) || has(args, "-E"@) || has(
        args,
        "--show-ends"@,
    )
}

/// `-A` (`--show-all`), `-t`, `-T` and `--show-tabs` show tabs as `^I`.
pub open spec fn shows_tabs(args: Seq<Seq<char>>) -> bool {
    has(args, "-A"@) || has(args, "--show-all"@) || has(args, "-t"@) || has(args, "-T"@) || has(
        args,
        "--show-tabs"@,
    )
}

/// `-b` (`--number-nonblank`): non-empty lines numbered.
pub open spec fn cat_stage2(c: Seq<char>, args: Seq<Seq<char>>) -> Seq<char> {
    if numbers_nonblank(args) {
        join(number_nonblank_lines(split_on(c, "\n"@), 1), "\n"@)
    } else {
        c
    }
}

/// Line ends shown: a `$` before every line feed, and one at the end.
pub open spec fn cat_stage4(c: Seq<char>, args: Seq<Seq<char>>) -> Seq<char> {
    let s2 = cat_stage2(c, args);
    if shows_ends(args) {
        replace_all(s2, "\n"@, "$\n"@) + "$"@
    } else {
        s2
    }
}

/// Whether an empty line is dropped by `-s`: it follows another empty line and is
/// not the piece after the final line feed.
pub open spec fn squeezed_out(lines: Seq<Seq<char>>, i: int) -> bool {
    1 <= i < lines.len() - 1 && lines[i].len() == 0 && lines[i - 1].len() == 0
}

/// The first `n` lines with every repeated empty line dropped.
pub open spec fn squeeze_upto(lines: Seq<Seq<char>>, n: nat) -> Seq<Seq<char>>
    decreases n,
{
    if n == 0 {
        Seq::empty()
    } else {
        let p = squeeze_upto(lines, (n - 1) as nat);
        if squeezed_out(lines, n - 1) {
            p
        } else {
            p.push(lines[n - 1])
        }
    }
}

/// The lines with every run of empty lines cut down to one (`-s`).
pub open spec fn squeeze_blank(lines: Seq<Seq<char>>) -> Seq<Seq<char>> {
    squeeze_upto(lines, lines.len())
}

pub open spec fn numbers_nonblank(args: Seq<Seq<char>>) -> bool {
    has(args, "-b"@) || has(args, "--number-nonblank"@)
}

/// `-n` numbers every line unless `-b` is given, which overrides it.
pub open spec fn numbers_all(args: Seq<Seq<char>>) -> bool {
    (has(args, "-n"@) || has(args, "--number"@)) && !numbers_nonblank(args)
}

/// The content after every option `cat` applies, in the order it applies them:
/// `-b` (non-empty lines numbered), line ends shown (`-A`, `-e`, `-E`), `-n` (all
/// lines numbered, unless `-b` is given), `-s` (repeated empty lines squeezed),
/// tabs shown as `^I` (`-A`, `-t`, `-T`).
pub open spec fn cat_output(c: Seq<char>, args: Seq<Seq<char>>) -> Seq<char> {
    let s4 = cat_stage4(c, args);
    let s5 = if numbers_all(args) {
        join(number_all_lines(split_on(s4, "\n"@)), "\n"@)
    } else {
        s4
    };
    let s6 = if has(args, "-s"@) || has(args, "--squeeze-blank"@) {
        join(squeeze_blank(split_on(s5, "\n"@)), "\n"@)
    } else {
        s5
    };
    if shows_tabs(args) {
        replace_all(s6, "\t"@, "^I"@)
    } else {
        s6
    }
}

/// The line numbers `cat` prints fit its 32-bit counter.
pub open spec fn numbering_fits(c: Seq<char>, args: Seq<Seq<char>>) -> bool {
    &&& numbers_nonblank(args) ==> nonblank_count(split_on(c, "\n"@)) < i32::MAX
    &&& numbers_all(args) ==> split_on(cat_stage4(c, args), "\n"@).len() < i32::MAX
}

proof fn lemma_nonblank_count_prefix(lines: Seq<Seq<char>>, i: int)
    requires
        0 <= i <= lines.len(),
    ensures
        nonblank_count(lines) == nonblank_count(lines.take(i)) + nonblank_count(lines.skip(i)),
    decreases i,
{
    if i > 0 {
        lemma_nonblank_count_prefix(lines.skip(1), i - 1);
        assert(lines.skip(1).take(i - 1) =~= lines.take(i).skip(1));
        assert(lines.skip(1).skip(i - 1) =~= lines.skip(i));
        assert(lines.take(i)[0] == lines[0]);
    } else {
        assert(lines.skip(0) =~= lines);
        assert(nonblank_count(lines.take(0)) == 0);
    }
}

fn number_line(k: u64, line: &Vec<char>) -> (r: Vec<char>)
    ensures
        r@ == decimal(k as nat) + "\t"@ + line@,
{
    let mut out: Vec<char> = Vec::new();
    push_decimal(&mut out, k);
    out.push('\t');
    out.extend_from_slice(line.as_slice());
    proof {
        reveal_strlit("\t");
        assert(out@ =~= decimal(k as nat) + "\t"@ + line@);
    }
    out
}

/// Numbers the non-empty lines from 1.
pub fn number_nonblank(lines: &Vec<Vec<char>>) -> (r: Vec<Vec<char>>)
    requires
        nonblank_count(char_vecs(lines@)) < i32::MAX,
    ensures
        char_vecs(r@) == number_nonblank_lines(char_vecs(lines@), 1),
{
    let ghost ls = char_vecs(lines@);
    let mut out: Vec<Vec<char>> = Vec::new();
    let mut k: u64 = 1;
    let mut i: usize = 0;
    assert(ls.skip(0) =~= ls);
    assert(ls.take(0) =~= Seq::<Seq<char>>::empty());
    while i < lines.len()
        invariant
            ls == char_vecs(lines@),
            i <= lines.len(),
            k == 1 + nonblank_count(ls.take(i as int)),
            nonblank_count(ls) < i32::MAX,
            number_nonblank_lines(ls, 1) == char_vecs(out@) + number_nonblank_lines(
                ls.skip(i as int),
                k as nat,
            ),
        decreases lines.len() - i,
    {
        let ghost rest = ls.skip(i as int);
        assert(rest[0] == lines@[i as int]@);
        assert(rest.skip(1) =~= ls.skip(i + 1));
        proof {
            lemma_nonblank_count_prefix(ls, i + 1);
            lemma_nonblank_count_prefix(ls.take(i + 1), i as int);
            assert(ls.take(i + 1).take(i as int) =~= ls.take(i as int));
            assert(ls.take(i + 1).skip(i as int) =~= seq![ls[i as int]]);
            assert(nonblank_count(seq![ls[i as int]].skip(1)) == 0) by {
                assert(seq![ls[i as int]].skip(1) =~= Seq::<Seq<char>>::empty());
            }
        }
        let ghost before = out@;
        if lines[i].len() > 0 {
            let nl = number_line(k, &lines[i]);
            out.push(nl);
            assert(char_vecs(out@) =~= char_vecs(before).push(nl@));
            assert(char_vecs(out@) + number_nonblank_lines(ls.skip(i + 1), (k + 1) as nat) =~= char_vecs(before) + number_nonblank_lines(rest, k as nat));
            k = k + 1;
        } else {
            let l = lines[i].clone();
            out.push(l);
            assert(char_vecs(out@) =~= char_vecs(before).push(l@));
            assert(char_vecs(out@) + number_nonblank_lines(ls.skip(i + 1), k as nat) =~= char_vecs(before) + number_nonblank_lines(rest, k as nat));
        }
        i = i + 1;
    }
    assert(ls.skip(lines.len() as int) =~= Seq::<Seq<char>>::empty());
    assert(char_vecs(out@) + Seq::<Seq<char>>::empty() =~= char_vecs(out@));
    out
}

/// Numbers every line from 1.
pub fn number_all(lines: &Vec<Vec<char>>) -> (r: Vec<Vec<char>>)
    requires
        lines@.len() < i32::MAX,
    ensures
        char_vecs(r@) == number_all_lines(char_vecs(lines@)),
{
    let ghost ls = char_vecs(lines@);
    let mut out: Vec<Vec<char>> = Vec::new();
    let mut i: usize = 0;
    while i < lines.len()
        invariant
            ls == char_vecs(lines@),
            i <= lines.len() < i32::MAX,
            char_vecs(out@) == number_all_lines(ls).take(i as int),
        decreases lines.len() - i,
    {
        let nl = number_line((i + 1) as u64, &lines[i]);
        let ghost before = out@;
        out.push(nl);
        assert(out@ == before.push(nl));
        assert(char_vecs(out@) =~= char_vecs(before).push(nl@));
        assert(ls[i as int] == lines@[i as int]@);
        assert(char_vecs(out@) =~= number_all_lines(ls).take(i + 1));
        i = i + 1;
    }
    assert(number_all_lines(ls).take(lines.len() as int) =~= number_all_lines(ls));
    out
}

/// Drops every empty line that follows another empty line, but for the piece after
/// the final line feed.
pub fn squeeze_blank_exec(lines: &Vec<Vec<char>>) -> (r: Vec<Vec<char>>)
    ensures
        char_vecs(r@) == squeeze_blank(char_vecs(lines@)),
{
    let ghost ls = char_vecs(lines@);
    let mut out: Vec<Vec<char>> = Vec::new();
    let mut i: usize = 0;
    while i < lines.len()
        invariant
            ls == char_vecs(lines@),
            i <= lines.len(),
            char_vecs(out@) == squeeze_upto(ls, i as nat),
        decreases lines.len() - i,
    {
        let drop = 1 <= i && i + 1 < lines.len() && lines[i].len() == 0 && lines[i - 1].len() == 0;
        assert(drop == squeezed_out(ls, i as int));
        if !drop {
            let l = lines[i].clone();
            let ghost before = out@;
            out.push(l);
            assert(char_vecs(out@) =~= char_vecs(before).push(l@));
        }
        i = i + 1;
    }
    out
}

fn has_any(arguments: &Vec<String>, a: &str, b: &str) -> (r: bool)
    ensures
        r == (has(views(arguments@), a@) || has(views(arguments@), b@)),
{
    has_arg(arguments, a) || has_arg(arguments, b)
}

fn stage4(c: &Vec<char>, arguments: &Vec<String>) -> (r: Vec<char>)
    requires
        numbers_nonblank(views(arguments@)) ==> nonblank_count(split_on(c@, "\n"@)) < i32::MAX,
    ensures
        r@ == cat_stage4(c@, views(arguments@)),
{
    let nl = chars_of("\n");
    let s2 = if has_any(arguments, "-b", "--number-nonblank") {
        let lines = split_on_exec(c.as_slice(), nl.as_slice());
        let numbered = number_nonblank(&lines);
        join_exec(&numbered, nl.as_slice())
    } else {
        c.clone()
    };
    if has_any(arguments, "-A", "--show-all") || has_any(arguments, "-e", "-E") || has_arg(
        arguments,
        "--show-ends",
    ) {
        let mut s = replace_str(s2.as_slice(), "\n", "$\n");
        s.push('$');
        proof {
            reveal_strlit("$");
        }
        assert(s@ =~= replace_all(s2@, "\n"@, "$\n"@) + "$"@);
        s
    } else {
        s2
    }
}

/// Whether the line numbers that `apply_options` would print fit `cat`'s counter.
pub fn numbering_fits_exec(content: &String, arguments: &Vec<String>) -> (r: bool)
    ensures
        r == numbering_fits(content@, views(arguments@)),
{
    let c = chars_of(content.as_str());
    let nl = chars_of("\n");
    let b_ok = if has_any(arguments, "-b", "--number-nonblank") {
        let lines = split_on_exec(c.as_slice(), nl.as_slice());
        let mut count: usize = 0;
        let mut i: usize = 0;
        let ghost ls = char_vecs(lines@);
        assert(ls.take(0) =~= Seq::<Seq<char>>::empty());
        while i < lines.len()
            invariant
                ls == char_vecs(lines@),
                i <= lines.len(),
                count == nonblank_count(ls.take(i as int)),
                count <= i,
            decreases lines.len() - i,
        {
            proof {
                lemma_nonblank_count_prefix(ls.take(i + 1), i as int);
                assert(ls.take(i + 1).take(i as int) =~= ls.take(i as int));
                assert(ls.take(i + 1).skip(i as int) =~= seq![ls[i as int]]);
                assert(seq![ls[i as int]].skip(1) =~= Seq::<Seq<char>>::empty());
                assert(ls[i as int] == lines@[i as int]@);
                assert(nonblank_count(Seq::<Seq<char>>::empty()) == 0);
                assert(nonblank_count(seq![ls[i as int]]) == (if ls[i as int].len() > 0 { 1nat } else { 0nat }));
            }
            if lines[i].len() > 0 {
                count = count + 1;
            }
            i = i + 1;
        }
        assert(ls.take(lines.len() as int) =~= ls);
        count < 2147483647
    } else {
        true
    };
    if !b_ok {
        return false;
    }
    if has_any(arguments, "-n", "--number") && !has_any(arguments, "-b", "--number-nonblank") {
        let s4 = stage4(&c, arguments);
        let lines = split_on_exec(s4.as_slice(), nl.as_slice());
        assert(char_vecs(lines@).len() == lines@.len());
        lines.len() < 2147483647
    } else {
        true
    }
}

/// Applies `cat`'s options to the content of a file.
pub fn apply_options(content: String, arguments: &Vec<String>) -> (r: String)
    requires
        numbering_fits(content@, views(arguments@)),
    ensures
        r@ == cat_output(content@, views(arguments@)),
{
    let c = chars_of(content.as_str());
    let nl = chars_of("\n");
    let s4 = stage4(&c, arguments);
    let s5 = if has_any(arguments, "-n", "--number") && !has_any(arguments, "-b", "--number-nonblank") {
        let lines = split_on_exec(s4.as_slice(), nl.as_slice());
        assert(char_vecs(lines@).len() == lines@.len());
        let numbered = number_all(&lines);
        join_exec(&numbered, nl.as_slice())
    } else {
        s4
    };
    let s6 = if has_any(arguments, "-s", "--squeeze-blank") {
        let lines = split_on_exec(s5.as_slice(), nl.as_slice());
        let kept = squeeze_blank_exec(&lines);
        join_exec(&kept, nl.as_slice())
    } else {
        s5
    };
    let s8 = if has_any(arguments, "-A", "--show-all") || has_any(arguments, "-t", "-T")
        || has_arg(arguments, "--show-tabs") {
        replace_str(s6.as_slice(), "\t", "^I")
    } else {
        s6
    };
    string_of(s8.as_slice())
}

/// The arguments `cat` reads as options.
pub open spec fn cat_option(a: Seq<char>) -> bool {
    ||| a == "-A"@
    ||| a == "--show-all"@
    ||| a == "-b"@
    ||| a == "--number-nonblank"@
    ||| a == "-e"@
    ||| a == "-E"@
    ||| a == "--show-ends"@
    ||| a == "-n"@
    ||| a == "--number"@
    ||| a == "-s"@
    ||| a == "--squeeze-blank"@
    ||| a == "-t"@
    ||| a == "-T"@
    ||| a == "--show-tabs"@
}

/// Without any option, `cat` shows the content as it is.
pub proof fn lemma_cat_plain(c: Seq<char>, args: Seq<Seq<char>>)
    requires
        forall|i: int| 0 <= i < args.len() ==> !cat_option(#[trigger] args[i]),
    ensures
        cat_output(c, args) == c,
{
    assert forall|a: Seq<char>| cat_option(a) implies has(args, a) == false by {
        if args.contains(a) {
            let i = choose|i: int| 0 <= i < args.len() && args[i] == a;
            assert(!cat_option(args[i]));
        }
    }
    assert(cat_option("-A"@) && cat_option("--show-all"@) && cat_option("-b"@));
    assert(cat_option("--number-nonblank"@) && cat_option("-e"@) && cat_option("-E"@));
    assert(cat_option("--show-ends"@) && cat_option("-n"@) && cat_option("--number"@));
    assert(cat_option("-s"@) && cat_option("--squeeze-blank"@) && cat_option("-t"@));
    assert(cat_option("-T"@) && cat_option("--show-tabs"@));
}

/// With `-A`, `-t`, `-T` or their long forms, no tab character is left in the output.
pub proof fn lemma_cat_tabs_shown(c: Seq<char>, args: Seq<Seq<char>>)
    requires
        shows_tabs(args),
    ensures
        !cat_output(c, args).contains('\t'),
{
    reveal_strlit("\t");
    reveal_strlit("^I");
    assert("\t"@ == seq!['\t']);
    assert(!"^I"@.contains('\t')) by {
        assert("^I"@[0] != '\t' && "^I"@[1] != '\t');
    }
    let s4 = cat_stage4(c, args);
    let s5 = if numbers_all(args) {
        join(number_all_lines(split_on(s4, "\n"@)), "\n"@)
    } else {
        s4
    };
    let s6 = if has(args, "-s"@) || has(args, "--squeeze-blank"@) {
        join(squeeze_blank(split_on(s5, "\n"@)), "\n"@)
    } else {
        s5
    };
    lemma_replace_char_gone(s6, '\t', "^I"@);
}

/// `-A` does what `-E` and `-T` together do, and `-e` what `-E` does.
pub proof fn lemma_show_all(c: Seq<char>, args: Seq<Seq<char>>)
    ensures
        cat_output(c, args.push("-A"@)) == cat_output(c, args.push("-E"@).push("-T"@)),
        cat_output(c, args.push("-e"@)) == cat_output(c, args.push("-E"@)),
{
    reveal_strlit("-A");
    reveal_strlit("--show-all");
    reveal_strlit("-b");
    reveal_strlit("--number-nonblank");
    reveal_strlit("-e");
    reveal_strlit("-E");
    reveal_strlit("--show-ends");
    reveal_strlit("-n");
    reveal_strlit("--number");
    reveal_strlit("-s");
    reveal_strlit("--squeeze-blank");
    reveal_strlit("-t");
    reveal_strlit("-T");
    reveal_strlit("--show-tabs");
    let a1 = args.push("-A"@);
    let a2 = args.push("-E"@).push("-T"@);
    let a3 = args.push("-e"@);
    let a4 = args.push("-E"@);
    let names = seq![
        "-A"@,
        "--show-all"@,
        "-b"@,
        "--number-nonblank"@,
        "-e"@,
        "-E"@,
        "--show-ends"@,
        "-n"@,
        "--number"@,
        "-s"@,
        "--squeeze-blank"@,
        "-t"@,
        "-T"@,
        "--show-tabs"@,
    ];
    assert forall|k: int| 0 <= k < names.len() implies {
        &&& has(a1, #[trigger] names[k]) == (has(args, names[k]) || names[k] == "-A"@)
        &&& has(a2, names[k]) == (has(args, names[k]) || names[k] == "-E"@ || names[k] == "-T"@)
        &&& has(a3, names[k]) == (has(args, names[k]) || names[k] == "-e"@)
        &&& has(a4, names[k]) == (has(args, names[k]) || names[k] == "-E"@)
    } by {
        lemma_contains_push(args, "-A"@);
        lemma_contains_push(args, "-E"@);
        lemma_contains_push(args.push("-E"@), "-T"@);
        lemma_contains_push(args, "-e"@);
    }
    assert(names[0] == "-A"@ && names[1] == "--show-all"@ && names[2] == "-b"@);
    assert(names[3] == "--number-nonblank"@ && names[4] == "-e"@ && names[5] == "-E"@);
    assert(names[6] == "--show-ends"@ && names[7] == "-n"@ && names[8] == "--number"@);
    assert(names[9] == "-s"@ && names[10] == "--squeeze-blank"@ && names[11] == "-t"@);
    assert(names[12] == "-T"@ && names[13] == "--show-tabs"@);
    assert("-b"@ != "-A"@) by {
        assert("-b"@[1] != "-A"@[1]);
    }
    assert("-n"@ != "-A"@) by {
        assert("-n"@[1] != "-A"@[1]);
    }
    assert("-s"@ != "-A"@) by {
        assert("-s"@[1] != "-A"@[1]);
    }
    assert("-e"@ != "-A"@) by {
        assert("-e"@[1] != "-A"@[1]);
    }
    assert("-E"@ != "-A"@) by {
        assert("-E"@[1] != "-A"@[1]);
    }
    assert("-T"@ != "-A"@) by {
        assert("-T"@[1] != "-A"@[1]);
    }
    assert("-t"@ != "-A"@) by {
        assert("-t"@[1] != "-A"@[1]);
    }
    assert("--number-nonblank"@ != "-A"@) by {
        assert("--number-nonblank"@.len() != "-A"@.len());
    }
    assert("--number"@ != "-A"@) by {
        assert("--number"@.len() != "-A"@.len());
    }
    assert("--squeeze-blank"@ != "-A"@) by {
        assert("--squeeze-blank"@.len() != "-A"@.len());
    }
    assert("--show-all"@ != "-A"@) by {
        assert("--show-all"@.len() != "-A"@.len());
    }
    assert("--show-ends"@ != "-A"@) by {
        assert("--show-ends"@.len() != "-A"@.len());
    }
    assert("--show-tabs"@ != "-A"@) by {
        assert("--show-tabs"@.len() != "-A"@.len());
    }
    assert("-b"@ != "-e"@) by {
        assert("-b"@[1] != "-e"@[1]);
    }
    assert("-n"@ != "-e"@) by {
        assert("-n"@[1] != "-e"@[1]);
    }
    assert("-s"@ != "-e"@) by {
        assert("-s"@[1] != "-e"@[1]);
    }
    assert("-E"@ != "-e"@) by {
        assert("-E"@[1] != "-e"@[1]);
    }
    assert("-T"@ != "-e"@) by {
        assert("-T"@[1] != "-e"@[1]);
    }
    assert("-t"@ != "-e"@) by {
        assert("-t"@[1] != "-e"@[1]);
    }
    assert("--number-nonblank"@ != "-e"@) by {
        assert("--number-nonblank"@.len() != "-e"@.len());
    }
    assert("--number"@ != "-e"@) by {
        assert("--number"@.len() != "-e"@.len());
    }
    assert("--squeeze-blank"@ != "-e"@) by {
        assert("--squeeze-blank"@.len() != "-e"@.len());
    }
    assert("--show-all"@ != "-e"@) by {
        assert("--show-all"@.len() != "-e"@.len());
    }
    assert("--show-ends"@ != "-e"@) by {
        assert("--show-ends"@.len() != "-e"@.len());
    }
    assert("--show-tabs"@ != "-e"@) by {
        assert("--show-tabs"@.len() != "-e"@.len());
    }
    assert("-b"@ != "-E"@) by {
        assert("-b"@[1] != "-E"@[1]);
    }
    assert("-n"@ != "-E"@) by {
        assert("-n"@[1] != "-E"@[1]);
    }
    assert("-s"@ != "-E"@) by {
        assert("-s"@[1] != "-E"@[1]);
    }
    assert("-T"@ != "-E"@) by {
        assert("-T"@[1] != "-E"@[1]);
    }
    assert("-t"@ != "-E"@) by {
        assert("-t"@[1] != "-E"@[1]);
    }
    assert("--number-nonblank"@ != "-E"@) by {
        assert("--number-nonblank"@.len() != "-E"@.len());
    }
    assert("--number"@ != "-E"@) by {
        assert("--number"@.len() != "-E"@.len());
    }
    assert("--squeeze-blank"@ != "-E"@) by {
        assert("--squeeze-blank"@.len() != "-E"@.len());
    }
    assert("--show-all"@ != "-E"@) by {
        assert("--show-all"@.len() != "-E"@.len());
    }
    assert("--show-ends"@ != "-E"@) by {
        assert("--show-ends"@.len() != "-E"@.len());
    }
    assert("--show-tabs"@ != "-E"@) by {
        assert("--show-tabs"@.len() != "-E"@.len());
    }
    assert("-b"@ != "-T"@) by {
        assert("-b"@[1] != "-T"@[1]);
    }
    assert("-n"@ != "-T"@) by {
        assert("-n"@[1] != "-T"@[1]);
    }
    assert("-s"@ != "-T"@) by {
        assert("-s"@[1] != "-T"@[1]);
    }
    assert("-t"@ != "-T"@) by {
        assert("-t"@[1] != "-T"@[1]);
    }
    assert("--number-nonblank"@ != "-T"@) by {
        assert("--number-nonblank"@.len() != "-T"@.len());
    }
    assert("--number"@ != "-T"@) by {
        assert("--number"@.len() != "-T"@.len());
    }
    assert("--squeeze-blank"@ != "-T"@) by {
        assert("--squeeze-blank"@.len() != "-T"@.len());
    }
    assert("--show-all"@ != "-T"@) by {
        assert("--show-all"@.len() != "-T"@.len());
    }
    assert("--show-ends"@ != "-T"@) by {
        assert("--show-ends"@.len() != "-T"@.len());
    }
    assert("--show-tabs"@ != "-T"@) by {
        assert("--show-tabs"@.len() != "-T"@.len());
    }
    assert("-b"@ != "-t"@) by {
        assert("-b"@[1] != "-t"@[1]);
    }
    assert("-n"@ != "-t"@) by {
        assert("-n"@[1] != "-t"@[1]);
    }
    assert("-s"@ != "-t"@) by {
        assert("-s"@[1] != "-t"@[1]);
    }
    assert("--number-nonblank"@ != "-t"@) by {
        assert("--number-nonblank"@.len() != "-t"@.len());
    }
    assert("--number"@ != "-t"@) by {
        assert("--number"@.len() != "-t"@.len());
    }
    assert("--squeeze-blank"@ != "-t"@) by {
        assert("--squeeze-blank"@.len() != "-t"@.len());
    }
    assert("--show-all"@ != "-t"@) by {
        assert("--show-all"@.len() != "-t"@.len());
    }
    assert("--show-ends"@ != "-t"@) by {
        assert("--show-ends"@.len() != "-t"@.len());
    }
    assert("--show-tabs"@ != "-t"@) by {
        assert("--show-tabs"@.len() != "-t"@.len());
    }
    assert(numbers_nonblank(a1) == numbers_nonblank(a2));
    assert(numbers_all(a1) == numbers_all(a2));
    assert(shows_ends(a1) && shows_ends(a2) && shows_tabs(a1) && shows_tabs(a2));
    assert(numbers_nonblank(a3) == numbers_nonblank(a4));
    assert(numbers_all(a3) == numbers_all(a4));
    assert(shows_ends(a3) && shows_ends(a4) && shows_tabs(a3) == shows_tabs(a4));
}

/// Once `-b` (`--number-nonblank`) is given, adding `-n` or `--number` changes nothing:
/// numbering the non-empty lines overrides numbering all of them.
pub proof fn lemma_nonblank_overrides_number(c: Seq<char>, args: Seq<Seq<char>>)
    requires
        numbers_nonblank(args),
    ensures
        cat_output(c, args.push("-n"@)) == cat_output(c, args),
        cat_output(c, args.push("--number"@)) == cat_output(c, args),
{
    reveal_strlit("-A");
    reveal_strlit("--show-all");
    reveal_strlit("-b");
    reveal_strlit("--number-nonblank");
    reveal_strlit("-e");
    reveal_strlit("-E");
    reveal_strlit("--show-ends");
    reveal_strlit("-n");
    reveal_strlit("--number");
    reveal_strlit("-s");
    reveal_strlit("--squeeze-blank");
    reveal_strlit("-t");
    reveal_strlit("-T");
    reveal_strlit("--show-tabs");
    lemma_contains_push(args, "-n"@);
    lemma_contains_push(args, "--number"@);
    let others = seq![
        "-A"@,
        "--show-all"@,
        "-b"@,
        "--number-nonblank"@,
        "-e"@,
        "-E"@,
        "--show-ends"@,
        "-s"@,
        "--squeeze-blank"@,
        "-t"@,
        "-T"@,
        "--show-tabs"@,
    ];
    assert forall|k: int| 0 <= k < others.len() implies others[k] != "-n"@ && others[k]
        != "--number"@ by {
        if others[k].len() == 2 {
            assert(others[k][1] != "-n"@[1]);
        } else {
            assert(others[k].len() != "--number"@.len() || others[k][2] != "--number"@[2]);
        }
    }
    assert(others[0] == "-A"@ && others[1] == "--show-all"@ && others[2] == "-b"@);
    assert(others[3] == "--number-nonblank"@ && others[4] == "-e"@ && others[5] == "-E"@);
    assert(others[6] == "--show-ends"@ && others[7] == "-s"@ && others[8] == "--squeeze-blank"@);
    assert(others[9] == "-t"@ && others[10] == "-T"@ && others[11] == "--show-tabs"@);
}

proof fn lemma_squeeze_upto(lines: Seq<Seq<char>>, n: nat)
    requires
        n < lines.len(),
    ensures
        forall|k: int|
            0 <= k < squeeze_upto(lines, n).len() - 1 ==> !(#[trigger] squeeze_upto(lines, n)[k].len()
                == 0 && squeeze_upto(lines, n)[k + 1].len() == 0),
        n >= 1 ==> squeeze_upto(lines, n).len() >= 1 && (lines[n - 1].len() == 0
            <==> squeeze_upto(lines, n).last().len() == 0),
    decreases n,
{
    if n > 0 {
        let p = squeeze_upto(lines, (n - 1) as nat);
        lemma_squeeze_upto(lines, (n - 1) as nat);
        if !squeezed_out(lines, n - 1) {
            let out = p.push(lines[n - 1]);
            assert(squeeze_upto(lines, n) == out);
            assert forall|k: int| 0 <= k < out.len() - 1 implies !(#[trigger] out[k].len() == 0
                && out[k + 1].len() == 0) by {
                if k < p.len() - 1 {
                    assert(out[k] == p[k] && out[k + 1] == p[k + 1]);
                } else {
                    assert(out[k] == p.last());
                    assert(out[k + 1] == lines[n - 1]);
                }
            }
        }
    }
}

/// After `-s`, no two neighbouring lines are both empty (the piece after a final line
/// feed aside).
pub proof fn lemma_squeeze_no_repeats(lines: Seq<Seq<char>>)
    ensures
        forall|k: int|
            0 <= k && k + 2 < squeeze_blank(lines).len() ==> !(#[trigger] squeeze_blank(lines)[k].len()
                == 0 && squeeze_blank(lines)[k + 1].len() == 0),
{
    if lines.len() > 0 {
        let n = (lines.len() - 1) as nat;
        lemma_squeeze_upto(lines, n);
        let p = squeeze_upto(lines, n);
        assert(!squeezed_out(lines, n as int));
        let out = squeeze_blank(lines);
        assert(out == p.push(lines[n as int]));
        assert forall|k: int| 0 <= k && k + 2 < out.len() implies !(#[trigger] out[k].len() == 0
            && out[k + 1].len() == 0) by {
            assert(out[k] == p[k] && out[k + 1] == p[k + 1]);
        }
    }
}

} // verus!
