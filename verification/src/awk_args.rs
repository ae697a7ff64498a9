use vstd::prelude::*;

use crate::text::{
    chars_of, has_arg, is_lit, lemma_first_char_absent, lemma_replace_absent, replace_all,
    replace_all_exec, string_of, subrange_exec, views,
};

verus! {

/// The position of the first `c` in `s`.
pub open spec fn first_index(s: Seq<char>, c: char) -> Option<int>
    decreases s.len(),
{
    if s.len() == 0 {
        None
    } else if s.last() == c && first_index(s.drop_last(), c) is None {
        Some(s.len() - 1)
    } else {
        first_index(s.drop_last(), c)
    }
}

/// The position of the first `c` in `s` (`str::find` with a character).
pub fn first_index_exec(s: &[char], c: char) -> (r: Option<usize>)
    ensures
        r matches Some(i) ==> first_index(s@, c) == Some(i as int),
        r is None ==> first_index(s@, c) is None,
{
    let mut i: usize = 0;
    while i < s.len()
        invariant
            i <= s.len(),
            first_index(s@.take(i as int), c) is None,
        decreases s.len() - i,
    {
        assert(s@.take(i + 1).drop_last() =~= s@.take(i as int));
        if s[i] == c {
            proof {
                lemma_first_index_prefix(s@, i as int + 1, c);
            }
            return Some(i);
        }
        i = i + 1;
    }
    assert(s@.take(s.len() as int) =~= s@);
    None
}

/// Once the first `c` lies within a prefix, it is the first `c` of the whole.
proof fn lemma_first_index_prefix(s: Seq<char>, k: int, c: char)
    requires
        0 < k <= s.len(),
        first_index(s.take(k), c) is Some,
    ensures
        first_index(s, c) == first_index(s.take(k), c),
    decreases s.len() - k,
{
    if k < s.len() {
        assert(s.take(k + 1).drop_last() =~= s.take(k));
        lemma_first_index_prefix(s, k + 1, c);
    } else {
        assert(s.take(k) =~= s);
    }
}

/// The field separator a `-F` argument denotes: `\t` and `\n` stand for a tab and a
/// line feed.
pub open spec fn unescaped_fs(s: Seq<char>) -> Seq<char> {
    replace_all(replace_all(s, "\\t"@, "\t"@), "\\n"@, "\n"@)
}

pub fn unescape_fs(s: &str) -> (r: String)
    ensures
        r@ == unescaped_fs(s@),
{
    let v = chars_of(s);
    let tab_pat = chars_of("\\t");
    let tab = chars_of("\t");
    let nl_pat = chars_of("\\n");
    let nl = chars_of("\n");
    let a = replace_all_exec(v.as_slice(), tab_pat.as_slice(), tab.as_slice());
    let b = replace_all_exec(a.as_slice(), nl_pat.as_slice(), nl.as_slice());
    string_of(b.as_slice())
}

/// The options and operands collected from an awk command line.
pub struct AwkScan {
    pub source: Option<Seq<char>>,
    pub file: Option<Seq<char>>,
    pub fs: Seq<char>,
    pub assigns: Seq<(Seq<char>, Seq<char>)>,
    pub files: Seq<Seq<char>>,
}

/// What an awk command line asks for.
pub enum AwkOutcome {
    Help,
    Version,
    NoProgram,
    MissingFileArgument,
    MissingSeparatorArgument,
    MissingAssignmentArgument,
    InvalidAssignment(Seq<char>),
    Run(AwkScan),
}

/// `name=value` split at its first `=`.
pub open spec fn split_assignment(a: Seq<char>, k: int) -> (Seq<char>, Seq<char>) {
    (a.take(k), a.skip(k + 1))
}

/// Reads the arguments from index `i` on, with `st` collected so far: `-f FILE`,
/// `-F FS`, `-FFS`, `-v NAME=VALUE`, then the program text, then `NAME=VALUE`
/// assignments and input files.
pub open spec fn scan(args: Seq<Seq<char>>, i: int, st: AwkScan) -> AwkOutcome
    decreases args.len() - i,
{
    if i < 0 || i >= args.len() {
        AwkOutcome::Run(st)
    } else {
        let a = args[i];
        if a == "-f"@ {
            if i + 1 >= args.len() {
                AwkOutcome::MissingFileArgument
            } else {
                scan(args, i + 2, AwkScan { file: Some(args[i + 1]), ..st })
            }
        } else if a == "-F"@ {
            if i + 1 >= args.len() {
                AwkOutcome::MissingSeparatorArgument
            } else {
                scan(args, i + 2, AwkScan { fs: unescaped_fs(args[i + 1]), ..st })
            }
        } else if a == "-v"@ {
            if i + 1 >= args.len() {
                AwkOutcome::MissingAssignmentArgument
            } else {
                match first_index(args[i + 1], '=') {
                    Some(k) => scan(
                        args,
                        i + 2,
                        AwkScan { assigns: st.assigns.push(split_assignment(args[i + 1], k)), ..st },
                    ),
                    None => AwkOutcome::InvalidAssignment(args[i + 1]),
                }
            }
        } else if a.len() > 2 && a[0] == '-' && a[1] == 'F' {
            scan(args, i + 1, AwkScan { fs: unescaped_fs(a.skip(2)), ..st })
        } else if st.source is None && st.file is None {
            scan(args, i + 1, AwkScan { source: Some(a), ..st })
        } else {
            match first_index(a, '=') {
                Some(k) => if a.len() > 0 && a[0] == '-' {
                    scan(args, i + 1, AwkScan { files: st.files.push(a), ..st })
                } else {
                    scan(
                        args,
                        i + 1,
                        AwkScan { assigns: st.assigns.push(split_assignment(a, k)), ..st },
                    )
                },
                None => scan(args, i + 1, AwkScan { files: st.files.push(a), ..st }),
            }
        }
    }
}

/// What a whole awk command line asks for: help and version come first, and no
/// arguments at all means no program.
pub open spec fn awk_outcome(args: Seq<Seq<char>>) -> AwkOutcome {
    if args.contains("--help"@) {
        AwkOutcome::Help
    } else if args.contains("--version"@) {
        AwkOutcome::Version
    } else if args.len() == 0 {
        AwkOutcome::NoProgram
    } else {
        scan(
            args,
            0,
            AwkScan {
                source: None,
                file: None,
                fs: " "@,
                assigns: Seq::empty(),
                files: Seq::empty(),
            },
        )
    }
}

pub struct AwkInvocation {
    pub program_source: Option<String>,
    pub program_file: Option<String>,
    pub field_separator: String,
    pub assignments: Vec<(String, String)>,
    pub input_files: Vec<String>,
}

pub enum AwkArgs {
    Help,
    Version,
    NoProgram,
    MissingFileArgument,
    MissingSeparatorArgument,
    MissingAssignmentArgument,
    InvalidAssignment(String),
    Run(AwkInvocation),
}

pub open spec fn opt_view(o: Option<String>) -> Option<Seq<char>> {
    match o {
        Some(s) => Some(s@),
        None => None,
    }
}

impl View for AwkInvocation {
    type V = AwkScan;

    open spec fn view(&self) -> AwkScan {
        AwkScan {
            source: opt_view(self.program_source),
            file: opt_view(self.program_file),
            fs: self.field_separator@,
            assigns: self.assignments@.map_values(|p: (String, String)| (p.0@, p.1@)),
            files: views(self.input_files@),
        }
    }
}

impl View for AwkArgs {
    type V = AwkOutcome;

    open spec fn view(&self) -> AwkOutcome {
        match self {
            AwkArgs::Help => AwkOutcome::Help,
            AwkArgs::Version => AwkOutcome::Version,
            AwkArgs::NoProgram => AwkOutcome::NoProgram,
            AwkArgs::MissingFileArgument => AwkOutcome::MissingFileArgument,
            AwkArgs::MissingSeparatorArgument => AwkOutcome::MissingSeparatorArgument,
            AwkArgs::MissingAssignmentArgument => AwkOutcome::MissingAssignmentArgument,
            AwkArgs::InvalidAssignment(a) => AwkOutcome::InvalidAssignment(a@),
            AwkArgs::Run(inv) => AwkOutcome::Run(inv@),
        }
    }
}

/// Splits `NAME=VALUE` at the first `=`, found at `k`.
fn split_at_char(a: &[char], k: usize) -> (r: (String, String))
    requires
        k < a@.len(),
    ensures
        (r.0@, r.1@) == split_assignment(a@, k as int),
{
    let mut left: Vec<char> = Vec::new();
    let mut right: Vec<char> = Vec::new();
    let mut i: usize = 0;
    while i < a.len()
        invariant
            k < a.len(),
            i <= a.len(),
            left@ == a@.take(if i <= k { i as int } else { k as int }),
            right@ == if i <= k + 1 { Seq::<char>::empty() } else { a@.subrange(k + 1, i as int) },
        decreases a.len() - i,
    {
        if i < k {
            left.push(a[i]);
            assert(a@.take(i + 1) =~= a@.take(i as int).push(a@[i as int]));
        } else if i > k {
            right.push(a[i]);
            if i == k + 1 {
                assert(a@.subrange(k + 1, i + 1) =~= seq![a@[i as int]]);
            } else {
                assert(a@.subrange(k + 1, i + 1) =~= a@.subrange(k + 1, i as int).push(a@[i as int]));
            }
        }
        i = i + 1;
    }
    assert(a@.subrange(k + 1, a.len() as int) =~= a@.skip(k + 1));
    (string_of(left.as_slice()), string_of(right.as_slice()))
}

/// Reads an awk command line: `--help` and `--version` anywhere, `-f FILE`, `-F FS`,
/// `-FFS`, `-v NAME=VALUE`, the program text, `NAME=VALUE` assignments and input files.
pub fn parse_awk_arguments(arguments: &Vec<String>) -> (r: AwkArgs)
    ensures
        r@ == awk_outcome(views(arguments@)),
{
    let ghost args = views(arguments@);
    if has_arg(arguments, "--help") {
        return AwkArgs::Help;
    }
    if has_arg(arguments, "--version") {
        return AwkArgs::Version;
    }
    if arguments.len() == 0 {
        return AwkArgs::NoProgram;
    }
    let mut inv = AwkInvocation {
        program_source: None,
        program_file: None,
        field_separator: String::from_str(" "),
        assignments: Vec::new(),
        input_files: Vec::new(),
    };
    assert(inv.assignments@.map_values(|p: (String, String)| (p.0@, p.1@)) =~= Seq::<(Seq<char>, Seq<char>)>::empty());
    assert(views(inv.input_files@) =~= Seq::<Seq<char>>::empty());
    let mut i: usize = 0;
    while i < arguments.len()
        invariant
            args == views(arguments@),
            i <= arguments.len(),
            awk_outcome(args) == scan(args, i as int, inv@),
            !args.contains("--help"@),
            !args.contains("--version"@),
            args.len() > 0,
        decreases arguments.len() - i,
    {
        let a = &arguments[i];
        assert(args[i as int] == a@);
        let ghost st = inv@;
        if is_lit(a, "-f") {
            if i + 1 >= arguments.len() {
                return AwkArgs::MissingFileArgument;
            }
            inv.program_file = Some(arguments[i + 1].clone());
            assert(inv@ == AwkScan { file: Some(args[i + 1]), ..st });
            i = i + 2;
        } else if is_lit(a, "-F") {
            if i + 1 >= arguments.len() {
                return AwkArgs::MissingSeparatorArgument;
            }
            inv.field_separator = unescape_fs(arguments[i + 1].as_str());
            assert(inv@ == AwkScan { fs: unescaped_fs(args[i + 1]), ..st });
            i = i + 2;
        } else if is_lit(a, "-v") {
            if i + 1 >= arguments.len() {
                return AwkArgs::MissingAssignmentArgument;
            }
            let v = chars_of(arguments[i + 1].as_str());
            assert(args[i + 1] == v@);
            match first_index_exec(v.as_slice(), '=') {
                Some(k) => {
                    proof {
                        lemma_first_index_bound(v@, '=');
                    }
                    let pair = split_at_char(v.as_slice(), k);
                    let ghost before = inv.assignments@;
                    inv.assignments.push(pair);
                    assert(inv.assignments@.map_values(|p: (String, String)| (p.0@, p.1@)) =~= st.assigns.push(split_assignment(args[i + 1], k as int)));
                    assert(inv@ == AwkScan { assigns: st.assigns.push(split_assignment(args[i + 1], k as int)), ..st });
                },
                None => {
                    return AwkArgs::InvalidAssignment(arguments[i + 1].clone());
                },
            }
            i = i + 2;
        } else {
            let v = chars_of(a.as_str());
            if v.len() > 2 && v[0] == '-' && v[1] == 'F' {
                let rest = string_of(subrange_exec(v.as_slice(), 2, v.len()).as_slice());
                proof {
                    assert(v@.subrange(2, v@.len() as int) =~= v@.skip(2));
                }
                inv.field_separator = unescape_fs(rest.as_str());
                assert(inv@ == AwkScan { fs: unescaped_fs(a@.skip(2)), ..st });
            } else if inv.program_source.is_none() && inv.program_file.is_none() {
                inv.program_source = Some(a.clone());
                assert(inv@ == AwkScan { source: Some(a@), ..st });
            } else {
                match first_index_exec(v.as_slice(), '=') {
                    Some(k) => {
                        proof {
                            lemma_first_index_bound(v@, '=');
                        }
                        if v.len() > 0 && v[0] == '-' {
                            inv.input_files.push(a.clone());
                            assert(views(inv.input_files@) =~= st.files.push(a@));
                        } else {
                            let pair = split_at_char(v.as_slice(), k);
                            inv.assignments.push(pair);
                            assert(inv.assignments@.map_values(|p: (String, String)| (p.0@, p.1@)) =~= st.assigns.push(split_assignment(a@, k as int)));
                        }
                    },
                    None => {
                        inv.input_files.push(a.clone());
                        assert(views(inv.input_files@) =~= st.files.push(a@));
                    },
                }
            }
            i = i + 1;
        }
    }
    AwkArgs::Run(inv)
}

proof fn lemma_first_index_bound(s: Seq<char>, c: char)
    ensures
        first_index(s, c) matches Some(k) ==> 0 <= k < s.len() && s[k] == c,
    decreases s.len(),
{
    if s.len() > 0 {
        lemma_first_index_bound(s.drop_last(), c);
    }
}

/// A separator holding no backslash is taken as it is.
pub proof fn lemma_unescape_plain(s: Seq<char>)
    requires
        !s.contains('\\'),
    ensures
        unescaped_fs(s) == s,
{
    reveal_strlit("\\t");
    reveal_strlit("\\n");
    assert("\\t"@[0] == '\\' && "\\n"@[0] == '\\');
    lemma_first_char_absent(s, "\\t"@);
    lemma_replace_absent(s, "\\t"@, "\t"@);
    lemma_first_char_absent(s, "\\n"@);
    lemma_replace_absent(s, "\\n"@, "\n"@);
}

/// `o` with the program taken from the file `file` in place of program text.
pub open spec fn with_program_file(o: AwkOutcome, file: Seq<char>) -> AwkOutcome {
    match o {
        AwkOutcome::Run(st) => AwkOutcome::Run(AwkScan { source: None, file: Some(file), ..st }),
        _ => o,
    }
}

proof fn lemma_scan_program_file(
    p: Seq<char>,
    src: Seq<char>,
    rest: Seq<Seq<char>>,
    k: int,
    st: AwkScan,
)
    requires
        0 <= k <= rest.len(),
        !rest.contains("-f"@),
    ensures
        scan(seq!["-f"@, p] + rest, 2 + k, AwkScan { source: None, file: Some(p), ..st })
            == with_program_file(
            scan(seq![src] + rest, 1 + k, AwkScan { source: Some(src), file: None, ..st }),
            p,
        ),
    decreases rest.len() - k,
{
    let a1 = seq!["-f"@, p] + rest;
    let a2 = seq![src] + rest;
    let s1 = AwkScan { source: None, file: Some(p), ..st };
    let s2 = AwkScan { source: Some(src), file: None, ..st };
    if k < rest.len() {
        let a = rest[k];
        assert(a1[2 + k] == a && a2[1 + k] == a);
        assert(a != "-f"@);
        if k + 1 < rest.len() {
            assert(a1[2 + k + 1] == rest[k + 1] && a2[1 + k + 1] == rest[k + 1]);
        }
        if a == "-F"@ || a == "-v"@ {
            if k + 1 < rest.len() {
                if a == "-F"@ {
                    lemma_scan_program_file(
                        p,
                        src,
                        rest,
                        k + 2,
                        AwkScan { fs: unescaped_fs(rest[k + 1]), ..st },
                    );
                } else if let Some(j) = first_index(rest[k + 1], '=') {
                    lemma_scan_program_file(
                        p,
                        src,
                        rest,
                        k + 2,
                        AwkScan { assigns: st.assigns.push(split_assignment(rest[k + 1], j)), ..st },
                    );
                }
            }
        } else if a.len() > 2 && a[0] == '-' && a[1] == 'F' {
            lemma_scan_program_file(p, src, rest, k + 1, AwkScan { fs: unescaped_fs(a.skip(2)), ..st });
        } else {
            match first_index(a, '=') {
                Some(j) => if a.len() > 0 && a[0] == '-' {
                    lemma_scan_program_file(p, src, rest, k + 1, AwkScan { files: st.files.push(a), ..st });
                } else {
                    lemma_scan_program_file(
                        p,
                        src,
                        rest,
                        k + 1,
                        AwkScan { assigns: st.assigns.push(split_assignment(a, j)), ..st },
                    );
                },
                None => {
                    lemma_scan_program_file(p, src, rest, k + 1, AwkScan { files: st.files.push(a), ..st });
                },
            }
        }
    } else {
        assert(a1.len() == 2 + k && a2.len() == 1 + k);
    }
}

/// Giving the program with `-f FILE` reads the command line as giving the file's
/// text in its place would: the same separator, assignments and input files, or
/// the same error. (The program text is taken not to start with `-`, and the
/// rest of the line to hold no `-f`, `--help` or `--version`.)
pub proof fn lemma_program_file_as_text(p: Seq<char>, src: Seq<char>, rest: Seq<Seq<char>>)
    requires
        src.len() > 0,
        src[0] != '-',
        p != "--help"@,
        p != "--version"@,
        !rest.contains("-f"@),
        !rest.contains("--help"@),
        !rest.contains("--version"@),
    ensures
        awk_outcome(seq!["-f"@, p] + rest) == with_program_file(awk_outcome(seq![src] + rest), p),
{
    reveal_strlit("-f");
    reveal_strlit("-F");
    reveal_strlit("-v");
    reveal_strlit("--help");
    reveal_strlit("--version");
    let a1 = seq!["-f"@, p] + rest;
    let a2 = seq![src] + rest;
    let init = AwkScan {
        source: None,
        file: None,
        fs: " "@,
        assigns: Seq::empty(),
        files: Seq::empty(),
    };
    assert("-f"@ != "--help"@ && "-f"@ != "--version"@) by {
        assert("-f"@.len() != "--help"@.len() && "-f"@.len() != "--version"@.len());
    }
    assert(src != "--help"@ && src != "--version"@) by {
        assert("--help"@[0] == '-' && "--version"@[0] == '-');
    }
    assert(src != "-f"@ && src != "-F"@ && src != "-v"@) by {
        assert("-f"@[0] == '-' && "-F"@[0] == '-' && "-v"@[0] == '-');
    }
    assert(!a1.contains("--help"@)) by {
        if a1.contains("--help"@) {
            let j = choose|j: int| 0 <= j < a1.len() && a1[j] == "--help"@;
            if j >= 2 {
                assert(rest[j - 2] == "--help"@);
            }
        }
    }
    assert(!a1.contains("--version"@)) by {
        if a1.contains("--version"@) {
            let j = choose|j: int| 0 <= j < a1.len() && a1[j] == "--version"@;
            if j >= 2 {
                assert(rest[j - 2] == "--version"@);
            }
        }
    }
    assert(!a2.contains("--help"@)) by {
        if a2.contains("--help"@) {
            let j = choose|j: int| 0 <= j < a2.len() && a2[j] == "--help"@;
            if j >= 1 {
                assert(rest[j - 1] == "--help"@);
            }
        }
    }
    assert(!a2.contains("--version"@)) by {
        if a2.contains("--version"@) {
            let j = choose|j: int| 0 <= j < a2.len() && a2[j] == "--version"@;
            if j >= 1 {
                assert(rest[j - 1] == "--version"@);
            }
        }
    }
    assert(a1[0] == "-f"@ && a1[1] == p && a2[0] == src);
    assert(scan(a1, 0, init) == scan(a1, 2, AwkScan { file: Some(p), ..init }));
    assert(scan(a2, 0, init) == scan(a2, 1, AwkScan { source: Some(src), ..init }));
    lemma_scan_program_file(p, src, rest, 0, init);
    assert(AwkScan { file: Some(p), ..init } == AwkScan { source: None, file: Some(p), ..init });
    assert(AwkScan { source: Some(src), ..init } == AwkScan { source: Some(src), file: None, ..init });
}

} // verus!
