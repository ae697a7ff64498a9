use vstd::prelude::*;

use crate::text::{
    chars_of, has_arg, is_lit, join, join_strings, lemma_first_char_absent, lemma_replace_absent,
    replace_all, replace_str, string_of, views,
};

verus! {

/// What `echo` does with its arguments.
pub enum EchoOutput {
    Help,
    Version,
    /// Print `text`, followed by a line feed when `newline` holds.
    Print { text: String, newline: bool },
}

pub open spec fn is_echo_flag(a: Seq<char>) -> bool {
    a == "-n"@ || a == "-e"@ || a == "-E"@
}

/// The arguments that are not `-n`, `-e` or `-E`, in order.
pub open spec fn echo_tokens(args: Seq<Seq<char>>) -> Seq<Seq<char>>
    decreases args.len(),
{
    if args.len() == 0 {
        Seq::empty()
    } else if is_echo_flag(args.last()) {
        echo_tokens(args.drop_last())
    } else {
        echo_tokens(args.drop_last()).push(args.last())
    }
}

/// Whether escapes are interpreted: the last of `-e` and `-E` decides, and neither
/// means no.
pub open spec fn echo_escapes(args: Seq<Seq<char>>) -> bool
    decreases args.len(),
{
    if args.len() == 0 {
        false
    } else if args.last() == "-e"@ {
        true
    } else if args.last() == "-E"@ {
        false
    } else {
        echo_escapes(args.drop_last())
    }
}

/// The escape sequences `\\`, `\n`, `\t`, `\r`, `\a`, `\b` and `\v` replaced by the
/// characters they stand for; a doubled backslash is set aside first so that it
/// stays a single backslash.
pub open spec fn interpret_escapes(s: Seq<char>) -> Seq<char> {
    let s1 = replace_all(s, "\\\\"@, "\x00BACKSLASH\x00"@);
    let s2 = replace_all(s1, "\\n"@, "\n"@);
    let s3 = replace_all(s2, "\\t"@, "\t"@);
    let s4 = replace_all(s3, "\\r"@, "\r"@);
    let s5 = replace_all(s4, "\\a"@, "\x07"@);
    let s6 = replace_all(s5, "\\b"@, "\x08"@);
    let s7 = replace_all(s6, "\\v"@, "\x0B"@);
    replace_all(s7, "\x00BACKSLASH\x00"@, "\\"@)
}

/// The text `echo` prints: the non-flag arguments joined by spaces, with escapes
/// interpreted when asked.
pub open spec fn echo_text(args: Seq<Seq<char>>) -> Seq<char> {
    let joined = join(echo_tokens(args), " "@);
    if echo_escapes(args) {
        interpret_escapes(joined)
    } else {
        joined
    }
}

pub fn interpret_escapes_exec(s: &str) -> (r: String)
    ensures
        r@ == interpret_escapes(s@),
{
    let v = chars_of(s);
    let s1 = replace_str(v.as_slice(), "\\\\", "\x00BACKSLASH\x00");
    let s2 = replace_str(s1.as_slice(), "\\n", "\n");
    let s3 = replace_str(s2.as_slice(), "\\t", "\t");
    let s4 = replace_str(s3.as_slice(), "\\r", "\r");
    let s5 = replace_str(s4.as_slice(), "\\a", "\x07");
    let s6 = replace_str(s5.as_slice(), "\\b", "\x08");
    let s7 = replace_str(s6.as_slice(), "\\v", "\x0B");
    let s8 = replace_str(s7.as_slice(), "\x00BACKSLASH\x00", "\\");
    string_of(s8.as_slice())
}

/// Decides what `echo` prints: `--help` and `--version` come first; otherwise `-n`
/// drops the final line feed, `-e` and `-E` turn escape interpretation on and off,
/// and every other argument is printed, separated by spaces.
pub fn echo_command(arguments: &Vec<String>) -> (r: EchoOutput)
    ensures
        views(arguments@).contains("--help"@) ==> r is Help,
        !views(arguments@).contains("--help"@) && views(arguments@).contains("--version"@)
            ==> r is Version,
        !views(arguments@).contains("--help"@) && !views(arguments@).contains("--version"@) ==> (
        r matches EchoOutput::Print { text, newline } && text@ == echo_text(views(arguments@))
            && newline == !views(arguments@).contains("-n"@)),
{
    if has_arg(arguments, "--help") {
        return EchoOutput::Help;
    }
    if has_arg(arguments, "--version") {
        return EchoOutput::Version;
    }
    let ghost args = views(arguments@);
    let mut no_newline = false;
    let mut escapes = false;
    let mut tokens: Vec<String> = Vec::new();
    let mut i: usize = 0;
    while i < arguments.len()
        invariant
            args == views(arguments@),
            i <= arguments.len(),
            views(tokens@) == echo_tokens(args.take(i as int)),
            escapes == echo_escapes(args.take(i as int)),
            no_newline == args.take(i as int).contains("-n"@),
        decreases arguments.len() - i,
    {
        let a = &arguments[i];
        let ghost t = args.take(i + 1);
        assert(t.drop_last() =~= args.take(i as int));
        assert(t.last() == a@);
        proof {
            reveal_strlit("-n");
            reveal_strlit("-e");
            reveal_strlit("-E");
            assert("-n"@[1] != "-e"@[1] && "-n"@[1] != "-E"@[1] && "-e"@[1] != "-E"@[1]);
        }
        if is_lit(a, "-n") {
            no_newline = true;
        } else if is_lit(a, "-e") {
            escapes = true;
        } else if is_lit(a, "-E") {
            escapes = false;
        } else {
            let ghost before = tokens@;
            tokens.push(a.clone());
            assert(views(tokens@) =~= views(before).push(a@));
        }
        proof {
            if t.contains("-n"@) && a@ != "-n"@ {
                let j = choose|j: int| 0 <= j < t.len() && t[j] == "-n"@;
                assert(args.take(i as int)[j] == "-n"@);
            }
            if a@ == "-n"@ {
                assert(t[i as int] == "-n"@);
            }
            if args.take(i as int).contains("-n"@) {
                let j = choose|j: int| 0 <= j < i && args.take(i as int)[j] == "-n"@;
                assert(t[j] == "-n"@);
            }
        }
        i = i + 1;
    }
    assert(args.take(arguments.len() as int) =~= args);
    let joined = join_strings(&tokens, " ");
    let text = if escapes {
        interpret_escapes_exec(joined.as_str())
    } else {
        joined
    };
    EchoOutput::Print { text, newline: !no_newline }
}

/// With `-e`, a text holding no backslash (and no NUL character) is printed as it is.
pub proof fn lemma_escapes_plain(s: Seq<char>)
    requires
        !s.contains('\\'),
        !s.contains('\0'),
    ensures
        interpret_escapes(s) == s,
{
    reveal_strlit("\\\\");
    reveal_strlit("\\n");
    reveal_strlit("\\t");
    reveal_strlit("\\r");
    reveal_strlit("\\a");
    reveal_strlit("\\b");
    reveal_strlit("\\v");
    reveal_strlit("\x00BACKSLASH\x00");
    lemma_first_char_absent(s, "\\\\"@);
    lemma_replace_absent(s, "\\\\"@, "\x00BACKSLASH\x00"@);
    lemma_first_char_absent(s, "\\n"@);
    lemma_replace_absent(s, "\\n"@, "\n"@);
    lemma_first_char_absent(s, "\\t"@);
    lemma_replace_absent(s, "\\t"@, "\t"@);
    lemma_first_char_absent(s, "\\r"@);
    lemma_replace_absent(s, "\\r"@, "\r"@);
    lemma_first_char_absent(s, "\\a"@);
    lemma_replace_absent(s, "\\a"@, "\x07"@);
    lemma_first_char_absent(s, "\\b"@);
    lemma_replace_absent(s, "\\b"@, "\x08"@);
    lemma_first_char_absent(s, "\\v"@);
    lemma_replace_absent(s, "\\v"@, "\x0B"@);
    assert("\x00BACKSLASH\x00"@[0] == '\0');
    lemma_first_char_absent(s, "\x00BACKSLASH\x00"@);
    lemma_replace_absent(s, "\x00BACKSLASH\x00"@, "\\"@);
}

} // verus!
