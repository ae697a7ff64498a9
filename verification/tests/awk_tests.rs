use cacutils::awk_args::{parse_awk_arguments, unescape_fs, AwkArgs};
use cacutils::awk_format::{
    pad_text, parse_format, signed_text_exec, substr_exec, truncate_text, FormatPiece,
};
use cacutils::awk_lexer::{LexErrKind, Lexer, Sym, TK};
use cacutils::awk_parser::{AWKParser, ParseError, Pattern, Program};
use cacutils::awk_record::{range_step, split_records, Record};
use cacutils::awk_regex::{find_exec, lines_exec, match_position_exec, substitute};

fn strings(v: &[&str]) -> Vec<String> {
    v.iter().map(|s| s.to_string()).collect()
}

/// The kinds of the tokens of `src` up to the end of input, written out.
fn tokens(src: &str) -> Vec<String> {
    let mut lexer = Lexer::new(src);
    let mut out = Vec::new();
    loop {
        let t = lexer.next_token().expect("a token");
        if matches!(t.kind, TK::Sym(Sym::Eof)) {
            return out;
        }
        out.push(format!("{:?}", t.kind));
    }
}

fn lex_error(src: &str) -> LexErrKind {
    let mut lexer = Lexer::new(src);
    loop {
        match lexer.next_token() {
            Ok(t) => assert!(!matches!(t.kind, TK::Sym(Sym::Eof)), "no error in {:?}", src),
            Err(e) => return e.kind,
        }
    }
}

fn parse(src: &str) -> Result<Program, ParseError> {
    AWKParser::new(src).parse()
}

// ----- lexer -----

#[test]
fn lexer_reads_operators_and_operands() {
    assert_eq!(
        tokens("x = 1 + 2"),
        strings(&["Ident(\"x\")", "Sym(Eq)", "Num(\"1\")", "Sym(Plus)", "Num(\"2\")"])
    );
    assert_eq!(
        tokens(">> >= > != !~ ! || | && ++ += --"),
        strings(&[
            "Sym(Append)", "Sym(GtEq)", "Sym(Gt)", "Sym(BangEq)", "Sym(BangTilde)", "Sym(Bang)",
            "Sym(Or)", "Sym(Pipe)", "Sym(And)", "Sym(PlusPlus)", "Sym(PlusEq)", "Sym(MinusMinus)",
        ])
    );
    assert_eq!(
        tokens("{}()[],;:?$~"),
        strings(&[
            "Sym(LBrace)", "Sym(RBrace)", "Sym(LParen)", "Sym(RParen)", "Sym(LBrack)",
            "Sym(RBrack)", "Sym(Comma)", "Sym(Semi)", "Sym(Colon)", "Sym(Question)",
            "Sym(Dollar)", "Sym(Tilde)",
        ])
    );
}

#[test]
fn lexer_reads_numbers_as_written() {
    assert_eq!(tokens("1.5e3 .5 42 7E-2"), strings(&["Num(\"1.5e3\")", "Num(\".5\")", "Num(\"42\")", "Num(\"7E-2\")"]));
}

#[test]
fn lexer_reads_keywords_and_identifiers() {
    assert_eq!(
        tokens("BEGIN END function getline printf print _x9 in"),
        strings(&[
            "Sym(BEGIN)", "Sym(END)", "Sym(Function)", "Sym(Getline)", "Sym(Printf)",
            "Sym(Print)", "Ident(\"_x9\")", "Sym(In)",
        ])
    );
}

#[test]
fn lexer_reads_strings_with_escapes() {
    assert_eq!(tokens("\"a\\tb\\n\\\"q\\\"\""), strings(&["Str(\"a\\tb\\n\\\"q\\\"\")"]));
    assert_eq!(tokens("\"\\q\""), strings(&["Str(\"\\\\q\")"]));
}

#[test]
fn lexer_skips_comments_and_counts_lines() {
    let mut lexer = Lexer::new("# note\nx\n  y");
    let t = lexer.next_token().unwrap();
    assert!(matches!(t.kind, TK::Sym(Sym::Newline)));
    assert_eq!(t.line, 1);
    let t = lexer.next_token().unwrap();
    assert!(matches!(t.kind, TK::Ident(ref s) if s == "x"));
    assert_eq!(t.line, 2);
    lexer.next_token().unwrap();
    let t = lexer.next_token().unwrap();
    assert!(matches!(t.kind, TK::Ident(ref s) if s == "y"));
    assert_eq!(t.line, 3);
}

#[test]
fn lexer_joins_continued_lines() {
    assert_eq!(tokens("a \\\nb"), strings(&["Ident(\"a\")", "Ident(\"b\")"]));
}

#[test]
fn lexer_errors() {
    assert_eq!(lex_error("\"abc"), LexErrKind::UnterminatedString);
    assert_eq!(lex_error("x & y"), LexErrKind::UnexpectedAmpersand);
    assert_eq!(lex_error("x @"), LexErrKind::UnexpectedChar('@'));
    assert_eq!(lex_error("\\ x"), LexErrKind::UnexpectedChar('\\'));
}

#[test]
fn lexer_reads_regex_literals() {
    let mut lexer = Lexer::new("a\\/b+/ rest");
    let t = lexer.lex_regex().unwrap();
    assert!(matches!(t.kind, TK::Regex(ref s) if s == "a\\/b+"));
    let mut lexer = Lexer::new("never closed");
    assert_eq!(lexer.lex_regex().unwrap_err().kind, LexErrKind::UnterminatedRegex);
}

// ----- parser -----

#[test]
fn empty_program() {
    let p = parse("").unwrap();
    assert!(p.rules.is_empty() && p.functions.is_empty());
    let p = parse("\n;\n").unwrap();
    assert!(p.rules.is_empty());
}

#[test]
fn begin_rule_with_assignment() {
    let p = parse("BEGIN { x = 1 + 2 * 3 }").unwrap();
    assert_eq!(p.rules.len(), 1);
    assert!(matches!(p.rules[0].pattern, Pattern::Begin));
    assert_eq!(
        format!("{:?}", p.rules[0].action),
        "Block([Expr(Assign(Var(\"x\"), Binary(Add, Num(\"1\"), Binary(Mul, Num(\"2\"), Num(\"3\")))))])"
    );
}

#[test]
fn pattern_without_action_prints() {
    let p = parse("$1 > 5").unwrap();
    assert_eq!(
        format!("{:?}", p.rules[0].pattern),
        "Expr(Binary(Gt, Field(Num(\"1\")), Num(\"5\")))"
    );
    assert_eq!(format!("{:?}", p.rules[0].action), "Print([], None)");
}

#[test]
fn rules_in_order() {
    let p = parse("BEGIN { n = 0 }\n{ n++ }\nEND { print n }").unwrap();
    assert_eq!(p.rules.len(), 3);
    assert!(matches!(p.rules[0].pattern, Pattern::Begin));
    assert!(matches!(p.rules[1].pattern, Pattern::Always));
    assert!(matches!(p.rules[2].pattern, Pattern::End));
    assert_eq!(format!("{:?}", p.rules[1].action), "Block([Expr(PostIncDec(Var(\"n\"), Inc))])");
    assert_eq!(format!("{:?}", p.rules[2].action), "Block([Print([Var(\"n\")], None)])");
}

#[test]
fn patterns_with_actions() {
    let p = parse("/fo+/ { print $1 }").unwrap();
    assert_eq!(format!("{:?}", p.rules[0].pattern), "Expr(Regex(\"fo+\"))");
    assert_eq!(format!("{:?}", p.rules[0].action), "Block([Print([Field(Num(\"1\"))], None)])");
    let p = parse("$1 > 5 { print $2 }\n$0 ~ /a\\/b/ { n++ }").unwrap();
    assert_eq!(p.rules.len(), 2);
    assert_eq!(
        format!("{:?}", p.rules[0].pattern),
        "Expr(Binary(Gt, Field(Num(\"1\")), Num(\"5\")))"
    );
    assert_eq!(
        format!("{:?}", p.rules[1].pattern),
        "Expr(Match(Field(Num(\"0\")), Regex(\"a\\\\/b\")))"
    );
    assert!(matches!(parse("/never closed"), Err(ParseError::Lex(_))));
}

#[test]
fn range_pattern() {
    let p = parse("NR == 2, NR == 4 { print }").unwrap();
    assert!(matches!(p.rules[0].pattern, Pattern::Range(_, _)));
}

#[test]
fn functions_are_collected_by_name() {
    let p = parse("function add(a, b) { return a + b }\nfunction add(c) { return c }\n{ print add(1, 2) }").unwrap();
    assert_eq!(p.functions.len(), 1);
    assert_eq!(p.functions[0].0, "add");
    assert_eq!(p.functions[0].1.params, strings(&["c"]));
    assert_eq!(p.rules.len(), 1);
    assert_eq!(
        format!("{:?}", p.rules[0].action),
        "Block([Print([Call(\"add\", [Num(\"1\"), Num(\"2\")])], None)])"
    );
}

#[test]
fn control_flow_statements() {
    let p = parse("{ for (i = 0; i < 3; i++) s += i; if (s > 2) print \"big\"; else print \"small\" }").unwrap();
    let a = format!("{:?}", p.rules[0].action);
    assert!(a.starts_with("Block([For(Some(Expr(Assign(Var(\"i\"), Num(\"0\")))), Some(Binary(Lt, Var(\"i\"), Num(\"3\"))), Some(Expr(PostIncDec(Var(\"i\"), Inc))), Expr(CompoundAssign(Add, Var(\"s\"), Var(\"i\")))), If("));
    let p = parse("{ for (k in seen) print k }").unwrap();
    assert_eq!(
        format!("{:?}", p.rules[0].action),
        "Block([ForIn(\"k\", \"seen\", Print([Var(\"k\")], None))])"
    );
    let p = parse("{ while (x < 3) x++; do { y-- } while (y > 0); delete a[1]; delete b; next; exit 2 }").unwrap();
    let a = format!("{:?}", p.rules[0].action);
    assert!(a.contains("While(Binary(Lt, Var(\"x\"), Num(\"3\"))"));
    assert!(a.contains("DoWhile(Block([Expr(PostIncDec(Var(\"y\"), Dec))]), Binary(Gt, Var(\"y\"), Num(\"0\")))"));
    assert!(a.contains("Delete(\"a\", Some([Num(\"1\")]))"));
    assert!(a.contains("Delete(\"b\", None)"));
    assert!(a.contains("Next"));
    assert!(a.contains("Exit(Some(Num(\"2\")))"));
}

#[test]
fn concatenation_ternary_and_redirects() {
    let p = parse("{ print $1 \"-\" $2 > \"out.txt\"; x = y ? 1 : 2; print \"a\" | \"sort\"; print \"x\" >> \"log\" }").unwrap();
    let a = format!("{:?}", p.rules[0].action);
    // `>` after the arguments is read as a comparison; `>>` and `|` redirect.
    assert!(a.contains("Print([Binary(Gt, Concat([Field(Num(\"1\")), Str(\"-\"), Field(Num(\"2\"))]), Str(\"out.txt\"))], None)"));
    assert!(a.contains("Print([Str(\"x\")], Some(Append(Str(\"log\"))))"));
    assert!(a.contains("Assign(Var(\"x\"), Ternary(Var(\"y\"), Num(\"1\"), Num(\"2\")))"));
    assert!(a.contains("Print([Str(\"a\")], Some(Pipe(Str(\"sort\"))))"));
}

#[test]
fn membership_match_and_getline() {
    let p = parse("{ if ((k) in arr) print; x = $0 ~ \"ab\"; y = $0 !~ \"c\"; getline line }").unwrap();
    let a = format!("{:?}", p.rules[0].action);
    assert!(a.contains("InArray(Var(\"k\"), \"arr\")"));
    assert!(a.contains("Match(Field(Num(\"0\")), Str(\"ab\"))"));
    assert!(a.contains("Unary(Not, Match(Field(Num(\"0\")), Str(\"c\")))"));
    assert!(a.contains("Getline(Some(Var(\"line\")))"));
}

#[test]
fn parse_errors() {
    assert!(matches!(parse("{ print "), Err(ParseError::UnclosedBlock)));
    assert!(matches!(parse("BEGIN {"), Err(ParseError::UnclosedBlock)));
    assert!(matches!(parse("function (a) { }"), Err(ParseError::ExpectedFunctionName(1))));
    assert!(matches!(parse("{ delete 5 }"), Err(ParseError::ExpectedArrayAfterDelete(1))));
    assert!(matches!(parse("{ x = 1 in 5 }"), Err(ParseError::ExpectedArrayAfterIn(1))));
    assert!(matches!(parse("\n{ ) }"), Err(ParseError::UnexpectedToken(TK::Sym(Sym::RParen), 2))));
    match parse("(1") {
        Err(ParseError::Expected { expected, line, got }) => {
            assert_eq!(expected, Sym::RParen);
            assert_eq!(line, 1);
            assert!(matches!(got, TK::Sym(Sym::Eof)));
        }
        other => panic!("expected a missing parenthesis, got {:?}", other),
    }
    assert!(matches!(parse("{ x = \"open }"), Err(ParseError::Lex(_))));
}

// ----- command line -----

#[test]
fn awk_help_version_and_missing_arguments() {
    assert!(matches!(parse_awk_arguments(&strings(&["{print}", "--help"])), AwkArgs::Help));
    assert!(matches!(parse_awk_arguments(&strings(&["--version"])), AwkArgs::Version));
    assert!(matches!(parse_awk_arguments(&strings(&[])), AwkArgs::NoProgram));
    assert!(matches!(parse_awk_arguments(&strings(&["-f"])), AwkArgs::MissingFileArgument));
    assert!(matches!(parse_awk_arguments(&strings(&["-F"])), AwkArgs::MissingSeparatorArgument));
    assert!(matches!(parse_awk_arguments(&strings(&["-v"])), AwkArgs::MissingAssignmentArgument));
    match parse_awk_arguments(&strings(&["-v", "novalue", "{print}"])) {
        AwkArgs::InvalidAssignment(a) => assert_eq!(a, "novalue"),
        _ => panic!("expected an invalid assignment"),
    }
}

#[test]
fn awk_program_separator_assignments_and_files() {
    match parse_awk_arguments(&strings(&["-F:", "-v", "n=a=b", "{ print $1 }", "x=1", "-y=2", "data.txt"])) {
        AwkArgs::Run(inv) => {
            assert_eq!(inv.program_source, Some("{ print $1 }".to_string()));
            assert_eq!(inv.program_file, None);
            assert_eq!(inv.field_separator, ":");
            assert_eq!(
                inv.assignments,
                vec![("n".to_string(), "a=b".to_string()), ("x".to_string(), "1".to_string())]
            );
            assert_eq!(inv.input_files, strings(&["-y=2", "data.txt"]));
        }
        _ => panic!("expected a program to run"),
    }
    match parse_awk_arguments(&strings(&["-F", "\\t", "-f", "prog.awk", "in1", "in2"])) {
        AwkArgs::Run(inv) => {
            assert_eq!(inv.program_source, None);
            assert_eq!(inv.program_file, Some("prog.awk".to_string()));
            assert_eq!(inv.field_separator, "\t");
            assert_eq!(inv.input_files, strings(&["in1", "in2"]));
        }
        _ => panic!("expected a program to run"),
    }
    match parse_awk_arguments(&strings(&["-F", ","])) {
        AwkArgs::Run(inv) => {
            assert!(inv.program_source.is_none() && inv.program_file.is_none());
            assert_eq!(inv.field_separator, ",");
        }
        _ => panic!("options alone still run, with no program"),
    }
}

#[test]
fn field_separator_escapes() {
    assert_eq!(unescape_fs("\\t"), "\t");
    assert_eq!(unescape_fs("a\\nb"), "a\nb");
    assert_eq!(unescape_fs("::"), "::");
    assert_eq!(unescape_fs("\\x"), "\\x");
}

// ----- records -----

#[test]
fn records_split_into_fields() {
    let mut r = Record::new(" ".to_string());
    r.split_record("  alpha beta\tgamma  ");
    assert_eq!(r.fields, strings(&["alpha", "beta", "gamma"]));
    assert_eq!(r.nf, 3);
    assert_eq!(r.get_field(0), Some("  alpha beta\tgamma  ".to_string()));
    assert_eq!(r.get_field(2), Some("beta".to_string()));
    assert_eq!(r.get_field(4), None);
    let mut r = Record::new(":".to_string());
    r.split_record("a::b");
    assert_eq!(r.fields, strings(&["a", "", "b"]));
    let mut r = Record::new("--".to_string());
    r.split_record("x--y");
    assert_eq!(r.fields, strings(&["x", "y"]));
}

#[test]
fn writing_a_field_then_reading_it() {
    let mut r = Record::new(" ".to_string());
    r.split_record("a b c");
    r.set_field(2, "z".to_string());
    assert_eq!(r.get_field(2), Some("z".to_string()));
    assert_eq!(r.get_field(0), Some("a z c".to_string()));
    r.set_field(5, "e".to_string());
    assert_eq!(r.fields, strings(&["a", "z", "c", "", "e"]));
    assert_eq!(r.nf, 5);
    assert_eq!(r.record, "a z c  e");
    r.set_field(0, "p q".to_string());
    assert_eq!(r.fields, strings(&["p", "q"]));
    assert_eq!(r.nf, 2);
}

// ----- matching and substitution -----

#[test]
fn find_counts_characters() {
    let t: Vec<char> = "héllo wörld".chars().collect();
    assert_eq!(find_exec(&t, &"wö".chars().collect::<Vec<char>>()), Some(6));
    assert_eq!(find_exec(&t, &"zz".chars().collect::<Vec<char>>()), None);
    assert_eq!(find_exec(&t, &[]), Some(0));
}

#[test]
fn lines_like_str_lines() {
    let t: Vec<char> = "a\r\nb\n\nc".chars().collect();
    let ls: Vec<String> = lines_exec(&t).iter().map(|l| l.iter().collect()).collect();
    assert_eq!(ls, strings(&["a", "b", "", "c"]));
    let t: Vec<char> = "x\n".chars().collect();
    assert_eq!(lines_exec(&t).len(), 1);
}

#[test]
fn match_positions() {
    assert_eq!(match_position_exec("hello world", None, "wor"), (7, 3));
    assert_eq!(match_position_exec("hello", None, "z"), (0, -1));
    assert_eq!(match_position_exec("hello", Some("ll\n".to_string()), "l+"), (3, 2));
    assert_eq!(match_position_exec("hello", Some(String::new()), "ell"), (2, 3));
    assert_eq!(match_position_exec("héllo", Some("llo\n".to_string()), "l+o"), (3, 3));
    assert_eq!(match_position_exec("abc", Some("zz\n".to_string()), "b"), (2, 1));
}

#[test]
fn substitutions() {
    assert_eq!(substitute("aaa", None, "a", "b", true), ("bbb".to_string(), 3));
    assert_eq!(substitute("aaa", None, "a", "b", false), ("baa".to_string(), 1));
    assert_eq!(substitute("cat", None, "a", "[&]", false), ("c[a]t".to_string(), 1));
    assert_eq!(substitute("cat", None, "x", "y", true), ("cat".to_string(), 0));
    assert_eq!(substitute("cat", None, "x", "y", false), ("cat".to_string(), 0));
    assert_eq!(substitute("foo bar", Some("o\no\n".to_string()), "o", "0", true), ("f00 bar".to_string(), 2));
    assert_eq!(substitute("foo bar", Some("o\no\n".to_string()), "o", "0", false), ("f0o bar".to_string(), 1));
    assert_eq!(substitute("foo", Some(String::new()), "z", "y", true), ("foo".to_string(), 0));
    assert_eq!(substitute("ab ab", Some("ab\nab\n".to_string()), "a.", "<&>", true), ("<ab> <ab>".to_string(), 2));
}

// ----- formats, padding, substr -----

fn chars(s: &str) -> Vec<char> {
    s.chars().collect()
}

fn text(v: Vec<char>) -> String {
    v.into_iter().collect()
}

#[test]
fn format_pieces_of_a_format() {
    let pieces = parse_format(&chars("a%-5d|%05.2f%%x"));
    assert_eq!(pieces.len(), 6);
    assert!(matches!(pieces[0], FormatPiece::Text('a')));
    match pieces[1] {
        FormatPiece::Convert(c) => {
            assert!(c.left && !c.zero && !c.plus);
            assert_eq!(c.width, 5);
            assert_eq!(c.precision, None);
            assert_eq!(c.letter, 'd');
        }
        _ => panic!("a conversion"),
    }
    assert!(matches!(pieces[2], FormatPiece::Text('|')));
    match pieces[3] {
        FormatPiece::Convert(c) => {
            assert!(!c.left && c.zero);
            assert_eq!(c.width, 5);
            assert_eq!(c.precision, Some(2));
            assert_eq!(c.letter, 'f');
        }
        _ => panic!("a conversion"),
    }
    assert!(matches!(pieces[4], FormatPiece::Text('%')));
    assert!(matches!(pieces[5], FormatPiece::Text('x')));
}

#[test]
fn format_ends_at_a_cut_off_conversion() {
    assert_eq!(parse_format(&chars("ab%")).len(), 2);
    assert_eq!(parse_format(&chars("ab%-08.3")).len(), 2);
    match parse_format(&chars("%+.s"))[0] {
        FormatPiece::Convert(c) => {
            assert!(c.plus);
            assert_eq!(c.width, 0);
            assert_eq!(c.precision, None);
            assert_eq!(c.letter, 's');
        }
        _ => panic!("a conversion"),
    }
    match parse_format(&chars("%99999999999999999999999d"))[0] {
        FormatPiece::Convert(c) => assert_eq!(c.width, 0),
        _ => panic!("a conversion"),
    }
}

#[test]
fn padding() {
    assert_eq!(text(pad_text(&chars("42"), 5, false, false, true)), "   42");
    assert_eq!(text(pad_text(&chars("42"), 5, false, true, true)), "00042");
    assert_eq!(text(pad_text(&chars("42"), 5, true, true, true)), "42   ");
    // Zeros go after a sign.
    assert_eq!(text(pad_text(&signed_text_exec(-42, false), 5, false, true, true)), "-0042");
    assert_eq!(text(pad_text(&signed_text_exec(42, true), 5, false, true, true)), "+0042");
    assert_eq!(text(pad_text(&signed_text_exec(-42, false), 5, false, false, true)), "  -42");
    assert_eq!(text(pad_text(&signed_text_exec(-42, false), 5, true, true, true)), "-42  ");
    // Text that is not a number keeps zeros in front of a leading sign.
    assert_eq!(text(pad_text(&chars("-x"), 5, false, true, false)), "000-x");
    assert_eq!(text(pad_text(&chars("hello"), 3, false, false, true)), "hello");
    assert_eq!(text(pad_text(&chars("x"), 0, false, false, true)), "x");
    // Widths count bytes: "é" takes two.
    assert_eq!(text(pad_text(&chars("é"), 3, false, false, true)), " é");
    assert_eq!(text(pad_text(&chars("éé"), 3, false, false, true)), "éé");
}

#[test]
fn integers_with_signs() {
    assert_eq!(text(signed_text_exec(-42, false)), "-42");
    assert_eq!(text(signed_text_exec(7, true)), "+7");
    assert_eq!(text(signed_text_exec(0, false)), "0");
    assert_eq!(text(signed_text_exec(i64::MIN, true)), "-9223372036854775808");
}

#[test]
fn truncation() {
    assert_eq!(text(truncate_text(&chars("hello"), Some(3))), "hel");
    assert_eq!(text(truncate_text(&chars("hello"), Some(9))), "hello");
    assert_eq!(text(truncate_text(&chars("hello"), None)), "hello");
}

#[test]
fn substrings() {
    assert_eq!(text(substr_exec(&chars("hello"), 2, Some(3))), "ell");
    assert_eq!(text(substr_exec(&chars("hello"), 0, None)), "hello");
    assert_eq!(text(substr_exec(&chars("hello"), -3, Some(5))), "hello");
    assert_eq!(text(substr_exec(&chars("hello"), 10, Some(2))), "");
    assert_eq!(text(substr_exec(&chars("hello"), 4, Some(u64::MAX))), "lo");
}

#[test]
fn range_patterns() {
    // Closed, the start does not hold: no run, still closed.
    assert_eq!(range_step(false, false), (false, false));
    // Closed, the start holds: run, now open.
    assert_eq!(range_step(false, true), (true, true));
    // Open, the end does not hold: run, still open.
    assert_eq!(range_step(true, false), (true, true));
    // Open, the end holds: run for this record too, then closed.
    assert_eq!(range_step(true, true), (true, false));
}

#[test]
fn plain_formats_are_copied() {
    let pieces = parse_format(&chars("no conversions here"));
    assert_eq!(pieces.len(), 19);
    let copied: String = pieces
        .iter()
        .map(|p| match p {
            FormatPiece::Text(c) => *c,
            FormatPiece::Convert(_) => panic!("no conversion"),
        })
        .collect();
    assert_eq!(copied, "no conversions here");
}

#[test]
fn padding_reaches_the_width_and_keeps_the_text() {
    for (s, w) in [("7", 4usize), ("héllo", 8), ("long text", 3)] {
        let left = text(pad_text(&chars(s), w, true, false, true));
        let right = text(pad_text(&chars(s), w, false, true, true));
        assert!(left.len() >= w && right.len() >= w);
        assert!(left.starts_with(s) && right.ends_with(s));
        if s.len() < w {
            assert_eq!(left.len(), w);
            assert_eq!(right.len(), w);
        }
    }
}

#[test]
fn peeking_reads_ahead_without_consuming() {
    let mut p = AWKParser::new("x y");
    let k = format!("{:?}", p.peek().expect("a token").kind);
    assert_eq!(k, "Ident(\"y\")");
    let again = format!("{:?}", p.peek().expect("a token").kind);
    assert_eq!(again, k);
    assert_eq!(format!("{:?}", p.current.kind), "Ident(\"x\")");
    let mut q = AWKParser::new("x \"open");
    assert!(matches!(q.peek(), Err(ParseError::Lex(_))));
}

#[test]
fn records_by_separator() {
    assert_eq!(split_records("a\nb\r\nc\n", ""), vec!["a", "b", "c"]);
    assert_eq!(split_records("a\nb", "\n"), vec!["a", "b"]);
    assert_eq!(split_records("a;b;;c;", ";"), vec!["a", "b", "", "c"]);
    assert_eq!(split_records("a;b;\n", ";"), vec!["a", "b"]);
    assert_eq!(split_records("a::b", "::"), vec!["a", "b"]);
    assert_eq!(split_records("", ";"), Vec::<String>::new());
}

#[test]
fn program_file_reads_like_program_text() {
    let rest = ["-F", ":", "x=1", "in.txt"];
    let mut with_file = vec!["-f", "prog.awk"];
    with_file.extend_from_slice(&rest);
    let mut with_text = vec!["{ print $1 }"];
    with_text.extend_from_slice(&rest);
    match (parse_awk_arguments(&strings(&with_file)), parse_awk_arguments(&strings(&with_text))) {
        (AwkArgs::Run(a), AwkArgs::Run(b)) => {
            assert_eq!(a.program_file, Some("prog.awk".to_string()));
            assert_eq!(a.program_source, None);
            assert_eq!(b.program_file, None);
            assert_eq!(b.program_source, Some("{ print $1 }".to_string()));
            assert_eq!(a.field_separator, b.field_separator);
            assert_eq!(a.assignments, b.assignments);
            assert_eq!(a.input_files, b.input_files);
        }
        _ => panic!("both run"),
    }
}
