use vstd::prelude::*;

pub mod color;
pub mod text;
pub mod awk_lexer;
pub mod awk_parser;
pub mod awk_syntax;
pub mod awk_args;
pub mod awk_record;
pub mod awk_regex;
pub mod awk_format;
pub mod echo;
pub mod cat;
pub mod sleep;
pub mod cp;
pub mod rm;
pub mod mkdir;
pub mod time;
pub mod ls;
pub mod cd;
pub mod shell;

verus! {
}
