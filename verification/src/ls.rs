use chrono::TimeZone;
use vstd::prelude::*;

use crate::text::{
    chars_of, decimal, has_arg, parse_unsigned, parse_unsigned_exec, push_decimal, split_on,
    split_on_exec, starts_with, starts_with_exec, string_of, views,
};

verus! {

/// What `ls` does with its arguments.
pub enum LsPlan {
    Help,
    Version,
    /// List `directory`, scaling sizes by `block_size`, with each file's owner when
    /// `author` holds.
    List { directory: String, block_size: usize, author: bool },
}

/// The first argument that starts with `--block-size=`.
pub open spec fn block_size_arg(args: Seq<Seq<char>>) -> Option<Seq<char>>
    decreases args.len(),
{
    if args.len() == 0 {
        None
    } else if starts_with(args[0], "--block-size="@) {
        Some(args[0])
    } else {
        block_size_arg(args.skip(1))
    }
}

/// The block size: the number after the last `=` of the first `--block-size=`
/// argument when it is a valid `usize`, and 1024 otherwise.
pub open spec fn block_size(args: Seq<Seq<char>>) -> nat {
    match block_size_arg(args) {
        Some(a) => match parse_unsigned(split_on(a, "="@).last(), usize::MAX as nat) {
            Some(n) => n,
            None => 1024,
        },
        None => 1024,
    }
}

/// The directory `ls` lists: its first argument that is not an option (does not
/// start with `-`), or `.`.
pub open spec fn ls_directory(args: Seq<Seq<char>>) -> Seq<char>
    decreases args.len(),
{
    if args.len() == 0 {
        "."@
    } else if args[0].len() > 0 && args[0][0] == '-' {
        ls_directory(args.skip(1))
    } else {
        args[0]
    }
}

fn ls_directory_exec(arguments: &Vec<String>) -> (r: String)
    ensures
        r@ == ls_directory(views(arguments@)),
{
    let ghost args = views(arguments@);
    let mut i: usize = 0;
    assert(args.skip(0) =~= args);
    while i < arguments.len()
        invariant
            args == views(arguments@),
            i <= arguments.len(),
            ls_directory(args) == ls_directory(args.skip(i as int)),
        decreases arguments.len() - i,
    {
        assert(args.skip(i as int)[0] == arguments@[i as int]@);
        assert(args.skip(i as int).skip(1) =~= args.skip(i + 1));
        if !starts_with_exec(arguments[i].as_str(), "-") {
            proof {
                reveal_strlit("-");
                if arguments@[i as int]@.len() > 0 && arguments@[i as int]@[0] == '-' {
                    assert(arguments@[i as int]@.take(1) =~= "-"@);
                }
            }
            return arguments[i].clone();
        }
        proof {
            reveal_strlit("-");
            assert(arguments@[i as int]@.take(1)[0] == '-');
        }
        i = i + 1;
    }
    assert(args.skip(i as int) =~= Seq::<Seq<char>>::empty());
    String::from_str(".")
}

/// Decides what `ls` does: `--help` and `--version` come first; otherwise the
/// directory, the block size and whether owners are shown.
pub fn ls_command(arguments: &Vec<String>) -> (r: LsPlan)
    ensures
        views(arguments@).contains("--help"@) ==> r is Help,
        !views(arguments@).contains("--help"@) && views(arguments@).contains("--version"@)
            ==> r is Version,
        !views(arguments@).contains("--help"@) && !views(arguments@).contains("--version"@) ==> (
        r matches LsPlan::List { directory, block_size: bs, author } && directory@
            == ls_directory(views(arguments@)) && bs as nat == block_size(views(arguments@))
            && author == views(arguments@).contains("--author"@)),
{
    if has_arg(arguments, "--help") {
        return LsPlan::Help;
    }
    if has_arg(arguments, "--version") {
        return LsPlan::Version;
    }
    let ghost args = views(arguments@);
    let directory = ls_directory_exec(arguments);
    let mut bs: usize = 1024;
    let mut i: usize = 0;
    assert(args.skip(0) =~= args);
    while i < arguments.len()
        invariant_except_break
            block_size_arg(args) == block_size_arg(args.skip(i as int)),
            bs == 1024,
        invariant
            args == views(arguments@),
            i <= arguments.len(),
        ensures
            bs as nat == block_size(args),
        decreases arguments.len() - i,
    {
        assert(args.skip(i as int)[0] == arguments@[i as int]@);
        if i + 1 == arguments.len() {
            assert(args.skip(i + 1) =~= Seq::<Seq<char>>::empty());
        }
        if starts_with_exec(arguments[i].as_str(), "--block-size=") {
            let v = chars_of(arguments[i].as_str());
            let eq = chars_of("=");
            let pieces = split_on_exec(v.as_slice(), eq.as_slice());
            proof {
                crate::text::lemma_split_on_nonempty(v@, eq@);
            }
            let last = &pieces[pieces.len() - 1];
            assert(crate::text::char_vecs(pieces@).last() == last@);
            match parse_unsigned_exec(last.as_slice(), usize::MAX as u64) {
                Some(n) => {
                    bs = n as usize;
                },
                None => {},
            }
            break;
        }
        assert(args.skip(i as int).skip(1) =~= args.skip(i + 1));
        i = i + 1;
    }
    let author = has_arg(arguments, "--author");
    LsPlan::List { directory, block_size: bs, author }
}

/// A size in bytes, or in whole blocks (`KB`), or in whole squared blocks (`MB`).
pub open spec fn size_text(f: nat, b: nat) -> Seq<char> {
    if f < b {
        decimal(f) + "B"@
    } else if f < b * b {
        decimal(f / b) + "KB"@
    } else {
        decimal(f / (b * b)) + "MB"@
    }
}

/// `format_size` can compute the size without failing.
pub open spec fn size_computable(f: nat, b: nat) -> bool {
    b > 0 && (f >= b ==> b * b <= usize::MAX)
}

/// Whether `format_size` can compute the size of `file_size` with `block_size`.
pub fn size_computable_exec(file_size: usize, block_size: usize) -> (r: bool)
    ensures
        r == size_computable(file_size as nat, block_size as nat),
{
    if block_size == 0 {
        return false;
    }
    if file_size < block_size {
        return true;
    }
    block_size.checked_mul(block_size).is_some()
}

/// Formats a file size with the block size.
pub fn format_size(file_size: usize, block_size: usize) -> (r: String)
    requires
        size_computable(file_size as nat, block_size as nat),
    ensures
        r@ == size_text(file_size as nat, block_size as nat),
{
    let mut out: Vec<char> = Vec::new();
    if file_size < block_size {
        push_decimal(&mut out, file_size as u64);
        out.push('B');
        proof {
            reveal_strlit("B");
        }
        assert(out@ =~= decimal(file_size as nat) + "B"@);
    } else if file_size < block_size * block_size {
        push_decimal(&mut out, (file_size / block_size) as u64);
        out.push('K');
        out.push('B');
        proof {
            reveal_strlit("KB");
        }
        assert(out@ =~= decimal((file_size / block_size) as nat) + "KB"@);
    } else {
        let sq = block_size * block_size;
        assert(sq > 0) by (nonlinear_arith)
            requires
                block_size > 0,
                sq == block_size * block_size,
        ;
        push_decimal(&mut out, (file_size / sq) as u64);
        out.push('M');
        out.push('B');
        proof {
            reveal_strlit("MB");
        }
        assert(out@ =~= decimal((file_size / sq) as nat) + "MB"@);
    }
    string_of(out.as_slice())
}

/// One listing line: size, date and name, then the owner when one is given.
pub open spec fn entry_text(size: Seq<char>, date: Seq<char>, name: Seq<char>, owner: Option<Seq<char>>) -> Seq<char> {
    let base = size + " "@ + date + " "@ + name;
    match owner {
        Some(o) => base + " "@ + o,
        None => base,
    }
}

/// A timestamp that chrono turns into a date: less than a second of nanoseconds,
/// and seconds within 8 * 10^12 of 1970.
pub open spec fn timestamp_accepted(secs: int, nanos: int) -> bool {
    nanos < 1_000_000_000 && -8_000_000_000_000 <= secs <= 8_000_000_000_000
}

/// chrono's formatting of a Unix timestamp in the local time zone as `%b %d %H:%M`
/// (`Utc::timestamp_opt`, `with_timezone(&Local)`, `format`); `None` when chrono
/// does not give a single instant for the timestamp. `DateTime::from_timestamp`
/// accepts every nanosecond count below one second with a second count within
/// about 262,000 years of 1970 (stated here for 8 * 10^12 seconds, about 253,000
/// years), and refuses every nanosecond count of two seconds or more. The text
/// depends on the machine's time zone, so nothing is stated of it.
#[verifier::external_body]
fn local_date_text(secs: i64, nanos: u32) -> (r: Option<String>)
    ensures
        timestamp_accepted(secs as int, nanos as int) ==> r is Some,
        nanos >= 2_000_000_000 ==> r is None,
{
    chrono::Utc.timestamp_opt(secs, nanos).single().map(
        |t| t.with_timezone(&chrono::Local).format("%b %d %H:%M").to_string(),
    )
}

/// The name of the user with id `uid` (`users::get_user_by_uid`, then `User::name`),
/// if the system knows one. It depends on the system's user database, so nothing is
/// stated of it.
#[verifier::external_body]
fn user_name(uid: u32) -> (r: Option<String>) {
    users::get_user_by_uid(uid).map(|u| u.name().to_string_lossy().into_owned())
}

fn entry_line(size: &String, date: &String, name: &str, owner: Option<String>) -> (r: String)
    ensures
        r@ == entry_text(
            size@,
            date@,
            name@,
            match owner {
                Some(o) => Some(o@),
                None => None,
            },
        ),
{
    let mut out = size.clone();
    out.append(" ");
    out.append(date.as_str());
    out.append(" ");
    out.append(name);
    match owner {
        Some(o) => {
            out.append(" ");
            out.append(o.as_str());
        },
        None => {},
    }
    out
}

/// The listing line of one file from its size scaled by the block size, its
/// creation date as text (`None` when it cannot be expressed, and then there is no
/// line), its name and, when known, its owner.
pub fn listing_line(
    file_size: usize,
    block_size: usize,
    date: Option<String>,
    file_name: &str,
    owner: Option<String>,
) -> (r: Option<String>)
    requires
        size_computable(file_size as nat, block_size as nat),
    ensures
        match date {
            Some(d) => r matches Some(line) && line@ == entry_text(
                size_text(file_size as nat, block_size as nat),
                d@,
                file_name@,
                match owner {
                    Some(o) => Some(o@),
                    None => None,
                },
            ),
            None => r is None,
        },
{
    let date = match date {
        Some(d) => d,
        None => {
            return None;
        },
    };
    let size = format_size(file_size, block_size);
    Some(entry_line(&size, &date, file_name, owner))
}

/// The listing line of one file: its size scaled by the block size, its creation
/// time in local time, its name, and, when `author` holds and the system knows the
/// owner, the owner's name. `None` when the creation time cannot be expressed.
pub fn ls_entry(
    file_size: usize,
    block_size: usize,
    created_secs: i64,
    created_nanos: u32,
    file_name: &str,
    author: bool,
    uid: u32,
) -> (r: Option<String>)
    requires
        size_computable(file_size as nat, block_size as nat),
    ensures
        r matches Some(line) ==> exists|date: Seq<char>, owner: Option<Seq<char>>|
            line@ == entry_text(size_text(file_size as nat, block_size as nat), date, file_name@, owner)
                && (!author ==> owner is None),
        timestamp_accepted(created_secs as int, created_nanos as int) ==> r is Some,
        created_nanos >= 2_000_000_000 ==> r is None,
{
    let date = local_date_text(created_secs, created_nanos);
    let owner = if author {
        user_name(uid)
    } else {
        None
    };
    listing_line(file_size, block_size, date, file_name, owner)
}

} // verus!
