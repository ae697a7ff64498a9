use vstd::prelude::*;

use crate::text::{
    all_digits, decimal, is_ascii_digit, parse_unsigned, parse_unsigned_exec, push_decimal,
    subrange_exec,
};

verus! {

// ---------------------------------------------------------------------------
// `printf` formats
// ---------------------------------------------------------------------------

/// A conversion of a `printf` format: `%`, flags, width, precision and letter.
#[derive(Clone, Copy, Debug)]
pub struct Conversion {
    /// The `-` flag: pad on the right.
    pub left: bool,
    /// The `0` flag: pad with zeros on the left.
    pub zero: bool,
    /// The `+` flag: show the sign of a non-negative integer.
    pub plus: bool,
    /// The minimum width in bytes; 0 when none is given or it does not fit.
    pub width: usize,
    /// The precision, when a `.` is followed by digits whose value fits in an `i64`.
    pub precision: Option<u64>,
    pub letter: char,
}

/// A piece of a `printf` format: a character to copy, or a conversion that
/// takes the next argument.
#[derive(Clone, Copy, Debug)]
pub enum FormatPiece {
    Text(char),
    Convert(Conversion),
}

pub open spec fn is_flag(c: char) -> bool {
    c == '-' || c == '+' || c == ' ' || c == '#' || c == '0'
}

/// The end of the run of flag characters that starts at `i`.
pub open spec fn flags_end(s: Seq<char>, i: int) -> int
    decreases s.len() - i,
{
    if 0 <= i < s.len() && is_flag(s[i]) {
        flags_end(s, i + 1)
    } else {
        i
    }
}

/// The end of the run of ASCII digits that starts at `i`.
pub open spec fn digits_end(s: Seq<char>, i: int) -> int
    decreases s.len() - i,
{
    if 0 <= i < s.len() && is_ascii_digit(s[i]) {
        digits_end(s, i + 1)
    } else {
        i
    }
}

pub proof fn lemma_runs_end_after(s: Seq<char>, i: int)
    ensures
        i <= flags_end(s, i),
        i <= digits_end(s, i),
        flags_end(s, i) <= s.len() || flags_end(s, i) == i,
        digits_end(s, i) <= s.len() || digits_end(s, i) == i,
    decreases s.len() - i,
{
    if 0 <= i < s.len() {
        lemma_runs_end_after(s, i + 1);
    }
}

/// The value of a run of digits as an optional number no larger than `max`.
pub open spec fn number_in(s: Seq<char>, from: int, to: int, max: nat) -> Option<nat> {
    parse_unsigned(s.subrange(from, to), max)
}

/// The conversion whose flags start at `f` and whose letter is at `p`; the width
/// ends at `w`.
pub open spec fn conversion_at(s: Seq<char>, f: int, w: int, p: int) -> Conversion {
    let flags = s.subrange(f, flags_end(s, f));
    Conversion {
        left: flags.contains('-'),
        zero: flags.contains('0'),
        plus: flags.contains('+'),
        width: match number_in(s, flags_end(s, f), w, usize::MAX as nat) {
            Some(v) => v as usize,
            None => 0,
        },
        precision: if w < p {
            match number_in(s, w + 1, p, i64::MAX as nat) {
                Some(v) => Some(v as u64),
                None => None,
            }
        } else {
            None
        },
        letter: s[p],
    }
}

/// The position of the letter of the conversion whose flags start at `f`.
pub open spec fn letter_at(s: Seq<char>, f: int) -> int {
    let w = digits_end(s, flags_end(s, f));
    if w < s.len() && s[w] == '.' {
        digits_end(s, w + 1)
    } else {
        w
    }
}

/// The piece of the format `s` that starts at index `i`, and the index after it;
/// none where a `%` at the end, or a conversion cut off by the end, ends the format.
pub open spec fn piece_at(s: Seq<char>, i: int) -> Option<(FormatPiece, int)> {
    if s[i] != '%' {
        Some((FormatPiece::Text(s[i]), i + 1))
    } else if i + 1 >= s.len() {
        None
    } else if s[i + 1] == '%' {
        Some((FormatPiece::Text('%'), i + 2))
    } else {
        let w = digits_end(s, flags_end(s, i + 1));
        let p = letter_at(s, i + 1);
        if p >= s.len() {
            None
        } else {
            Some((FormatPiece::Convert(conversion_at(s, i + 1, w, p)), p + 1))
        }
    }
}

/// The pieces of the format `s` from index `i` on.
pub open spec fn format_pieces(s: Seq<char>, i: int) -> Seq<FormatPiece>
    decreases s.len() - i,
{
    if 0 <= i < s.len() {
        match piece_at(s, i) {
            Some((x, next)) => if i < next {
                seq![x] + format_pieces(s, next)
            } else {
                Seq::empty()
            },
            None => Seq::empty(),
        }
    } else {
        Seq::empty()
    }
}

proof fn lemma_piece_after(s: Seq<char>, i: int)
    requires
        0 <= i < s.len(),
    ensures
        piece_at(s, i) matches Some((_, next)) ==> i < next <= s.len(),
{
    lemma_runs_end_after(s, i + 1);
    lemma_runs_end_after(s, flags_end(s, i + 1));
    lemma_runs_end_after(s, digits_end(s, flags_end(s, i + 1)) + 1);
}

proof fn lemma_digits_run(s: Seq<char>, i: int, j: int)
    requires
        0 <= i <= j <= s.len(),
        forall|k: int| i <= k < j ==> is_ascii_digit(#[trigger] s[k]),
        j == s.len() || !is_ascii_digit(s[j]),
    ensures
        digits_end(s, i) == j,
    decreases j - i,
{
    if i < j {
        lemma_digits_run(s, i + 1, j);
    }
}

/// The precision of a conversion is the number written after its point, whether
/// or not a width comes before the point: `%` then the width digits `d1` (none,
/// or not starting with the flag `0`), `.`, the digits `d2` and a letter make one
/// conversion with that letter, the width `d1` (0 when none or too large), and the
/// precision `d2` (none when it does not fit an `i64`).
pub proof fn lemma_precision_after_point(d1: Seq<char>, d2: Seq<char>, letter: char)
    requires
        all_digits(d1),
        all_digits(d2),
        d1.len() == 0 || d1[0] != '0',
        !is_ascii_digit(letter),
    ensures
        ({
            let s = seq!['%'] + d1 + seq!['.'] + d2 + seq![letter];
            &&& format_pieces(s, 0).len() == 1
            &&& format_pieces(s, 0)[0] matches FormatPiece::Convert(c)
            &&& c.precision == match parse_unsigned(d2, i64::MAX as nat) {
                Some(v) => Some(v as u64),
                None => None,
            }
            &&& c.width as nat == match parse_unsigned(d1, usize::MAX as nat) {
                Some(v) => v,
                None => 0,
            }
            &&& c.letter == letter
            &&& !c.left && !c.zero && !c.plus
        }),
{
    let s = seq!['%'] + d1 + seq!['.'] + d2 + seq![letter];
    let n1 = d1.len() as int;
    let n2 = d2.len() as int;
    assert(s.len() == 3 + n1 + n2);
    assert(s[0] == '%');
    assert forall|k: int| 1 <= k < 1 + n1 implies is_ascii_digit(#[trigger] s[k]) by {
        assert(s[k] == d1[k - 1]);
    }
    assert(s[1 + n1] == '.');
    assert forall|k: int| 2 + n1 <= k < 2 + n1 + n2 implies is_ascii_digit(#[trigger] s[k]) by {
        assert(s[k] == d2[k - 2 - n1]);
    }
    assert(s[2 + n1 + n2] == letter);
    assert(!is_flag(s[1])) by {
        if n1 > 0 {
            assert(s[1] == d1[0]);
            assert(is_ascii_digit(d1[0]));
        }
    }
    assert(flags_end(s, 1) == 1);
    lemma_digits_run(s, 1, 1 + n1);
    lemma_digits_run(s, 2 + n1, 2 + n1 + n2);
    let w = 1 + n1;
    let p = 2 + n1 + n2;
    assert(digits_end(s, flags_end(s, 1)) == w);
    assert(letter_at(s, 1) == p);
    assert(s[1] != '%');
    assert(format_pieces(s, p + 1) =~= Seq::<FormatPiece>::empty());
    assert(s.subrange(1, 1) =~= Seq::<char>::empty());
    assert(s.subrange(1, w) =~= d1);
    assert(s.subrange(w + 1, p) =~= d2);
}

/// The end of the run of flag characters from `i`.
fn flags_end_exec(s: &[char], i: usize) -> (j: usize)
    requires
        i <= s@.len(),
    ensures
        j == flags_end(s@, i as int),
        i <= j <= s@.len(),
{
    let mut j = i;
    while j < s.len() && (s[j] == '-' || s[j] == '+' || s[j] == ' ' || s[j] == '#' || s[j] == '0')
        invariant
            i <= j <= s@.len(),
            flags_end(s@, i as int) == flags_end(s@, j as int),
        decreases s.len() - j,
    {
        j = j + 1;
    }
    j
}

/// The end of the run of ASCII digits from `i`.
fn digits_end_exec(s: &[char], i: usize) -> (j: usize)
    requires
        i <= s@.len(),
    ensures
        j == digits_end(s@, i as int),
        i <= j <= s@.len(),
{
    let mut j = i;
    while j < s.len() && '0' <= s[j] && s[j] <= '9'
        invariant
            i <= j <= s@.len(),
            digits_end(s@, i as int) == digits_end(s@, j as int),
        decreases s.len() - j,
    {
        j = j + 1;
    }
    j
}

/// Reads the conversion whose flags start at `f`, the `%` before it being read.
fn conversion_exec(s: &[char], f: usize, w: usize, p: usize) -> (c: Conversion)
    requires
        f <= s@.len(),
        w == digits_end(s@, flags_end(s@, f as int)),
        p == letter_at(s@, f as int),
        p < s@.len(),
    ensures
        c == conversion_at(s@, f as int, w as int, p as int),
{
    let fe = flags_end_exec(s, f);
    let flags = subrange_exec(s, f, fe);
    let mut left = false;
    let mut zero = false;
    let mut plus = false;
    let mut k: usize = 0;
    while k < flags.len()
        invariant
            k <= flags@.len(),
            left == flags@.subrange(0, k as int).contains('-'),
            zero == flags@.subrange(0, k as int).contains('0'),
            plus == flags@.subrange(0, k as int).contains('+'),
        decreases flags.len() - k,
    {
        let c = flags[k];
        proof {
            let a = flags@.subrange(0, k as int);
            let b = flags@.subrange(0, k + 1);
            assert(b =~= a.push(c));
            assert forall|x: char| b.contains(x) <==> (a.contains(x) || x == c) by {
                if b.contains(x) {
                    let j = choose|j: int| 0 <= j < b.len() && b[j] == x;
                    if j < a.len() {
                        assert(a[j] == x);
                    }
                }
                if a.contains(x) {
                    let j = choose|j: int| 0 <= j < a.len() && a[j] == x;
                    assert(b[j] == x);
                }
                if x == c {
                    assert(b[k as int] == x);
                }
            }
        }
        if c == '-' {
            left = true;
        }
        if c == '0' {
            zero = true;
        }
        if c == '+' {
            plus = true;
        }
        k = k + 1;
    }
    assert(flags@.subrange(0, flags@.len() as int) =~= flags@);
    proof {
        lemma_runs_end_after(s@, f as int);
        lemma_runs_end_after(s@, fe as int);
    }
    let wd = subrange_exec(s, fe, w);
    let width: usize = match parse_unsigned_exec(wd.as_slice(), usize::MAX as u64) {
        Some(v) => v as usize,
        None => 0,
    };
    let precision = if w < p {
        proof {
            lemma_runs_end_after(s@, w + 1);
        }
        let pd = subrange_exec(s, w + 1, p);
        parse_unsigned_exec(pd.as_slice(), i64::MAX as u64)
    } else {
        None
    };
    Conversion { left, zero, plus, width, precision, letter: s[p] }
}

/// Splits a `printf` format into the characters it copies and the conversions
/// it makes.
pub fn parse_format(s: &[char]) -> (r: Vec<FormatPiece>)
    ensures
        r@ == format_pieces(s@, 0),
{
    let mut out: Vec<FormatPiece> = Vec::new();
    let mut i: usize = 0;
    while i < s.len()
        invariant
            i <= s@.len(),
            format_pieces(s@, 0) == out@ + format_pieces(s@, i as int),
        decreases s.len() - i,
    {
        proof {
            lemma_piece_after(s@, i as int);
        }
        let ghost before = out@;
        let ghost rest = format_pieces(s@, i as int);
        if s[i] != '%' {
            out.push(FormatPiece::Text(s[i]));
            i = i + 1;
        } else if i + 1 >= s.len() {
            assert(out@ + rest =~= out@);
            return out;
        } else if s[i + 1] == '%' {
            out.push(FormatPiece::Text('%'));
            i = i + 2;
        } else {
            let f = i + 1;
            let fe = flags_end_exec(s, f);
            let w = digits_end_exec(s, fe);
            let p = if w < s.len() && s[w] == '.' {
                digits_end_exec(s, w + 1)
            } else {
                w
            };
            if p >= s.len() {
                assert(out@ + rest =~= out@);
                return out;
            }
            let c = conversion_exec(s, f, w, p);
            out.push(FormatPiece::Convert(c));
            i = p + 1;
        }
        assert(out@ + format_pieces(s@, i as int) =~= before + rest);
    }
    assert(out@ + format_pieces(s@, i as int) =~= out@);
    out
}

// ---------------------------------------------------------------------------
// Padding, integers, strings
// ---------------------------------------------------------------------------

/// The number of bytes `c` takes in UTF-8 (`char::len_utf8`).
pub open spec fn char_bytes(c: char) -> nat {
    if c <= '\u{7f}' {
        1
    } else if c <= '\u{7ff}' {
        2
    } else if c <= '\u{ffff}' {
        3
    } else {
        4
    }
}

/// The number of bytes `s` takes in UTF-8 (`str::len`).
pub open spec fn utf8_len(s: Seq<char>) -> nat
    decreases s.len(),
{
    if s.len() == 0 {
        0
    } else {
        utf8_len(s.drop_last()) + char_bytes(s.last())
    }
}

proof fn lemma_utf8_len_prefix(s: Seq<char>, i: int, j: int)
    requires
        0 <= i <= j <= s.len(),
    ensures
        utf8_len(s.subrange(0, i)) <= utf8_len(s.subrange(0, j)),
    decreases j - i,
{
    if i < j {
        lemma_utf8_len_prefix(s, i, j - 1);
        assert(s.subrange(0, j).drop_last() =~= s.subrange(0, j - 1));
    }
}

/// `n` copies of `c`.
pub open spec fn repeat(c: char, n: nat) -> Seq<char> {
    Seq::new(n, |_i: int| c)
}

pub open spec fn is_sign(c: char) -> bool {
    c == '-' || c == '+'
}

/// `s` padded to `width` bytes: with spaces after it when `left`, else before it;
/// with zeros when `zero`, which go after a leading sign when `s` is a number.
pub open spec fn padded(s: Seq<char>, width: nat, left: bool, zero: bool, number: bool) -> Seq<
    char,
> {
    let n = (width - utf8_len(s)) as nat;
    if utf8_len(s) >= width {
        s
    } else if left {
        s + repeat(' ', n)
    } else if number && zero && s.len() > 0 && is_sign(s[0]) {
        seq![s[0]] + repeat('0', n) + s.skip(1)
    } else {
        repeat(
            if zero {
                '0'
            } else {
                ' '
            },
            n,
        ) + s
    }
}

fn push_repeat(out: &mut Vec<char>, c: char, n: usize)
    ensures
        final(out)@ == old(out)@ + repeat(c, n as nat),
{
    let mut k: usize = 0;
    while k < n
        invariant
            k <= n,
            out@ == old(out)@ + repeat(c, k as nat),
        decreases n - k,
    {
        out.push(c);
        k = k + 1;
        assert(out@ =~= old(out)@ + repeat(c, k as nat));
    }
}

fn push_all(out: &mut Vec<char>, s: &[char])
    ensures
        final(out)@ == old(out)@ + s@,
{
    let mut k: usize = 0;
    while k < s.len()
        invariant
            k <= s@.len(),
            out@ == old(out)@ + s@.subrange(0, k as int),
        decreases s.len() - k,
    {
        out.push(s[k]);
        k = k + 1;
        assert(out@ =~= old(out)@ + s@.subrange(0, k as int));
    }
    assert(s@.subrange(0, s@.len() as int) =~= s@);
}

/// Pads `s` to `width` bytes as a `printf` conversion does; `number` tells a
/// numeric conversion, whose zeros go after its sign.
pub fn pad_text(s: &[char], width: usize, left: bool, zero: bool, number: bool) -> (r: Vec<char>)
    ensures
        r@ == padded(s@, width as nat, left, zero, number),
{
    let mut total: usize = 0;
    let mut i: usize = 0;
    let mut fits = width > 0;
    while i < s.len() && fits
        invariant
            i <= s@.len(),
            fits ==> total == utf8_len(s@.subrange(0, i as int)) && total < width,
            !fits ==> utf8_len(s@) >= width,
        decreases s.len() - i,
    {
        let c = s[i];
        let b: usize = if c <= '\u{7f}' {
            1
        } else if c <= '\u{7ff}' {
            2
        } else if c <= '\u{ffff}' {
            3
        } else {
            4
        };
        assert(s@.subrange(0, i + 1).drop_last() =~= s@.subrange(0, i as int));
        if b >= width - total {
            fits = false;
            proof {
                lemma_utf8_len_prefix(s@, i + 1, s@.len() as int);
                assert(s@.subrange(0, s@.len() as int) =~= s@);
            }
        } else {
            total = total + b;
        }
        i = i + 1;
    }
    let mut out: Vec<char> = Vec::new();
    if !fits {
        push_all(&mut out, s);
        assert(out@ =~= s@);
        return out;
    }
    assert(s@.subrange(0, s@.len() as int) =~= s@);
    let p = width - total;
    if left {
        push_all(&mut out, s);
        push_repeat(&mut out, ' ', p);
        assert(out@ =~= s@ + repeat(' ', p as nat));
    } else if number && zero && s.len() > 0 && (s[0] == '-' || s[0] == '+') {
        out.push(s[0]);
        push_repeat(&mut out, '0', p);
        let rest = subrange_exec(s, 1, s.len());
        push_all(&mut out, rest.as_slice());
        assert(out@ =~= seq![s@[0]] + repeat('0', p as nat) + s@.skip(1));
    } else {
        let c = if zero {
            '0'
        } else {
            ' '
        };
        push_repeat(&mut out, c, p);
        push_all(&mut out, s);
        assert(out@ =~= repeat(c, p as nat) + s@);
    }
    out
}

proof fn lemma_utf8_len_concat(a: Seq<char>, b: Seq<char>)
    ensures
        utf8_len(a + b) == utf8_len(a) + utf8_len(b),
    decreases b.len(),
{
    if b.len() > 0 {
        lemma_utf8_len_concat(a, b.drop_last());
        assert((a + b).drop_last() =~= a + b.drop_last());
    } else {
        assert(a + b =~= a);
    }
}

proof fn lemma_utf8_len_repeat(c: char, n: nat)
    requires
        c <= '\u{7f}',
    ensures
        utf8_len(repeat(c, n)) == n,
    decreases n,
{
    if n > 0 {
        lemma_utf8_len_repeat(c, (n - 1) as nat);
        assert(repeat(c, n).drop_last() =~= repeat(c, (n - 1) as nat));
    }
}

/// A padded conversion is at least `width` bytes long, and exactly that long
/// when the text was shorter. The text is kept: at the start when padding on the
/// right; otherwise everything after its first character ends the result, and
/// the first character leads it when the zeros of a number go after its sign, or
/// ends the padding.
pub proof fn lemma_padded_width(s: Seq<char>, width: nat, left: bool, zero: bool, number: bool)
    ensures
        utf8_len(padded(s, width, left, zero, number)) >= width,
        utf8_len(s) < width ==> utf8_len(padded(s, width, left, zero, number)) == width,
        left ==> padded(s, width, left, zero, number).take(s.len() as int) == s,
        !left && s.len() > 0 ==> padded(s, width, left, zero, number).skip(
            padded(s, width, left, zero, number).len() - s.len() + 1,
        ) == s.skip(1),
        !left && number && zero && s.len() > 0 && is_sign(s[0]) ==> padded(s, width, left, zero, number)[0]
            == s[0],
        !left && !(number && zero && s.len() > 0 && is_sign(s[0])) ==> padded(s, width, left, zero, number).skip(
            padded(s, width, left, zero, number).len() - s.len(),
        ) == s,
{
    let t = padded(s, width, left, zero, number);
    if utf8_len(s) >= width {
        assert(t.take(s.len() as int) =~= s);
        assert(t.skip(0) =~= s);
        if s.len() > 0 {
            assert(t.skip(1) =~= s.skip(1));
        }
    } else {
        let n = (width - utf8_len(s)) as nat;
        if left {
            lemma_utf8_len_repeat(' ', n);
            lemma_utf8_len_concat(s, repeat(' ', n));
            assert(t.take(s.len() as int) =~= s);
        } else if number && zero && s.len() > 0 && is_sign(s[0]) {
            lemma_utf8_len_repeat('0', n);
            lemma_utf8_len_repeat(s[0], 1);
            assert(repeat(s[0], 1) =~= seq![s[0]]);
            assert(s =~= seq![s[0]] + s.skip(1));
            lemma_utf8_len_concat(seq![s[0]], s.skip(1));
            lemma_utf8_len_concat(seq![s[0]], repeat('0', n));
            lemma_utf8_len_concat(seq![s[0]] + repeat('0', n), s.skip(1));
            assert(t.skip(t.len() - s.len() + 1) =~= s.skip(1));
        } else {
            let c = if zero {
                '0'
            } else {
                ' '
            };
            lemma_utf8_len_repeat(c, n);
            lemma_utf8_len_concat(repeat(c, n), s);
            assert(t.skip(t.len() - s.len()) =~= s);
            if s.len() > 0 {
                assert(t.skip(t.len() - s.len() + 1) =~= s.skip(1));
            }
        }
    }
}

/// A format without `%` copies every character as it is.
pub proof fn lemma_plain_format(s: Seq<char>, i: int)
    requires
        0 <= i <= s.len(),
        !s.contains('%'),
    ensures
        format_pieces(s, i).len() == s.len() - i,
        forall|k: int| 0 <= k < s.len() - i ==> #[trigger] format_pieces(s, i)[k]
            == FormatPiece::Text(s[i + k]),
    decreases s.len() - i,
{
    if i < s.len() {
        assert(s[i] != '%');
        lemma_plain_format(s, i + 1);
        let t = format_pieces(s, i);
        assert(t == seq![FormatPiece::Text(s[i])] + format_pieces(s, i + 1));
        assert forall|k: int| 0 <= k < s.len() - i implies #[trigger] t[k] == FormatPiece::Text(
            s[i + k],
        ) by {
            if k > 0 {
                assert(t[k] == format_pieces(s, i + 1)[k - 1]);
            }
        }
    }
}

/// The decimal notation of `n` with its sign, and with `+` before a
/// non-negative `n` when `plus` (`%d` with or without the `+` flag).
pub open spec fn signed_text(n: int, plus: bool) -> Seq<char> {
    if n < 0 {
        seq!['-'] + decimal((-n) as nat)
    } else if plus {
        seq!['+'] + decimal(n as nat)
    } else {
        decimal(n as nat)
    }
}

pub fn signed_text_exec(n: i64, plus: bool) -> (r: Vec<char>)
    ensures
        r@ == signed_text(n as int, plus),
{
    let mut out: Vec<char> = Vec::new();
    if n < 0 {
        out.push('-');
        let m: u64 = ((-(n + 1)) as u64) + 1;
        push_decimal(&mut out, m);
    } else {
        if plus {
            out.push('+');
        }
        push_decimal(&mut out, n as u64);
    }
    proof {
        if n >= 0 && !plus {
            assert(Seq::<char>::empty() + decimal(n as nat) =~= decimal(n as nat));
        }
    }
    out
}

/// At most the first `n` characters of `s`, or all of them when there is no `n`
/// (`%s` with a precision).
pub open spec fn truncated(s: Seq<char>, n: Option<u64>) -> Seq<char> {
    match n {
        Some(k) => if k < s.len() {
            s.take(k as int)
        } else {
            s
        },
        None => s,
    }
}

pub fn truncate_text(s: &[char], n: Option<u64>) -> (r: Vec<char>)
    ensures
        r@ == truncated(s@, n),
{
    let end: usize = match n {
        Some(k) => if k < s.len() as u64 {
            k as usize
        } else {
            s.len()
        },
        None => s.len(),
    };
    let r = subrange_exec(s, 0, end);
    assert(s@.subrange(0, s@.len() as int) =~= s@);
    r
}

// ---------------------------------------------------------------------------
// substr
// ---------------------------------------------------------------------------

/// What `substr(s, start, len)` gives: from the `start`th character (counting
/// from 1, at least the first) on, at most `len` characters, or all the rest.
pub open spec fn substr(s: Seq<char>, start: int, len: Option<nat>) -> Seq<char> {
    let from = if start <= 1 {
        0
    } else if start - 1 < s.len() {
        start - 1
    } else {
        s.len() as int
    };
    let first = if start <= 1 {
        0
    } else {
        start - 1
    };
    let to = match len {
        Some(n) => if first + n < s.len() {
            first + n
        } else {
            s.len() as int
        },
        None => s.len() as int,
    };
    s.subrange(from, to)
}

pub fn substr_exec(s: &[char], start: i64, len: Option<u64>) -> (r: Vec<char>)
    ensures
        r@ == substr(s@, start as int, match len {
            Some(n) => Some(n as nat),
            None => None,
        }),
{
    let n = s.len();
    let first: u64 = if start <= 1 {
        0
    } else {
        (start - 1) as u64
    };
    let from: usize = if first < n as u64 {
        first as usize
    } else {
        n
    };
    let to: usize = match len {
        Some(k) => if k < n as u64 && first < n as u64 - k {
            (first + k) as usize
        } else {
            n
        },
        None => n,
    };
    subrange_exec(s, from, to)
}

} // verus!
