use vstd::prelude::*;

verus! {

// ---------------------------------------------------------------------------
// Conversions between strings and character vectors
// ---------------------------------------------------------------------------

/// The characters of `s`, in order.
pub(crate) fn chars_of(s: &str) -> (v: Vec<char>)
    ensures
        v@ == s@,
{
    broadcast use vstd::string::axiom_spec_iter;

    let mut v: Vec<char> = Vec::new();
    for c in it: s.chars()
        invariant
            v@ == it.seq().take(it.index() as int),
            it.seq() == s@,
    {
        v.push(c);
        assert(v@ =~= it.seq().take(it.index() + 1));
    }
    assert(v@ =~= s@);
    v
}

/// The string made of the characters of `v`, in order (`Iterator::collect` into a `String`).
#[verifier::external_body]
pub(crate) fn string_of(v: &[char]) -> (s: String)
    ensures
        s@ == v@,
{
    v.iter().collect()
}

// ---------------------------------------------------------------------------
// Unicode character classes (std's `char` methods)
// ---------------------------------------------------------------------------

/// Whether `c` has the Unicode `Alphabetic` property, as `char::is_alphabetic` decides.
pub uninterp spec fn unicode_alphabetic(c: char) -> bool;

/// Whether `c` is alphabetic or numeric in Unicode, as `char::is_alphanumeric` decides.
pub uninterp spec fn unicode_alphanumeric(c: char) -> bool;

/// Whether `c` has the Unicode `White_Space` property, as `char::is_whitespace` decides.
pub uninterp spec fn unicode_whitespace(c: char) -> bool;

/// `char::is_alphabetic`; its result is named by `unicode_alphabetic`.
/// std documents it as the Unicode `Alphabetic` property, which among ASCII
/// characters the letters alone have, and `is_alphanumeric` as true of every
/// alphabetic character.
#[verifier::external_body]
pub(crate) fn is_alphabetic(c: char) -> (r: bool)
    ensures
        r == unicode_alphabetic(c),
        r ==> unicode_alphanumeric(c),
        c <= '\x7f' ==> (r <==> ('a' <= c <= 'z' || 'A' <= c <= 'Z')),
{
    c.is_alphabetic()
}

/// `char::is_alphanumeric`; its result is named by `unicode_alphanumeric`.
/// std documents it as alphabetic or numeric, which among ASCII characters the
/// letters and digits alone are.
#[verifier::external_body]
pub(crate) fn is_alphanumeric(c: char) -> (r: bool)
    ensures
        r == unicode_alphanumeric(c),
        c <= '\x7f' ==> (r <==> ('a' <= c <= 'z' || 'A' <= c <= 'Z' || '0' <= c <= '9')),
{
    c.is_alphanumeric()
}

/// `char::is_whitespace`; its result is named by `unicode_whitespace`.
/// std documents it as the Unicode `White_Space` property, which among ASCII
/// characters space, tab, line feed, vertical tab, form feed and carriage return
/// alone have.
#[verifier::external_body]
pub(crate) fn is_whitespace(c: char) -> (r: bool)
    ensures
        r == unicode_whitespace(c),
        c <= '\x7f' ==> (r <==> (c == ' ' || c == '\t' || c == '\n' || c == '\x0B' || c
            == '\x0C' || c == '\r')),
{
    c.is_whitespace()
}

pub open spec fn is_ascii_digit(c: char) -> bool {
    '0' <= c && c <= '9'
}

// ---------------------------------------------------------------------------
// Pattern matching, replacing, splitting and joining over character sequences
// ---------------------------------------------------------------------------

/// `pat` occurs in `s` starting at index `i`.
pub open spec fn matches_at(s: Seq<char>, i: int, pat: Seq<char>) -> bool {
    0 <= i && i + pat.len() <= s.len() && s.subrange(i, i + pat.len()) == pat
}

/// Every non-overlapping occurrence of `pat` in `s`, found from the left, replaced by
/// `rep`; an empty `pat` matches before every character and at the end (`str::replace`).
pub open spec fn replace_all(s: Seq<char>, pat: Seq<char>, rep: Seq<char>) -> Seq<char>
    decreases s.len(),
{
    if pat.len() == 0 {
        if s.len() == 0 {
            rep
        } else {
            rep + seq![s[0]] + replace_all(s.skip(1), pat, rep)
        }
    } else if s.len() == 0 {
        s
    } else if matches_at(s, 0, pat) {
        rep + replace_all(s.skip(pat.len() as int), pat, rep)
    } else {
        seq![s[0]] + replace_all(s.skip(1), pat, rep)
    }
}

/// The pieces of `s` between the non-overlapping occurrences of a non-empty `sep`,
/// found from the left (`str::split` with a string or character pattern); an empty `sep`
/// yields an empty piece, each character, and an empty piece.
pub open spec fn split_on(s: Seq<char>, sep: Seq<char>) -> Seq<Seq<char>>
    decreases s.len(),
{
    if sep.len() == 0 {
        seq![Seq::<char>::empty()] + s.map_values(|c: char| seq![c]) + seq![Seq::<char>::empty()]
    } else if s.len() == 0 {
        seq![Seq::<char>::empty()]
    } else if matches_at(s, 0, sep) {
        seq![Seq::<char>::empty()] + split_on(s.skip(sep.len() as int), sep)
    } else {
        let rest = split_on(s.skip(1), sep);
        rest.update(0, seq![s[0]] + rest[0])
    }
}

/// The parts joined with `sep` between each two of them (`[String]::join`).
pub open spec fn join(parts: Seq<Seq<char>>, sep: Seq<char>) -> Seq<char>
    decreases parts.len(),
{
    if parts.len() == 0 {
        Seq::empty()
    } else if parts.len() == 1 {
        parts[0]
    } else {
        join(parts.drop_last(), sep) + sep + parts.last()
    }
}

/// The maximal runs of non-whitespace characters of `s`, in order (`str::split_whitespace`).
pub open spec fn words(s: Seq<char>) -> Seq<Seq<char>>
    decreases s.len(),
{
    if s.len() == 0 {
        Seq::empty()
    } else if unicode_whitespace(s.last()) {
        words(s.drop_last())
    } else if s.len() >= 2 && !unicode_whitespace(s[s.len() - 2]) {
        let w = words(s.drop_last());
        w.update(w.len() - 1, w.last().push(s.last()))
    } else {
        words(s.drop_last()).push(seq![s.last()])
    }
}

/// The views of a vector of character vectors.
pub open spec fn char_vecs(v: Seq<Vec<char>>) -> Seq<Seq<char>> {
    v.map_values(|x: Vec<char>| x@)
}

/// The views of a vector of strings.
pub open spec fn views(v: Seq<String>) -> Seq<Seq<char>> {
    v.map_values(|x: String| x@)
}

// ---------------------------------------------------------------------------
// Decimal numbers
// ---------------------------------------------------------------------------

pub open spec fn digit_char(d: nat) -> char
    recommends
        d < 10,
{
    if d == 0 {
        '0'
    } else if d == 1 {
        '1'
    } else if d == 2 {
        '2'
    } else if d == 3 {
        '3'
    } else if d == 4 {
        '4'
    } else if d == 5 {
        '5'
    } else if d == 6 {
        '6'
    } else if d == 7 {
        '7'
    } else if d == 8 {
        '8'
    } else {
        '9'
    }
}

pub open spec fn digit_value(c: char) -> nat
    recommends
        is_ascii_digit(c),
{
    (c as int - '0' as int) as nat
}

/// The decimal notation of `n`, without sign or leading zeros (`Display` for integers).
pub open spec fn decimal(n: nat) -> Seq<char>
    decreases n,
{
    if n < 10 {
        seq![digit_char(n)]
    } else {
        decimal(n / 10).push(digit_char(n % 10))
    }
}

/// The value of a sequence of ASCII digits.
pub open spec fn digits_value(s: Seq<char>) -> nat
    decreases s.len(),
{
    if s.len() == 0 {
        0
    } else {
        digits_value(s.drop_last()) * 10 + digit_value(s.last())
    }
}

pub open spec fn all_digits(s: Seq<char>) -> bool {
    forall|i: int| 0 <= i < s.len() ==> #[trigger] is_ascii_digit(s[i])
}

/// The digits that an unsigned `FromStr` reads: all of `s`, or all but a leading `+`.
pub open spec fn unsigned_digits(s: Seq<char>) -> Seq<char> {
    if s.len() > 0 && s[0] == '+' {
        s.skip(1)
    } else {
        s
    }
}

/// What `str::parse` gives for an unsigned integer type whose largest value is `max`:
/// an optional `+`, then one or more ASCII digits whose value does not exceed `max`.
pub open spec fn parse_unsigned(s: Seq<char>, max: nat) -> Option<nat> {
    let d = unsigned_digits(s);
    if d.len() > 0 && all_digits(d) && digits_value(d) <= max {
        Some(digits_value(d))
    } else {
        None
    }
}

/// Appends the decimal notation of `n` to `out`.
pub fn push_decimal(out: &mut Vec<char>, n: u64)
    ensures
        final(out)@ == old(out)@ + decimal(n as nat),
    decreases n,
{
    if n >= 10 {
        push_decimal(out, n / 10);
    }
    let d = n % 10;
    let c = if d == 0 {
        '0'
    } else if d == 1 {
        '1'
    } else if d == 2 {
        '2'
    } else if d == 3 {
        '3'
    } else if d == 4 {
        '4'
    } else if d == 5 {
        '5'
    } else if d == 6 {
        '6'
    } else if d == 7 {
        '7'
    } else if d == 8 {
        '8'
    } else {
        '9'
    };
    out.push(c);
    proof {
        if n >= 10 {
            assert(decimal(n as nat) == decimal((n / 10) as nat).push(digit_char((n % 10) as nat)));
        }
    }
}

/// Parses `s` as `str::parse` does for an unsigned integer type no larger than `max`.
pub fn parse_unsigned_exec(s: &[char], max: u64) -> (r: Option<u64>)
    ensures
        r matches Some(v) ==> parse_unsigned(s@, max as nat) == Some(v as nat),
        r is None ==> parse_unsigned(s@, max as nat) is None,
{
    let start: usize = if s.len() > 0 && s[0] == '+' {
        1
    } else {
        0
    };
    let ghost d = unsigned_digits(s@);
    assert(d == s@.skip(start as int));
    if start >= s.len() {
        return None;
    }
    let mut value: u64 = 0;
    let mut i: usize = start;
    while i < s.len()
        invariant
            start <= i <= s.len(),
            d == s@.skip(start as int),
            d == unsigned_digits(s@),
            all_digits(s@.subrange(start as int, i as int)),
            value as nat == digits_value(s@.subrange(start as int, i as int)),
            value <= max,
        decreases s.len() - i,
    {
        let c = s[i];
        assert(s@.subrange(start as int, i + 1).drop_last() == s@.subrange(start as int, i as int));
        if !('0' <= c && c <= '9') {
            proof {
                assert(d[i - start] == c);
                assert(!is_ascii_digit(d[i - start]));
            }
            return None;
        }
        let dv: u64 = (c as u64) - ('0' as u64);
        assert(digit_value(c) == dv);
        if value > max / 10 || max - value * 10 < dv {
            proof {
                assert(value * 10 + dv > max) by (nonlinear_arith)
                    requires
                        value > max / 10 || (value <= max / 10 && max - value * 10 < dv),
                ;
                assert(d.take(i + 1 - start) == s@.subrange(start as int, i + 1));
                if all_digits(d) {
                    lemma_digits_value_prefix(d, i + 1 - start);
                }
            }
            return None;
        }
        value = value * 10 + dv;
        i = i + 1;
    }
    assert(s@.subrange(start as int, s@.len() as int) == d);
    Some(value)
}

/// The value of a prefix of a sequence of digits is at most the value of the whole.
proof fn lemma_digits_value_prefix(d: Seq<char>, k: int)
    requires
        0 <= k <= d.len(),
        all_digits(d),
    ensures
        digits_value(d.take(k)) <= digits_value(d),
    decreases d.len() - k,
{
    if k < d.len() {
        lemma_digits_value_prefix(d, k + 1);
        assert(d.take(k + 1).drop_last() == d.take(k));
    } else {
        assert(d.take(k) == d);
    }
}

// ---------------------------------------------------------------------------
// Executable counterparts of the sequence operations
// ---------------------------------------------------------------------------

/// Whether `pat` occurs in `s` at index `i`.
pub fn matches_at_exec(s: &[char], i: usize, pat: &[char]) -> (r: bool)
    ensures
        r == matches_at(s@, i as int, pat@),
{
    if i > s.len() || pat.len() > s.len() - i {
        return false;
    }
    let mut k: usize = 0;
    while k < pat.len()
        invariant
            k <= pat.len(),
            i + pat.len() <= s.len(),
            forall|j: int| 0 <= j < k ==> s@[i + j] == pat@[j],
        decreases pat.len() - k,
    {
        if s[i + k] != pat[k] {
            assert(s@.subrange(i as int, i + pat.len())[k as int] == s@[i + k]);
            return false;
        }
        k = k + 1;
    }
    assert(s@.subrange(i as int, i + pat.len()) =~= pat@);
    true
}

proof fn lemma_skip_skip(s: Seq<char>, a: int, b: int)
    requires
        0 <= a,
        0 <= b,
        a + b <= s.len(),
    ensures
        s.skip(a).skip(b) == s.skip(a + b),
{
    assert(s.skip(a).skip(b) =~= s.skip(a + b));
}

proof fn lemma_matches_at_skip(s: Seq<char>, i: int, pat: Seq<char>)
    requires
        0 <= i <= s.len(),
    ensures
        matches_at(s.skip(i), 0, pat) == matches_at(s, i, pat),
{
    if i + pat.len() <= s.len() {
        assert(s.skip(i).subrange(0, pat.len() as int) =~= s.subrange(i, i + pat.len()));
    }
}

/// `s` with every occurrence of `pat` replaced by `rep`, as `str::replace` does.
pub fn replace_all_exec(s: &[char], pat: &[char], rep: &[char]) -> (r: Vec<char>)
    ensures
        r@ == replace_all(s@, pat@, rep@),
{
    let mut out: Vec<char> = Vec::new();
    let mut i: usize = 0;
    assert(s@.skip(0) =~= s@);
    while i < s.len()
        invariant
            i <= s.len(),
            out@ + replace_all(s@.skip(i as int), pat@, rep@) == replace_all(s@, pat@, rep@),
        decreases s.len() - i,
    {
        let ghost rest = s@.skip(i as int);
        if pat.len() == 0 {
            out.extend_from_slice(rep);
            out.push(s[i]);
            proof {
                lemma_skip_skip(s@, i as int, 1);
                assert(out@ + replace_all(s@.skip(i + 1), pat@, rep@) =~= (out@.take(out@.len() - rep@.len() - 1)) + (rep@ + seq![rest[0]] + replace_all(rest.skip(1), pat@, rep@)));
            }
            i = i + 1;
        } else if matches_at_exec(s, i, pat) {
            proof {
                lemma_matches_at_skip(s@, i as int, pat@);
                lemma_skip_skip(s@, i as int, pat@.len() as int);
            }
            let ghost before = out@;
            out.extend_from_slice(rep);
            proof {
                assert(out@ + replace_all(s@.skip(i + pat@.len()), pat@, rep@) =~= before + (rep@ + replace_all(rest.skip(pat@.len() as int), pat@, rep@)));
            }
            i = i + pat.len();
        } else {
            proof {
                lemma_matches_at_skip(s@, i as int, pat@);
                lemma_skip_skip(s@, i as int, 1);
            }
            let ghost before = out@;
            out.push(s[i]);
            proof {
                assert(out@ + replace_all(s@.skip(i + 1), pat@, rep@) =~= before + (seq![rest[0]] + replace_all(rest.skip(1), pat@, rep@)));
            }
            i = i + 1;
        }
    }
    let ghost before = out@;
    if pat.len() == 0 {
        out.extend_from_slice(rep);
    }
    proof {
        assert(s@.skip(i as int) =~= Seq::<char>::empty());
        if pat@.len() == 0 {
            assert(out@ =~= before + rep@);
        } else {
            assert(out@ =~= before + Seq::<char>::empty());
        }
    }
    out
}

pub proof fn lemma_split_on_nonempty(s: Seq<char>, sep: Seq<char>)
    ensures
        split_on(s, sep).len() >= 1,
    decreases s.len(),
{
    if sep.len() != 0 && s.len() != 0 {
        if matches_at(s, 0, sep) {
            lemma_split_on_nonempty(s.skip(sep.len() as int), sep);
        } else {
            lemma_split_on_nonempty(s.skip(1), sep);
        }
    }
}

/// The pieces of `s` between the occurrences of `sep`, as `str::split` gives them.
pub fn split_on_exec(s: &[char], sep: &[char]) -> (r: Vec<Vec<char>>)
    ensures
        char_vecs(r@) == split_on(s@, sep@),
{
    let mut done: Vec<Vec<char>> = Vec::new();
    if sep.len() == 0 {
        done.push(Vec::new());
        let mut i: usize = 0;
        while i < s.len()
            invariant
                i <= s.len(),
                char_vecs(done@) == seq![Seq::<char>::empty()] + s@.take(i as int).map_values(|c: char| seq![c]),
            decreases s.len() - i,
        {
            let mut one: Vec<char> = Vec::new();
            one.push(s[i]);
            let ghost before = char_vecs(done@);
            done.push(one);
            proof {
                assert(s@.take(i + 1).map_values(|c: char| seq![c]) =~= s@.take(i as int).map_values(|c: char| seq![c]).push(seq![s@[i as int]]));
                assert(char_vecs(done@) =~= before.push(seq![s@[i as int]]));
            }
            i = i + 1;
        }
        let ghost before = char_vecs(done@);
        done.push(Vec::new());
        proof {
            assert(s@.take(s@.len() as int) =~= s@);
            assert(char_vecs(done@) =~= before.push(Seq::<char>::empty()));
        }
        return done;
    }
    let mut cur: Vec<char> = Vec::new();
    let mut i: usize = 0;
    assert(s@.skip(0) =~= s@);
    proof { lemma_split_on_nonempty(s@, sep@); }
    assert(char_vecs(done@) + seq![cur@ + split_on(s@, sep@)[0]] + split_on(s@, sep@).skip(1) =~= split_on(s@, sep@));
    while i < s.len()
        invariant
            i <= s.len(),
            sep@.len() > 0,
            split_on(s@.skip(i as int), sep@).len() >= 1,
            char_vecs(done@) + seq![cur@ + split_on(s@.skip(i as int), sep@)[0]] + split_on(s@.skip(i as int), sep@).skip(1)
                == split_on(s@, sep@),
        decreases s.len() - i,
    {
        let ghost rest = s@.skip(i as int);
        let ghost old_done = char_vecs(done@);
        let ghost old_cur = cur@;
        if matches_at_exec(s, i, sep) {
            proof {
                lemma_matches_at_skip(s@, i as int, sep@);
                lemma_skip_skip(s@, i as int, sep@.len() as int);
                lemma_split_on_nonempty(s@.skip(i + sep@.len()), sep@);
            }
            done.push(cur);
            cur = Vec::new();
            proof {
                let tail = split_on(s@.skip(i + sep@.len()), sep@);
                assert(split_on(rest, sep@) == seq![Seq::<char>::empty()] + tail);
                assert(char_vecs(done@) =~= old_done.push(old_cur));
                assert(char_vecs(done@) + seq![cur@ + tail[0]] + tail.skip(1) =~= old_done + seq![old_cur + split_on(rest, sep@)[0]] + split_on(rest, sep@).skip(1));
            }
            i = i + sep.len();
        } else {
            proof {
                lemma_matches_at_skip(s@, i as int, sep@);
                lemma_skip_skip(s@, i as int, 1);
                lemma_split_on_nonempty(s@.skip(i + 1), sep@);
            }
            cur.push(s[i]);
            proof {
                let tail = split_on(s@.skip(i + 1), sep@);
                assert(split_on(rest, sep@) == tail.update(0, seq![rest[0]] + tail[0]));
                assert(split_on(rest, sep@).skip(1) =~= tail.skip(1));
                assert(cur@ + tail[0] =~= old_cur + split_on(rest, sep@)[0]);
            }
            i = i + 1;
        }
    }
    proof {
        assert(s@.skip(i as int) =~= Seq::<char>::empty());
    }
    let ghost old_done = char_vecs(done@);
    let ghost old_cur = cur@;
    done.push(cur);
    proof {
        assert(split_on(Seq::<char>::empty(), sep@) =~= seq![Seq::<char>::empty()]);
        assert(char_vecs(done@) =~= old_done + seq![old_cur + Seq::<char>::empty()] + Seq::<Seq<char>>::empty());
    }
    done
}

/// The parts joined with `sep` between each two of them.
pub fn join_exec(parts: &Vec<Vec<char>>, sep: &[char]) -> (r: Vec<char>)
    ensures
        r@ == join(char_vecs(parts@), sep@),
{
    let mut out: Vec<char> = Vec::new();
    let mut i: usize = 0;
    while i < parts.len()
        invariant
            i <= parts.len(),
            out@ == join(char_vecs(parts@).take(i as int), sep@),
        decreases parts.len() - i,
    {
        let ghost before = out@;
        if i > 0 {
            out.extend_from_slice(sep);
        }
        out.extend_from_slice(parts[i].as_slice());
        proof {
            let t = char_vecs(parts@).take(i + 1);
            assert(t.drop_last() =~= char_vecs(parts@).take(i as int));
            if i == 0 {
                assert(out@ =~= t[0]);
            } else {
                assert(out@ =~= join(t.drop_last(), sep@) + sep@ + t.last());
            }
        }
        i = i + 1;
    }
    assert(char_vecs(parts@).take(parts.len() as int) =~= char_vecs(parts@));
    out
}

/// The strings joined with `sep` between each two of them (`[String]::join`).
pub fn join_strings(parts: &Vec<String>, sep: &str) -> (r: String)
    ensures
        r@ == join(views(parts@), sep@),
{
    let mut out = String::new();
    let mut i: usize = 0;
    while i < parts.len()
        invariant
            i <= parts.len(),
            out@ == join(views(parts@).take(i as int), sep@),
        decreases parts.len() - i,
    {
        let ghost before = out@;
        if i > 0 {
            out.append(sep);
        }
        out.append(parts[i].as_str());
        proof {
            let t = views(parts@).take(i + 1);
            assert(t.drop_last() =~= views(parts@).take(i as int));
            if i == 0 {
                assert(out@ =~= t[0]);
            } else {
                assert(out@ =~= join(t.drop_last(), sep@) + sep@ + t.last());
            }
        }
        i = i + 1;
    }
    assert(views(parts@).take(parts.len() as int) =~= views(parts@));
    out
}

/// The maximal runs of non-whitespace characters of `s`, as `str::split_whitespace` gives them.
pub fn words_exec(s: &[char]) -> (r: Vec<Vec<char>>)
    ensures
        char_vecs(r@) == words(s@),
{
    let mut out: Vec<Vec<char>> = Vec::new();
    let mut i: usize = 0;
    let mut in_word = false;
    assert(s@.take(0) =~= Seq::<char>::empty());
    while i < s.len()
        invariant
            i <= s.len(),
            char_vecs(out@) == words(s@.take(i as int)),
            in_word == (i > 0 && !unicode_whitespace(s@[i - 1])),
            in_word ==> out.len() > 0,
        decreases s.len() - i,
    {
        let c = s[i];
        let ws = is_whitespace(c);
        let ghost t = s@.take(i + 1);
        assert(t.drop_last() =~= s@.take(i as int));
        assert(t.last() == c);
        if ws {
            in_word = false;
        } else if in_word {
            let last = out.len() - 1;
            let ghost before = char_vecs(out@);
            let mut w = out.remove(last);
            w.push(c);
            out.push(w);
            proof {
                assert(t[t.len() - 2] == s@[i - 1]);
                assert(char_vecs(out@) =~= before.update(before.len() - 1, before.last().push(c)));
            }
            in_word = true;
        } else {
            let mut w: Vec<char> = Vec::new();
            w.push(c);
            let ghost before = char_vecs(out@);
            out.push(w);
            proof {
                if i > 0 {
                    assert(t[t.len() - 2] == s@[i - 1]);
                }
                assert(char_vecs(out@) =~= before.push(seq![c]));
            }
            in_word = true;
        }
        i = i + 1;
    }
    assert(s@.take(s.len() as int) =~= s@);
    out
}

/// Whether an argument is exactly `lit`.
pub fn is_lit(a: &String, lit: &str) -> (r: bool)
    ensures
        r == (a@ == lit@),
{
    *a == String::from_str(lit)
}

/// Whether `args` holds an argument equal to `a` (`Vec::contains`).
pub fn has_arg(args: &Vec<String>, a: &str) -> (r: bool)
    ensures
        r == views(args@).contains(a@),
{
    let target = String::from_str(a);
    let mut i: usize = 0;
    while i < args.len()
        invariant
            i <= args.len(),
            target@ == a@,
            forall|j: int| 0 <= j < i ==> args@[j]@ != a@,
        decreases args.len() - i,
    {
        if args[i] == target {
            assert(views(args@)[i as int] == a@);
            return true;
        }
        i = i + 1;
    }
    proof {
        if views(args@).contains(a@) {
            let j = choose|j: int| 0 <= j < views(args@).len() && views(args@)[j] == a@;
            assert(args@[j]@ == a@);
        }
    }
    false
}

/// The characters of `s` from index `from` to index `to`.
pub fn subrange_exec(s: &[char], from: usize, to: usize) -> (r: Vec<char>)
    requires
        from <= to <= s@.len(),
    ensures
        r@ == s@.subrange(from as int, to as int),
{
    let mut out: Vec<char> = Vec::new();
    let mut i: usize = from;
    while i < to
        invariant
            from <= i <= to <= s@.len(),
            out@ == s@.subrange(from as int, i as int),
        decreases to - i,
    {
        out.push(s[i]);
        assert(s@.subrange(from as int, i + 1) =~= s@.subrange(from as int, i as int).push(s@[i as int]));
        i = i + 1;
    }
    out
}

/// `s` with every occurrence of `pat` replaced by `rep`.
pub fn replace_str(s: &[char], pat: &str, rep: &str) -> (r: Vec<char>)
    ensures
        r@ == replace_all(s@, pat@, rep@),
{
    let p = chars_of(pat);
    let q = chars_of(rep);
    replace_all_exec(s, p.as_slice(), q.as_slice())
}

/// Whether `a` begins with `prefix`.
pub open spec fn starts_with(a: Seq<char>, prefix: Seq<char>) -> bool {
    prefix.len() <= a.len() && a.take(prefix.len() as int) == prefix
}

pub fn starts_with_exec(a: &str, prefix: &str) -> (r: bool)
    ensures
        r == starts_with(a@, prefix@),
{
    let v = chars_of(a);
    let p = chars_of(prefix);
    let m = matches_at_exec(v.as_slice(), 0, p.as_slice());
    proof {
        if p@.len() <= v@.len() {
            assert(v@.subrange(0, p@.len() as int) =~= v@.take(p@.len() as int));
        }
    }
    m
}

// ---------------------------------------------------------------------------
// Laws of replacing, splitting and joining
// ---------------------------------------------------------------------------

/// Replacing a pattern that occurs nowhere in a text leaves the text as it was.
pub proof fn lemma_replace_absent(s: Seq<char>, pat: Seq<char>, rep: Seq<char>)
    requires
        pat.len() > 0,
        forall|i: int| 0 <= i < s.len() ==> !matches_at(s, i, pat),
    ensures
        replace_all(s, pat, rep) == s,
    decreases s.len(),
{
    if s.len() > 0 {
        assert(!matches_at(s, 0, pat));
        assert forall|i: int| 0 <= i < s.skip(1).len() implies !matches_at(s.skip(1), i, pat) by {
            if i + pat.len() <= s.skip(1).len() {
                assert(s.skip(1).subrange(i, i + pat.len()) =~= s.subrange(i + 1, i + 1 + pat.len()));
            }
            assert(!matches_at(s, i + 1, pat));
        }
        lemma_replace_absent(s.skip(1), pat, rep);
        assert(seq![s[0]] + s.skip(1) =~= s);
    }
}

/// After every occurrence of a character is replaced by a text that does not hold it,
/// the character occurs no more.
pub proof fn lemma_replace_char_gone(s: Seq<char>, c: char, rep: Seq<char>)
    requires
        !rep.contains(c),
    ensures
        !replace_all(s, seq![c], rep).contains(c),
    decreases s.len(),
{
    if s.len() > 0 {
        lemma_replace_char_gone(s.skip(1), c, rep);
        let r = replace_all(s.skip(1), seq![c], rep);
        let head = if matches_at(s, 0, seq![c]) {
            rep
        } else {
            seq![s[0]]
        };
        if !matches_at(s, 0, seq![c]) {
            assert(s.subrange(0, 1) =~= seq![s[0]]);
            assert(s[0] != c);
        }
        assert(replace_all(s, seq![c], rep) == head + r);
        assert forall|i: int| 0 <= i < (head + r).len() implies (head + r)[i] != c by {
            if i < head.len() {
                assert((head + r)[i] == head[i]);
            } else {
                assert((head + r)[i] == r[i - head.len()]);
            }
        }
    }
}

proof fn lemma_join_update_first(parts: Seq<Seq<char>>, pre: Seq<char>, sep: Seq<char>)
    requires
        parts.len() > 0,
    ensures
        join(parts.update(0, pre + parts[0]), sep) == pre + join(parts, sep),
    decreases parts.len(),
{
    let q = parts.update(0, pre + parts[0]);
    if parts.len() > 1 {
        lemma_join_update_first(parts.drop_last(), pre, sep);
        assert(q.drop_last() =~= parts.drop_last().update(0, pre + parts[0]));
        assert(q.last() == parts.last());
        assert(pre + join(parts.drop_last(), sep) + sep + parts.last() =~= pre + (join(
            parts.drop_last(),
            sep,
        ) + sep + parts.last()));
    }
}

proof fn lemma_join_cons(a: Seq<char>, parts: Seq<Seq<char>>, sep: Seq<char>)
    requires
        parts.len() > 0,
    ensures
        join(seq![a] + parts, sep) == a + sep + join(parts, sep),
    decreases parts.len(),
{
    let q = seq![a] + parts;
    assert(q.last() == parts.last());
    if parts.len() == 1 {
        assert(q.drop_last() =~= seq![a]);
        assert(join(seq![a], sep) == a);
        assert(join(parts, sep) == parts[0]);
    } else {
        lemma_join_cons(a, parts.drop_last(), sep);
        assert(q.drop_last() =~= seq![a] + parts.drop_last());
        assert(join(q, sep) == join(q.drop_last(), sep) + sep + q.last());
        assert(join(parts, sep) == join(parts.drop_last(), sep) + sep + parts.last());
        assert(a + sep + join(parts.drop_last(), sep) + sep + parts.last() =~= a + sep + (join(
            parts.drop_last(),
            sep,
        ) + sep + parts.last()));
    }
}

/// Joining the pieces of a text split at a non-empty separator, with that separator,
/// gives back the text.
pub proof fn lemma_join_split(s: Seq<char>, sep: Seq<char>)
    requires
        sep.len() > 0,
    ensures
        join(split_on(s, sep), sep) == s,
    decreases s.len(),
{
    if s.len() > 0 {
        if matches_at(s, 0, sep) {
            let rest = s.skip(sep.len() as int);
            lemma_join_split(rest, sep);
            lemma_split_on_nonempty(rest, sep);
            lemma_join_cons(Seq::<char>::empty(), split_on(rest, sep), sep);
            assert(s.subrange(0, sep.len() as int) == sep);
            assert(Seq::<char>::empty() + sep + rest =~= s);
        } else {
            lemma_join_split(s.skip(1), sep);
            lemma_split_on_nonempty(s.skip(1), sep);
            let rest = split_on(s.skip(1), sep);
            lemma_join_update_first(rest, seq![s[0]], sep);
            assert(rest.update(0, seq![s[0]] + rest[0]) == split_on(s, sep));
            assert(seq![s[0]] + s.skip(1) =~= s);
        }
    }
}

/// What a sequence with one more element contains.
pub proof fn lemma_contains_push(s: Seq<Seq<char>>, x: Seq<char>)
    ensures
        forall|y: Seq<char>| #![auto] s.push(x).contains(y) <==> (s.contains(y) || y == x),
{
    assert forall|y: Seq<char>| #![auto] s.push(x).contains(y) <==> (s.contains(y) || y == x) by {
        if s.contains(y) {
            let j = choose|j: int| 0 <= j < s.len() && s[j] == y;
            assert(s.push(x)[j] == y);
        }
        if y == x {
            assert(s.push(x)[s.len() as int] == y);
        }
        if s.push(x).contains(y) {
            let j = choose|j: int| 0 <= j < s.push(x).len() && s.push(x)[j] == y;
            if j < s.len() {
                assert(s[j] == y);
            }
        }
    }
}

/// A pattern whose first character does not occur in a text occurs nowhere in it.
pub proof fn lemma_first_char_absent(s: Seq<char>, pat: Seq<char>)
    requires
        pat.len() > 0,
        !s.contains(pat[0]),
    ensures
        forall|i: int| 0 <= i < s.len() ==> !matches_at(s, i, pat),
{
    assert forall|i: int| 0 <= i < s.len() implies !matches_at(s, i, pat) by {
        if matches_at(s, i, pat) {
            assert(s.subrange(i, i + pat.len())[0] == s[i]);
        }
    }
}

} // verus!
