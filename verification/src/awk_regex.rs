use vstd::prelude::*;

use crate::text::{
    chars_of, lemma_replace_absent, matches_at, matches_at_exec, replace_all, replace_all_exec,
    split_on, split_on_exec, string_of, subrange_exec,
};

verus! {

/// The first index at which `pat` occurs in `s` (`str::find`, counted in characters).
pub open spec fn find(s: Seq<char>, pat: Seq<char>) -> Option<int>
    decreases s.len(),
{
    if matches_at(s, 0, pat) {
        Some(0)
    } else if s.len() == 0 {
        None
    } else {
        match find(s.skip(1), pat) {
            Some(i) => Some(i + 1),
            None => None,
        }
    }
}

proof fn lemma_find_bounds(s: Seq<char>, pat: Seq<char>)
    ensures
        find(s, pat) matches Some(i) ==> 0 <= i && i + pat.len() <= s.len() && matches_at(s, i, pat),
    decreases s.len(),
{
    if !matches_at(s, 0, pat) && s.len() > 0 {
        lemma_find_bounds(s.skip(1), pat);
        if let Some(i) = find(s.skip(1), pat) {
            assert(s.subrange(i + 1, i + 1 + pat.len()) =~= s.skip(1).subrange(i, i + pat.len()));
        }
    }
}

/// The first index at which `pat` occurs in `s`.
pub fn find_exec(s: &[char], pat: &[char]) -> (r: Option<usize>)
    ensures
        r matches Some(i) ==> find(s@, pat@) == Some(i as int),
        r is None ==> find(s@, pat@) is None,
{
    let mut i: usize = 0;
    assert(s@.skip(0) =~= s@);
    while i <= s.len()
        invariant
            i <= s.len() + 1,
            i <= s.len() ==> find(s@, pat@) == match find(s@.skip(i as int), pat@) {
                Some(k) => Some(k + i),
                None => None::<int>,
            },
            i > s.len() ==> find(s@, pat@) is None,
        decreases s.len() + 1 - i,
    {
        proof {
            assert(matches_at(s@.skip(i as int), 0, pat@) == matches_at(s@, i as int, pat@)) by {
                if i + pat@.len() <= s@.len() {
                    assert(s@.skip(i as int).subrange(0, pat@.len() as int) =~= s@.subrange(
                        i as int,
                        i + pat@.len(),
                    ));
                }
            }
        }
        if matches_at_exec(s, i, pat) {
            return Some(i);
        }
        if i == s.len() {
            return None;
        }
        assert(s@.skip(i as int).skip(1) =~= s@.skip(i + 1));
        i = i + 1;
    }
    None
}

/// `s` without its trailing `c` characters (`str::trim_end_matches` with a character).
pub open spec fn trim_end_char(s: Seq<char>, c: char) -> Seq<char>
    decreases s.len(),
{
    if s.len() > 0 && s.last() == c {
        trim_end_char(s.drop_last(), c)
    } else {
        s
    }
}

/// A line without the carriage return that ends it, if any.
pub open spec fn strip_cr(l: Seq<char>) -> Seq<char> {
    if l.len() > 0 && l.last() == '\r' {
        l.drop_last()
    } else {
        l
    }
}

/// The lines of `s` as `str::lines` gives them: split at line feeds, a carriage
/// return before a line feed dropped, and no empty line after a final line feed.
pub open spec fn lines(s: Seq<char>) -> Seq<Seq<char>> {
    let p = split_on(s, "\n"@);
    let body = p.drop_last().map_values(|l: Seq<char>| strip_cr(l));
    if s.len() == 0 || s.last() == '\n' {
        body
    } else {
        body.push(p.last())
    }
}

/// The position (from 1) and length, in characters, of the first match of `pattern`
/// in `text`: where the regular expression search printed a non-empty match that
/// occurs in `text`, that match; otherwise the first literal occurrence of `pattern`;
/// otherwise `(0, -1)`.
pub open spec fn match_position(text: Seq<char>, grep_output: Option<Seq<char>>, pattern: Seq<char>) -> (int, int) {
    let from_grep = match grep_output {
        Some(out) => {
            let m = trim_end_char(out, '\n');
            if m.len() > 0 {
                match find(text, m) {
                    Some(p) => Some((p + 1, m.len() as int)),
                    None => None,
                }
            } else {
                None
            }
        },
        None => None,
    };
    match from_grep {
        Some(r) => r,
        None => match find(text, pattern) {
            Some(p) => (p + 1, pattern.len() as int),
            None => (0, -1),
        },
    }
}

fn trim_end_char_exec(s: &[char], c: char) -> (r: Vec<char>)
    ensures
        r@ == trim_end_char(s@, c),
{
    let mut k: usize = s.len();
    assert(s@.take(k as int) =~= s@);
    while k > 0 && s[k - 1] == c
        invariant
            k <= s.len(),
            trim_end_char(s@.take(k as int), c) == trim_end_char(s@, c),
        decreases k,
    {
        assert(s@.take(k as int).drop_last() =~= s@.take(k - 1));
        k = k - 1;
    }
    subrange_exec(s, 0, k)
}

/// Where a regular expression first matches `text`, from the output of the search
/// (`None` when the search could not be run) and the pattern itself.
pub fn match_position_exec(text: &str, grep_output: Option<String>, pattern: &str) -> (r: (usize, i64))
    requires
        text@.len() < i64::MAX,
        text@.len() + 1 < usize::MAX,
        pattern@.len() < i64::MAX,
        grep_output matches Some(o) ==> o@.len() < i64::MAX,
    ensures
        (r.0 as int, r.1 as int) == match_position(
            text@,
            match grep_output {
                Some(o) => Some(o@),
                None => None,
            },
            pattern@,
        ),
{
    let t = chars_of(text);
    if let Some(out) = grep_output {
        let o = chars_of(out.as_str());
        let m = trim_end_char_exec(o.as_slice(), '\n');
        proof {
            lemma_trim_len(o@, '\n');
        }
        if m.len() > 0 {
            if let Some(p) = find_exec(t.as_slice(), m.as_slice()) {
                proof {
                    lemma_find_bounds(t@, m@);
                    assert(p + m@.len() <= t@.len());
                }
                return (p + 1, m.len() as i64);
            }
        }
    }
    let pat = chars_of(pattern);
    match find_exec(t.as_slice(), pat.as_slice()) {
        Some(p) => {
            proof {
                lemma_find_bounds(t@, pat@);
            }
            (p + 1, pat.len() as i64)
        },
        None => (0, -1),
    }
}

proof fn lemma_trim_len(s: Seq<char>, c: char)
    ensures
        trim_end_char(s, c).len() <= s.len(),
    decreases s.len(),
{
    if s.len() > 0 && s.last() == c {
        lemma_trim_len(s.drop_last(), c);
    }
}

/// What the search-driven substitution produces from the matches in `ms`, applied
/// to `rem`: the text before and including the replacements, the text left after
/// the last replacement, and the number of replacements. Empty matches and matches
/// not found in what is left are passed over; without `global` only the first
/// replacement is made. In the replacement text, `&` stands for the match.
pub open spec fn sub_scan(ms: Seq<Seq<char>>, rem: Seq<char>, repl: Seq<char>, global: bool) -> (Seq<char>, Seq<char>, nat)
    decreases ms.len(),
{
    if ms.len() == 0 {
        (Seq::empty(), rem, 0)
    } else {
        let m = ms[0];
        if m.len() == 0 {
            sub_scan(ms.skip(1), rem, repl, global)
        } else {
            match find(rem, m) {
                None => sub_scan(ms.skip(1), rem, repl, global),
                Some(p) => {
                    let piece = rem.take(p) + replace_all(repl, "&"@, m);
                    let rest = rem.skip(p + m.len());
                    if !global {
                        (piece, rest, 1)
                    } else {
                        let (o, r, c) = sub_scan(ms.skip(1), rest, repl, global);
                        (piece + o, r, c + 1)
                    }
                },
            }
        }
    }
}

/// The text after `sub` (or `gsub`, when `global`) and the number of replacements:
/// driven by the matches the regular expression search printed when it ran, and by
/// literal occurrences of the pattern when it could not be run.
pub open spec fn substitution(
    text: Seq<char>,
    grep_output: Option<Seq<char>>,
    pattern: Seq<char>,
    repl: Seq<char>,
    global: bool,
) -> (Seq<char>, nat) {
    match grep_output {
        Some(out) => {
            let (o, r, c) = sub_scan(lines(out), text, repl, global);
            (o + r, c)
        },
        None => if global {
            (
                replace_all(text, pattern, replace_all(repl, "&"@, pattern)),
                (split_on(text, pattern).len() - 1) as nat,
            )
        } else {
            match find(text, pattern) {
                Some(p) => (
                    text.take(p) + replace_all(repl, "&"@, pattern) + text.skip(p + pattern.len()),
                    1,
                ),
                None => (text, 0),
            }
        },
    }
}

/// The lines of `s`, as `str::lines` gives them.
pub fn lines_exec(s: &[char]) -> (r: Vec<Vec<char>>)
    ensures
        crate::text::char_vecs(r@) == lines(s@),
{
    let nl = chars_of("\n");
    let p = split_on_exec(s, nl.as_slice());
    proof {
        crate::text::lemma_split_on_nonempty(s@, nl@);
    }
    let mut out: Vec<Vec<char>> = Vec::new();
    let mut i: usize = 0;
    let ghost pv = crate::text::char_vecs(p@);
    while i + 1 < p.len()
        invariant
            p.len() >= 1,
            pv == crate::text::char_vecs(p@),
            pv == split_on(s@, nl@),
            nl@ == "\n"@,
            i + 1 <= p.len(),
            crate::text::char_vecs(out@) == pv.drop_last().take(i as int).map_values(
                |l: Seq<char>| strip_cr(l),
            ),
        decreases p.len() - i,
    {
        let l = &p[i];
        let piece = if l.len() > 0 && l[l.len() - 1] == '\r' {
            subrange_exec(l.as_slice(), 0, l.len() - 1)
        } else {
            subrange_exec(l.as_slice(), 0, l.len())
        };
        let ghost before = out@;
        out.push(piece);
        proof {
            assert(l@.subrange(0, l@.len() as int) =~= l@);
            assert(l@.subrange(0, l@.len() - 1) =~= l@.drop_last());
            assert(out@ == before.push(piece));
            assert(crate::text::char_vecs(out@) =~= crate::text::char_vecs(before).push(piece@));
            assert(crate::text::char_vecs(out@) =~= pv.drop_last().take(i + 1).map_values(
                |l: Seq<char>| strip_cr(l),
            ));
        }
        i = i + 1;
    }
    assert(pv.drop_last().take(i as int) =~= pv.drop_last());
    if s.len() == 0 || s[s.len() - 1] == '\n' {
        out
    } else {
        let last = subrange_exec(p[p.len() - 1].as_slice(), 0, p[p.len() - 1].len());
        let ghost before = out@;
        out.push(last);
        proof {
            assert(p[p.len() - 1]@.subrange(0, p[p.len() - 1]@.len() as int) =~= p[p.len() - 1]@);
            assert(out@ == before.push(last));
            assert(crate::text::char_vecs(out@) =~= crate::text::char_vecs(before).push(last@));
        }
        out
    }
}

/// Performs `sub` (or `gsub`, when `global`) on `text`: the output of the regular
/// expression search (`None` when it could not be run) decides the matches.
pub fn substitute(
    text: &str,
    grep_output: Option<String>,
    pattern: &str,
    repl: &str,
    global: bool,
) -> (r: (String, usize))
    ensures
        (r.0@, r.1 as nat) == substitution(
            text@,
            match grep_output {
                Some(o) => Some(o@),
                None => None,
            },
            pattern@,
            repl@,
            global,
        ),
{
    let t = chars_of(text);
    let rp = chars_of(repl);
    let amp = chars_of("&");
    match grep_output {
        Some(out) => {
            let o = chars_of(out.as_str());
            let ms = lines_exec(o.as_slice());
            let ghost msv = crate::text::char_vecs(ms@);
            let ghost whole = sub_scan(msv, t@, rp@, global);
            assert(t@ == text@);
            let mut new_text: Vec<char> = Vec::new();
            let mut remaining: Vec<char> = t;
            let mut count: usize = 0;
            let mut i: usize = 0;
            assert(msv.skip(0) =~= msv);
            while i < ms.len()
                invariant
                    i <= ms.len(),
                    msv == crate::text::char_vecs(ms@),
                    msv == lines(out@),
                    rp@ == repl@,
                    grep_output matches Some(g) && g@ == out@,
                    whole == sub_scan(lines(out@), text@, repl@, global),
                    amp@ == "&"@,
                    whole == sub_scan(msv, t@, rp@, global),
                    whole.0 == new_text@ + sub_scan(msv.skip(i as int), remaining@, rp@, global).0,
                    whole.1 == sub_scan(msv.skip(i as int), remaining@, rp@, global).1,
                    whole.2 == count + sub_scan(msv.skip(i as int), remaining@, rp@, global).2,
                    count <= i,
                    remaining@.len() <= t@.len(),
                decreases ms.len() - i,
            {
                let m = &ms[i];
                let ghost rest = msv.skip(i as int);
                assert(rest[0] == m@);
                assert(rest.skip(1) =~= msv.skip(i + 1));
                if m.len() == 0 {
                    i = i + 1;
                    continue;
                }
                match find_exec(remaining.as_slice(), m.as_slice()) {
                    None => {
                        i = i + 1;
                    },
                    Some(p) => {
                        proof {
                            lemma_find_bounds(remaining@, m@);
                            assert(p + m@.len() <= remaining@.len());
                        }
                        let before = subrange_exec(remaining.as_slice(), 0, p);
                        let rep = replace_all_exec(rp.as_slice(), amp.as_slice(), m.as_slice());
                        assert(p + m.len() <= remaining.len());
                        let after = subrange_exec(remaining.as_slice(), p + m.len(), remaining.len());
                        let ghost old_new = new_text@;
                        let ghost old_rem = remaining@;
                        new_text.extend_from_slice(before.as_slice());
                        new_text.extend_from_slice(rep.as_slice());
                        remaining = after;
                        count = count + 1;
                        proof {
                            assert(before@ =~= old_rem.take(p as int));
                            assert(after@ =~= old_rem.skip(p + m@.len()));
                        }
                        if !global {
                            proof {
                                let piece = old_rem.take(p as int) + replace_all(rp@, "&"@, m@);
                                assert(new_text@ =~= old_new + piece);
                                assert(sub_scan(rest, old_rem, rp@, global) == (piece, remaining@, 1nat));
                            }
                            let ghost nt = new_text@;
                            new_text.extend_from_slice(remaining.as_slice());
                            assert(new_text@ =~= nt + remaining@);
                            assert(whole.0 + whole.1 =~= new_text@);
                            assert(whole.2 == count as nat);
                            assert(msv == lines(out@));
                            return (string_of(new_text.as_slice()), count);
                        }
                        proof {
                            let piece = old_rem.take(p as int) + replace_all(rp@, "&"@, m@);
                            assert(new_text@ =~= old_new + piece);
                            let (o2, r2, c2) = sub_scan(msv.skip(i + 1), remaining@, rp@, global);
                            assert(whole.0 == old_new + (piece + o2));
                            assert(whole.0 =~= new_text@ + o2);
                        }
                        i = i + 1;
                    },
                }
            }
            proof {
                assert(msv.skip(i as int) =~= Seq::<Seq<char>>::empty());
            }
            let ghost nt = new_text@;
            new_text.extend_from_slice(remaining.as_slice());
            assert(new_text@ =~= nt + remaining@);
            (string_of(new_text.as_slice()), count)
        },
        None => {
            let pat = chars_of(pattern);
            if global {
                let rep = replace_all_exec(rp.as_slice(), amp.as_slice(), pat.as_slice());
                let out = replace_all_exec(t.as_slice(), pat.as_slice(), rep.as_slice());
                let pieces = split_on_exec(t.as_slice(), pat.as_slice());
                proof {
                    crate::text::lemma_split_on_nonempty(t@, pat@);
                    assert(crate::text::char_vecs(pieces@).len() == pieces@.len());
                }
                (string_of(out.as_slice()), pieces.len() - 1)
            } else {
                match find_exec(t.as_slice(), pat.as_slice()) {
                    Some(p) => {
                        proof {
                            lemma_find_bounds(t@, pat@);
                            assert(p + pat@.len() <= t@.len());
                        }
                        let mut out = subrange_exec(t.as_slice(), 0, p);
                        assert(p + pat.len() <= t.len());
                        let matched = subrange_exec(t.as_slice(), p, p + pat.len());
                        let rep = replace_all_exec(rp.as_slice(), amp.as_slice(), matched.as_slice());
                        let after = subrange_exec(t.as_slice(), p + pat.len(), t.len());
                        out.extend_from_slice(rep.as_slice());
                        out.extend_from_slice(after.as_slice());
                        proof {
                            assert(matched@ =~= pat@);
                            assert(t@.take(p as int) =~= t@.subrange(0, p as int));
                            assert(t@.skip(p + pat@.len()) =~= t@.subrange(p + pat@.len(), t@.len() as int));
                        }
                        (string_of(out.as_slice()), 1)
                    },
                    None => (String::from_str(text), 0),
                }
            }
        },
    }
}

proof fn lemma_matches_at_next(s: Seq<char>, i: int, pat: Seq<char>)
    requires
        s.len() > 0,
        0 <= i,
    ensures
        matches_at(s.skip(1), i, pat) == matches_at(s, i + 1, pat),
{
    if i + pat.len() <= s.skip(1).len() {
        assert(s.skip(1).subrange(i, i + pat.len()) =~= s.subrange(i + 1, i + 1 + pat.len()));
    }
}

/// A non-empty pattern is found exactly when it occurs somewhere.
pub proof fn lemma_find_none(s: Seq<char>, pat: Seq<char>)
    requires
        pat.len() > 0,
    ensures
        find(s, pat) is None <==> forall|i: int| 0 <= i < s.len() ==> !matches_at(s, i, pat),
    decreases s.len(),
{
    if s.len() > 0 && !matches_at(s, 0, pat) {
        lemma_find_none(s.skip(1), pat);
        assert forall|i: int| 0 <= i < s.skip(1).len() implies matches_at(s.skip(1), i, pat)
            == matches_at(s, i + 1, pat) by {
            lemma_matches_at_next(s, i, pat);
        }
        if find(s, pat) is None {
            assert forall|i: int| 0 <= i < s.len() implies !matches_at(s, i, pat) by {
                if i > 0 {
                    assert(!matches_at(s.skip(1), i - 1, pat));
                }
            }
        } else {
            let k = choose|k: int| 0 <= k < s.skip(1).len() && matches_at(s.skip(1), k, pat);
            assert(matches_at(s, k + 1, pat));
        }
    }
}

proof fn lemma_split_absent(s: Seq<char>, pat: Seq<char>)
    requires
        pat.len() > 0,
        forall|i: int| 0 <= i < s.len() ==> !matches_at(s, i, pat),
    ensures
        split_on(s, pat).len() == 1,
    decreases s.len(),
{
    if s.len() > 0 {
        assert(!matches_at(s, 0, pat));
        assert forall|i: int| 0 <= i < s.skip(1).len() implies !matches_at(s.skip(1), i, pat) by {
            lemma_matches_at_next(s, i, pat);
        }
        lemma_split_absent(s.skip(1), pat);
    }
}

/// `n` line feeds.
pub open spec fn line_feeds(n: nat) -> Seq<char> {
    Seq::new(n, |_i: int| '\n')
}

proof fn lemma_trim_line_feeds(m: Seq<char>, n: nat)
    requires
        m.len() == 0 || m.last() != '\n',
    ensures
        trim_end_char(m + line_feeds(n), '\n') == m,
    decreases n,
{
    if n > 0 {
        assert((m + line_feeds(n)).drop_last() =~= m + line_feeds((n - 1) as nat));
        assert((m + line_feeds(n)).last() == '\n');
        lemma_trim_line_feeds(m, (n - 1) as nat);
    } else {
        assert(m + line_feeds(0) =~= m);
    }
}

/// `find` gives the first index at which the pattern occurs.
proof fn lemma_find_first(s: Seq<char>, pat: Seq<char>, i: int)
    requires
        0 <= i,
        matches_at(s, i, pat),
        forall|j: int| 0 <= j < i ==> !matches_at(s, j, pat),
    ensures
        find(s, pat) == Some(i),
    decreases i,
{
    if i > 0 {
        assert(!matches_at(s, 0, pat));
        assert(s.len() > 0);
        lemma_matches_at_next(s, i - 1, pat);
        assert forall|j: int| 0 <= j < i - 1 implies !matches_at(s.skip(1), j, pat) by {
            lemma_matches_at_next(s, j, pat);
        }
        lemma_find_first(s.skip(1), pat, i - 1);
    }
}

/// The search's match comes first: when the search printed a non-empty match `m`
/// (followed by any number of line feeds) that occurs in the text, `match` reports
/// where `m` first occurs, counted from 1, and its length, whatever the pattern.
pub proof fn lemma_match_position_uses_search(
    text: Seq<char>,
    m: Seq<char>,
    n: nat,
    pattern: Seq<char>,
    i: int,
)
    requires
        m.len() > 0,
        m.last() != '\n',
        0 <= i,
        matches_at(text, i, m),
        forall|j: int| 0 <= j < i ==> !matches_at(text, j, m),
    ensures
        match_position(text, Some(m + line_feeds(n)), pattern) == (i + 1, m.len() as int),
{
    lemma_trim_line_feeds(m, n);
    lemma_find_first(text, m, i);
}

/// A position that `match` reports points at an occurrence, in the text, of what was
/// matched: the search's match or the pattern itself; `(0, -1)` is reported only when
/// the pattern occurs nowhere.
pub proof fn lemma_match_position_sound(text: Seq<char>, grep_output: Option<Seq<char>>, pattern: Seq<char>)
    ensures
        ({
            let (p, l) = match_position(text, grep_output, pattern);
            &&& p >= 0
            &&& p >= 1 ==> {
                ||| matches_at(text, p - 1, pattern) && l == pattern.len()
                ||| grep_output matches Some(out) && matches_at(text, p - 1, trim_end_char(out, '\n'))
                    && l == trim_end_char(out, '\n').len()
            }
            &&& p == 0 ==> l == -1 && pattern.len() > 0 && forall|i: int|
                0 <= i < text.len() ==> !matches_at(text, i, pattern)
        }),
{
    lemma_find_bounds(text, pattern);
    if let Some(out) = grep_output {
        lemma_find_bounds(text, trim_end_char(out, '\n'));
    }
    if find(text, pattern) is None {
        if pattern.len() == 0 {
            assert(matches_at(text, 0, pattern)) by {
                assert(text.subrange(0, 0) =~= pattern);
            }
        } else {
            lemma_find_none(text, pattern);
        }
    }
}

/// Where the search could not be run and the pattern occurs nowhere, `sub` and `gsub`
/// leave the text as it is and count no replacement.
pub proof fn lemma_substitution_absent(text: Seq<char>, pattern: Seq<char>, repl: Seq<char>, global: bool)
    requires
        pattern.len() > 0,
        forall|i: int| 0 <= i < text.len() ==> !matches_at(text, i, pattern),
    ensures
        substitution(text, None, pattern, repl, global) == (text, 0nat),
{
    lemma_replace_absent(text, pattern, replace_all(repl, "&"@, pattern));
    lemma_split_absent(text, pattern);
    lemma_find_none(text, pattern);
}

} // verus!
