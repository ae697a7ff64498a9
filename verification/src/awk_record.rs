use vstd::prelude::*;

use crate::awk_regex::{lines, lines_exec};
use crate::text::{
    char_vecs, chars_of, join, join_strings, lemma_join_split, lemma_split_on_nonempty, matches_at, split_on, split_on_exec,
    string_of, views, words, words_exec,
};

verus! {

/// The fields of a record: with the separator a single space, the runs of
/// non-whitespace; otherwise the pieces between occurrences of the separator.
pub open spec fn split_fields(line: Seq<char>, fs: Seq<char>) -> Seq<Seq<char>> {
    if fs == " "@ {
        words(line)
    } else {
        split_on(line, fs)
    }
}

proof fn lemma_first_piece_prefix(s: Seq<char>, sep: Seq<char>)
    requires
        sep.len() > 0,
    ensures
        split_on(s, sep).len() >= 1,
        split_on(s, sep)[0].len() <= s.len(),
        split_on(s, sep)[0] == s.take(split_on(s, sep)[0].len() as int),
    decreases s.len(),
{
    lemma_split_on_nonempty(s, sep);
    if s.len() > 0 && !matches_at(s, 0, sep) {
        lemma_first_piece_prefix(s.skip(1), sep);
        let r0 = split_on(s.skip(1), sep)[0];
        assert(seq![s[0]] + r0 =~= s.take(r0.len() as int + 1));
    }
}

proof fn lemma_pieces_clean(s: Seq<char>, sep: Seq<char>)
    requires
        sep.len() > 0,
    ensures
        forall|k: int, j: int|
            0 <= k < split_on(s, sep).len() ==> !#[trigger] matches_at(split_on(s, sep)[k], j, sep),
    decreases s.len(),
{
    let p = split_on(s, sep);
    if s.len() == 0 {
    } else if matches_at(s, 0, sep) {
        lemma_pieces_clean(s.skip(sep.len() as int), sep);
        let r = split_on(s.skip(sep.len() as int), sep);
        assert forall|k: int, j: int| 0 <= k < p.len() implies !#[trigger] matches_at(p[k], j, sep) by {
            if k > 0 {
                assert(p[k] == r[k - 1]);
            }
        }
    } else {
        lemma_pieces_clean(s.skip(1), sep);
        lemma_first_piece_prefix(s.skip(1), sep);
        let r = split_on(s.skip(1), sep);
        let p0 = seq![s[0]] + r[0];
        assert(p0 =~= s.take(p0.len() as int));
        assert forall|k: int, j: int| 0 <= k < p.len() implies !#[trigger] matches_at(p[k], j, sep) by {
            if k == 0 {
                assert(p[0] == p0);
                if matches_at(p0, j, sep) {
                    if j == 0 {
                        assert(s.subrange(0, sep.len() as int) =~= p0.subrange(0, sep.len() as int));
                    } else {
                        assert(r[0].subrange(j - 1, j - 1 + sep.len()) =~= p0.subrange(j, j + sep.len()));
                        assert(matches_at(r[0], j - 1, sep));
                    }
                }
            } else {
                assert(p[k] == r[k]);
            }
        }
    }
}

/// With a separator other than a single space, the fields are exactly the pieces
/// between its occurrences: joined with the separator they give the record back,
/// and no field holds the separator.
pub proof fn lemma_fields_rejoin(line: Seq<char>, fs: Seq<char>)
    requires
        fs.len() > 0,
        fs != " "@,
    ensures
        join(split_fields(line, fs), fs) == line,
        forall|k: int, j: int|
            0 <= k < split_fields(line, fs).len() ==> !#[trigger] matches_at(
                split_fields(line, fs)[k],
                j,
                fs,
            ),
{
    lemma_join_split(line, fs);
    lemma_pieces_clean(line, fs);
}

/// The current input record of the awk interpreter, its fields, and the field
/// separators it is split and joined with.
pub struct Record {
    pub record: String,
    pub fields: Vec<String>,
    pub nf: usize,
    pub field_sep: String,
    pub ofs: String,
}

fn strings_of(v: Vec<Vec<char>>) -> (r: Vec<String>)
    ensures
        views(r@) == char_vecs(v@),
{
    let mut out: Vec<String> = Vec::new();
    let mut i: usize = 0;
    while i < v.len()
        invariant
            i <= v.len(),
            views(out@) == char_vecs(v@).take(i as int),
        decreases v.len() - i,
    {
        let st = string_of(v[i].as_slice());
        let ghost before = out@;
        out.push(st);
        assert(out@ == before.push(st));
        assert(views(out@) =~= views(before).push(st@));
        assert(views(out@) =~= char_vecs(v@).take(i + 1));
        i = i + 1;
    }
    assert(char_vecs(v@).take(v.len() as int) =~= char_vecs(v@));
    out
}

/// The records of `content` under the record separator `rs`: its lines when `rs`
/// is empty or a line feed; otherwise the pieces between occurrences of `rs`, the
/// last one left out when it is empty or a lone line feed.
pub open spec fn records(content: Seq<char>, rs: Seq<char>) -> Seq<Seq<char>> {
    if rs.len() == 0 || rs == "\n"@ {
        lines(content)
    } else {
        let p = split_on(content, rs);
        if p.last().len() == 0 || p.last() == "\n"@ {
            p.drop_last()
        } else {
            p
        }
    }
}

/// Splits input into records by the record separator `rs`.
pub fn split_records(content: &str, rs: &str) -> (r: Vec<String>)
    ensures
        views(r@) == records(content@, rs@),
{
    proof {
        reveal_strlit("\n");
    }
    let c = chars_of(content);
    let sep = chars_of(rs);
    if sep.len() == 0 || (sep.len() == 1 && sep[0] == '\n') {
        assert(sep.len() == 1 && sep[0] == '\n' ==> sep@ =~= "\n"@);
        let ls = lines_exec(c.as_slice());
        return strings_of(ls);
    }
    assert(sep@ != "\n"@) by {
        if sep@ == "\n"@ {
            assert(sep@.len() == 1 && sep@[0] == '\n');
        }
    }
    let mut p = split_on_exec(c.as_slice(), sep.as_slice());
    proof {
        lemma_split_on_nonempty(c@, sep@);
    }
    let ghost pv = char_vecs(p@);
    let n = p.len();
    let last_len = p[n - 1].len();
    let drop = last_len == 0 || (last_len == 1 && p[n - 1][0] == '\n');
    assert(pv.last() == p@[n - 1]@);
    assert(drop <==> (pv.last().len() == 0 || pv.last() == "\n"@)) by {
        if pv.last() == "\n"@ {
            assert(pv.last().len() == 1 && pv.last()[0] == '\n');
        }
        if last_len == 1 && p[n - 1][0] == '\n' {
            assert(pv.last() =~= "\n"@);
        }
    }
    if drop {
        let ghost before = p@;
        p.pop();
        assert(char_vecs(p@) =~= char_vecs(before).drop_last());
    }
    strings_of(p)
}

impl Record {
    /// The number of fields is the length of the field list.
    pub open spec fn wf(&self) -> bool {
        self.nf == self.fields.len()
    }

    pub fn new(field_sep: String) -> (r: Record)
        ensures
            r.wf(),
            r.record@ == Seq::<char>::empty(),
            r.fields@.len() == 0,
            r.field_sep == field_sep,
            r.ofs@ == " "@,
    {
        Record {
            record: String::new(),
            fields: Vec::new(),
            nf: 0,
            field_sep,
            ofs: String::from_str(" "),
        }
    }

    /// Makes `line` the current record and splits it into fields.
    pub fn split_record(&mut self, line: &str)
        ensures
            final(self).wf(),
            final(self).record@ == line@,
            views(final(self).fields@) == split_fields(line@, old(self).field_sep@),
            final(self).field_sep == old(self).field_sep,
            final(self).ofs == old(self).ofs,
    {
        self.record = String::from_str(line);
        let v = chars_of(line);
        let parts = if self.field_sep == String::from_str(" ") {
            words_exec(v.as_slice())
        } else {
            let sep = chars_of(self.field_sep.as_str());
            split_on_exec(v.as_slice(), sep.as_slice())
        };
        self.fields = strings_of(parts);
        self.nf = self.fields.len();
    }

    /// Field `idx`: the whole record for 0, `None` past the last field.
    pub fn get_field(&self, idx: usize) -> (r: Option<String>)
        ensures
            idx == 0 ==> (r matches Some(s) && s@ == self.record@),
            0 < idx <= self.fields.len() ==> (r matches Some(s) && s@ == self.fields@[idx - 1]@),
            idx > self.fields.len() ==> r is None,
    {
        if idx == 0 {
            return Some(self.record.clone());
        }
        if idx > self.fields.len() {
            return None;
        }
        Some(self.fields[idx - 1].clone())
    }

    /// Sets field `idx` to `val`: 0 replaces the record and splits it again; a field
    /// past the last adds empty fields up to it, and the record becomes the fields
    /// joined with the output separator.
    pub fn set_field(&mut self, idx: usize, val: String)
        ensures
            final(self).wf(),
            final(self).field_sep == old(self).field_sep,
            final(self).ofs == old(self).ofs,
            idx == 0 ==> final(self).record@ == val@ && views(final(self).fields@) == split_fields(
                val@,
                old(self).field_sep@,
            ),
            idx > 0 ==> {
                &&& final(self).fields.len() == if idx > old(self).fields.len() {
                    idx as int
                } else {
                    old(self).fields.len() as int
                }
                &&& final(self).fields@[idx - 1]@ == val@
                &&& forall|j: int|
                    0 <= j < final(self).fields.len() && j != idx - 1 ==> #[trigger] final(self).fields@[j]@ == if j < old(self).fields.len() {
                        old(self).fields@[j]@
                    } else {
                        Seq::<char>::empty()
                    }
                &&& final(self).record@ == join(views(final(self).fields@), old(self).ofs@)
            },
    {
        if idx == 0 {
            let line = val;
            self.split_record(line.as_str());
            return;
        }
        while self.fields.len() < idx
            invariant
                old(self).fields.len() <= self.fields.len() <= if idx > old(self).fields.len() {
                    idx as int
                } else {
                    old(self).fields.len() as int
                },
                self.field_sep == old(self).field_sep,
                self.ofs == old(self).ofs,
                forall|j: int|
                    0 <= j < self.fields.len() ==> #[trigger] self.fields@[j]@ == if j < old(self).fields.len() {
                        old(self).fields@[j]@
                    } else {
                        Seq::<char>::empty()
                    },
            decreases idx - self.fields.len(),
        {
            self.fields.push(String::new());
        }
        self.fields.set(idx - 1, val);
        self.nf = self.fields.len();
        self.record = join_strings(&self.fields, self.ofs.as_str());
    }
}

/// One record under a range pattern `start, end`: whether the rule runs for it,
/// and whether the range is open after it. `test` is the value of `end` when the
/// range is open, and of `start` when it is not: an open range runs its rule for
/// every record up to and including the one where `end` holds.
pub fn range_step(open: bool, test: bool) -> (r: (bool, bool))
    ensures
        r == (if open {
            (true, !test)
        } else {
            (test, test)
        }),
{
    if open {
        (true, !test)
    } else {
        (test, test)
    }
}

} // verus!
