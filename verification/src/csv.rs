//! Delimited text (CSV, TSV, semicolon-separated) to rows of fields, after RFC
//! 4180: the delimiter is chosen from the first lines; quoted fields may hold
//! the delimiter, line breaks and `""`-escaped quotes; CRLF, CR and LF end a
//! record.

use vstd::prelude::*;
use crate::chars::{
    blank, chars_of, copy_range, is_blank, lemma_nl_index, lemma_nl_index_at, nl_index, string_of,
    trim_start, trim_start_chars,
};
use crate::xml::{lossy_text, utf8_lossy};

verus! {

/// Most records read.
pub const MAX_ROWS: usize = 1_000_000;

/// Most fields kept per record.
pub const MAX_COLS: usize = 4096;

/// `s` without one final `'\r'`.
pub open spec fn strip_cr(s: Seq<char>) -> Seq<char> {
    if s.len() > 0 && s.last() == '\r' {
        s.drop_last()
    } else {
        s
    }
}

/// `str::lines`: the pieces between `'\n'`s, a `'\r'` before a `'\n'` dropped,
/// no empty last piece after a final `'\n'`.
pub open spec fn str_lines(s: Seq<char>) -> Seq<Seq<char>>
    decreases s.len(),
{
    if s.len() == 0 {
        Seq::empty()
    } else {
        let k = nl_index(s);
        if k < s.len() {
            proof {
                lemma_nl_index(s);
            }
            seq![strip_cr(s.take(k))] + str_lines(s.skip(k + 1))
        } else {
            seq![s]
        }
    }
}

/// Spec values of a list of character vectors.
pub open spec fn char_lines_view(v: Seq<Vec<char>>) -> Seq<Seq<char>> {
    v.map_values(|l: Vec<char>| l@)
}

fn split_str_lines(s: &[char]) -> (v: Vec<Vec<char>>)
    ensures
        char_lines_view(v@) == str_lines(s@),
{
    let mut out: Vec<Vec<char>> = Vec::new();
    let mut start: usize = 0;
    assert(s@.skip(0) =~= s@);
    while start < s.len()
        invariant
            start <= s.len(),
            char_lines_view(out@) + str_lines(s@.skip(start as int)) == str_lines(s@),
        decreases s.len() - start,
    {
        let ghost rest = s@.skip(start as int);
        let mut k = start;
        while k < s.len() && s[k] != '\n'
            invariant
                start <= k <= s.len(),
                forall|j: int| start <= j < k ==> s@[j] != '\n',
            decreases s.len() - k,
        {
            k += 1;
        }
        proof {
            assert forall|j: int| 0 <= j < k - start implies rest[j] != '\n' by {
                assert(rest[j] == s@[start + j]);
            }
            if k < s.len() {
                assert(rest[k - start] == s@[k as int]);
            }
            lemma_nl_index_at(rest, k - start);
        }
        let ghost before = char_lines_view(out@);
        if k < s.len() {
            let end = if k > start && s[k - 1] == '\r' {
                k - 1
            } else {
                k
            };
            let piece = copy_range(s, start, end);
            out.push(piece);
            assert(char_lines_view(out@) =~= before.push(piece@));
            assert(piece@ =~= strip_cr(rest.take(k - start)));
            assert(rest.skip(k - start + 1) =~= s@.skip(k + 1));
            assert(before.push(piece@) + str_lines(s@.skip(k + 1)) =~= before + (seq![
                strip_cr(rest.take(k - start)),
            ] + str_lines(rest.skip(k - start + 1))));
            start = k + 1;
        } else {
            let piece = copy_range(s, start, k);
            out.push(piece);
            assert(char_lines_view(out@) =~= before.push(piece@));
            assert(piece@ =~= rest);
            assert(s@.skip(s.len() as int) =~= Seq::<char>::empty());
            assert(before.push(piece@) + str_lines(s@.skip(s.len() as int)) =~= before + str_lines(
                rest,
            ));
            start = s.len();
        }
    }
    assert(s@.skip(s.len() as int) =~= Seq::<char>::empty());
    assert(char_lines_view(out@) + Seq::<Seq<char>>::empty() =~= char_lines_view(out@));
    out
}

// ------------------------------------------------------------------------
// Choosing the delimiter
// ------------------------------------------------------------------------

/// A line that takes part in choosing the delimiter: not blank, not a `#`
/// comment.
pub open spec fn sample_line(l: Seq<char>) -> bool {
    !blank(l) && !(trim_start(l).len() > 0 && trim_start(l)[0] == '#')
}

/// The first `n` lines that take part in choosing the delimiter.
pub open spec fn sample_of(ls: Seq<Seq<char>>, n: nat) -> Seq<Seq<char>>
    decreases ls.len(),
{
    if ls.len() == 0 || n == 0 {
        Seq::empty()
    } else if sample_line(ls[0]) {
        seq![ls[0]] + sample_of(ls.drop_first(), (n - 1) as nat)
    } else {
        sample_of(ls.drop_first(), n)
    }
}

/// Number of `d` in `l`.
pub open spec fn count_char(l: Seq<char>, d: char) -> nat
    decreases l.len(),
{
    if l.len() == 0 {
        0
    } else {
        count_char(l.drop_last(), d) + if l.last() == d {
            1nat
        } else {
            0nat
        }
    }
}

/// Number of lines holding `d` at least once.
pub open spec fn with_count(ls: Seq<Seq<char>>, d: char) -> nat
    decreases ls.len(),
{
    if ls.len() == 0 {
        0
    } else {
        with_count(ls.drop_last(), d) + if count_char(ls.last(), d) >= 1 {
            1nat
        } else {
            0nat
        }
    }
}

/// Number of lines holding `d` exactly `n` times.
pub open spec fn mult(ls: Seq<Seq<char>>, d: char, n: nat) -> nat
    decreases ls.len(),
{
    if ls.len() == 0 {
        0
    } else {
        mult(ls.drop_last(), d, n) + if count_char(ls.last(), d) == n {
            1nat
        } else {
            0nat
        }
    }
}

/// The largest number of lines that agree on how many `d` they hold, over
/// the counts of the lines in `ks` (0 when `ks` is empty).
pub open spec fn consistency_over(ks: Seq<Seq<char>>, all: Seq<Seq<char>>, d: char) -> nat
    decreases ks.len(),
{
    if ks.len() == 0 {
        0
    } else {
        let a = mult(all, d, count_char(ks.last(), d));
        let b = consistency_over(ks.drop_last(), all, d);
        if a >= b {
            a
        } else {
            b
        }
    }
}

/// Score of a delimiter over the sample: (lines holding it, largest number of
/// lines agreeing on its count).
pub open spec fn score(sample: Seq<Seq<char>>, d: char) -> (nat, nat) {
    (with_count(sample, d), consistency_over(sample, sample, d))
}

/// Lexicographic `a >= b`.
pub open spec fn score_ge(a: (nat, nat), b: (nat, nat)) -> bool {
    a.0 > b.0 || (a.0 == b.0 && a.1 >= b.1)
}

/// Keeps `best` or takes `d`: `d` wins when some sample line holds it and
/// its score is at least the best one so far (ties go to the later one).
pub open spec fn pick(sample: Seq<Seq<char>>, best: Option<char>, d: char) -> Option<char> {
    if score(sample, d).0 > 0 && (best is None || score_ge(score(sample, d), score(sample, best->0))) {
        Some(d)
    } else {
        best
    }
}

/// The delimiter: the best scoring of `,`, tab, `;` that the sample holds,
/// `,` when it holds none.
pub open spec fn choose_delim(sample: Seq<Seq<char>>) -> char {
    let b = pick(sample, pick(sample, pick(sample, None, ','), '\t'), ';');
    match b {
        Some(d) => d,
        None => ',',
    }
}

/// The delimiter is always a comma, a tab or a semicolon; a comma when no
/// sample line holds any of them; and the one that the most sample lines
/// hold, when one does so strictly.
pub proof fn law_delimiter_choice(sample: Seq<Seq<char>>)
    ensures
        choose_delim(sample) == ',' || choose_delim(sample) == '\t' || choose_delim(sample) == ';',
        with_count(sample, ',') == 0 && with_count(sample, '\t') == 0 && with_count(sample, ';') == 0
            ==> choose_delim(sample) == ',',
        with_count(sample, ',') > with_count(sample, '\t') && with_count(sample, ',') > with_count(sample, ';')
            ==> choose_delim(sample) == ',',
        with_count(sample, '\t') > with_count(sample, ',') && with_count(sample, '\t') > with_count(sample, ';')
            ==> choose_delim(sample) == '\t',
        with_count(sample, ';') > with_count(sample, ',') && with_count(sample, ';') > with_count(sample, '\t')
            ==> choose_delim(sample) == ';',
{
}

fn count_char_exec(l: &[char], d: char) -> (n: usize)
    ensures
        n == count_char(l@, d),
{
    let mut n: usize = 0;
    let mut j: usize = 0;
    while j < l.len()
        invariant
            j <= l.len(),
            n == count_char(l@.take(j as int), d),
            n <= j,
        decreases l.len() - j,
    {
        assert(l@.take(j + 1).drop_last() =~= l@.take(j as int));
        if l[j] == d {
            n += 1;
        }
        j += 1;
    }
    assert(l@.take(l.len() as int) =~= l@);
    n
}

fn score_exec(sample: &Vec<Vec<char>>, d: char) -> (r: (usize, usize))
    requires
        sample.len() <= 10,
    ensures
        (r.0 as nat, r.1 as nat) == score(char_lines_view(sample@), d),
{
    let ghost sv = char_lines_view(sample@);
    let mut counts: Vec<usize> = Vec::new();
    let mut with: usize = 0;
    let mut j: usize = 0;
    while j < sample.len()
        invariant
            j <= sample.len() <= 10,
            sv == char_lines_view(sample@),
            counts.len() == j,
            forall|i: int| 0 <= i < j ==> counts@[i] == count_char(sv[i], d),
            with == with_count(sv.take(j as int), d),
            with <= j,
        decreases sample.len() - j,
    {
        assert(sv.take(j + 1).drop_last() =~= sv.take(j as int));
        assert(sv[j as int] == sample@[j as int]@);
        let n = count_char_exec(sample[j].as_slice(), d);
        counts.push(n);
        if n >= 1 {
            with += 1;
        }
        j += 1;
    }
    assert(sv.take(sample.len() as int) =~= sv);
    let mut best: usize = 0;
    let mut a: usize = 0;
    while a < sample.len()
        invariant
            a <= sample.len() <= 10,
            sv == char_lines_view(sample@),
            counts.len() == sample.len(),
            forall|i: int| 0 <= i < sample.len() ==> counts@[i] == count_char(sv[i], d),
            best == consistency_over(sv.take(a as int), sv, d),
            best <= 10,
        decreases sample.len() - a,
    {
        let mut m: usize = 0;
        let mut b: usize = 0;
        while b < sample.len()
            invariant
                b <= sample.len() <= 10,
                sv == char_lines_view(sample@),
                a < sample.len(),
                counts.len() == sample.len(),
                forall|i: int| 0 <= i < sample.len() ==> counts@[i] == count_char(sv[i], d),
                m == mult(sv.take(b as int), d, counts@[a as int] as nat),
                m <= b,
            decreases sample.len() - b,
        {
            assert(sv.take(b + 1).drop_last() =~= sv.take(b as int));
            if counts[b] == counts[a] {
                m += 1;
            }
            b += 1;
        }
        assert(sv.take(sample.len() as int) =~= sv);
        assert(sv.take(a + 1).drop_last() =~= sv.take(a as int));
        if m >= best {
            best = m;
        }
        a += 1;
    }
    (with, best)
}

fn pick_exec(sample: &Vec<Vec<char>>, best: Option<char>, d: char) -> (r: Option<char>)
    requires
        sample.len() <= 10,
    ensures
        r == pick(char_lines_view(sample@), best, d),
{
    let s = score_exec(sample, d);
    if s.0 > 0 {
        match best {
            None => Some(d),
            Some(b) => {
                let t = score_exec(sample, b);
                if s.0 > t.0 || (s.0 == t.0 && s.1 >= t.1) {
                    Some(d)
                } else {
                    best
                }
            },
        }
    } else {
        best
    }
}

/// Delimiter chosen from the first ten sample lines of `text`.
pub open spec fn delim_of(text: Seq<char>) -> char {
    choose_delim(sample_of(str_lines(text), 10))
}

fn choose_delim_exec(text: &[char]) -> (d: char)
    ensures
        d == delim_of(text@),
{
    let ls = split_str_lines(text);
    let ghost lv = char_lines_view(ls@);
    let mut sample: Vec<Vec<char>> = Vec::new();
    let mut j: usize = 0;
    assert(lv.skip(0) =~= lv);
    assert(char_lines_view(sample@) =~= Seq::<Seq<char>>::empty());
    while j < ls.len() && sample.len() < 10
        invariant
            j <= ls.len(),
            sample.len() <= 10,
            lv == char_lines_view(ls@),
            char_lines_view(sample@) + sample_of(lv.skip(j as int), (10 - sample.len()) as nat)
                == sample_of(lv, 10),
        decreases ls.len() - j,
    {
        let l = ls[j].as_slice();
        assert(lv[j as int] == l@);
        let ghost rest = lv.skip(j as int);
        assert(rest[0] == l@);
        assert(rest.drop_first() =~= lv.skip(j + 1));
        let t = trim_start_chars(l);
        let keep = !is_blank(l) && !(t.len() > 0 && t[0] == '#');
        if keep {
            let ghost before = char_lines_view(sample@);
            let piece = copy_range(l, 0, l.len());
            assert(piece@ =~= l@);
            sample.push(piece);
            assert(char_lines_view(sample@) =~= before.push(l@));
            assert(before.push(l@) + sample_of(lv.skip(j + 1), (10 - sample.len()) as nat) =~= before
                + (seq![l@] + sample_of(rest.drop_first(), (10 - before.len() - 1) as nat)));
        }
        j += 1;
    }
    proof {
        if sample.len() == 10 {
            assert(sample_of(lv.skip(j as int), 0) =~= Seq::<Seq<char>>::empty());
        } else {
            assert(lv.skip(j as int) =~= Seq::<Seq<char>>::empty());
        }
        assert(char_lines_view(sample@) + Seq::<Seq<char>>::empty() =~= char_lines_view(sample@));
    }
    let b = pick_exec(&sample, pick_exec(&sample, pick_exec(&sample, None, ','), '\t'), ';');
    match b {
        Some(d) => d,
        None => ',',
    }
}

// ------------------------------------------------------------------------
// Records
// ------------------------------------------------------------------------

/// State of the record scan: position, finished records, the record and the
/// field being read, and whether the field is inside quotes.
pub struct CsvView {
    pub i: int,
    pub rows: Seq<Seq<Seq<char>>>,
    pub row: Seq<Seq<char>>,
    pub field: Seq<char>,
    pub quoted: bool,
}

/// The record with the field added, unless it already has the most fields.
pub open spec fn add_field(row: Seq<Seq<char>>, field: Seq<char>) -> Seq<Seq<char>> {
    if row.len() < MAX_COLS {
        row.push(field)
    } else {
        row
    }
}

/// One step of the record scan at `st.i` (in bounds).
pub open spec fn csv_step(t: Seq<char>, delim: char, st: CsvView) -> CsvView {
    let i = st.i;
    let c = t[i];
    let next_is = |x: char| i + 1 < t.len() && t[i + 1] == x;
    if st.quoted {
        if c == '"' {
            if next_is('"') {
                CsvView { i: i + 2, field: st.field.push('"'), ..st }
            } else {
                CsvView { i: i + 1, quoted: false, ..st }
            }
        } else {
            CsvView { i: i + 1, field: st.field.push(c), ..st }
        }
    } else if c == '"' {
        CsvView { i: i + 1, quoted: true, ..st }
    } else if c == delim {
        CsvView { i: i + 1, row: add_field(st.row, st.field), field: Seq::empty(), ..st }
    } else if c == '\n' || c == '\r' {
        CsvView {
            i: if c == '\r' && next_is('\n') {
                i + 2
            } else {
                i + 1
            },
            rows: st.rows.push(add_field(st.row, st.field)),
            row: Seq::empty(),
            field: Seq::empty(),
            ..st
        }
    } else {
        CsvView { i: i + 1, field: st.field.push(c), ..st }
    }
}

/// The record scan from `st` to the end of `t` or the record limit.
pub open spec fn csv_run(t: Seq<char>, delim: char, st: CsvView) -> CsvView
    decreases t.len() - st.i,
{
    if st.i < 0 || st.i >= t.len() || st.rows.len() >= MAX_ROWS {
        st
    } else {
        let nx = csv_step(t, delim, st);
        if nx.i <= st.i || nx.i > t.len() {
            st
        } else {
            csv_run(t, delim, nx)
        }
    }
}

/// Records of text read with delimiter `d`: the scan's records, and the
/// last record when the text does not end with a line break.
pub open spec fn records(t: Seq<char>, d: char) -> Seq<Seq<Seq<char>>> {
    let fin = csv_run(t, d, CsvView { i: 0, rows: Seq::empty(), row: Seq::empty(), field: Seq::empty(), quoted: false });
    if (fin.field.len() > 0 || fin.row.len() > 0) && fin.rows.len() < MAX_ROWS {
        fin.rows.push(add_field(fin.row, fin.field))
    } else {
        fin.rows
    }
}

/// Records of delimited text (the byte-order mark already removed).
pub open spec fn spec_csv_text(t: Seq<char>) -> Seq<Seq<Seq<char>>> {
    records(t, delim_of(t))
}

// ------------------------------------------------------------------------
// Quoted records read back
// ------------------------------------------------------------------------

/// The inside of an RFC 4180 quoted field: each quote doubled.
pub open spec fn quote_body(f: Seq<char>) -> Seq<char>
    decreases f.len(),
{
    if f.len() == 0 {
        Seq::empty()
    } else {
        (if f[0] == '"' {
            seq!['"', '"']
        } else {
            seq![f[0]]
        }) + quote_body(f.drop_first())
    }
}

/// A field written in quotes.
pub open spec fn quoted(f: Seq<char>) -> Seq<char> {
    seq!['"'] + quote_body(f) + seq!['"']
}

/// A record written as its quoted fields separated by `d`.
pub open spec fn encode_row(r: Seq<Seq<char>>, d: char) -> Seq<char>
    decreases r.len(),
{
    if r.len() == 0 {
        Seq::empty()
    } else if r.len() == 1 {
        quoted(r[0])
    } else {
        quoted(r[0]) + seq![d] + encode_row(r.drop_first(), d)
    }
}

/// Records written one per line, each ended by a line feed.
pub open spec fn encode_rows(rows: Seq<Seq<Seq<char>>>, d: char) -> Seq<char>
    decreases rows.len(),
{
    if rows.len() == 0 {
        Seq::empty()
    } else {
        encode_row(rows[0], d) + seq!['\n'] + encode_rows(rows.drop_first(), d)
    }
}

proof fn lemma_run_step(t: Seq<char>, d: char, st: CsvView)
    requires
        0 <= st.i < t.len(),
        st.rows.len() < MAX_ROWS,
        st.i < csv_step(t, d, st).i <= t.len(),
    ensures
        csv_run(t, d, st) == csv_run(t, d, csv_step(t, d, st)),
{
}

proof fn lemma_quote_body_len(f: Seq<char>)
    ensures
        quote_body(f).len() >= f.len(),
    decreases f.len(),
{
    if f.len() > 0 {
        lemma_quote_body_len(f.drop_first());
    }
}

/// Inside quotes, the scan reads a quoted body back as its field and leaves
/// the quotes after the closing one.
proof fn lemma_scan_body(t: Seq<char>, d: char, st: CsvView, f: Seq<char>)
    requires
        st.quoted,
        st.rows.len() < MAX_ROWS,
        0 <= st.i,
        st.i + quote_body(f).len() + 1 <= t.len(),
        t.subrange(st.i, st.i + quote_body(f).len()) == quote_body(f),
        t[st.i + quote_body(f).len()] == '"',
        st.i + quote_body(f).len() + 1 == t.len() || t[st.i + quote_body(f).len() + 1] != '"',
    ensures
        csv_run(t, d, st) == csv_run(
            t,
            d,
            CsvView { i: st.i + quote_body(f).len() + 1, field: st.field + f, quoted: false, ..st },
        ),
    decreases f.len(),
{
    let qb = quote_body(f);
    if f.len() == 0 {
        assert(st.field + f =~= st.field);
        lemma_run_step(t, d, st);
    } else {
        let rest = f.drop_first();
        let qr = quote_body(rest);
        if f[0] == '"' {
            assert(qb =~= seq!['"', '"'] + qr);
            assert(t[st.i] == qb[0]);
            assert(t[st.i + 1] == qb[1]);
            let nx = csv_step(t, d, st);
            assert(nx == CsvView { i: st.i + 2, field: st.field.push('"'), ..st });
            lemma_run_step(t, d, st);
            assert(t.subrange(nx.i, nx.i + qr.len()) =~= qr) by {
                assert forall|j: int| 0 <= j < qr.len() implies t.subrange(nx.i, nx.i + qr.len())[j] == qr[j] by {
                    assert(t.subrange(st.i, st.i + qb.len())[j + 2] == qb[j + 2]);
                }
            }
            lemma_scan_body(t, d, nx, rest);
            assert(st.field.push('"') + rest =~= st.field + f);
        } else {
            assert(qb =~= seq![f[0]] + qr);
            assert(t[st.i] == qb[0]);
            let nx = csv_step(t, d, st);
            assert(nx == CsvView { i: st.i + 1, field: st.field.push(f[0]), ..st });
            lemma_run_step(t, d, st);
            assert(t.subrange(nx.i, nx.i + qr.len()) =~= qr) by {
                assert forall|j: int| 0 <= j < qr.len() implies t.subrange(nx.i, nx.i + qr.len())[j] == qr[j] by {
                    assert(t.subrange(st.i, st.i + qb.len())[j + 1] == qb[j + 1]);
                }
            }
            lemma_scan_body(t, d, nx, rest);
            assert(st.field.push(f[0]) + rest =~= st.field + f);
        }
    }
}

/// Outside quotes, the scan reads a quoted record and its line feed back as
/// one more record (after the fields `acc` already read).
proof fn lemma_scan_row(t: Seq<char>, d: char, st: CsvView, r: Seq<Seq<char>>)
    requires
        d != '"' && d != '\n' && d != '\r',
        !st.quoted,
        st.field.len() == 0,
        st.rows.len() < MAX_ROWS,
        r.len() >= 1,
        st.row.len() + r.len() <= MAX_COLS,
        0 <= st.i,
        st.i + encode_row(r, d).len() + 1 <= t.len(),
        t.subrange(st.i, st.i + encode_row(r, d).len()) == encode_row(r, d),
        t[st.i + encode_row(r, d).len()] == '\n',
    ensures
        csv_run(t, d, st) == csv_run(
            t,
            d,
            CsvView {
                i: st.i + encode_row(r, d).len() + 1,
                rows: st.rows.push(st.row + r),
                row: Seq::empty(),
                field: Seq::empty(),
                quoted: false,
            },
        ),
    decreases r.len(),
{
    let er = encode_row(r, d);
    let q = quoted(r[0]);
    let qb = quote_body(r[0]);
    let p = st.i;
    // the opening quote
    assert(q[0] == '"');
    assert(er.subrange(0, q.len() as int) =~= q) by {
        if r.len() > 1 {
            assert(er =~= q + seq![d] + encode_row(r.drop_first(), d));
        }
    }
    assert(t[p] == er[0]);
    let s1 = csv_step(t, d, st);
    assert(s1 == CsvView { i: p + 1, quoted: true, ..st });
    lemma_run_step(t, d, st);
    // the body and closing quote
    let after = p + q.len();
    assert(q.len() == qb.len() + 2);
    assert(t.subrange(p + 1, p + 1 + qb.len()) =~= qb) by {
        assert forall|j: int| 0 <= j < qb.len() implies t.subrange(p + 1, p + 1 + qb.len())[j] == qb[j] by {
            assert(t.subrange(p, p + er.len())[j + 1] == er[j + 1]);
            assert(er[j + 1] == q[j + 1]);
        }
    }
    assert(t[p + 1 + qb.len()] == '"') by {
        assert(t.subrange(p, p + er.len())[qb.len() + 1int] == er[qb.len() + 1int]);
        assert(er[qb.len() + 1int] == q[qb.len() + 1int]);
    }
    if r.len() == 1 {
        assert(er == q);
        assert(t[after] == '\n');
    } else {
        assert(er =~= q + seq![d] + encode_row(r.drop_first(), d));
        assert(t[after] == d) by {
            assert(t.subrange(p, p + er.len())[q.len() as int] == er[q.len() as int]);
        }
    }
    lemma_scan_body(t, d, s1, r[0]);
    let s2 = CsvView { i: after, field: st.field + r[0], quoted: false, ..s1 };
    assert(st.field + r[0] =~= r[0]);
    assert(st.row.len() < MAX_COLS);
    if r.len() == 1 {
        let s3 = csv_step(t, d, s2);
        assert(s3 == CsvView {
            i: after + 1,
            rows: st.rows.push(add_field(st.row, r[0])),
            row: Seq::empty(),
            field: Seq::empty(),
            ..s2
        });
        lemma_run_step(t, d, s2);
        assert(add_field(st.row, r[0]) =~= st.row + r);
    } else {
        let s3 = csv_step(t, d, s2);
        assert(s3 == CsvView { i: after + 1, row: add_field(st.row, r[0]), field: Seq::empty(), ..s2 });
        lemma_run_step(t, d, s2);
        let rest = r.drop_first();
        let e2 = encode_row(rest, d);
        assert(er.len() == q.len() + 1 + e2.len());
        assert(t.subrange(after + 1, after + 1 + e2.len()) =~= e2) by {
            assert forall|j: int| 0 <= j < e2.len() implies t.subrange(after + 1, after + 1 + e2.len())[j] == e2[j] by {
                assert(t.subrange(p, p + er.len())[q.len() + 1 + j] == er[q.len() + 1 + j]);
            }
        }
        lemma_scan_row(t, d, s3, rest);
        assert(add_field(st.row, r[0]) + rest =~= st.row + r);
    }
}

/// The scan reads the records of `encode_rows(rows)` from position `p` on,
/// after the records `done`.
proof fn lemma_scan_rows(t: Seq<char>, d: char, p: int, done: Seq<Seq<Seq<char>>>, rows: Seq<Seq<Seq<char>>>)
    requires
        d != '"' && d != '\n' && d != '\r',
        0 <= p,
        p + encode_rows(rows, d).len() == t.len(),
        t.subrange(p, t.len() as int) == encode_rows(rows, d),
        done.len() + rows.len() <= MAX_ROWS,
        forall|k: int| 0 <= k < rows.len() ==> 1 <= #[trigger] rows[k].len() <= MAX_COLS,
    ensures
        csv_run(t, d, CsvView { i: p, rows: done, row: Seq::empty(), field: Seq::empty(), quoted: false }) == (
        CsvView { i: t.len() as int, rows: done + rows, row: Seq::empty(), field: Seq::empty(), quoted: false }),
    decreases rows.len(),
{
    let st = CsvView { i: p, rows: done, row: Seq::empty(), field: Seq::empty(), quoted: false };
    if rows.len() == 0 {
        assert(done + rows =~= done);
    } else {
        let er = encode_row(rows[0], d);
        let tail = encode_rows(rows.drop_first(), d);
        assert(encode_rows(rows, d) =~= er + seq!['\n'] + tail);
        assert(t.subrange(p, p + er.len()) =~= er) by {
            assert forall|j: int| 0 <= j < er.len() implies t.subrange(p, p + er.len())[j] == er[j] by {
                assert(t.subrange(p, t.len() as int)[j] == encode_rows(rows, d)[j]);
            }
        }
        assert(t[p + er.len()] == '\n') by {
            assert(t.subrange(p, t.len() as int)[er.len() as int] == encode_rows(rows, d)[er.len() as int]);
        }
        assert(Seq::<Seq<char>>::empty() + rows[0] =~= rows[0]);
        lemma_scan_row(t, d, st, rows[0]);
        let p2 = p + er.len() + 1;
        assert(t.subrange(p2, t.len() as int) =~= tail) by {
            assert forall|j: int| 0 <= j < tail.len() implies t.subrange(p2, t.len() as int)[j] == tail[j] by {
                assert(t.subrange(p, t.len() as int)[er.len() + 1 + j] == encode_rows(rows, d)[er.len() + 1 + j]);
            }
        }
        assert forall|k: int| 0 <= k < rows.drop_first().len() implies 1 <= #[trigger] rows.drop_first()[k].len()
            <= MAX_COLS by {
            assert(rows.drop_first()[k] == rows[k + 1]);
        }
        lemma_scan_rows(t, d, p2, done.push(rows[0]), rows.drop_first());
        assert(done.push(rows[0]) + rows.drop_first() =~= done + rows);
    }
}

/// Records written in RFC 4180 form (every field quoted, quotes doubled,
/// fields separated by the delimiter, each record ended by a line feed) are
/// read back unchanged, whatever they contain: delimiters, quotes, line
/// breaks. Records need at least one field and stay within the limits.
pub proof fn law_quoted_records_read_back(rows: Seq<Seq<Seq<char>>>, d: char)
    requires
        d == ',' || d == '\t' || d == ';',
        rows.len() <= MAX_ROWS,
        forall|k: int| 0 <= k < rows.len() ==> 1 <= #[trigger] rows[k].len() <= MAX_COLS,
    ensures
        records(encode_rows(rows, d), d) == rows,
{
    let t = encode_rows(rows, d);
    assert(t.subrange(0, t.len() as int) =~= t);
    lemma_scan_rows(t, d, 0, Seq::empty(), rows);
    assert(Seq::<Seq<Seq<char>>>::empty() + rows =~= rows);
}

/// Text without a leading byte-order mark.
pub open spec fn strip_bom(t: Seq<char>) -> Seq<char> {
    if t.len() > 0 && t[0] == '\u{feff}' {
        t.drop_first()
    } else {
        t
    }
}

/// Records of delimited bytes, read as UTF-8 with invalid sequences replaced.
pub open spec fn spec_parse_delimited(bytes: Seq<u8>) -> Seq<Seq<Seq<char>>> {
    spec_csv_text(strip_bom(utf8_lossy(bytes)))
}

/// Spec values of parsed records.
pub open spec fn rows_view(v: Seq<Vec<String>>) -> Seq<Seq<Seq<char>>> {
    v.map_values(|r: Vec<String>| r@.map_values(|s: String| s@))
}

/// Every record has at most `MAX_COLS` fields and there are at most
/// `MAX_ROWS` records.
pub open spec fn within_caps(rows: Seq<Seq<Seq<char>>>) -> bool {
    rows.len() <= MAX_ROWS && forall|k: int| 0 <= k < rows.len() ==> #[trigger] rows[k].len() <= MAX_COLS
}

struct CsvState {
    i: usize,
    rows: Vec<Vec<String>>,
    row: Vec<String>,
    field: Vec<char>,
    quoted: bool,
}

impl View for CsvState {
    type V = CsvView;

    closed spec fn view(&self) -> CsvView {
        CsvView {
            i: self.i as int,
            rows: rows_view(self.rows@),
            row: self.row@.map_values(|s: String| s@),
            field: self.field@,
            quoted: self.quoted,
        }
    }
}

fn add_field_exec(row: &mut Vec<String>, field: &Vec<char>)
    ensures
        final(row)@.map_values(|s: String| s@) == add_field(
            old(row)@.map_values(|s: String| s@),
            field@,
        ),
        old(row).len() <= MAX_COLS ==> final(row).len() <= MAX_COLS,
{
    if row.len() < MAX_COLS {
        let ghost before = row@.map_values(|s: String| s@);
        row.push(string_of(field.as_slice()));
        assert(row@.map_values(|s: String| s@) =~= before.push(field@));
    }
}

fn csv_step_exec(t: &[char], delim: char, st: &mut CsvState)
    requires
        old(st).i < t.len(),
    ensures
        final(st)@ == csv_step(t@, delim, old(st)@),
        old(st).row.len() <= MAX_COLS && old(st).rows.len() < MAX_ROWS && within_caps(
            rows_view(old(st).rows@),
        ) ==> final(st).row.len() <= MAX_COLS && final(st).rows.len() <= MAX_ROWS && within_caps(
            rows_view(final(st).rows@),
        ),
{
    let i = st.i;
    let c = t[i];
    let next_quote = i + 1 < t.len() && t[i + 1] == '"';
    let next_nl = i + 1 < t.len() && t[i + 1] == '\n';
    if st.quoted {
        if c == '"' {
            if next_quote {
                st.field.push('"');
                st.i = i + 2;
            } else {
                st.quoted = false;
                st.i = i + 1;
            }
        } else {
            st.field.push(c);
            st.i = i + 1;
        }
    } else if c == '"' {
        st.quoted = true;
        st.i = i + 1;
    } else if c == delim {
        add_field_exec(&mut st.row, &st.field);
        st.field = Vec::new();
        assert(st.field@ =~= Seq::<char>::empty());
        st.i = i + 1;
    } else if c == '\n' || c == '\r' {
        add_field_exec(&mut st.row, &st.field);
        let mut row: Vec<String> = Vec::new();
        std::mem::swap(&mut row, &mut st.row);
        let ghost before = rows_view(st.rows@);
        let ghost rv = row@.map_values(|s: String| s@);
        st.rows.push(row);
        assert(rows_view(st.rows@) =~= before.push(rv));
        assert(st.row@.map_values(|s: String| s@) =~= Seq::<Seq<char>>::empty());
        proof {
            if old(st).row.len() <= MAX_COLS && within_caps(before) {
                assert forall|k: int| 0 <= k < rows_view(st.rows@).len() implies #[trigger] rows_view(
                    st.rows@,
                )[k].len() <= MAX_COLS by {
                    if k < before.len() {
                        assert(rows_view(st.rows@)[k] == before[k]);
                    }
                }
            }
        }
        st.field = Vec::new();
        assert(st.field@ =~= Seq::<char>::empty());
        st.i = if c == '\r' && next_nl {
            i + 2
        } else {
            i + 1
        };
    } else {
        st.field.push(c);
        st.i = i + 1;
    }
}

/// Records of delimited text (after the byte-order mark is removed).
pub fn parse_delimited_text(t: &[char]) -> (rows: Vec<Vec<String>>)
    ensures
        rows_view(rows@) == spec_csv_text(t@),
        within_caps(rows_view(rows@)),
{
    let delim = choose_delim_exec(t);
    let mut st = CsvState {
        i: 0,
        rows: Vec::new(),
        row: Vec::new(),
        field: Vec::new(),
        quoted: false,
    };
    let ghost st0 = CsvView {
        i: 0,
        rows: Seq::empty(),
        row: Seq::empty(),
        field: Seq::empty(),
        quoted: false,
    };
    assert(rows_view(st.rows@) =~= Seq::<Seq<Seq<char>>>::empty());
    assert(st.row@.map_values(|s: String| s@) =~= Seq::<Seq<char>>::empty());
    assert(st.field@ =~= Seq::<char>::empty());
    assert(st@ == st0);
    while st.i < t.len() && st.rows.len() < MAX_ROWS
        invariant
            delim == delim_of(t@),
            csv_run(t@, delim, st@) == csv_run(t@, delim, st0),
            st.i <= t.len(),
            st.rows.len() <= MAX_ROWS,
            st.row.len() <= MAX_COLS,
            within_caps(rows_view(st.rows@)),
        decreases t.len() - st.i,
    {
        csv_step_exec(t, delim, &mut st);
    }
    if (st.field.len() > 0 || st.row.len() > 0) && st.rows.len() < MAX_ROWS {
        add_field_exec(&mut st.row, &st.field);
        let ghost before = rows_view(st.rows@);
        let ghost rv = st.row@.map_values(|s: String| s@);
        let mut row: Vec<String> = Vec::new();
        std::mem::swap(&mut row, &mut st.row);
        st.rows.push(row);
        assert(rows_view(st.rows@) =~= before.push(rv));
        assert forall|k: int| 0 <= k < rows_view(st.rows@).len() implies #[trigger] rows_view(
            st.rows@,
        )[k].len() <= MAX_COLS by {
            if k < before.len() {
                assert(rows_view(st.rows@)[k] == before[k]);
            }
        }
    }
    st.rows
}

/// Delimited bytes (CSV, TSV, semicolon) to records of fields.
pub fn parse_delimited(bytes: &[u8]) -> (rows: Vec<Vec<String>>)
    ensures
        rows_view(rows@) == spec_parse_delimited(bytes@),
        within_caps(rows_view(rows@)),
{
    let text = lossy_text(bytes);
    let cs = chars_of(text.as_str());
    if cs.len() > 0 && cs[0] == '\u{feff}' {
        let rest = copy_range(cs.as_slice(), 1, cs.len());
        assert(rest@ =~= cs@.drop_first());
        parse_delimited_text(rest.as_slice())
    } else {
        parse_delimited_text(cs.as_slice())
    }
}

} // verus!
