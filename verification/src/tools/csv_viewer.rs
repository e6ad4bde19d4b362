//! CSV tables: parsing with quoted fields, writing back, filtering, and
//! adding or removing columns.
use vstd::prelude::*;
use crate::num::{decimal, push_decimal};
use crate::text::{chars_contain, contains, join, push_char, str_chars, string_from_chars, strs_of};
use crate::unicode::{lowercase, to_lowercase};

verus! {

/// A table: header names, rows of fields, and how it is written.
pub struct CsvData {
    pub headers: Vec<String>,
    pub rows: Vec<Vec<String>>,
    pub delimiter: char,
    pub has_headers: bool,
}

/// The views of rows of strings.
pub open spec fn rows_of(v: Seq<Vec<String>>) -> Seq<Seq<Seq<char>>> {
    v.map_values(|r: Vec<String>| strs_of(r@))
}

// ---------------------------------------------------------------------------
// Parsing
// ---------------------------------------------------------------------------

/// The state of the parser: the records so far, the fields of the current
/// record, the current field, and whether it is inside quotes.
pub struct CsvScan {
    pub records: Seq<Seq<Seq<char>>>,
    pub record: Seq<Seq<char>>,
    pub field: Seq<char>,
    pub quoted: bool,
}

/// The parser's state after reading `s` from state `st`. Inside quotes, a
/// doubled quote is one quote and a single quote ends the quotes; outside,
/// a quote opens them, the delimiter ends a field, and `\n`, `\r` or
/// `\r\n` ends a record.
pub open spec fn csv_scan(s: Seq<char>, d: char, st: CsvScan) -> CsvScan
    decreases s.len(),
{
    if s.len() == 0 {
        st
    } else {
        let c = s[0];
        if st.quoted {
            if c == '"' {
                if s.len() > 1 && s[1] == '"' {
                    csv_scan(s.skip(2), d, CsvScan { field: st.field.push('"'), ..st })
                } else {
                    csv_scan(s.skip(1), d, CsvScan { quoted: false, ..st })
                }
            } else {
                csv_scan(s.skip(1), d, CsvScan { field: st.field.push(c), ..st })
            }
        } else if c == '"' {
            csv_scan(s.skip(1), d, CsvScan { quoted: true, ..st })
        } else if c == d {
            csv_scan(
                s.skip(1),
                d,
                CsvScan { record: st.record.push(st.field), field: seq![], ..st },
            )
        } else if c == '\r' || c == '\n' {
            let n = if c == '\r' && s.len() > 1 && s[1] == '\n' {
                2int
            } else {
                1int
            };
            csv_scan(
                s.skip(n),
                d,
                CsvScan {
                    records: st.records.push(st.record.push(st.field)),
                    record: seq![],
                    field: seq![],
                    quoted: false,
                },
            )
        } else {
            csv_scan(s.skip(1), d, CsvScan { field: st.field.push(c), ..st })
        }
    }
}

/// The records of a CSV text: the records the scan ends, and a last one
/// when the text ends inside a record.
pub open spec fn records_of(s: Seq<char>, d: char) -> Seq<Seq<Seq<char>>> {
    let st = csv_scan(
        s,
        d,
        CsvScan { records: seq![], record: seq![], field: seq![], quoted: false },
    );
    if st.field.len() > 0 || st.record.len() > 0 {
        st.records.push(st.record.push(st.field))
    } else {
        st.records
    }
}

/// The largest number of fields in a record.
pub open spec fn max_fields(rs: Seq<Seq<Seq<char>>>) -> nat
    decreases rs.len(),
{
    if rs.len() == 0 {
        0
    } else {
        let m = max_fields(rs.drop_last());
        if rs.last().len() > m {
            rs.last().len()
        } else {
            m
        }
    }
}

/// A row cut or padded with empty fields to `n` fields.
pub open spec fn resized(row: Seq<Seq<char>>, n: nat) -> Seq<Seq<char>> {
    if row.len() >= n {
        row.take(n as int)
    } else {
        row + Seq::new((n - row.len()) as nat, |i: int| Seq::<char>::empty())
    }
}

/// `Column 1`, `Column 2`, … up to `n`.
pub open spec fn numbered_headers(n: nat) -> Seq<Seq<char>> {
    Seq::new(n, |i: int| "Column "@ + decimal((i + 1) as nat))
}

fn records_view(v: &Vec<Vec<String>>) -> (res: Ghost<Seq<Seq<Seq<char>>>>)
    ensures
        res@ == rows_of(v@),
{
    Ghost(rows_of(v@))
}

fn copy_str(s: &str) -> (res: String)
    ensures
        res@ == s@,
{
    let mut o = String::new();
    o.append(s);
    o
}

fn string_vec_from(parts: &Vec<String>) -> (res: Vec<String>)
    ensures
        strs_of(res@) == strs_of(parts@),
{
    let mut out: Vec<String> = Vec::new();
    let mut i: usize = 0;
    while i < parts.len()
        invariant
            i <= parts@.len(),
            strs_of(out@) == strs_of(parts@).take(i as int),
        decreases parts.len() - i,
    {
        let ghost prev = out@;
        out.push(parts[i].clone());
        proof {
            assert(strs_of(out@) == strs_of(prev).push(parts@[i as int]@));
            assert(strs_of(parts@).take(i as int + 1) == strs_of(parts@).take(i as int).push(
                parts@[i as int]@,
            ));
        }
        i += 1;
    }
    proof {
        assert(strs_of(parts@).take(parts@.len() as int) == strs_of(parts@));
    }
    out
}

/// Splits CSV text into records of fields (see `records_of`).
fn parse_records(text: &str, delimiter: char) -> (res: Vec<Vec<String>>)
    ensures
        rows_of(res@) == records_of(text@, delimiter),
{
    let s = str_chars(text);
    let n = s.len();
    let mut records: Vec<Vec<String>> = Vec::new();
    let mut record: Vec<String> = Vec::new();
    let mut field = String::new();
    let mut quoted = false;
    let mut i: usize = 0;
    let ghost init = CsvScan { records: seq![], record: seq![], field: seq![], quoted: false };
    proof {
        assert(s@.skip(0) == s@);
        assert(rows_of(records@) == Seq::<Seq<Seq<char>>>::empty());
        assert(strs_of(record@) == Seq::<Seq<char>>::empty());
    }
    while i < n
        invariant
            n == s@.len(),
            s@ == text@,
            i <= n,
            csv_scan(
                s@.skip(i as int),
                delimiter,
                CsvScan {
                    records: rows_of(records@),
                    record: strs_of(record@),
                    field: field@,
                    quoted,
                },
            ) == csv_scan(text@, delimiter, init),
        decreases n - i,
    {
        let ghost rest = s@.skip(i as int);
        let c = s[i];
        proof {
            assert(rest[0] == c);
            assert(rest.skip(1) == s@.skip(i + 1));
            if i + 1 < n {
                assert(rest[1] == s@[i + 1]);
                assert(rest.skip(2) == s@.skip(i + 2));
            }
        }
        if quoted {
            if c == '"' {
                if i + 1 < n && s[i + 1] == '"' {
                    push_char(&mut field, '"');
                    i += 2;
                } else {
                    quoted = false;
                    i += 1;
                }
            } else {
                push_char(&mut field, c);
                i += 1;
            }
        } else if c == '"' {
            quoted = true;
            i += 1;
        } else if c == delimiter {
            let ghost prev = record@;
            record.push(field);
            proof {
                assert(strs_of(record@) == strs_of(prev).push(record@.last()@));
            }
            field = String::new();
            i += 1;
        } else if c == '\r' || c == '\n' {
            let ghost prev_rec = record@;
            record.push(field);
            proof {
                assert(strs_of(record@) == strs_of(prev_rec).push(record@.last()@));
            }
            let ghost prev_recs = records@;
            records.push(record);
            proof {
                assert(rows_of(records@) == rows_of(prev_recs).push(strs_of(records@.last()@)));
            }
            record = Vec::new();
            field = String::new();
            proof {
                assert(strs_of(record@) == Seq::<Seq<char>>::empty());
            }
            if c == '\r' && i + 1 < n && s[i + 1] == '\n' {
                i += 2;
            } else {
                i += 1;
            }
        } else {
            push_char(&mut field, c);
            i += 1;
        }
    }
    proof {
        assert(s@.skip(n as int) == Seq::<char>::empty());
    }
    if !field.as_str().is_empty() || record.len() > 0 {
        let ghost prev_rec = record@;
        record.push(field);
        proof {
            assert(strs_of(record@) == strs_of(prev_rec).push(record@.last()@));
        }
        let ghost prev_recs = records@;
        records.push(record);
        proof {
            assert(rows_of(records@) == rows_of(prev_recs).push(strs_of(records@.last()@)));
        }
    }
    records
}

/// Cuts or pads a row to `n` fields.
fn resize_row(row: &Vec<String>, n: usize) -> (res: Vec<String>)
    ensures
        strs_of(res@) == resized(strs_of(row@), n as nat),
{
    let mut out: Vec<String> = Vec::new();
    let mut i: usize = 0;
    while i < n
        invariant
            i <= n,
            out@.len() == i,
            forall|k: int|
                0 <= k < i ==> (#[trigger] out@[k])@ == if k < row@.len() {
                    row@[k]@
                } else {
                    Seq::<char>::empty()
                },
        decreases n - i,
    {
        if i < row.len() {
            out.push(row[i].clone());
        } else {
            out.push(String::new());
        }
        i += 1;
    }
    proof {
        let r = resized(strs_of(row@), n as nat);
        assert(strs_of(out@).len() == r.len());
        assert forall|k: int| 0 <= k < r.len() implies strs_of(out@)[k] == r[k] by {}
        assert(strs_of(out@) == r);
    }
    out
}

impl CsvData {
    /// The header names.
    pub open spec fn headers_view(&self) -> Seq<Seq<char>> {
        strs_of(self.headers@)
    }

    /// The rows of fields.
    pub open spec fn rows_view(&self) -> Seq<Seq<Seq<char>>> {
        rows_of(self.rows@)
    }
}

/// The table `parse_csv` gives: no headers and no rows for a text without
/// records; else the first record as headers, or `Column 1`… for as many
/// columns as the longest record has, and every row cut or padded to the
/// number of headers.
pub open spec fn parsed(text: Seq<char>, d: char, has_headers: bool) -> (Seq<Seq<char>>, Seq<
    Seq<Seq<char>>,
>) {
    let rs = records_of(text, d);
    if rs.len() == 0 {
        (seq![], seq![])
    } else {
        let (hs, rows) = if has_headers {
            (rs[0], rs.skip(1))
        } else {
            (numbered_headers(max_fields(rs)), rs)
        };
        (hs, Seq::new(rows.len(), |i: int| resized(rows[i], hs.len())))
    }
}

/// Parses CSV text (see `records_of` and `parsed`).
pub fn parse_csv(text: &str, delimiter: char, has_headers: bool) -> (res: CsvData)
    ensures
        res.headers_view() == parsed(text@, delimiter, has_headers).0,
        res.rows_view() == parsed(text@, delimiter, has_headers).1,
        res.delimiter == delimiter,
        res.has_headers == has_headers,
{
    let records = parse_records(text, delimiter);
    let ghost rs = records_of(text@, delimiter);
    if records.len() == 0 {
        let r = CsvData { headers: Vec::new(), rows: Vec::new(), delimiter, has_headers };
        proof {
            assert(r.headers_view() == Seq::<Seq<char>>::empty());
            assert(r.rows_view() == Seq::<Seq<Seq<char>>>::empty());
        }
        return r;
    }
    let mut headers: Vec<String>;
    let start: usize;
    if has_headers {
        headers = string_vec_from(&records[0]);
        start = 1;
        proof {
            assert(strs_of(records@[0]@) == rs[0]);
        }
    } else {
        let mut m: usize = 0;
        let mut k: usize = 0;
        while k < records.len()
            invariant
                k <= records@.len(),
                rows_of(records@) == rs,
                m == max_fields(rs.take(k as int)),
            decreases records.len() - k,
        {
            proof {
                assert(rs.take(k as int + 1).drop_last() == rs.take(k as int));
                assert(rs[k as int] == strs_of(records@[k as int]@));
            }
            if records[k].len() > m {
                m = records[k].len();
            }
            k += 1;
        }
        proof {
            assert(rs.take(records@.len() as int) == rs);
        }
        headers = Vec::new();
        let mut h: usize = 0;
        while h < m
            invariant
                h <= m,
                strs_of(headers@) == numbered_headers(m as nat).take(h as int),
            decreases m - h,
        {
            let mut name = copy_str("Column ");
            push_decimal(&mut name, (h + 1) as u64);
            let ghost prev = headers@;
            headers.push(name);
            proof {
                assert(strs_of(headers@) == strs_of(prev).push(headers@.last()@));
                assert(numbered_headers(m as nat).take(h as int + 1) == numbered_headers(
                    m as nat,
                ).take(h as int).push(numbered_headers(m as nat)[h as int]));
            }
            h += 1;
        }
        proof {
            assert(numbered_headers(m as nat).take(m as int) == numbered_headers(m as nat));
        }
        start = 0;
    }
    let ghost hs = strs_of(headers@);
    let ghost src = rs.skip(start as int);
    let cols = headers.len();
    let mut rows: Vec<Vec<String>> = Vec::new();
    let mut k: usize = start;
    while k < records.len()
        invariant
            start <= k <= records@.len(),
            rows_of(records@) == rs,
            src == rs.skip(start as int),
            cols == hs.len(),
            rows_of(rows@) == Seq::new((k - start) as nat, |i: int| resized(src[i], cols as nat)),
        decreases records.len() - k,
    {
        let r = resize_row(&records[k], cols);
        let ghost prev = rows@;
        rows.push(r);
        proof {
            assert(src[k - start] == rs[k as int]);
            assert(rs[k as int] == strs_of(records@[k as int]@));
            assert(rows_of(rows@) == rows_of(prev).push(strs_of(r@)));
            assert(Seq::new((k + 1 - start) as nat, |i: int| resized(src[i], cols as nat)) == Seq::new(
                (k - start) as nat,
                |i: int| resized(src[i], cols as nat),
            ).push(resized(src[k - start], cols as nat)));
        }
        k += 1;
    }
    CsvData { headers, rows, delimiter, has_headers }
}

// ---------------------------------------------------------------------------
// Writing
// ---------------------------------------------------------------------------

/// Whether a field must be quoted: it holds the delimiter, a quote, or a
/// line break.
pub open spec fn needs_quotes(f: Seq<char>, d: char) -> bool {
    exists|i: int|
        0 <= i < f.len() && (#[trigger] f[i] == d || f[i] == '"' || f[i] == '\n' || f[i] == '\r')
}

/// Every quote doubled.
pub open spec fn double_quotes(f: Seq<char>) -> Seq<char>
    decreases f.len(),
{
    if f.len() == 0 {
        seq![]
    } else if f.last() == '"' {
        double_quotes(f.drop_last()) + seq!['"', '"']
    } else {
        double_quotes(f.drop_last()).push(f.last())
    }
}

/// A field as written: quoted, with quotes doubled, where it must be.
pub open spec fn escaped_field(f: Seq<char>, d: char) -> Seq<char> {
    if needs_quotes(f, d) {
        seq!['"'] + double_quotes(f) + seq!['"']
    } else {
        f
    }
}

/// A record as written: its fields escaped and joined by the delimiter,
/// then a newline.
pub open spec fn record_line(r: Seq<Seq<char>>, d: char) -> Seq<char> {
    join(Seq::new(r.len(), |i: int| escaped_field(r[i], d)), seq![d]).push('\n')
}

/// The lines of the given records, in order.
pub open spec fn record_lines(rs: Seq<Seq<Seq<char>>>, d: char) -> Seq<char>
    decreases rs.len(),
{
    if rs.len() == 0 {
        seq![]
    } else {
        record_lines(rs.drop_last(), d) + record_line(rs.last(), d)
    }
}

fn escape_field(field: &str, delimiter: char) -> (res: Vec<char>)
    ensures
        res@ == escaped_field(field@, delimiter),
{
    let f = str_chars(field);
    let mut needs = false;
    let mut i: usize = 0;
    while i < f.len()
        invariant
            i <= f@.len(),
            f@ == field@,
            needs == exists|k: int|
                0 <= k < i && (#[trigger] f@[k] == delimiter || f@[k] == '"' || f@[k] == '\n'
                    || f@[k] == '\r'),
        decreases f.len() - i,
    {
        let c = f[i];
        if c == delimiter || c == '"' || c == '\n' || c == '\r' {
            needs = true;
        }
        i += 1;
    }
    if !needs {
        return f;
    }
    let mut out: Vec<char> = Vec::new();
    out.push('"');
    let mut j: usize = 0;
    while j < f.len()
        invariant
            j <= f@.len(),
            out@ == seq!['"'] + double_quotes(f@.take(j as int)),
        decreases f.len() - j,
    {
        proof {
            assert(f@.take(j as int + 1).drop_last() == f@.take(j as int));
        }
        if f[j] == '"' {
            out.push('"');
            out.push('"');
        } else {
            out.push(f[j]);
        }
        j += 1;
    }
    proof {
        assert(f@.take(f@.len() as int) == f@);
    }
    out.push('"');
    out
}

/// Appends the line of one record.
fn push_record(out: &mut Vec<char>, r: &Vec<String>, d: char)
    ensures
        final(out)@ == old(out)@ + record_line(strs_of(r@), d),
{
    let ghost rv = strs_of(r@);
    let ghost f = |i: int| escaped_field(rv[i], d);
    let mut line: Vec<char> = Vec::new();
    let mut i: usize = 0;
    while i < r.len()
        invariant
            i <= r@.len(),
            rv == strs_of(r@),
            f == (|i: int| escaped_field(rv[i], d)),
            line@ == join(Seq::new(i as nat, f), seq![d]),
        decreases r.len() - i,
    {
        let e = escape_field(r[i].as_str(), d);
        proof {
            assert(rv[i as int] == r@[i as int]@);
            assert(Seq::new(i as nat + 1, f).drop_last() == Seq::new(i as nat, f));
            assert(Seq::new(i as nat + 1, f).last() == e@);
        }
        if i > 0 {
            line.push(d);
        }
        let mut k: usize = 0;
        let ghost before = line@;
        while k < e.len()
            invariant
                k <= e@.len(),
                line@ == before + e@.take(k as int),
            decreases e.len() - k,
        {
            line.push(e[k]);
            proof {
                assert(e@.take(k as int + 1) == e@.take(k as int).push(e@[k as int]));
            }
            k += 1;
        }
        proof {
            assert(e@.take(e@.len() as int) == e@);
            if i == 0 {
                assert(line@ == e@);
            }
        }
        i += 1;
    }
    line.push('\n');
    let mut k: usize = 0;
    let ghost start = out@;
    while k < line.len()
        invariant
            k <= line@.len(),
            out@ == start + line@.take(k as int),
        decreases line.len() - k,
    {
        out.push(line[k]);
        proof {
            assert(line@.take(k as int + 1) == line@.take(k as int).push(line@[k as int]));
        }
        k += 1;
    }
    proof {
        assert(line@.take(line@.len() as int) == line@);
    }
}

/// The text of a table: the header line when the table has headers, then
/// one line per row (see `record_line`).
pub open spec fn csv_text(headers: Seq<Seq<char>>, rows: Seq<Seq<Seq<char>>>, d: char, has_headers: bool) -> Seq<
    char,
> {
    (if has_headers {
        record_line(headers, d)
    } else {
        seq![]
    }) + record_lines(rows, d)
}

/// Writes a table as CSV text.
pub fn to_csv(data: &CsvData) -> (res: String)
    ensures
        res@ == csv_text(data.headers_view(), data.rows_view(), data.delimiter, data.has_headers),
{
    let mut out: Vec<char> = Vec::new();
    if data.has_headers {
        push_record(&mut out, &data.headers, data.delimiter);
    }
    let ghost head = out@;
    let mut i: usize = 0;
    while i < data.rows.len()
        invariant
            i <= data.rows@.len(),
            out@ == head + record_lines(data.rows_view().take(i as int), data.delimiter),
        decreases data.rows.len() - i,
    {
        push_record(&mut out, &data.rows[i], data.delimiter);
        proof {
            assert(data.rows_view().take(i as int + 1).drop_last() == data.rows_view().take(
                i as int,
            ));
            assert(data.rows_view()[i as int] == strs_of(data.rows@[i as int]@));
        }
        i += 1;
    }
    proof {
        assert(data.rows_view().take(data.rows@.len() as int) == data.rows_view());
    }
    string_from_chars(out.as_slice())
}

// ---------------------------------------------------------------------------
// Editing
// ---------------------------------------------------------------------------

/// Whether a row's field in column `col` holds `pattern`, ignoring case.
pub open spec fn row_matches(row: Seq<Seq<char>>, col: int, pattern: Seq<char>) -> bool {
    col < row.len() && contains(lowercase(row[col]), lowercase(pattern))
}

/// The rows whose field in column `col` holds `pattern`, ignoring case.
pub open spec fn matching_rows(rows: Seq<Seq<Seq<char>>>, col: int, pattern: Seq<char>) -> Seq<
    Seq<Seq<char>>,
>
    decreases rows.len(),
{
    if rows.len() == 0 {
        seq![]
    } else if row_matches(rows.last(), col, pattern) {
        matching_rows(rows.drop_last(), col, pattern).push(rows.last())
    } else {
        matching_rows(rows.drop_last(), col, pattern)
    }
}

/// A copy of the table with only the rows whose field in column `col`
/// holds `pattern`, ignoring case.
pub fn filter_rows(data: &CsvData, col: usize, pattern: &str) -> (res: CsvData)
    ensures
        res.headers_view() == data.headers_view(),
        res.rows_view() == matching_rows(data.rows_view(), col as int, pattern@),
        res.delimiter == data.delimiter,
        res.has_headers == data.has_headers,
{
    let pl = to_lowercase(pattern);
    let pc = str_chars(pl.as_str());
    let mut rows: Vec<Vec<String>> = Vec::new();
    let mut i: usize = 0;
    while i < data.rows.len()
        invariant
            i <= data.rows@.len(),
            pc@ == lowercase(pattern@),
            rows_of(rows@) == matching_rows(data.rows_view().take(i as int), col as int, pattern@),
        decreases data.rows.len() - i,
    {
        proof {
            assert(data.rows_view().take(i as int + 1).drop_last() == data.rows_view().take(
                i as int,
            ));
            assert(data.rows_view()[i as int] == strs_of(data.rows@[i as int]@));
        }
        let row = &data.rows[i];
        let keep = if col < row.len() {
            let v = to_lowercase(row[col].as_str());
            let vc = str_chars(v.as_str());
            chars_contain(vc.as_slice(), pc.as_slice())
        } else {
            false
        };
        if keep {
            let copy = string_vec_from(row);
            let ghost prev = rows@;
            rows.push(copy);
            proof {
                assert(rows_of(rows@) == rows_of(prev).push(strs_of(row@)));
            }
        }
        i += 1;
    }
    proof {
        assert(data.rows_view().take(data.rows@.len() as int) == data.rows_view());
    }
    CsvData {
        headers: string_vec_from(&data.headers),
        rows,
        delimiter: data.delimiter,
        has_headers: data.has_headers,
    }
}

/// Appends a column named `name`, empty in every row.
pub fn add_column(data: &mut CsvData, name: &str)
    ensures
        final(data).headers_view() == old(data).headers_view().push(name@),
        final(data).rows_view() == Seq::new(
            old(data).rows_view().len(),
            |i: int| old(data).rows_view()[i].push(Seq::<char>::empty()),
        ),
        final(data).delimiter == old(data).delimiter,
        final(data).has_headers == old(data).has_headers,
{
    let ghost prev_h = data.headers@;
    data.headers.push(copy_str(name));
    proof {
        assert(strs_of(data.headers@) == strs_of(prev_h).push(name@));
    }
    let ghost old_rows = rows_of(data.rows@);
    let mut rows: Vec<Vec<String>> = Vec::new();
    let mut i: usize = 0;
    while i < data.rows.len()
        invariant
            i <= data.rows@.len(),
            old_rows == rows_of(data.rows@),
            rows_of(rows@) == Seq::new(i as nat, |k: int| old_rows[k].push(Seq::<char>::empty())),
        decreases data.rows.len() - i,
    {
        let mut r = string_vec_from(&data.rows[i]);
        let ghost before = r@;
        r.push(String::new());
        proof {
            assert(strs_of(r@) == strs_of(before).push(Seq::<char>::empty()));
            assert(old_rows[i as int] == strs_of(data.rows@[i as int]@));
        }
        let ghost prev = rows@;
        rows.push(r);
        proof {
            assert(rows_of(rows@) == rows_of(prev).push(strs_of(r@)));
            assert(Seq::new(i as nat + 1, |k: int| old_rows[k].push(Seq::<char>::empty()))
                == Seq::new(i as nat, |k: int| old_rows[k].push(Seq::<char>::empty())).push(
                old_rows[i as int].push(Seq::<char>::empty()),
            ));
        }
        i += 1;
    }
    data.rows = rows;
}

/// Removes column `col` from the headers and from every row that has it;
/// nothing happens when there is no such header.
pub fn remove_column(data: &mut CsvData, col: usize)
    ensures
        col >= old(data).headers_view().len() ==> final(data).headers_view() == old(
            data,
        ).headers_view() && final(data).rows_view() == old(data).rows_view(),
        col < old(data).headers_view().len() ==> final(data).headers_view() == old(
            data,
        ).headers_view().remove(col as int) && final(data).rows_view() == Seq::new(
            old(data).rows_view().len(),
            |i: int|
                if col < old(data).rows_view()[i].len() {
                    old(data).rows_view()[i].remove(col as int)
                } else {
                    old(data).rows_view()[i]
                },
        ),
        final(data).delimiter == old(data).delimiter,
        final(data).has_headers == old(data).has_headers,
{
    if col >= data.headers.len() {
        return;
    }
    let ghost prev_h = data.headers@;
    data.headers.remove(col);
    proof {
        assert(strs_of(data.headers@) == strs_of(prev_h).remove(col as int));
    }
    let ghost old_rows = rows_of(data.rows@);
    let ghost f = |i: int|
        if col < old_rows[i].len() {
            old_rows[i].remove(col as int)
        } else {
            old_rows[i]
        };
    let mut rows: Vec<Vec<String>> = Vec::new();
    let mut i: usize = 0;
    while i < data.rows.len()
        invariant
            i <= data.rows@.len(),
            old_rows == rows_of(data.rows@),
            f == (|i: int|
                if col < old_rows[i].len() {
                    old_rows[i].remove(col as int)
                } else {
                    old_rows[i]
                }),
            rows_of(rows@) == Seq::new(i as nat, f),
        decreases data.rows.len() - i,
    {
        let mut r = string_vec_from(&data.rows[i]);
        proof {
            assert(old_rows[i as int] == strs_of(data.rows@[i as int]@));
        }
        if col < r.len() {
            let ghost before = r@;
            r.remove(col);
            proof {
                assert(strs_of(r@) == strs_of(before).remove(col as int));
            }
        }
        let ghost prev = rows@;
        rows.push(r);
        proof {
            assert(rows_of(rows@) == rows_of(prev).push(strs_of(r@)));
            assert(Seq::new(i as nat + 1, f) == Seq::new(i as nat, f).push(f(i as int)));
        }
        i += 1;
    }
    data.rows = rows;
}

// ---------------------------------------------------------------------------
// Writing then parsing
// ---------------------------------------------------------------------------

/// The parser's state between records, with `rs` read.
pub open spec fn scan_at(rs: Seq<Seq<Seq<char>>>, rec: Seq<Seq<char>>, f: Seq<char>, q: bool) -> CsvScan {
    CsvScan { records: rs, record: rec, field: f, quoted: q }
}

/// A field written without quotes is read back char by char.
proof fn lemma_scan_plain(f: Seq<char>, rest: Seq<char>, d: char, rs: Seq<Seq<Seq<char>>>, rec: Seq<Seq<char>>, g: Seq<char>)
    requires
        !needs_quotes(f, d),
    ensures
        csv_scan(f + rest, d, scan_at(rs, rec, g, false)) == csv_scan(rest, d, scan_at(rs, rec, g + f, false)),
    decreases f.len(),
{
    if f.len() == 0 {
        assert(f + rest =~= rest);
        assert(g + f =~= g);
    } else {
        let init = f.drop_last();
        let c = f.last();
        assert(!(c == d || c == '"' || c == '\n' || c == '\r')) by {
            if c == d || c == '"' || c == '\n' || c == '\r' {
                assert(f[f.len() - 1] == c);
            }
        }
        assert(!needs_quotes(init, d)) by {
            if needs_quotes(init, d) {
                let i = choose|i: int| 0 <= i < init.len() && (#[trigger] init[i] == d || init[i] == '"' || init[i] == '\n' || init[i] == '\r');
                assert(f[i] == init[i]);
            }
        }
        let r2 = seq![c] + rest;
        lemma_scan_plain(init, r2, d, rs, rec, g);
        assert(f + rest =~= init + r2);
        assert(r2[0] == c);
        assert(r2.skip(1) =~= rest);
        assert((g + init).push(c) =~= g + f);
    }
}

/// Inside quotes, a text with its quotes doubled is read back char by char.
proof fn lemma_scan_doubled(f: Seq<char>, rest: Seq<char>, d: char, rs: Seq<Seq<Seq<char>>>, rec: Seq<Seq<char>>, g: Seq<char>)
    ensures
        csv_scan(double_quotes(f) + rest, d, scan_at(rs, rec, g, true)) == csv_scan(rest, d, scan_at(rs, rec, g + f, true)),
    decreases f.len(),
{
    if f.len() == 0 {
        assert(double_quotes(f) + rest =~= rest);
        assert(g + f =~= g);
    } else {
        let init = f.drop_last();
        let c = f.last();
        let piece = if c == '"' { seq!['"', '"'] } else { seq![c] };
        let r2 = piece + rest;
        lemma_scan_doubled(init, r2, d, rs, rec, g);
        assert(double_quotes(f) + rest =~= double_quotes(init) + r2);
        assert(r2.skip(piece.len() as int) =~= rest);
        assert((g + init).push(c) =~= g + f);
    }
}

/// A field as written, followed by the delimiter or a line end, is read
/// back as the current field.
proof fn lemma_scan_field(f: Seq<char>, rest: Seq<char>, d: char, rs: Seq<Seq<Seq<char>>>, rec: Seq<Seq<char>>)
    requires
        d != '"',
        rest.len() > 0,
        rest[0] == d || rest[0] == '\n',
    ensures
        csv_scan(escaped_field(f, d) + rest, d, scan_at(rs, rec, seq![], false)) == csv_scan(rest, d, scan_at(rs, rec, f, false)),
{
    if needs_quotes(f, d) {
        let body = double_quotes(f) + (seq!['"'] + rest);
        assert(escaped_field(f, d) + rest =~= seq!['"'] + body);
        assert((seq!['"'] + body).skip(1) =~= body);
        lemma_scan_doubled(f, seq!['"'] + rest, d, rs, rec, seq![]);
        assert(body =~= double_quotes(f) + (seq!['"'] + rest));
        let tail = seq!['"'] + rest;
        assert(tail[1] == rest[0]);
        assert(tail.skip(1) =~= rest);
        assert(Seq::<char>::empty() + f =~= f);
    } else {
        lemma_scan_plain(f, rest, d, rs, rec, seq![]);
        assert(Seq::<char>::empty() + f =~= f);
    }
}

/// The fields as written.
pub open spec fn escaped_fields(fs: Seq<Seq<char>>, d: char) -> Seq<Seq<char>> {
    Seq::new(fs.len(), |i: int| escaped_field(fs[i], d))
}

/// Fields as written and joined by the delimiter, followed by the
/// delimiter or a line end, are read back: all but the last complete the
/// record so far, the last is the current field.
proof fn lemma_scan_join(fs: Seq<Seq<char>>, rest: Seq<char>, d: char, rs: Seq<Seq<Seq<char>>>, rec: Seq<Seq<char>>)
    requires
        d != '"',
        fs.len() >= 1,
        rest.len() > 0,
        rest[0] == d || rest[0] == '\n',
    ensures
        csv_scan(join(escaped_fields(fs, d), seq![d]) + rest, d, scan_at(rs, rec, seq![], false))
            == csv_scan(rest, d, scan_at(rs, rec + fs.drop_last(), fs.last(), false)),
    decreases fs.len(),
{
    let es = escaped_fields(fs, d);
    if fs.len() == 1 {
        assert(join(es, seq![d]) == es[0]);
        lemma_scan_field(fs[0], rest, d, rs, rec);
        assert(rec + fs.drop_last() =~= rec);
    } else {
        let init = fs.drop_last();
        let last = fs.last();
        assert(es.drop_last() =~= escaped_fields(init, d));
        let r2 = seq![d] + (escaped_field(last, d) + rest);
        assert(join(es, seq![d]) + rest =~= join(escaped_fields(init, d), seq![d]) + r2);
        lemma_scan_join(init, r2, d, rs, rec);
        let r3 = escaped_field(last, d) + rest;
        assert(r2[0] == d);
        assert(r2.skip(1) =~= r3);
        lemma_scan_field(last, rest, d, rs, (rec + init.drop_last()).push(init.last()));
        assert((rec + init.drop_last()).push(init.last()) =~= rec + fs.drop_last());
    }
}

/// A record as written is read back as one record.
proof fn lemma_scan_record(r: Seq<Seq<char>>, rest: Seq<char>, d: char, rs: Seq<Seq<Seq<char>>>)
    requires
        d != '"' && d != '\n' && d != '\r',
        r.len() >= 1,
    ensures
        csv_scan(record_line(r, d) + rest, d, scan_at(rs, seq![], seq![], false)) == csv_scan(rest, d, scan_at(rs.push(r), seq![], seq![], false)),
{
    let r2 = seq!['\n'] + rest;
    assert(record_line(r, d) + rest =~= join(escaped_fields(r, d), seq![d]) + r2);
    lemma_scan_join(r, r2, d, rs, seq![]);
    assert(r2[0] == '\n');
    assert(r2.skip(1) =~= rest);
    assert((Seq::<Seq<char>>::empty() + r.drop_last()).push(r.last()) =~= r);
}

/// Records as written are read back as those records.
proof fn lemma_scan_records(rows: Seq<Seq<Seq<char>>>, rest: Seq<char>, d: char, rs: Seq<Seq<Seq<char>>>)
    requires
        d != '"' && d != '\n' && d != '\r',
        forall|i: int| 0 <= i < rows.len() ==> (#[trigger] rows[i]).len() >= 1,
    ensures
        csv_scan(record_lines(rows, d) + rest, d, scan_at(rs, seq![], seq![], false)) == csv_scan(rest, d, scan_at(rs + rows, seq![], seq![], false)),
    decreases rows.len(),
{
    if rows.len() == 0 {
        assert(record_lines(rows, d) + rest =~= rest);
        assert(rs + rows =~= rs);
    } else {
        let init = rows.drop_last();
        let r2 = record_line(rows.last(), d) + rest;
        assert(record_lines(rows, d) + rest =~= record_lines(init, d) + r2);
        lemma_scan_records(init, r2, d, rs);
        assert(rows.last() == rows[rows.len() - 1]);
        lemma_scan_record(rows.last(), rest, d, rs + init);
        assert((rs + init).push(rows.last()) =~= rs + rows);
    }
}

/// Writing a table with headers as CSV and parsing the text back with the
/// same delimiter gives back its headers and rows, fields holding the
/// delimiter, quotes or line breaks included, where the delimiter is not a
/// quote or a line break and every row has as many fields as the headers,
/// of which there is at least one.
pub proof fn law_csv_round_trip(headers: Seq<Seq<char>>, rows: Seq<Seq<Seq<char>>>, d: char)
    requires
        d != '"' && d != '\n' && d != '\r',
        headers.len() >= 1,
        forall|i: int| 0 <= i < rows.len() ==> (#[trigger] rows[i]).len() == headers.len(),
    ensures
        parsed(csv_text(headers, rows, d, true), d, true) == (headers, rows),
{
    let text = csv_text(headers, rows, d, true);
    let empty = Seq::<char>::empty();
    lemma_scan_records(rows, empty, d, seq![headers]);
    lemma_scan_record(headers, record_lines(rows, d), d, seq![]);
    assert(record_lines(rows, d) + empty =~= record_lines(rows, d));
    assert(text =~= record_line(headers, d) + record_lines(rows, d));
    assert(csv_scan(empty, d, scan_at(seq![headers] + rows, seq![], seq![], false)) == scan_at(seq![headers] + rows, seq![], seq![], false));
    assert(Seq::<Seq<Seq<char>>>::empty().push(headers) =~= seq![headers]);
    let rs = records_of(text, d);
    assert(rs == seq![headers] + rows);
    assert(rs.skip(1) =~= rows);
    let p = parsed(text, d, true);
    assert forall|i: int| 0 <= i < rows.len() implies resized(rows[i], headers.len()) == rows[i] by {
        assert(rows[i].take(headers.len() as int) =~= rows[i]);
    }
    assert(p.1 =~= rows);
}

} // verus!
