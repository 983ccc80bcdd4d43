//! Parser for a station's standard meteorological text feed.
//!
//! The feed is plain text: comment lines open with `#`; the first comment
//! line whose tokens begin `YY MM DD ...` (at least five of them, the first
//! ending in `YY`) is the column header, optionally followed by a units
//! comment line; then one whitespace-delimited data row per line, ended by
//! the end of the text or the next comment line.
//!
//! Each accepted row decodes, by fixed position, the first five tokens into
//! a UTC timestamp in milliseconds since the epoch, and, by header-declared
//! position, each recognized field into either an absent reading or the raw
//! numeric token.  A present value keeps its decimal text; turning it into a
//! binary floating-point number is left to the caller, so this library never
//! loses or fabricates a reading.  Undecodable rows are skipped, never
//! defaulted: a row is dropped when it has fewer than five tokens, when a
//! time token is not a plain numeral, or when the date or time it names does
//! not exist in the calendar.

use vstd::prelude::*;
use vstd::slice::slice_to_vec;
use vstd::string::StringSliceAdditionalSpecFns;

use crate::schema::{field_name, field_name_bytes, FIELD_COUNT};
use crate::text::{
    bytes_eq, ends_with, ends_with_spec, is_decimal, is_decimal_spec, lines_spec, parse_u32,
    parse_u32_spec, split_lines, split_tokens, tokens_spec, trim, trim_spec, trim_start,
    trim_start_spec, views_of,
};
use crate::timecode::{
    epoch_millis, month_days, utc_epoch_millis, valid_date, valid_hm,
};

verus! {

/// Mathematical model of one decoded observation row.
pub ghost struct RowModel {
    /// UTC milliseconds since the epoch.
    pub time_ms: int,
    /// One entry per recognized field, in canonical order: the raw numeric
    /// token, or `None` for a missing reading.
    pub values: Seq<Option<Seq<u8>>>,
}

/// Mathematical model of a parsed table.
pub ghost struct TableModel {
    /// Whether a header line was found at all.
    pub header_found: bool,
    /// The accepted rows, in feed order.
    pub rows: Seq<RowModel>,
}

/// One decoded observation row: a timestamp and one value per recognized
/// field, in canonical order.  A present value is the field's raw numeric
/// token from the feed.
#[derive(Debug, PartialEq, Eq)]
pub struct ObservationRow {
    /// UTC milliseconds since the epoch, seconds always zero.
    pub time_ms: i64,
    /// One entry per recognized field, in canonical order.
    pub values: Vec<Option<Vec<u8>>>,
}

/// A parsed feed: the accepted rows, and whether a header was found.
/// A feed without a header yields `header_found == false` and no rows,
/// a condition distinct from any error.
#[derive(Debug, PartialEq, Eq)]
pub struct StdMetTable {
    /// Whether a header line was found.
    pub header_found: bool,
    /// The accepted rows, in feed order.
    pub rows: Vec<ObservationRow>,
}

/// The views of a sequence of optional byte vectors.
pub open spec fn opt_views_of(v: Seq<Option<Vec<u8>>>) -> Seq<Option<Seq<u8>>> {
    v.map_values(
        |o: Option<Vec<u8>>|
            match o {
                Some(b) => Some(b@),
                None => None,
            },
    )
}

impl View for ObservationRow {
    type V = RowModel;

    open spec fn view(&self) -> RowModel {
        RowModel { time_ms: self.time_ms as int, values: opt_views_of(self.values@) }
    }
}

/// The models of a sequence of rows.
pub open spec fn rows_views(v: Seq<ObservationRow>) -> Seq<RowModel> {
    v.map_values(|r: ObservationRow| r@)
}

impl View for StdMetTable {
    type V = TableModel;

    open spec fn view(&self) -> TableModel {
        TableModel { header_found: self.header_found, rows: rows_views(self.rows@) }
    }
}

/// A line whose first non-blank byte is `#`.
pub open spec fn is_comment_line(line: Seq<u8>) -> bool {
    let t = trim_start_spec(line);
    t.len() > 0 && t[0] == 35
}

/// `s` with every leading `#` removed.
pub open spec fn strip_hashes(s: Seq<u8>) -> Seq<u8>
    decreases s.len(),
{
    if s.len() > 0 && s[0] == 35 {
        strip_hashes(s.drop_first())
    } else {
        s
    }
}

/// The column tokens a comment line declares: its tokens after the comment
/// marker is removed.
pub open spec fn header_tokens_of(line: Seq<u8>) -> Seq<Seq<u8>> {
    tokens_spec(strip_hashes(trim_start_spec(line)))
}

/// A comment line is the column header when it declares at least five
/// columns and the first three are the year (a token ending in `YY`), the
/// month `MM` and the day `DD`.
pub open spec fn is_header_line(line: Seq<u8>) -> bool {
    is_comment_line(line) && {
        let toks = header_tokens_of(line);
        toks.len() >= 5 && ends_with_spec(toks[0], "YY".spec_bytes()) && toks[1]
            == "MM".spec_bytes() && toks[2] == "DD".spec_bytes()
    }
}

/// Index of the first header line at or after `i`, if any.
pub open spec fn header_index_from(ls: Seq<Seq<u8>>, i: int) -> Option<int>
    decreases ls.len() - i,
{
    if i < 0 || i >= ls.len() {
        None
    } else if is_header_line(ls[i]) {
        Some(i)
    } else {
        header_index_from(ls, i + 1)
    }
}

/// The calendar year a year token's numeral denotes: values below 1000 are
/// years of this millennium, larger values are taken as written.
pub open spec fn year_of(n: int) -> int {
    if n >= 1000 {
        n
    } else {
        2000 + n
    }
}

/// The timestamp a row's first five tokens denote, when they are numerals
/// naming a calendar date and time that exist; `None` otherwise.
pub open spec fn row_time_spec(toks: Seq<Seq<u8>>) -> Option<int> {
    match (parse_u32_spec(toks[0]), parse_u32_spec(toks[1]), parse_u32_spec(toks[2]), parse_u32_spec(
        toks[3],
    ), parse_u32_spec(toks[4])) {
        (Some(y0), Some(m), Some(d), Some(h), Some(mi)) => {
            let y = year_of(y0 as int);
            if valid_date(y, m as int, d as int) && valid_hm(h as int, mi as int) {
                Some(epoch_millis(y, m as int, d as int, h as int, mi as int))
            } else {
                None
            }
        },
        _ => None,
    }
}

/// The header position of a recognized field: the last header token equal to
/// its name, as in the source network's feeds, where names are unique.
pub open spec fn find_col_spec(header: Seq<Seq<u8>>, name: Seq<u8>) -> Option<int> {
    header.index_of_last(name)
}

/// The value of recognized field `f` in a row: absent when the header does
/// not declare the field, when the row is too short, when the token is the
/// missing-value sentinel `MM` (or `NaN`), or when it is not a numeric
/// token; otherwise the raw numeric token itself.
pub open spec fn value_spec(toks: Seq<Seq<u8>>, header: Seq<Seq<u8>>, f: int) -> Option<Seq<u8>> {
    match find_col_spec(header, field_name(f)) {
        None => None,
        Some(ci) => {
            if ci >= toks.len() {
                None
            } else {
                let tok = toks[ci];
                if tok == "MM".spec_bytes() || tok == "NaN".spec_bytes() || !is_decimal_spec(tok) {
                    None
                } else {
                    Some(tok)
                }
            }
        },
    }
}

/// All recognized field values of a row, in canonical order.
pub open spec fn row_values_spec(toks: Seq<Seq<u8>>, header: Seq<Seq<u8>>) -> Seq<
    Option<Seq<u8>>,
> {
    Seq::new(FIELD_COUNT as nat, |f: int| value_spec(toks, header, f))
}

/// The row a data line decodes to, or `None` when the line is skipped: a
/// row needs at least five tokens and a decodable timestamp.
pub open spec fn row_spec(line: Seq<u8>, header: Seq<Seq<u8>>) -> Option<RowModel> {
    let toks = tokens_spec(trim_spec(line));
    if toks.len() < 5 {
        None
    } else {
        match row_time_spec(toks) {
            None => None,
            Some(t) => Some(RowModel { time_ms: t, values: row_values_spec(toks, header) }),
        }
    }
}

/// The rows decoded from the lines at and after `i`: blank lines are
/// skipped, a comment line ends the data block, undecodable lines are
/// skipped, and each decoded row is kept in feed order.
pub open spec fn rows_from(ls: Seq<Seq<u8>>, i: int, header: Seq<Seq<u8>>) -> Seq<RowModel>
    decreases ls.len() - i,
{
    if i < 0 || i >= ls.len() {
        Seq::empty()
    } else {
        let t = trim_spec(ls[i]);
        if t.len() == 0 {
            rows_from(ls, i + 1, header)
        } else if t[0] == 35 {
            Seq::empty()
        } else {
            match row_spec(ls[i], header) {
                Some(r) => seq![r] + rows_from(ls, i + 1, header),
                None => rows_from(ls, i + 1, header),
            }
        }
    }
}

/// Where the data rows begin: directly after the header line, or one line
/// later when a units comment line follows the header.
pub open spec fn data_start(ls: Seq<Seq<u8>>, h: int) -> int {
    if h + 1 < ls.len() && is_comment_line(ls[h + 1]) {
        h + 2
    } else {
        h + 1
    }
}

/// The table a feed text parses to.
pub open spec fn table_spec(text: Seq<u8>) -> TableModel {
    let ls = lines_spec(text);
    match header_index_from(ls, 0) {
        None => TableModel { header_found: false, rows: Seq::empty() },
        Some(h) => TableModel {
            header_found: true,
            rows: rows_from(ls, data_start(ls, h), header_tokens_of(ls[h])),
        },
    }
}

proof fn lemma_opt_views_push(v: Seq<Option<Vec<u8>>>, x: Option<Vec<u8>>)
    ensures
        opt_views_of(v.push(x)) == opt_views_of(v).push(
            match x {
                Some(b) => Some(b@),
                None => None,
            },
        ),
{
    assert(opt_views_of(v.push(x)) =~= opt_views_of(v).push(
        match x {
            Some(b) => Some(b@),
            None => None,
        },
    ));
}

proof fn lemma_rows_views_push(v: Seq<ObservationRow>, x: ObservationRow)
    ensures
        rows_views(v.push(x)) == rows_views(v).push(x@),
{
    assert(rows_views(v.push(x)) =~= rows_views(v).push(x@));
}

/// Executable test for a comment line.
pub fn is_comment(line: &[u8]) -> (r: bool)
    ensures
        r == is_comment_line(line@),
{
    let t = trim_start(line);
    t.len() > 0 && t[0] == 35
}

/// Executable removal of leading `#` bytes.
pub fn strip_hash_bytes(line: &[u8]) -> (r: &[u8])
    ensures
        r@ == strip_hashes(line@),
{
    proof {
        assert(line@.subrange(0, line@.len() as int) =~= line@);
    }
    let mut i: usize = 0;
    while i < line.len() && line[i] == 35
        invariant
            0 <= i <= line@.len(),
            strip_hashes(line@) == strip_hashes(line@.subrange(i as int, line@.len() as int)),
        decreases line@.len() - i,
    {
        proof {
            assert(line@.subrange(i as int, line@.len() as int).drop_first() =~= line@.subrange(
                i + 1,
                line@.len() as int,
            ));
        }
        i += 1;
    }
    vstd::slice::slice_subrange(line, i, line.len())
}

/// Executable test for the header line.
pub fn is_header(line: &[u8]) -> (r: bool)
    ensures
        r == is_header_line(line@),
{
    let t = trim_start(line);
    if t.len() == 0 || t[0] != 35 {
        return false;
    }
    let stripped = strip_hash_bytes(t);
    let toks = split_tokens(stripped);
    if toks.len() < 5 {
        proof {
            assert(views_of(toks@).len() == toks@.len());
        }
        return false;
    }
    proof {
        assert(views_of(toks@)[0] == toks@[0]@);
        assert(views_of(toks@)[1] == toks@[1]@);
        assert(views_of(toks@)[2] == toks@[2]@);
    }
    ends_with(toks[0].as_slice(), "YY".as_bytes()) && bytes_eq(toks[1].as_slice(), "MM".as_bytes())
        && bytes_eq(toks[2].as_slice(), "DD".as_bytes())
}

/// Executable header lookup of a field name.
pub fn find_col(header: &Vec<Vec<u8>>, name: &[u8]) -> (r: Option<usize>)
    ensures
        match r {
            Some(j) => find_col_spec(views_of(header@), name@) == Some(j as int),
            None => find_col_spec(views_of(header@), name@) is None,
        },
{
    let mut j: usize = header.len();
    while j > 0
        invariant
            0 <= j <= header@.len(),
            forall|k: int| j <= k < header@.len() ==> views_of(header@)[k] != name@,
        decreases j,
    {
        j -= 1;
        proof {
            assert(views_of(header@)[j as int] == header@[j as int]@);
        }
        if bytes_eq(header[j].as_slice(), name) {
            proof {
                let hv = views_of(header@);
                hv.index_of_last_ensures(name@);
            }
            return Some(j);
        }
    }
    proof {
        let hv = views_of(header@);
        hv.index_of_last_ensures(name@);
    }
    None
}

/// The model of an optional millisecond timestamp.
pub open spec fn opt_int_of(r: Option<i64>) -> Option<int> {
    match r {
        Some(t) => Some(t as int),
        None => None,
    }
}

/// Executable decoding of a year token's numeral (how the feed's two- or
/// four-digit years become calendar years).
pub fn decode_year(n: u32) -> (r: u32)
    ensures
        r as int == year_of(n as int),
{
    if n >= 1000 {
        n
    } else {
        2000 + n
    }
}

/// For all valid two-digit (indeed, up to three-digit) year numerals the
/// decoded calendar year is 2000 + the numeral; four-digit years are used
/// unchanged.
pub proof fn lemma_year_decoding(n: int)
    ensures
        0 <= n < 1000 ==> year_of(n) == 2000 + n,
        n >= 1000 ==> year_of(n) == n,
{
}

/// Executable decoding of a row's timestamp from its first five tokens.
pub fn decode_row_time(toks: &Vec<Vec<u8>>) -> (r: Option<i64>)
    requires
        toks@.len() >= 5,
    ensures
        opt_int_of(r) == row_time_spec(views_of(toks@)),
{
    proof {
        assert(views_of(toks@)[0] == toks@[0]@);
        assert(views_of(toks@)[1] == toks@[1]@);
        assert(views_of(toks@)[2] == toks@[2]@);
        assert(views_of(toks@)[3] == toks@[3]@);
        assert(views_of(toks@)[4] == toks@[4]@);
    }
    let y0 = match parse_u32(toks[0].as_slice()) {
        Some(v) => v,
        None => {
            return None;
        },
    };
    let m = match parse_u32(toks[1].as_slice()) {
        Some(v) => v,
        None => {
            return None;
        },
    };
    let d = match parse_u32(toks[2].as_slice()) {
        Some(v) => v,
        None => {
            return None;
        },
    };
    let h = match parse_u32(toks[3].as_slice()) {
        Some(v) => v,
        None => {
            return None;
        },
    };
    let mi = match parse_u32(toks[4].as_slice()) {
        Some(v) => v,
        None => {
            return None;
        },
    };
    let y = decode_year(y0);
    if y > 9999 || m < 1 || m > 12 || d < 1 || h > 23 || mi > 59 {
        return None;
    }
    if d > month_days(y, m) {
        return None;
    }
    Some(utc_epoch_millis(y, m, d, h, mi))
}

/// Parse a station's standard meteorological feed into a table.
///
/// The result is a pure function of the feed bytes: parsing the same text
/// twice yields the same table.
pub fn parse_std_met(text: &[u8]) -> (r: StdMetTable)
    ensures
        r@ == table_spec(text@),
{
    let ls: Vec<Vec<u8>> = split_lines(text);
    let mut i: usize = 0;
    let mut found: Option<usize> = None;
    while i < ls.len() && found.is_none()
        invariant
            0 <= i <= ls@.len(),
            views_of(ls@) == lines_spec(text@),
            match found {
                Some(h) => h < ls@.len() && header_index_from(lines_spec(text@), 0) == Some(
                    h as int,
                ),
                None => header_index_from(lines_spec(text@), 0) == header_index_from(
                    lines_spec(text@),
                    i as int,
                ),
            },
        decreases
                ls@.len() - i,
                (if found.is_none() {
                    1int
                } else {
                    0int
                }),
    {
        proof {
            assert(views_of(ls@)[i as int] == ls@[i as int]@);
        }
        if is_header(ls[i].as_slice()) {
            found = Some(i);
        } else {
            i += 1;
        }
    }
    let h: usize = match found {
        None => {
            let r = StdMetTable { header_found: false, rows: Vec::new() };
            proof {
                assert(rows_views(r.rows@) =~= Seq::<RowModel>::empty());
            }
            return r;
        },
        Some(h) => h,
    };
    // Header tokens.
    proof {
        assert(views_of(ls@)[h as int] == ls@[h as int]@);
    }
    let header: Vec<Vec<u8>> = split_tokens(strip_hash_bytes(trim_start(ls[h].as_slice())));
    // Skip the units line, when one follows.
    let start: usize = if h + 1 < ls.len() && is_comment(ls[h + 1].as_slice()) {
        proof {
            assert(views_of(ls@)[h + 1] == ls@[h + 1]@);
        }
        h + 2
    } else {
        proof {
            if h + 1 < ls.len() {
                assert(views_of(ls@)[h + 1] == ls@[h + 1]@);
            }
        }
        h + 1
    };
    let mut rows: Vec<ObservationRow> = Vec::new();
    let mut j: usize = start;
    let mut done: bool = false;
    proof {
        assert(rows_views(rows@) =~= Seq::<RowModel>::empty());
    }
    while j < ls.len() && !done
        invariant
            0 <= j <= ls@.len(),
            views_of(ls@) == lines_spec(text@),
            header_index_from(lines_spec(text@), 0) == Some(h as int),
            h < ls@.len(),
            views_of(header@) == header_tokens_of(lines_spec(text@)[h as int]),
            start as int == data_start(lines_spec(text@), h as int),
            start <= j || done,
            !done ==> rows_from(lines_spec(text@), start as int, views_of(header@)) == rows_views(
                rows@,
            ) + rows_from(lines_spec(text@), j as int, views_of(header@)),
            done ==> rows_from(lines_spec(text@), start as int, views_of(header@)) == rows_views(
                rows@,
            ),
        decreases
                ls@.len() - j,
                (if done {
                    0int
                } else {
                    1int
                }),
    {
        let ghost lsv = lines_spec(text@);
        let ghost hdr = views_of(header@);
        proof {
            assert(views_of(ls@)[j as int] == ls@[j as int]@);
        }
        let t = trim(ls[j].as_slice());
        if t.len() == 0 {
            j += 1;
            continue;
        }
        if t[0] == 35 {
            done = true;
            continue;
        }
        let toks = split_tokens(t);
        proof {
            assert(views_of(toks@).len() == toks@.len());
        }
        if toks.len() < 5 {
            j += 1;
            continue;
        }
        let tms = match decode_row_time(&toks) {
            Some(v) => v,
            None => {
                j += 1;
                continue;
            },
        };
        // Decode the recognized fields.
        let mut vals: Vec<Option<Vec<u8>>> = Vec::new();
        let mut f: usize = 0;
        proof {
            assert(opt_views_of(vals@) =~= Seq::<Option<Seq<u8>>>::empty());
        }
        while f < FIELD_COUNT
            invariant
                0 <= f <= FIELD_COUNT,
                vals@.len() == f,
                forall|k: int|
                    0 <= k < f ==> opt_views_of(vals@)[k] == value_spec(
                        views_of(toks@),
                        views_of(header@),
                        k,
                    ),
            decreases FIELD_COUNT - f,
        {
            let name = field_name_bytes(f);
            let mut v: Option<Vec<u8>> = None;
            match find_col(&header, name) {
                None => {},
                Some(ci) => {
                    if ci < toks.len() {
                        proof {
                            assert(views_of(toks@)[ci as int] == toks@[ci as int]@);
                        }
                        let tok = toks[ci].as_slice();
                        if !(bytes_eq(tok, "MM".as_bytes()) || bytes_eq(tok, "NaN".as_bytes()))
                            && is_decimal(tok) {
                            v = Some(slice_to_vec(tok));
                        }
                    }
                },
            }
            let ghost old_vals = vals@;
            let ghost vv = v;
            vals.push(v);
            proof {
                lemma_opt_views_push(old_vals, vv);
            }
            f += 1;
        }
        let row = ObservationRow { time_ms: tms, values: vals };
        proof {
            assert(row@.values =~= row_values_spec(views_of(toks@), hdr));
            assert(row_spec(lsv[j as int], hdr) == Some(row@));
        }
        let ghost old_rows = rows@;
        rows.push(row);
        proof {
            lemma_rows_views_push(old_rows, rows@.last());
            assert(rows_views(old_rows) + rows_from(lsv, j as int, hdr) == rows_views(old_rows) + (
            seq![row@] + rows_from(lsv, j + 1, hdr)));
            assert(rows_views(old_rows) + (seq![row@] + rows_from(lsv, j + 1, hdr)) =~= rows_views(
                old_rows,
            ).push(row@) + rows_from(lsv, j + 1, hdr));
        }
        j += 1;
    }
    let r = StdMetTable { header_found: true, rows };
    r
}

/// Law: a feed in which no line matches the header pattern parses to a table
/// with zero rows and the distinct "no header" condition — not an error.
pub proof fn lemma_no_header_no_rows(text: Seq<u8>)
    requires
        forall|i: int|
            0 <= i < lines_spec(text).len() ==> !is_header_line(lines_spec(text)[i]),
    ensures
        !table_spec(text).header_found,
        table_spec(text).rows.len() == 0,
{
    lemma_header_index_none(lines_spec(text), 0);
}

proof fn lemma_header_index_none(ls: Seq<Seq<u8>>, i: int)
    requires
        forall|k: int| 0 <= k < ls.len() ==> !is_header_line(ls[k]),
        i >= 0,
    ensures
        header_index_from(ls, i) is None,
    decreases ls.len() - i,
{
    if i < ls.len() {
        lemma_header_index_none(ls, i + 1);
    }
}

/// Law: parsing is deterministic — any two tables that satisfy the parser's
/// contract on the same feed text are equal, so parsing the same text twice
/// yields identical tables.
pub proof fn lemma_parse_deterministic(text: Seq<u8>, a: TableModel, b: TableModel)
    requires
        a == table_spec(text),
        b == table_spec(text),
    ensures
        a == b,
{
}

/// Law: a field token equal to the missing-value sentinel (`MM`, or the
/// `NaN` variant) decodes to an absent value — never to a number.
pub proof fn lemma_sentinel_value_absent(toks: Seq<Seq<u8>>, header: Seq<Seq<u8>>, f: int)
    requires
        0 <= f < FIELD_COUNT as int,
        match find_col_spec(header, field_name(f)) {
            Some(ci) => 0 <= ci < toks.len() && (toks[ci] == "MM".spec_bytes() || toks[ci]
                == "NaN".spec_bytes()),
            None => false,
        },
    ensures
        value_spec(toks, header, f) is None,
{
}

/// Law: a row accepted by the parser carries an absent value for a field
/// whose token is the missing-value sentinel.
pub proof fn lemma_sentinel_absent_in_row(
    line: Seq<u8>,
    header: Seq<Seq<u8>>,
    f: int,
    r: RowModel,
)
    requires
        0 <= f < FIELD_COUNT as int,
        row_spec(line, header) == Some(r),
        match find_col_spec(header, field_name(f)) {
            Some(ci) => 0 <= ci < tokens_spec(trim_spec(line)).len() && (tokens_spec(
                trim_spec(line),
            )[ci] == "MM".spec_bytes() || tokens_spec(trim_spec(line))[ci] == "NaN".spec_bytes()),
            None => false,
        },
    ensures
        r.values[f] is None,
{
}

/// Law: when the header does not declare a recognized field, every decoded
/// row still has the field's column — in the canonical schema — and its
/// value is absent in every row.
pub proof fn lemma_missing_field_all_absent(
    ls: Seq<Seq<u8>>,
    start: int,
    header: Seq<Seq<u8>>,
    f: int,
    i: int,
)
    requires
        0 <= f < FIELD_COUNT as int,
        !header.contains(field_name(f)),
        0 <= i < rows_from(ls, start, header).len(),
    ensures
        rows_from(ls, start, header)[i].values.len() == FIELD_COUNT as int,
        rows_from(ls, start, header)[i].values[f] is None,
    decreases ls.len() - start,
{
    header.index_of_last_ensures(field_name(f));
    if 0 <= start < ls.len() {
        let t = trim_spec(ls[start]);
        if t.len() == 0 {
            lemma_missing_field_all_absent(ls, start + 1, header, f, i);
        } else if t[0] == 35 {
        } else {
            match row_spec(ls[start], header) {
                Some(r) => {
                    if i > 0 {
                        lemma_missing_field_all_absent(ls, start + 1, header, f, i - 1);
                    }
                },
                None => {
                    lemma_missing_field_all_absent(ls, start + 1, header, f, i);
                },
            }
        }
    }
}

/// Law: the same, stated on a whole feed — when the found header omits a
/// recognized field's name, the parsed table still has the field's column,
/// holding an absent value in every row.
pub proof fn lemma_missing_field_in_table(text: Seq<u8>, h: int, f: int, i: int)
    requires
        0 <= f < FIELD_COUNT as int,
        header_index_from(lines_spec(text), 0) == Some(h),
        !header_tokens_of(lines_spec(text)[h]).contains(field_name(f)),
        0 <= i < table_spec(text).rows.len(),
    ensures
        table_spec(text).rows[i].values.len() == FIELD_COUNT as int,
        table_spec(text).rows[i].values[f] is None,
{
    let ls = lines_spec(text);
    lemma_missing_field_all_absent(ls, data_start(ls, h), header_tokens_of(ls[h]), f, i);
}

proof fn lemma_rows_from_congruent(
    ls1: Seq<Seq<u8>>,
    i1: int,
    ls2: Seq<Seq<u8>>,
    i2: int,
    header: Seq<Seq<u8>>,
)
    requires
        i1 >= 0,
        i2 >= 0,
        ls1.len() - i1 == ls2.len() - i2,
        forall|k: int| 0 <= k < ls1.len() - i1 ==> ls1[i1 + k] == #[trigger] ls2[i2 + k],
    ensures
        rows_from(ls1, i1, header) == rows_from(ls2, i2, header),
    decreases ls1.len() - i1,
{
    if i1 < ls1.len() {
        assert(ls1[i1 + 0] == ls2[i2 + 0]);
        assert forall|k: int| 0 <= k < ls1.len() - (i1 + 1) implies ls1[(i1 + 1) + k]
            == #[trigger] ls2[(i2 + 1) + k] by {
            assert(ls1[i1 + (k + 1)] == ls2[i2 + (k + 1)]);
        }
        lemma_rows_from_congruent(ls1, i1 + 1, ls2, i2 + 1, header);
    }
}

/// Law: a data line with fewer than five tokens is skipped and contributes
/// no row, while the rows of every other line are kept: removing such a
/// line from the feed leaves the decoded rows unchanged.
pub proof fn lemma_short_row_skipped(ls: Seq<Seq<u8>>, start: int, header: Seq<Seq<u8>>, i: int)
    requires
        0 <= start <= i < ls.len(),
        trim_spec(ls[i]).len() > 0,
        trim_spec(ls[i])[0] != 35,
        tokens_spec(trim_spec(ls[i])).len() < 5,
    ensures
        rows_from(ls, start, header) == rows_from(ls.remove(i), start, header),
    decreases i - start,
{
    if start == i {
        assert(rows_from(ls, start, header) == rows_from(ls, start + 1, header));
        lemma_rows_from_congruent(ls, start + 1, ls.remove(i), start, header);
    } else {
        let t = trim_spec(ls[start]);
        assert(ls.remove(i)[start] == ls[start]);
        lemma_short_row_skipped(ls, start + 1, header, i);
        if t.len() == 0 {
        } else if t[0] == 35 {
        } else {
            match row_spec(ls[start], header) {
                Some(r) => {},
                None => {},
            }
        }
    }
}

} // verus!
