//! Comma-separated tables as the analysis programs read and write them: plain
//! splitting at commas (no quoting on input), header lookup, keyed row search,
//! records with map semantics, and the check-table lines.
use vstd::prelude::*;
use crate::numbers::{decimal, decimal_reads_back, parse_usize, parse_usize_spec};
use crate::text::{chars_blank, is_blank, line_chars, lines_of, split_chars, split_on, str_equal, string_from, to_chars, views};

verus! {

/// Why a table text could not be read.
#[derive(Debug, PartialEq, Eq)]
pub enum CsvError {
    /// The text has no header line.
    MissingHeader,
    /// A required column does not occur in the header.
    MissingColumn(String),
    /// A data line has another number of fields than the header.
    WidthMismatch { line: usize, expected: usize, found: usize },
}

/// A table read line by line: the header's fields and each later line's fields.
pub struct CsvTable {
    pub header: Vec<String>,
    pub rows: Vec<Vec<String>>,
}

impl CsvTable {
    /// The rows as sequences of field views.
    pub open spec fn row_views(&self) -> Seq<Seq<Seq<char>>> {
        self.rows@.map_values(|r: Vec<String>| views(r@))
    }

    /// Reads a table: the first line is the header, every later line a row,
    /// each split at every comma. A text without lines has no header.
    pub fn read(text: &str) -> (r: Result<CsvTable, CsvError>)
        ensures
            match r {
                Ok(t) => {
                    &&& lines_of(text@).len() > 0
                    &&& views(t.header@) == split_on(lines_of(text@)[0], ',')
                    &&& t.row_views() == lines_of(text@).skip(1).map_values(
                        |l: Seq<char>| split_on(l, ','),
                    )
                },
                Err(e) => lines_of(text@).len() == 0 && e == CsvError::MissingHeader,
            },
    {
        let chars = to_chars(text);
        let lines = line_chars(&chars);
        let ghost lv = lines@.map_values(|l: Vec<char>| l@);
        if lines.len() == 0 {
            return Err(CsvError::MissingHeader);
        }
        let header = split_line(&lines[0]);
        let mut rows: Vec<Vec<String>> = Vec::new();
        let mut i: usize = 1;
        while i < lines.len()
            invariant
                1 <= i <= lines.len(),
                lv == lines@.map_values(|l: Vec<char>| l@),
                rows@.len() == i - 1,
                forall|j: int|
                    0 <= j < i - 1 ==> views(#[trigger] rows@[j]@) == split_on(lv[j + 1], ','),
            decreases lines.len() - i,
        {
            rows.push(split_line(&lines[i]));
            i += 1;
        }
        let t = CsvTable { header, rows };
        proof {
            assert(t.row_views() =~= lv.skip(1).map_values(|l: Seq<char>| split_on(l, ',')));
        }
        Ok(t)
    }

    /// The position of the first header field equal to `name`; a name that
    /// does not occur is left out.
    pub fn col(&self, name: &str) -> (i: usize)
        requires
            exists|k: int| 0 <= k < self.header@.len() && #[trigger] self.header@[k]@ == name@,
        ensures
            i < self.header@.len(),
            self.header@[i as int]@ == name@,
            forall|k: int| 0 <= k < i ==> #[trigger] self.header@[k]@ != name@,
    {
        let mut i: usize = 0;
        while i < self.header.len()
            invariant
                i <= self.header@.len(),
                forall|k: int| 0 <= k < i ==> #[trigger] self.header@[k]@ != name@,
                exists|k: int| 0 <= k < self.header@.len() && #[trigger] self.header@[k]@ == name@,
            decreases self.header.len() - i,
        {
            if str_equal(self.header[i].as_str(), name) {
                return i;
            }
            i += 1;
        }
        i
    }

    /// The first row whose fields at `columns` equal `values`, comparing the
    /// keys in order and stopping at the first that differs. Rows up to the
    /// match must be long enough for the keys that get compared.
    pub fn find_row(&self, columns: &Vec<usize>, values: &Vec<&str>) -> (r: Option<usize>)
        requires
            columns@.len() == values@.len(),
            rows_readable(self.row_views(), columns@, values@),
        ensures
            match r {
                Some(i) => {
                    &&& i < self.rows@.len()
                    &&& row_matches(self.row_views()[i as int], columns@, values@)
                    &&& no_match_before(self.row_views(), columns@, values@, i as int)
                },
                None => no_match_before(self.row_views(), columns@, values@, self.rows@.len() as int),
            },
    {
        let ghost rv = self.row_views();
        let mut i: usize = 0;
        while i < self.rows.len()
            invariant
                i <= self.rows@.len(),
                rv == self.row_views(),
                columns@.len() == values@.len(),
                no_match_before(rv, columns@, values@, i as int),
                rows_readable(rv, columns@, values@),
            decreases self.rows.len() - i,
        {
            assert(keys_readable(rv[i as int], columns@, values@));
            assert(rv[i as int] == views(self.rows@[i as int]@));
            if row_keys_match(&self.rows[i], columns, values) {
                return Some(i);
            }
            proof {
                assert forall|j: int| 0 <= j < i + 1 implies !row_matches(
                    #[trigger] rv[j],
                    columns@,
                    values@,
                ) by {
                    if j < i {
                        assert(no_match_before(rv, columns@, values@, i as int));
                    }
                }
            }
            i += 1;
        }
        None
    }
}

/// The key field `k` of the row lies in the row and equals the key value.
pub open spec fn key_ok(row: Seq<Seq<char>>, columns: Seq<usize>, values: Seq<&str>, k: int) -> bool {
    columns[k] < row.len() && row[columns[k] as int] == values[k]@
}

/// All key fields of the row equal the key values.
pub open spec fn row_matches(row: Seq<Seq<char>>, columns: Seq<usize>, values: Seq<&str>) -> bool {
    forall|k: int| 0 <= k < columns.len() ==> #[trigger] key_ok(row, columns, values, k)
}

/// Comparing the keys in order reads no field past the row's end: each key
/// column that is reached after equal earlier keys lies in the row.
pub open spec fn keys_readable(row: Seq<Seq<char>>, columns: Seq<usize>, values: Seq<&str>) -> bool {
    forall|k: int|
        #![trigger columns[k]]
        0 <= k < columns.len() && (forall|j: int| 0 <= j < k ==> #[trigger] key_ok(row, columns, values, j))
            ==> columns[k] < row.len()
}

/// No row before position `i` matches the keys.
pub open spec fn no_match_before(
    rows: Seq<Seq<Seq<char>>>,
    columns: Seq<usize>,
    values: Seq<&str>,
    i: int,
) -> bool {
    forall|j: int| 0 <= j < i ==> !row_matches(#[trigger] rows[j], columns, values)
}

/// Every row that the search reaches can have its keys compared.
pub open spec fn rows_readable(rows: Seq<Seq<Seq<char>>>, columns: Seq<usize>, values: Seq<&str>) -> bool {
    forall|i: int|
        #![trigger rows[i]]
        0 <= i < rows.len() && no_match_before(rows, columns, values, i) ==> keys_readable(
            rows[i],
            columns,
            values,
        )
}

/// One table row as a list of (column name, field) pairs, read as a map in
/// which a later pair overrides an earlier one with the same name.
pub struct CsvRow {
    pub entries: Vec<(String, String)>,
}

/// The pairs' views.
pub open spec fn entry_views(entries: Seq<(String, String)>) -> Seq<(Seq<char>, Seq<char>)> {
    entries.map_values(|e: (String, String)| (e.0@, e.1@))
}

/// The map that inserting the pairs in order builds.
pub open spec fn entries_map(e: Seq<(Seq<char>, Seq<char>)>) -> Map<Seq<char>, Seq<char>>
    decreases e.len(),
{
    if e.len() == 0 {
        Map::empty()
    } else {
        entries_map(e.drop_last()).insert(e.last().0, e.last().1)
    }
}

proof fn lemma_entries_map_last(e: Seq<(Seq<char>, Seq<char>)>, k: Seq<char>, i: int)
    requires
        0 <= i < e.len(),
        e[i].0 == k,
        forall|j: int| i < j < e.len() ==> #[trigger] e[j].0 != k,
    ensures
        entries_map(e).contains_key(k),
        entries_map(e)[k] == e[i].1,
    decreases e.len(),
{
    if i < e.len() - 1 {
        lemma_entries_map_last(e.drop_last(), k, i);
        assert(e.last().0 != k);
    }
}

proof fn lemma_entries_map_absent(e: Seq<(Seq<char>, Seq<char>)>, k: Seq<char>)
    requires
        forall|j: int| 0 <= j < e.len() ==> #[trigger] e[j].0 != k,
    ensures
        !entries_map(e).contains_key(k),
    decreases e.len(),
{
    if e.len() > 0 {
        lemma_entries_map_absent(e.drop_last(), k);
        assert(e.last().0 != k);
    }
}

impl CsvRow {
    /// The row as a map from column name to field.
    pub open spec fn as_map(&self) -> Map<Seq<char>, Seq<char>> {
        entries_map(entry_views(self.entries@))
    }

    /// The field of the column `name`; where the name occurs more than once,
    /// the last occurrence's field.
    pub fn get(&self, name: &str) -> (r: Option<&String>)
        ensures
            match r {
                Some(v) => self.as_map().contains_key(name@) && self.as_map()[name@] == v@,
                None => !self.as_map().contains_key(name@),
            },
    {
        let ghost ev = entry_views(self.entries@);
        let mut i: usize = self.entries.len();
        while i > 0
            invariant
                i <= self.entries@.len(),
                ev == entry_views(self.entries@),
                forall|j: int| i <= j < ev.len() ==> #[trigger] ev[j].0 != name@,
            decreases i,
        {
            if str_equal(self.entries[i - 1].0.as_str(), name) {
                proof {
                    lemma_entries_map_last(ev, name@, i - 1);
                }
                return Some(&self.entries[i - 1].1);
            }
            i -= 1;
        }
        proof {
            lemma_entries_map_absent(ev, name@);
        }
        None
    }
}

/// The field of the column `name`, or `not_available` where the row has no
/// such column.
pub fn existing_value(row: &CsvRow, name: &str) -> (v: String)
    ensures
        v@ == (if row.as_map().contains_key(name@) {
            row.as_map()[name@]
        } else {
            "not_available"@
        }),
{
    match row.get(name) {
        Some(v) => v.clone(),
        None => {
            proof {
                reveal_strlit("not_available");
            }
            string_from(&to_chars("not_available"))
        },
    }
}

/// The position of the first line at or after `i` that is not blank, or -1.
pub open spec fn first_nonblank_from(ls: Seq<Seq<char>>, i: int) -> int
    decreases ls.len() - i,
{
    if i < 0 || i >= ls.len() {
        -1
    } else if !is_blank(ls[i]) {
        i
    } else {
        first_nonblank_from(ls, i + 1)
    }
}

/// The position of the header line, or -1: the first line, or with
/// `first_nonblank` the first line that is not blank.
pub open spec fn header_line(ls: Seq<Seq<char>>, first_nonblank: bool) -> int {
    if first_nonblank {
        first_nonblank_from(ls, 0)
    } else if ls.len() > 0 {
        0
    } else {
        -1
    }
}

/// Whether `name` occurs among the header fields.
pub open spec fn has_column(header: Seq<Seq<char>>, name: Seq<char>) -> bool {
    exists|k: int| 0 <= k < header.len() && header[k] == name
}

/// `required[m]` is the first required name that the header lacks.
pub open spec fn first_missing(header: Seq<Seq<char>>, required: Seq<&str>, m: int) -> bool {
    &&& 0 <= m < required.len()
    &&& !has_column(header, required[m]@)
    &&& forall|k: int| 0 <= k < m ==> has_column(header, #[trigger] required[k]@)
}

/// The header paired with a line's fields.
pub open spec fn zip_entries(header: Seq<Seq<char>>, fields: Seq<Seq<char>>) -> Seq<
    (Seq<char>, Seq<char>),
> {
    Seq::new(header.len(), |k: int| (header[k], fields[k]))
}

/// The records of the lines after the header line `h` and before line `i`,
/// blank lines skipped, or the position of the first line whose field count
/// differs from the header's.
pub open spec fn records_upto(ls: Seq<Seq<char>>, h: int, header: Seq<Seq<char>>, i: int) -> Result<
    Seq<Seq<(Seq<char>, Seq<char>)>>,
    int,
>
    decreases i - h,
{
    if i <= h + 1 {
        Ok(Seq::empty())
    } else {
        match records_upto(ls, h, header, i - 1) {
            Err(e) => Err(e),
            Ok(r) => {
                let l = ls[i - 1];
                if is_blank(l) {
                    Ok(r)
                } else if split_on(l, ',').len() != header.len() {
                    Err(i - 1)
                } else {
                    Ok(r.push(zip_entries(header, split_on(l, ','))))
                }
            },
        }
    }
}

proof fn lemma_records_upto_err_sticks(
    ls: Seq<Seq<char>>,
    h: int,
    header: Seq<Seq<char>>,
    i: int,
    j: int,
)
    requires
        h + 1 <= i <= j,
        records_upto(ls, h, header, i) is Err,
    ensures
        records_upto(ls, h, header, j) == records_upto(ls, h, header, i),
    decreases j - i,
{
    if j > i {
        lemma_records_upto_err_sticks(ls, h, header, i, j - 1);
    }
}

/// The outcome of reading a table text into records.
pub open spec fn read_records_spec(text: Seq<char>, first_nonblank: bool, required: Seq<&str>) -> Result<
    Seq<Seq<(Seq<char>, Seq<char>)>>,
    CsvErrorView,
> {
    let ls = lines_of(text);
    let h = header_line(ls, first_nonblank);
    if h < 0 {
        Err(CsvErrorView::MissingHeader)
    } else {
        let header = split_on(ls[h], ',');
        if exists|m: int| first_missing(header, required, m) {
            let m = choose|m: int| first_missing(header, required, m);
            Err(CsvErrorView::MissingColumn(required[m]@))
        } else {
            match records_upto(ls, h, header, ls.len() as int) {
                Ok(recs) => Ok(recs),
                Err(i) => Err(
                    CsvErrorView::WidthMismatch {
                        line: i + 1,
                        expected: header.len() as int,
                        found: split_on(ls[i], ',').len() as int,
                    },
                ),
            }
        }
    }
}

/// The mathematical value of a `CsvError`.
pub enum CsvErrorView {
    MissingHeader,
    MissingColumn(Seq<char>),
    WidthMismatch { line: int, expected: int, found: int },
}

impl CsvError {
    /// The error with its text as a character sequence.
    pub open spec fn view_of(&self) -> CsvErrorView {
        match self {
            CsvError::MissingHeader => CsvErrorView::MissingHeader,
            CsvError::MissingColumn(s) => CsvErrorView::MissingColumn(s@),
            CsvError::WidthMismatch { line, expected, found } => CsvErrorView::WidthMismatch {
                line: *line as int,
                expected: *expected as int,
                found: *found as int,
            },
        }
    }
}

/// The records' views.
pub open spec fn record_views(rows: Seq<CsvRow>) -> Seq<Seq<(Seq<char>, Seq<char>)>> {
    rows.map_values(|r: CsvRow| entry_views(r.entries@))
}

/// Reads a table text into records keyed by the header. The header is the
/// first line, or with `first_nonblank` the first line that is not blank;
/// every `required` name must occur in it; later blank lines are skipped and
/// every other line must have as many fields as the header.
pub fn read_records(text: &str, first_nonblank: bool, required: &Vec<&str>) -> (r: Result<
    Vec<CsvRow>,
    CsvError,
>)
    ensures
        match (r, read_records_spec(text@, first_nonblank, required@)) {
            (Ok(rows), Ok(recs)) => record_views(rows@) == recs,
            (Err(e), Err(ev)) => e.view_of() == ev,
            _ => false,
        },
{
    let chars = to_chars(text);
    let lines = line_chars(&chars);
    let ghost ls = lines@.map_values(|l: Vec<char>| l@);
    assert(ls == lines_of(text@));
    let mut h: usize = 0;
    if first_nonblank {
        while h < lines.len() && chars_blank(&lines[h])
            invariant
                h <= lines@.len(),
                ls == lines@.map_values(|l: Vec<char>| l@),
                first_nonblank_from(ls, 0) == first_nonblank_from(ls, h as int),
            decreases lines.len() - h,
        {
            h += 1;
        }
    }
    if h >= lines.len() {
        return Err(CsvError::MissingHeader);
    }
    assert(header_line(ls, first_nonblank) == h as int);
    let header = split_line(&lines[h]);
    let ghost hv = views(header@);
    assert(ls[h as int] == lines@[h as int]@);
    assert(hv == split_on(lines_of(text@)[h as int], ','));
    let mut m: usize = 0;
    while m < required.len()
        invariant
            m <= required@.len(),
            ls == lines_of(text@),
            0 <= h < ls.len(),
            header_line(ls, first_nonblank) == h as int,
            hv == split_on(ls[h as int], ','),
            hv == views(header@),
            forall|k: int| 0 <= k < m ==> has_column(hv, #[trigger] required@[k]@),
        decreases required.len() - m,
    {
        let mut k: usize = 0;
        let mut found = false;
        while k < header.len()
            invariant
                k <= header@.len(),
                m < required@.len(),
                hv == views(header@),
                found ==> has_column(hv, required@[m as int]@),
                !found ==> forall|j: int| 0 <= j < k ==> hv[j] != required@[m as int]@,
            decreases header.len() - k,
        {
            if !found && str_equal(header[k].as_str(), required[m]) {
                found = true;
                assert(hv[k as int] == header@[k as int]@);
            }
            k += 1;
        }
        if !found {
            proof {
                assert(first_missing(hv, required@, m as int));
                let c = choose|c: int| first_missing(hv, required@, c);
                if c < m {
                    assert(has_column(hv, required@[c]@));
                } else if c > m {
                    assert(has_column(hv, required@[m as int]@));
                }
                assert(c == m);
                assert(read_records_spec(text@, first_nonblank, required@) == Err::<
                    Seq<Seq<(Seq<char>, Seq<char>)>>,
                    CsvErrorView,
                >(CsvErrorView::MissingColumn(required@[m as int]@)));
            }
            return Err(CsvError::MissingColumn(string_from(&to_chars(required[m]))));
        }
        m += 1;
    }
    assert(!exists|c: int| first_missing(hv, required@, c));
    let mut rows: Vec<CsvRow> = Vec::new();
    let mut i: usize = h + 1;
    assert(record_views(rows@) =~= Seq::<Seq<(Seq<char>, Seq<char>)>>::empty());
    while i < lines.len()
        invariant
            h < i <= lines@.len(),
            ls == lines@.map_values(|l: Vec<char>| l@),
            ls == lines_of(text@),
            header_line(ls, first_nonblank) == h as int,
            hv == split_on(ls[h as int], ','),
            !exists|c: int| first_missing(hv, required@, c),
            hv == views(header@),
            records_upto(ls, h as int, hv, i as int) == Ok::<
                Seq<Seq<(Seq<char>, Seq<char>)>>,
                int,
            >(record_views(rows@)),
        decreases lines.len() - i,
    {
        assert(ls[i as int] == lines@[i as int]@);
        if !chars_blank(&lines[i]) {
            let fields = split_line(&lines[i]);
            if fields.len() != header.len() {
                assert(records_upto(ls, h as int, hv, i + 1) == Err::<
                    Seq<Seq<(Seq<char>, Seq<char>)>>,
                    int,
                >(i as int));
                proof {
                    lemma_records_upto_err_sticks(ls, h as int, hv, i + 1, ls.len() as int);
                    assert(views(fields@).len() == fields@.len());
                    assert(views(header@).len() == header@.len());
                }
                return Err(
                    CsvError::WidthMismatch {
                        line: i + 1,
                        expected: header.len(),
                        found: fields.len(),
                    },
                );
            }
            let mut entries: Vec<(String, String)> = Vec::new();
            let mut k: usize = 0;
            while k < header.len()
                invariant
                    k <= header@.len(),
                    fields@.len() == header@.len(),
                    entries@.len() == k,
                    forall|j: int|
                        0 <= j < k ==> #[trigger] entry_views(entries@)[j] == (
                            header@[j]@,
                            fields@[j]@,
                        ),
                decreases header.len() - k,
            {
                let name = header[k].clone();
                let value = fields[k].clone();
                let ghost before = entries@;
                entries.push((name, value));
                assert(entries@ == before.push((name, value)));
                assert forall|j: int| 0 <= j < k implies #[trigger] entry_views(entries@)[j] == (
                    header@[j]@,
                    fields@[j]@,
                ) by {
                    assert(entry_views(entries@)[j] == entry_views(before)[j]);
                }
                assert(entry_views(entries@)[k as int] == (header@[k as int]@, fields@[k as int]@));
                k += 1;
            }
            let ghost before = record_views(rows@);
            rows.push(CsvRow { entries });
            proof {
                assert(entry_views(entries@) =~= zip_entries(hv, views(fields@)));
                assert(record_views(rows@) =~= before.push(zip_entries(hv, views(fields@))));
            }
        }
        i += 1;
    }
    Ok(rows)
}

fn row_keys_match(row: &Vec<String>, columns: &Vec<usize>, values: &Vec<&str>) -> (r: bool)
    requires
        columns@.len() == values@.len(),
        keys_readable(views(row@), columns@, values@),
    ensures
        r == row_matches(views(row@), columns@, values@),
{
    let ghost rv = views(row@);
    let mut k: usize = 0;
    while k < columns.len()
        invariant
            k <= columns@.len(),
            rv == views(row@),
            columns@.len() == values@.len(),
            keys_readable(rv, columns@, values@),
            forall|j: int| 0 <= j < k ==> #[trigger] key_ok(rv, columns@, values@, j),
        decreases columns.len() - k,
    {
        let c = columns[k];
        assert(c < row@.len());
        assert(rv[c as int] == row@[c as int]@);
        if !str_equal(row[c].as_str(), values[k]) {
            assert(!key_ok(rv, columns@, values@, k as int));
            return false;
        }
        assert(key_ok(rv, columns@, values@, k as int));
        k += 1;
    }
    true
}

/// The fields of one line.
fn split_line(line: &Vec<char>) -> (fields: Vec<String>)
    ensures
        views(fields@) == split_on(line@, ','),
{
    let parts = split_chars(line, ',');
    let mut fields: Vec<String> = Vec::new();
    let mut i: usize = 0;
    while i < parts.len()
        invariant
            i <= parts.len(),
            fields@.len() == i,
            forall|j: int| 0 <= j < i ==> #[trigger] fields@[j]@ == parts@[j]@,
        decreases parts.len() - i,
    {
        fields.push(string_from(&parts[i]));
        i += 1;
    }
    proof {
        assert(views(fields@) =~= parts@.map_values(|f: Vec<char>| f@));
    }
    fields
}

} // verus!

verus! {

/// The record holds every named column with the given value.
pub open spec fn record_has(m: Map<Seq<char>, Seq<char>>, names: Seq<&str>, values: Seq<&str>) -> bool {
    forall|k: int|
        0 <= k < names.len() ==> m.contains_key(#[trigger] names[k]@) && m[names[k]@] == values[k]@
}

/// The position of the first record that holds every named column with the
/// given value.
pub fn find_record(rows: &Vec<CsvRow>, names: &Vec<&str>, values: &Vec<&str>) -> (r: Option<usize>)
    requires
        names@.len() == values@.len(),
    ensures
        match r {
            Some(i) => {
                &&& i < rows@.len()
                &&& record_has(rows@[i as int].as_map(), names@, values@)
                &&& forall|j: int|
                    0 <= j < i ==> !record_has(#[trigger] rows@[j].as_map(), names@, values@)
            },
            None => forall|j: int|
                0 <= j < rows@.len() ==> !record_has(#[trigger] rows@[j].as_map(), names@, values@),
        },
{
    let mut i: usize = 0;
    while i < rows.len()
        invariant
            i <= rows@.len(),
            names@.len() == values@.len(),
            forall|j: int| 0 <= j < i ==> !record_has(#[trigger] rows@[j].as_map(), names@, values@),
        decreases rows.len() - i,
    {
        let row = &rows[i];
        let mut k: usize = 0;
        let mut all = true;
        while k < names.len()
            invariant
                k <= names@.len(),
                names@.len() == values@.len(),
                all == forall|j: int|
                    0 <= j < k ==> row.as_map().contains_key(#[trigger] names@[j]@)
                        && row.as_map()[names@[j]@] == values@[j]@,
            decreases names.len() - k,
        {
            let matched = match row.get(names[k]) {
                Some(v) => str_equal(v.as_str(), values[k]),
                None => false,
            };
            all = all && matched;
            k += 1;
        }
        if all {
            return Some(i);
        }
        i += 1;
    }
    None
}

/// The record's field `name` reads as the count `n`.
pub open spec fn record_count_is(m: Map<Seq<char>, Seq<char>>, name: Seq<char>, n: nat) -> bool {
    m.contains_key(name) && parse_usize_spec(m[name]) == Some(n)
}

/// The position of the first record whose field `name` reads as the count
/// `n`.
pub fn find_record_with_count(rows: &Vec<CsvRow>, name: &str, n: usize) -> (r: Option<usize>)
    ensures
        match r {
            Some(i) => {
                &&& i < rows@.len()
                &&& record_count_is(rows@[i as int].as_map(), name@, n as nat)
                &&& forall|j: int|
                    0 <= j < i ==> !record_count_is(#[trigger] rows@[j].as_map(), name@, n as nat)
            },
            None => forall|j: int|
                0 <= j < rows@.len() ==> !record_count_is(#[trigger] rows@[j].as_map(), name@, n as nat),
        },
{
    let mut i: usize = 0;
    while i < rows.len()
        invariant
            i <= rows@.len(),
            forall|j: int|
                0 <= j < i ==> !record_count_is(#[trigger] rows@[j].as_map(), name@, n as nat),
        decreases rows.len() - i,
    {
        let found = match rows[i].get(name) {
            Some(v) => match parse_usize(v.as_str()) {
                Some(count) => count == n,
                None => false,
            },
            None => false,
        };
        if found {
            return Some(i);
        }
        i += 1;
    }
    None
}

} // verus!

verus! {

/// In a record read from a line, a column name that occurs only once in the
/// header maps to the field at its position; where a name occurs more than
/// once, the last occurrence's field is the one kept.
pub proof fn record_field_at_last_occurrence(header: Seq<Seq<char>>, fields: Seq<Seq<char>>, k: int)
    requires
        header.len() == fields.len(),
        0 <= k < header.len(),
        forall|j: int| k < j < header.len() ==> #[trigger] header[j] != header[k],
    ensures
        entries_map(zip_entries(header, fields)).contains_key(header[k]),
        entries_map(zip_entries(header, fields))[header[k]] == fields[k],
{
    let e = zip_entries(header, fields);
    assert forall|j: int| k < j < e.len() implies #[trigger] e[j].0 != header[k] by {
        assert(e[j].0 == header[j]);
    }
    lemma_entries_map_last(e, header[k], k);
}

} // verus!

verus! {

/// A record that `find_record` accepts holds each named column, and the
/// column's field is the value given for it; a record it passes over lacks
/// one of the named columns or holds another value there.
pub proof fn record_match_is_every_key(m: Map<Seq<char>, Seq<char>>, names: Seq<&str>, values: Seq<&str>)
    requires
        names.len() == values.len(),
    ensures
        record_has(m, names, values) ==> forall|k: int|
            0 <= k < names.len() ==> m.contains_key(#[trigger] names[k]@) && m[names[k]@]
                == values[k]@,
        !record_has(m, names, values) ==> exists|k: int|
            0 <= k < names.len() && (!m.contains_key(#[trigger] names[k]@) || m[names[k]@]
                != values[k]@),
{
}

/// Each key column narrows the search on its own: a record that matches the
/// keys with one more column added still matches the keys without it, in
/// whichever position the extra column stands, and a record that matches the
/// keys and holds the extra column's value matches the longer list.
pub proof fn record_match_narrows(
    m: Map<Seq<char>, Seq<char>>,
    names: Seq<&str>,
    values: Seq<&str>,
    name: &str,
    value: &str,
)
    requires
        names.len() == values.len(),
    ensures
        record_has(m, names.push(name), values.push(value)) ==> record_has(m, names, values),
        record_has(m, seq![name] + names, seq![value] + values) ==> record_has(m, names, values),
        record_has(m, names.push(name), values.push(value)) <==> (record_has(m, names, values)
            && m.contains_key(name@) && m[name@] == value@),
        record_has(m, seq![name] + names, seq![value] + values) <==> (record_has(m, names, values)
            && m.contains_key(name@) && m[name@] == value@),
{
    let n1 = names.push(name);
    let v1 = values.push(value);
    let n2 = seq![name] + names;
    let v2 = seq![value] + values;
    if record_has(m, n1, v1) {
        assert forall|k: int| 0 <= k < names.len() implies m.contains_key(#[trigger] names[k]@)
            && m[names[k]@] == values[k]@ by {
            assert(n1[k] == names[k] && v1[k] == values[k]);
        }
        assert(n1[names.len() as int] == name && v1[names.len() as int] == value);
    }
    if record_has(m, names, values) && m.contains_key(name@) && m[name@] == value@ {
        assert forall|k: int| 0 <= k < n1.len() implies m.contains_key(#[trigger] n1[k]@)
            && m[n1[k]@] == v1[k]@ by {
            if k < names.len() {
                assert(n1[k] == names[k] && v1[k] == values[k]);
            }
        }
        assert forall|k: int| 0 <= k < n2.len() implies m.contains_key(#[trigger] n2[k]@)
            && m[n2[k]@] == v2[k]@ by {
            if k > 0 {
                assert(n2[k] == names[k - 1] && v2[k] == values[k - 1]);
            }
        }
    }
    if record_has(m, n2, v2) {
        assert forall|k: int| 0 <= k < names.len() implies m.contains_key(#[trigger] names[k]@)
            && m[names[k]@] == values[k]@ by {
            assert(n2[k + 1] == names[k] && v2[k + 1] == values[k]);
        }
        assert(n2[0] == name && v2[0] == value);
    }
}

} // verus!

verus! {

/// A record found by count holds the column, and its field reads as that
/// count: the field written as the count's decimal text is found, and a field
/// reads as at most one count.
pub proof fn record_count_reads_field(m: Map<Seq<char>, Seq<char>>, name: Seq<char>, n: usize, n2: nat)
    ensures
        record_count_is(m, name, n as nat) ==> m.contains_key(name) && parse_usize_spec(m[name])
            == Some(n as nat),
        record_count_is(m.insert(name, decimal(n as nat)), name, n as nat),
        record_count_is(m, name, n as nat) && record_count_is(m, name, n2) ==> n2 == n,
        !m.contains_key(name) ==> !record_count_is(m, name, n2),
{
    decimal_reads_back(n);
}

} // verus!
