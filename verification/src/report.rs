//! Text written into the result, check and report files: boolean and verdict
//! words, quoted CSV fields, check-table lines and column aliases.
use vstd::prelude::*;
use crate::text::{join, join_split_roundtrip, push_str_chars, replace_char, replace_chars, split_on, str_equal, string_from, to_chars};

verus! {

/// `true` or `false`, as a flag column shows it.
pub open spec fn flag_text(value: bool) -> Seq<char> {
    if value {
        "true"@
    } else {
        "false"@
    }
}

/// `PASS` or `FAIL`, as a check's status column shows it.
pub open spec fn status_text(value: bool) -> Seq<char> {
    if value {
        "PASS"@
    } else {
        "FAIL"@
    }
}

/// The word for a flag in the result tables.
pub fn b(value: bool) -> (text: &'static str)
    ensures
        text@ == flag_text(value),
{
    if value {
        "true"
    } else {
        "false"
    }
}

/// The word for a flag in the robustness result table.
pub fn bool_text(value: bool) -> (text: &'static str)
    ensures
        text@ == flag_text(value),
{
    if value {
        "true"
    } else {
        "false"
    }
}

/// The status word of a check.
pub fn pass(value: bool) -> (text: &'static str)
    ensures
        text@ == status_text(value),
{
    if value {
        "PASS"
    } else {
        "FAIL"
    }
}

/// The column of the coarse summary that holds a metric: `XGamma` is stored
/// as `XGamma_at_t10`, every other metric under its own name.
pub fn coarse_column(metric: &str) -> (column: &str)
    ensures
        column@ == (if metric@ == "XGamma"@ {
            "XGamma_at_t10"@
        } else {
            metric@
        }),
{
    if str_equal(metric, "XGamma") {
        "XGamma_at_t10"
    } else {
        metric
    }
}

/// Whether a field must be quoted: it holds a comma, a quote or a newline.
pub open spec fn needs_quotes(v: Seq<char>) -> bool {
    v.contains(',') || v.contains('"') || v.contains('\n')
}

/// The text with every quote doubled.
pub open spec fn double_quotes(v: Seq<char>) -> Seq<char>
    decreases v.len(),
{
    if v.len() == 0 {
        Seq::empty()
    } else if v.last() == '"' {
        double_quotes(v.drop_last()).push('"').push('"')
    } else {
        double_quotes(v.drop_last()).push(v.last())
    }
}

/// The field as it is written: quoted, with inner quotes doubled, where it
/// needs quotes, and unchanged otherwise.
pub open spec fn quoted_field(v: Seq<char>) -> Seq<char> {
    if needs_quotes(v) {
        seq!['"'] + double_quotes(v) + seq!['"']
    } else {
        v
    }
}

/// A doubled quote read back as one quote.
pub open spec fn undouble_quotes(s: Seq<char>) -> Seq<char>
    decreases s.len(),
{
    if s.len() == 0 {
        Seq::empty()
    } else if s.len() >= 2 && s.last() == '"' && s[s.len() - 2] == '"' {
        undouble_quotes(s.drop_last().drop_last()).push('"')
    } else {
        undouble_quotes(s.drop_last()).push(s.last())
    }
}

/// A written field read back: the quotes around it removed and doubled
/// quotes undoubled, where it is quoted.
pub open spec fn unquoted_field(s: Seq<char>) -> Seq<char> {
    if s.len() >= 2 && s[0] == '"' && s.last() == '"' {
        undouble_quotes(s.subrange(1, s.len() - 1))
    } else {
        s
    }
}

proof fn lemma_undouble_double(v: Seq<char>)
    ensures
        undouble_quotes(double_quotes(v)) == v,
    decreases v.len(),
{
    if v.len() > 0 {
        lemma_undouble_double(v.drop_last());
        let d = double_quotes(v);
        if v.last() == '"' {
            assert(d.drop_last().drop_last() =~= double_quotes(v.drop_last()));
        } else {
            assert(d.drop_last() =~= double_quotes(v.drop_last()));
        }
        assert(v.drop_last().push(v.last()) =~= v);
    }
}

/// A field that `csv_field` wrote reads back as the text it was given.
pub proof fn quoted_field_reads_back(v: Seq<char>)
    ensures
        unquoted_field(quoted_field(v)) == v,
{
    if needs_quotes(v) {
        let q = seq!['"'] + double_quotes(v) + seq!['"'];
        assert(q.subrange(1, q.len() - 1) =~= double_quotes(v));
        lemma_undouble_double(v);
    } else {
        if v.len() >= 2 && v[0] == '"' {
            assert(v.contains('"'));
        }
    }
}

/// The field quoted for a CSV line where it holds a comma, a quote or a
/// newline, with its quotes doubled.
pub fn csv_field(value: &str) -> (field: String)
    ensures
        field@ == quoted_field(value@),
{
    let chars = to_chars(value);
    let mut special = false;
    let mut i: usize = 0;
    while i < chars.len()
        invariant
            i <= chars.len(),
            chars@ == value@,
            special == (chars@.take(i as int).contains(',') || chars@.take(i as int).contains('"')
                || chars@.take(i as int).contains('\n')),
        decreases chars.len() - i,
    {
        let c = chars[i];
        proof {
            let t = chars@.take(i as int);
            let t1 = chars@.take(i + 1);
            assert(t1 =~= t.push(c));
            assert forall|x: char| t.contains(x) || x == c implies t1.contains(x) by {
                if x == c {
                    assert(t1[i as int] == c);
                } else if t.contains(x) {
                    let k = choose|k: int| 0 <= k < t.len() && t[k] == x;
                    assert(t1[k] == x);
                }
            }
            assert forall|x: char| t1.contains(x) implies t.contains(x) || x == c by {
                {
                    let k = choose|k: int| 0 <= k < t1.len() && t1[k] == x;
                    if k < i {
                        assert(t[k] == x);
                    }
                }
            }
        }
        if c == ',' || c == '"' || c == '\n' {
            special = true;
        }
        i += 1;
    }
    proof {
        assert(chars@.take(chars.len() as int) =~= chars@);
    }
    if !special {
        return string_from(&chars);
    }
    let mut out: Vec<char> = Vec::new();
    out.push('"');
    let mut k: usize = 0;
    while k < chars.len()
        invariant
            k <= chars.len(),
            out@ == seq!['"'] + double_quotes(chars@.take(k as int)),
        decreases chars.len() - k,
    {
        let c = chars[k];
        proof {
            assert(chars@.take(k + 1).drop_last() =~= chars@.take(k as int));
        }
        if c == '"' {
            out.push('"');
            out.push('"');
        } else {
            out.push(c);
        }
        k += 1;
        proof {
            assert(out@ =~= seq!['"'] + double_quotes(chars@.take(k as int)));
        }
    }
    out.push('"');
    proof {
        assert(chars@.take(chars.len() as int) =~= chars@);
        assert(out@ =~= seq!['"'] + double_quotes(value@) + seq!['"']);
    }
    string_from(&out)
}

/// The fields of a check-table line: name, scope, flag, and the details with
/// commas turned into semicolons.
pub open spec fn check_row_fields(name: Seq<char>, scope: Seq<char>, passed: bool, details: Seq<char>) -> Seq<
    Seq<char>,
> {
    seq![name, scope, flag_text(passed), replace_char(details, ',', ';')]
}

/// The fields of a staged check line: stage, condition, check, observed value,
/// expected value and status word.
pub open spec fn staged_check_fields(
    stage: Seq<char>,
    condition: Seq<char>,
    check: Seq<char>,
    observed: Seq<char>,
    expected: Seq<char>,
    pass: bool,
) -> Seq<Seq<char>> {
    seq![stage, condition, check, observed, expected, status_text(pass)]
}

/// Joins the fields with commas into a new string.
fn join_commas(fields: &Vec<&str>) -> (line: String)
    requires
        fields@.len() >= 1,
    ensures
        line@ == join(fields@.map_values(|f: &str| f@), ','),
{
    let ghost fv = fields@.map_values(|f: &str| f@);
    let mut line = string_from(&to_chars(fields[0]));
    let mut i: usize = 1;
    proof {
        assert(fv.take(1).len() == 1);
        assert(join(fv.take(1), ',') == fv[0]);
    }
    while i < fields.len()
        invariant
            1 <= i <= fields@.len(),
            fv == fields@.map_values(|f: &str| f@),
            line@ == join(fv.take(i as int), ','),
        decreases fields.len() - i,
    {
        let ghost before = line@;
        push_str_chars(&mut line, ",");
        push_str_chars(&mut line, fields[i]);
        proof {
            reveal_strlit(",");
            let t = fv.take(i + 1);
            assert(t.drop_last() =~= fv.take(i as int));
            assert(line@ =~= join(t, ','));
        }
        i += 1;
    }
    proof {
        assert(fv.take(fields@.len() as int) =~= fv);
    }
    line
}

/// Appends to `out` the check line `name,scope,flag,details`, where commas in
/// the details become semicolons.
pub fn check_row(out: &mut Vec<String>, name: &str, scope: &str, passed: bool, details: &str)
    ensures
        final(out)@ == old(out)@.push(final(out)@.last()),
        final(out)@.last()@ == join(check_row_fields(name@, scope@, passed, details@), ','),
{
    let safe = replace_chars(details, ',', ';');
    let fields = vec![name, scope, b(passed), safe.as_str()];
    let line = join_commas(&fields);
    proof {
        assert(fields@.map_values(|f: &str| f@) =~= check_row_fields(name@, scope@, passed, details@));
    }
    out.push(line);
}

/// Appends to `out` the staged check line
/// `stage,condition,check,observed,expected,PASS|FAIL`.
pub fn append_check(
    out: &mut Vec<String>,
    condition: &str,
    stage: &str,
    check: &str,
    observed: &str,
    expected: &str,
    pass: bool,
)
    ensures
        final(out)@ == old(out)@.push(final(out)@.last()),
        final(out)@.last()@ == join(
            staged_check_fields(stage@, condition@, check@, observed@, expected@, pass),
            ',',
        ),
{
    let fields = vec![stage, condition, check, observed, expected, crate::report::pass(pass)];
    let line = join_commas(&fields);
    proof {
        assert(fields@.map_values(|f: &str| f@) =~= staged_check_fields(
            stage@,
            condition@,
            check@,
            observed@,
            expected@,
            pass,
        ));
    }
    out.push(line);
}

/// A check line whose name and scope hold no comma splits at its commas into
/// exactly its four fields, the details with commas turned into semicolons.
pub proof fn check_row_reads_back(name: Seq<char>, scope: Seq<char>, passed: bool, details: Seq<char>)
    requires
        !name.contains(','),
        !scope.contains(','),
    ensures
        split_on(join(check_row_fields(name, scope, passed, details), ','), ',') == check_row_fields(
            name,
            scope,
            passed,
            details,
        ),
{
    let f = check_row_fields(name, scope, passed, details);
    reveal_strlit("true");
    reveal_strlit("false");
    assert forall|i: int, j: int| 0 <= i < f.len() && 0 <= j < f[i].len() implies #[trigger] f[i][j]
        != ',' by {
        if i == 0 {
            assert(name[j] == f[i][j]);
        } else if i == 1 {
            assert(scope[j] == f[i][j]);
        }
    }
    join_split_roundtrip(f, ',');
}

/// A staged check line whose texts hold no comma splits at its commas into
/// exactly its six fields.
pub proof fn staged_check_reads_back(
    stage: Seq<char>,
    condition: Seq<char>,
    check: Seq<char>,
    observed: Seq<char>,
    expected: Seq<char>,
    pass: bool,
)
    requires
        !stage.contains(','),
        !condition.contains(','),
        !check.contains(','),
        !observed.contains(','),
        !expected.contains(','),
    ensures
        split_on(join(staged_check_fields(stage, condition, check, observed, expected, pass), ','), ',')
            == staged_check_fields(stage, condition, check, observed, expected, pass),
{
    let f = staged_check_fields(stage, condition, check, observed, expected, pass);
    reveal_strlit("PASS");
    reveal_strlit("FAIL");
    assert forall|i: int, j: int| 0 <= i < f.len() && 0 <= j < f[i].len() implies #[trigger] f[i][j]
        != ',' by {
        if i == 0 {
            assert(stage[j] == f[i][j]);
        } else if i == 1 {
            assert(condition[j] == f[i][j]);
        } else if i == 2 {
            assert(check[j] == f[i][j]);
        } else if i == 3 {
            assert(observed[j] == f[i][j]);
        } else if i == 4 {
            assert(expected[j] == f[i][j]);
        }
    }
    join_split_roundtrip(f, ',');
}

} // verus!

verus! {

/// One named check of the input-matching precheck.
pub struct Check {
    pub name: String,
    pub passed: bool,
    pub details: String,
}

/// Whether every check passed.
pub fn all_checks_pass(checks: &Vec<Check>) -> (r: bool)
    ensures
        r == forall|i: int| 0 <= i < checks@.len() ==> (#[trigger] checks@[i]).passed,
{
    let mut i: usize = 0;
    while i < checks.len()
        invariant
            i <= checks@.len(),
            forall|j: int| 0 <= j < i ==> (#[trigger] checks@[j]).passed,
        decreases checks.len() - i,
    {
        if !checks[i].passed {
            return false;
        }
        i += 1;
    }
    true
}

/// The fields of a precheck check line: name, flag and the quoted details.
pub open spec fn precheck_fields(c: Check) -> Seq<Seq<char>> {
    seq![c.name@, flag_text(c.passed), quoted_field(c.details@)]
}

/// The check table of the precheck: the header `check_name,passed,details`
/// and one line per check, its details quoted where needed.
pub fn precheck_check_lines(checks: &Vec<Check>) -> (lines: Vec<String>)
    ensures
        lines@.len() == checks@.len() + 1,
        lines@[0]@ == "check_name,passed,details"@,
        forall|i: int|
            0 <= i < checks@.len() ==> (#[trigger] lines@[i + 1])@ == join(
                precheck_fields(checks@[i]),
                ',',
            ),
{
    let mut lines: Vec<String> = Vec::new();
    lines.push(string_from(&to_chars("check_name,passed,details")));
    let mut i: usize = 0;
    while i < checks.len()
        invariant
            i <= checks@.len(),
            lines@.len() == i + 1,
            lines@[0]@ == "check_name,passed,details"@,
            forall|j: int|
                0 <= j < i ==> (#[trigger] lines@[j + 1])@ == join(precheck_fields(checks@[j]), ','),
        decreases checks.len() - i,
    {
        let c = &checks[i];
        let details = csv_field(c.details.as_str());
        let fields = vec![c.name.as_str(), b(c.passed), details.as_str()];
        let line = join_commas(&fields);
        proof {
            assert(fields@.map_values(|f: &str| f@) =~= precheck_fields(checks@[i as int]));
        }
        lines.push(line);
        i += 1;
    }
    lines
}

} // verus!
