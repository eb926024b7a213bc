//! Guards that the programs run before and after their work: no existing
//! output is overwritten, every reference input is present, and an earlier
//! check table holds no failed check.
use vstd::prelude::*;
use crate::text::{
    chars_end_with, chars_start_with, ends_with, line_chars, lines_of, push_str_chars, split_on,
    split_text, starts_with, string_from, to_chars, views,
};

verus! {

/// The position of the first flag that is set, where one is.
pub open spec fn first_set(flags: Seq<bool>, i: int) -> bool {
    0 <= i < flags.len() && flags[i] && forall|j: int| 0 <= j < i ==> !#[trigger] flags[j]
}

/// The position of the first flag that is set (the first output that
/// already exists), where one is.
pub fn first_set_index(flags: &Vec<bool>) -> (r: Option<usize>)
    ensures
        match r {
            Some(i) => first_set(flags@, i as int),
            None => forall|j: int| 0 <= j < flags@.len() ==> !#[trigger] flags@[j],
        },
{
    let mut i: usize = 0;
    while i < flags.len()
        invariant
            i <= flags@.len(),
            forall|j: int| 0 <= j < i ==> !#[trigger] flags@[j],
        decreases flags.len() - i,
    {
        if flags[i] {
            return Some(i);
        }
        i += 1;
    }
    None
}

/// Refuses to run where an output already exists: the error names the first
/// existing output in the list.
pub fn ensure_new_outputs(outputs: &Vec<&str>, exists: &Vec<bool>) -> (r: Result<(), String>)
    requires
        outputs@.len() == exists@.len(),
    ensures
        match r {
            Ok(()) => forall|j: int| 0 <= j < exists@.len() ==> !#[trigger] exists@[j],
            Err(msg) => exists|i: int|
                first_set(exists@, i) && msg@ == "refusing to overwrite existing output "@
                    + outputs@[i]@,
        },
{
    match first_set_index(exists) {
        None => Ok(()),
        Some(i) => {
            let mut msg = string_from(&to_chars("refusing to overwrite existing output "));
            push_str_chars(&mut msg, outputs[i]);
            proof {
                reveal_strlit("refusing to overwrite existing output ");
            }
            Err(msg)
        },
    }
}

/// The position of the first reference input that is missing, where one is.
pub fn first_absent(present: &Vec<bool>) -> (r: Option<usize>)
    ensures
        match r {
            Some(i) => {
                &&& i < present@.len()
                &&& !present@[i as int]
                &&& forall|j: int| 0 <= j < i ==> #[trigger] present@[j]
            },
            None => forall|j: int| 0 <= j < present@.len() ==> #[trigger] present@[j],
        },
{
    let mut i: usize = 0;
    while i < present.len()
        invariant
            i <= present@.len(),
            forall|j: int| 0 <= j < i ==> #[trigger] present@[j],
        decreases present.len() - i,
    {
        if !present[i] {
            return Some(i);
        }
        i += 1;
    }
    None
}

/// The lines after the first one.
pub open spec fn after_header(ls: Seq<Seq<char>>) -> Seq<Seq<char>> {
    if ls.len() == 0 {
        Seq::empty()
    } else {
        ls.skip(1)
    }
}

/// How many of the lines end with `suffix`.
pub open spec fn count_ending(ls: Seq<Seq<char>>, suffix: Seq<char>) -> nat
    decreases ls.len(),
{
    if ls.len() == 0 {
        0
    } else {
        count_ending(ls.drop_last(), suffix) + (if ends_with(ls.last(), suffix) {
            1nat
        } else {
            0nat
        })
    }
}

proof fn lemma_count_ending_bound(ls: Seq<Seq<char>>, suffix: Seq<char>)
    ensures
        count_ending(ls, suffix) <= ls.len(),
    decreases ls.len(),
{
    if ls.len() > 0 {
        lemma_count_ending_bound(ls.drop_last(), suffix);
    }
}

/// The numbers of lines after the header of a check table that end with
/// `,PASS` and with `,FAIL`.
pub fn count_check_statuses(text: &str) -> (r: (usize, usize))
    ensures
        r.0 == count_ending(after_header(lines_of(text@)), ",PASS"@),
        r.1 == count_ending(after_header(lines_of(text@)), ",FAIL"@),
{
    let chars = to_chars(text);
    let lines = line_chars(&chars);
    let ghost ls = lines@.map_values(|l: Vec<char>| l@);
    let pass_suffix = to_chars(",PASS");
    let fail_suffix = to_chars(",FAIL");
    let mut passes: usize = 0;
    let mut fails: usize = 0;
    if lines.len() == 0 {
        proof {
            assert(after_header(lines_of(text@)) =~= Seq::<Seq<char>>::empty());
        }
        return (0, 0);
    }
    let mut i: usize = 1;
    while i < lines.len()
        invariant
            1 <= i <= lines@.len(),
            ls == lines@.map_values(|l: Vec<char>| l@),
            pass_suffix@ == ",PASS"@,
            fail_suffix@ == ",FAIL"@,
            passes == count_ending(ls.subrange(1, i as int), ",PASS"@),
            fails == count_ending(ls.subrange(1, i as int), ",FAIL"@),
        decreases lines.len() - i,
    {
        proof {
            assert(ls.subrange(1, i + 1).drop_last() =~= ls.subrange(1, i as int));
            assert(ls.subrange(1, i + 1).last() == lines@[i as int]@);
            lemma_count_ending_bound(ls.subrange(1, i as int), ",PASS"@);
            lemma_count_ending_bound(ls.subrange(1, i as int), ",FAIL"@);
        }
        if chars_end_with(&lines[i], &pass_suffix) {
            passes += 1;
        }
        if chars_end_with(&lines[i], &fail_suffix) {
            fails += 1;
        }
        i += 1;
    }
    proof {
        assert(ls.subrange(1, ls.len() as int) =~= after_header(lines_of(text@)));
    }
    (passes, fails)
}

/// Whether a line after the header of a check table ends with `,FAIL`.
pub fn has_failed_check(text: &str) -> (r: bool)
    ensures
        r == exists|i: int|
            1 <= i < lines_of(text@).len() && ends_with(#[trigger] lines_of(text@)[i], ",FAIL"@),
{
    let chars = to_chars(text);
    let lines = line_chars(&chars);
    let ghost ls = lines@.map_values(|l: Vec<char>| l@);
    let fail_suffix = to_chars(",FAIL");
    let mut i: usize = 1;
    while i < lines.len()
        invariant
            1 <= i,
            i <= lines@.len() || lines@.len() == 0,
            ls == lines@.map_values(|l: Vec<char>| l@),
            ls == lines_of(text@),
            fail_suffix@ == ",FAIL"@,
            forall|j: int| 1 <= j < i && j < ls.len() ==> !ends_with(#[trigger] ls[j], ",FAIL"@),
        decreases lines.len() - i,
    {
        if chars_end_with(&lines[i], &fail_suffix) {
            assert(ends_with(ls[i as int], ",FAIL"@));
            return true;
        }
        i += 1;
    }
    false
}

/// The fields of the first line of `text` that starts with `prefix`, where
/// one does.
pub fn find_line_fields(text: &str, prefix: &str) -> (r: Option<Vec<String>>)
    ensures
        match r {
            Some(fields) => exists|i: int|
                0 <= i < lines_of(text@).len() && starts_with(lines_of(text@)[i], prefix@) && (forall|
                    j: int,
                | 0 <= j < i ==> !starts_with(#[trigger] lines_of(text@)[j], prefix@)) && views(
                    fields@,
                ) == split_on(lines_of(text@)[i], ','),
            None => forall|j: int|
                0 <= j < lines_of(text@).len() ==> !starts_with(
                    #[trigger] lines_of(text@)[j],
                    prefix@,
                ),
        },
{
    let chars = to_chars(text);
    let lines = line_chars(&chars);
    let ghost ls = lines@.map_values(|l: Vec<char>| l@);
    let p = to_chars(prefix);
    let mut i: usize = 0;
    while i < lines.len()
        invariant
            i <= lines@.len(),
            ls == lines@.map_values(|l: Vec<char>| l@),
            ls == lines_of(text@),
            p@ == prefix@,
            forall|j: int| 0 <= j < i ==> !starts_with(#[trigger] ls[j], prefix@),
        decreases lines.len() - i,
    {
        if chars_start_with(&lines[i], &p) {
            let line = string_from(&lines[i]);
            let fields = split_text(line.as_str(), ',');
            assert(ls[i as int] == lines@[i as int]@);
            return Some(fields);
        }
        i += 1;
    }
    None
}

} // verus!

verus! {

/// No check line counts both as passed and as failed: the passed and failed
/// counts together never exceed the number of lines.
pub proof fn statuses_exclusive(ls: Seq<Seq<char>>)
    ensures
        count_ending(ls, ",PASS"@) + count_ending(ls, ",FAIL"@) <= ls.len(),
    decreases ls.len(),
{
    reveal_strlit(",PASS");
    reveal_strlit(",FAIL");
    if ls.len() > 0 {
        statuses_exclusive(ls.drop_last());
        let l = ls.last();
        if ends_with(l, ",PASS"@) && ends_with(l, ",FAIL"@) {
            assert(l.subrange(l.len() - 5, l.len() as int)[4] == 'S');
            assert(l.subrange(l.len() - 5, l.len() as int)[4] == 'L');
        }
    }
}

proof fn lemma_count_ending_positive(ls: Seq<Seq<char>>, suffix: Seq<char>)
    ensures
        count_ending(ls, suffix) > 0 <==> exists|i: int|
            0 <= i < ls.len() && ends_with(#[trigger] ls[i], suffix),
    decreases ls.len(),
{
    if ls.len() > 0 {
        lemma_count_ending_positive(ls.drop_last(), suffix);
        if count_ending(ls.drop_last(), suffix) > 0 {
            let i = choose|i: int| 0 <= i < ls.drop_last().len() && ends_with(#[trigger] ls.drop_last()[i], suffix);
            assert(ends_with(ls[i], suffix));
        }
        if exists|i: int| 0 <= i < ls.len() && ends_with(#[trigger] ls[i], suffix) {
            let i = choose|i: int| 0 <= i < ls.len() && ends_with(#[trigger] ls[i], suffix);
            if i < ls.len() - 1 {
                assert(ends_with(ls.drop_last()[i], suffix));
            }
        }
    }
}

/// A check table has a failed check exactly when its failed count is
/// positive, so the reference guard and the final tally agree.
pub proof fn failed_check_iff_failures_counted(text: Seq<char>)
    ensures
        (exists|i: int| 1 <= i < lines_of(text).len() && ends_with(#[trigger] lines_of(text)[i], ",FAIL"@))
            <==> count_ending(after_header(lines_of(text)), ",FAIL"@) > 0,
{
    let ls = lines_of(text);
    let rest = after_header(ls);
    lemma_count_ending_positive(rest, ",FAIL"@);
    if exists|i: int| 1 <= i < ls.len() && ends_with(#[trigger] ls[i], ",FAIL"@) {
        let i = choose|i: int| 1 <= i < ls.len() && ends_with(#[trigger] ls[i], ",FAIL"@);
        assert(rest[i - 1] == ls[i]);
    }
    if exists|i: int| 0 <= i < rest.len() && ends_with(#[trigger] rest[i], ",FAIL"@) {
        let i = choose|i: int| 0 <= i < rest.len() && ends_with(#[trigger] rest[i], ",FAIL"@);
        assert(rest[i] == ls[i + 1]);
    }
}

} // verus!

verus! {

/// The tally of lines ending with a suffix counts each such line once: it
/// is the number of lines that the filter on the suffix keeps, one more
/// matching line adds exactly one, and the tally of two blocks of lines is
/// the sum of their tallies.
pub proof fn tally_counts_each_matching_line(
    ls: Seq<Seq<char>>,
    more: Seq<Seq<char>>,
    l: Seq<char>,
    suffix: Seq<char>,
)
    ensures
        count_ending(ls, suffix) == ls.filter(|x: Seq<char>| ends_with(x, suffix)).len(),
        count_ending(ls.push(l), suffix) == count_ending(ls, suffix) + (if ends_with(l, suffix) {
            1int
        } else {
            0int
        }),
        count_ending(ls + more, suffix) == count_ending(ls, suffix) + count_ending(more, suffix),
    decreases more.len(),
{
    lemma_count_is_filter(ls, suffix);
    assert(ls.push(l).drop_last() =~= ls);
    if more.len() > 0 {
        tally_counts_each_matching_line(ls, more.drop_last(), l, suffix);
        assert((ls + more).drop_last() =~= ls + more.drop_last());
        assert((ls + more).last() == more.last());
    } else {
        assert(ls + more =~= ls);
    }
}

proof fn lemma_count_is_filter(ls: Seq<Seq<char>>, suffix: Seq<char>)
    ensures
        count_ending(ls, suffix) == ls.filter(|x: Seq<char>| ends_with(x, suffix)).len(),
    decreases ls.len(),
{
    reveal_with_fuel(Seq::filter, 2);
    if ls.len() > 0 {
        lemma_count_is_filter(ls.drop_last(), suffix);
    }
}

/// The tally of a check table: its passed and failed counts are the numbers
/// of lines after the header that end with `,PASS` and with `,FAIL`, each
/// line counted once.
pub proof fn check_tally_counts_lines(text: Seq<char>)
    ensures
        count_ending(after_header(lines_of(text)), ",PASS"@) == after_header(lines_of(text)).filter(
            |x: Seq<char>| ends_with(x, ",PASS"@),
        ).len(),
        count_ending(after_header(lines_of(text)), ",FAIL"@) == after_header(lines_of(text)).filter(
            |x: Seq<char>| ends_with(x, ",FAIL"@),
        ).len(),
{
    lemma_count_is_filter(after_header(lines_of(text)), ",PASS"@);
    lemma_count_is_filter(after_header(lines_of(text)), ",FAIL"@);
}

} // verus!
