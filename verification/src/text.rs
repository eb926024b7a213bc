//! Character-level text model: splitting at a separator, line splitting as
//! `str::lines` does it, blank-line detection, and conversions between
//! `String` and character vectors.
use vstd::prelude::*;

verus! {

/// The views of a sequence of strings.
pub open spec fn views(v: Seq<String>) -> Seq<Seq<char>> {
    v.map_values(|s: String| s@)
}

/// The fields of `s` between occurrences of `sep`, as `str::split(sep)` yields
/// them: always at least one field, empty fields kept.
pub open spec fn split_on(s: Seq<char>, sep: char) -> Seq<Seq<char>>
    decreases s.len(),
{
    if s.len() == 0 {
        seq![Seq::<char>::empty()]
    } else {
        let prev = split_on(s.drop_last(), sep);
        if s.last() == sep {
            prev.push(Seq::<char>::empty())
        } else {
            prev.update(prev.len() - 1, prev.last().push(s.last()))
        }
    }
}

/// The fields joined again, with `sep` between neighbours.
pub open spec fn join(fields: Seq<Seq<char>>, sep: char) -> Seq<char>
    decreases fields.len(),
{
    if fields.len() == 0 {
        Seq::<char>::empty()
    } else if fields.len() == 1 {
        fields[0]
    } else {
        join(fields.drop_last(), sep).push(sep) + fields.last()
    }
}

/// A line with one carriage return removed from its end, if it has one.
pub open spec fn strip_cr(line: Seq<char>) -> Seq<char> {
    if line.len() > 0 && line.last() == '\r' {
        line.drop_last()
    } else {
        line
    }
}

/// The lines of a text as `str::lines` and `BufRead::lines` yield them: split
/// at `\n`, a `\r` directly before a `\n` removed, and no final empty line
/// after a terminating `\n`.
pub open spec fn lines_of(s: Seq<char>) -> Seq<Seq<char>> {
    let parts = split_on(s, '\n');
    parts.drop_last().map_values(|l: Seq<char>| strip_cr(l)) + (if parts.last().len() == 0 {
        Seq::<Seq<char>>::empty()
    } else {
        seq![parts.last()]
    })
}

/// Unicode `White_Space`, the property that `char::is_whitespace` tests.
pub open spec fn is_white_space(c: char) -> bool {
    let u = c as u32;
    (0x09 <= u && u <= 0x0D) || u == 0x20 || u == 0x85 || u == 0xA0 || u == 0x1680 || (0x2000
        <= u && u <= 0x200A) || u == 0x2028 || u == 0x2029 || u == 0x202F || u == 0x205F || u
        == 0x3000
}

/// A line that `trim` reduces to the empty string.
pub open spec fn is_blank(s: Seq<char>) -> bool {
    forall|i: int| 0 <= i < s.len() ==> is_white_space(#[trigger] s[i])
}

/// Whether `c` has the Unicode `White_Space` property.
pub fn is_whitespace_char(c: char) -> (r: bool)
    ensures
        r == is_white_space(c),
{
    let u = c as u32;
    (0x09 <= u && u <= 0x0D) || u == 0x20 || u == 0x85 || u == 0xA0 || u == 0x1680 || (0x2000
        <= u && u <= 0x200A) || u == 0x2028 || u == 0x2029 || u == 0x202F || u == 0x205F || u
        == 0x3000
}

/// Whether every character of `s` is white space.
pub fn chars_blank(s: &Vec<char>) -> (r: bool)
    ensures
        r == is_blank(s@),
{
    let mut i: usize = 0;
    while i < s.len()
        invariant
            i <= s.len(),
            forall|j: int| 0 <= j < i ==> is_white_space(#[trigger] s@[j]),
        decreases s.len() - i,
    {
        if !is_whitespace_char(s[i]) {
            return false;
        }
        i += 1;
    }
    true
}

/// The characters of a string slice.
pub fn to_chars(s: &str) -> (v: Vec<char>)
    ensures
        v@ == s@,
{
    let mut v: Vec<char> = Vec::new();
    for c in it: s.chars()
        invariant
            v@ == it.seq().take(it.index() as int),
    {
        v.push(c);
    }
    proof {
        assert(v@ =~= s@);
    }
    v
}

/// `String::push`: appends one character at the end of the string.
#[verifier::external_body]
fn push_char(s: &mut String, c: char)
    ensures
        final(s)@ == old(s)@.push(c),
{
    s.push(c);
}

/// The string of the first `len` characters of `v`.
pub fn string_from_prefix(v: &Vec<char>, len: usize) -> (s: String)
    requires
        len <= v.len(),
    ensures
        s@ == v@.take(len as int),
{
    let mut s = String::new();
    let mut i: usize = 0;
    while i < len
        invariant
            i <= len <= v.len(),
            s@ == v@.take(i as int),
        decreases len - i,
    {
        push_char(&mut s, v[i]);
        i += 1;
        proof {
            assert(s@ =~= v@.take(i as int));
        }
    }
    s
}

/// The string of the characters of `v`.
pub fn string_from(v: &Vec<char>) -> (s: String)
    ensures
        s@ == v@,
{
    let s = string_from_prefix(v, v.len());
    proof {
        assert(v@.take(v.len() as int) =~= v@);
    }
    s
}

/// Appends the characters of `t` to `s`.
pub fn push_str_chars(s: &mut String, t: &str)
    ensures
        final(s)@ == old(s)@ + t@,
{
    let chars = to_chars(t);
    let ghost start = s@;
    let mut i: usize = 0;
    while i < chars.len()
        invariant
            i <= chars.len(),
            chars@ == t@,
            s@ == start + chars@.take(i as int),
        decreases chars.len() - i,
    {
        push_char(s, chars[i]);
        i += 1;
        proof {
            assert(s@ =~= start + chars@.take(i as int));
        }
    }
    proof {
        assert(chars@.take(chars.len() as int) =~= chars@);
    }
}

/// Character equality of two string slices.
pub fn str_equal(a: &str, b: &str) -> (r: bool)
    ensures
        r == (a@ == b@),
{
    let x = to_chars(a);
    let y = to_chars(b);
    if x.len() != y.len() {
        return false;
    }
    let mut i: usize = 0;
    while i < x.len()
        invariant
            x.len() == y.len(),
            i <= x.len(),
            x@ == a@,
            y@ == b@,
            forall|j: int| 0 <= j < i ==> x@[j] == y@[j],
        decreases x.len() - i,
    {
        if x[i] != y[i] {
            return false;
        }
        i += 1;
    }
    proof {
        assert(x@ =~= y@);
    }
    true
}

/// Whether `s` ends with the characters of `suffix`.
pub open spec fn ends_with(s: Seq<char>, suffix: Seq<char>) -> bool {
    suffix.len() <= s.len() && s.subrange(s.len() - suffix.len(), s.len() as int) == suffix
}

/// Whether `s` starts with the characters of `prefix`.
pub open spec fn starts_with(s: Seq<char>, prefix: Seq<char>) -> bool {
    prefix.len() <= s.len() && s.take(prefix.len() as int) == prefix
}

/// `str::ends_with` on character vectors.
pub fn chars_end_with(s: &Vec<char>, suffix: &Vec<char>) -> (r: bool)
    ensures
        r == ends_with(s@, suffix@),
{
    if suffix.len() > s.len() {
        return false;
    }
    let offset = s.len() - suffix.len();
    let mut i: usize = 0;
    while i < suffix.len()
        invariant
            offset + suffix.len() == s.len(),
            i <= suffix.len(),
            forall|j: int| 0 <= j < i ==> s@[offset + j] == suffix@[j],
        decreases suffix.len() - i,
    {
        if s[offset + i] != suffix[i] {
            assert(s@.subrange(offset as int, s.len() as int)[i as int] != suffix@[i as int]);
            return false;
        }
        i += 1;
    }
    proof {
        assert(s@.subrange(offset as int, s.len() as int) =~= suffix@);
    }
    true
}

/// `str::starts_with` on character vectors.
pub fn chars_start_with(s: &Vec<char>, prefix: &Vec<char>) -> (r: bool)
    ensures
        r == starts_with(s@, prefix@),
{
    if prefix.len() > s.len() {
        return false;
    }
    let mut i: usize = 0;
    while i < prefix.len()
        invariant
            prefix.len() <= s.len(),
            i <= prefix.len(),
            forall|j: int| 0 <= j < i ==> s@[j] == prefix@[j],
        decreases prefix.len() - i,
    {
        if s[i] != prefix[i] {
            assert(s@.take(prefix.len() as int)[i as int] != prefix@[i as int]);
            return false;
        }
        i += 1;
    }
    proof {
        assert(s@.take(prefix.len() as int) =~= prefix@);
    }
    true
}

proof fn lemma_split_nonempty(s: Seq<char>, sep: char)
    ensures
        split_on(s, sep).len() >= 1,
    decreases s.len(),
{
    if s.len() > 0 {
        lemma_split_nonempty(s.drop_last(), sep);
    }
}

/// The fields of `v` at `sep`, as character vectors.
pub fn split_chars(v: &Vec<char>, sep: char) -> (fields: Vec<Vec<char>>)
    ensures
        fields@.map_values(|f: Vec<char>| f@) == split_on(v@, sep),
{
    let mut fields: Vec<Vec<char>> = Vec::new();
    let mut current: Vec<char> = Vec::new();
    let mut i: usize = 0;
    proof {
        assert(v@.take(0) =~= Seq::<char>::empty());
        assert(fields@.map_values(|f: Vec<char>| f@).push(current@) =~= split_on(
            v@.take(0),
            sep,
        ));
    }
    while i < v.len()
        invariant
            i <= v.len(),
            fields@.map_values(|f: Vec<char>| f@).push(current@) == split_on(v@.take(i as int), sep),
        decreases v.len() - i,
    {
        let c = v[i];
        let ghost before = fields@.map_values(|f: Vec<char>| f@).push(current@);
        proof {
            assert(v@.take(i + 1).drop_last() =~= v@.take(i as int));
            assert(v@.take(i + 1).last() == c);
        }
        if c == sep {
            fields.push(current);
            current = Vec::new();
            proof {
                assert(fields@.map_values(|f: Vec<char>| f@).push(current@) =~= before.push(
                    Seq::<char>::empty(),
                ));
            }
        } else {
            current.push(c);
            proof {
                assert(fields@.map_values(|f: Vec<char>| f@).push(current@) =~= before.update(
                    before.len() - 1,
                    before.last().push(c),
                ));
            }
        }
        i += 1;
    }
    fields.push(current);
    proof {
        assert(v@.take(v.len() as int) =~= v@);
    }
    fields
}

/// The fields of `s` at `sep`, as `str::split(sep)` yields them.
pub fn split_text(s: &str, sep: char) -> (fields: Vec<String>)
    ensures
        views(fields@) == split_on(s@, sep),
{
    let chars = to_chars(s);
    let parts = split_chars(&chars, sep);
    let mut fields: Vec<String> = Vec::new();
    let mut i: usize = 0;
    while i < parts.len()
        invariant
            i <= parts.len(),
            fields@.len() == i,
            forall|j: int| 0 <= j < i ==> #[trigger] fields@[j]@ == parts@[j]@,
        decreases parts.len() - i,
    {
        fields.push(string_from(&parts[i]));
        i += 1;
    }
    proof {
        assert(views(fields@) =~= parts@.map_values(|f: Vec<char>| f@));
    }
    fields
}

/// The lines of `v`, as character vectors.
pub fn line_chars(v: &Vec<char>) -> (lines: Vec<Vec<char>>)
    ensures
        lines@.map_values(|l: Vec<char>| l@) == lines_of(v@),
{
    let parts = split_chars(v, '\n');
    proof {
        lemma_split_nonempty(v@, '\n');
    }
    let ghost pv = parts@.map_values(|f: Vec<char>| f@);
    let mut lines: Vec<Vec<char>> = Vec::new();
    let last = parts.len() - 1;
    let mut i: usize = 0;
    while i < last
        invariant
            last + 1 == parts.len(),
            pv == parts@.map_values(|f: Vec<char>| f@),
            i <= last,
            lines@.len() == i,
            forall|j: int| 0 <= j < i ==> #[trigger] lines@[j]@ == strip_cr(pv[j]),
        decreases last - i,
    {
        let part = &parts[i];
        let n = part.len();
        if n > 0 && part[n - 1] == '\r' {
            let mut stripped: Vec<char> = Vec::new();
            let mut k: usize = 0;
            while k < n - 1
                invariant
                    n == part.len(),
                    n > 0,
                    k <= n - 1,
                    stripped@ == part@.take(k as int),
                decreases n - 1 - k,
            {
                stripped.push(part[k]);
                k += 1;
                proof {
                    assert(stripped@ =~= part@.take(k as int));
                }
            }
            proof {
                assert(stripped@ =~= part@.drop_last());
            }
            lines.push(stripped);
        } else {
            lines.push(part.clone());
        }
        i += 1;
    }
    if parts[last].len() > 0 {
        lines.push(parts[last].clone());
    }
    proof {
        let expected = lines_of(v@);
        assert(pv == split_on(v@, '\n'));
        assert(lines@.map_values(|l: Vec<char>| l@) =~= expected);
    }
    lines
}

/// The lines of a text, as `str::lines` yields them.
pub fn text_lines(s: &str) -> (lines: Vec<String>)
    ensures
        views(lines@) == lines_of(s@),
{
    let chars = to_chars(s);
    let parts = line_chars(&chars);
    let mut lines: Vec<String> = Vec::new();
    let mut i: usize = 0;
    while i < parts.len()
        invariant
            i <= parts.len(),
            lines@.len() == i,
            forall|j: int| 0 <= j < i ==> #[trigger] lines@[j]@ == parts@[j]@,
        decreases parts.len() - i,
    {
        lines.push(string_from(&parts[i]));
        i += 1;
    }
    proof {
        assert(views(lines@) =~= parts@.map_values(|l: Vec<char>| l@));
    }
    lines
}

proof fn lemma_join_push_last(fields: Seq<Seq<char>>, sep: char, c: char)
    requires
        fields.len() >= 1,
    ensures
        join(fields.update(fields.len() - 1, fields.last().push(c)), sep) == join(fields, sep).push(
            c,
        ),
{
    let updated = fields.update(fields.len() - 1, fields.last().push(c));
    if fields.len() == 1 {
    } else {
        assert(updated.drop_last() =~= fields.drop_last());
        assert(join(fields, sep).push(c) =~= join(fields.drop_last(), sep).push(sep) + fields.last().push(c));
    }
}

/// Splitting a text at a separator and joining the fields with that separator
/// gives the text back.
pub proof fn split_join_roundtrip(s: Seq<char>, sep: char)
    ensures
        join(split_on(s, sep), sep) == s,
    decreases s.len(),
{
    if s.len() > 0 {
        let prev = split_on(s.drop_last(), sep);
        split_join_roundtrip(s.drop_last(), sep);
        lemma_split_nonempty(s.drop_last(), sep);
        if s.last() == sep {
            let pushed = prev.push(Seq::<char>::empty());
            assert(pushed.drop_last() =~= prev);
            assert(join(pushed, sep) =~= s);
        } else {
            lemma_join_push_last(prev, sep, s.last());
            assert(s.drop_last().push(s.last()) =~= s);
        }
    }
}

/// No field that splitting yields contains the separator.
pub proof fn split_fields_free_of_separator(s: Seq<char>, sep: char)
    ensures
        forall|i: int, j: int|
            0 <= i < split_on(s, sep).len() && 0 <= j < split_on(s, sep)[i].len() ==> split_on(
                s,
                sep,
            )[i][j] != sep,
    decreases s.len(),
{
    if s.len() > 0 {
        split_fields_free_of_separator(s.drop_last(), sep);
        lemma_split_nonempty(s.drop_last(), sep);
        let prev = split_on(s.drop_last(), sep);
        let cur = split_on(s, sep);
        assert forall|i: int, j: int| 0 <= i < cur.len() && 0 <= j < cur[i].len() implies cur[i][j]
            != sep by {
            if s.last() != sep && i == prev.len() - 1 && j == prev.last().len() {
            } else {
                assert(cur[i][j] == prev[i][j]);
            }
        }
    }
}

/// Splitting yields one more field than the separator occurs in the text.
pub open spec fn count_char(s: Seq<char>, c: char) -> nat
    decreases s.len(),
{
    if s.len() == 0 {
        0
    } else {
        count_char(s.drop_last(), c) + (if s.last() == c {
            1nat
        } else {
            0nat
        })
    }
}

/// The number of fields is one more than the number of separators.
pub proof fn split_field_count(s: Seq<char>, sep: char)
    ensures
        split_on(s, sep).len() == count_char(s, sep) + 1,
    decreases s.len(),
{
    if s.len() > 0 {
        split_field_count(s.drop_last(), sep);
    }
}

} // verus!

verus! {

proof fn lemma_split_no_sep(s: Seq<char>, sep: char)
    requires
        forall|i: int| 0 <= i < s.len() ==> s[i] != sep,
    ensures
        split_on(s, sep) == seq![s],
    decreases s.len(),
{
    if s.len() > 0 {
        lemma_split_no_sep(s.drop_last(), sep);
        assert(s.drop_last().push(s.last()) =~= s);
    } else {
        assert(s =~= Seq::<char>::empty());
    }
}

proof fn lemma_split_concat(a: Seq<char>, b: Seq<char>, sep: char)
    ensures
        split_on(a.push(sep) + b, sep) == split_on(a, sep) + split_on(b, sep),
    decreases b.len(),
{
    if b.len() == 0 {
        assert(a.push(sep) + b =~= a.push(sep));
        assert(a.push(sep).drop_last() =~= a);
        assert(split_on(a, sep) + split_on(b, sep) =~= split_on(a, sep).push(Seq::<char>::empty()));
    } else {
        let whole = a.push(sep) + b;
        assert(whole.drop_last() =~= a.push(sep) + b.drop_last());
        lemma_split_concat(a, b.drop_last(), sep);
        lemma_split_nonempty(b.drop_last(), sep);
        let left = split_on(a, sep);
        let right = split_on(b.drop_last(), sep);
        if b.last() == sep {
            assert((left + right).push(Seq::<char>::empty()) =~= left + right.push(Seq::<char>::empty()));
        } else {
            let lr = left + right;
            assert(lr.update(lr.len() - 1, lr.last().push(b.last())) =~= left + right.update(
                right.len() - 1,
                right.last().push(b.last()),
            ));
        }
    }
}

/// Joining fields that hold no separator and splitting the result at that
/// separator gives the fields back.
pub proof fn join_split_roundtrip(fields: Seq<Seq<char>>, sep: char)
    requires
        fields.len() >= 1,
        forall|i: int, j: int|
            0 <= i < fields.len() && 0 <= j < fields[i].len() ==> #[trigger] fields[i][j] != sep,
    ensures
        split_on(join(fields, sep), sep) == fields,
    decreases fields.len(),
{
    if fields.len() == 1 {
        assert forall|j: int| 0 <= j < fields[0].len() implies fields[0][j] != sep by {
            assert(fields[0][j] != sep);
        }
        lemma_split_no_sep(fields[0], sep);
        assert(seq![fields[0]] =~= fields);
    } else {
        let init = fields.drop_last();
        assert forall|i: int, j: int| 0 <= i < init.len() && 0 <= j < init[i].len() implies #[trigger] init[i][j]
            != sep by {
            assert(init[i] == fields[i]);
        }
        join_split_roundtrip(init, sep);
        let l = fields.last();
        assert forall|j: int| 0 <= j < l.len() implies l[j] != sep by {
            assert(fields[fields.len() - 1][j] != sep);
        }
        lemma_split_no_sep(l, sep);
        lemma_split_concat(join(init, sep), l, sep);
        assert(init + seq![l] =~= fields);
    }
}

/// `s` with every `from` replaced by `to`.
pub open spec fn replace_char(s: Seq<char>, from: char, to: char) -> Seq<char> {
    s.map_values(|c: char| if c == from { to } else { c })
}

/// `str::replace` with single characters: every `from` becomes `to`.
pub fn replace_chars(s: &str, from: char, to: char) -> (r: String)
    ensures
        r@ == replace_char(s@, from, to),
{
    let chars = to_chars(s);
    let mut out: Vec<char> = Vec::new();
    let mut i: usize = 0;
    while i < chars.len()
        invariant
            i <= chars.len(),
            out@ == replace_char(chars@.take(i as int), from, to),
        decreases chars.len() - i,
    {
        let c = chars[i];
        out.push(if c == from { to } else { c });
        i += 1;
        proof {
            assert(out@ =~= replace_char(chars@.take(i as int), from, to));
        }
    }
    proof {
        assert(chars@.take(chars.len() as int) =~= chars@);
    }
    string_from(&out)
}

} // verus!
