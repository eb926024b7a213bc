//! Confirmed switches of a time-resolved preference label: a label counts as
//! established where it holds over a window of saved times, and a switch is
//! recorded where the established label changes.
use vstd::prelude::*;
use crate::text::views;

verus! {

/// The number of consecutive saved times a label must hold to count.
pub const CONFIRM_WINDOW: usize = 5;

/// The label at `i` is defined and holds over the window starting at `i`.
pub open spec fn stable_at(ls: Seq<Seq<char>>, i: int) -> bool {
    &&& 0 <= i
    &&& i + CONFIRM_WINDOW <= ls.len()
    &&& ls[i] != "undefined"@
    &&& forall|k: int| i <= k < i + CONFIRM_WINDOW ==> #[trigger] ls[k] == ls[i]
}

/// The established label and the switches found among the windows starting
/// before `upto`; a switch is (window start, previous label, new label).
pub open spec fn scan_switches(ls: Seq<Seq<char>>, upto: int) -> (
    Option<Seq<char>>,
    Seq<(int, Seq<char>, Seq<char>)>,
)
    decreases upto,
{
    if upto <= 0 {
        (None, Seq::empty())
    } else {
        let (stable, switches) = scan_switches(ls, upto - 1);
        let i = upto - 1;
        if !stable_at(ls, i) {
            (stable, switches)
        } else {
            match stable {
                None => (Some(ls[i]), switches),
                Some(previous) => if previous != ls[i] {
                    (Some(ls[i]), switches.push((i, previous, ls[i])))
                } else {
                    (stable, switches)
                },
            }
        }
    }
}

/// The produced switches carry the times and labels of the scanned ones.
pub open spec fn switches_match<T>(
    out: Seq<(T, String, String)>,
    times: Seq<T>,
    sw: Seq<(int, Seq<char>, Seq<char>)>,
) -> bool {
    &&& out.len() == sw.len()
    &&& forall|k: int|
        0 <= k < sw.len() ==> {
            &&& #[trigger] out[k].0 == times[sw[k].0]
            &&& out[k].1@ == sw[k].1
            &&& out[k].2@ == sw[k].2
        }
}

proof fn lemma_scan_prefix(ls: Seq<Seq<char>>, j: int, m: int)
    requires
        j <= m,
    ensures
        scan_switches(ls, j).1.len() <= scan_switches(ls, m).1.len(),
        forall|k: int|
            0 <= k < scan_switches(ls, j).1.len() ==> #[trigger] scan_switches(ls, m).1[k]
                == scan_switches(ls, j).1[k],
    decreases m - j,
{
    if j < m {
        lemma_scan_prefix(ls, j, m - 1);
        if m - 1 >= 0 {
            let a = scan_switches(ls, m - 1).1;
            let b = scan_switches(ls, m).1;
            assert forall|k: int| 0 <= k < a.len() implies #[trigger] b[k] == a[k] by {}
        }
    }
}

/// The switches of the whole label series.
pub open spec fn switches_of(ls: Seq<Seq<char>>) -> Seq<(int, Seq<char>, Seq<char>)> {
    scan_switches(ls, ls.len() - CONFIRM_WINDOW + 1).1
}

fn label_stable(labels: &Vec<String>, i: usize) -> (r: bool)
    requires
        i + CONFIRM_WINDOW <= labels@.len(),
    ensures
        r == stable_at(views(labels@), i as int),
{
    let ghost ls = views(labels@);
    let undefined = String::from_str("undefined");
    proof {
        reveal_strlit("undefined");
    }
    if labels[i] == undefined {
        return false;
    }
    let n = labels.len();
    let end = i + CONFIRM_WINDOW;
    let mut k: usize = i;
    while k < end
        invariant
            end == i + CONFIRM_WINDOW,
            i <= k <= i + CONFIRM_WINDOW,
            i + CONFIRM_WINDOW <= labels@.len(),
            ls == views(labels@),
            forall|j: int| i <= j < k ==> #[trigger] ls[j] == ls[i as int],
        decreases end - k,
    {
        if labels[k] != labels[i] {
            assert(ls[k as int] != ls[i as int]);
            return false;
        }
        k += 1;
    }
    true
}

/// The confirmed switches of a label series, each with the time of the
/// window where the new label is established, the previous established label
/// and the new one. A label is established where it is not `undefined` and
/// holds over five consecutive saved times. A series shorter than the window
/// whose first label is `undefined` has no switches; any other short series
/// is left out.
pub fn confirmed_switches<T: Copy>(times: &Vec<T>, labels: &Vec<String>) -> (r: Vec<(T, String, String)>)
    requires
        labels@.len() >= CONFIRM_WINDOW || (labels@.len() >= 1 && labels@[0]@ == "undefined"@),
        forall|k: int|
            0 <= k < switches_of(views(labels@)).len() ==> #[trigger] switches_of(views(labels@))[k].0
                < times@.len(),
    ensures
        r@.len() == switches_of(views(labels@)).len(),
        forall|k: int|
            0 <= k < r@.len() ==> {
                let s = #[trigger] switches_of(views(labels@))[k];
                &&& r@[k].0 == times@[s.0]
                &&& r@[k].1@ == s.1
                &&& r@[k].2@ == s.2
            },
{
    let ghost ls = views(labels@);
    let mut stable: Option<String> = None;
    let mut switches: Vec<(T, String, String)> = Vec::new();
    let n = labels.len();
    if n < CONFIRM_WINDOW {
        return switches;
    }
    let last = n - CONFIRM_WINDOW;
    let mut index: usize = 0;
    while index <= last
        invariant
            n == labels@.len(),
            last + CONFIRM_WINDOW == n,
            forall|k: int|
                0 <= k < switches_of(ls).len() ==> #[trigger] switches_of(ls)[k].0 < times@.len(),
            index <= last + 1,
            ls == views(labels@),
            scan_switches(ls, index as int).0 == match stable {
                None => None,
                Some(s) => Some(s@),
            },
            switches_match(switches@, times@, scan_switches(ls, index as int).1),
        decreases last + 1 - index,
    {
        let ghost before = switches@;
        let ghost st0 = scan_switches(ls, index as int).0;
        let ghost sw0 = scan_switches(ls, index as int).1;
        let is_stable = label_stable(labels, index);
        if is_stable {
            let candidate = &labels[index];
            assert(candidate@ == ls[index as int]);
            match &stable {
                None => {
                    stable = Some(candidate.clone());
                },
                Some(previous) => {
                    if *previous != *candidate {
                        proof {
                            lemma_scan_prefix(ls, index + 1, last + 1);
                            assert(scan_switches(ls, index + 1).1.last().0 == index);
                            assert(switches_of(ls)[sw0.len() as int] == scan_switches(ls, index + 1).1[sw0.len() as int]);
                        }
                        let switch = (times[index], previous.clone(), candidate.clone());
                        assert(st0 == Some(previous@));
                        switches.push(switch);
                        assert(switches@ == before.push(switch));
                        stable = Some(candidate.clone());
                        proof {
                            let sw1 = sw0.push((index as int, st0.unwrap(), ls[index as int]));
                            assert(scan_switches(ls, index + 1).1 == sw1);
                            assert forall|k: int| 0 <= k < sw1.len() implies {
                                &&& #[trigger] switches@[k].0 == times@[sw1[k].0]
                                &&& switches@[k].1@ == sw1[k].1
                                &&& switches@[k].2@ == sw1[k].2
                            } by {
                                if k < sw0.len() {
                                    assert(switches@[k] == before[k]);
                                    assert(before[k].0 == times@[sw0[k].0]);
                                    assert(sw1[k] == sw0[k]);
                                } else {
                                    assert(switches@[k] == switch);
                                }
                            }
                        }
                    }
                },
            }
        }
        proof {
            let sw1 = scan_switches(ls, index + 1).1;
            if !is_stable || st0 is None || st0 == Some(ls[index as int]) {
                assert(sw1 == sw0);
                assert(switches@ == before);
                assert forall|k: int| 0 <= k < sw0.len() implies {
                    &&& #[trigger] switches@[k].0 == times@[sw0[k].0]
                    &&& switches@[k].1@ == sw0[k].1
                    &&& switches@[k].2@ == sw0[k].2
                } by {
                    assert(before[k].0 == times@[sw0[k].0]);
                }
                assert(switches@.len() == sw1.len());
                assert(switches_match(switches@, times@, sw1));
            } else {
                assert(switches_match(switches@, times@, sw1));
            }
        }
        index += 1;
    }
    switches
}

/// Every recorded switch changes the label, starts a window over which its
/// new label holds, lies after the previous switch and leaves from the label
/// that the previous switch established; the last switch's new label is the
/// one established at the end.
pub proof fn switches_chain(ls: Seq<Seq<char>>, upto: int)
    ensures
        ({
            let (st, sw) = scan_switches(ls, upto);
            &&& forall|k: int|
                0 <= k < sw.len() ==> {
                    &&& (#[trigger] sw[k]).1 != sw[k].2
                    &&& stable_at(ls, sw[k].0)
                    &&& ls[sw[k].0] == sw[k].2
                    &&& sw[k].0 < upto
                }
            &&& forall|k: int|
                0 <= k < sw.len() - 1 ==> #[trigger] sw[k].0 < sw[k + 1].0 && sw[k].2 == sw[k
                    + 1].1
            &&& sw.len() > 0 ==> st == Some(sw.last().2)
        }),
    decreases upto,
{
    if upto > 0 {
        switches_chain(ls, upto - 1);
        let (st0, sw0) = scan_switches(ls, upto - 1);
        let (st, sw) = scan_switches(ls, upto);
        let i = upto - 1;
        if stable_at(ls, i) {
            if let Some(previous) = st0 {
                if previous != ls[i] {
                    assert forall|k: int| 0 <= k < sw.len() - 1 implies #[trigger] sw[k].0 < sw[k
                        + 1].0 && sw[k].2 == sw[k + 1].1 by {
                        if k < sw0.len() - 1 {
                            assert(sw[k] == sw0[k] && sw[k + 1] == sw0[k + 1]);
                        } else {
                            assert(sw[k] == sw0[k]);
                        }
                    }
                    assert forall|k: int| 0 <= k < sw.len() implies {
                        &&& (#[trigger] sw[k]).1 != sw[k].2
                        &&& stable_at(ls, sw[k].0)
                        &&& ls[sw[k].0] == sw[k].2
                        &&& sw[k].0 < upto
                    } by {
                        if k < sw0.len() {
                            assert(sw[k] == sw0[k]);
                        }
                    }
                }
            }
        }
    }
}

} // verus!

verus! {

/// The label `label` holds over the window of saved times starting at `i`.
pub open spec fn holds_over(ls: Seq<Seq<char>>, i: int, label: Seq<char>) -> bool {
    &&& 0 <= i
    &&& i + CONFIRM_WINDOW <= ls.len()
    &&& forall|t: int| i <= t < i + CONFIRM_WINDOW ==> #[trigger] ls[t] == label
}

proof fn lemma_scan_sources(ls: Seq<Seq<char>>, upto: int)
    ensures
        ({
            let (st, sw) = scan_switches(ls, upto);
            &&& st is Some ==> exists|m: int|
                0 <= m < upto && #[trigger] stable_at(ls, m) && ls[m] == st.unwrap()
            &&& forall|k: int|
                0 <= k < sw.len() ==> exists|m: int|
                    0 <= m < (#[trigger] sw[k]).0 && stable_at(ls, m) && ls[m] == sw[k].1
        }),
    decreases upto,
{
    if upto > 0 {
        lemma_scan_sources(ls, upto - 1);
        let (st0, sw0) = scan_switches(ls, upto - 1);
        let (st, sw) = scan_switches(ls, upto);
        let i = upto - 1;
        switches_chain(ls, upto - 1);
        if st is Some {
            if stable_at(ls, i) {
                assert(stable_at(ls, i) && ls[i] == st.unwrap());
            } else {
                let m = choose|m: int| 0 <= m < upto - 1 && #[trigger] stable_at(ls, m) && ls[m] == st0.unwrap();
                assert(0 <= m < upto && stable_at(ls, m) && ls[m] == st.unwrap());
            }
        }
        assert forall|k: int| 0 <= k < sw.len() implies exists|m: int|
            0 <= m < (#[trigger] sw[k]).0 && stable_at(ls, m) && ls[m] == sw[k].1 by {
            if k < sw0.len() {
                assert(sw[k] == sw0[k]);
                let m = choose|m: int| 0 <= m < (#[trigger] sw0[k]).0 && stable_at(ls, m) && ls[m] == sw0[k].1;
                assert(0 <= m < sw[k].0 && stable_at(ls, m) && ls[m] == sw[k].1);
            } else {
                assert(sw[k] == (i, st0.unwrap(), ls[i]));
                let m = choose|m: int| 0 <= m < upto - 1 && #[trigger] stable_at(ls, m) && ls[m] == st0.unwrap();
                assert(0 <= m < sw[k].0 && stable_at(ls, m) && ls[m] == sw[k].1);
            }
        }
    }
}

/// Every recorded switch goes between two different labels, neither of them
/// `undefined`; the new label holds over the window that starts at the
/// switch, and the previous label held over some window that started before.
pub proof fn switches_are_confirmed_changes(ls: Seq<Seq<char>>)
    ensures
        forall|k: int|
            0 <= k < switches_of(ls).len() ==> {
                let s = #[trigger] switches_of(ls)[k];
                &&& s.1 != "undefined"@
                &&& s.2 != "undefined"@
                &&& s.1 != s.2
                &&& holds_over(ls, s.0, s.2)
                &&& exists|m: int| 0 <= m < s.0 && #[trigger] holds_over(ls, m, s.1)
            },
{
    let upto = ls.len() - CONFIRM_WINDOW + 1;
    switches_chain(ls, upto);
    lemma_scan_sources(ls, upto);
    let sw = switches_of(ls);
    assert forall|k: int| 0 <= k < sw.len() implies {
        let s = #[trigger] sw[k];
        &&& s.1 != "undefined"@
        &&& s.2 != "undefined"@
        &&& s.1 != s.2
        &&& holds_over(ls, s.0, s.2)
        &&& exists|m: int| 0 <= m < s.0 && #[trigger] holds_over(ls, m, s.1)
    } by {
        let s = sw[k];
        assert(stable_at(ls, s.0));
        let m = choose|m: int| 0 <= m < (#[trigger] sw[k]).0 && stable_at(ls, m) && ls[m] == sw[k].1;
        assert(holds_over(ls, m, s.1));
    }
}

proof fn lemma_some_persists(ls: Seq<Seq<char>>, a: int, b: int)
    requires
        a <= b,
        scan_switches(ls, a).0 is Some,
    ensures
        scan_switches(ls, b).0 is Some,
    decreases b - a,
{
    if a < b {
        lemma_some_persists(ls, a, b - 1);
    }
}

proof fn lemma_change_records_switch(ls: Seq<Seq<char>>, a: int, b: int)
    requires
        0 <= a <= b,
        scan_switches(ls, a).0 is Some,
        scan_switches(ls, a).0 != scan_switches(ls, b).0,
    ensures
        exists|k: int|
            0 <= k < scan_switches(ls, b).1.len() && a <= (#[trigger] scan_switches(ls, b).1[k]).0
                < b,
    decreases b - a,
{
    let c = b - 1;
    lemma_some_persists(ls, a, c);
    let (st0, sw0) = scan_switches(ls, c);
    let (st, sw) = scan_switches(ls, b);
    if st0 != st {
        assert(sw[sw.len() - 1].0 == c);
    } else {
        lemma_change_records_switch(ls, a, c);
        let k = choose|k: int| 0 <= k < sw0.len() && a <= (#[trigger] sw0[k]).0 < c;
        lemma_scan_prefix(ls, c, b);
        assert(sw[k] == sw0[k]);
    }
}

/// No change of established label is missed: where one label other than
/// `undefined` holds over a window starting at `i` and a different one over a
/// window starting at a later `j`, a switch is recorded at some start in
/// `(i, j]`.
pub proof fn label_changes_are_recorded(ls: Seq<Seq<char>>, i: int, j: int, x: Seq<char>, y: Seq<char>)
    requires
        i < j,
        holds_over(ls, i, x),
        holds_over(ls, j, y),
        x != "undefined"@,
        y != "undefined"@,
        x != y,
    ensures
        exists|k: int|
            0 <= k < switches_of(ls).len() && i < (#[trigger] switches_of(ls)[k]).0 <= j,
{
    assert(ls[i] == x);
    assert(ls[j] == y);
    assert(stable_at(ls, i));
    assert(stable_at(ls, j));
    assert(scan_switches(ls, i + 1).0 == Some(x));
    assert(scan_switches(ls, j + 1).0 == Some(y));
    lemma_change_records_switch(ls, i + 1, j + 1);
    let upto = ls.len() - CONFIRM_WINDOW + 1;
    let sw = scan_switches(ls, j + 1).1;
    let k = choose|k: int| 0 <= k < sw.len() && i + 1 <= (#[trigger] sw[k]).0 < j + 1;
    lemma_scan_prefix(ls, j + 1, upto);
    assert(switches_of(ls)[k] == sw[k]);
}

} // verus!
