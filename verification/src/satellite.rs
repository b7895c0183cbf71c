//! Satellite element sets and the choice of the passes to show.
use vstd::prelude::*;
use vstd::set_lib::{lemma_int_range, lemma_len_subset, set_int_range};
use crate::text::{chars_of, lines, split_lines, string_of, trim, trim_chars, views};

verus! {

/// One satellite's element set as the feed gives it: a name line and two element lines.
#[derive(Debug, Clone)]
pub struct TleRecord {
    pub name: String,
    pub line1: String,
    pub line2: String,
}

impl View for TleRecord {
    type V = (Seq<char>, Seq<char>, Seq<char>);

    open spec fn view(&self) -> (Seq<char>, Seq<char>, Seq<char>) {
        (self.name@, self.line1@, self.line2@)
    }
}

/// The element sets of a feed whose lines are `ls`: the lines taken three at a time
/// from the first, the name line trimmed; an incomplete last group is dropped.
pub open spec fn tle_groups(ls: Seq<Seq<char>>) -> Seq<(Seq<char>, Seq<char>, Seq<char>)> {
    Seq::new(ls.len() / 3, |k: int| (trim(ls[3 * k]), ls[3 * k + 1], ls[3 * k + 2]))
}

/// The element sets in the text of a feed.
pub fn tle_records(body: &str) -> (r: Vec<TleRecord>)
    ensures
        r@.map_values(|t: TleRecord| t@) == tle_groups(lines(body@)),
{
    let text = chars_of(body);
    let ls = split_lines(&text);
    let ghost lv = views(ls@);
    let mut r: Vec<TleRecord> = Vec::new();
    let mut i: usize = 0;
    while i < ls.len()
        invariant
            lv == views(ls@),
            lv == lines(body@),
            i == 3 * r@.len(),
            i <= ls.len(),
            forall|k: int|
                0 <= k < r@.len() ==> #[trigger] r@[k]@ == (
                    trim(lv[3 * k]),
                    lv[3 * k + 1],
                    lv[3 * k + 2],
                ),
        ensures
            lv == lines(body@),
            3 * r@.len() <= lv.len() <= 3 * r@.len() + 2,
            forall|k: int|
                0 <= k < r@.len() ==> #[trigger] r@[k]@ == (
                    trim(lv[3 * k]),
                    lv[3 * k + 1],
                    lv[3 * k + 2],
                ),
        decreases ls.len() - i,
    {
        if i + 2 >= ls.len() {
            break;
        }
        let name = trim_chars(&ls[i]);
        let rec = TleRecord {
            name: string_of(name.as_slice()),
            line1: string_of(ls[i + 1].as_slice()),
            line2: string_of(ls[i + 2].as_slice()),
        };
        r.push(rec);
        i += 3;
    }
    assert(r@.len() == lv.len() / 3);
    assert(r@.map_values(|t: TleRecord| t@) =~= tle_groups(lv));
    r
}

/// Pass `a` comes before pass `b`: its start time `(seconds, nanoseconds)` is earlier,
/// or the times are equal and `a` was found first (a stable ordering by start time).
pub open spec fn before(keys: Seq<(i64, u32)>, a: int, b: int) -> bool {
    ||| keys[a].0 < keys[b].0
    ||| keys[a].0 == keys[b].0 && keys[a].1 < keys[b].1
    ||| keys[a].0 == keys[b].0 && keys[a].1 == keys[b].1 && a < b
}

/// The most passes that are shown.
pub const MAX_PASSES: usize = 5;

/// `r` lists the first `MAX_PASSES` passes (or all of them) in order of their start
/// times, as a stable sort by start time followed by taking the first five gives them.
pub open spec fn earliest_first(keys: Seq<(i64, u32)>, r: Seq<usize>) -> bool {
    &&& r.len() == if keys.len() < MAX_PASSES { keys.len() } else { MAX_PASSES as nat }
    &&& forall|i: int| 0 <= i < r.len() ==> #[trigger] r[i] < keys.len()
    &&& forall|i: int, j: int| 0 <= i < j < r.len() ==> before(keys, r[i] as int, r[j] as int)
    &&& forall|x: int, i: int|
        0 <= x < keys.len() && !r.contains(x as usize) && 0 <= i < r.len() ==> #[trigger] before(
            keys,
            r[i] as int,
            x,
        )
}

fn key_before(keys: &Vec<(i64, u32)>, a: usize, b: usize) -> (r: bool)
    requires
        a < keys.len(),
        b < keys.len(),
    ensures
        r == before(keys@, a as int, b as int),
{
    let ka = keys[a];
    let kb = keys[b];
    ka.0 < kb.0 || (ka.0 == kb.0 && ka.1 < kb.1) || (ka.0 == kb.0 && ka.1 == kb.1 && a < b)
}

/// Every index below `n` is in `r`, so `r` has at least `n` entries.
proof fn lemma_covering_is_long(r: Seq<usize>, n: int)
    requires
        0 <= n <= usize::MAX,
        forall|x: int| 0 <= x < n ==> #[trigger] r.contains(x as usize),
    ensures
        r.len() >= n,
{
    let ri = r.map_values(|v: usize| v as int);
    assert forall|x: int| #[trigger] set_int_range(0, n).contains(x) implies ri.to_set().contains(
        x,
    ) by {
        assert(r.contains(x as usize));
        let k = choose|k: int| 0 <= k < r.len() && r[k] == x as usize;
        assert(ri[k] == x);
    }
    lemma_int_range(0, n);
    ri.lemma_cardinality_of_set();
    vstd::seq_lib::seq_to_set_is_finite(ri);
    lemma_len_subset(set_int_range(0, n), ri.to_set());
}

/// Distinct indices below `n` number at most `n`.
proof fn lemma_distinct_is_short(r: Seq<usize>, n: int)
    requires
        0 <= n,
        forall|i: int| 0 <= i < r.len() ==> #[trigger] r[i] < n,
        r.no_duplicates(),
    ensures
        r.len() <= n,
{
    let ri = r.map_values(|v: usize| v as int);
    assert(ri.no_duplicates());
    ri.unique_seq_to_set();
    assert forall|x: int| #[trigger] ri.to_set().contains(x) implies set_int_range(0, n).contains(
        x,
    ) by {
        let k = choose|k: int| 0 <= k < ri.len() && ri[k] == x;
        assert(r[k] < n);
    }
    lemma_int_range(0, n);
    lemma_len_subset(ri.to_set(), set_int_range(0, n));
}

/// The passes listed in `r` are in order, so none is listed twice.
proof fn lemma_sorted_distinct(keys: Seq<(i64, u32)>, r: Seq<usize>)
    requires
        forall|i: int, j: int| 0 <= i < j < r.len() ==> before(keys, r[i] as int, r[j] as int),
    ensures
        r.no_duplicates(),
{
    assert forall|i: int, j: int| 0 <= i < r.len() && 0 <= j < r.len() && i != j implies r[i]
        != r[j] by {
        if i < j {
            assert(before(keys, r[i] as int, r[j] as int));
        } else {
            assert(before(keys, r[j] as int, r[i] as int));
        }
    }
}

/// The indices of the earliest passes, earliest first: the passes are ordered by their
/// start times `keys`, ties kept in the order found, and at most five are kept.
pub fn earliest_passes(keys: &Vec<(i64, u32)>) -> (r: Vec<usize>)
    ensures
        earliest_first(keys@, r@),
{
    let n = keys.len();
    let mut r: Vec<usize> = Vec::new();
    while r.len() < MAX_PASSES
        invariant
            n == keys.len(),
            r.len() <= MAX_PASSES,
            r.len() <= n,
            forall|i: int| 0 <= i < r.len() ==> #[trigger] r@[i] < n,
            forall|i: int, j: int|
                0 <= i < j < r.len() ==> before(keys@, r@[i] as int, r@[j] as int),
            forall|x: int, i: int|
                0 <= x < n && !r@.contains(x as usize) && 0 <= i < r.len() ==> #[trigger] before(
                    keys@,
                    r@[i] as int,
                    x,
                ),
        ensures
            r.len() == MAX_PASSES || r.len() >= n,
            r.len() <= n,
            forall|i: int| 0 <= i < r.len() ==> #[trigger] r@[i] < n,
            forall|i: int, j: int|
                0 <= i < j < r.len() ==> before(keys@, r@[i] as int, r@[j] as int),
            forall|x: int, i: int|
                0 <= x < n && !r@.contains(x as usize) && 0 <= i < r.len() ==> #[trigger] before(
                    keys@,
                    r@[i] as int,
                    x,
                ),
        decreases MAX_PASSES - r.len(),
    {
        let mut best: Option<usize> = None;
        let mut j: usize = 0;
        while j < n
            invariant
                n == keys.len(),
                j <= n,
                r.len() < MAX_PASSES,
                r.len() <= n,
                forall|i: int| 0 <= i < r.len() ==> #[trigger] r@[i] < n,
                forall|i: int, k: int|
                    0 <= i < k < r.len() ==> before(keys@, r@[i] as int, r@[k] as int),
                forall|x: int, i: int|
                    0 <= x < n && !r@.contains(x as usize) && 0 <= i < r.len()
                        ==> #[trigger] before(keys@, r@[i] as int, x),
                best matches Some(b) ==> b < j && !r@.contains(b),
                forall|x: int|
                    0 <= x < j && !#[trigger] r@.contains(x as usize) ==> (best matches Some(b)
                        && (x == b || before(keys@, b as int, x))),
            decreases n - j,
        {
            let fresh = if r.len() == 0 {
                true
            } else {
                key_before(keys, r[r.len() - 1], j)
            };
            proof {
                if fresh && r@.contains(j) {
                    let k = choose|k: int| 0 <= k < r.len() && r@[k] == j;
                    let last = r.len() - 1;
                    if k < last {
                        assert(before(keys@, r@[k] as int, r@[last] as int));
                    }
                }
                if !fresh && !r@.contains(j) {
                    assert(before(keys@, r@[r.len() - 1] as int, j as int));
                }
            }
            if fresh {
                let better = match best {
                    None => true,
                    Some(b) => key_before(keys, j, b),
                };
                if better {
                    best = Some(j);
                }
            }
            j += 1;
        }
        match best {
            None => {
                assert forall|x: int| 0 <= x < n implies #[trigger] r@.contains(x as usize) by {}
                proof {
                    lemma_covering_is_long(r@, n as int);
                }
                break;
            },
            Some(b) => {
                let ghost old_r = r@;
                r.push(b);
                proof {
                    assert(r@[old_r.len() as int] == b);
                    assert forall|x: int| 0 <= x < n && !old_r.contains(x as usize) && x != b
                        implies !#[trigger] r@.contains(x as usize) by {
                        if r@.contains(x as usize) {
                            let k = choose|k: int| 0 <= k < r@.len() && r@[k] == x as usize;
                            if k < old_r.len() {
                                assert(old_r[k] == x);
                            }
                        }
                    }
                    assert forall|x: int| 0 <= x < n && !#[trigger] r@.contains(x as usize) implies !old_r.contains(
                        x as usize,
                    ) && x != b by {
                        if old_r.contains(x as usize) {
                            let k = choose|k: int| 0 <= k < old_r.len() && old_r[k] == x as usize;
                            assert(r@[k] == x);
                        }
                    }
                    lemma_sorted_distinct(keys@, r@);
                    lemma_distinct_is_short(r@, n as int);
                }
            },
        }
    }
    proof {
        lemma_sorted_distinct(keys@, r@);
        lemma_distinct_is_short(r@, n as int);
    }
    r
}

/// The passes listed come in order of their start times (seconds, then nanoseconds),
/// passes starting at the same time in the order found; and no pass left out starts
/// before any pass listed, nor at the same time while found earlier.
pub proof fn law_earliest_passes_by_time(keys: Seq<(i64, u32)>, r: Seq<usize>)
    requires
        earliest_first(keys, r),
    ensures
        forall|i: int, j: int|
            0 <= i < j < r.len() ==> {
                let ki = #[trigger] keys[r[i] as int];
                let kj = #[trigger] keys[r[j] as int];
                &&& ki.0 < kj.0 || (ki.0 == kj.0 && ki.1 <= kj.1)
                &&& ki == kj ==> r[i] < r[j]
            },
        forall|x: int, i: int|
            0 <= x < keys.len() && !r.contains(x as usize) && 0 <= i < r.len() ==> {
                let ki = #[trigger] keys[r[i] as int];
                let kx = #[trigger] keys[x];
                &&& ki.0 < kx.0 || (ki.0 == kx.0 && ki.1 <= kx.1)
                &&& ki == kx ==> r[i] < x
            },
{
    assert forall|i: int, j: int| 0 <= i < j < r.len() implies {
        let ki = #[trigger] keys[r[i] as int];
        let kj = #[trigger] keys[r[j] as int];
        &&& ki.0 < kj.0 || (ki.0 == kj.0 && ki.1 <= kj.1)
        &&& ki == kj ==> r[i] < r[j]
    } by {
        assert(before(keys, r[i] as int, r[j] as int));
    }
    assert forall|x: int, i: int|
        0 <= x < keys.len() && !r.contains(x as usize) && 0 <= i < r.len() implies {
        let ki = #[trigger] keys[r[i] as int];
        let kx = #[trigger] keys[x];
        &&& ki.0 < kx.0 || (ki.0 == kx.0 && ki.1 <= kx.1)
        &&& ki == kx ==> r[i] < x
    } by {
        assert(before(keys, r[i] as int, x));
    }
}

/// A pass that starts at an earlier second comes first.
pub proof fn law_earlier_second_comes_first(keys: Seq<(i64, u32)>, a: int, b: int)
    requires
        0 <= a < keys.len(),
        0 <= b < keys.len(),
        keys[a].0 < keys[b].0,
    ensures
        before(keys, a, b),
        !before(keys, b, a),
{
}

} // verus!
