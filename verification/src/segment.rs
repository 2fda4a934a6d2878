//! The run segmenter: partitions `[0, len)` into paint runs at every range
//! boundary, and classifies each run against the highlight and code ranges.

use vstd::prelude::*;

verus! {

/// One paint run: a nonempty range of text, the index of the highlight range
/// fully covering it (if any), and whether a code range fully covers it.
#[derive(Clone, Copy, Debug, PartialEq, Eq)]
pub struct Run {
    pub start: usize,
    pub end: usize,
    pub highlight: Option<usize>,
    pub code: bool,
}

/// Whether `x` occurs in `s`.
pub open spec fn contains_val(s: Seq<usize>, x: int) -> bool {
    exists|i: int| 0 <= i < s.len() && s[i] == x
}

/// Strictly increasing, hence duplicate-free.
pub open spec fn sorted_unique(s: Seq<usize>) -> bool {
    forall|i: int, j: int| 0 <= i < j < s.len() ==> s[i] < s[j]
}

/// The endpoints every partition must break at: the ends of the text and
/// every endpoint of a highlight or code range.
pub open spec fn is_breakpoint(
    len: int,
    hs: Seq<(usize, usize)>,
    cs: Seq<(usize, usize)>,
    x: int,
) -> bool {
    x == 0 || x == len || (exists|j: int|
        0 <= j < hs.len() && ((#[trigger] hs[j]).0 == x || hs[j].1 == x)) || (exists|j: int|
        0 <= j < cs.len() && ((#[trigger] cs[j]).0 == x || cs[j].1 == x))
}

/// A range list fit for segmentation: each range within the text and in
/// order, ranges not overlapping.
pub open spec fn ranges_wf(rs: Seq<(usize, usize)>, len: int) -> bool {
    &&& forall|j: int| 0 <= j < rs.len() ==> (#[trigger] rs[j]).0 <= rs[j].1 <= len
    &&& forall|j: int| 0 <= j < rs.len() - 1 ==> (#[trigger] rs[j]).1 <= rs[j + 1].0
}

/// `[a, b)` lies fully inside range `j` of `rs`.
pub open spec fn covered_by(rs: Seq<(usize, usize)>, j: int, a: int, b: int) -> bool {
    0 <= j < rs.len() && rs[j].0 <= a && b <= rs[j].1
}

/// Inserts `x` into a sorted duplicate-free vector, keeping it so.
fn insert_sorted(v: &mut Vec<usize>, x: usize)
    requires
        sorted_unique(old(v)@),
    ensures
        sorted_unique(final(v)@),
        forall|y: int| contains_val(final(v)@, y) <==> contains_val(old(v)@, y) || y == x,
{
    let mut i: usize = 0;
    while i < v.len() && v[i as usize] < x
        invariant
            i <= v@.len(),
            v@ == old(v)@,
            sorted_unique(v@),
            forall|k: int| 0 <= k < i ==> v@[k] < x,
        decreases v@.len() - i,
    {
        i += 1;
    }
    if i < v.len() {
        if v[i] == x {
            proof {
                assert(contains_val(v@, x as int));
            }
            return ;
        }
    }
    let ghost prev = v@;
    v.insert(i, x);
    proof {
        assert(forall|k: int| 0 <= k < i ==> v@[k] == prev[k]);
        assert(forall|k: int| i < k < v@.len() ==> v@[k] == prev[k - 1]);
        assert(v@[i as int] == x);
        assert(sorted_unique(v@)) by {
            assert(forall|k: int| i <= k < prev.len() ==> x <= #[trigger] prev[k]) by {
                assert(forall|k: int|
                    i < k < prev.len() ==> prev[i as int] < #[trigger] prev[k]);
            }
        }
        assert forall|y: int| contains_val(v@, y) implies contains_val(prev, y) || y == x by {
            let k = choose|k: int| 0 <= k < v@.len() && v@[k] == y;
            if k < i {
                assert(prev[k] == y);
            } else if k > i {
                assert(prev[k - 1] == y);
            }
        }
        assert forall|y: int| contains_val(prev, y) || y == x implies contains_val(v@, y) by {
            if contains_val(prev, y) {
                let k = choose|k: int| 0 <= k < prev.len() && prev[k] == y;
                if k < i {
                    assert(v@[k] == y);
                } else {
                    assert(v@[k + 1] == y);
                }
            } else {
                assert(v@[i as int] == y);
            }
        }
    }
}


/// The first highlight range fully covering `[a, b)`, if any.
fn classify_highlight(highlights: &Vec<(usize, usize)>, a: usize, b: usize) -> (hi: Option<usize>)
    requires
        a < b,
    ensures
        match hi {
            Some(jj) => covered_by(highlights@, jj as int, a as int, b as int),
            None => forall|jj: int| !covered_by(highlights@, jj, a as int, b as int),
        },
{
    let mut hi: Option<usize> = None;
    let mut m: usize = 0;
    while m < highlights.len()
        invariant
            m <= highlights@.len(),
            match hi {
                Some(jj) => covered_by(highlights@, jj as int, a as int, b as int),
                None => forall|jj: int|
                    0 <= jj < m ==> !covered_by(highlights@, jj, a as int, b as int),
            },
        decreases highlights@.len() - m,
    {
        if hi.is_none() {
            let (ha, hb) = highlights[m];
            if ha <= a && b <= hb {
                hi = Some(m);
            }
        }
        m += 1;
    }
    hi
}

/// Whether some code range fully covers `[a, b)`.
fn classify_code(code_ranges: &Vec<(usize, usize)>, a: usize, b: usize) -> (r: bool)
    requires
        a < b,
    ensures
        r <==> exists|jj: int| covered_by(code_ranges@, jj, a as int, b as int),
{
    let mut is_code = false;
    let mut m: usize = 0;
    while m < code_ranges.len()
        invariant
            m <= code_ranges@.len(),
            is_code ==> exists|jj: int| covered_by(code_ranges@, jj, a as int, b as int),
            !is_code ==> forall|jj: int|
                0 <= jj < m ==> !covered_by(code_ranges@, jj, a as int, b as int),
        decreases code_ranges@.len() - m,
    {
        if !is_code {
            let (ca, cb) = code_ranges[m];
            if ca <= a && b <= cb {
                is_code = true;
                proof {
                    assert(covered_by(code_ranges@, m as int, a as int, b as int));
                }
            }
        }
        m += 1;
    }
    is_code
}

/// Collects the sorted, duplicate-free breakpoints of a segmentation.
fn collect_breakpoints(len: usize, highlights: &Vec<(usize, usize)>, code_ranges: &Vec<
    (usize, usize),
>) -> (bp: Vec<usize>)
    requires
        ranges_wf(highlights@, len as int),
        ranges_wf(code_ranges@, len as int),
    ensures
        sorted_unique(bp@),
        forall|y: int|
            contains_val(bp@, y) <==> is_breakpoint(len as int, highlights@, code_ranges@, y),
        forall|k: int| 0 <= k < bp@.len() ==> 0 <= #[trigger] bp@[k] <= len,
        bp@.len() >= 2 || len == 0,
        bp@.len() >= 1,
        bp@[0] == 0,
        bp@.last() == len,
{
    let ghost hs = highlights@;
    let ghost cs = code_ranges@;
    let mut bp: Vec<usize> = Vec::new();
    bp.push(0);
    proof {
        assert(sorted_unique(bp@));
        assert(bp@[0] == 0);
        assert forall|y: int| contains_val(bp@, y) implies y == 0 by {
            let k = choose|k: int| 0 <= k < bp@.len() && bp@[k] == y;
        }
        assert(contains_val(bp@, 0));
    }
    insert_sorted(&mut bp, len);
    let mut j: usize = 0;
    while j < highlights.len()
        invariant
            j <= hs.len(),
            hs == highlights@,
            cs == code_ranges@,
            sorted_unique(bp@),
            forall|y: int|
                contains_val(bp@, y) <==> (y == 0 || y == len || (exists|jj: int|
                    0 <= jj < j && ((#[trigger] hs[jj]).0 == y || hs[jj].1 == y))),
        decreases hs.len() - j,
    {
        let (a, b) = highlights[j];
        insert_sorted(&mut bp, a);
        insert_sorted(&mut bp, b);
        proof {
            assert(hs[j as int].0 == a && hs[j as int].1 == b);
        }
        j += 1;
    }
    let mut j2: usize = 0;
    while j2 < code_ranges.len()
        invariant
            j2 <= cs.len(),
            hs == highlights@,
            cs == code_ranges@,
            sorted_unique(bp@),
            forall|y: int|
                contains_val(bp@, y) <==> (y == 0 || y == len || (exists|jj: int|
                    0 <= jj < hs.len() && ((#[trigger] hs[jj]).0 == y || hs[jj].1 == y)) || (
                exists|jj: int|
                    0 <= jj < j2 && ((#[trigger] cs[jj]).0 == y || cs[jj].1 == y))),
        decreases cs.len() - j2,
    {
        let (a, b) = code_ranges[j2];
        insert_sorted(&mut bp, a);
        insert_sorted(&mut bp, b);
        proof {
            assert(cs[j2 as int].0 == a && cs[j2 as int].1 == b);
        }
        j2 += 1;
    }
    proof {
        assert(forall|y: int| contains_val(bp@, y) <==> is_breakpoint(len as int, hs, cs, y));
        assert(forall|y: int| contains_val(bp@, y) ==> 0 <= y <= len) by {
            assert(forall|jj: int|
                0 <= jj < hs.len() ==> (#[trigger] hs[jj]).0 <= hs[jj].1 <= len);
            assert(forall|jj: int|
                0 <= jj < cs.len() ==> (#[trigger] cs[jj]).0 <= cs[jj].1 <= len);
        }
        assert(forall|k: int| 0 <= k < bp@.len() ==> 0 <= #[trigger] bp@[k] <= len) by {
            assert(forall|k: int|
                0 <= k < bp@.len() ==> contains_val(bp@, #[trigger] bp@[k] as int));
        }
        assert(contains_val(bp@, 0) && contains_val(bp@, len as int));
        if len > 0 {
            let k0 = choose|k: int| 0 <= k < bp@.len() && bp@[k] == 0;
            let k1 = choose|k: int| 0 <= k < bp@.len() && bp@[k] == len as int;
            assert(k0 != k1);
            assert(bp@.len() >= 2);
        }
        let k0 = choose|k: int| 0 <= k < bp@.len() && bp@[k] == 0;
        let k1 = choose|k: int| 0 <= k < bp@.len() && bp@[k] == len as int;
        if k0 != 0 {
            assert(bp@[0] < bp@[k0]);
        }
        if k1 != bp@.len() - 1 {
            assert(bp@[k1] < bp@.last());
        }
        assert(bp@[0] == 0 && bp@.last() == len);
    }
    bp
}

/// Partitions `[0, len)` into runs broken exactly at the endpoints of the
/// highlight and code ranges, and labels each run with the highlight range
/// that fully covers it and whether a code range does.
///
/// The runs cover `[0, len)` exactly once, in order, without gaps, overlaps
/// or empty runs; every range endpoint inside the text starts a run; a run
/// is labeled with a highlight or code range exactly when it lies fully
/// inside one.
pub fn segment_runs(len: usize, highlights: &Vec<(usize, usize)>, code_ranges: &Vec<
    (usize, usize),
>) -> (runs: Vec<Run>)
    requires
        ranges_wf(highlights@, len as int),
        ranges_wf(code_ranges@, len as int),
    ensures
        len == 0 ==> runs@.len() == 0,
        len > 0 ==> runs@.len() > 0 && runs@[0].start == 0 && runs@.last().end == len,
        forall|k: int| 0 <= k < runs@.len() - 1 ==> (#[trigger] runs@[k]).end == runs@[k + 1].start,
        forall|k: int| 0 <= k < runs@.len() ==> (#[trigger] runs@[k]).start < runs@[k].end,
        forall|k: int|
            0 <= k < runs@.len() ==> is_breakpoint(
                len as int,
                highlights@,
                code_ranges@,
                (#[trigger] runs@[k]).start as int,
            ) && is_breakpoint(len as int, highlights@, code_ranges@, runs@[k].end as int),
        forall|x: int|
            0 < x < len && is_breakpoint(len as int, highlights@, code_ranges@, x) ==> exists|k: int|
                0 <= k < runs@.len() && (#[trigger] runs@[k]).start == x,
        forall|k: int|
            0 <= k < runs@.len() ==> (match (#[trigger] runs@[k]).highlight {
                Some(j) => covered_by(
                    highlights@,
                    j as int,
                    runs@[k].start as int,
                    runs@[k].end as int,
                ),
                None => forall|j: int|
                    !covered_by(highlights@, j, runs@[k].start as int, runs@[k].end as int),
            }),
        forall|k: int|
            0 <= k < runs@.len() ==> ((#[trigger] runs@[k]).code <==> exists|j: int|
                covered_by(code_ranges@, j, runs@[k].start as int, runs@[k].end as int)),
{
    let ghost hs = highlights@;
    let ghost cs = code_ranges@;
    let bp = collect_breakpoints(len, highlights, code_ranges);
    let mut runs: Vec<Run> = Vec::new();
    if len == 0 {
        return runs;
    }
    let total = bp.len() - 1;
    let mut w: usize = 0;
    while w < total
        invariant
            hs == highlights@,
            cs == code_ranges@,
            sorted_unique(bp@),
            forall|y: int| contains_val(bp@, y) <==> is_breakpoint(len as int, hs, cs, y),
            forall|k: int| 0 <= k < bp@.len() ==> 0 <= #[trigger] bp@[k] <= len,
            bp@.len() >= 2,
            bp@[0] == 0,
            bp@.last() == len,
            total == bp@.len() - 1,
            w <= total,
            runs@.len() == w,
            forall|k: int|
                0 <= k < w ==> (#[trigger] runs@[k]).start == bp@[k] && runs@[k].end == bp@[k + 1],
            forall|k: int|
                0 <= k < runs@.len() ==> (match (#[trigger] runs@[k]).highlight {
                    Some(jj) => covered_by(
                        hs,
                        jj as int,
                        runs@[k].start as int,
                        runs@[k].end as int,
                    ),
                    None => forall|jj: int|
                        !covered_by(hs, jj, runs@[k].start as int, runs@[k].end as int),
                }),
            forall|k: int|
                0 <= k < runs@.len() ==> ((#[trigger] runs@[k]).code <==> exists|jj: int|
                    covered_by(cs, jj, runs@[k].start as int, runs@[k].end as int)),
        decreases total - w,
    {
        let a = bp[w];
        let b = bp[w + 1];
        proof {
            assert(a < b);
        }
        let hi = classify_highlight(highlights, a, b);
        let is_code = classify_code(code_ranges, a, b);
        let ghost prev_runs = runs@;
        runs.push(Run { start: a, end: b, highlight: hi, code: is_code });
        proof {
            assert forall|k: int|
                0 <= k < runs@.len() implies ((#[trigger] runs@[k]).code <==> exists|jj: int|
                covered_by(cs, jj, runs@[k].start as int, runs@[k].end as int)) by {
                if k < prev_runs.len() {
                    assert(runs@[k] == prev_runs[k]);
                    if prev_runs[k].code {
                        let jj = choose|jj: int|
                            covered_by(cs, jj, prev_runs[k].start as int, prev_runs[k].end as int);
                        assert(covered_by(cs, jj, runs@[k].start as int, runs@[k].end as int));
                    }
                } else {
                    assert(runs@[k] == (Run { start: a, end: b, highlight: hi, code: is_code }));
                    if is_code {
                        let jj = choose|jj: int| covered_by(cs, jj, a as int, b as int);
                        assert(covered_by(cs, jj, runs@[k].start as int, runs@[k].end as int));
                    }
                }
            }
        }
        w += 1;
    }
    proof {
        assert(runs@.len() == bp@.len() - 1);
        assert(runs@[0].start == bp@[0]);
        assert(runs@.last().end == bp@.last());
        assert forall|k: int| 0 <= k < runs@.len() implies (#[trigger] runs@[k]).start
            < runs@[k].end by {
            assert(runs@[k].start == bp@[k] && runs@[k].end == bp@[k + 1]);
        }
        assert forall|k: int|
            0 <= k < runs@.len() implies is_breakpoint(
            len as int,
            hs,
            cs,
            (#[trigger] runs@[k]).start as int,
        ) && is_breakpoint(len as int, hs, cs, runs@[k].end as int) by {
            assert(runs@[k].start == bp@[k] && runs@[k].end == bp@[k + 1]);
            assert(contains_val(bp@, bp@[k] as int));
            assert(contains_val(bp@, bp@[k + 1] as int));
        }
        assert forall|x: int|
            0 < x < len && is_breakpoint(len as int, hs, cs, x) implies exists|k: int|
            0 <= k < runs@.len() && (#[trigger] runs@[k]).start == x by {
            assert(contains_val(bp@, x));
            let k = choose|k: int| 0 <= k < bp@.len() && bp@[k] == x;
            assert(k != bp@.len() - 1) by {
                if k == bp@.len() - 1 {
                    assert(bp@[k] == len);
                }
            }
            assert(runs@[k].start == x);
        }
    }
    runs
}



/// The total length of a sequence of runs.
pub open spec fn runs_length_sum(runs: Seq<Run>) -> int
    decreases runs.len(),
{
    if runs.len() == 0 {
        0
    } else {
        runs_length_sum(runs.drop_last()) + (runs.last().end - runs.last().start)
    }
}

/// The law of exact coverage: a gap-free partition of `[0, len)` — as
/// [`segment_runs`] produces — has run lengths summing to exactly `len`.
pub proof fn lemma_runs_cover_length(runs: Seq<Run>, len: int)
    requires
        0 <= len,
        len == 0 ==> runs.len() == 0,
        len > 0 ==> runs.len() > 0 && runs[0].start == 0 && runs.last().end == len,
        forall|k: int| 0 <= k < runs.len() - 1 ==> (#[trigger] runs[k]).end == runs[k + 1].start,
        forall|k: int| 0 <= k < runs.len() ==> (#[trigger] runs[k]).start < runs[k].end,
    ensures
        runs_length_sum(runs) == len,
{
    if len == 0 {
    } else {
        lemma_runs_prefix_sum(runs, runs.len() as int);
        assert(runs.take(runs.len() as int) =~= runs);
    }
}

proof fn lemma_runs_prefix_sum(runs: Seq<Run>, m: int)
    requires
        runs.len() > 0,
        runs[0].start == 0,
        forall|k: int| 0 <= k < runs.len() - 1 ==> (#[trigger] runs[k]).end == runs[k + 1].start,
        0 < m <= runs.len(),
    ensures
        runs_length_sum(runs.take(m)) == runs[m - 1].end,
    decreases m,
{
    assert(runs.take(m).drop_last() =~= runs.take(m - 1));
    assert(runs.take(m).last() == runs[m - 1]);
    assert(runs_length_sum(runs.take(m)) == runs_length_sum(runs.take(m - 1)) + (runs[m - 1].end
        - runs[m - 1].start));
    if m == 1 {
        assert(runs.take(0) =~= Seq::<Run>::empty());
        assert(runs_length_sum(Seq::<Run>::empty()) == 0);
    } else {
        lemma_runs_prefix_sum(runs, m - 1);
        assert(runs[m - 2].end == runs[m - 1].start);
    }
}

} // verus!
