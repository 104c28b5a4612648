//! Runs of equal gems along one line of cells.

use vstd::prelude::*;

verus! {

/// A stretch of `len` cells of a line, beginning at index `start`.
#[derive(Clone, Copy, Debug, PartialEq, Eq, Structural)]
pub struct Run {
    pub start: usize,
    pub len: usize,
}

/// Whether the `len` cells from `start` on form a match in `line`: at least three
/// cells of one gem type, and the cell before and the cell after, where the line has
/// them, are of another type. A run is never part of a longer one.
pub open spec fn is_run(line: Seq<u32>, start: int, len: int) -> bool {
    &&& 0 <= start
    &&& 3 <= len
    &&& start + len <= line.len()
    &&& forall|i: int| start <= i < start + len ==> line[i] == line[start]
    &&& (start == 0 || line[start - 1] != line[start])
    &&& (start + len == line.len() || line[start + len] != line[start])
}

/// Whether `runs` lists every match of `line` once, from the front of the line to its
/// end.
pub open spec fn lists_runs(line: Seq<u32>, runs: Seq<Run>) -> bool {
    &&& forall|k: int| 0 <= k < runs.len() ==> is_run(line, #[trigger] runs[k].start as int, runs[k].len as int)
    &&& forall|s: int, l: int| #[trigger]
        is_run(line, s, l) ==> exists|k: int|
            0 <= k < runs.len() && #[trigger] runs[k].start == s && runs[k].len == l
    &&& forall|j: int, k: int|
        0 <= j < k < runs.len() ==> #[trigger] runs[j].start + runs[j].len <= #[trigger] runs[k].start
}

/// A stretch of equal cells that ends where the line ends or the type changes holds
/// at most one match, the stretch itself.
proof fn lemma_run_in_stretch(line: Seq<u32>, from: int, to: int, s: int, l: int)
    requires
        0 <= from < to <= line.len(),
        forall|i: int| from <= i < to ==> line[i] == line[from],
        from == 0 || line[from - 1] != line[from],
        to == line.len() || line[to] != line[from],
        is_run(line, s, l),
        from <= s < to,
    ensures
        s == from,
        l == to - from,
{
    if s > from {
        assert(line[s - 1] == line[from]);
        assert(line[s] == line[from]);
    }
    if s + l < to {
        assert(line[s + l] == line[from]);
    }
    if s + l > to {
        assert(line[to] == line[s]);
    }
}

/// Finds the matches of one line of gem types.
///
/// One pass from the front: the current stretch of equal cells grows while the type
/// repeats; where the type changes, or the line ends, the stretch is reported if it
/// has three cells or more.
pub fn find_runs(line: &Vec<u32>) -> (runs: Vec<Run>)
    ensures
        lists_runs(line@, runs@),
{
    let n = line.len();
    let mut runs: Vec<Run> = Vec::new();
    let mut from: usize = 0;
    let mut i: usize = 0;
    while i < n
        invariant
            n == line.len(),
            from <= i <= n,
            i > 0 ==> from < i,
            forall|j: int| from <= j < i ==> line[j] == line[from as int],
            from == 0 || line[from - 1] != line[from as int],
            forall|k: int| 0 <= k < runs.len() ==> is_run(line@, #[trigger] runs[k].start as int, runs[k].len as int),
            forall|k: int| 0 <= k < runs.len() ==> #[trigger] runs[k].start + runs[k].len <= from,
            forall|s: int, l: int| #[trigger]
                is_run(line@, s, l) && s < from ==> exists|k: int|
                    0 <= k < runs.len() && #[trigger] runs[k].start == s && runs[k].len == l,
            forall|j: int, k: int|
                0 <= j < k < runs.len() ==> #[trigger] runs[j].start + runs[j].len <= #[trigger] runs[k].start,
        decreases n - i,
    {
        if i != from && line[i] != line[from] {
            let ghost before = runs@;
            if i - from >= 3 {
                runs.push(Run { start: from, len: i - from });
                assert(is_run(line@, from as int, i - from));
            }
            proof {
                assert forall|s: int, l: int| #[trigger]
                    is_run(line@, s, l) && s < i implies exists|k: int|
                    0 <= k < runs.len() && #[trigger] runs[k].start == s && runs[k].len == l by {
                    if s < from {
                        let k = choose|k: int|
                            0 <= k < before.len() && #[trigger] before[k].start == s && before[k].len
                                == l;
                        assert(runs[k] == before[k]);
                    } else {
                        lemma_run_in_stretch(line@, from as int, i as int, s, l);
                        let k = runs.len() - 1;
                        assert(runs[k].start == s && runs[k].len == l);
                    }
                }
            }
            from = i;
        }
        i += 1;
    }
    if n - from >= 3 {
        let ghost before = runs@;
        runs.push(Run { start: from, len: n - from });
        proof {
            assert(is_run(line@, from as int, n - from));
            assert forall|s: int, l: int| #[trigger] is_run(line@, s, l) implies exists|k: int|
                0 <= k < runs.len() && #[trigger] runs[k].start == s && runs[k].len == l by {
                if s < from {
                    let k = choose|k: int|
                        0 <= k < before.len() && #[trigger] before[k].start == s && before[k].len == l;
                    assert(runs[k] == before[k]);
                } else {
                    lemma_run_in_stretch(line@, from as int, n as int, s, l);
                    let k = runs.len() - 1;
                    assert(runs[k].start == s && runs[k].len == l);
                }
            }
        }
    } else {
        proof {
            assert forall|s: int, l: int| #[trigger] is_run(line@, s, l) implies exists|k: int|
                0 <= k < runs.len() && #[trigger] runs[k].start == s && runs[k].len == l by {
                if s >= from {
                    lemma_run_in_stretch(line@, from as int, n as int, s, l);
                }
            }
        }
    }
    runs
}

} // verus!
