//! Row job scheduling: jobs bound to a display row, ordered by urgency.
//!
//! A job carries its text, target row, scroll cursor, optional repeat
//! interval and the time it last ran.  Urgency is a total preorder:
//! never-run one-shot jobs outrank everything, never-run recurring jobs
//! come next (shorter interval first), and jobs that have run are ordered
//! by how soon they are due again, overdue ones first.  Times are plain
//! millisecond counts; the shell that owns the clock passes the current
//! instant in.

use vstd::prelude::*;

use core::cmp::Ordering;
use crate::lcd::Action;
use crate::lcd::LcdDriver;

verus! {

/// A schedulable unit of display work.  `rate` of `None` marks a one-shot
/// job; `last_run` of `None` marks a job that has never executed.  Times
/// and intervals are in milliseconds.
#[derive(Debug)]
pub struct Job {
    pub text: String,
    pub row: u8,
    pub index: i32,
    pub rate: Option<u64>,
    pub last_run: Option<u64>,
}

impl Clone for Job {
    fn clone(&self) -> (r: Self)
        ensures
            r == *self,
    {
        Job {
            text: self.text.clone(),
            row: self.row,
            index: self.index,
            rate: self.rate,
            last_run: self.last_run,
        }
    }
}

impl PartialEq for Job {
    /// Jobs compare equal exactly when their last-run instants agree.
    fn eq(&self, other: &Self) -> (r: bool)
        ensures
            r == (self.last_run == other.last_run),
    {
        match (self.last_run, other.last_run) {
            (None, None) => true,
            (Some(a), Some(b)) => a == b,
            _ => false,
        }
    }
}

impl vstd::std_specs::cmp::PartialEqSpecImpl for Job {
    open spec fn obeys_eq_spec() -> bool {
        true
    }

    open spec fn eq_spec(&self, other: &Job) -> bool {
        self.last_run == other.last_run
    }
}

/// A job's urgency class: 0 for one-shot jobs that have never run, 1 for
/// recurring jobs that have never run, 2 for any job that has run at least
/// once.  Lower is more urgent, so a never-run one-shot outranks
/// everything and fresh work always renders before re-renders.
pub open spec fn rank_class(j: Job) -> int {
    if j.last_run is Some {
        2
    } else if j.rate is Some {
        1
    } else {
        0
    }
}

/// The tie-breaking key inside an urgency class at instant `now`: the
/// configured interval for never-run recurring jobs, and for jobs that
/// have run, the remaining time until due shifted up by one so that every
/// overdue job — and a spent one-shot, which has no due time at all —
/// shares the most urgent key, 0.
pub open spec fn rank_key(j: Job, now: int) -> int {
    if j.last_run is Some {
        if j.rate is Some {
            let elapsed = now - j.last_run->0;
            if elapsed <= j.rate->0 {
                j.rate->0 - elapsed + 1
            } else {
                0
            }
        } else {
            0
        }
    } else if j.rate is Some {
        j.rate->0 as int
    } else {
        0
    }
}

/// `a` is strictly more urgent than `b` at instant `now`.
pub open spec fn job_before(a: Job, b: Job, now: int) -> bool {
    rank_class(a) < rank_class(b) || (rank_class(a) == rank_class(b) && rank_key(a, now)
        < rank_key(b, now))
}

/// `a` and `b` are equally urgent at instant `now`.
pub open spec fn job_equiv(a: Job, b: Job, now: int) -> bool {
    rank_class(a) == rank_class(b) && rank_key(a, now) == rank_key(b, now)
}

/// `a` is at least as urgent as `b` at instant `now`.
pub open spec fn job_le(a: Job, b: Job, now: int) -> bool {
    job_before(a, b, now) || job_equiv(a, b, now)
}

/// A job's recorded last run does not lie in the future of instant `now`.
pub open spec fn last_run_ok(j: Job, now: int) -> bool {
    j.last_run is Some ==> j.last_run->0 <= now
}

impl Job {
    /// A fresh job: scroll cursor at the origin, never run.
    pub fn new(text: &str, row: u8, rate: Option<u64>) -> (j: Job)
        ensures
            j.text@ == text@,
            j.row == row,
            j.index == 0,
            j.rate == rate,
            j.last_run is None,
    {
        Job { text: text.to_owned(), row, index: 0, rate, last_run: None }
    }

    /// Urgency comparison at instant `now`: never-run one-shot jobs first,
    /// then never-run recurring jobs by interval, then every job that has
    /// run, ordered by remaining time until due — overdue jobs, and spent
    /// one-shots with no due time at all, most urgent.
    pub fn compare(&self, other: &Job, now: u64) -> (r: Ordering)
        requires
            last_run_ok(*self, now as int),
            last_run_ok(*other, now as int),
        ensures
            (r == Ordering::Less) == job_before(*self, *other, now as int),
            (r == Ordering::Equal) == job_equiv(*self, *other, now as int),
            (r == Ordering::Greater) == job_before(*other, *self, now as int),
    {
        match (self.last_run, other.last_run) {
            (Some(last_run), Some(other_last_run)) => {
                let self_dif: Option<u64> = match self.rate {
                    Some(rate) => {
                        let elapsed = now - last_run;
                        if elapsed <= rate {
                            Some(rate - elapsed)
                        } else {
                            None
                        }
                    },
                    None => None,
                };
                let other_dif: Option<u64> = match other.rate {
                    Some(other_rate) => {
                        let elapsed = now - other_last_run;
                        if elapsed <= other_rate {
                            Some(other_rate - elapsed)
                        } else {
                            None
                        }
                    },
                    None => None,
                };
                match self_dif {
                    Some(s) => match other_dif {
                        Some(o) => {
                            if s < o {
                                Ordering::Less
                            } else if s == o {
                                Ordering::Equal
                            } else {
                                Ordering::Greater
                            }
                        },
                        None => Ordering::Greater,
                    },
                    None => match other_dif {
                        Some(_) => Ordering::Less,
                        None => Ordering::Equal,
                    },
                }
            },
            (Some(_), None) => Ordering::Greater,
            (None, Some(_)) => Ordering::Less,
            (None, None) => match (self.rate, other.rate) {
                (None, None) => Ordering::Equal,
                (None, Some(_)) => Ordering::Less,
                (Some(_), None) => Ordering::Greater,
                (Some(rate), Some(other_rate)) => {
                    if rate < other_rate {
                        Ordering::Less
                    } else if rate == other_rate {
                        Ordering::Equal
                    } else {
                        Ordering::Greater
                    }
                },
            },
        }
    }
}

/// Urgency is a strict weak order: within one instant, strict urgency is
/// irreflexive and transitive, equal urgency is an equivalence, and any two
/// jobs are ordered one way, the other way, or tied.
pub proof fn lemma_urgency_strict_weak_order(now: int)
    ensures
        forall|a: Job| !job_before(a, a, now),
        forall|a: Job, b: Job, c: Job|
            job_before(a, b, now) && job_before(b, c, now) ==> job_before(a, c, now),
        forall|a: Job, b: Job, c: Job|
            job_le(a, b, now) && job_le(b, c, now) ==> job_le(a, c, now),
        forall|a: Job, b: Job|
            job_before(a, b, now) || job_before(b, a, now) || job_equiv(a, b, now),
        forall|a: Job, b: Job| job_equiv(a, b, now) ==> job_equiv(b, a, now),
{
}

/// A never-run one-shot job is strictly more urgent than any job that has
/// run at least once.
pub proof fn lemma_oneshot_outranks_run(a: Job, b: Job, now: int)
    requires
        a.rate is None,
        a.last_run is None,
        b.last_run is Some,
    ensures
        job_before(a, b, now),
{
}

/// Among never-run recurring jobs, the shorter interval is the more urgent.
pub proof fn lemma_never_run_shorter_interval_first(a: Job, b: Job, now: int)
    requires
        a.rate is Some,
        b.rate is Some,
        a.last_run is None,
        b.last_run is None,
        a.rate->0 < b.rate->0,
    ensures
        job_before(a, b, now),
{
}

/// An overdue job is strictly more urgent than one whose interval has not
/// yet elapsed.
pub proof fn lemma_overdue_outranks_due(a: Job, b: Job, now: int)
    requires
        a.rate is Some,
        a.last_run is Some,
        b.rate is Some,
        b.last_run is Some,
        now - a.last_run->0 > a.rate->0,
        now - b.last_run->0 <= b.rate->0,
    ensures
        job_before(a, b, now),
{
}

/// `j` placed into the already-sorted `s`, after every element it does not
/// strictly outrank, so that re-sorting never reorders tied jobs.
pub open spec fn insert_sorted(s: Seq<Job>, j: Job, now: int) -> Seq<Job>
    decreases s.len(),
{
    if s.len() == 0 {
        seq![j]
    } else if job_before(j, s.last(), now) {
        insert_sorted(s.drop_last(), j, now).push(s.last())
    } else {
        s.push(j)
    }
}

/// Stable insertion sort by urgency at instant `now`.
pub open spec fn sort_spec(s: Seq<Job>, now: int) -> Seq<Job>
    decreases s.len(),
{
    if s.len() == 0 {
        s
    } else {
        insert_sorted(sort_spec(s.drop_last(), now), s.last(), now)
    }
}

/// Each job is at least as urgent as every job after it.
pub open spec fn sorted_by_urgency(s: Seq<Job>, now: int) -> bool {
    forall|i: int, k: int| 0 <= i < k < s.len() ==> job_le(s[i], s[k], now)
}

proof fn lemma_insert_sorted_preserves(s: Seq<Job>, j: Job, now: int)
    requires
        sorted_by_urgency(s, now),
    ensures
        sorted_by_urgency(insert_sorted(s, j, now), now),
        insert_sorted(s, j, now).len() == s.len() + 1,
        forall|x: Job| #[trigger]
            insert_sorted(s, j, now).contains(x) <==> s.contains(x) || x == j,
    decreases s.len(),
{
    if s.len() == 0 {
        assert(seq![j][0] == j);
        assert forall|x: Job| #[trigger] insert_sorted(s, j, now).contains(x) implies s.contains(x)
            || x == j by {
            let w = choose|w: int| 0 <= w < seq![j].len() && seq![j][w] == x;
        }
    } else if job_before(j, s.last(), now) {
        lemma_insert_sorted_preserves(s.drop_last(), j, now);
        let t = insert_sorted(s.drop_last(), j, now);
        assert forall|i: int, k: int| 0 <= i < k < t.push(s.last()).len() implies job_le(
            t.push(s.last())[i],
            t.push(s.last())[k],
            now,
        ) by {
            if k < t.len() {
            } else {
                let x = t[i];
                assert(t.contains(x));
                if s.drop_last().contains(x) {
                    let w = choose|w: int| 0 <= w < s.drop_last().len() && s.drop_last()[w] == x;
                    assert(s[w] == x);
                    assert(job_le(x, s.last(), now));
                }
            }
        }
        assert forall|x: Job| #[trigger] t.push(s.last()).contains(x) implies s.contains(x) || x
            == j by {
            if t.contains(x) {
                if s.drop_last().contains(x) {
                    let w = choose|w: int| 0 <= w < s.drop_last().len() && s.drop_last()[w] == x;
                    assert(s[w] == x);
                }
            } else {
                assert(x == s.last());
            }
        }
        assert forall|x: Job| s.contains(x) || x == j implies #[trigger] t.push(
            s.last(),
        ).contains(x) by {
            if x == j || s.drop_last().contains(x) {
                assert(t.contains(x));
                let w = choose|w: int| 0 <= w < t.len() && t[w] == x;
                assert(t.push(s.last())[w] == x);
            } else if s.contains(x) {
                let w = choose|w: int| 0 <= w < s.len() && s[w] == x;
                if w < s.len() - 1 {
                    assert(s.drop_last()[w] == x);
                } else {
                    assert(t.push(s.last()).last() == x);
                }
            }
        }
    } else {
        assert forall|i: int, k: int| 0 <= i < k < s.push(j).len() implies job_le(
            s.push(j)[i],
            s.push(j)[k],
            now,
        ) by {
            if k < s.len() {
            } else if s.len() > 0 {
                if i < s.len() - 1 {
                    assert(job_le(s[i], s.last(), now));
                }
                assert(job_le(s.last(), j, now));
            }
        }
        assert forall|x: Job| s.contains(x) || x == j implies #[trigger] s.push(j).contains(x) by {
            if x == j {
                assert(s.push(j).last() == x);
            } else {
                let w = choose|w: int| 0 <= w < s.len() && s[w] == x;
                assert(s.push(j)[w] == x);
            }
        }
        assert forall|x: Job| #[trigger] s.push(j).contains(x) implies s.contains(x) || x == j by {
            let w = choose|w: int| 0 <= w < s.push(j).len() && s.push(j)[w] == x;
            if w < s.len() {
                assert(s[w] == x);
            }
        }
    }
}

/// What sorting yields is sorted, has the same length, and holds exactly
/// the jobs that went in.
pub proof fn lemma_sort_spec_sorted(s: Seq<Job>, now: int)
    ensures
        sorted_by_urgency(sort_spec(s, now), now),
        sort_spec(s, now).len() == s.len(),
        forall|x: Job| #[trigger] sort_spec(s, now).contains(x) <==> s.contains(x),
    decreases s.len(),
{
    if s.len() == 0 {
    } else {
        lemma_sort_spec_sorted(s.drop_last(), now);
        lemma_insert_sorted_preserves(sort_spec(s.drop_last(), now), s.last(), now);
        assert forall|x: Job| #[trigger] sort_spec(s, now).contains(x) implies s.contains(x) by {
            if s.drop_last().contains(x) {
                let w = choose|w: int| 0 <= w < s.drop_last().len() && s.drop_last()[w] == x;
                assert(s[w] == x);
            } else {
                assert(s.last() == x || s.drop_last().contains(x));
            }
        }
        assert forall|x: Job| s.contains(x) implies #[trigger] sort_spec(s, now).contains(x) by {
            let w = choose|w: int| 0 <= w < s.len() && s[w] == x;
            if w < s.len() - 1 {
                assert(s.drop_last()[w] == x);
            }
        }
    }
}

/// Sorting an already-sorted list leaves it exactly as it is.
pub proof fn lemma_sort_spec_of_sorted_is_identity(s: Seq<Job>, now: int)
    requires
        sorted_by_urgency(s, now),
    ensures
        sort_spec(s, now) == s,
    decreases s.len(),
{
    if s.len() == 0 {
        assert(sort_spec(s, now) =~= s);
    } else {
        assert forall|i: int, k: int|
            0 <= i < k < s.drop_last().len() implies job_le(
            s.drop_last()[i],
            s.drop_last()[k],
            now,
        ) by {
            assert(job_le(s[i], s[k], now));
        }
        lemma_sort_spec_of_sorted_is_identity(s.drop_last(), now);
        if s.len() == 1 {
            assert(sort_spec(s, now) =~= s);
        } else {
            assert(job_le(s[s.len() - 2], s.last(), now));
            assert(s.drop_last().last() == s[s.len() - 2]);
            assert(!job_before(s.last(), s.drop_last().last(), now));
            assert(sort_spec(s, now) =~= s.drop_last().push(s.last()));
            assert(s.drop_last().push(s.last()) =~= s);
        }
    }
}

/// Sorting is idempotent: with timestamps unchanged, re-sorting a sorted
/// job list neither reorders nor otherwise changes it.
pub proof fn lemma_sort_idempotent(s: Seq<Job>, now: int)
    ensures
        sort_spec(sort_spec(s, now), now) == sort_spec(s, now),
{
    lemma_sort_spec_sorted(s, now);
    lemma_sort_spec_of_sorted_is_identity(sort_spec(s, now), now);
}

/// Place `j` in the sorted `jobs` after every job it does not strictly
/// outrank.
fn insert_job(jobs: &mut Vec<Job>, j: Job, now: u64)
    requires
        last_run_ok(j, now as int),
        forall|i: int| 0 <= i < old(jobs)@.len() ==> last_run_ok(old(jobs)@[i], now as int),
    ensures
        final(jobs)@ == insert_sorted(old(jobs)@, j, now as int),
{
    let ghost s = jobs@;
    let mut k: usize = jobs.len();
    while k > 0 && matches!(j.compare(&jobs[k - 1], now), Ordering::Less)
        invariant
            k <= jobs@.len(),
            jobs@ == s,
            last_run_ok(j, now as int),
            forall|i: int| 0 <= i < s.len() ==> last_run_ok(s[i], now as int),
            forall|i: int| k <= i < s.len() ==> job_before(j, s[i], now as int),
        decreases k,
    {
        k = k - 1;
    }
    jobs.insert(k, j);
    proof {
        lemma_insert_sorted_prefix(s, j, now as int, k as int);
        assert(jobs@ =~= s.take(k as int) + seq![j] + s.skip(k as int));
    }
}

/// Inserting after the last position whose job `j` does not outrank splits
/// the sequence exactly there.
proof fn lemma_insert_sorted_prefix(s: Seq<Job>, j: Job, now: int, k: int)
    requires
        0 <= k <= s.len(),
        forall|i: int| k <= i < s.len() ==> job_before(j, s[i], now),
        k > 0 ==> !job_before(j, s[k - 1], now),
    ensures
        insert_sorted(s, j, now) == s.take(k) + seq![j] + s.skip(k),
    decreases s.len(),
{
    if s.len() == 0 {
        assert(insert_sorted(s, j, now) =~= s.take(k) + seq![j] + s.skip(k));
    } else if k == s.len() {
        assert(insert_sorted(s, j, now) == s.push(j));
        assert(s.push(j) =~= s.take(k) + seq![j] + s.skip(k));
    } else {
        assert(job_before(j, s.last(), now));
        lemma_insert_sorted_prefix(s.drop_last(), j, now, k);
        assert(insert_sorted(s.drop_last(), j, now).push(s.last()) =~= s.take(k) + seq![j] + s.skip(
            k,
        ));
    }
}

/// Sort the job list by urgency at instant `now`; the sort is stable, so
/// tied jobs keep their order.
pub fn sort_jobs(jobs: &mut Vec<Job>, now: u64)
    requires
        forall|i: int| 0 <= i < old(jobs)@.len() ==> last_run_ok(old(jobs)@[i], now as int),
    ensures
        final(jobs)@ == sort_spec(old(jobs)@, now as int),
        sorted_by_urgency(final(jobs)@, now as int),
        final(jobs)@.len() == old(jobs)@.len(),
{
    let ghost s = jobs@;
    let mut sorted: Vec<Job> = Vec::new();
    let mut i: usize = 0;
    while i < jobs.len()
        invariant
            i <= s.len(),
            jobs@ == s,
            forall|w: int| 0 <= w < s.len() ==> last_run_ok(s[w], now as int),
            sorted@ == sort_spec(s.take(i as int), now as int),
            forall|w: int| 0 <= w < sorted@.len() ==> last_run_ok(sorted@[w], now as int),
        decreases s.len() - i,
    {
        let j = jobs[i].clone();
        proof {
            let t = s.take(i as int + 1);
            assert(t.drop_last() =~= s.take(i as int));
            assert(t.last() == s[i as int]);
            lemma_sort_spec_sorted(s.take(i as int), now as int);
        }
        insert_job(&mut sorted, j, now);
        i = i + 1;
        proof {
            assert forall|w: int| 0 <= w < sorted@.len() implies last_run_ok(
                sorted@[w],
                now as int,
            ) by {
                lemma_sort_spec_sorted(s.take(i as int), now as int);
                assert(sorted@.contains(sorted@[w]));
                let x = sorted@[w];
                assert(s.take(i as int).contains(x));
                let v = choose|v: int| 0 <= v < i as int && s.take(i as int)[v] == x;
                assert(s[v] == x);
            }
        }
    }
    proof {
        assert(s.take(s.len() as int) =~= s);
        lemma_sort_spec_sorted(s, now as int);
    }
    *jobs = sorted;
}

/// A run of `n` blanks.
pub open spec fn spaces(n: int) -> Seq<char> {
    Seq::new(n as nat, |i: int| ' ')
}

/// The `c`-column window of `text` at scroll position `i`: text that fits
/// is left-justified and padded; a window reaching past the end is padded
/// on the right; a negative position shows the text scrolling in from the
/// left edge behind blanks; otherwise the window is a plain slice.
pub open spec fn window_spec(text: Seq<char>, i: int, c: int) -> Seq<char> {
    if text.len() <= c {
        text + spaces(c - text.len())
    } else if text.len() < i + c {
        text.subrange(i, text.len() as int) + spaces(c - (text.len() - i))
    } else if i < 0 {
        spaces(-i) + text.subrange(0, i + c)
    } else {
        text.subrange(i, i + c)
    }
}

/// The job's scroll cursor sits inside the range its renderer can handle
/// for a `cols`-wide display, and the text is short enough for 32-bit
/// cursor arithmetic.
pub open spec fn scroll_ok(j: Job, cols: u8) -> bool {
    &&& j.text@.len() + 256 < 0x8000_0000
    &&& -(cols as int) <= j.index as int
    &&& j.index as int <= j.text@.len()
}

/// The scroll cursor after one render of text of length `len` on a
/// `c`-column display: it advances by one and wraps to `-(c / 2)` once it
/// has moved past the end, so the message pauses before re-entering.
pub open spec fn advance_index(i: int, len: int, c: int) -> int {
    if i + 1 > len {
        -(c / 2)
    } else {
        i + 1
    }
}

/// The scroll cursor after `n` renders.
pub open spec fn iterate_advance(i: int, n: nat, len: int, c: int) -> int
    decreases n,
{
    if n == 0 {
        i
    } else {
        iterate_advance(advance_index(i, len, c), (n - 1) as nat, len, c)
    }
}

proof fn lemma_advance_run(i: int, k: nat, len: int, c: int)
    requires
        len >= 0,
        c >= 0,
        -(c / 2) <= i <= len,
        k <= len - i + 1,
    ensures
        iterate_advance(i, k, len, c) == if i + k <= len {
            i + k
        } else {
            -(c / 2)
        },
    decreases k,
{
    if k > 0 {
        assert(iterate_advance(i, k, len, c) == iterate_advance(
            advance_index(i, len, c),
            (k - 1) as nat,
            len,
            c,
        ));
        if i == len {
            assert(advance_index(i, len, c) == -(c / 2));
            assert(k == 1);
            assert(iterate_advance(-(c / 2), 0, len, c) == -(c / 2));
        } else {
            assert(advance_index(i, len, c) == i + 1);
            lemma_advance_run(i + 1, (k - 1) as nat, len, c);
        }
    }
}

/// The scroll cursor is periodic: starting from the wrap position
/// `-(c / 2)` it revisits that position after exactly `len + c / 2 + 1`
/// renders, and at no earlier render.
pub proof fn lemma_scroll_cursor_periodic(len: int, c: int)
    requires
        len >= 0,
        c >= 0,
    ensures
        iterate_advance(-(c / 2), (len + c / 2 + 1) as nat, len, c) == -(c / 2),
        forall|k: nat|
            0 < k < len + c / 2 + 1 ==> #[trigger] iterate_advance(-(c / 2), k, len, c) != -(c
                / 2),
{
    let wrap = -(c / 2);
    lemma_advance_run(wrap, (len + c / 2 + 1) as nat, len, c);
    assert forall|k: nat| 0 < k < len + c / 2 + 1 implies iterate_advance(wrap, k, len, c)
        != wrap by {
        lemma_advance_run(wrap, k, len, c);
    }
}

impl Job {
    /// The `cols`-wide text window the next render will show.
    pub fn window(&self, cols: u8) -> (w: String)
        requires
            cols >= 1,
            scroll_ok(*self, cols),
        ensures
            w@ == window_spec(self.text@, self.index as int, cols as int),
    {
        proof {
            reveal_strlit(" ");
        }
        let len = self.text.as_str().unicode_len();
        let c = cols as usize;
        if len <= c {
            let mut w = self.text.clone();
            let mut k = len;
            while k < c
                invariant
                    len <= k <= c,
                    w@ == self.text@ + spaces(k as int - len as int),
                    len == self.text@.len(),
                decreases c - k,
            {
                w.append(" ");
                k = k + 1;
                proof {
                    reveal_strlit(" ");
                    assert(w@ =~= self.text@ + spaces(k as int - len as int));
                }
            }
            proof {
                assert(w@ =~= window_spec(self.text@, self.index as int, cols as int));
            }
            w
        } else if (len as i64) < (self.index as i64) + (c as i64) {
            let start = self.index as usize;
            let sub = self.text.as_str().substring_char(start, len);
            let mut w = sub.to_owned();
            let mut k = len - start;
            while k < c
                invariant
                    len - start <= k <= c,
                    start == self.index as int,
                    len == self.text@.len(),
                    start <= len,
                    w@ == self.text@.subrange(start as int, len as int) + spaces(
                        k as int - (len as int - start as int),
                    ),
                decreases c - k,
            {
                w.append(" ");
                k = k + 1;
                proof {
                    reveal_strlit(" ");
                    assert(w@ =~= self.text@.subrange(start as int, len as int) + spaces(
                        k as int - (len as int - start as int),
                    ));
                }
            }
            proof {
                assert(w@ =~= window_spec(self.text@, self.index as int, cols as int));
            }
            w
        } else if self.index < 0 {
            let pad = (0 - self.index) as usize;
            let mut w = String::new();
            let mut k: usize = 0;
            while k < pad
                invariant
                    k <= pad,
                    w@ == spaces(k as int),
                decreases pad - k,
            {
                w.append(" ");
                k = k + 1;
                proof {
                    reveal_strlit(" ");
                    assert(w@ =~= spaces(k as int));
                }
            }
            let end = (self.index + (c as i32)) as usize;
            let sub = self.text.as_str().substring_char(0, end);
            w.append(sub);
            proof {
                assert(w@ =~= window_spec(self.text@, self.index as int, cols as int));
            }
            w
        } else {
            let start = self.index as usize;
            let end = start + c;
            let sub = self.text.as_str().substring_char(start, end);
            let w = sub.to_owned();
            proof {
                assert(w@ =~= window_spec(self.text@, self.index as int, cols as int));
            }
            w
        }
    }

    /// One render against the driver: address the job's row, print the
    /// current window, and advance the scroll cursor.
    pub fn run(&mut self, driver: &LcdDriver) -> (acts: Vec<Action>)
        requires
            driver.wf(),
            scroll_ok(*old(self), driver.num_cols),
        ensures
            acts@ == driver.set_cursor_seq(old(self).row, 0) + driver.print_seq(
                window_spec(old(self).text@, old(self).index as int, driver.num_cols as int),
            ),
            final(self).text == old(self).text,
            final(self).row == old(self).row,
            final(self).rate == old(self).rate,
            final(self).last_run == old(self).last_run,
            final(self).index as int == advance_index(
                old(self).index as int,
                old(self).text@.len() as int,
                driver.num_cols as int,
            ),
            scroll_ok(*final(self), driver.num_cols),
    {
        let mut acts = driver.set_cursor(self.row, 0);
        let w = self.window(driver.get_cols());
        let mut p = driver.print(w.as_str());
        acts.append(&mut p);
        self.index = self.index + 1;
        let len = self.text.as_str().unicode_len();
        if self.index > len as i32 {
            self.index = 0 - ((driver.get_cols() / 2) as i32);
        }
        acts
    }
}

/// The jobs of `s` not bound to `row`, keeping their relative order.
pub open spec fn drop_row(s: Seq<Job>, row: u8) -> Seq<Job>
    decreases s.len(),
{
    if s.len() == 0 {
        s
    } else if s.last().row == row {
        drop_row(s.drop_last(), row)
    } else {
        drop_row(s.drop_last(), row).push(s.last())
    }
}

/// How many jobs of `s` are bound to `row`.
pub open spec fn count_on_row(s: Seq<Job>, row: u8) -> nat
    decreases s.len(),
{
    if s.len() == 0 {
        0
    } else {
        count_on_row(s.drop_last(), row) + (if s.last().row == row {
            1nat
        } else {
            0nat
        })
    }
}

/// A pending blank job for `row`: empty text, one-shot, never run.
pub open spec fn is_blank_job(j: Job, row: u8) -> bool {
    &&& j.text@.len() == 0
    &&& j.row == row
    &&& j.index == 0
    &&& j.rate is None
    &&& j.last_run is None
}

proof fn lemma_drop_row_facts(s: Seq<Job>, row: u8)
    ensures
        forall|x: Job| #[trigger] drop_row(s, row).contains(x) ==> s.contains(x) && x.row != row,
    decreases s.len(),
{
    if s.len() > 0 {
        lemma_drop_row_facts(s.drop_last(), row);
        let t = drop_row(s.drop_last(), row);
        assert forall|x: Job| #[trigger] drop_row(s, row).contains(x) implies s.contains(x) && x.row
            != row by {
            if s.last().row == row {
                assert(t.contains(x));
            } else {
                let w = choose|w: int| 0 <= w < t.push(s.last()).len() && t.push(s.last())[w] == x;
                if w < t.len() {
                    assert(t[w] == x);
                    assert(t.contains(x));
                } else {
                    assert(x == s.last());
                    assert(s.contains(x));
                }
            }
            if s.drop_last().contains(x) {
                let w = choose|w: int| 0 <= w < s.drop_last().len() && s.drop_last()[w] == x;
                assert(s[w] == x);
            }
        }
    }
}

proof fn lemma_insert_sorted_count(s: Seq<Job>, j: Job, now: int, row: u8)
    ensures
        count_on_row(insert_sorted(s, j, now), row) == count_on_row(s, row) + (if j.row == row {
            1nat
        } else {
            0nat
        }),
    decreases s.len(),
{
    if s.len() == 0 {
        assert(seq![j].drop_last() =~= Seq::<Job>::empty());
        assert(seq![j].last() == j);
        assert(count_on_row(Seq::<Job>::empty(), row) == 0);
    } else if job_before(j, s.last(), now) {
        lemma_insert_sorted_count(s.drop_last(), j, now, row);
        let t = insert_sorted(s.drop_last(), j, now);
        assert(t.push(s.last()).drop_last() =~= t);
        assert(t.push(s.last()).last() == s.last());
        assert(count_on_row(t.push(s.last()), row) == count_on_row(t, row) + (if s.last().row
            == row {
            1nat
        } else {
            0nat
        }));
    } else {
        assert(s.push(j).drop_last() =~= s);
        assert(s.push(j).last() == j);
        assert(count_on_row(s.push(j), row) == count_on_row(s, row) + (if j.row == row {
            1nat
        } else {
            0nat
        }));
    }
}

/// Sorting moves jobs but never changes how many sit on a row.
pub proof fn lemma_sort_spec_count(s: Seq<Job>, now: int, row: u8)
    ensures
        count_on_row(sort_spec(s, now), row) == count_on_row(s, row),
    decreases s.len(),
{
    if s.len() > 0 {
        lemma_sort_spec_count(s.drop_last(), now, row);
        lemma_insert_sorted_count(sort_spec(s.drop_last(), now), s.last(), now, row);
    }
}

proof fn lemma_drop_row_count(s: Seq<Job>, row: u8)
    ensures
        count_on_row(drop_row(s, row), row) == 0,
    decreases s.len(),
{
    if s.len() > 0 {
        lemma_drop_row_count(s.drop_last(), row);
        if s.last().row != row {
            let t = drop_row(s.drop_last(), row);
            assert(t.push(s.last()).drop_last() =~= t);
        }
    }
}

/// After a row is cleared, exactly one job sits on it, and every job on it
/// is the pending blank replacement.
pub proof fn lemma_clear_row_leaves_one_blank(s: Seq<Job>, b: Job, row: u8, now: int)
    requires
        is_blank_job(b, row),
    ensures
        count_on_row(sort_spec(drop_row(s, row).push(b), now), row) == 1,
        forall|i: int|
            0 <= i < sort_spec(drop_row(s, row).push(b), now).len() && #[trigger] sort_spec(
                drop_row(s, row).push(b),
                now,
            )[i].row == row ==> sort_spec(drop_row(s, row).push(b), now)[i] == b,
{
    let kept = drop_row(s, row);
    let t = sort_spec(kept.push(b), now);
    lemma_drop_row_count(s, row);
    assert(kept.push(b).drop_last() =~= kept);
    lemma_sort_spec_count(kept.push(b), now as int, row);
    lemma_sort_spec_sorted(kept.push(b), now);
    lemma_drop_row_facts(s, row);
    assert forall|i: int| 0 <= i < t.len() && #[trigger] t[i].row == row implies t[i] == b by {
        let x = t[i];
        assert(t.contains(x));
        assert(kept.push(b).contains(x));
        let w = choose|w: int| 0 <= w < kept.push(b).len() && kept.push(b)[w] == x;
        if w < kept.len() {
            assert(kept[w] == x);
            assert(kept.contains(x));
        }
    }
}

/// Every job's recorded last run lies at or before instant `now`.
pub open spec fn all_runs_ok(s: Seq<Job>, now: int) -> bool {
    forall|i: int| 0 <= i < s.len() ==> last_run_ok(#[trigger] s[i], now)
}

/// A one-shot job still pending: a job without an interval carries no
/// last-run stamp, because the loop removes a one-shot right after its
/// single render.
pub open spec fn oneshot_pending(j: Job) -> bool {
    j.last_run is Some ==> j.rate is Some
}

/// No spent one-shot sits anywhere in the list.
pub open spec fn all_oneshots_pending(s: Seq<Job>) -> bool {
    forall|i: int| 0 <= i < s.len() ==> oneshot_pending(#[trigger] s[i])
}

/// Every job's scroll cursor is within range for a `cols`-wide display.
pub open spec fn all_scroll_ok(s: Seq<Job>, cols: u8) -> bool {
    forall|i: int| 0 <= i < s.len() ==> scroll_ok(#[trigger] s[i], cols)
}

/// The remaining wait before the head job is due at instant `now`: nothing
/// for a job that never ran or whose interval has already elapsed.
pub open spec fn wait_spec(j: Job, now: int) -> int {
    if j.last_run is None {
        0
    } else if now - j.last_run->0 >= j.rate->0 {
        0
    } else {
        j.rate->0 - (now - j.last_run->0)
    }
}

/// `j` as it stands after one render finishing at instant `now`.
pub open spec fn after_run(j: Job, cols: u8, now: u64) -> Job {
    Job {
        index: advance_index(j.index as int, j.text@.len() as int, cols as int) as i32,
        last_run: Some(now),
        ..j
    }
}

/// The ordered list of display jobs: the head is always the next job to
/// run.  Callers mutate it only through these operations, which keep it
/// sorted by urgency.
pub struct JobList {
    pub jobs: Vec<Job>,
}

impl JobList {
    pub fn new() -> (r: JobList)
        ensures
            r.jobs@.len() == 0,
    {
        JobList { jobs: Vec::new() }
    }

    /// Append a job and restore the urgency order.  A job that has run
    /// must carry an interval: the loop never re-queues a spent one-shot,
    /// and the list holds none.
    pub fn add_job(&mut self, job: Job, now: u64)
        requires
            last_run_ok(job, now as int),
            oneshot_pending(job),
            all_runs_ok(old(self).jobs@, now as int),
        ensures
            final(self).jobs@ == sort_spec(old(self).jobs@.push(job), now as int),
            sorted_by_urgency(final(self).jobs@, now as int),
            final(self).jobs@.len() == old(self).jobs@.len() + 1,
            all_oneshots_pending(old(self).jobs@) ==> all_oneshots_pending(final(self).jobs@),
    {
        self.jobs.push(job);
        proof {
            assert forall|i: int| 0 <= i < self.jobs@.len() implies last_run_ok(
                #[trigger] self.jobs@[i],
                now as int,
            ) by {
                if i < self.jobs@.len() - 1 {
                    assert(self.jobs@[i] == old(self).jobs@[i]);
                }
            }
        }
        sort_jobs(&mut self.jobs, now);
        proof {
            let mid = old(self).jobs@.push(job);
            lemma_sort_spec_sorted(mid, now as int);
            if all_oneshots_pending(old(self).jobs@) {
                assert forall|i: int| 0 <= i < self.jobs@.len() implies oneshot_pending(
                    #[trigger] self.jobs@[i],
                ) by {
                    let x = self.jobs@[i];
                    assert(self.jobs@.contains(x));
                    assert(mid.contains(x));
                    let w = choose|w: int| 0 <= w < mid.len() && mid[w] == x;
                    if w < old(self).jobs@.len() {
                        assert(old(self).jobs@[w] == x);
                    }
                }
            }
        }
    }

    /// Empty the list.
    pub fn clear_jobs(&mut self)
        ensures
            final(self).jobs@.len() == 0,
    {
        self.jobs.clear();
    }

    /// Remove every job bound to `row`, then queue one blank one-shot job
    /// for it so the row is overwritten rather than left stale.
    pub fn clear_row(&mut self, row: u8, now: u64)
        requires
            all_runs_ok(old(self).jobs@, now as int),
        ensures
            exists|b: Job|
                #[trigger] is_blank_job(b, row) && final(self).jobs@ == sort_spec(
                    drop_row(old(self).jobs@, row).push(b),
                    now as int,
                ),
            all_oneshots_pending(old(self).jobs@) ==> all_oneshots_pending(final(self).jobs@),
    {
        let ghost s = self.jobs@;
        let mut kept: Vec<Job> = Vec::new();
        let mut i: usize = 0;
        while i < self.jobs.len()
            invariant
                i <= s.len(),
                self.jobs@ == s,
                kept@ == drop_row(s.take(i as int), row),
            decreases s.len() - i,
        {
            if self.jobs[i].row != row {
                let j = self.jobs[i].clone();
                kept.push(j);
            }
            i = i + 1;
            proof {
                assert(s.take(i as int).drop_last() =~= s.take(i as int - 1));
                assert(s.take(i as int).last() == s[i as int - 1]);
            }
        }
        proof {
            assert(s.take(s.len() as int) =~= s);
        }
        self.jobs = kept;
        let blank = Job::new("", row, None);
        proof {
            reveal_strlit("");
            assert(is_blank_job(blank, row));
            lemma_drop_row_facts(s, row);
            assert forall|w: int| 0 <= w < self.jobs@.len() implies last_run_ok(
                #[trigger] self.jobs@[w],
                now as int,
            ) by {
                assert(drop_row(s, row).contains(self.jobs@[w]));
                let v = choose|v: int| 0 <= v < s.len() && s[v] == self.jobs@[w];
            }
            if all_oneshots_pending(s) {
                assert forall|w: int| 0 <= w < self.jobs@.len() implies oneshot_pending(
                    #[trigger] self.jobs@[w],
                ) by {
                    assert(drop_row(s, row).contains(self.jobs@[w]));
                    let v = choose|v: int| 0 <= v < s.len() && s[v] == self.jobs@[w];
                }
            }
        }
        self.add_job(blank, now);
    }

    /// How long the background loop must still wait before the head job is
    /// due, or nothing when the list is empty.
    pub fn next_wait(&self, now: u64) -> (r: Option<u64>)
        requires
            self.jobs@.len() > 0 ==> last_run_ok(self.jobs@[0], now as int),
            self.jobs@.len() > 0 ==> oneshot_pending(self.jobs@[0]),
        ensures
            match r {
                None => self.jobs@.len() == 0,
                Some(w) => self.jobs@.len() > 0 && w as int == wait_spec(
                    self.jobs@[0],
                    now as int,
                ),
            },
    {
        if self.jobs.len() == 0 {
            return None;
        }
        let job = &self.jobs[0];
        match job.last_run {
            None => Some(0),
            Some(lr) => match job.rate {
                Some(rate) => {
                    let elapsed = now - lr;
                    if elapsed >= rate {
                        Some(0)
                    } else {
                        Some(rate - elapsed)
                    }
                },
                None => {
                    proof {
                        assert(false);
                    }
                    Some(0)
                },
            },
        }
    }

    /// Run the head job once at instant `now`: render it, stamp its last
    /// run, drop it if it was one-shot, and restore the urgency order.
    /// Returns the emitted transitions, or nothing when the list is empty.
    pub fn run_head(&mut self, driver: &LcdDriver, now: u64) -> (r: Option<Vec<Action>>)
        requires
            driver.wf(),
            all_runs_ok(old(self).jobs@, now as int),
            all_scroll_ok(old(self).jobs@, driver.num_cols),
        ensures
            match r {
                None => final(self).jobs@ == old(self).jobs@ && old(self).jobs@.len() == 0,
                Some(acts) => {
                    let head = old(self).jobs@[0];
                    &&& old(self).jobs@.len() > 0
                    &&& acts@ == driver.set_cursor_seq(head.row, 0) + driver.print_seq(
                        window_spec(head.text@, head.index as int, driver.num_cols as int),
                    )
                    &&& (head.rate is None ==> final(self).jobs@ == sort_spec(
                        old(self).jobs@.drop_first(),
                        now as int,
                    ))
                    &&& (head.rate is Some ==> final(self).jobs@ == sort_spec(
                        old(self).jobs@.update(0, after_run(head, driver.num_cols, now)),
                        now as int,
                    ))
                },
            },
            all_oneshots_pending(old(self).jobs@) ==> all_oneshots_pending(final(self).jobs@),
    {
        if self.jobs.len() == 0 {
            return None;
        }
        let ghost s = self.jobs@;
        let mut head = self.jobs[0].clone();
        let acts = head.run(driver);
        head.last_run = Some(now);
        proof {
            assert(head == after_run(s[0], driver.num_cols, now));
        }
        let one_shot = matches!(head.rate, None);
        if one_shot {
            self.jobs.remove(0);
            proof {
                assert(self.jobs@ =~= s.drop_first());
            }
        } else {
            self.jobs.remove(0);
            self.jobs.insert(0, head);
            proof {
                assert(self.jobs@ =~= s.update(0, head));
            }
        }
        proof {
            assert forall|i: int| 0 <= i < self.jobs@.len() implies last_run_ok(
                #[trigger] self.jobs@[i],
                now as int,
            ) by {
                if one_shot {
                    assert(self.jobs@[i] == s[i + 1]);
                } else {
                    if i > 0 {
                        assert(self.jobs@[i] == s[i]);
                    }
                }
            }
        }
        let ghost mid = self.jobs@;
        sort_jobs(&mut self.jobs, now);
        proof {
            if all_oneshots_pending(s) {
                lemma_sort_spec_sorted(mid, now as int);
                assert forall|i: int| 0 <= i < self.jobs@.len() implies oneshot_pending(
                    #[trigger] self.jobs@[i],
                ) by {
                    let x = self.jobs@[i];
                    assert(self.jobs@.contains(x));
                    assert(mid.contains(x));
                    let w = choose|w: int| 0 <= w < mid.len() && mid[w] == x;
                    if one_shot {
                        assert(mid[w] == s[w + 1]);
                    } else {
                        if w > 0 {
                            assert(mid[w] == s[w]);
                        } else {
                            assert(s[0].rate is Some);
                        }
                    }
                }
            }
        }
        Some(acts)
    }
}

} // verus!
