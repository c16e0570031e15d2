//! Archiving a week: snapshotting it with a timestamp onto the archive
//! log, and collecting the recurring tasks to carry into the fresh week.

use vstd::prelude::*;
use crate::calendar::Calendar;
use crate::calendar::DayEntry;
use crate::calendar::DayEntryView;
use crate::calendar::TaskView;
use crate::calendar::day_index;
use crate::calendar::lemma_day_index;
use crate::calendar::lemma_day_index_push;
use crate::calendar::spec_add_task;
use crate::calendar::spec_get;
use crate::calendar::wf_week;

verus! {

/// One archived snapshot: the instant it was taken and the full week at
/// that moment. Snapshots are only ever appended to the log.
pub struct ArchivedWeek {
    pub timestamp: String,
    pub week: Calendar,
}

/// The mathematical value of an archived snapshot.
#[verifier::ext_equal]
pub struct ArchivedWeekView {
    pub timestamp: Seq<char>,
    pub week: Seq<DayEntryView>,
}

impl View for ArchivedWeek {
    type V = ArchivedWeekView;

    open spec fn view(&self) -> ArchivedWeekView {
        ArchivedWeekView { timestamp: self.timestamp@, week: self.week@ }
    }
}

/// A decimal digit.
pub open spec fn is_ascii_digit(c: char) -> bool {
    '0' <= c && c <= '9'
}

/// Digits at every position of `s` in `[from, to)`.
pub open spec fn all_digits(s: Seq<char>, from: int, to: int) -> bool {
    forall|k: int| from <= k < to ==> is_ascii_digit(#[trigger] s[k])
}

/// A year as RFC 3339 writes it: four digits, or — outside 0000..=9999 —
/// an explicit sign followed by four to six digits.
pub open spec fn is_rfc3339_year(y: Seq<char>) -> bool {
    ||| (y.len() == 4 && all_digits(y, 0, 4))
    ||| ((y.len() == 5 || y.len() == 6 || y.len() == 7) && (y[0] == '+' || y[0] == '-')
        && all_digits(y, 1, y.len() as int))
}

/// `-MM-DDTHH:MM:SS`: the day-and-time part that follows the year.
pub open spec fn is_rfc3339_clock(s: Seq<char>) -> bool {
    &&& s.len() == 15
    &&& s[0] == '-'
    &&& all_digits(s, 1, 3)
    &&& s[3] == '-'
    &&& all_digits(s, 4, 6)
    &&& s[6] == 'T'
    &&& all_digits(s, 7, 9)
    &&& s[9] == ':'
    &&& all_digits(s, 10, 12)
    &&& s[12] == ':'
    &&& all_digits(s, 13, 15)
}

/// A sub-second fraction: absent, or a point and exactly three, six or
/// nine digits.
pub open spec fn is_rfc3339_fraction(f: Seq<char>) -> bool {
    ||| f.len() == 0
    ||| (f.len() >= 1 && f[0] == '.' && (f.len() == 4 || f.len() == 7 || f.len() == 10)
        && all_digits(f, 1, f.len() as int))
}

/// The UTC instant shape with a fraction part of the given length.
pub open spec fn rfc3339_utc_with_fraction(s: Seq<char>, flen: int) -> bool {
    let ylen = s.len() as int - 21 - flen;
    &&& 4 <= ylen <= 7
    &&& is_rfc3339_year(s.take(ylen))
    &&& is_rfc3339_clock(s.subrange(ylen, ylen + 15))
    &&& is_rfc3339_fraction(s.subrange(ylen + 15, ylen + 15 + flen))
    &&& s.skip(ylen + 15 + flen) == "+00:00"@
}

/// An RFC 3339 (hence ISO 8601) instant in UTC: a year, then
/// `-MM-DDTHH:MM:SS`, an optional sub-second fraction, and the `+00:00`
/// offset.
pub open spec fn is_rfc3339_utc(s: Seq<char>) -> bool {
    ||| rfc3339_utc_with_fraction(s, 0)
    ||| rfc3339_utc_with_fraction(s, 4)
    ||| rfc3339_utc_with_fraction(s, 7)
    ||| rfc3339_utc_with_fraction(s, 10)
}

/// Relies on `chrono::DateTime::<Utc>::from(SystemTime)` and
/// `chrono::DateTime::to_rfc3339`: the current instant — read through
/// the conversion that handles a clock set before the Unix epoch rather
/// than panicking on it — rendered as an RFC 3339 timestamp. The clock
/// decides the instant, so only the string's shape is promised; chrono's
/// RFC 3339 writer always emits a year, `-MM-DDTHH:MM:SS`, a fraction of
/// zero, three, six or nine digits, and the `+00:00` offset.
#[verifier::external_body]
fn now_rfc3339() -> (r: String)
    ensures
        is_rfc3339_utc(r@),
{
    let now: chrono::DateTime<chrono::Utc> = chrono::DateTime::from(std::time::SystemTime::now());
    now.to_rfc3339()
}

/// The recurring tasks of a day, in their original relative order.
pub open spec fn spec_recurring_tasks(ts: Seq<TaskView>) -> Seq<TaskView>
    decreases ts.len(),
{
    if ts.len() == 0 {
        Seq::empty()
    } else if ts[0].recurring {
        seq![ts[0]] + spec_recurring_tasks(ts.skip(1))
    } else {
        spec_recurring_tasks(ts.skip(1))
    }
}

/// The non-empty recurring groups of a week, one per day that has a
/// recurring task, in the week's own day order.
pub open spec fn spec_recurring_week(w: Seq<DayEntryView>) -> Seq<DayEntryView>
    decreases w.len(),
{
    if w.len() == 0 {
        Seq::empty()
    } else {
        let group = spec_recurring_tasks(w[0].tasks);
        let rest = spec_recurring_week(w.skip(1));
        if group.len() == 0 {
            rest
        } else {
            seq![DayEntryView { day: w[0].day, tasks: group }] + rest
        }
    }
}

/// `spec_recurring_tasks` is exactly the filter that keeps the recurring
/// tasks: every kept task is recurring, and the kept tasks appear in
/// their original order.
pub proof fn lemma_recurring_tasks_is_filter(ts: Seq<TaskView>)
    ensures
        spec_recurring_tasks(ts) == ts.filter(|t: TaskView| t.recurring),
    decreases ts.len(),
{
    reveal(Seq::filter);
    let pred = |t: TaskView| t.recurring;
    if ts.len() == 0 {
        assert(ts.filter(pred) =~= Seq::<TaskView>::empty());
    } else {
        lemma_recurring_tasks_is_filter(ts.skip(1));
        Seq::filter_distributes_over_add(seq![ts[0]], ts.skip(1), pred);
        assert(seq![ts[0]] + ts.skip(1) =~= ts);
        let e = Seq::<TaskView>::empty();
        assert(e.filter(pred) =~= e);
        assert(seq![ts[0]].drop_last() =~= e);
        assert(seq![ts[0]].last() == ts[0]);
        assert(seq![ts[0]].filter(pred) =~= if ts[0].recurring {
            seq![ts[0]]
        } else {
            Seq::<TaskView>::empty()
        });
        if ts[0].recurring {
            assert(spec_recurring_tasks(ts) =~= seq![ts[0]].filter(pred) + ts.skip(1).filter(pred));
        } else {
            assert(spec_recurring_tasks(ts) =~= seq![ts[0]].filter(pred) + ts.skip(1).filter(pred));
        }
    }
}

proof fn lemma_spec_get_cons(w: Seq<DayEntryView>, d: Seq<char>)
    requires
        w.len() > 0,
        w[0].day != d,
    ensures
        spec_get(w, d) == spec_get(w.skip(1), d),
{
    lemma_day_index(w, d);
    lemma_day_index(w.skip(1), d);
    if day_index(w.skip(1), d) != -1 {
        assert(w[day_index(w.skip(1), d) + 1] == w.skip(1)[day_index(w.skip(1), d)]);
    }
}

/// Archiving preserves exactly the recurring tasks and nothing else: in
/// a well-formed week, looking any day up among the preserved groups
/// yields precisely that day's recurring tasks in their original order,
/// and a day appears there if and only if it has at least one recurring
/// task. The groups again carry pairwise distinct day names.
pub proof fn lemma_recurring_week_exact(w: Seq<DayEntryView>)
    requires
        wf_week(w),
    ensures
        wf_week(spec_recurring_week(w)),
        forall|d: Seq<char>| #[trigger] spec_get(spec_recurring_week(w), d) == (match spec_get(
            w,
            d,
        ) {
            Some(ts) => if spec_recurring_tasks(ts).len() > 0 {
                Some(spec_recurring_tasks(ts))
            } else {
                None
            },
            None => None::<Seq<TaskView>>,
        }),
    decreases w.len(),
{
    if w.len() == 0 {
        assert forall|d: Seq<char>| #[trigger] spec_get(spec_recurring_week(w), d) == (match
            spec_get(w, d) {
            Some(ts) => if spec_recurring_tasks(ts).len() > 0 {
                Some(spec_recurring_tasks(ts))
            } else {
                None
            },
            None => None::<Seq<TaskView>>,
        }) by {
            lemma_day_index(w, d);
            lemma_day_index(spec_recurring_week(w), d);
        }
    } else {
        let e0 = w[0];
        let rest = w.skip(1);
        let g0 = spec_recurring_tasks(e0.tasks);
        let rw_rest = spec_recurring_week(rest);
        assert(forall|k: int| 0 <= k < rest.len() ==> rest[k] == w[k + 1]);
        assert(wf_week(rest));
        lemma_recurring_week_exact(rest);
        // the head's day occurs nowhere in the tail, hence nowhere in its groups
        assert(forall|k: int| 0 <= k < rest.len() ==> rest[k].day != e0.day);
        lemma_day_index(rest, e0.day);
        assert(day_index(rest, e0.day) == -1) by {
            if day_index(rest, e0.day) != -1 {
                assert(rest[day_index(rest, e0.day)].day == e0.day);
            }
        }
        assert(spec_get(rest, e0.day) is None);
        assert(spec_get(rw_rest, e0.day) is None);
        lemma_day_index(rw_rest, e0.day);
        assert(day_index(rw_rest, e0.day) == -1);
        assert(forall|k: int| 0 <= k < rw_rest.len() ==> rw_rest[k].day != e0.day);
        if g0.len() == 0 {
            assert(spec_recurring_week(w) == rw_rest);
            assert forall|d: Seq<char>| #[trigger] spec_get(spec_recurring_week(w), d) == (match
                spec_get(w, d) {
                Some(ts) => if spec_recurring_tasks(ts).len() > 0 {
                    Some(spec_recurring_tasks(ts))
                } else {
                    None
                },
                None => None::<Seq<TaskView>>,
            }) by {
                if d == e0.day {
                    lemma_day_index(w, d);
                    assert(day_index(w, d) == 0);
                    assert(spec_get(w, d) == Some(e0.tasks));
                } else {
                    lemma_spec_get_cons(w, d);
                }
            }
        } else {
            let head = DayEntryView { day: e0.day, tasks: g0 };
            let rw = seq![head] + rw_rest;
            assert(spec_recurring_week(w) == rw);
            assert(rw[0] == head);
            assert(forall|k: int| 0 <= k < rw_rest.len() ==> rw[k + 1] == rw_rest[k]);
            assert(wf_week(rw)) by {
                assert forall|x: int, y: int| 0 <= x < y < rw.len() implies rw[x].day
                    != rw[y].day by {
                    if x == 0 {
                        assert(rw[y] == rw_rest[y - 1]);
                    } else {
                        assert(rw[x] == rw_rest[x - 1]);
                        assert(rw[y] == rw_rest[y - 1]);
                    }
                }
            }
            assert forall|d: Seq<char>| #[trigger] spec_get(spec_recurring_week(w), d) == (match
                spec_get(w, d) {
                Some(ts) => if spec_recurring_tasks(ts).len() > 0 {
                    Some(spec_recurring_tasks(ts))
                } else {
                    None
                },
                None => None::<Seq<TaskView>>,
            }) by {
                if d == e0.day {
                    lemma_day_index(w, d);
                    assert(day_index(w, d) == 0);
                    assert(spec_get(w, d) == Some(e0.tasks));
                    lemma_day_index(rw, d);
                    assert(day_index(rw, d) == 0);
                    assert(spec_get(rw, d) == Some(g0));
                } else {
                    lemma_spec_get_cons(w, d);
                    assert(rw[0].day == e0.day);
                    lemma_spec_get_cons(rw, d);
                    assert(rw.skip(1) =~= rw_rest);
                }
            }
        }
    }
}

/// Collects, day by day in stored order, the recurring tasks of the week,
/// keeping each day's original task order and skipping days that have
/// none.
pub fn collect_recurring(week: &Calendar) -> (r: Vec<DayEntry>)
    ensures
        r@.map_values(|e: DayEntry| e@) == spec_recurring_week(week@),
{
    let ghost wv = week@;
    let mut out: Vec<DayEntry> = Vec::new();
    proof {
        assert(out@.map_values(|e: DayEntry| e@) =~= Seq::<DayEntryView>::empty());
        assert(wv.skip(0) =~= wv);
        assert(Seq::<DayEntryView>::empty() + spec_recurring_week(wv) =~= spec_recurring_week(wv));
    }
    let mut i: usize = 0;
    let n = week.days.len();
    while i < n
        invariant
            n == week.days@.len(),
            n == wv.len(),
            wv == week@,
            i <= n,
            out@.map_values(|e: DayEntry| e@) + spec_recurring_week(wv.skip(i as int))
                == spec_recurring_week(wv),
        decreases n - i,
    {
        let ghost outv0 = out@.map_values(|e: DayEntry| e@);
        proof {
            assert(wv.skip(i as int)[0] == wv[i as int]);
            assert(wv.skip(i as int).skip(1) =~= wv.skip(i as int + 1));
        }
        let entry = &week.days[i];
        let ghost ts = wv[i as int].tasks;
        let mut rec: Vec<crate::calendar::Task> = Vec::new();
        proof {
            assert(rec@.map_values(|t: crate::calendar::Task| t@) =~= Seq::<TaskView>::empty());
            assert(ts.skip(0) =~= ts);
            assert(Seq::<TaskView>::empty() + spec_recurring_tasks(ts) =~= spec_recurring_tasks(
                ts,
            ));
        }
        let mut j: usize = 0;
        let m = entry.tasks.len();
        while j < m
            invariant
                m == entry.tasks@.len(),
                m == ts.len(),
                ts == entry.tasks@.map_values(|t: crate::calendar::Task| t@),
                j <= m,
                rec@.map_values(|t: crate::calendar::Task| t@) + spec_recurring_tasks(
                    ts.skip(j as int),
                ) == spec_recurring_tasks(ts),
            decreases m - j,
        {
            let ghost recv0 = rec@.map_values(|t: crate::calendar::Task| t@);
            proof {
                assert(ts.skip(j as int)[0] == ts[j as int]);
                assert(ts.skip(j as int).skip(1) =~= ts.skip(j as int + 1));
            }
            if entry.tasks[j].recurring {
                rec.push(entry.tasks[j].clone());
                proof {
                    assert(rec@.map_values(|t: crate::calendar::Task| t@) =~= recv0.push(
                        ts[j as int],
                    ));
                    assert(recv0.push(ts[j as int]) + spec_recurring_tasks(ts.skip(j as int + 1))
                        =~= recv0 + spec_recurring_tasks(ts.skip(j as int)));
                }
            }
            j = j + 1;
        }
        proof {
            assert(ts.skip(m as int) =~= Seq::<TaskView>::empty());
            assert(spec_recurring_tasks(ts.skip(m as int)) =~= Seq::<TaskView>::empty());
            assert(rec@.map_values(|t: crate::calendar::Task| t@) + Seq::<TaskView>::empty()
                =~= rec@.map_values(|t: crate::calendar::Task| t@));
        }
        if rec.len() > 0 {
            let day = entry.day.clone();
            out.push(DayEntry { day, tasks: rec });
            proof {
                assert(out@.map_values(|e: DayEntry| e@) =~= outv0.push(
                    DayEntryView { day: wv[i as int].day, tasks: spec_recurring_tasks(ts) },
                ));
                assert(outv0.push(
                    DayEntryView { day: wv[i as int].day, tasks: spec_recurring_tasks(ts) },
                ) + spec_recurring_week(wv.skip(i as int + 1)) =~= outv0 + spec_recurring_week(
                    wv.skip(i as int),
                ));
            }
        }
        i = i + 1;
    }
    proof {
        assert(wv.skip(n as int) =~= Seq::<DayEntryView>::empty());
        assert(out@.map_values(|e: DayEntry| e@) + Seq::<DayEntryView>::empty() =~= out@.map_values(
            |e: DayEntry| e@,
        ));
    }
    out
}

/// Appends to the archive log a snapshot of the week, stamped with the
/// current instant, and returns the recurring groups to carry forward.
/// The passed-in week itself is not changed.
pub fn archive_week(week: &Calendar, log: &mut Vec<ArchivedWeek>) -> (r: Vec<DayEntry>)
    ensures
        final(log)@.len() == old(log)@.len() + 1,
        forall|k: int| 0 <= k < old(log)@.len() ==> final(log)@[k] == old(log)@[k],
        final(log)@.last().week@ == week@,
        is_rfc3339_utc(final(log)@.last().timestamp@),
        r@.map_values(|e: DayEntry| e@) == spec_recurring_week(week@),
{
    let timestamp = now_rfc3339();
    let snapshot = ArchivedWeek { timestamp, week: week.clone() };
    log.push(snapshot);
    collect_recurring(week)
}

/// Pushing each task of `ts` in turn under day `d`.
pub open spec fn spec_push_day_tasks(
    w: Seq<DayEntryView>,
    d: Seq<char>,
    ts: Seq<TaskView>,
) -> Seq<DayEntryView>
    decreases ts.len(),
{
    if ts.len() == 0 {
        w
    } else {
        spec_push_day_tasks(spec_add_task(w, d, ts[0]), d, ts.skip(1))
    }
}

/// Folding every group of `ps`, in order, into the week `w`.
pub open spec fn spec_merge_groups(
    w: Seq<DayEntryView>,
    ps: Seq<DayEntryView>,
) -> Seq<DayEntryView>
    decreases ps.len(),
{
    if ps.len() == 0 {
        w
    } else {
        spec_merge_groups(spec_push_day_tasks(w, ps[0].day, ps[0].tasks), ps.skip(1))
    }
}

proof fn lemma_recurring_week_nonempty(w: Seq<DayEntryView>)
    ensures
        forall|i: int| 0 <= i < spec_recurring_week(w).len()
            ==> #[trigger] spec_recurring_week(w)[i].tasks.len() > 0,
    decreases w.len(),
{
    if w.len() > 0 {
        lemma_recurring_week_nonempty(w.skip(1));
        let g0 = spec_recurring_tasks(w[0].tasks);
        let tail = spec_recurring_week(w.skip(1));
        if g0.len() > 0 {
            let rw = seq![DayEntryView { day: w[0].day, tasks: g0 }] + tail;
            assert(spec_recurring_week(w) == rw);
            assert forall|i: int| 0 <= i < spec_recurring_week(w).len()
                implies #[trigger] spec_recurring_week(w)[i].tasks.len() > 0 by {
                if i > 0 {
                    assert(rw[i] == tail[i - 1]);
                    assert(tail[i - 1].tasks.len() > 0);
                }
            }
        } else {
            assert(spec_recurring_week(w) == tail);
            assert forall|i: int| 0 <= i < spec_recurring_week(w).len()
                implies #[trigger] spec_recurring_week(w)[i].tasks.len() > 0 by {
                assert(tail[i].tasks.len() > 0);
            }
        }
    }
}

proof fn lemma_push_tasks_grows(
    w: Seq<DayEntryView>,
    d: Seq<char>,
    acc: Seq<TaskView>,
    ts: Seq<TaskView>,
)
    requires
        forall|k: int| 0 <= k < w.len() ==> w[k].day != d,
    ensures
        spec_push_day_tasks(w.push(DayEntryView { day: d, tasks: acc }), d, ts) == w.push(
            DayEntryView { day: d, tasks: acc + ts },
        ),
    decreases ts.len(),
{
    let entry = DayEntryView { day: d, tasks: acc };
    let we = w.push(entry);
    if ts.len() == 0 {
        assert(acc + ts =~= acc);
        assert(entry =~= (DayEntryView { day: d, tasks: acc + ts }));
    } else {
        lemma_day_index(w, d);
        assert(day_index(w, d) == -1) by {
            if day_index(w, d) != -1 {
                assert(w[day_index(w, d)].day == d);
            }
        }
        lemma_day_index_push(w, entry, d);
        assert(day_index(we, d) == w.len() as int);
        assert(we[w.len() as int] == entry);
        let grown = DayEntryView { day: d, tasks: acc.push(ts[0]) };
        assert(we.update(w.len() as int, grown) =~= w.push(grown));
        lemma_push_tasks_grows(w, d, acc.push(ts[0]), ts.skip(1));
        assert(acc.push(ts[0]) + ts.skip(1) =~= acc + ts);
    }
}

proof fn lemma_push_day_tasks_fresh(w: Seq<DayEntryView>, d: Seq<char>, ts: Seq<TaskView>)
    requires
        ts.len() >= 1,
        forall|k: int| 0 <= k < w.len() ==> w[k].day != d,
    ensures
        spec_push_day_tasks(w, d, ts) == w.push(DayEntryView { day: d, tasks: ts }),
{
    lemma_day_index(w, d);
    assert(day_index(w, d) == -1) by {
        if day_index(w, d) != -1 {
            assert(w[day_index(w, d)].day == d);
        }
    }
    assert(spec_add_task(w, d, ts[0]) == w.push(DayEntryView { day: d, tasks: seq![ts[0]] }));
    lemma_push_tasks_grows(w, d, seq![ts[0]], ts.skip(1));
    assert(seq![ts[0]] + ts.skip(1) =~= ts);
}

proof fn lemma_merge_disjoint(w: Seq<DayEntryView>, ps: Seq<DayEntryView>)
    requires
        forall|i: int| 0 <= i < ps.len() ==> #[trigger] ps[i].tasks.len() > 0,
        wf_week(ps),
        forall|i: int, k: int| 0 <= i < ps.len() && 0 <= k < w.len() ==> w[k].day != ps[i].day,
    ensures
        spec_merge_groups(w, ps) == w + ps,
    decreases ps.len(),
{
    if ps.len() == 0 {
        assert(w + ps =~= w);
    } else {
        lemma_push_day_tasks_fresh(w, ps[0].day, ps[0].tasks);
        assert((DayEntryView { day: ps[0].day, tasks: ps[0].tasks }) =~= ps[0]);
        let w2 = w.push(ps[0]);
        assert(w2 =~= w + seq![ps[0]]);
        let rest = ps.skip(1);
        assert(forall|k: int| 0 <= k < rest.len() ==> rest[k] == ps[k + 1]);
        assert(wf_week(rest));
        assert(forall|i: int, k: int|
            0 <= i < rest.len() && 0 <= k < w2.len() ==> w2[k].day != rest[i].day);
        lemma_merge_disjoint(w2, rest);
        assert(w2 + rest =~= w + ps);
    }
}

/// Rebuilding the fresh week from the preserved groups reinserts exactly
/// the recurring tasks and nothing else: for a well-formed week, the
/// rebuilt week equals the preserved groups themselves.
pub proof fn lemma_rebuild_after_archive(w: Seq<DayEntryView>)
    requires
        wf_week(w),
    ensures
        spec_merge_groups(Seq::empty(), spec_recurring_week(w)) == spec_recurring_week(w),
{
    let rw = spec_recurring_week(w);
    lemma_recurring_week_exact(w);
    lemma_recurring_week_nonempty(w);
    lemma_merge_disjoint(Seq::empty(), rw);
    assert(Seq::<DayEntryView>::empty() + rw =~= rw);
}

impl Calendar {
    /// Empties the week, then re-adds every task of every group in order:
    /// the rebuild step after archiving, fed with the recurring groups.
    pub fn reset_week(&mut self, groups: &Vec<DayEntry>)
        ensures
            final(self)@ == spec_merge_groups(
                Seq::empty(),
                groups@.map_values(|e: DayEntry| e@),
            ),
            final(self).wf(),
    {
        let ghost ps = groups@.map_values(|e: DayEntry| e@);
        self.days = Vec::new();
        proof {
            assert(self@ =~= Seq::<DayEntryView>::empty());
            assert(ps.skip(0) =~= ps);
        }
        let mut i: usize = 0;
        let n = groups.len();
        while i < n
            invariant
                n == groups@.len(),
                n == ps.len(),
                ps == groups@.map_values(|e: DayEntry| e@),
                i <= n,
                self.wf(),
                spec_merge_groups(self@, ps.skip(i as int)) == spec_merge_groups(
                    Seq::empty(),
                    ps,
                ),
            decreases n - i,
        {
            proof {
                assert(ps.skip(i as int)[0] == ps[i as int]);
                assert(ps.skip(i as int).skip(1) =~= ps.skip(i as int + 1));
            }
            let group = &groups[i];
            let ghost d = ps[i as int].day;
            let ghost ts = ps[i as int].tasks;
            let ghost w_start = self@;
            proof {
                assert(ts.skip(0) =~= ts);
            }
            let mut j: usize = 0;
            let m = group.tasks.len();
            while j < m
                invariant
                    m == group.tasks@.len(),
                    m == ts.len(),
                    ts == group.tasks@.map_values(|t: crate::calendar::Task| t@),
                    d == group.day@,
                    j <= m,
                    self.wf(),
                    spec_push_day_tasks(self@, d, ts.skip(j as int)) == spec_push_day_tasks(
                        w_start,
                        d,
                        ts,
                    ),
                decreases m - j,
            {
                proof {
                    assert(ts.skip(j as int)[0] == ts[j as int]);
                    assert(ts.skip(j as int).skip(1) =~= ts.skip(j as int + 1));
                }
                let day = group.day.clone();
                let task = group.tasks[j].clone();
                self.push_task(day, task);
                j = j + 1;
            }
            proof {
                assert(ts.skip(m as int) =~= Seq::<TaskView>::empty());
            }
            i = i + 1;
        }
        proof {
            assert(ps.skip(n as int) =~= Seq::<DayEntryView>::empty());
        }
    }
}

} // verus!
