//! Rendering the week as terminal lines: the seven canonical days in
//! fixed order, each with a capitalized label, its tasks as bullet lines
//! (with a recurrence marker and a location suffix), or a placeholder.

use vstd::prelude::*;
use vstd::string::StringExecFns;
use crate::calendar::Calendar;
use crate::calendar::DayEntryView;
use crate::calendar::Task;
use crate::calendar::TaskView;
use crate::calendar::day_index;
use crate::calendar::lemma_day_index;
use crate::calendar::lemma_day_index_push;
use crate::calendar::spec_add_task;
use crate::calendar::spec_clear_day;
use crate::calendar::spec_get;
use crate::utils::capitalize_first;
use crate::utils::ascii_lower_token;
use crate::utils::lemma_normalize_day_cases;
use crate::utils::spec_capitalize_first;
use crate::utils::spec_normalize_day;
use crate::utils::str_eq;

verus! {

/// The canonical day name shown at position `i` of the week listing,
/// Monday first.
pub open spec fn spec_day_name(i: int) -> Seq<char> {
    if i == 0 {
        "monday"@
    } else if i == 1 {
        "tuesday"@
    } else if i == 2 {
        "wednesday"@
    } else if i == 3 {
        "thursday"@
    } else if i == 4 {
        "friday"@
    } else if i == 5 {
        "saturday"@
    } else {
        "sunday"@
    }
}

/// The canonical day name at position `i`, Monday first.
pub fn day_name(i: usize) -> (r: &'static str)
    requires
        i < 7,
    ensures
        r@ == spec_day_name(i as int),
{
    if i == 0 {
        "monday"
    } else if i == 1 {
        "tuesday"
    } else if i == 2 {
        "wednesday"
    } else if i == 3 {
        "thursday"
    } else if i == 4 {
        "friday"
    } else if i == 5 {
        "saturday"
    } else {
        "sunday"
    }
}

/// The display color assigned to a day label; unknown names fall back to
/// white.
pub open spec fn spec_day_color(d: Seq<char>) -> Seq<char> {
    if d == "monday"@ {
        "green"@
    } else if d == "tuesday"@ {
        "blue"@
    } else if d == "wednesday"@ {
        "red"@
    } else if d == "thursday"@ {
        "yellow"@
    } else if d == "friday"@ {
        "magenta"@
    } else if d == "saturday"@ {
        "cyan"@
    } else if d == "sunday"@ {
        "white"@
    } else {
        "white"@
    }
}

/// The color name a day is shown with: Monday green, Tuesday blue,
/// Wednesday red, Thursday yellow, Friday magenta, Saturday cyan,
/// Sunday (like any unknown name) white.
pub fn day_color(day: &str) -> (r: &'static str)
    ensures
        r@ == spec_day_color(day@),
{
    if str_eq(day, "monday") {
        "green"
    } else if str_eq(day, "tuesday") {
        "blue"
    } else if str_eq(day, "wednesday") {
        "red"
    } else if str_eq(day, "thursday") {
        "yellow"
    } else if str_eq(day, "friday") {
        "magenta"
    } else if str_eq(day, "saturday") {
        "cyan"
    } else {
        "white"
    }
}

/// The bullet line of one task: description, then a recurrence marker if
/// it recurs, then the location suffix if a location is set.
pub open spec fn spec_task_line(t: TaskView) -> Seq<char> {
    "  \u{2022} "@ + t.description + (if t.recurring {
        " \u{21bb}"@
    } else {
        Seq::empty()
    }) + (match t.location {
        Some(l) => " (at "@ + l + ")"@,
        None => Seq::empty(),
    })
}

/// The bullet lines of a day's tasks, in stored order.
pub open spec fn spec_task_lines(ts: Seq<TaskView>) -> Seq<Seq<char>> {
    ts.map_values(|t: TaskView| spec_task_line(t))
}

/// The placeholder shown under a day with no tasks.
pub open spec fn no_items_line() -> Seq<char> {
    "  (no items)"@
}

/// What is listed under a day: its task lines, or the placeholder when
/// the day has no entry or an empty one.
pub open spec fn spec_day_body(w: Seq<DayEntryView>, d: Seq<char>) -> Seq<Seq<char>> {
    match spec_get(w, d) {
        Some(ts) => if ts.len() == 0 {
            seq![no_items_line()]
        } else {
            spec_task_lines(ts)
        },
        None => seq![no_items_line()],
    }
}

/// A day's full section: a blank spacer line, the capitalized label with
/// a colon, then the day's body.
pub open spec fn spec_day_section(w: Seq<DayEntryView>, d: Seq<char>) -> Seq<Seq<char>> {
    seq![""@, spec_capitalize_first(d) + ":"@] + spec_day_body(w, d)
}

/// The sections of the days from position `i` on.
pub open spec fn spec_render_days(w: Seq<DayEntryView>, i: int) -> Seq<Seq<char>>
    decreases 7 - i,
{
    if i < 0 || i >= 7 {
        Seq::empty()
    } else {
        spec_day_section(w, spec_day_name(i)) + spec_render_days(w, i + 1)
    }
}

/// The whole listing: a banner, then all seven canonical days in fixed
/// order, Monday through Sunday.
pub open spec fn spec_render(w: Seq<DayEntryView>) -> Seq<Seq<char>> {
    seq!["Weekly Calendar:"@, "================"@] + spec_render_days(w, 0)
}

/// The bullet line of one task.
pub fn task_row(t: &Task) -> (r: String)
    ensures
        r@ == spec_task_line(t@),
{
    let mut r = String::from_str("  \u{2022} ");
    r.append(t.description.as_str());
    if t.recurring {
        r.append(" \u{21bb}");
    }
    match &t.location {
        Some(l) => {
            r.append(" (at ");
            r.append(l.as_str());
            r.append(")");
        },
        None => {},
    }
    proof {
        assert(r@ =~= spec_task_line(t@));
    }
    r
}

/// The capitalized label of a day, with its colon.
pub fn day_label(day: &str) -> (r: String)
    ensures
        r@ == spec_capitalize_first(day@) + ":"@,
{
    let mut r = capitalize_first(day);
    r.append(":");
    r
}

impl Calendar {
    /// The lines listed under the (already normalized) day name: one
    /// bullet line per task, or the placeholder.
    pub fn day_rows(&self, day: &str) -> (r: Vec<String>)
        ensures
            r@.map_values(|s: String| s@) == spec_day_body(self@, day@),
    {
        match self.tasks_for(day) {
            Some(tasks) => {
                if tasks.len() == 0 {
                    let mut out: Vec<String> = Vec::new();
                    out.push(String::from_str("  (no items)"));
                    proof {
                        assert(out@.map_values(|s: String| s@) =~= seq![no_items_line()]);
                    }
                    out
                } else {
                    let ghost ts = tasks@.map_values(|t: Task| t@);
                    let mut out: Vec<String> = Vec::new();
                    let mut j: usize = 0;
                    let m = tasks.len();
                    while j < m
                        invariant
                            m == tasks@.len(),
                            m == ts.len(),
                            ts == tasks@.map_values(|t: Task| t@),
                            j <= m,
                            out@.len() == j,
                            forall|k: int| 0 <= k < j ==> out@[k]@ == spec_task_line(ts[k]),
                        decreases m - j,
                    {
                        out.push(task_row(&tasks[j]));
                        j = j + 1;
                    }
                    proof {
                        assert(out@.map_values(|s: String| s@) =~= spec_task_lines(ts));
                    }
                    out
                }
            },
            None => {
                let mut out: Vec<String> = Vec::new();
                out.push(String::from_str("  (no items)"));
                proof {
                    assert(out@.map_values(|s: String| s@) =~= seq![no_items_line()]);
                }
                out
            },
        }
    }

    /// The whole week as display lines: banner, then each canonical day's
    /// spacer, label and body, Monday through Sunday.
    pub fn render_lines(&self) -> (r: Vec<String>)
        ensures
            r@.map_values(|s: String| s@) == spec_render(self@),
    {
        let ghost w = self@;
        let mut out: Vec<String> = Vec::new();
        out.push(String::from_str("Weekly Calendar:"));
        out.push(String::from_str("================"));
        proof {
            assert(out@.map_values(|s: String| s@) + spec_render_days(w, 0) =~= spec_render(w));
        }
        let mut i: usize = 0;
        while i < 7
            invariant
                w == self@,
                i <= 7,
                out@.map_values(|s: String| s@) + spec_render_days(w, i as int) == spec_render(w),
            decreases 7 - i,
        {
            let ghost outv0 = out@.map_values(|s: String| s@);
            let d = day_name(i);
            out.push(String::new());
            out.push(day_label(d));
            let mut rows = self.day_rows(d);
            let ghost rowsv = rows@.map_values(|s: String| s@);
            out.append(&mut rows);
            proof {
                reveal_strlit("");
                assert(""@ =~= Seq::<char>::empty());
                assert(out@.map_values(|s: String| s@) =~= outv0 + (seq![
                    ""@,
                    spec_capitalize_first(d@) + ":"@,
                ] + rowsv));
                assert(seq![""@, spec_capitalize_first(d@) + ":"@] + rowsv =~= spec_day_section(
                    w,
                    spec_day_name(i as int),
                ));
                assert(outv0 + spec_day_section(w, spec_day_name(i as int)) + spec_render_days(
                    w,
                    i as int + 1,
                ) =~= outv0 + spec_render_days(w, i as int));
            }
            i = i + 1;
        }
        proof {
            assert(spec_render_days(w, 7) =~= Seq::<Seq<char>>::empty());
            assert(out@.map_values(|s: String| s@) + Seq::<Seq<char>>::empty() =~= out@.map_values(
                |s: String| s@,
            ));
        }
        out
    }
}

/// `day_index` sees only the day names: weeks with pointwise equal day
/// names agree on it.
proof fn lemma_day_index_same_days(w1: Seq<DayEntryView>, w2: Seq<DayEntryView>, d: Seq<char>)
    requires
        w1.len() == w2.len(),
        forall|k: int| 0 <= k < w1.len() ==> w1[k].day == w2[k].day,
    ensures
        day_index(w1, d) == day_index(w2, d),
    decreases w1.len(),
{
    if w1.len() > 0 {
        assert(forall|k: int| 0 <= k < w1.skip(1).len() ==> w1.skip(1)[k] == w1[k + 1]);
        assert(forall|k: int| 0 <= k < w2.skip(1).len() ==> w2.skip(1)[k] == w2[k + 1]);
        lemma_day_index_same_days(w1.skip(1), w2.skip(1), d);
    }
}

/// Adding a task under day `d` and then showing the week surfaces it:
/// day `d` now holds its previous tasks with the new one appended, its
/// body lines end with exactly the new task's bullet line, and every
/// other day is untouched.
pub proof fn lemma_add_then_show(w: Seq<DayEntryView>, d: Seq<char>, t: TaskView)
    ensures
        spec_get(spec_add_task(w, d, t), d) == Some(
            (match spec_get(w, d) {
                Some(ts) => ts,
                None => Seq::empty(),
            }).push(t),
        ),
        spec_day_body(spec_add_task(w, d, t), d) == spec_task_lines(
            match spec_get(w, d) {
                Some(ts) => ts,
                None => Seq::empty(),
            },
        ).push(spec_task_line(t)),
        forall|e: Seq<char>|
            e != d ==> #[trigger] spec_get(spec_add_task(w, d, t), e) == spec_get(w, e),
{
    lemma_day_index(w, d);
    let i = day_index(w, d);
    let w2 = spec_add_task(w, d, t);
    if i == -1 {
        let entry = DayEntryView { day: d, tasks: seq![t] };
        lemma_day_index_push(w, entry, d);
        assert(spec_get(w2, d) == Some(seq![t]));
        assert(seq![t] =~= Seq::<TaskView>::empty().push(t));
        assert(spec_task_lines(seq![t]) =~= spec_task_lines(Seq::empty()).push(spec_task_line(t)));
        assert forall|e: Seq<char>| e != d implies #[trigger] spec_get(w2, e) == spec_get(w, e) by {
            lemma_day_index_push(w, entry, e);
            lemma_day_index(w, e);
        }
    } else {
        let entry = DayEntryView { day: d, tasks: w[i].tasks.push(t) };
        lemma_day_index_same_days(w, w2, d);
        assert(spec_get(w2, d) == Some(w[i].tasks.push(t)));
        assert(w[i].tasks.push(t).len() > 0);
        assert(spec_task_lines(w[i].tasks.push(t)) =~= spec_task_lines(w[i].tasks).push(
            spec_task_line(t),
        ));
        assert forall|e: Seq<char>| e != d implies #[trigger] spec_get(w2, e) == spec_get(w, e) by {
            lemma_day_index_same_days(w, w2, e);
            lemma_day_index(w, e);
            if day_index(w, e) != -1 {
                assert(w2[day_index(w, e)] == w[day_index(w, e)]);
            }
        }
    }
}

/// Clearing day `d` and then showing the week always lists the
/// placeholder under `d`, whatever was stored before, and leaves every
/// other day untouched.
pub proof fn lemma_clear_then_show(w: Seq<DayEntryView>, d: Seq<char>)
    ensures
        spec_get(spec_clear_day(w, d), d) == Some(Seq::<TaskView>::empty()),
        spec_day_body(spec_clear_day(w, d), d) == seq![no_items_line()],
        forall|e: Seq<char>|
            e != d ==> #[trigger] spec_get(spec_clear_day(w, d), e) == spec_get(w, e),
{
    lemma_day_index(w, d);
    let i = day_index(w, d);
    let w2 = spec_clear_day(w, d);
    if i == -1 {
        let entry = DayEntryView { day: d, tasks: Seq::empty() };
        lemma_day_index_push(w, entry, d);
        assert(spec_get(w2, d) == Some(Seq::<TaskView>::empty()));
        assert forall|e: Seq<char>| e != d implies #[trigger] spec_get(w2, e) == spec_get(w, e) by {
            lemma_day_index_push(w, entry, e);
            lemma_day_index(w, e);
        }
    } else {
        lemma_day_index_same_days(w, w2, d);
        assert(spec_get(w2, d) == Some(Seq::<TaskView>::empty()));
        assert forall|e: Seq<char>| e != d implies #[trigger] spec_get(w2, e) == spec_get(w, e) by {
            lemma_day_index_same_days(w, w2, e);
            lemma_day_index(w, e);
            if day_index(w, e) != -1 {
                assert(w2[day_index(w, e)] == w[day_index(w, e)]);
            }
        }
    }
}


/// The example in full: a day given as `su` is a lower-case ASCII token
/// that normalizes to `sunday`, and once `sunday` is cleared, showing
/// the week lists exactly the placeholder under it, whatever Sunday
/// held before.
pub proof fn lemma_clear_su_then_show(w: Seq<DayEntryView>)
    ensures
        ascii_lower_token("su"@),
        spec_normalize_day("su"@) == "sunday"@,
        spec_day_body(spec_clear_day(w, "sunday"@), "sunday"@) == seq![no_items_line()],
{
    reveal_strlit("su");
    assert("su"@.len() == 2 && "su"@[0] == 's' && "su"@[1] == 'u');
    lemma_normalize_day_cases("su"@);
    lemma_clear_then_show(w, "sunday"@);
}

} // verus!
