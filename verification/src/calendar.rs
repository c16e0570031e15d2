//! The week model: tasks keyed by day name, with insertion order kept
//! both across the days and within each day's task list.

use vstd::prelude::*;
use crate::utils::ascii_lower_token;
use crate::utils::lower_of;
use crate::utils::normalize_day;
use crate::utils::spec_normalize_day;
use crate::utils::str_eq;

verus! {

/// One recorded task: a description, an optional location, and whether it
/// recurs weekly.
pub struct Task {
    pub description: String,
    pub location: Option<String>,
    pub recurring: bool,
}

/// The mathematical value of a task.
#[verifier::ext_equal]
pub struct TaskView {
    pub description: Seq<char>,
    pub location: Option<Seq<char>>,
    pub recurring: bool,
}

/// The view of an optional owned string.
pub open spec fn opt_str_view(o: Option<String>) -> Option<Seq<char>> {
    match o {
        Some(s) => Some(s@),
        None => None,
    }
}

impl View for Task {
    type V = TaskView;

    open spec fn view(&self) -> TaskView {
        TaskView {
            description: self.description@,
            location: opt_str_view(self.location),
            recurring: self.recurring,
        }
    }
}

impl Task {
    pub fn new(description: String, location: Option<String>, recurring: bool) -> (r: Self)
        ensures
            r@ == (TaskView { description: description@, location: opt_str_view(location), recurring }),
    {
        Task { description, location, recurring }
    }
}

impl Clone for Task {
    fn clone(&self) -> (r: Self)
        ensures
            r@ == self@,
    {
        Task {
            description: self.description.clone(),
            location: match &self.location {
                Some(l) => Some(l.clone()),
                None => None,
            },
            recurring: self.recurring,
        }
    }
}

/// One day of the week together with its tasks, in insertion order.
pub struct DayEntry {
    pub day: String,
    pub tasks: Vec<Task>,
}

/// The mathematical value of a day's entry.
#[verifier::ext_equal]
pub struct DayEntryView {
    pub day: Seq<char>,
    pub tasks: Seq<TaskView>,
}

impl View for DayEntry {
    type V = DayEntryView;

    open spec fn view(&self) -> DayEntryView {
        DayEntryView { day: self.day@, tasks: self.tasks@.map_values(|t: Task| t@) }
    }
}

impl Clone for DayEntry {
    fn clone(&self) -> (r: Self)
        ensures
            r@ == self@,
    {
        let mut tasks: Vec<Task> = Vec::new();
        let mut i: usize = 0;
        while i < self.tasks.len()
            invariant
                i <= self.tasks@.len(),
                tasks@.len() == i,
                forall|k: int| 0 <= k < i ==> tasks@[k]@ == self.tasks@[k]@,
            decreases self.tasks@.len() - i,
        {
            tasks.push(self.tasks[i].clone());
            i = i + 1;
        }
        let r = DayEntry { day: self.day.clone(), tasks };
        proof {
            assert(r@.tasks =~= self@.tasks);
        }
        r
    }
}

/// A week of tasks: a mapping from day name to the day's ordered tasks,
/// kept as an ordered list of entries with pairwise distinct day names.
pub struct Calendar {
    pub days: Vec<DayEntry>,
}

impl View for Calendar {
    type V = Seq<DayEntryView>;

    open spec fn view(&self) -> Seq<DayEntryView> {
        self.days@.map_values(|e: DayEntry| e@)
    }
}

/// Day names are pairwise distinct.
pub open spec fn wf_week(w: Seq<DayEntryView>) -> bool {
    forall|i: int, j: int| 0 <= i < j < w.len() ==> w[i].day != w[j].day
}

/// The position of the entry for day `d`, or -1 when no entry has it.
pub open spec fn day_index(w: Seq<DayEntryView>, d: Seq<char>) -> int
    decreases w.len(),
{
    if w.len() == 0 {
        -1
    } else if w[0].day == d {
        0
    } else if day_index(w.skip(1), d) == -1 {
        -1
    } else {
        day_index(w.skip(1), d) + 1
    }
}

/// `day_index` returns the first matching position, or -1 exactly when no
/// entry matches.
pub proof fn lemma_day_index(w: Seq<DayEntryView>, d: Seq<char>)
    ensures
        day_index(w, d) == -1 ==> forall|k: int| 0 <= k < w.len() ==> w[k].day != d,
        day_index(w, d) != -1 ==> 0 <= day_index(w, d) < w.len() && w[day_index(w, d)].day == d
            && forall|k: int| 0 <= k < day_index(w, d) ==> w[k].day != d,
    decreases w.len(),
{
    if w.len() > 0 && w[0].day != d {
        lemma_day_index(w.skip(1), d);
        let r = day_index(w.skip(1), d);
        if r == -1 {
            assert forall|k: int| 0 <= k < w.len() implies w[k].day != d by {
                if k > 0 {
                    assert(w.skip(1)[k - 1] == w[k]);
                }
            }
        } else {
            assert(w.skip(1)[r] == w[r + 1]);
            assert forall|k: int| 0 <= k < r + 1 implies w[k].day != d by {
                if k > 0 {
                    assert(w.skip(1)[k - 1] == w[k]);
                }
            }
        }
    }
}

/// Appending an entry leaves earlier days' positions alone: the appended
/// day is found only if it was absent before.
pub proof fn lemma_day_index_push(w: Seq<DayEntryView>, e: DayEntryView, d: Seq<char>)
    ensures
        day_index(w.push(e), d) == if day_index(w, d) != -1 {
            day_index(w, d)
        } else if e.day == d {
            w.len() as int
        } else {
            -1
        },
    decreases w.len(),
{
    if w.len() == 0 {
        assert(w.push(e).len() == 1);
        assert(w.push(e)[0] == e);
        assert(w.push(e).skip(1) =~= Seq::<DayEntryView>::empty());
        assert(day_index(w, d) == -1);
        if e.day == d {
            assert(day_index(w.push(e), d) == 0);
        } else {
            assert(day_index(w.push(e).skip(1), d) == -1);
            assert(day_index(w.push(e), d) == -1);
        }
    } else {
        assert(w.push(e)[0] == w[0]);
        assert(w.push(e).skip(1) =~= w.skip(1).push(e));
        lemma_day_index_push(w.skip(1), e, d);
        lemma_day_index(w.skip(1), d);
        lemma_day_index(w.skip(1).push(e), d);
        if w[0].day == d {
            assert(day_index(w, d) == 0);
            assert(day_index(w.push(e), d) == 0);
        } else {
            assert(day_index(w.push(e), d) == (if day_index(w.skip(1).push(e), d) == -1 {
                -1
            } else {
                day_index(w.skip(1).push(e), d) + 1
            }));
            assert(day_index(w, d) == (if day_index(w.skip(1), d) == -1 {
                -1
            } else {
                day_index(w.skip(1), d) + 1
            }));
            if day_index(w, d) != -1 {
                assert(day_index(w.push(e), d) == day_index(w, d));
            } else if e.day == d {
                assert(day_index(w.skip(1), d) == -1);
                assert(day_index(w.skip(1).push(e), d) == w.skip(1).len() as int);
                assert(day_index(w.push(e), d) == w.len() as int);
            } else {
                assert(day_index(w.push(e), d) == -1);
            }
        }
    }
}

/// The week after a task is appended under day `d`: the task joins the
/// existing entry for `d`, or a fresh entry is appended at the end.
pub open spec fn spec_add_task(w: Seq<DayEntryView>, d: Seq<char>, t: TaskView) -> Seq<
    DayEntryView,
> {
    let i = day_index(w, d);
    if i == -1 {
        w.push(DayEntryView { day: d, tasks: seq![t] })
    } else {
        w.update(i, DayEntryView { day: d, tasks: w[i].tasks.push(t) })
    }
}

/// The week after day `d` is cleared: its entry's tasks are replaced by
/// the empty list, or a fresh empty entry is appended.
pub open spec fn spec_clear_day(w: Seq<DayEntryView>, d: Seq<char>) -> Seq<DayEntryView> {
    let i = day_index(w, d);
    if i == -1 {
        w.push(DayEntryView { day: d, tasks: Seq::empty() })
    } else {
        w.update(i, DayEntryView { day: d, tasks: Seq::empty() })
    }
}

/// The tasks stored under day `d`, if any entry has that day.
pub open spec fn spec_get(w: Seq<DayEntryView>, d: Seq<char>) -> Option<Seq<TaskView>> {
    let i = day_index(w, d);
    if i == -1 {
        None
    } else {
        Some(w[i].tasks)
    }
}

proof fn lemma_wf_push(w: Seq<DayEntryView>, d: Seq<char>, ts: Seq<TaskView>)
    requires
        wf_week(w),
        forall|k: int| 0 <= k < w.len() ==> w[k].day != d,
    ensures
        wf_week(w.push(DayEntryView { day: d, tasks: ts })),
{
}

proof fn lemma_wf_update(w: Seq<DayEntryView>, i: int, ts: Seq<TaskView>)
    requires
        wf_week(w),
        0 <= i < w.len(),
    ensures
        wf_week(w.update(i, DayEntryView { day: w[i].day, tasks: ts })),
{
}

impl Calendar {
    /// The day names are pairwise distinct.
    pub open spec fn wf(&self) -> bool {
        wf_week(self@)
    }

    /// The position of the entry whose day equals `d`, or `None`.
    fn find_day(&self, d: &str) -> (r: Option<usize>)
        ensures
            match r {
                Some(i) => 0 <= i < self@.len() && day_index(self@, d@) == i,
                None => day_index(self@, d@) == -1,
            },
    {
        let mut i: usize = 0;
        let n = self.days.len();
        while i < n
            invariant
                n == self.days@.len(),
                i <= n,
                forall|k: int| 0 <= k < i ==> self@[k].day != d@,
            decreases n - i,
        {
            if str_eq(self.days[i].day.as_str(), d) {
                proof {
                    lemma_day_index(self@, d@);
                    let j = day_index(self@, d@);
                    assert(self@[i as int].day == d@);
                    if j != -1 && j < i {
                        assert(self@[j].day != d@);
                    }
                    if j != -1 && j > i {
                        assert(self@[i as int].day != d@);
                    }
                }
                return Some(i);
            }
            i = i + 1;
        }
        proof {
            lemma_day_index(self@, d@);
        }
        None
    }

    /// Appends `task` under the day name `day` taken verbatim: the task
    /// joins the existing entry, or a fresh entry is appended at the end.
    pub fn push_task(&mut self, day: String, task: Task)
        ensures
            final(self)@ == spec_add_task(old(self)@, day@, task@),
            old(self).wf() ==> final(self).wf(),
    {
        let d = day;
        let ghost w0 = self@;
        let ghost dv = d@;
        let ghost tv = task@;
        match self.find_day(d.as_str()) {
            Some(i) => {
                let mut e = self.days.remove(i);
                e.tasks.push(task);
                self.days.insert(i, e);
                proof {
                    lemma_day_index(w0, dv);
                    assert(e@.tasks =~~= w0[i as int].tasks.push(tv));
                    assert(self@ =~~= w0.update(
                        i as int,
                        DayEntryView { day: dv, tasks: w0[i as int].tasks.push(tv) },
                    ));
                    if wf_week(w0) {
                        lemma_wf_update(w0, i as int, w0[i as int].tasks.push(tv));
                    }
                }
            },
            None => {
                let mut tasks: Vec<Task> = Vec::new();
                tasks.push(task);
                self.days.push(DayEntry { day: d, tasks });
                proof {
                    lemma_day_index(w0, dv);
                    assert(tasks@.map_values(|t: Task| t@) =~~= seq![tv]);
                    assert(self@ =~~= w0.push(DayEntryView { day: dv, tasks: seq![tv] }));
                    if wf_week(w0) {
                        lemma_wf_push(w0, dv, seq![tv]);
                    }
                }
            },
        }
    }

    /// Normalizes `day` and appends a task built from the arguments to
    /// that day's list, creating the day's entry if it is absent.
    pub fn add_item(&mut self, day: &str, item: &str, location: Option<String>, recurring: bool)
        ensures
            final(self)@ == spec_add_task(
                old(self)@,
                spec_normalize_day(lower_of(day@)),
                TaskView { description: item@, location: opt_str_view(location), recurring },
            ),
            ascii_lower_token(day@) ==> final(self)@ == spec_add_task(
                old(self)@,
                spec_normalize_day(day@),
                TaskView { description: item@, location: opt_str_view(location), recurring },
            ),
            old(self).wf() ==> final(self).wf(),
    {
        let d = normalize_day(day);
        let task = Task::new(item.to_owned(), location, recurring);
        self.push_task(d, task);
    }

    /// Normalizes `day` and replaces that day's tasks with the empty
    /// list, creating the day's entry if it is absent.
    pub fn clear_day(&mut self, day: &str)
        ensures
            final(self)@ == spec_clear_day(old(self)@, spec_normalize_day(lower_of(day@))),
            ascii_lower_token(day@) ==> final(self)@ == spec_clear_day(
                old(self)@,
                spec_normalize_day(day@),
            ),
            old(self).wf() ==> final(self).wf(),
    {
        let d = normalize_day(day);
        let ghost w0 = self@;
        let ghost dv = d@;
        match self.find_day(d.as_str()) {
            Some(i) => {
                let mut e = self.days.remove(i);
                e.tasks = Vec::new();
                self.days.insert(i, e);
                proof {
                    lemma_day_index(w0, dv);
                    assert(e@.tasks =~~= Seq::<TaskView>::empty());
                    assert(self@ =~~= w0.update(
                        i as int,
                        DayEntryView { day: dv, tasks: Seq::empty() },
                    ));
                    if wf_week(w0) {
                        lemma_wf_update(w0, i as int, Seq::empty());
                    }
                }
            },
            None => {
                self.days.push(DayEntry { day: d, tasks: Vec::new() });
                proof {
                    lemma_day_index(w0, dv);
                    assert(self@ =~~= w0.push(DayEntryView { day: dv, tasks: Seq::empty() }));
                    if wf_week(w0) {
                        lemma_wf_push(w0, dv, Seq::empty());
                    }
                }
            },
        }
    }

    /// The tasks stored under the (already normalized) day name, if any.
    pub fn tasks_for(&self, day: &str) -> (r: Option<&Vec<Task>>)
        ensures
            match r {
                Some(ts) => spec_get(self@, day@) == Some(ts@.map_values(|t: Task| t@)),
                None => spec_get(self@, day@) is None,
            },
    {
        match self.find_day(day) {
            Some(i) => Some(&self.days[i].tasks),
            None => None,
        }
    }
}

impl Clone for Calendar {
    fn clone(&self) -> (r: Self)
        ensures
            r@ == self@,
    {
        let mut days: Vec<DayEntry> = Vec::new();
        let mut i: usize = 0;
        while i < self.days.len()
            invariant
                i <= self.days@.len(),
                days@.len() == i,
                forall|k: int| 0 <= k < i ==> days@[k]@ == self.days@[k]@,
            decreases self.days@.len() - i,
        {
            days.push(self.days[i].clone());
            i = i + 1;
        }
        let r = Calendar { days };
        proof {
            assert(r@ =~= self@);
        }
        r
    }
}

impl Default for Calendar {
    /// The empty week.
    fn default() -> (r: Self)
        ensures
            r@ == Seq::<DayEntryView>::empty(),
            r.wf(),
    {
        let r = Calendar { days: Vec::new() };
        proof {
            assert(r@ =~= Seq::<DayEntryView>::empty());
        }
        r
    }
}

} // verus!
