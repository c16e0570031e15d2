//! The durable text format: a compact, human-readable object notation
//! for the week and for the archive log, with an encoder and a strict
//! decoder that are proved to round-trip.
//!
//! A week is written as `{"days":{"monday":[task,...],...}}`; a task as
//! `{"description":"...","location":null or "...","recurring":true or
//! false}`; the archive log as a list of `{"timestamp":"...","week":
//! {...}}` records. Inside quotes, `"` and `\` are escaped with a
//! backslash; every other character stands for itself.

use vstd::prelude::*;
use vstd::string::StrSliceExecFns;
use vstd::string::StringExecFns;
use crate::calendar::Calendar;
use crate::calendar::DayEntry;
use crate::calendar::DayEntryView;
use crate::calendar::Task;
use crate::calendar::TaskView;
use crate::calendar::wf_week;
use crate::archive::ArchivedWeek;
use crate::archive::ArchivedWeekView;

verus! {

// ---------------------------------------------------------------------
// The encoding, as a mathematical function of the stored values.
// ---------------------------------------------------------------------

/// How one character is written inside quotes.
pub open spec fn esc_char(c: char) -> Seq<char> {
    if c == '"' || c == '\\' {
        seq!['\\', c]
    } else {
        seq![c]
    }
}

/// How a character sequence is written inside quotes.
pub open spec fn esc(s: Seq<char>) -> Seq<char>
    decreases s.len(),
{
    if s.len() == 0 {
        Seq::empty()
    } else {
        esc_char(s[0]) + esc(s.skip(1))
    }
}

/// A quoted, escaped string.
pub open spec fn enc_string(s: Seq<char>) -> Seq<char> {
    seq!['"'] + esc(s) + seq!['"']
}

/// A boolean literal.
pub open spec fn enc_bool(b: bool) -> Seq<char> {
    if b {
        "true"@
    } else {
        "false"@
    }
}

/// An optional location: `null` or a quoted string.
pub open spec fn enc_location(o: Option<Seq<char>>) -> Seq<char> {
    match o {
        Some(l) => enc_string(l),
        None => "null"@,
    }
}

/// One task record.
pub open spec fn enc_task(t: TaskView) -> Seq<char> {
    "{\"description\":"@ + enc_string(t.description) + ",\"location\":"@ + enc_location(t.location)
        + ",\"recurring\":"@ + enc_bool(t.recurring) + seq!['}']
}

/// One or more tasks, comma-separated.
pub open spec fn enc_task_list(ts: Seq<TaskView>) -> Seq<char>
    recommends
        ts.len() >= 1,
    decreases ts.len(),
{
    if ts.len() <= 1 {
        enc_task(ts[0])
    } else {
        enc_task(ts[0]) + seq![','] + enc_task_list(ts.skip(1))
    }
}

/// A day's task list in brackets.
pub open spec fn enc_tasks(ts: Seq<TaskView>) -> Seq<char> {
    if ts.len() == 0 {
        seq!['[', ']']
    } else {
        seq!['['] + enc_task_list(ts) + seq![']']
    }
}

/// One day entry: the quoted day name, a colon, and its tasks.
pub open spec fn enc_entry(e: DayEntryView) -> Seq<char> {
    enc_string(e.day) + seq![':'] + enc_tasks(e.tasks)
}

/// One or more day entries, comma-separated.
pub open spec fn enc_entry_list(w: Seq<DayEntryView>) -> Seq<char>
    recommends
        w.len() >= 1,
    decreases w.len(),
{
    if w.len() <= 1 {
        enc_entry(w[0])
    } else {
        enc_entry(w[0]) + seq![','] + enc_entry_list(w.skip(1))
    }
}

/// The braced day-to-tasks object.
pub open spec fn enc_entries_obj(w: Seq<DayEntryView>) -> Seq<char> {
    if w.len() == 0 {
        seq!['{', '}']
    } else {
        seq!['{'] + enc_entry_list(w) + seq!['}']
    }
}

/// The whole calendar record.
pub open spec fn enc_calendar(w: Seq<DayEntryView>) -> Seq<char> {
    "{\"days\":"@ + enc_entries_obj(w) + seq!['}']
}

/// One archived snapshot record.
pub open spec fn enc_archived(a: ArchivedWeekView) -> Seq<char> {
    "{\"timestamp\":"@ + enc_string(a.timestamp) + ",\"week\":"@ + enc_entries_obj(a.week)
        + seq!['}']
}

/// One or more snapshots, comma-separated.
pub open spec fn enc_archived_list(l: Seq<ArchivedWeekView>) -> Seq<char>
    recommends
        l.len() >= 1,
    decreases l.len(),
{
    if l.len() <= 1 {
        enc_archived(l[0])
    } else {
        enc_archived(l[0]) + seq![','] + enc_archived_list(l.skip(1))
    }
}

/// The whole archive log record, oldest snapshot first.
pub open spec fn enc_archive_log(l: Seq<ArchivedWeekView>) -> Seq<char> {
    if l.len() == 0 {
        seq!['[', ']']
    } else {
        seq!['['] + enc_archived_list(l) + seq![']']
    }
}

// ---------------------------------------------------------------------
// The strict parser, as a mathematical function of the input text.
// Each piece returns the parsed value and the unconsumed remainder.
// ---------------------------------------------------------------------

/// Whether `s` begins with `p`.
pub open spec fn starts_with(s: Seq<char>, p: Seq<char>) -> bool {
    s.len() >= p.len() && s.take(p.len() as int) == p
}

/// Consumes the exact literal `lit`.
pub open spec fn p_lit(s: Seq<char>, lit: Seq<char>) -> Option<Seq<char>> {
    if starts_with(s, lit) {
        Some(s.skip(lit.len() as int))
    } else {
        None
    }
}

/// The inside of a quoted string, up to and including the closing quote.
pub open spec fn p_str_body(s: Seq<char>) -> Option<(Seq<char>, Seq<char>)>
    decreases s.len(),
{
    if s.len() == 0 {
        None
    } else if s[0] == '"' {
        Some((Seq::empty(), s.skip(1)))
    } else if s[0] == '\\' {
        if s.len() >= 2 && (s[1] == '"' || s[1] == '\\') {
            match p_str_body(s.skip(2)) {
                Some((c, r)) => Some((seq![s[1]] + c, r)),
                None => None,
            }
        } else {
            None
        }
    } else {
        match p_str_body(s.skip(1)) {
            Some((c, r)) => Some((seq![s[0]] + c, r)),
            None => None,
        }
    }
}

/// A quoted string.
pub open spec fn p_string(s: Seq<char>) -> Option<(Seq<char>, Seq<char>)> {
    if s.len() >= 1 && s[0] == '"' {
        p_str_body(s.skip(1))
    } else {
        None
    }
}

/// A boolean literal.
pub open spec fn p_bool(s: Seq<char>) -> Option<(bool, Seq<char>)> {
    if starts_with(s, "true"@) {
        Some((true, s.skip(4)))
    } else if starts_with(s, "false"@) {
        Some((false, s.skip(5)))
    } else {
        None
    }
}

/// An optional location: `null` or a quoted string.
pub open spec fn p_location(s: Seq<char>) -> Option<(Option<Seq<char>>, Seq<char>)> {
    if starts_with(s, "null"@) {
        Some((None, s.skip(4)))
    } else {
        match p_string(s) {
            Some((l, r)) => Some((Some(l), r)),
            None => None,
        }
    }
}

/// One task record.
pub open spec fn p_task(s: Seq<char>) -> Option<(TaskView, Seq<char>)> {
    match p_lit(s, "{\"description\":"@) {
        Some(s1) => match p_string(s1) {
            Some((desc, s2)) => match p_lit(s2, ",\"location\":"@) {
                Some(s3) => match p_location(s3) {
                    Some((loc, s4)) => match p_lit(s4, ",\"recurring\":"@) {
                        Some(s5) => match p_bool(s5) {
                            Some((b, s6)) => match p_lit(s6, seq!['}']) {
                                Some(s7) => Some(
                                    (TaskView { description: desc, location: loc, recurring: b }, s7),
                                ),
                                None => None,
                            },
                            None => None,
                        },
                        None => None,
                    },
                    None => None,
                },
                None => None,
            },
            None => None,
        },
        None => None,
    }
}

/// Comma-separated tasks, ended by the closing bracket.
pub open spec fn p_task_list(s: Seq<char>) -> Option<(Seq<TaskView>, Seq<char>)>
    decreases s.len(),
{
    match p_task(s) {
        Some((t, r)) => if r.len() >= 1 && r[0] == ']' {
            Some((seq![t], r.skip(1)))
        } else if r.len() >= 1 && r[0] == ',' && r.len() < s.len() {
            match p_task_list(r.skip(1)) {
                Some((ts, r2)) => Some((seq![t] + ts, r2)),
                None => None,
            }
        } else {
            None
        },
        None => None,
    }
}

/// A bracketed task list.
pub open spec fn p_tasks(s: Seq<char>) -> Option<(Seq<TaskView>, Seq<char>)> {
    if s.len() >= 1 && s[0] == '[' {
        let s1 = s.skip(1);
        if s1.len() >= 1 && s1[0] == ']' {
            Some((Seq::empty(), s1.skip(1)))
        } else {
            p_task_list(s1)
        }
    } else {
        None
    }
}

/// One day entry.
pub open spec fn p_entry(s: Seq<char>) -> Option<(DayEntryView, Seq<char>)> {
    match p_string(s) {
        Some((d, s1)) => if s1.len() >= 1 && s1[0] == ':' {
            match p_tasks(s1.skip(1)) {
                Some((ts, s2)) => Some((DayEntryView { day: d, tasks: ts }, s2)),
                None => None,
            }
        } else {
            None
        },
        None => None,
    }
}

/// Comma-separated day entries, ended by the closing brace.
pub open spec fn p_entry_list(s: Seq<char>) -> Option<(Seq<DayEntryView>, Seq<char>)>
    decreases s.len(),
{
    match p_entry(s) {
        Some((e, r)) => if r.len() >= 1 && r[0] == '}' {
            Some((seq![e], r.skip(1)))
        } else if r.len() >= 1 && r[0] == ',' && r.len() < s.len() {
            match p_entry_list(r.skip(1)) {
                Some((es, r2)) => Some((seq![e] + es, r2)),
                None => None,
            }
        } else {
            None
        },
        None => None,
    }
}

/// The braced day-to-tasks object.
pub open spec fn p_entries_obj(s: Seq<char>) -> Option<(Seq<DayEntryView>, Seq<char>)> {
    if s.len() >= 1 && s[0] == '{' {
        let s1 = s.skip(1);
        if s1.len() >= 1 && s1[0] == '}' {
            Some((Seq::empty(), s1.skip(1)))
        } else {
            p_entry_list(s1)
        }
    } else {
        None
    }
}

/// The whole calendar record: the full text must be consumed and the day
/// names must be pairwise distinct, else the text counts as corrupt.
pub open spec fn spec_parse_calendar(s: Seq<char>) -> Option<Seq<DayEntryView>> {
    match p_lit(s, "{\"days\":"@) {
        Some(s1) => match p_entries_obj(s1) {
            Some((es, s2)) => if s2 == seq!['}'] && wf_week(es) {
                Some(es)
            } else {
                None
            },
            None => None,
        },
        None => None,
    }
}

/// One archived snapshot record.
pub open spec fn p_archived(s: Seq<char>) -> Option<(ArchivedWeekView, Seq<char>)> {
    match p_lit(s, "{\"timestamp\":"@) {
        Some(s1) => match p_string(s1) {
            Some((ts, s2)) => match p_lit(s2, ",\"week\":"@) {
                Some(s3) => match p_entries_obj(s3) {
                    Some((w, s4)) => match p_lit(s4, seq!['}']) {
                        Some(s5) => Some((ArchivedWeekView { timestamp: ts, week: w }, s5)),
                        None => None,
                    },
                    None => None,
                },
                None => None,
            },
            None => None,
        },
        None => None,
    }
}

/// Comma-separated snapshots, ended by the closing bracket.
pub open spec fn p_archived_list(s: Seq<char>) -> Option<(Seq<ArchivedWeekView>, Seq<char>)>
    decreases s.len(),
{
    match p_archived(s) {
        Some((a, r)) => if r.len() >= 1 && r[0] == ']' {
            Some((seq![a], r.skip(1)))
        } else if r.len() >= 1 && r[0] == ',' && r.len() < s.len() {
            match p_archived_list(r.skip(1)) {
                Some((l, r2)) => Some((seq![a] + l, r2)),
                None => None,
            }
        } else {
            None
        },
        None => None,
    }
}

/// The whole archive log record: the full text must be consumed.
pub open spec fn spec_parse_archive_log(s: Seq<char>) -> Option<Seq<ArchivedWeekView>> {
    if s.len() >= 1 && s[0] == '[' {
        let s1 = s.skip(1);
        if s1 == seq![']'] {
            Some(Seq::empty())
        } else {
            match p_archived_list(s1) {
                Some((l, r)) => if r.len() == 0 {
                    Some(l)
                } else {
                    None
                },
                None => None,
            }
        }
    } else {
        None
    }
}

// ---------------------------------------------------------------------
// The decoder undoes the encoder.
// ---------------------------------------------------------------------

proof fn lemma_p_lit(lit: Seq<char>, rest: Seq<char>)
    ensures
        p_lit(lit + rest, lit) == Some(rest),
{
    let s = lit + rest;
    assert(s.take(lit.len() as int) =~= lit);
    assert(s.skip(lit.len() as int) =~= rest);
}

proof fn lemma_p_str_body(content: Seq<char>, rest: Seq<char>)
    ensures
        p_str_body(esc(content) + seq!['"'] + rest) == Some((content, rest)),
    decreases content.len(),
{
    let s = esc(content) + seq!['"'] + rest;
    if content.len() == 0 {
        assert(esc(content) =~= Seq::<char>::empty());
        assert(s =~= seq!['"'] + rest);
        assert(s[0] == '"');
        assert(s.skip(1) =~= rest);
    } else {
        let c = content[0];
        lemma_p_str_body(content.skip(1), rest);
        let s_tail = esc(content.skip(1)) + seq!['"'] + rest;
        if c == '"' || c == '\\' {
            assert(s =~= seq!['\\', c] + s_tail);
            assert(s[0] == '\\');
            assert(s[1] == c);
            assert(s.len() >= 2);
            assert(s.skip(2) =~= s_tail);
            assert(seq![s[1]] + content.skip(1) =~= content);
        } else {
            assert(s =~= seq![c] + s_tail);
            assert(s[0] == c);
            assert(s.skip(1) =~= s_tail);
            assert(seq![s[0]] + content.skip(1) =~= content);
        }
    }
}

proof fn lemma_p_string(content: Seq<char>, rest: Seq<char>)
    ensures
        p_string(enc_string(content) + rest) == Some((content, rest)),
{
    let s = enc_string(content) + rest;
    assert(s =~= seq!['"'] + (esc(content) + seq!['"'] + rest));
    assert(s[0] == '"');
    assert(s.skip(1) =~= esc(content) + seq!['"'] + rest);
    lemma_p_str_body(content, rest);
}

proof fn lemma_p_bool(b: bool, rest: Seq<char>)
    ensures
        p_bool(enc_bool(b) + rest) == Some((b, rest)),
{
    reveal_strlit("true");
    reveal_strlit("false");
    let s = enc_bool(b) + rest;
    if b {
        assert(s.take(4) =~= "true"@);
        assert(s.skip(4) =~= rest);
    } else {
        assert(s[0] == 'f');
        assert(!starts_with(s, "true"@)) by {
            if starts_with(s, "true"@) {
                assert(s.take(4)[0] == s[0]);
            }
        }
        assert(s.take(5) =~= "false"@);
        assert(s.skip(5) =~= rest);
    }
}

proof fn lemma_p_location(o: Option<Seq<char>>, rest: Seq<char>)
    ensures
        p_location(enc_location(o) + rest) == Some((o, rest)),
{
    reveal_strlit("null");
    let s = enc_location(o) + rest;
    match o {
        None => {
            assert(s.take(4) =~= "null"@);
            assert(s.skip(4) =~= rest);
        },
        Some(l) => {
            assert(s =~= seq!['"'] + (esc(l) + seq!['"'] + rest));
            assert(s[0] == '"');
            assert(!starts_with(s, "null"@)) by {
                if starts_with(s, "null"@) {
                    assert(s.take(4)[0] == s[0]);
                }
            }
            lemma_p_string(l, rest);
            assert(enc_string(l) + rest =~= s);
        },
    }
}

proof fn lemma_p_task(t: TaskView, rest: Seq<char>)
    ensures
        p_task(enc_task(t) + rest) == Some((t, rest)),
{
    let s = enc_task(t) + rest;
    let t6: Seq<char> = seq!['}'] + rest;
    let t5 = enc_bool(t.recurring) + t6;
    let t4 = ",\"recurring\":"@ + t5;
    let t3 = enc_location(t.location) + t4;
    let t2 = ",\"location\":"@ + t3;
    let t1 = enc_string(t.description) + t2;
    assert(s =~= "{\"description\":"@ + t1);
    lemma_p_lit("{\"description\":"@, t1);
    lemma_p_string(t.description, t2);
    lemma_p_lit(",\"location\":"@, t3);
    lemma_p_location(t.location, t4);
    lemma_p_lit(",\"recurring\":"@, t5);
    lemma_p_bool(t.recurring, t6);
    lemma_p_lit(seq!['}'], rest);
    assert(p_task(s) == Some((TaskView { description: t.description, location: t.location, recurring: t.recurring }, rest)));
    assert(TaskView { description: t.description, location: t.location, recurring: t.recurring } =~= t);
}

proof fn lemma_enc_task_first(t: TaskView)
    ensures
        enc_task(t).len() >= 1,
        enc_task(t)[0] == '{',
{
    reveal_strlit("{\"description\":");
    assert("{\"description\":"@[0] == '{');
    assert(enc_task(t)[0] == '{');
}

proof fn lemma_p_task_list(ts: Seq<TaskView>, rest: Seq<char>)
    requires
        ts.len() >= 1,
    ensures
        p_task_list(enc_task_list(ts) + seq![']'] + rest) == Some((ts, rest)),
    decreases ts.len(),
{
    let s = enc_task_list(ts) + seq![']'] + rest;
    lemma_enc_task_first(ts[0]);
    if ts.len() == 1 {
        let r: Seq<char> = seq![']'] + rest;
        assert(s =~= enc_task(ts[0]) + r);
        lemma_p_task(ts[0], r);
        assert(r[0] == ']');
        assert(r.skip(1) =~= rest);
        assert(seq![ts[0]] =~= ts);
    } else {
        let tail = enc_task_list(ts.skip(1)) + seq![']'] + rest;
        let r = seq![','] + tail;
        assert(s =~= enc_task(ts[0]) + r);
        lemma_p_task(ts[0], r);
        assert(r[0] == ',');
        assert(r.len() < s.len());
        assert(r.skip(1) =~= tail);
        lemma_p_task_list(ts.skip(1), rest);
        assert(seq![ts[0]] + ts.skip(1) =~= ts);
    }
}

proof fn lemma_p_tasks(ts: Seq<TaskView>, rest: Seq<char>)
    ensures
        p_tasks(enc_tasks(ts) + rest) == Some((ts, rest)),
{
    let s = enc_tasks(ts) + rest;
    if ts.len() == 0 {
        assert(s =~= seq!['['] + (seq![']'] + rest));
        assert(s[0] == '[');
        assert(s.skip(1) =~= seq![']'] + rest);
        assert(s.skip(1)[0] == ']');
        assert(s.skip(1).skip(1) =~= rest);
        assert(ts =~= Seq::<TaskView>::empty());
    } else {
        let s1 = enc_task_list(ts) + seq![']'] + rest;
        assert(s =~= seq!['['] + s1);
        assert(s[0] == '[');
        assert(s.skip(1) =~= s1);
        lemma_enc_task_first(ts[0]);
        if ts.len() == 1 {
            assert(enc_task_list(ts)[0] == enc_task(ts[0])[0]);
        } else {
            assert(enc_task_list(ts)[0] == enc_task(ts[0])[0]);
        }
        assert(s1[0] == '{');
        lemma_p_task_list(ts, rest);
    }
}

proof fn lemma_p_entry(e: DayEntryView, rest: Seq<char>)
    ensures
        p_entry(enc_entry(e) + rest) == Some((e, rest)),
{
    let s = enc_entry(e) + rest;
    let t1 = seq![':'] + (enc_tasks(e.tasks) + rest);
    assert(s =~= enc_string(e.day) + t1);
    lemma_p_string(e.day, t1);
    assert(t1[0] == ':');
    assert(t1.skip(1) =~= enc_tasks(e.tasks) + rest);
    lemma_p_tasks(e.tasks, rest);
    assert(DayEntryView { day: e.day, tasks: e.tasks } =~= e);
}

proof fn lemma_enc_entry_first(e: DayEntryView)
    ensures
        enc_entry(e).len() >= 1,
        enc_entry(e)[0] == '"',
{
    assert(enc_string(e.day)[0] == '"');
    assert(enc_entry(e)[0] == '"');
}

proof fn lemma_p_entry_list(w: Seq<DayEntryView>, rest: Seq<char>)
    requires
        w.len() >= 1,
    ensures
        p_entry_list(enc_entry_list(w) + seq!['}'] + rest) == Some((w, rest)),
    decreases w.len(),
{
    let s = enc_entry_list(w) + seq!['}'] + rest;
    lemma_enc_entry_first(w[0]);
    if w.len() == 1 {
        let r: Seq<char> = seq!['}'] + rest;
        assert(s =~= enc_entry(w[0]) + r);
        lemma_p_entry(w[0], r);
        assert(r[0] == '}');
        assert(r.skip(1) =~= rest);
        assert(seq![w[0]] =~= w);
    } else {
        let tail = enc_entry_list(w.skip(1)) + seq!['}'] + rest;
        let r = seq![','] + tail;
        assert(s =~= enc_entry(w[0]) + r);
        lemma_p_entry(w[0], r);
        assert(r[0] == ',');
        assert(r.len() < s.len());
        assert(r.skip(1) =~= tail);
        lemma_p_entry_list(w.skip(1), rest);
        assert(seq![w[0]] + w.skip(1) =~= w);
    }
}

proof fn lemma_p_entries_obj(w: Seq<DayEntryView>, rest: Seq<char>)
    ensures
        p_entries_obj(enc_entries_obj(w) + rest) == Some((w, rest)),
{
    let s = enc_entries_obj(w) + rest;
    if w.len() == 0 {
        assert(s =~= seq!['{'] + (seq!['}'] + rest));
        assert(s[0] == '{');
        assert(s.skip(1) =~= seq!['}'] + rest);
        assert(s.skip(1)[0] == '}');
        assert(s.skip(1).skip(1) =~= rest);
        assert(w =~= Seq::<DayEntryView>::empty());
    } else {
        let s1 = enc_entry_list(w) + seq!['}'] + rest;
        assert(s =~= seq!['{'] + s1);
        assert(s[0] == '{');
        assert(s.skip(1) =~= s1);
        lemma_enc_entry_first(w[0]);
        if w.len() == 1 {
            assert(enc_entry_list(w)[0] == enc_entry(w[0])[0]);
        } else {
            assert(enc_entry_list(w)[0] == enc_entry(w[0])[0]);
        }
        assert(s1[0] == '"');
        lemma_p_entry_list(w, rest);
    }
}

/// Saving a week and loading it back reproduces the same day-to-tasks
/// mapping, field for field and order for order: the strict parse of the
/// encoding of any well-formed week yields exactly that week.
pub proof fn lemma_calendar_round_trip(w: Seq<DayEntryView>)
    requires
        wf_week(w),
    ensures
        spec_parse_calendar(enc_calendar(w)) == Some(w),
{
    let s = enc_calendar(w);
    let t1 = enc_entries_obj(w) + seq!['}'];
    assert(s =~= "{\"days\":"@ + t1);
    lemma_p_lit("{\"days\":"@, t1);
    lemma_p_entries_obj(w, seq!['}']);
}

proof fn lemma_p_archived(a: ArchivedWeekView, rest: Seq<char>)
    ensures
        p_archived(enc_archived(a) + rest) == Some((a, rest)),
{
    let s = enc_archived(a) + rest;
    let t4: Seq<char> = seq!['}'] + rest;
    let t3 = enc_entries_obj(a.week) + t4;
    let t2 = ",\"week\":"@ + t3;
    let t1 = enc_string(a.timestamp) + t2;
    assert(s =~= "{\"timestamp\":"@ + t1);
    lemma_p_lit("{\"timestamp\":"@, t1);
    lemma_p_string(a.timestamp, t2);
    lemma_p_lit(",\"week\":"@, t3);
    lemma_p_entries_obj(a.week, t4);
    lemma_p_lit(seq!['}'], rest);
    assert(ArchivedWeekView { timestamp: a.timestamp, week: a.week } =~= a);
}

proof fn lemma_enc_archived_first(a: ArchivedWeekView)
    ensures
        enc_archived(a).len() >= 1,
        enc_archived(a)[0] == '{',
{
    reveal_strlit("{\"timestamp\":");
    assert("{\"timestamp\":"@[0] == '{');
    assert(enc_archived(a)[0] == '{');
}

proof fn lemma_p_archived_list(l: Seq<ArchivedWeekView>, rest: Seq<char>)
    requires
        l.len() >= 1,
    ensures
        p_archived_list(enc_archived_list(l) + seq![']'] + rest) == Some((l, rest)),
    decreases l.len(),
{
    let s = enc_archived_list(l) + seq![']'] + rest;
    lemma_enc_archived_first(l[0]);
    if l.len() == 1 {
        let r: Seq<char> = seq![']'] + rest;
        assert(s =~= enc_archived(l[0]) + r);
        lemma_p_archived(l[0], r);
        assert(r[0] == ']');
        assert(r.skip(1) =~= rest);
        assert(seq![l[0]] =~= l);
    } else {
        let tail = enc_archived_list(l.skip(1)) + seq![']'] + rest;
        let r = seq![','] + tail;
        assert(s =~= enc_archived(l[0]) + r);
        lemma_p_archived(l[0], r);
        assert(r[0] == ',');
        assert(r.len() < s.len());
        assert(r.skip(1) =~= tail);
        lemma_p_archived_list(l.skip(1), rest);
        assert(seq![l[0]] + l.skip(1) =~= l);
    }
}

/// Saving the archive log and loading it back reproduces the same
/// sequence of snapshots, oldest first: the strict parse of the encoding
/// of any log yields exactly that log.
pub proof fn lemma_archive_log_round_trip(l: Seq<ArchivedWeekView>)
    ensures
        spec_parse_archive_log(enc_archive_log(l)) == Some(l),
{
    let s = enc_archive_log(l);
    if l.len() == 0 {
        assert(s =~= seq!['['] + seq![']']);
        assert(s[0] == '[');
        assert(s.skip(1) =~= seq![']']);
        assert(l =~= Seq::<ArchivedWeekView>::empty());
    } else {
        let s1 = enc_archived_list(l) + seq![']'];
        assert(s =~= seq!['['] + s1);
        assert(s[0] == '[');
        assert(s.skip(1) =~= s1);
        lemma_enc_archived_first(l[0]);
        assert(enc_archived_list(l).len() >= 1);
        assert(s1.len() >= 2);
        assert(s1 != seq![']']);
        assert(s1 =~= enc_archived_list(l) + seq![']'] + Seq::<char>::empty());
        lemma_p_archived_list(l, Seq::empty());
    }
}

// ---------------------------------------------------------------------
// The executable encoder.
// ---------------------------------------------------------------------

/// Relies on `String::push`: appends exactly the given character.
#[verifier::external_body]
fn push_char(s: &mut String, c: char)
    ensures
        final(s)@ == old(s)@.push(c),
{
    s.push(c)
}

proof fn lemma_esc_concat(a: Seq<char>, b: Seq<char>)
    ensures
        esc(a + b) == esc(a) + esc(b),
    decreases a.len(),
{
    if a.len() == 0 {
        assert(a + b =~= b);
        assert(esc(a) =~= Seq::<char>::empty());
        assert(esc(a) + esc(b) =~= esc(b));
    } else {
        assert((a + b)[0] == a[0]);
        assert((a + b).skip(1) =~= a.skip(1) + b);
        lemma_esc_concat(a.skip(1), b);
        assert(esc(a + b) =~= esc(a) + esc(b));
    }
}

fn append_escaped(out: &mut String, s: &str)
    ensures
        final(out)@ == old(out)@ + esc(s@),
{
    let ghost start = out@;
    let n = s.unicode_len();
    let mut i: usize = 0;
    while i < n
        invariant
            n == s@.len(),
            i <= n,
            out@ == start + esc(s@.take(i as int)),
        decreases n - i,
    {
        let ghost pre = s@.take(i as int);
        let c = s.get_char(i);
        if c == '"' || c == '\\' {
            push_char(out, '\\');
            push_char(out, c);
        } else {
            push_char(out, c);
        }
        proof {
            lemma_esc_concat(pre, seq![c]);
            assert(pre + seq![c] =~= s@.take(i as int + 1));
            assert(seq![c].skip(1) =~= Seq::<char>::empty());
            assert(esc(Seq::<char>::empty()) =~= Seq::<char>::empty());
            assert(seq![c][0] == c);
            assert(esc(seq![c]) =~= esc_char(c) + Seq::<char>::empty());
            assert(esc_char(c) + Seq::<char>::empty() =~= esc_char(c));
            assert(out@ =~= start + esc(s@.take(i as int + 1)));
        }
        i = i + 1;
    }
    proof {
        assert(s@.take(n as int) =~= s@);
    }
}

fn append_enc_string(out: &mut String, s: &str)
    ensures
        final(out)@ == old(out)@ + enc_string(s@),
{
    let ghost start = out@;
    push_char(out, '"');
    append_escaped(out, s);
    push_char(out, '"');
    proof {
        assert(out@ =~= start + enc_string(s@));
    }
}

fn append_enc_task(out: &mut String, t: &Task)
    ensures
        final(out)@ == old(out)@ + enc_task(t@),
{
    let ghost start = out@;
    out.append("{\"description\":");
    append_enc_string(out, t.description.as_str());
    out.append(",\"location\":");
    match &t.location {
        Some(l) => append_enc_string(out, l.as_str()),
        None => out.append("null"),
    }
    out.append(",\"recurring\":");
    if t.recurring {
        out.append("true");
    } else {
        out.append("false");
    }
    push_char(out, '}');
    proof {
        assert(out@ =~= start + enc_task(t@));
    }
}

proof fn lemma_enc_task_list_snoc(ts: Seq<TaskView>, t: TaskView)
    requires
        ts.len() >= 1,
    ensures
        enc_task_list(ts.push(t)) == enc_task_list(ts) + seq![','] + enc_task(t),
    decreases ts.len(),
{
    if ts.len() == 1 {
        assert(ts.push(t)[0] == ts[0]);
        assert(ts.push(t).skip(1) =~= seq![t]);
        assert(enc_task_list(seq![t]) == enc_task(t));
        assert(enc_task_list(ts.push(t)) =~= enc_task_list(ts) + seq![','] + enc_task(t));
    } else {
        assert(ts.push(t)[0] == ts[0]);
        assert(ts.push(t).skip(1) =~= ts.skip(1).push(t));
        lemma_enc_task_list_snoc(ts.skip(1), t);
        assert(enc_task_list(ts.push(t)) =~= enc_task_list(ts) + seq![','] + enc_task(t));
    }
}

fn append_enc_tasks(out: &mut String, tasks: &Vec<Task>)
    ensures
        final(out)@ == old(out)@ + enc_tasks(tasks@.map_values(|t: Task| t@)),
{
    let ghost start = out@;
    let ghost tsv = tasks@.map_values(|t: Task| t@);
    push_char(out, '[');
    let n = tasks.len();
    let mut i: usize = 0;
    while i < n
        invariant
            n == tasks@.len(),
            n == tsv.len(),
            tsv == tasks@.map_values(|t: Task| t@),
            i <= n,
            i == 0 ==> out@ == start + seq!['['],
            i >= 1 ==> out@ == start + seq!['['] + enc_task_list(tsv.take(i as int)),
        decreases n - i,
    {
        let ghost outv0 = out@;
        if i > 0 {
            push_char(out, ',');
        }
        append_enc_task(out, &tasks[i]);
        proof {
            assert(tsv.take(i as int + 1) =~= tsv.take(i as int).push(tsv[i as int]));
            if i == 0 {
                assert(tsv.take(1) =~= seq![tsv[0]]);
                assert(enc_task_list(seq![tsv[0]]) == enc_task(tsv[0]));
                assert(out@ =~= start + seq!['['] + enc_task_list(tsv.take(1)));
            } else {
                lemma_enc_task_list_snoc(tsv.take(i as int), tsv[i as int]);
                assert(out@ =~= start + seq!['['] + enc_task_list(tsv.take(i as int + 1)));
            }
        }
        i = i + 1;
    }
    push_char(out, ']');
    proof {
        if n == 0 {
            assert(out@ =~= start + enc_tasks(tsv));
        } else {
            assert(tsv.take(n as int) =~= tsv);
            assert(out@ =~= start + enc_tasks(tsv));
        }
    }
}

fn append_enc_entry(out: &mut String, e: &DayEntry)
    ensures
        final(out)@ == old(out)@ + enc_entry(e@),
{
    let ghost start = out@;
    append_enc_string(out, e.day.as_str());
    push_char(out, ':');
    append_enc_tasks(out, &e.tasks);
    proof {
        assert(out@ =~= start + enc_entry(e@));
    }
}

proof fn lemma_enc_entry_list_snoc(w: Seq<DayEntryView>, e: DayEntryView)
    requires
        w.len() >= 1,
    ensures
        enc_entry_list(w.push(e)) == enc_entry_list(w) + seq![','] + enc_entry(e),
    decreases w.len(),
{
    if w.len() == 1 {
        assert(w.push(e)[0] == w[0]);
        assert(w.push(e).skip(1) =~= seq![e]);
        assert(enc_entry_list(seq![e]) == enc_entry(e));
        assert(enc_entry_list(w.push(e)) =~= enc_entry_list(w) + seq![','] + enc_entry(e));
    } else {
        assert(w.push(e)[0] == w[0]);
        assert(w.push(e).skip(1) =~= w.skip(1).push(e));
        lemma_enc_entry_list_snoc(w.skip(1), e);
        assert(enc_entry_list(w.push(e)) =~= enc_entry_list(w) + seq![','] + enc_entry(e));
    }
}

fn append_enc_entries_obj(out: &mut String, days: &Vec<DayEntry>)
    ensures
        final(out)@ == old(out)@ + enc_entries_obj(days@.map_values(|e: DayEntry| e@)),
{
    let ghost start = out@;
    let ghost wv = days@.map_values(|e: DayEntry| e@);
    push_char(out, '{');
    let n = days.len();
    let mut i: usize = 0;
    while i < n
        invariant
            n == days@.len(),
            n == wv.len(),
            wv == days@.map_values(|e: DayEntry| e@),
            i <= n,
            i == 0 ==> out@ == start + seq!['{'],
            i >= 1 ==> out@ == start + seq!['{'] + enc_entry_list(wv.take(i as int)),
        decreases n - i,
    {
        if i > 0 {
            push_char(out, ',');
        }
        append_enc_entry(out, &days[i]);
        proof {
            assert(wv.take(i as int + 1) =~= wv.take(i as int).push(wv[i as int]));
            if i == 0 {
                assert(wv.take(1) =~= seq![wv[0]]);
                assert(enc_entry_list(seq![wv[0]]) == enc_entry(wv[0]));
                assert(out@ =~= start + seq!['{'] + enc_entry_list(wv.take(1)));
            } else {
                lemma_enc_entry_list_snoc(wv.take(i as int), wv[i as int]);
                assert(out@ =~= start + seq!['{'] + enc_entry_list(wv.take(i as int + 1)));
            }
        }
        i = i + 1;
    }
    push_char(out, '}');
    proof {
        if n == 0 {
            assert(out@ =~= start + enc_entries_obj(wv));
        } else {
            assert(wv.take(n as int) =~= wv);
            assert(out@ =~= start + enc_entries_obj(wv));
        }
    }
}

/// Writes the whole week in the durable text form.
pub fn encode_calendar(cal: &Calendar) -> (r: String)
    ensures
        r@ == enc_calendar(cal@),
{
    let mut out = String::from_str("{\"days\":");
    append_enc_entries_obj(&mut out, &cal.days);
    push_char(&mut out, '}');
    proof {
        assert(out@ =~= enc_calendar(cal@));
    }
    out
}

fn append_enc_archived(out: &mut String, a: &ArchivedWeek)
    ensures
        final(out)@ == old(out)@ + enc_archived(a@),
{
    let ghost start = out@;
    out.append("{\"timestamp\":");
    append_enc_string(out, a.timestamp.as_str());
    out.append(",\"week\":");
    append_enc_entries_obj(out, &a.week.days);
    push_char(out, '}');
    proof {
        assert(out@ =~= start + enc_archived(a@));
    }
}

proof fn lemma_enc_archived_list_snoc(l: Seq<ArchivedWeekView>, a: ArchivedWeekView)
    requires
        l.len() >= 1,
    ensures
        enc_archived_list(l.push(a)) == enc_archived_list(l) + seq![','] + enc_archived(a),
    decreases l.len(),
{
    if l.len() == 1 {
        assert(l.push(a)[0] == l[0]);
        assert(l.push(a).skip(1) =~= seq![a]);
        assert(enc_archived_list(seq![a]) == enc_archived(a));
        assert(enc_archived_list(l.push(a)) =~= enc_archived_list(l) + seq![','] + enc_archived(a));
    } else {
        assert(l.push(a)[0] == l[0]);
        assert(l.push(a).skip(1) =~= l.skip(1).push(a));
        lemma_enc_archived_list_snoc(l.skip(1), a);
        assert(enc_archived_list(l.push(a)) =~= enc_archived_list(l) + seq![','] + enc_archived(a));
    }
}

/// Writes the whole archive log in the durable text form.
pub fn encode_archive_log(log: &Vec<ArchivedWeek>) -> (r: String)
    ensures
        r@ == enc_archive_log(log@.map_values(|a: ArchivedWeek| a@)),
{
    let ghost lv = log@.map_values(|a: ArchivedWeek| a@);
    let mut out = String::new();
    push_char(&mut out, '[');
    let n = log.len();
    let mut i: usize = 0;
    while i < n
        invariant
            n == log@.len(),
            n == lv.len(),
            lv == log@.map_values(|a: ArchivedWeek| a@),
            i <= n,
            i == 0 ==> out@ == seq!['['],
            i >= 1 ==> out@ == seq!['['] + enc_archived_list(lv.take(i as int)),
        decreases n - i,
    {
        if i > 0 {
            push_char(&mut out, ',');
        }
        append_enc_archived(&mut out, &log[i]);
        proof {
            assert(lv.take(i as int + 1) =~= lv.take(i as int).push(lv[i as int]));
            if i == 0 {
                assert(lv.take(1) =~= seq![lv[0]]);
                assert(enc_archived_list(seq![lv[0]]) == enc_archived(lv[0]));
                assert(out@ =~= seq!['['] + enc_archived_list(lv.take(1)));
            } else {
                lemma_enc_archived_list_snoc(lv.take(i as int), lv[i as int]);
                assert(out@ =~= seq!['['] + enc_archived_list(lv.take(i as int + 1)));
            }
        }
        i = i + 1;
    }
    push_char(&mut out, ']');
    proof {
        if n == 0 {
            assert(out@ =~= enc_archive_log(lv));
        } else {
            assert(lv.take(n as int) =~= lv);
            assert(out@ =~= enc_archive_log(lv));
        }
    }
    out
}

// ---------------------------------------------------------------------
// The executable strict decoder.
// ---------------------------------------------------------------------

fn chars_of(s: &str) -> (r: Vec<char>)
    ensures
        r@ == s@,
{
    let n = s.unicode_len();
    let mut v: Vec<char> = Vec::new();
    let mut i: usize = 0;
    while i < n
        invariant
            n == s@.len(),
            i <= n,
            v@.len() == i,
            forall|k: int| 0 <= k < i ==> v@[k] == s@[k],
        decreases n - i,
    {
        v.push(s.get_char(i));
        i = i + 1;
    }
    proof {
        assert(v@ =~= s@);
    }
    v
}

fn parse_lit(v: &Vec<char>, i: usize, lit: &str) -> (r: Option<usize>)
    requires
        i <= v@.len(),
    ensures
        match r {
            Some(j) => i <= j <= v@.len() && p_lit(v@.skip(i as int), lit@) == Some(
                v@.skip(j as int),
            ),
            None => p_lit(v@.skip(i as int), lit@) is None,
        },
{
    let ll = lit.unicode_len();
    let n = v.len();
    if n - i < ll {
        proof {
            assert(v@.skip(i as int).len() < lit@.len());
        }
        return None;
    }
    let mut k: usize = 0;
    while k < ll
        invariant
            n == v@.len(),
            i <= n,
            ll == lit@.len(),
            i + ll <= n,
            k <= ll,
            forall|m: int| 0 <= m < k ==> v@[i + m] == lit@[m],
        decreases ll - k,
    {
        if v[i + k] != lit.get_char(k) {
            proof {
                assert(v@.skip(i as int).take(ll as int)[k as int] == v@[i + k]);
            }
            return None;
        }
        k = k + 1;
    }
    proof {
        assert(v@.skip(i as int).take(ll as int) =~= lit@);
        assert(v@.skip(i as int).skip(ll as int) =~= v@.skip(i as int + ll as int));
    }
    Some(i + ll)
}

/// The parsed content so far, put in front of what a parse of the
/// remainder yields.
pub open spec fn prepend_parsed(a: Seq<char>, o: Option<(Seq<char>, Seq<char>)>) -> Option<
    (Seq<char>, Seq<char>),
> {
    match o {
        Some(p) => Some((a + p.0, p.1)),
        None => None,
    }
}

proof fn lemma_prepend_empty(o: Option<(Seq<char>, Seq<char>)>)
    ensures
        prepend_parsed(Seq::empty(), o) == o,
{
    match o {
        Some(p) => {
            assert(Seq::<char>::empty() + p.0 =~= p.0);
        },
        None => {},
    }
}

proof fn lemma_prepend_step(a: Seq<char>, c: char, o: Option<(Seq<char>, Seq<char>)>)
    ensures
        prepend_parsed(a, prepend_parsed(seq![c], o)) == prepend_parsed(a.push(c), o),
{
    match o {
        Some(p) => {
            assert(a + (seq![c] + p.0) =~= a.push(c) + p.0);
        },
        None => {},
    }
}

fn parse_str_body(v: &Vec<char>, i: usize) -> (r: Option<(String, usize)>)
    requires
        i <= v@.len(),
    ensures
        match r {
            Some(p) => i <= p.1 <= v@.len() && p_str_body(v@.skip(i as int)) == Some(
                (p.0@, v@.skip(p.1 as int)),
            ),
            None => p_str_body(v@.skip(i as int)) is None,
        },
{
    let mut acc = String::new();
    let mut cur: usize = i;
    proof {
        lemma_prepend_empty(p_str_body(v@.skip(i as int)));
    }
    loop
        invariant
            i <= cur <= v@.len(),
            p_str_body(v@.skip(i as int)) == prepend_parsed(
                acc@,
                p_str_body(v@.skip(cur as int)),
            ),
        decreases v@.len() - cur,
    {
        if cur == v.len() {
            proof {
                assert(v@.skip(cur as int).len() == 0);
            }
            return None;
        }
        let c = v[cur];
        proof {
            assert(v@.skip(cur as int)[0] == v@[cur as int]);
        }
        if c == '"' {
            proof {
                assert(v@.skip(cur as int).skip(1) =~= v@.skip(cur as int + 1));
                assert(acc@ + Seq::<char>::empty() =~= acc@);
            }
            return Some((acc, cur + 1));
        } else if c == '\\' {
            if cur + 1 == v.len() {
                proof {
                    assert(v@.skip(cur as int).len() == 1);
                }
                return None;
            }
            let c2 = v[cur + 1];
            proof {
                assert(v@.skip(cur as int)[1] == v@[cur as int + 1]);
            }
            if c2 == '"' || c2 == '\\' {
                let ghost acc0 = acc@;
                push_char(&mut acc, c2);
                proof {
                    assert(v@.skip(cur as int).skip(2) =~= v@.skip(cur as int + 2));
                    assert(p_str_body(v@.skip(cur as int)) == prepend_parsed(
                        seq![c2],
                        p_str_body(v@.skip(cur as int + 2)),
                    ));
                    lemma_prepend_step(acc0, c2, p_str_body(v@.skip(cur as int + 2)));
                }
                cur = cur + 2;
            } else {
                return None;
            }
        } else {
            let ghost acc0 = acc@;
            push_char(&mut acc, c);
            proof {
                assert(v@.skip(cur as int).skip(1) =~= v@.skip(cur as int + 1));
                assert(p_str_body(v@.skip(cur as int)) == prepend_parsed(
                    seq![c],
                    p_str_body(v@.skip(cur as int + 1)),
                ));
                lemma_prepend_step(acc0, c, p_str_body(v@.skip(cur as int + 1)));
            }
            cur = cur + 1;
        }
    }
}

fn parse_string(v: &Vec<char>, i: usize) -> (r: Option<(String, usize)>)
    requires
        i <= v@.len(),
    ensures
        match r {
            Some(p) => i <= p.1 <= v@.len() && p_string(v@.skip(i as int)) == Some(
                (p.0@, v@.skip(p.1 as int)),
            ),
            None => p_string(v@.skip(i as int)) is None,
        },
{
    if i < v.len() {
        let c = v[i];
        proof {
            assert(v@.skip(i as int)[0] == v@[i as int]);
        }
        if c == '"' {
            proof {
                assert(v@.skip(i as int).skip(1) =~= v@.skip(i as int + 1));
            }
            parse_str_body(v, i + 1)
        } else {
            None
        }
    } else {
        None
    }
}

fn parse_bool(v: &Vec<char>, i: usize) -> (r: Option<(bool, usize)>)
    requires
        i <= v@.len(),
    ensures
        match r {
            Some(p) => i <= p.1 <= v@.len() && p_bool(v@.skip(i as int)) == Some(
                (p.0, v@.skip(p.1 as int)),
            ),
            None => p_bool(v@.skip(i as int)) is None,
        },
{
    proof {
        reveal_strlit("true");
        reveal_strlit("false");
    }
    match parse_lit(v, i, "true") {
        Some(j) => Some((true, j)),
        None => match parse_lit(v, i, "false") {
            Some(j) => Some((false, j)),
            None => None,
        },
    }
}

fn parse_location(v: &Vec<char>, i: usize) -> (r: Option<(Option<String>, usize)>)
    requires
        i <= v@.len(),
    ensures
        match r {
            Some(p) => i <= p.1 <= v@.len() && p_location(v@.skip(i as int)) == Some(
                (crate::calendar::opt_str_view(p.0), v@.skip(p.1 as int)),
            ),
            None => p_location(v@.skip(i as int)) is None,
        },
{
    proof {
        reveal_strlit("null");
    }
    match parse_lit(v, i, "null") {
        Some(j) => Some((None, j)),
        None => match parse_string(v, i) {
            Some((l, j)) => Some((Some(l), j)),
            None => None,
        },
    }
}

fn parse_task(v: &Vec<char>, i: usize) -> (r: Option<(Task, usize)>)
    requires
        i <= v@.len(),
    ensures
        match r {
            Some(p) => i <= p.1 <= v@.len() && p_task(v@.skip(i as int)) == Some(
                (p.0@, v@.skip(p.1 as int)),
            ),
            None => p_task(v@.skip(i as int)) is None,
        },
{
    proof {
        reveal_strlit("}");
        assert("}"@ =~= seq!['}']);
    }
    let j1 = match parse_lit(v, i, "{\"description\":") {
        Some(j) => j,
        None => {
            return None;
        },
    };
    let (desc, j2) = match parse_string(v, j1) {
        Some(p) => p,
        None => {
            return None;
        },
    };
    let j3 = match parse_lit(v, j2, ",\"location\":") {
        Some(j) => j,
        None => {
            return None;
        },
    };
    let (loc, j4) = match parse_location(v, j3) {
        Some(p) => p,
        None => {
            return None;
        },
    };
    let j5 = match parse_lit(v, j4, ",\"recurring\":") {
        Some(j) => j,
        None => {
            return None;
        },
    };
    let (b, j6) = match parse_bool(v, j5) {
        Some(p) => p,
        None => {
            return None;
        },
    };
    let j7 = match parse_lit(v, j6, "}") {
        Some(j) => j,
        None => {
            return None;
        },
    };
    Some((Task::new(desc, loc, b), j7))
}

fn parse_task_list(v: &Vec<char>, i: usize) -> (r: Option<(Vec<Task>, usize)>)
    requires
        i <= v@.len(),
    ensures
        match r {
            Some(p) => i <= p.1 <= v@.len() && p_task_list(v@.skip(i as int)) == Some(
                (p.0@.map_values(|x: Task| x@), v@.skip(p.1 as int)),
            ),
            None => p_task_list(v@.skip(i as int)) is None,
        },
    decreases v@.len() - i,
{
    let (t, j) = match parse_task(v, i) {
        Some(p) => p,
        None => {
            return None;
        },
    };
    if j < v.len() && v[j] == ']' {
        proof {
            assert(v@.skip(j as int)[0] == v@[j as int]);
            assert(v@.skip(j as int).skip(1) =~= v@.skip(j as int + 1));
        }
        let mut out: Vec<Task> = Vec::new();
        out.push(t);
        proof {
            assert(out@.map_values(|x: Task| x@) =~= seq![out@[0]@]);
        }
        Some((out, j + 1))
    } else if j < v.len() && v[j] == ',' && j > i {
        proof {
            assert(v@.skip(j as int)[0] == v@[j as int]);
            assert(v@.skip(j as int).skip(1) =~= v@.skip(j as int + 1));
        }
        match parse_task_list(v, j + 1) {
            Some((ts, j2)) => {
                let ghost tsv0 = ts@.map_values(|x: Task| x@);
                let mut ts2 = ts;
                ts2.insert(0, t);
                proof {
                    assert(ts2@.map_values(|x: Task| x@) =~= seq![ts2@[0]@] + tsv0);
                }
                Some((ts2, j2))
            },
            None => None,
        }
    } else {
        proof {
            if j < v@.len() {
                assert(v@.skip(j as int)[0] == v@[j as int]);
            } else {
                assert(v@.skip(j as int).len() == 0);
            }
        }
        None
    }
}

fn parse_tasks(v: &Vec<char>, i: usize) -> (r: Option<(Vec<Task>, usize)>)
    requires
        i <= v@.len(),
    ensures
        match r {
            Some(p) => i <= p.1 <= v@.len() && p_tasks(v@.skip(i as int)) == Some(
                (p.0@.map_values(|x: Task| x@), v@.skip(p.1 as int)),
            ),
            None => p_tasks(v@.skip(i as int)) is None,
        },
{
    if i < v.len() && v[i] == '[' {
        proof {
            assert(v@.skip(i as int)[0] == v@[i as int]);
            assert(v@.skip(i as int).skip(1) =~= v@.skip(i as int + 1));
        }
        if i + 1 < v.len() && v[i + 1] == ']' {
            proof {
                assert(v@.skip(i as int + 1)[0] == v@[i as int + 1]);
                assert(v@.skip(i as int + 1).skip(1) =~= v@.skip(i as int + 2));
            }
            let out: Vec<Task> = Vec::new();
            proof {
                assert(out@.map_values(|x: Task| x@) =~= Seq::<TaskView>::empty());
            }
            Some((out, i + 2))
        } else {
            proof {
                if i + 1 < v@.len() {
                    assert(v@.skip(i as int + 1)[0] == v@[i as int + 1]);
                } else {
                    assert(v@.skip(i as int + 1).len() == 0);
                }
            }
            parse_task_list(v, i + 1)
        }
    } else {
        proof {
            if i < v@.len() {
                assert(v@.skip(i as int)[0] == v@[i as int]);
            } else {
                assert(v@.skip(i as int).len() == 0);
            }
        }
        None
    }
}

fn parse_entry(v: &Vec<char>, i: usize) -> (r: Option<(DayEntry, usize)>)
    requires
        i <= v@.len(),
    ensures
        match r {
            Some(p) => i <= p.1 <= v@.len() && p_entry(v@.skip(i as int)) == Some(
                (p.0@, v@.skip(p.1 as int)),
            ),
            None => p_entry(v@.skip(i as int)) is None,
        },
{
    let (d, j1) = match parse_string(v, i) {
        Some(p) => p,
        None => {
            return None;
        },
    };
    if j1 < v.len() && v[j1] == ':' {
        proof {
            assert(v@.skip(j1 as int)[0] == v@[j1 as int]);
            assert(v@.skip(j1 as int).skip(1) =~= v@.skip(j1 as int + 1));
        }
        let (ts, j2) = match parse_tasks(v, j1 + 1) {
            Some(p) => p,
            None => {
                return None;
            },
        };
        Some((DayEntry { day: d, tasks: ts }, j2))
    } else {
        proof {
            if j1 < v@.len() {
                assert(v@.skip(j1 as int)[0] == v@[j1 as int]);
            } else {
                assert(v@.skip(j1 as int).len() == 0);
            }
        }
        None
    }
}

fn parse_entry_list(v: &Vec<char>, i: usize) -> (r: Option<(Vec<DayEntry>, usize)>)
    requires
        i <= v@.len(),
    ensures
        match r {
            Some(p) => i <= p.1 <= v@.len() && p_entry_list(v@.skip(i as int)) == Some(
                (p.0@.map_values(|x: DayEntry| x@), v@.skip(p.1 as int)),
            ),
            None => p_entry_list(v@.skip(i as int)) is None,
        },
    decreases v@.len() - i,
{
    let (e, j) = match parse_entry(v, i) {
        Some(p) => p,
        None => {
            return None;
        },
    };
    if j < v.len() && v[j] == '}' {
        proof {
            assert(v@.skip(j as int)[0] == v@[j as int]);
            assert(v@.skip(j as int).skip(1) =~= v@.skip(j as int + 1));
        }
        let mut out: Vec<DayEntry> = Vec::new();
        out.push(e);
        proof {
            assert(out@.map_values(|x: DayEntry| x@) =~= seq![out@[0]@]);
        }
        Some((out, j + 1))
    } else if j < v.len() && v[j] == ',' && j > i {
        proof {
            assert(v@.skip(j as int)[0] == v@[j as int]);
            assert(v@.skip(j as int).skip(1) =~= v@.skip(j as int + 1));
        }
        match parse_entry_list(v, j + 1) {
            Some((es, j2)) => {
                let ghost esv0 = es@.map_values(|x: DayEntry| x@);
                let mut es2 = es;
                es2.insert(0, e);
                proof {
                    assert(es2@.map_values(|x: DayEntry| x@) =~= seq![es2@[0]@] + esv0);
                }
                Some((es2, j2))
            },
            None => None,
        }
    } else {
        proof {
            if j < v@.len() {
                assert(v@.skip(j as int)[0] == v@[j as int]);
            } else {
                assert(v@.skip(j as int).len() == 0);
            }
        }
        None
    }
}

fn parse_entries_obj(v: &Vec<char>, i: usize) -> (r: Option<(Vec<DayEntry>, usize)>)
    requires
        i <= v@.len(),
    ensures
        match r {
            Some(p) => i <= p.1 <= v@.len() && p_entries_obj(v@.skip(i as int)) == Some(
                (p.0@.map_values(|x: DayEntry| x@), v@.skip(p.1 as int)),
            ),
            None => p_entries_obj(v@.skip(i as int)) is None,
        },
{
    if i < v.len() && v[i] == '{' {
        proof {
            assert(v@.skip(i as int)[0] == v@[i as int]);
            assert(v@.skip(i as int).skip(1) =~= v@.skip(i as int + 1));
        }
        if i + 1 < v.len() && v[i + 1] == '}' {
            proof {
                assert(v@.skip(i as int + 1)[0] == v@[i as int + 1]);
                assert(v@.skip(i as int + 1).skip(1) =~= v@.skip(i as int + 2));
            }
            let out: Vec<DayEntry> = Vec::new();
            proof {
                assert(out@.map_values(|x: DayEntry| x@) =~= Seq::<DayEntryView>::empty());
            }
            Some((out, i + 2))
        } else {
            proof {
                if i + 1 < v@.len() {
                    assert(v@.skip(i as int + 1)[0] == v@[i as int + 1]);
                } else {
                    assert(v@.skip(i as int + 1).len() == 0);
                }
            }
            parse_entry_list(v, i + 1)
        }
    } else {
        proof {
            if i < v@.len() {
                assert(v@.skip(i as int)[0] == v@[i as int]);
            } else {
                assert(v@.skip(i as int).len() == 0);
            }
        }
        None
    }
}

/// Reads a whole calendar record back. Anything but the exact output
/// shape of the encoder, or a repeated day name, counts as corrupt and
/// yields `None`.
pub fn decode_calendar(s: &str) -> (r: Option<Calendar>)
    ensures
        match r {
            Some(c) => spec_parse_calendar(s@) == Some(c@) && c.wf(),
            None => spec_parse_calendar(s@) is None,
        },
{
    let v = chars_of(s);
    proof {
        assert(v@.skip(0) =~= v@);
    }
    let j1 = match parse_lit(&v, 0, "{\"days\":") {
        Some(j) => j,
        None => {
            return None;
        },
    };
    let (days, j2) = match parse_entries_obj(&v, j1) {
        Some(p) => p,
        None => {
            return None;
        },
    };
    if !(j2 < v.len() && j2 + 1 == v.len() && v[j2] == '}') {
        proof {
            let rem = v@.skip(j2 as int);
            assert(rem != seq!['}']) by {
                if rem == seq!['}'] {
                    assert(rem.len() == 1);
                    assert(rem[0] == '}');
                    assert(rem[0] == v@[j2 as int]);
                }
            }
        }
        return None;
    }
    proof {
        assert(v@.skip(j2 as int) =~= seq!['}']);
    }
    if !days_unique(&days) {
        return None;
    }
    let cal = Calendar { days };
    Some(cal)
}

/// Whether the entries carry pairwise distinct day names.
fn days_unique(days: &Vec<DayEntry>) -> (r: bool)
    ensures
        r == wf_week(days@.map_values(|x: DayEntry| x@)),
{
    let ghost es = days@.map_values(|x: DayEntry| x@);
    let n = days.len();
    let mut a: usize = 1;
    while a < n
        invariant
            n == days@.len(),
            n == es.len(),
            es == days@.map_values(|x: DayEntry| x@),
            1 <= a,
            a <= n || n == 0,
            forall|x: int, y: int| 0 <= x < y < a && y < n ==> es[x].day != es[y].day,
        decreases n - a,
    {
        let mut b: usize = 0;
        while b < a
            invariant
                n == days@.len(),
                n == es.len(),
                es == days@.map_values(|x: DayEntry| x@),
                b <= a < n,
                forall|x: int| 0 <= x < b ==> es[x].day != es[a as int].day,
            decreases a - b,
        {
            if crate::utils::str_eq(days[b].day.as_str(), days[a].day.as_str()) {
                proof {
                    assert(es[b as int].day == es[a as int].day);
                    assert(!wf_week(es));
                }
                return false;
            }
            b = b + 1;
        }
        a = a + 1;
    }
    proof {
        assert(wf_week(es));
    }
    true
}

fn parse_archived(v: &Vec<char>, i: usize) -> (r: Option<(ArchivedWeek, usize)>)
    requires
        i <= v@.len(),
    ensures
        match r {
            Some(p) => i <= p.1 <= v@.len() && p_archived(v@.skip(i as int)) == Some(
                (p.0@, v@.skip(p.1 as int)),
            ),
            None => p_archived(v@.skip(i as int)) is None,
        },
{
    proof {
        reveal_strlit("}");
        assert("}"@ =~= seq!['}']);
    }
    let j1 = match parse_lit(v, i, "{\"timestamp\":") {
        Some(j) => j,
        None => {
            return None;
        },
    };
    let (ts, j2) = match parse_string(v, j1) {
        Some(p) => p,
        None => {
            return None;
        },
    };
    let j3 = match parse_lit(v, j2, ",\"week\":") {
        Some(j) => j,
        None => {
            return None;
        },
    };
    let (days, j4) = match parse_entries_obj(&v, j3) {
        Some(p) => p,
        None => {
            return None;
        },
    };
    let j5 = match parse_lit(v, j4, "}") {
        Some(j) => j,
        None => {
            return None;
        },
    };
    Some((ArchivedWeek { timestamp: ts, week: Calendar { days } }, j5))
}

fn parse_archived_list(v: &Vec<char>, i: usize) -> (r: Option<(Vec<ArchivedWeek>, usize)>)
    requires
        i <= v@.len(),
    ensures
        match r {
            Some(p) => i <= p.1 <= v@.len() && p_archived_list(v@.skip(i as int)) == Some(
                (p.0@.map_values(|x: ArchivedWeek| x@), v@.skip(p.1 as int)),
            ),
            None => p_archived_list(v@.skip(i as int)) is None,
        },
    decreases v@.len() - i,
{
    let (w, j) = match parse_archived(v, i) {
        Some(p) => p,
        None => {
            return None;
        },
    };
    if j < v.len() && v[j] == ']' {
        proof {
            assert(v@.skip(j as int)[0] == v@[j as int]);
            assert(v@.skip(j as int).skip(1) =~= v@.skip(j as int + 1));
        }
        let mut out: Vec<ArchivedWeek> = Vec::new();
        out.push(w);
        proof {
            assert(out@.map_values(|x: ArchivedWeek| x@) =~= seq![out@[0]@]);
        }
        Some((out, j + 1))
    } else if j < v.len() && v[j] == ',' && j > i {
        proof {
            assert(v@.skip(j as int)[0] == v@[j as int]);
            assert(v@.skip(j as int).skip(1) =~= v@.skip(j as int + 1));
        }
        match parse_archived_list(v, j + 1) {
            Some((l, j2)) => {
                let ghost lv0 = l@.map_values(|x: ArchivedWeek| x@);
                let mut l2 = l;
                l2.insert(0, w);
                proof {
                    assert(l2@.map_values(|x: ArchivedWeek| x@) =~= seq![l2@[0]@] + lv0);
                }
                Some((l2, j2))
            },
            None => None,
        }
    } else {
        proof {
            if j < v@.len() {
                assert(v@.skip(j as int)[0] == v@[j as int]);
            } else {
                assert(v@.skip(j as int).len() == 0);
            }
        }
        None
    }
}

/// Reads a whole archive log record back. Anything but the exact output
/// shape of the encoder counts as corrupt and yields `None`.
pub fn decode_archive_log(s: &str) -> (r: Option<Vec<ArchivedWeek>>)
    ensures
        match r {
            Some(l) => spec_parse_archive_log(s@) == Some(
                l@.map_values(|x: ArchivedWeek| x@),
            ),
            None => spec_parse_archive_log(s@) is None,
        },
{
    let v = chars_of(s);
    if v.len() == 0 || v[0] != '[' {
        proof {
            if v@.len() > 0 {
                assert(v@[0] == s@[0]);
            }
        }
        return None;
    }
    proof {
        assert(v@.skip(1).len() == v@.len() - 1);
    }
    if v.len() == 2 && v[1] == ']' {
        proof {
            assert(v@.skip(1)[0] == v@[1]);
            assert(v@.skip(1) =~= seq![']']);
        }
        let out: Vec<ArchivedWeek> = Vec::new();
        proof {
            assert(out@.map_values(|x: ArchivedWeek| x@) =~= Seq::<ArchivedWeekView>::empty());
        }
        return Some(out);
    }
    proof {
        let s1 = v@.skip(1);
        assert(s1 != seq![']']) by {
            if s1 == seq![']'] {
                assert(s1.len() == 1);
                assert(s1[0] == ']');
                assert(s1[0] == v@[1]);
            }
        }
    }
    match parse_archived_list(&v, 1) {
        Some((l, j)) => {
            if j == v.len() {
                proof {
                    assert(v@.skip(j as int).len() == 0);
                }
                Some(l)
            } else {
                proof {
                    assert(v@.skip(j as int).len() > 0);
                }
                None
            }
        },
        None => None,
    }
}

} // verus!
