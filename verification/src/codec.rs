//! The record codec: a task maps to a single line of eight
//! `^^`-delimited fields, and back. Decoding never fails fast: every
//! field is parsed and every field error is collected in order.

use vstd::prelude::*;
use vstd::string::*;
use crate::deadline::{canonical_deadline_text, deadline_chars, deadline_err_msg,
    parse_deadline_spec, wf_deadline, Deadline};
use crate::id::{canonical_id_text, id_chars, id_err_msg, lemma_id_no_caret, lemma_id_roundtrip,
    parse_id_spec, TaskId};
use crate::task::{category_chars, parse_category_spec, parse_priority_spec, parse_status_spec,
    priority_chars, status_chars, Task, TaskCategory, TaskPriority, TaskStutus, TaskView};
use crate::text::{convert_err, convert_err_msg, delim, delim_at, field_text_ok, find_delim,
    join_fields, lemma_find_delim, lemma_join_split, lemma_no_caret_no_delim, split_fields,
    trim_exec, trim_spec};

verus! {

// ---------------------------------------------------------------------------
// Encoding
// ---------------------------------------------------------------------------

/// The single-line text form of a task: its eight fields in fixed
/// order, joined by the delimiter.
pub open spec fn encode_task(t: TaskView) -> Seq<char> {
    id_chars(t.uuid) + delim() + t.title + delim() + category_chars(t.category) + delim()
        + t.description + delim() + deadline_chars(t.deadline) + delim()
        + priority_chars(t.priority) + delim() + t.notes + delim() + status_chars(t.status)
}

// ---------------------------------------------------------------------------
// Decoding
// ---------------------------------------------------------------------------

/// The message reported when a record has fewer than eight fields.
pub open spec fn insufficient_msg() -> Seq<char> {
    "Insufficient fields for parsing into Task"@
}

pub open spec fn err_id(toks: Seq<Seq<char>>) -> Seq<Seq<char>> {
    if toks.len() > 0 && parse_id_spec(toks[0]) is None {
        seq![id_err_msg(toks[0])]
    } else {
        Seq::empty()
    }
}

pub open spec fn err_category(toks: Seq<Seq<char>>) -> Seq<Seq<char>> {
    if toks.len() > 2 && parse_category_spec(trim_spec(toks[2])) is None {
        seq![convert_err_msg(toks[2], "TaskCategory"@)]
    } else {
        Seq::empty()
    }
}

pub open spec fn err_deadline(toks: Seq<Seq<char>>) -> Seq<Seq<char>> {
    if toks.len() > 4 && parse_deadline_spec(toks[4]) is None {
        seq![deadline_err_msg(toks[4])]
    } else {
        Seq::empty()
    }
}

pub open spec fn err_priority(toks: Seq<Seq<char>>) -> Seq<Seq<char>> {
    if toks.len() > 5 && parse_priority_spec(trim_spec(toks[5])) is None {
        seq![convert_err_msg(toks[5], "TaskPriority"@)]
    } else {
        Seq::empty()
    }
}

pub open spec fn err_status(toks: Seq<Seq<char>>) -> Seq<Seq<char>> {
    if toks.len() > 7 && parse_status_spec(trim_spec(toks[7])) is None {
        seq![convert_err_msg(toks[7], "TaskStutus"@)]
    } else {
        Seq::empty()
    }
}

/// Every field error of a token list, in field order, preceded by the
/// too-few-fields message when fewer than eight tokens are present.
pub open spec fn token_errors(toks: Seq<Seq<char>>) -> Seq<Seq<char>> {
    let pre: Seq<Seq<char>> = if toks.len() < 8 {
        seq![insufficient_msg()]
    } else {
        Seq::empty()
    };
    pre + err_id(toks) + err_category(toks) + err_deadline(toks) + err_priority(toks)
        + err_status(toks)
}

/// Decoding a line: split on the delimiter, parse all eight positional
/// tokens independently (extra tokens are ignored), and either return
/// the fully populated task or the full, ordered list of field errors.
pub open spec fn decode_task_spec(s: Seq<char>) -> Result<TaskView, Seq<Seq<char>>> {
    let toks = split_fields(s);
    let errs = token_errors(toks);
    if errs.len() == 0 {
        Ok(TaskView {
            uuid: parse_id_spec(toks[0])->0,
            title: trim_spec(toks[1]),
            category: parse_category_spec(trim_spec(toks[2]))->0,
            description: trim_spec(toks[3]),
            deadline: parse_deadline_spec(toks[4])->0,
            priority: parse_priority_spec(trim_spec(toks[5]))->0,
            notes: trim_spec(toks[6]),
            status: parse_status_spec(trim_spec(toks[7]))->0,
        })
    } else {
        Err(errs)
    }
}

/// The tasks of the lines that decode, in line order.
pub open spec fn decoded_tasks(ls: Seq<Seq<char>>) -> Seq<TaskView>
    decreases ls.len(),
{
    if ls.len() == 0 {
        Seq::empty()
    } else {
        let rest = decoded_tasks(ls.subrange(1, ls.len() as int));
        if decode_task_spec(ls[0]) is Ok {
            seq![decode_task_spec(ls[0])->Ok_0] + rest
        } else {
            rest
        }
    }
}

/// The diagnostic reported for a line that does not decode.
pub open spec fn skip_msg(l: Seq<char>) -> Seq<char> {
    "Skipped unparsable record: "@ + l
}

/// The diagnostics of the lines that do not decode, in line order.
pub open spec fn skipped_msgs(ls: Seq<Seq<char>>) -> Seq<Seq<char>>
    decreases ls.len(),
{
    if ls.len() == 0 {
        Seq::empty()
    } else {
        let rest = skipped_msgs(ls.subrange(1, ls.len() as int));
        if decode_task_spec(ls[0]) is Ok {
            rest
        } else {
            seq![skip_msg(ls[0])] + rest
        }
    }
}

// ---------------------------------------------------------------------------
// Splitting a record, at runtime
// ---------------------------------------------------------------------------

/// Finds the first delimiter occurrence in `t`.
fn find_delim_exec(t: &str) -> (r: usize)
    ensures
        r as nat == find_delim(t@),
{
    let n = t.unicode_len();
    let mut i: usize = 0;
    loop
        invariant
            i <= n,
            n == t@.len(),
            forall|j: int| 0 <= j < i ==> !delim_at(t@, j),
        decreases n - i,
    {
        if n < 2 || i > n - 2 {
            proof {
                lemma_find_delim(t@);
                assert(forall|j: int| !delim_at(t@, j)) by {
                    assert(forall|j: int| j >= i ==> !delim_at(t@, j));
                }
                if find_delim(t@) + 2 <= t@.len() {
                    assert(delim_at(t@, find_delim(t@) as int));
                }
            }
            return n;
        }
        if t.get_char(i) == '^' && t.get_char(i + 1) == '^' {
            proof {
                lemma_find_delim(t@);
                assert(delim_at(t@, i as int));
                let f = find_delim(t@);
                if f + 2 > t@.len() {
                    assert(!delim_at(t@, i as int));
                }
                if f < i {
                    assert(delim_at(t@, f as int));
                }
            }
            return i;
        }
        proof {
            assert(!delim_at(t@, i as int));
        }
        i = i + 1;
    }
}

proof fn lemma_map_view_push(v: Seq<String>, x: String)
    ensures
        (v.push(x)).map_values(|p: String| p@) =~= v.map_values(|p: String| p@).push(x@),
{
}

/// Splits a line into its `^^`-delimited fields.
pub fn split_on_delim(s: &str) -> (parts: Vec<String>)
    ensures
        parts@.map_values(|p: String| p@) == split_fields(s@),
{
    let mut parts: Vec<String> = Vec::new();
    let mut rest = String::from_str(s);
    loop
        invariant
            split_fields(s@) =~= parts@.map_values(|p: String| p@) + split_fields(rest@),
        decreases rest@.len(),
    {
        let f = find_delim_exec(rest.as_str());
        let n = rest.as_str().unicode_len();
        let ghost prev = rest@;
        if n >= 2 && f <= n - 2 {
            let head = String::from_str(rest.as_str().substring_char(0, f));
            let tail = String::from_str(rest.as_str().substring_char(f + 2, n));
            proof {
                lemma_find_delim(prev);
                assert(split_fields(prev) == seq![prev.subrange(0, f as int)]
                    + split_fields(prev.subrange(f as int + 2, prev.len() as int)));
                lemma_map_view_push(parts@, head);
            }
            parts.push(head);
            rest = tail;
            proof {
                assert(split_fields(s@) =~= parts@.map_values(|p: String| p@)
                    + split_fields(rest@));
            }
        } else {
            proof {
                lemma_find_delim(prev);
                assert(split_fields(prev) == seq![prev]);
                lemma_map_view_push(parts@, rest);
            }
            parts.push(rest);
            proof {
                assert(parts@.map_values(|p: String| p@) =~= split_fields(s@));
            }
            return parts;
        }
    }
}

// ---------------------------------------------------------------------------
// The codec on tasks
// ---------------------------------------------------------------------------

impl Task {
    /// Renders the task as its single-line record.
    pub fn into(self) -> (r: String)
        ensures
            r@ == encode_task(self@),
    {
        self.to_record()
    }

    /// Renders the task as its single-line record, without consuming it.
    pub fn to_record(&self) -> (r: String)
        ensures
            r@ == encode_task(self@),
    {
        let mut r = self.uuid().to_text();
        r.append("^^");
        r.append(self.title());
        r.append("^^");
        let c = self.category().into();
        r.append(c.as_str());
        r.append("^^");
        r.append(self.description());
        r.append("^^");
        let d = self.deadline().to_text();
        r.append(d.as_str());
        r.append("^^");
        let p = self.priority().into();
        r.append(p.as_str());
        r.append("^^");
        r.append(self.notes());
        r.append("^^");
        let st = self.status().into();
        r.append(st.as_str());
        proof {
            reveal_strlit("^^");
            assert("^^"@ =~= delim());
            assert(r@ =~= encode_task(self@));
        }
        r
    }

    /// Decodes a single-line record. Every one of the eight positional
    /// tokens is parsed; on any failure the full, ordered list of field
    /// error messages is returned instead of a task.
    pub fn try_from(s: &str) -> (r: Result<Task, Vec<String>>)
        ensures
            match r {
                Ok(t) => decode_task_spec(s@) == Ok::<TaskView, Seq<Seq<char>>>(t@),
                Err(es) => (decode_task_spec(s@) matches Err(msgs)
                    && es@.map_values(|m: String| m@) == msgs),
            },
    {
        let parts = split_on_delim(s);
        let ghost toks = split_fields(s@);
        let mut errors: Vec<String> = Vec::new();
        if parts.len() < 8 {
            errors.push(String::from_str("Insufficient fields for parsing into Task"));
        }
        let mut uuid = TaskId::from_value(0);
        let mut title = String::new();
        let mut category = TaskCategory::Personal;
        let mut description = String::new();
        let mut deadline = Deadline::default();
        let mut priority = TaskPriority::Medium;
        let mut notes = String::new();
        let mut status = TaskStutus::Active;
        proof {
            assert(parts@.len() == toks.len());
            assert forall|i: int| 0 <= i < toks.len() implies (#[trigger] parts@[i])@ == toks[i] by {
                assert(parts@.map_values(|p: String| p@)[i] == toks[i]);
            }
        }
        if parts.len() > 0 {
            match TaskId::try_from(parts[0].as_str()) {
                Ok(v) => { uuid = v; },
                Err(e) => { errors.push(e); },
            }
        }
        if parts.len() > 1 {
            title = trim_exec(parts[1].as_str());
        }
        if parts.len() > 2 {
            match TaskCategory::try_from(parts[2].as_str()) {
                Ok(v) => { category = v; },
                Err(e) => { errors.push(e); },
            }
        }
        if parts.len() > 3 {
            description = trim_exec(parts[3].as_str());
        }
        if parts.len() > 4 {
            match Deadline::parse_text(parts[4].as_str()) {
                Some(v) => { deadline = v; },
                None => { errors.push(convert_err(parts[4].as_str(), "Deadline")); },
            }
        }
        if parts.len() > 5 {
            match TaskPriority::try_from(parts[5].as_str()) {
                Ok(v) => { priority = v; },
                Err(e) => { errors.push(e); },
            }
        }
        if parts.len() > 6 {
            notes = trim_exec(parts[6].as_str());
        }
        if parts.len() > 7 {
            match TaskStutus::try_from(parts[7].as_str()) {
                Ok(v) => { status = v; },
                Err(e) => { errors.push(e); },
            }
        }
        proof {
            assert(errors@.map_values(|m: String| m@) =~= token_errors(toks));
        }
        if errors.len() > 0 {
            Err(errors)
        } else {
            let t = Task::from_parts(uuid, title, category, description, deadline, priority,
                notes, status);
            proof {
                assert(decode_task_spec(s@) == Ok::<TaskView, Seq<Seq<char>>>(t@));
            }
            Ok(t)
        }
    }
}

// ---------------------------------------------------------------------------
// Round-trip laws
// ---------------------------------------------------------------------------

/// A task whose encoding survives the round trip: the deadline fields
/// are in range and the free texts neither collide with the delimiter
/// nor carry line breaks or surrounding whitespace.
pub open spec fn wf_task(t: TaskView) -> bool {
    &&& wf_deadline(t.deadline)
    &&& field_text_ok(t.title)
    &&& field_text_ok(t.description)
    &&& field_text_ok(t.notes)
}

/// Decoding the encoding of a well-formed task yields the task again.
#[verifier::rlimit(100)]
pub proof fn lemma_decode_encode(t: TaskView)
    requires
        wf_task(t),
    ensures
        decode_task_spec(encode_task(t)) == Ok::<TaskView, Seq<Seq<char>>>(t),
{
    let f0 = id_chars(t.uuid);
    let f1 = t.title;
    let f2 = category_chars(t.category);
    let f3 = t.description;
    let f4 = deadline_chars(t.deadline);
    let f5 = priority_chars(t.priority);
    let f6 = t.notes;
    let f7 = status_chars(t.status);
    lemma_id_no_caret(t.uuid);
    lemma_no_caret_no_delim(f0);
    crate::task::lemma_category_text(t.category);
    lemma_no_caret_no_delim(f2);
    crate::deadline::lemma_deadline_no_caret(t.deadline);
    lemma_no_caret_no_delim(f4);
    crate::task::lemma_priority_text(t.priority);
    lemma_no_caret_no_delim(f5);
    crate::task::lemma_status_text(t.status);
    lemma_no_caret_no_delim(f7);
    let toks0 = seq![f0, f1, f2, f3, f4, f5, f6, f7];
    assert(forall|k: int| 0 <= k < 8 ==> crate::text::field_delim_safe(#[trigger] toks0[k]));
    crate::text::lemma_join_eight(toks0);
    assert(encode_task(t) =~= join_fields(toks0));
    crate::text::lemma_split_join(toks0);
    let toks = split_fields(encode_task(t));
    assert(toks == toks0);
    lemma_id_roundtrip(t.uuid);
    crate::deadline::lemma_deadline_roundtrip(t.deadline);
    assert(token_errors(toks).len() == 0);
    assert(decode_task_spec(encode_task(t))->Ok_0 =~= t);
}

/// A record in canonical shape: exactly eight fields, each token being
/// the exact text a task field renders to.
pub open spec fn canonical_record(s: Seq<char>) -> bool {
    let toks = split_fields(s);
    &&& toks.len() == 8
    &&& canonical_id_text(toks[0])
    &&& field_text_ok(toks[1])
    &&& parse_category_spec(toks[2]) is Some
    &&& field_text_ok(toks[3])
    &&& canonical_deadline_text(toks[4])
    &&& parse_priority_spec(toks[5]) is Some
    &&& field_text_ok(toks[6])
    &&& parse_status_spec(toks[7]) is Some
}

/// Encoding the decoding of a canonical record restores the record,
/// field for field.
pub proof fn lemma_encode_decode(s: Seq<char>)
    requires
        canonical_record(s),
    ensures
        decode_task_spec(s) matches Ok(t) && encode_task(t) == s,
{
    let toks = split_fields(s);
    let c = parse_category_spec(toks[2])->0;
    let p = parse_priority_spec(toks[5])->0;
    let st = parse_status_spec(toks[7])->0;
    crate::task::lemma_category_canonical(toks[2], c);
    crate::task::lemma_category_text(c);
    crate::task::lemma_priority_canonical(toks[5], p);
    crate::task::lemma_priority_text(p);
    crate::task::lemma_status_canonical(toks[7], st);
    crate::task::lemma_status_text(st);
    assert(trim_spec(toks[2]) == toks[2]);
    assert(trim_spec(toks[5]) == toks[5]);
    assert(trim_spec(toks[7]) == toks[7]);
    assert(token_errors(toks).len() == 0);
    let t = decode_task_spec(s)->Ok_0;
    assert(id_chars(t.uuid) == toks[0]);
    assert(deadline_chars(t.deadline) == toks[4]);
    crate::text::lemma_join_eight(toks);
    lemma_join_split(s);
    assert(encode_task(t) =~= join_fields(toks));
}

/// A line with fewer than eight delimited tokens never decodes: the
/// error list is non-empty and starts with the too-few-fields message.
pub proof fn lemma_short_record_fails(s: Seq<char>)
    requires
        split_fields(s).len() < 8,
    ensures
        decode_task_spec(s) matches Err(es) && es.len() > 0 && es[0] == insufficient_msg(),
{
    let toks = split_fields(s);
    assert(token_errors(toks)[0] == insufficient_msg());
}

/// A record whose category token does not name a category fails to
/// decode, and the error list names that token; the other fields'
/// outcomes are untouched in the report.
pub proof fn lemma_bad_category_reported(s: Seq<char>)
    requires
        split_fields(s).len() >= 8,
        parse_category_spec(trim_spec(split_fields(s)[2])) is None,
    ensures
        decode_task_spec(s) matches Err(es)
            && es.contains(convert_err_msg(split_fields(s)[2], "TaskCategory"@)),
{
    let toks = split_fields(s);
    let errs = token_errors(toks);
    let i = err_id(toks).len() as int;
    assert(errs[i] == convert_err_msg(toks[2], "TaskCategory"@));
}

/// The encoding of a well-formed task is itself a canonical record, so
/// the record round trip applies to everything the library writes.
pub proof fn lemma_encode_canonical(t: TaskView)
    requires
        wf_task(t),
    ensures
        canonical_record(encode_task(t)),
{
    let f0 = id_chars(t.uuid);
    let f2 = category_chars(t.category);
    let f4 = deadline_chars(t.deadline);
    let f5 = priority_chars(t.priority);
    let f7 = status_chars(t.status);
    lemma_id_no_caret(t.uuid);
    lemma_no_caret_no_delim(f0);
    crate::task::lemma_category_text(t.category);
    lemma_no_caret_no_delim(f2);
    crate::deadline::lemma_deadline_no_caret(t.deadline);
    lemma_no_caret_no_delim(f4);
    crate::task::lemma_priority_text(t.priority);
    lemma_no_caret_no_delim(f5);
    crate::task::lemma_status_text(t.status);
    lemma_no_caret_no_delim(f7);
    let toks0 = seq![f0, t.title, f2, t.description, f4, f5, t.notes, f7];
    assert(forall|k: int| 0 <= k < 8 ==> crate::text::field_delim_safe(#[trigger] toks0[k]));
    crate::text::lemma_join_eight(toks0);
    assert(encode_task(t) =~= join_fields(toks0));
    crate::text::lemma_split_join(toks0);
    lemma_id_roundtrip(t.uuid);
    crate::deadline::lemma_deadline_roundtrip(t.deadline);
    assert(canonical_id_text(f0));
    assert(canonical_deadline_text(f4));
}

} // verus!
