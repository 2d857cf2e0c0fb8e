//! The persisted text form of a store: a JSON array of task objects,
//! written and parsed by this module. The parser accepts exactly the
//! documents the writer produces, and parsing a written document is
//! proved to give back the original tasks.

use vstd::prelude::*;
use vstd::std_specs::iter::IteratorSpec;

use crate::store::Priority;
use crate::store::Task;
use crate::store::TaskView;
use crate::store::Timestamp;
use crate::store::tasks_view;

verus! {

// ---------------------------------------------------------------------
// Characters and strings
// ---------------------------------------------------------------------
/// Relies on `String::push`: appends the one character `c` to `s`.
#[verifier::external_body]
fn push_char(s: &mut String, c: char)
    ensures
        final (s)@ == old(s)@ + seq![c],
{
    s.push(c);
}

/// Builds the string holding exactly the characters of `v`.
pub fn chars_to_string(v: &Vec<char>) -> (r: String)
    ensures
        r@ == v@,
{
    let mut r = String::new();
    let mut i: usize = 0;
    while i < v.len()
        invariant
            0 <= i <= v@.len(),
            r@ == v@.take(i as int),
        decreases v@.len() - i,
    {
        push_char(&mut r, v[i]);
        proof {
            assert(r@ =~= v@.take(i + 1));
        }
        i += 1;
    }
    proof {
        assert(v@.take(v@.len() as int) =~= v@);
    }
    r
}

/// Collects the characters of `s` into a vector.
pub fn str_to_chars(s: &str) -> (r: Vec<char>)
    ensures
        r@ == s@,
{
    broadcast use vstd::string::axiom_spec_iter, vstd::string::next_postcondition;

    let mut it = s.chars();
    let mut r: Vec<char> = Vec::new();
    loop
        invariant
            it.obeys_prophetic_iter_laws(),
            it.decrease() is Some,
            r@ + it.remaining() == s@,
        ensures
            r@ == s@,
        decreases it.decrease()->0,
    {
        match it.next() {
            Some(c) => {
                r.push(c);
                proof {
                    assert(r@ + it.remaining() =~= s@);
                }
            },
            None => {
                proof {
                    assert(it.remaining().len() == 0);
                    assert(r@ =~= s@);
                }
                break ;
            },
        }
    }
    r
}

// ---------------------------------------------------------------------
// Decimal digits, two- and four-digit fields
// ---------------------------------------------------------------------
/// The decimal digit character for `d` (meaningful for `0 <= d <= 9`).
pub open spec fn spec_digit_char(d: int) -> char {
    if d == 0 {
        '0'
    } else if d == 1 {
        '1'
    } else if d == 2 {
        '2'
    } else if d == 3 {
        '3'
    } else if d == 4 {
        '4'
    } else if d == 5 {
        '5'
    } else if d == 6 {
        '6'
    } else if d == 7 {
        '7'
    } else if d == 8 {
        '8'
    } else {
        '9'
    }
}

/// The value of a decimal digit character, or 10 when `c` is no digit.
pub open spec fn spec_digit_val(c: char) -> int {
    if c == '0' {
        0
    } else if c == '1' {
        1
    } else if c == '2' {
        2
    } else if c == '3' {
        3
    } else if c == '4' {
        4
    } else if c == '5' {
        5
    } else if c == '6' {
        6
    } else if c == '7' {
        7
    } else if c == '8' {
        8
    } else if c == '9' {
        9
    } else {
        10
    }
}

/// `c` is a decimal digit character.
pub open spec fn spec_is_digit(c: char) -> bool {
    spec_digit_val(c) < 10
}

/// Two decimal digits, zero-padded (meaningful for `0 <= n <= 99`).
pub open spec fn ser2(n: int) -> Seq<char> {
    seq![spec_digit_char(n / 10), spec_digit_char(n % 10)]
}

/// Four decimal digits, zero-padded (meaningful for `0 <= n <= 9999`).
pub open spec fn ser4(n: int) -> Seq<char> {
    ser2(n / 100) + ser2(n % 100)
}

fn digit_char(d: u32) -> (r: char)
    requires
        d < 10,
    ensures
        r == spec_digit_char(d as int),
{
    if d == 0 {
        '0'
    } else if d == 1 {
        '1'
    } else if d == 2 {
        '2'
    } else if d == 3 {
        '3'
    } else if d == 4 {
        '4'
    } else if d == 5 {
        '5'
    } else if d == 6 {
        '6'
    } else if d == 7 {
        '7'
    } else if d == 8 {
        '8'
    } else {
        '9'
    }
}

fn digit_val(c: char) -> (r: u32)
    ensures
        r == spec_digit_val(c),
{
    if c == '0' {
        0
    } else if c == '1' {
        1
    } else if c == '2' {
        2
    } else if c == '3' {
        3
    } else if c == '4' {
        4
    } else if c == '5' {
        5
    } else if c == '6' {
        6
    } else if c == '7' {
        7
    } else if c == '8' {
        8
    } else if c == '9' {
        9
    } else {
        10
    }
}

fn append2(out: &mut Vec<char>, n: u32)
    requires
        n < 100,
    ensures
        final (out)@ == old(out)@ + ser2(n as int),
{
    out.push(digit_char(n / 10));
    out.push(digit_char(n % 10));
    proof {
        assert(out@ =~= old(out)@ + ser2(n as int));
    }
}

fn append4(out: &mut Vec<char>, n: u32)
    requires
        n < 10000,
    ensures
        final (out)@ == old(out)@ + ser4(n as int),
{
    append2(out, n / 100);
    append2(out, n % 100);
    proof {
        assert(out@ =~= old(out)@ + ser4(n as int));
    }
}

// ---------------------------------------------------------------------
// Timestamps: YYYY-MM-DDTHH:MM:SS
// ---------------------------------------------------------------------
/// The nineteen-character timestamp form `YYYY-MM-DDTHH:MM:SS`.
pub open spec fn ser_ts(t: Timestamp) -> Seq<char> {
    ser4(t.year as int) + seq!['-'] + ser2(t.month as int) + seq!['-'] + ser2(t.day as int)
        + seq!['T'] + ser2(t.hour as int) + seq![':'] + ser2(t.minute as int) + seq![':'] + ser2(
        t.second as int,
    )
}

fn append_ts(out: &mut Vec<char>, t: Timestamp)
    requires
        t.wf(),
    ensures
        final (out)@ == old(out)@ + ser_ts(t),
{
    append4(out, t.year);
    out.push('-');
    append2(out, t.month);
    out.push('-');
    append2(out, t.day);
    out.push('T');
    append2(out, t.hour);
    out.push(':');
    append2(out, t.minute);
    out.push(':');
    append2(out, t.second);
    proof {
        assert(out@ =~= old(out)@ + ser_ts(t));
    }
}

// ---------------------------------------------------------------------
// String escaping: quote and backslash get a backslash prefix
// ---------------------------------------------------------------------
/// The escaped form of one character.
pub open spec fn esc_char(c: char) -> Seq<char> {
    if c == '"' {
        seq!['\\', '"']
    } else if c == '\\' {
        seq!['\\', '\\']
    } else {
        seq![c]
    }
}

/// The escaped form of a string: each character escaped in turn.
pub open spec fn esc(s: Seq<char>) -> Seq<char>
    decreases s.len(),
{
    if s.len() == 0 {
        Seq::empty()
    } else {
        esc_char(s[0]) + esc(s.drop_first())
    }
}

fn append_escaped(out: &mut Vec<char>, s: &Vec<char>, from: usize)
    requires
        from <= s@.len(),
    ensures
        final (out)@ == old(out)@ + esc(s@.skip(from as int)),
    decreases s@.len() - from,
{
    if from == s.len() {
        proof {
            assert(s@.skip(from as int) =~= Seq::<char>::empty());
        }
    } else {
        let c = s[from];
        if c == '"' {
            out.push('\\');
            out.push('"');
        } else if c == '\\' {
            out.push('\\');
            out.push('\\');
        } else {
            out.push(c);
        }
        proof {
            assert(out@ =~= old(out)@ + esc_char(s@[from as int]));
        }
        append_escaped(out, s, from + 1);
        proof {
            let tail = s@.skip(from as int);
            assert(tail.drop_first() =~= s@.skip(from as int + 1));
            assert(tail[0] == s@[from as int]);
            assert(out@ =~= old(out)@ + esc(s@.skip(from as int)));
        }
    }
}

// ---------------------------------------------------------------------
// The fixed fragments of a task object
// ---------------------------------------------------------------------
/// `{"name":"` — opens the object and the name value.
pub open spec fn l_name() -> Seq<char> {
    seq!['{', '"', 'n', 'a', 'm', 'e', '"', ':', '"']
}

/// `,"description":"`.
pub open spec fn l_desc() -> Seq<char> {
    seq![',', '"', 'd', 'e', 's', 'c', 'r', 'i', 'p', 't', 'i', 'o', 'n', '"', ':', '"']
}

/// `,"priority":"`.
pub open spec fn l_pri() -> Seq<char> {
    seq![',', '"', 'p', 'r', 'i', 'o', 'r', 'i', 't', 'y', '"', ':', '"']
}

/// `,"date_created":"`.
pub open spec fn l_created() -> Seq<char> {
    seq![',', '"', 'd', 'a', 't', 'e', '_', 'c', 'r', 'e', 'a', 't', 'e', 'd', '"', ':', '"']
}

/// `","date_updated":` — closes the created value, then the last key.
pub open spec fn l_updated() -> Seq<char> {
    seq!['"', ',', '"', 'd', 'a', 't', 'e', '_', 'u', 'p', 'd', 'a', 't', 'e', 'd', '"', ':']
}

/// The priority value with its closing quote.
pub open spec fn pri_q(p: Priority) -> Seq<char> {
    match p {
        Priority::Low => seq!['L', 'o', 'w', '"'],
        Priority::Medium => seq!['M', 'e', 'd', 'i', 'u', 'm', '"'],
        Priority::High => seq!['H', 'i', 'g', 'h', '"'],
    }
}

/// The `date_updated` value with the closing brace of the object.
pub open spec fn upd_q(u: Option<Timestamp>) -> Seq<char> {
    match u {
        None => seq!['n', 'u', 'l', 'l', '}'],
        Some(t) => seq!['"'] + ser_ts(t) + seq!['"', '}'],
    }
}

// ---------------------------------------------------------------------
// Whole documents
// ---------------------------------------------------------------------
/// The serialized form of one task.
pub open spec fn ser_task(t: TaskView) -> Seq<char> {
    l_name() + esc(t.name) + seq!['"'] + l_desc() + esc(t.description) + seq!['"'] + l_pri()
        + pri_q(t.priority) + l_created() + ser_ts(t.date_created) + l_updated() + upd_q(
        t.date_updated,
    )
}

/// The serialized forms of the tasks, comma-separated.
pub open spec fn ser_tasks(s: Seq<TaskView>) -> Seq<char>
    decreases s.len(),
{
    if s.len() == 0 {
        Seq::empty()
    } else if s.len() == 1 {
        ser_task(s[0])
    } else {
        ser_task(s[0]) + seq![','] + ser_tasks(s.drop_first())
    }
}

/// A whole store document: the task array in brackets.
pub open spec fn ser_store(s: Seq<TaskView>) -> Seq<char> {
    seq!['['] + ser_tasks(s) + seq![']']
}

fn append_vec(out: &mut Vec<char>, v: Vec<char>)
    ensures
        final (out)@ == old(out)@ + v@,
{
    let mut i: usize = 0;
    while i < v.len()
        invariant
            0 <= i <= v@.len(),
            out@ == old(out)@ + v@.take(i as int),
        decreases v@.len() - i,
    {
        out.push(v[i]);
        proof {
            assert(out@ =~= old(out)@ + v@.take(i as int + 1));
        }
        i += 1;
    }
    proof {
        assert(out@ =~= old(out)@ + v@);
    }
}

fn append_escaped_str(out: &mut Vec<char>, s: &String)
    ensures
        final (out)@ == old(out)@ + esc(s@),
{
    let cs = str_to_chars(s.as_str());
    proof {
        assert(cs@.skip(0) =~= s@);
    }
    append_escaped(out, &cs, 0);
}

#[verifier::rlimit(100)]
fn append_task(out: &mut Vec<char>, t: &Task)
    requires
        t@.date_created.wf(),
        (t@.date_updated matches Some(u) ==> u.wf()),
    ensures
        final (out)@ == old(out)@ + ser_task(t@),
{
    let v_name = vec!['{', '"', 'n', 'a', 'm', 'e', '"', ':', '"'];
    let v_desc = vec![',', '"', 'd', 'e', 's', 'c', 'r', 'i', 'p', 't', 'i', 'o', 'n', '"', ':', '"'];
    let v_pri = vec![',', '"', 'p', 'r', 'i', 'o', 'r', 'i', 't', 'y', '"', ':', '"'];
    let v_created = vec![',', '"', 'd', 'a', 't', 'e', '_', 'c', 'r', 'e', 'a', 't', 'e', 'd', '"', ':', '"'];
    let v_updated = vec!['"', ',', '"', 'd', 'a', 't', 'e', '_', 'u', 'p', 'd', 'a', 't', 'e', 'd', '"', ':'];
    proof {
        assert(v_name@ =~= l_name());
        assert(v_desc@ =~= l_desc());
        assert(v_pri@ =~= l_pri());
        assert(v_created@ =~= l_created());
        assert(v_updated@ =~= l_updated());
    }
    append_vec(out, v_name);
    append_escaped_str(out, &t.name);
    out.push('"');
    append_vec(out, v_desc);
    append_escaped_str(out, &t.description);
    out.push('"');
    append_vec(out, v_pri);
    match t.priority {
        Priority::Low => append_vec(out, vec!['L', 'o', 'w', '"']),
        Priority::Medium => append_vec(out, vec!['M', 'e', 'd', 'i', 'u', 'm', '"']),
        Priority::High => append_vec(out, vec!['H', 'i', 'g', 'h', '"']),
    }
    proof {
        assert(out@ =~= old(out)@ + l_name() + esc(t@.name) + seq!['"'] + l_desc() + esc(
            t@.description,
        ) + seq!['"'] + l_pri() + pri_q(t@.priority));
    }
    let ghost head = l_name() + esc(t@.name) + seq!['"'] + l_desc() + esc(t@.description)
        + seq!['"'] + l_pri() + pri_q(t@.priority);
    proof {
        assert(out@ =~= old(out)@ + head);
    }
    append_vec(out, v_created);
    append_ts(out, t.date_created);
    append_vec(out, v_updated);
    let ghost mid = head + l_created() + ser_ts(t@.date_created) + l_updated();
    proof {
        assert(out@ =~= old(out)@ + mid);
    }
    match &t.date_updated {
        None => append_vec(out, vec!['n', 'u', 'l', 'l', '}']),
        Some(u) => {
            out.push('"');
            append_ts(out, *u);
            append_vec(out, vec!['"', '}']);
            proof {
                assert(upd_q(t@.date_updated) =~= seq!['"'] + ser_ts(t@.date_updated->0) + seq![
                    '"',
                    '}',
                ]);
            }
        },
    }
    proof {
        assert(out@ =~= old(out)@ + (mid + upd_q(t@.date_updated)));
        assert(ser_task(t@) =~= mid + upd_q(t@.date_updated));
    }
}

/// Writes the whole store document for the given tasks.
pub fn serialize_tasks(tasks: &Vec<Task>) -> (r: String)
    requires
        crate::store::wf_tasks(tasks_view(tasks@)),
    ensures
        r@ == ser_store(tasks_view(tasks@)),
{
    let mut out: Vec<char> = Vec::new();
    out.push('[');
    serialize_tasks_rec(&mut out, tasks, 0);
    out.push(']');
    proof {
        assert(tasks_view(tasks@).skip(0) =~= tasks_view(tasks@));
        assert(out@ =~= ser_store(tasks_view(tasks@)));
    }
    chars_to_string(&out)
}

#[verifier::rlimit(100)]
fn serialize_tasks_rec(out: &mut Vec<char>, tasks: &Vec<Task>, from: usize)
    requires
        from <= tasks@.len(),
        crate::store::wf_tasks(tasks_view(tasks@)),
    ensures
        final (out)@ == old(out)@ + ser_tasks(tasks_view(tasks@).skip(from as int)),
    decreases tasks@.len() - from,
{
    let ghost all = tasks_view(tasks@);
    if from == tasks.len() {
        proof {
            assert(all.skip(from as int) =~= Seq::<TaskView>::empty());
        }
    } else {
        proof {
            assert(all.skip(from as int)[0] == tasks@[from as int]@);
            assert(crate::store::wf_task(all[from as int]));
        }
        append_task(out, &tasks[from]);
        if from + 1 == tasks.len() {
            proof {
                assert(all.skip(from as int).len() == 1);
            }
        } else {
            out.push(',');
            serialize_tasks_rec(out, tasks, from + 1);
            proof {
                let tail = all.skip(from as int);
                assert(tail.drop_first() =~= all.skip(from as int + 1));
                assert(out@ =~= old(out)@ + ser_tasks(tail));
            }
        }
    }
}

// ---------------------------------------------------------------------
// Display formatting
// ---------------------------------------------------------------------
/// The console form of a timestamp: `DD-MM-YYYY HH:MM:SS`.
pub open spec fn disp_ts(t: Timestamp) -> Seq<char> {
    ser2(t.day as int) + seq!['-'] + ser2(t.month as int) + seq!['-'] + ser4(t.year as int)
        + seq![' '] + ser2(t.hour as int) + seq![':'] + ser2(t.minute as int) + seq![':'] + ser2(
        t.second as int,
    )
}

impl Timestamp {
    /// Formats the timestamp for display, day first.
    pub fn to_display(&self) -> (r: String)
        requires
            self.wf(),
        ensures
            r@ == disp_ts(*self),
    {
        let mut out: Vec<char> = Vec::new();
        append2(&mut out, self.day);
        out.push('-');
        append2(&mut out, self.month);
        out.push('-');
        append4(&mut out, self.year);
        out.push(' ');
        append2(&mut out, self.hour);
        out.push(':');
        append2(&mut out, self.minute);
        out.push(':');
        append2(&mut out, self.second);
        proof {
            assert(out@ =~= disp_ts(*self));
        }
        chars_to_string(&out)
    }
}

impl Task {
    /// The two console lines for one task: name, priority and creation
    /// time, then the description.
    pub fn display_line(&self) -> (r: String)
        requires
            self@.date_created.wf(),
        ensures
            r@ == self@.name + " | "@ + self@.priority.spec_str() + " | "@ + disp_ts(
                self@.date_created,
            ) + "\n"@ + self@.description,
    {
        let mut out = self.name.clone();
        out.append(" | ");
        let p = self.priority.to_string();
        out.append(p.as_str());
        out.append(" | ");
        let stamp = self.date_created.to_display();
        out.append(stamp.as_str());
        out.append("\n");
        out.append(self.description.as_str());
        out
    }
}

// ---------------------------------------------------------------------
// The parser, at the specification level
// ---------------------------------------------------------------------
/// Consumes the exact characters of `lit` at position `i`, or fails.
pub open spec fn spec_expect(s: Seq<char>, i: int, lit: Seq<char>) -> Option<int> {
    if 0 <= i && i + lit.len() <= s.len() && s.subrange(i, i + lit.len() as int) == lit {
        Some(i + lit.len() as int)
    } else {
        None
    }
}

/// Consumes an escaped string body up to and including its closing quote,
/// returning the unescaped content and the position after the quote.
pub open spec fn sp_str(s: Seq<char>, i: int) -> Option<(Seq<char>, int)>
    decreases s.len() - i,
{
    if i < 0 || i >= s.len() {
        None
    } else if s[i] == '"' {
        Some((Seq::empty(), i + 1))
    } else if s[i] == '\\' {
        if i + 1 < s.len() && (s[i + 1] == '"' || s[i + 1] == '\\') {
            match sp_str(s, i + 2) {
                Some((t, j)) => Some((seq![s[i + 1]] + t, j)),
                None => None,
            }
        } else {
            None
        }
    } else {
        match sp_str(s, i + 1) {
            Some((t, j)) => Some((seq![s[i]] + t, j)),
            None => None,
        }
    }
}

/// A successful string scan ends after `i` and within the input.
pub proof fn lemma_sp_str_bounds(s: Seq<char>, i: int)
    requires
        sp_str(s, i) is Some,
    ensures
        sp_str(s, i) matches Some(r) ==> i < r.1 <= s.len(),
    decreases s.len() - i,
{
    if 0 <= i && i < s.len() && s[i] != '"' {
        if s[i] == '\\' {
            lemma_sp_str_bounds(s, i + 2);
        } else {
            lemma_sp_str_bounds(s, i + 1);
        }
    }
}

/// Two decimal digits at `i`, as a number.
pub open spec fn sp2(s: Seq<char>, i: int) -> Option<int> {
    if 0 <= i && i + 2 <= s.len() && spec_is_digit(s[i]) && spec_is_digit(s[i + 1]) {
        Some(10 * spec_digit_val(s[i]) + spec_digit_val(s[i + 1]))
    } else {
        None
    }
}

/// Four decimal digits at `i`, as a number.
pub open spec fn sp4(s: Seq<char>, i: int) -> Option<int> {
    match (sp2(s, i), sp2(s, i + 2)) {
        (Some(a), Some(b)) => Some(100 * a + b),
        _ => None,
    }
}

/// A nineteen-character timestamp at `i`.
pub open spec fn sp_ts(s: Seq<char>, i: int) -> Option<(Timestamp, int)> {
    if 0 <= i && i + 19 <= s.len() {
        match (sp4(s, i), sp2(s, i + 5), sp2(s, i + 8), sp2(s, i + 11), sp2(s, i + 14), sp2(
            s,
            i + 17,
        )) {
            (Some(y), Some(mo), Some(d), Some(h), Some(mi), Some(sec)) => {
                if s[i + 4] == '-' && s[i + 7] == '-' && s[i + 10] == 'T' && s[i + 13] == ':' && s[
                    i + 16
                ] == ':' {
                    Some(
                        (
                            Timestamp {
                                year: y as u32,
                                month: mo as u32,
                                day: d as u32,
                                hour: h as u32,
                                minute: mi as u32,
                                second: sec as u32,
                            },
                            i + 19,
                        ),
                    )
                } else {
                    None
                }
            },
            _ => None,
        }
    } else {
        None
    }
}

/// A priority value with its closing quote.
pub open spec fn sp_pri(s: Seq<char>, i: int) -> Option<(Priority, int)> {
    if spec_expect(s, i, pri_q(Priority::Low)) is Some {
        Some((Priority::Low, i + 4))
    } else if spec_expect(s, i, pri_q(Priority::Medium)) is Some {
        Some((Priority::Medium, i + 7))
    } else if spec_expect(s, i, pri_q(Priority::High)) is Some {
        Some((Priority::High, i + 5))
    } else {
        None
    }
}

/// One task object at `i`, with all five fields in their fixed order.
pub open spec fn sp_task(s: Seq<char>, i: int) -> Option<(TaskView, int)> {
    match spec_expect(s, i, l_name()) {
        None => None,
        Some(j1) => match sp_str(s, j1) {
            None => None,
            Some((name, j2)) => match spec_expect(s, j2, l_desc()) {
                None => None,
                Some(j3) => match sp_str(s, j3) {
                    None => None,
                    Some((desc, j4)) => match spec_expect(s, j4, l_pri()) {
                        None => None,
                        Some(j5) => match sp_pri(s, j5) {
                            None => None,
                            Some((p, j6)) => match spec_expect(s, j6, l_created()) {
                                None => None,
                                Some(j7) => match sp_ts(s, j7) {
                                    None => None,
                                    Some((c, j8)) => match spec_expect(s, j8, l_updated()) {
                                        None => None,
                                        Some(j9) => sp_task_upd(s, j9, name, desc, p, c),
                                    },
                                },
                            },
                        },
                    },
                },
            },
        },
    }
}

/// The `date_updated` value and closing brace, finishing the task begun
/// by `sp_task`.
pub open spec fn sp_task_upd(
    s: Seq<char>,
    j9: int,
    name: Seq<char>,
    desc: Seq<char>,
    p: Priority,
    c: Timestamp,
) -> Option<(TaskView, int)> {
    if j9 < s.len() && s[j9] == 'n' {
        match spec_expect(s, j9, seq!['n', 'u', 'l', 'l', '}']) {
            None => None,
            Some(j10) => Some(
                (
                    TaskView {
                        name,
                        description: desc,
                        priority: p,
                        date_created: c,
                        date_updated: None,
                    },
                    j10,
                ),
            ),
        }
    } else {
        match spec_expect(s, j9, seq!['"']) {
            None => None,
            Some(j10) => match sp_ts(s, j10) {
                None => None,
                Some((u, j11)) => match spec_expect(s, j11, seq!['"', '}']) {
                    None => None,
                    Some(j12) => Some(
                        (
                            TaskView {
                                name,
                                description: desc,
                                priority: p,
                                date_created: c,
                                date_updated: Some(u),
                            },
                            j12,
                        ),
                    ),
                },
            },
        }
    }
}

/// One or more comma-separated task objects starting at `i`.
pub open spec fn sp_tasks(s: Seq<char>, i: int) -> Option<(Seq<TaskView>, int)>
    decreases s.len() - i,
{
    match sp_task(s, i) {
        None => None,
        Some((t, j)) => if i < j && j < s.len() && s[j] == ',' {
            match sp_tasks(s, j + 1) {
                Some((ts, k)) => Some((seq![t] + ts, k)),
                None => None,
            }
        } else {
            Some((seq![t], j))
        },
    }
}

/// A whole document: the bracketed task array, consuming all of `s`.
pub open spec fn sp_doc(s: Seq<char>) -> Option<Seq<TaskView>> {
    if s.len() >= 2 && s[0] == '[' {
        if s[1] == ']' {
            if s.len() == 2 {
                Some(Seq::empty())
            } else {
                None
            }
        } else {
            match sp_tasks(s, 1) {
                Some((ts, j)) => if j + 1 == s.len() && s[j] == ']' {
                    Some(ts)
                } else {
                    None
                },
                None => None,
            }
        }
    } else {
        None
    }
}

// ---------------------------------------------------------------------
// The parser, executable
// ---------------------------------------------------------------------
fn px_expect(s: &Vec<char>, i: usize, lit: &Vec<char>) -> (r: Option<usize>)
    requires
        i <= s@.len(),
    ensures
        (match spec_expect(s@, i as int, lit@) {
            Some(j) => r matches Some(k) && k as int == j,
            None => r is None,
        }),
{
    if s.len() - i < lit.len() {
        return None;
    }
    let mut k: usize = 0;
    while k < lit.len()
        invariant
            0 <= k <= lit@.len(),
            i + lit@.len() <= s@.len(),
            s@.len() <= usize::MAX,
            forall|m: int| 0 <= m < k ==> s@[i + m] == lit@[m],
        decreases lit@.len() - k,
    {
        proof {
            assert(i + k < s@.len());
        }
        if s[i + k] != lit[k] {
            proof {
                assert(s@.subrange(i as int, i + lit@.len())[k as int] == s@[i + k]);
            }
            return None;
        }
        k += 1;
    }
    proof {
        assert(s@.subrange(i as int, i + lit@.len()) =~= lit@);
    }
    Some(i + lit.len())
}

fn px_str(s: &Vec<char>, i: usize) -> (r: Option<(Vec<char>, usize)>)
    requires
        i <= s@.len(),
    ensures
        (match sp_str(s@, i as int) {
            Some(p) => r matches Some(q) && q.0@ == p.0 && q.1 as int == p.1,
            None => r is None,
        }),
    decreases s@.len() - i,
{
    if i >= s.len() {
        return None;
    }
    let c = s[i];
    if c == '"' {
        Some((Vec::new(), i + 1))
    } else if c == '\\' {
        if i + 1 < s.len() && (s[i + 1] == '"' || s[i + 1] == '\\') {
            let e = s[i + 1];
            match px_str(s, i + 2) {
                Some((mut v, j)) => {
                    v.insert(0, e);
                    proof {
                        assert(v@ =~= seq![e] + v@.drop_first());
                    }
                    Some((v, j))
                },
                None => None,
            }
        } else {
            None
        }
    } else {
        match px_str(s, i + 1) {
            Some((mut v, j)) => {
                v.insert(0, c);
                proof {
                    assert(v@ =~= seq![c] + v@.drop_first());
                }
                Some((v, j))
            },
            None => None,
        }
    }
}

fn px2(s: &Vec<char>, i: usize) -> (r: Option<u32>)
    requires
        i <= s@.len(),
    ensures
        (match sp2(s@, i as int) {
            Some(n) => r matches Some(v) && v as int == n && v < 100,
            None => r is None,
        }),
{
    if i < s.len() && i + 1 < s.len() {
        let a = digit_val(s[i]);
        let b = digit_val(s[i + 1]);
        if a < 10 && b < 10 {
            Some(10 * a + b)
        } else {
            None
        }
    } else {
        None
    }
}

fn px4(s: &Vec<char>, i: usize) -> (r: Option<u32>)
    requires
        i <= s@.len(),
    ensures
        (match sp4(s@, i as int) {
            Some(n) => r matches Some(v) && v as int == n && v < 10000,
            None => r is None,
        }),
{
    match px2(s, i) {
        None => None,
        Some(a) => {
            let n = s.len();
            proof {
                assert(i + 2 <= n);
            }
            match px2(s, i + 2) {
                None => None,
                Some(b) => Some(100 * a + b),
            }
        },
    }
}

fn px_ts(s: &Vec<char>, i: usize) -> (r: Option<(Timestamp, usize)>)
    requires
        i <= s@.len(),
    ensures
        (match sp_ts(s@, i as int) {
            Some(p) => r matches Some(q) && q.0 == p.0 && q.1 as int == p.1,
            None => r is None,
        }),
{
    if s.len() - i < 19 {
        return None;
    }
    let y = match px4(s, i) {
        Some(v) => v,
        None => {
            return None;
        },
    };
    let mo = match px2(s, i + 5) {
        Some(v) => v,
        None => {
            return None;
        },
    };
    let d = match px2(s, i + 8) {
        Some(v) => v,
        None => {
            return None;
        },
    };
    let h = match px2(s, i + 11) {
        Some(v) => v,
        None => {
            return None;
        },
    };
    let mi = match px2(s, i + 14) {
        Some(v) => v,
        None => {
            return None;
        },
    };
    let sec = match px2(s, i + 17) {
        Some(v) => v,
        None => {
            return None;
        },
    };
    if s[i + 4] == '-' && s[i + 7] == '-' && s[i + 10] == 'T' && s[i + 13] == ':' && s[i + 16]
        == ':' {
        Some(
            (
                Timestamp { year: y, month: mo, day: d, hour: h, minute: mi, second: sec },
                i + 19,
            ),
        )
    } else {
        None
    }
}

fn px_pri(s: &Vec<char>, i: usize) -> (r: Option<(Priority, usize)>)
    requires
        i <= s@.len(),
    ensures
        (match sp_pri(s@, i as int) {
            Some(p) => r matches Some(q) && q.0 == p.0 && q.1 as int == p.1,
            None => r is None,
        }),
{
    let low = vec!['L', 'o', 'w', '"'];
    let med = vec!['M', 'e', 'd', 'i', 'u', 'm', '"'];
    let high = vec!['H', 'i', 'g', 'h', '"'];
    proof {
        assert(low@ =~= pri_q(Priority::Low));
        assert(med@ =~= pri_q(Priority::Medium));
        assert(high@ =~= pri_q(Priority::High));
    }
    if let Some(j) = px_expect(s, i, &low) {
        Some((Priority::Low, j))
    } else if let Some(j) = px_expect(s, i, &med) {
        Some((Priority::Medium, j))
    } else if let Some(j) = px_expect(s, i, &high) {
        Some((Priority::High, j))
    } else {
        None
    }
}

#[verifier::rlimit(100)]
fn px_task(s: &Vec<char>, i: usize) -> (r: Option<(Task, usize)>)
    requires
        i <= s@.len(),
    ensures
        (match sp_task(s@, i as int) {
            Some(p) => r matches Some(q) && q.0@ == p.0 && q.1 as int == p.1,
            None => r is None,
        }),
{
    let v_name = vec!['{', '"', 'n', 'a', 'm', 'e', '"', ':', '"'];
    let v_desc = vec![',', '"', 'd', 'e', 's', 'c', 'r', 'i', 'p', 't', 'i', 'o', 'n', '"', ':', '"'];
    let v_pri = vec![',', '"', 'p', 'r', 'i', 'o', 'r', 'i', 't', 'y', '"', ':', '"'];
    let v_created = vec![',', '"', 'd', 'a', 't', 'e', '_', 'c', 'r', 'e', 'a', 't', 'e', 'd', '"', ':', '"'];
    let v_updated = vec!['"', ',', '"', 'd', 'a', 't', 'e', '_', 'u', 'p', 'd', 'a', 't', 'e', 'd', '"', ':'];
    proof {
        assert(v_name@ =~= l_name());
        assert(v_desc@ =~= l_desc());
        assert(v_pri@ =~= l_pri());
        assert(v_created@ =~= l_created());
        assert(v_updated@ =~= l_updated());
    }
    let j1 = match px_expect(s, i, &v_name) {
        Some(j) => j,
        None => {
            return None;
        },
    };
    let (name, j2) = match px_str(s, j1) {
        Some(p) => p,
        None => {
            return None;
        },
    };
    proof {
        lemma_sp_str_bounds(s@, j1 as int);
    }
    let j3 = match px_expect(s, j2, &v_desc) {
        Some(j) => j,
        None => {
            return None;
        },
    };
    let (desc, j4) = match px_str(s, j3) {
        Some(p) => p,
        None => {
            return None;
        },
    };
    proof {
        lemma_sp_str_bounds(s@, j3 as int);
    }
    let j5 = match px_expect(s, j4, &v_pri) {
        Some(j) => j,
        None => {
            return None;
        },
    };
    let (p, j6) = match px_pri(s, j5) {
        Some(p) => p,
        None => {
            return None;
        },
    };
    let j7 = match px_expect(s, j6, &v_created) {
        Some(j) => j,
        None => {
            return None;
        },
    };
    let (c, j8) = match px_ts(s, j7) {
        Some(p) => p,
        None => {
            return None;
        },
    };
    let j9 = match px_expect(s, j8, &v_updated) {
        Some(j) => j,
        None => {
            return None;
        },
    };
    let name_s = chars_to_string(&name);
    let desc_s = chars_to_string(&desc);
    if j9 < s.len() && s[j9] == 'n' {
        let v_null = vec!['n', 'u', 'l', 'l', '}'];
        proof {
            assert(v_null@ =~= seq!['n', 'u', 'l', 'l', '}']);
        }
        match px_expect(s, j9, &v_null) {
            Some(j10) => Some(
                (
                    Task {
                        name: name_s,
                        description: desc_s,
                        priority: p,
                        date_created: c,
                        date_updated: None,
                    },
                    j10,
                ),
            ),
            None => None,
        }
    } else {
        let v_q = vec!['"'];
        let v_qb = vec!['"', '}'];
        proof {
            assert(v_q@ =~= seq!['"']);
            assert(v_qb@ =~= seq!['"', '}']);
        }
        let j10 = match px_expect(s, j9, &v_q) {
            Some(j) => j,
            None => {
                return None;
            },
        };
        let (u, j11) = match px_ts(s, j10) {
            Some(p) => p,
            None => {
                return None;
            },
        };
        match px_expect(s, j11, &v_qb) {
            Some(j12) => Some(
                (
                    Task {
                        name: name_s,
                        description: desc_s,
                        priority: p,
                        date_created: c,
                        date_updated: Some(u),
                    },
                    j12,
                ),
            ),
            None => None,
        }
    }
}

#[verifier::rlimit(100)]
fn px_tasks(s: &Vec<char>, i: usize) -> (r: Option<(Vec<Task>, usize)>)
    requires
        i <= s@.len(),
    ensures
        (match sp_tasks(s@, i as int) {
            Some(p) => r matches Some(q) && tasks_view(q.0@) == p.0 && q.1 as int == p.1,
            None => r is None,
        }),
    decreases s@.len() - i,
{
    let (t, j) = match px_task(s, i) {
        Some(p) => p,
        None => {
            return None;
        },
    };
    if i < j && j < s.len() && s[j] == ',' {
        match px_tasks(s, j + 1) {
            Some((mut v, k)) => {
                v.insert(0, t);
                proof {
                    let ghost spec_rest = (sp_tasks(s@, j + 1)->0).0;
                    assert(tasks_view(v@) =~= seq![t@] + spec_rest);
                }
                Some((v, k))
            },
            None => None,
        }
    } else {
        let mut v: Vec<Task> = Vec::new();
        v.push(t);
        proof {
            assert(tasks_view(v@) =~= seq![t@]);
        }
        Some((v, j))
    }
}

/// Parses a whole store document; any malformed input is a
/// `ParseFailure`.
pub fn parse_document(doc: &str) -> (r: Result<Vec<Task>, crate::store::StoreError>)
    ensures
        (match sp_doc(doc@) {
            Some(ts) => r matches Ok(v) && tasks_view(v@) == ts,
            None => r matches Err(crate::store::StoreError::ParseFailure),
        }),
{
    let s = str_to_chars(doc);
    if s.len() >= 2 && s[0] == '[' {
        if s[1] == ']' {
            if s.len() == 2 {
                let v: Vec<Task> = Vec::new();
                proof {
                    assert(tasks_view(v@) =~= Seq::<TaskView>::empty());
                }
                Ok(v)
            } else {
                Err(crate::store::StoreError::ParseFailure)
            }
        } else {
            match px_tasks(&s, 1) {
                Some((v, j)) => {
                    if j < s.len() && j + 1 == s.len() && s[j] == ']' {
                        Ok(v)
                    } else {
                        Err(crate::store::StoreError::ParseFailure)
                    }
                },
                None => Err(crate::store::StoreError::ParseFailure),
            }
        }
    } else {
        Err(crate::store::StoreError::ParseFailure)
    }
}

// ---------------------------------------------------------------------
// Round trip: parsing a written document gives back the tasks
// ---------------------------------------------------------------------
/// Splits a known suffix `a + b` of `s` at the end of `a`.
proof fn lemma_suffix_step(s: Seq<char>, i: int, a: Seq<char>, b: Seq<char>)
    requires
        0 <= i <= s.len(),
        s.subrange(i, s.len() as int) == a + b,
    ensures
        i + a.len() <= s.len(),
        s.subrange(i + a.len(), s.len() as int) == b,
        forall|k: int| 0 <= k < a.len() ==> s[i + k] == #[trigger] a[k],
        a.len() >= 1 ==> s[i] == a[0],
{
    assert(s.subrange(i, s.len() as int).len() == a.len() + b.len());
    assert(s.subrange(i + a.len(), s.len() as int) =~= b) by {
        assert forall|k: int| 0 <= k < b.len() implies s[i + a.len() + k] == b[k] by {
            assert(s.subrange(i, s.len() as int)[a.len() + k] == s[i + a.len() + k]);
            assert((a + b)[a.len() + k] == b[k]);
        }
    }
    assert forall|k: int| 0 <= k < a.len() implies s[i + k] == #[trigger] a[k] by {
        assert(s.subrange(i, s.len() as int)[k] == s[i + k]);
        assert((a + b)[k] == a[k]);
    }
    if a.len() >= 1 {
        assert(s[i + 0] == a[0]);
    }
}

/// A literal that stands at `i` is consumed exactly.
proof fn lemma_expect_prefix(s: Seq<char>, i: int, lit: Seq<char>, rest: Seq<char>)
    requires
        0 <= i <= s.len(),
        s.subrange(i, s.len() as int) == lit + rest,
    ensures
        spec_expect(s, i, lit) == Some(i + lit.len() as int),
        i + lit.len() <= s.len(),
        s.subrange(i + lit.len(), s.len() as int) == rest,
        lit.len() >= 1 ==> s[i] == lit[0],
{
    lemma_suffix_step(s, i, lit, rest);
    assert(s.subrange(i, i + lit.len() as int) =~= lit);
}

/// Scanning the escaped form of `t` plus its closing quote recovers `t`.
proof fn lemma_sp_str_esc(s: Seq<char>, i: int, t: Seq<char>, rest: Seq<char>)
    requires
        0 <= i <= s.len(),
        s.subrange(i, s.len() as int) == esc(t) + seq!['"'] + rest,
    ensures
        sp_str(s, i) == Some((t, i + esc(t).len() + 1)),
        i + esc(t).len() + 1 <= s.len(),
        s.subrange(i + esc(t).len() + 1, s.len() as int) == rest,
    decreases t.len(),
{
    if t.len() == 0 {
        assert(esc(t) + seq!['"'] + rest =~= seq!['"'] + rest);
        lemma_suffix_step(s, i, seq!['"'], rest);
        assert(s[i] == '"');
    } else {
        let c = t[0];
        let tail = t.drop_first();
        assert(esc(t) == esc_char(c) + esc(tail));
        let inner = esc(tail) + seq!['"'] + rest;
        if c == '"' || c == '\\' {
            assert(esc_char(c) =~= seq!['\\', c]);
            assert(s.subrange(i, s.len() as int) =~= seq!['\\', c] + inner);
            lemma_suffix_step(s, i, seq!['\\', c], inner);
            assert(s[i] == '\\');
            assert(s[i + 1] == c);
            lemma_sp_str_esc(s, i + 2, tail, rest);
            assert(seq![s[i + 1]] + tail =~= t);
            assert(esc(t).len() == 2 + esc(tail).len());
        } else {
            assert(esc_char(c) =~= seq![c]);
            assert(s.subrange(i, s.len() as int) =~= seq![c] + inner);
            lemma_suffix_step(s, i, seq![c], inner);
            assert(s[i] == c);
            lemma_sp_str_esc(s, i + 1, tail, rest);
            assert(seq![s[i]] + tail =~= t);
            assert(esc(t).len() == 1 + esc(tail).len());
        }
    }
}

/// Two written digits parse back to their number.
proof fn lemma_sp2_ser2(s: Seq<char>, i: int, n: int, rest: Seq<char>)
    requires
        0 <= i <= s.len(),
        0 <= n < 100,
        s.subrange(i, s.len() as int) == ser2(n) + rest,
    ensures
        sp2(s, i) == Some(n),
        i + 2 <= s.len(),
        s.subrange(i + 2, s.len() as int) == rest,
{
    lemma_suffix_step(s, i, ser2(n), rest);
    assert(s[i] == spec_digit_char(n / 10));
    assert(s[i + 1] == spec_digit_char(n % 10));
    assert(spec_digit_val(spec_digit_char(n / 10)) == n / 10);
    assert(spec_digit_val(spec_digit_char(n % 10)) == n % 10);
    vstd::arithmetic::div_mod::lemma_fundamental_div_mod(n, 10);
}

/// Four written digits parse back to their number.
proof fn lemma_sp4_ser4(s: Seq<char>, i: int, n: int, rest: Seq<char>)
    requires
        0 <= i <= s.len(),
        0 <= n < 10000,
        s.subrange(i, s.len() as int) == ser4(n) + rest,
    ensures
        sp4(s, i) == Some(n),
        i + 4 <= s.len(),
        s.subrange(i + 4, s.len() as int) == rest,
{
    let a = n / 100;
    let b = n % 100;
    vstd::arithmetic::div_mod::lemma_fundamental_div_mod(n, 100);
    assert(s.subrange(i, s.len() as int) =~= ser2(a) + (ser2(b) + rest));
    lemma_sp2_ser2(s, i, a, ser2(b) + rest);
    lemma_sp2_ser2(s, i + 2, b, rest);
}

/// A written timestamp parses back to the same timestamp.
#[verifier::rlimit(100)]
proof fn lemma_sp_ts_ser(s: Seq<char>, i: int, t: Timestamp, rest: Seq<char>)
    requires
        t.wf(),
        0 <= i <= s.len(),
        s.subrange(i, s.len() as int) == ser_ts(t) + rest,
    ensures
        sp_ts(s, i) == Some((t, i + 19)),
        i + 19 <= s.len(),
        s.subrange(i + 19, s.len() as int) == rest,
{
    let r1 = seq!['-'] + ser2(t.month as int) + seq!['-'] + ser2(t.day as int) + seq!['T'] + ser2(
        t.hour as int,
    ) + seq![':'] + ser2(t.minute as int) + seq![':'] + ser2(t.second as int) + rest;
    assert(s.subrange(i, s.len() as int) =~= ser4(t.year as int) + r1);
    lemma_sp4_ser4(s, i, t.year as int, r1);
    let r2 = ser2(t.month as int) + seq!['-'] + ser2(t.day as int) + seq!['T'] + ser2(
        t.hour as int,
    ) + seq![':'] + ser2(t.minute as int) + seq![':'] + ser2(t.second as int) + rest;
    assert(s.subrange(i + 4, s.len() as int) =~= seq!['-'] + r2);
    lemma_suffix_step(s, i + 4, seq!['-'], r2);
    let r3 = seq!['-'] + ser2(t.day as int) + seq!['T'] + ser2(t.hour as int) + seq![':'] + ser2(
        t.minute as int,
    ) + seq![':'] + ser2(t.second as int) + rest;
    assert(s.subrange(i + 5, s.len() as int) =~= ser2(t.month as int) + r3);
    lemma_sp2_ser2(s, i + 5, t.month as int, r3);
    let r4 = ser2(t.day as int) + seq!['T'] + ser2(t.hour as int) + seq![':'] + ser2(
        t.minute as int,
    ) + seq![':'] + ser2(t.second as int) + rest;
    assert(s.subrange(i + 7, s.len() as int) =~= seq!['-'] + r4);
    lemma_suffix_step(s, i + 7, seq!['-'], r4);
    let r5 = seq!['T'] + ser2(t.hour as int) + seq![':'] + ser2(t.minute as int) + seq![':'] + ser2(
        t.second as int,
    ) + rest;
    assert(s.subrange(i + 8, s.len() as int) =~= ser2(t.day as int) + r5);
    lemma_sp2_ser2(s, i + 8, t.day as int, r5);
    let r6 = ser2(t.hour as int) + seq![':'] + ser2(t.minute as int) + seq![':'] + ser2(
        t.second as int,
    ) + rest;
    assert(s.subrange(i + 10, s.len() as int) =~= seq!['T'] + r6);
    lemma_suffix_step(s, i + 10, seq!['T'], r6);
    let r7 = seq![':'] + ser2(t.minute as int) + seq![':'] + ser2(t.second as int) + rest;
    assert(s.subrange(i + 11, s.len() as int) =~= ser2(t.hour as int) + r7);
    lemma_sp2_ser2(s, i + 11, t.hour as int, r7);
    let r8 = ser2(t.minute as int) + seq![':'] + ser2(t.second as int) + rest;
    assert(s.subrange(i + 13, s.len() as int) =~= seq![':'] + r8);
    lemma_suffix_step(s, i + 13, seq![':'], r8);
    let r9 = seq![':'] + ser2(t.second as int) + rest;
    assert(s.subrange(i + 14, s.len() as int) =~= ser2(t.minute as int) + r9);
    lemma_sp2_ser2(s, i + 14, t.minute as int, r9);
    let r10 = ser2(t.second as int) + rest;
    assert(s.subrange(i + 16, s.len() as int) =~= seq![':'] + r10);
    lemma_suffix_step(s, i + 16, seq![':'], r10);
    assert(s.subrange(i + 17, s.len() as int) =~= ser2(t.second as int) + rest);
    lemma_sp2_ser2(s, i + 17, t.second as int, rest);
    assert(sp_ts(s, i) == Some((t, i + 19)));
}

/// A written priority parses back to the same priority.
proof fn lemma_sp_pri_ser(s: Seq<char>, i: int, p: Priority, rest: Seq<char>)
    requires
        0 <= i <= s.len(),
        s.subrange(i, s.len() as int) == pri_q(p) + rest,
    ensures
        sp_pri(s, i) == Some((p, i + pri_q(p).len() as int)),
        i + pri_q(p).len() <= s.len(),
        s.subrange(i + pri_q(p).len(), s.len() as int) == rest,
{
    lemma_expect_prefix(s, i, pri_q(p), rest);
    match p {
        Priority::Low => {},
        Priority::Medium => {
            assert(s[i] == 'M');
            if spec_expect(s, i, pri_q(Priority::Low)) is Some {
                assert(s.subrange(i, i + 4) == pri_q(Priority::Low));
                assert(s.subrange(i, i + 4)[0] == s[i]);
                assert(false);
            }
        },
        Priority::High => {
            assert(s[i] == 'H');
            if spec_expect(s, i, pri_q(Priority::Low)) is Some {
                assert(s.subrange(i, i + 4) == pri_q(Priority::Low));
                assert(s.subrange(i, i + 4)[0] == s[i]);
                assert(false);
            }
            if spec_expect(s, i, pri_q(Priority::Medium)) is Some {
                assert(s.subrange(i, i + 7) == pri_q(Priority::Medium));
                assert(s.subrange(i, i + 7)[0] == s[i]);
                assert(false);
            }
        },
    }
}

/// The written `date_updated` value and closing brace parse back.
proof fn lemma_sp_task_upd_ser(
    s: Seq<char>,
    j9: int,
    name: Seq<char>,
    desc: Seq<char>,
    p: Priority,
    c: Timestamp,
    u: Option<Timestamp>,
    rest: Seq<char>,
)
    requires
        (u matches Some(x) ==> x.wf()),
        0 <= j9 <= s.len(),
        s.subrange(j9, s.len() as int) == upd_q(u) + rest,
    ensures
        sp_task_upd(s, j9, name, desc, p, c) == Some(
            (
                TaskView { name, description: desc, priority: p, date_created: c, date_updated: u },
                j9 + upd_q(u).len(),
            ),
        ),
        j9 + upd_q(u).len() <= s.len(),
        s.subrange(j9 + upd_q(u).len(), s.len() as int) == rest,
{
    match u {
        None => {
            lemma_expect_prefix(s, j9, seq!['n', 'u', 'l', 'l', '}'], rest);
            assert(s[j9] == 'n');
        },
        Some(x) => {
            let r1 = ser_ts(x) + seq!['"', '}'] + rest;
            assert(s.subrange(j9, s.len() as int) =~= seq!['"'] + r1);
            lemma_expect_prefix(s, j9, seq!['"'], r1);
            assert(s[j9] == '"');
            let r2 = seq!['"', '}'] + rest;
            assert(s.subrange(j9 + 1, s.len() as int) =~= ser_ts(x) + r2);
            lemma_sp_ts_ser(s, j9 + 1, x, r2);
            lemma_expect_prefix(s, j9 + 20, seq!['"', '}'], rest);
            assert(upd_q(u).len() == 22);
        },
    }
}

/// A written task object parses back to the same task.
#[verifier::rlimit(100)]
proof fn lemma_sp_task_ser(s: Seq<char>, i: int, t: TaskView, rest: Seq<char>)
    requires
        crate::store::wf_task(t),
        0 <= i <= s.len(),
        s.subrange(i, s.len() as int) == ser_task(t) + rest,
    ensures
        sp_task(s, i) == Some((t, i + ser_task(t).len())),
        i + ser_task(t).len() <= s.len(),
        s.subrange(i + ser_task(t).len(), s.len() as int) == rest,
{
    let r1 = esc(t.name) + seq!['"'] + (l_desc() + (esc(t.description) + seq!['"'] + (l_pri() + (
    pri_q(t.priority) + (l_created() + (ser_ts(t.date_created) + (l_updated() + (upd_q(
        t.date_updated,
    ) + rest))))))));
    assert(s.subrange(i, s.len() as int) =~= l_name() + r1);
    lemma_expect_prefix(s, i, l_name(), r1);
    let j1 = i + 9;
    let r2 = l_desc() + (esc(t.description) + seq!['"'] + (l_pri() + (pri_q(t.priority) + (
    l_created() + (ser_ts(t.date_created) + (l_updated() + (upd_q(t.date_updated) + rest)))))));
    assert(s.subrange(j1, s.len() as int) =~= esc(t.name) + seq!['"'] + r2);
    lemma_sp_str_esc(s, j1, t.name, r2);
    let j2 = j1 + esc(t.name).len() + 1;
    let r3 = esc(t.description) + seq!['"'] + (l_pri() + (pri_q(t.priority) + (l_created() + (
    ser_ts(t.date_created) + (l_updated() + (upd_q(t.date_updated) + rest))))));
    assert(s.subrange(j2, s.len() as int) =~= l_desc() + r3);
    lemma_expect_prefix(s, j2, l_desc(), r3);
    let j3 = j2 + 16;
    let r4 = l_pri() + (pri_q(t.priority) + (l_created() + (ser_ts(t.date_created) + (l_updated()
        + (upd_q(t.date_updated) + rest)))));
    assert(s.subrange(j3, s.len() as int) =~= esc(t.description) + seq!['"'] + r4);
    lemma_sp_str_esc(s, j3, t.description, r4);
    let j4 = j3 + esc(t.description).len() + 1;
    let r5 = pri_q(t.priority) + (l_created() + (ser_ts(t.date_created) + (l_updated() + (upd_q(
        t.date_updated,
    ) + rest))));
    assert(s.subrange(j4, s.len() as int) =~= l_pri() + r5);
    lemma_expect_prefix(s, j4, l_pri(), r5);
    let j5 = j4 + 13;
    let r6 = l_created() + (ser_ts(t.date_created) + (l_updated() + (upd_q(t.date_updated)
        + rest)));
    assert(s.subrange(j5, s.len() as int) =~= pri_q(t.priority) + r6);
    lemma_sp_pri_ser(s, j5, t.priority, r6);
    let j6 = j5 + pri_q(t.priority).len() as int;
    let r7 = ser_ts(t.date_created) + (l_updated() + (upd_q(t.date_updated) + rest));
    assert(s.subrange(j6, s.len() as int) =~= l_created() + r7);
    lemma_expect_prefix(s, j6, l_created(), r7);
    let j7 = j6 + 17;
    let r8 = l_updated() + (upd_q(t.date_updated) + rest);
    assert(s.subrange(j7, s.len() as int) =~= ser_ts(t.date_created) + r8);
    lemma_sp_ts_ser(s, j7, t.date_created, r8);
    let j8 = j7 + 19;
    let r9 = upd_q(t.date_updated) + rest;
    assert(s.subrange(j8, s.len() as int) =~= l_updated() + r9);
    lemma_expect_prefix(s, j8, l_updated(), r9);
    let j9 = j8 + 17;
    lemma_sp_task_upd_ser(
        s,
        j9,
        t.name,
        t.description,
        t.priority,
        t.date_created,
        t.date_updated,
        rest,
    );
    assert(TaskView {
        name: t.name,
        description: t.description,
        priority: t.priority,
        date_created: t.date_created,
        date_updated: t.date_updated,
    } == t);
    assert(ser_task(t).len() == 9 + esc(t.name).len() + 1 + 16 + esc(t.description).len() + 1 + 13
        + pri_q(t.priority).len() + 17 + 19 + 17 + upd_q(t.date_updated).len());
}

/// Concatenation is associative; stated over atoms so that callers need
/// not expand what the pieces are.
proof fn lemma_assoc3(x: Seq<char>, y: Seq<char>, z: Seq<char>)
    ensures
        (x + y) + z == x + (y + z),
{
    assert((x + y) + z =~= x + (y + z));
}

/// Four-way reassociation, left-nested to right-nested.
proof fn lemma_assoc4(x: Seq<char>, y: Seq<char>, z: Seq<char>, w: Seq<char>)
    ensures
        ((x + y) + z) + w == x + (y + (z + w)),
{
    assert(((x + y) + z) + w =~= x + (y + (z + w)));
}

/// A written task is at least as long as its opening fragment and
/// starts with the opening brace.
proof fn lemma_ser_task_head(t: TaskView)
    ensures
        ser_task(t).len() >= 9,
        ser_task(t)[0] == '{',
{
    assert(l_name().len() == 9);
    assert(l_name()[0] == '{');
}

/// A written nonempty task list starts with the opening brace of its
/// first task.
proof fn lemma_ser_tasks_head(ts: Seq<TaskView>)
    requires
        ts.len() >= 1,
    ensures
        ser_tasks(ts).len() >= 9,
        ser_tasks(ts)[0] == '{',
{
    lemma_ser_task_head(ts[0]);
}

/// A written task list followed by `]` parses back to the same tasks.
#[verifier::rlimit(100)]
proof fn lemma_sp_tasks_ser(s: Seq<char>, i: int, ts: Seq<TaskView>, rest: Seq<char>)
    requires
        ts.len() >= 1,
        crate::store::wf_tasks(ts),
        0 <= i <= s.len(),
        s.subrange(i, s.len() as int) == ser_tasks(ts) + rest,
        rest.len() >= 1,
        rest[0] == ']',
    ensures
        sp_tasks(s, i) == Some((ts, i + ser_tasks(ts).len())),
        i + ser_tasks(ts).len() <= s.len(),
        s.subrange(i + ser_tasks(ts).len(), s.len() as int) == rest,
    decreases ts.len(),
{
    let t0 = ts[0];
    assert(crate::store::wf_task(t0));
    lemma_ser_task_head(t0);
    if ts.len() == 1 {
        assert(ser_tasks(ts) == ser_task(t0));
        lemma_sp_task_ser(s, i, t0, rest);
        let j = i + ser_task(t0).len();
        assert(s.subrange(j, s.len() as int)[0] == s[j]);
        assert(s[j] == ']');
        assert(seq![t0] =~= ts);
    } else {
        let tail = ts.drop_first();
        assert(ser_tasks(ts) == ser_task(t0) + seq![','] + ser_tasks(tail));
        lemma_assoc4(ser_task(t0), seq![','], ser_tasks(tail), rest);
        let r1 = seq![','] + (ser_tasks(tail) + rest);
        assert(s.subrange(i, s.len() as int) == ser_task(t0) + r1);
        lemma_sp_task_ser(s, i, t0, r1);
        let j = i + ser_task(t0).len();
        lemma_suffix_step(s, j, seq![','], ser_tasks(tail) + rest);
        assert(s[j] == ',');
        assert forall|k: int| 0 <= k < tail.len() implies crate::store::wf_task(
            #[trigger] tail[k],
        ) by {
            assert(tail[k] == ts[k + 1]);
        }
        lemma_sp_tasks_ser(s, j + 1, tail, rest);
        assert(seq![t0] + tail =~= ts);
        assert(ser_tasks(ts).len() == ser_task(t0).len() + 1 + ser_tasks(tail).len());
    }
}

/// Parsing the written document of any well-formed tasks gives exactly
/// those tasks back: the serialize/deserialize round trip, field for
/// field and in order.
#[verifier::rlimit(100)]
pub proof fn lemma_round_trip(ts: Seq<TaskView>)
    requires
        crate::store::wf_tasks(ts),
    ensures
        sp_doc(ser_store(ts)) == Some(ts),
{
    let s = ser_store(ts);
    assert(s == seq!['['] + ser_tasks(ts) + seq![']']);
    if ts.len() == 0 {
        assert(ser_tasks(ts) == Seq::<char>::empty());
        assert(s =~= seq!['[', ']']);
        assert(s[0] == '[');
        assert(s[1] == ']');
        assert(ts =~= Seq::<TaskView>::empty());
    } else {
        lemma_ser_tasks_head(ts);
        lemma_assoc3(seq!['['], ser_tasks(ts), seq![']']);
        assert(s == seq!['['] + (ser_tasks(ts) + seq![']']));
        assert(s.subrange(0, s.len() as int) =~= s);
        lemma_suffix_step(s, 0, seq!['['], ser_tasks(ts) + seq![']']);
        assert(s[0] == '[');
        assert(s.len() == 1 + ser_tasks(ts).len() + 1);
        assert(s.subrange(1, s.len() as int)[0] == s[1]);
        assert((ser_tasks(ts) + seq![']'])[0] == ser_tasks(ts)[0]);
        assert(s[1] == '{');
        lemma_sp_tasks_ser(s, 1, ts, seq![']']);
        let j = 1 + ser_tasks(ts).len();
        assert(s.subrange(j as int, s.len() as int) == seq![']']);
        assert(s.subrange(j as int, s.len() as int)[0] == s[j as int]);
        assert(s[j as int] == ']');
        assert(j + 1 == s.len());
    }
}

} // verus!
