//! The wall clock, read through chrono and clamped into a well-formed
//! timestamp.

use vstd::prelude::*;

use crate::store::Priority;
use crate::store::Task;
use crate::store::Timestamp;

verus! {

/// Relies on `chrono::Local::now` and its `Datelike`/`Timelike`
/// accessors: the current local civil time, each field handed over as a
/// plain integer. Nothing is assumed of the values; the caller clamps
/// them.
#[verifier::external_body]
fn now_parts() -> (r: (i64, u32, u32, u32, u32, u32)) {
    let t = chrono::Local::now();
    (
        chrono::Datelike::year(&t) as i64,
        chrono::Datelike::month(&t),
        chrono::Datelike::day(&t),
        chrono::Timelike::hour(&t),
        chrono::Timelike::minute(&t),
        chrono::Timelike::second(&t),
    )
}

/// The current local time, clamped into a well-formed timestamp.
pub fn now() -> (r: Timestamp)
    ensures
        r.wf(),
{
    let (y, mo, d, h, mi, s) = now_parts();
    Timestamp::new(y, mo, d, h, mi, s)
}

/// Builds a task stamped with the current time; `date_updated` starts
/// absent, as with every freshly constructed task.
pub fn new_task_now(name: String, description: String, priority: Priority) -> (r: Task)
    ensures
        r@.name == name@,
        r@.description == description@,
        r@.priority == priority,
        r@.date_updated is None,
        crate::store::wf_task(r@),
{
    let stamp = now();
    Task::new(name, description, priority, stamp)
}

} // verus!
