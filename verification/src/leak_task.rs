//! The decisions of the task that records and reports the leaks the checks
//! find, one event at a time.

use vstd::prelude::*;
use crate::leak_model::LeakModel;

verus! {

/// What the task was woken by.
pub enum TaskEvent {
    /// The leak channel yielded: a leak, or nothing once every sender is gone.
    Received(Option<LeakModel>),
    /// A termination, interrupt, quit or hang-up signal arrived.
    Signal,
}

/// What the task does next.
pub enum TaskAction {
    /// Mark the payload under `payload_key` as leaking, report `leak`, and
    /// wait for the next event.
    Record { payload_key: String, leak: LeakModel },
    /// Wait for the next event.
    Wait,
    /// Stop the task.
    Stop,
}

/// The task's step: a received leak is recorded under its payload
/// fingerprint and reported; an empty receipt changes nothing; a signal
/// stops the task.
pub fn leak_task_step(event: TaskEvent) -> (r: TaskAction)
    ensures
        match event {
            TaskEvent::Received(Some(l)) => r matches TaskAction::Record { payload_key, leak }
                && payload_key@ == l.payload_hash@ && leak == l,
            TaskEvent::Received(None) => r is Wait,
            TaskEvent::Signal => r is Stop,
        },
{
    match event {
        TaskEvent::Received(Some(l)) => {
            let payload_key = String::from_str(l.payload_hash.as_str());
            TaskAction::Record { payload_key, leak: l }
        },
        TaskEvent::Received(None) => TaskAction::Wait,
        TaskEvent::Signal => TaskAction::Stop,
    }
}

} // verus!
