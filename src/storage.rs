use vstd::prelude::*;

use crate::model::{default_data_spec, AppData};
use crate::notified::NotifiedSet;
use crate::sanitize::{normalize_data_at, normalize_spec};
use crate::text::concat;

verus! {

#[verifier::external_type_specification]
#[verifier::external_body]
#[verifier::reject_recursive_types(T)]
pub struct ExMutex<T: ?Sized>(std::sync::Mutex<T>);

pub assume_specification<T>[ std::sync::Mutex::<T>::new ](t: T) -> std::sync::Mutex<T>;

/// Relies on `Mutex::lock`: `None` when a holder of the lock panicked, else a copy of the
/// guarded snapshot, which other threads may change at any time.
#[verifier::external_body]
fn lock_and_copy(m: &std::sync::Mutex<AppData>) -> (r: Option<AppData>) {
    m.lock().ok().map(|guard| guard.clone())
}

/// The message of a failed lock acquisition.
pub fn lock_error(name: &str) -> (r: String)
    ensures
        r@ == "failed to lock "@ + name@ + " state"@,
{
    let head = concat("failed to lock ", name);
    concat(head.as_str(), " state")
}

/// The shared state: the snapshot and the notified set, each behind its own lock so that
/// the scheduler and the commands never wait on each other for long.
pub struct AppState {
    pub data: std::sync::Mutex<AppData>,
    pub notified_todos: std::sync::Mutex<NotifiedSet>,
}

impl AppState {
    pub fn new(data: AppData) -> (r: Self) {
        AppState {
            data: std::sync::Mutex::new(data),
            notified_todos: std::sync::Mutex::new(NotifiedSet::new()),
        }
    }

    /// A copy of the current snapshot, or the lock error when the lock is poisoned.
    pub fn snapshot(&self) -> (r: Result<AppData, String>)
        ensures
            r is Err ==> r->Err_0@ == "failed to lock "@ + "todo"@ + " state"@,
    {
        match lock_and_copy(&self.data) {
            Some(data) => Ok(data),
            None => Err(lock_error("todo")),
        }
    }
}

/// The snapshot a load produces from what was read: a stored snapshot, repaired as of the
/// time `now`, or the defaults when the file was missing or could not be parsed.
pub fn loaded_data(parsed: Option<AppData>, now: i64) -> (r: AppData)
    ensures
        match parsed {
            Some(d) => r@ == normalize_spec(d@, now),
            None => r@ == default_data_spec(),
        },
{
    match parsed {
        Some(d) => normalize_data_at(d, now),
        None => AppData::default(),
    }
}

} // verus!
