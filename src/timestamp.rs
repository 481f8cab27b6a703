use vstd::prelude::*;

verus! {

/// A file system timestamp: whole seconds relative to the Unix epoch (negative
/// before it) and the nanoseconds past that second.
#[derive(Clone, Copy, Debug, PartialEq, Eq, Structural, Hash)]
pub struct Timestamp {
    pub secs: i64,
    pub nanos: u32,
}

impl Timestamp {
    pub open spec fn wf(&self) -> bool {
        self.nanos < 1_000_000_000
    }

    pub fn new(secs: i64, nanos: u32) -> (r: Timestamp)
        requires
            nanos < 1_000_000_000,
        ensures
            r.secs == secs,
            r.nanos == nanos,
            r.wf(),
    {
        Timestamp { secs, nanos }
    }

    /// The time now, as the system clock gives it; the epoch itself where the
    /// clock stands before the epoch.
    pub fn now() -> (r: Timestamp)
        ensures
            r.wf(),
            r.secs >= 0,
    {
        match system_time_since_epoch() {
            Some((secs, nanos)) => {
                if secs <= i64::MAX as u64 {
                    Timestamp { secs: secs as i64, nanos }
                } else {
                    Timestamp { secs: i64::MAX, nanos: 0 }
                }
            },
            None => Timestamp { secs: 0, nanos: 0 },
        }
    }
}

/// Relies on `SystemTime::now` and `SystemTime::duration_since(UNIX_EPOCH)`:
/// whole seconds and the nanoseconds below one second (`Duration::subsec_nanos`
/// is always under one billion); `None` where the clock stands before the epoch.
#[verifier::external_body]
fn system_time_since_epoch() -> (r: Option<(u64, u32)>)
    ensures
        r matches Some(t) ==> t.1 < 1_000_000_000,
{
    match std::time::SystemTime::now().duration_since(std::time::UNIX_EPOCH) {
        Ok(d) => Some((d.as_secs(), d.subsec_nanos())),
        Err(_) => None,
    }
}

} // verus!
