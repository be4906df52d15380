//! Connection outcomes and the batch size that the process can afford.
use vstd::prelude::*;

verus! {

/// How one connection attempt ended.
#[derive(Clone, Copy, Debug, PartialEq, Eq, Structural)]
pub enum ConnectOutcome {
    /// The connection was made within the timeout.
    Connected,
    /// The timeout passed first.
    TimedOut,
    /// The system refused or reset the connection, or could not even try.
    Refused,
}

/// Descriptors kept free for everything that is not a scan socket.
pub const DESCRIPTOR_MARGIN: u64 = 100;

/// The batch size under a limit on open descriptors: the limit less the
/// margin where the value lies above that, else the value. A limit below the
/// margin leaves nothing to clamp to, and no limit means no clamp.
pub open spec fn clamped_batch_size(value: usize, limit: Option<u64>) -> usize {
    match limit {
        Some(limit) => if limit >= DESCRIPTOR_MARGIN && limit - DESCRIPTOR_MARGIN < value {
            (limit - DESCRIPTOR_MARGIN) as usize
        } else {
            value
        },
        None => value,
    }
}

/// The concurrency asked for, capped at the number of jobs.
pub open spec fn capped_batch_size(count: nat, concurrency: usize) -> usize {
    if count < concurrency {
        count as usize
    } else {
        concurrency
    }
}

/// Whether a port is opening: only a connection that was made counts. A
/// timeout and a refusal are both simply not open.
pub fn is_port_open(outcome: ConnectOutcome) -> (open: bool)
    ensures
        open == (outcome == ConnectOutcome::Connected),
{
    match outcome {
        ConnectOutcome::Connected => true,
        ConnectOutcome::TimedOut => false,
        ConnectOutcome::Refused => false,
    }
}

/// How many attempts to keep going at once: the concurrency asked for, but
/// never more than there are jobs.
pub fn batch_size(count: u128, concurrency: usize) -> (size: usize)
    ensures
        size == capped_batch_size(count as nat, concurrency),
{
    if count < concurrency as u128 {
        count as usize
    } else {
        concurrency
    }
}

/// Clamps a batch size to what a limit on open descriptors leaves.
pub fn clamp_batch_size(value: usize, limit: Option<u64>) -> (size: usize)
    ensures
        size == clamped_batch_size(value, limit),
{
    match limit {
        Some(limit) => {
            if limit >= DESCRIPTOR_MARGIN && limit - DESCRIPTOR_MARGIN < value as u64 {
                (limit - DESCRIPTOR_MARGIN) as usize
            } else {
                value
            }
        },
        None => value,
    }
}

/// Clamps a batch size to what the process's own limit on open descriptors
/// leaves. The limit is whatever the system reports at the time of the call,
/// so all that is known of the result is that some limit, or none, gives it.
pub fn adjust_batch_size(value: usize) -> (size: usize)
    ensures
        exists|limit: Option<u64>| size == clamped_batch_size(value, limit),
        size <= value,
{
    let limit = open_file_limit();
    clamp_batch_size(value, limit)
}

/// Asks `rlimit::Resource::NOFILE.get()` for the soft limit on open
/// descriptors; `None` where the system gives no answer. Nothing is claimed of
/// the number: it is the system's to choose.
#[verifier::external_body]
fn open_file_limit() -> (limit: Option<u64>) {
    match rlimit::Resource::NOFILE.get() {
        Ok((soft, _)) => Some(soft),
        Err(_) => None,
    }
}

} // verus!
