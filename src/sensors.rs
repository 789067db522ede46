//! Verdicts drawn from raw probe outcomes.

use vstd::prelude::*;
use crate::text::{contains_str, contains_text};

verus! {

/// Ping attempts made per check.
pub const PING_ATTEMPTS: u64 = 10;

/// A device counts as up when at least 70% of its ping attempts succeed.
pub open spec fn ping_up(successes: nat, attempts: nat) -> bool {
    attempts > 0 && 10 * successes >= 7 * attempts
}

pub fn ping_verdict(successes: u64, attempts: u64) -> (up: bool)
    ensures
        up == ping_up(successes as nat, attempts as nat),
{
    attempts > 0 && (successes as u128) * 10 >= (attempts as u128) * 7
}

/// One ping attempt succeeded: the command exited successfully and did not
/// report total packet loss.
pub open spec fn attempt_succeeded(exited_ok: bool, output: Seq<char>) -> bool {
    exited_ok && !contains_text(output, "100.0% packet loss"@)
}

pub fn ping_attempt_succeeded(exited_ok: bool, output: &str) -> (r: bool)
    ensures
        r == attempt_succeeded(exited_ok, output@),
{
    exited_ok && !contains_str(output, "100.0% packet loss")
}

/// One ping attempt succeeded where the ping command reports replies as
/// `bytes=`: the command exited successfully and printed a reply.
pub open spec fn reply_seen(exited_ok: bool, output: Seq<char>) -> bool {
    exited_ok && contains_text(output, "bytes="@)
}

pub fn ping_reply_seen(exited_ok: bool, output: &str) -> (r: bool)
    ensures
        r == reply_seen(exited_ok, output@),
{
    exited_ok && contains_str(output, "bytes=")
}

} // verus!
