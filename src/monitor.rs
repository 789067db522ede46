//! One poll cycle, as decisions between the probes: what the tracker is
//! told, what a device shows afterwards, whether an HTTP probe is due, and
//! what the cycle writes to the journal and reports for alerting.

use vstd::prelude::*;
use vstd::string::*;
use crate::email::{DeviceStatus, EmailService, LogData, is_ok, records_failure, records_status, status_from_log};
use crate::journal::{
    LogJournal, Timestamp, bandwidth_label, continues_day, date_string, date_text, day_header, http_label, log_line,
    ping_label, time_string, time_text,
};
use crate::models::Device;
use crate::tracker::{Reading, StatusTracker, Transition, next_state, transition};

verus! {

pub open spec fn reading_of(up: bool) -> Reading {
    if up {
        Reading::Up
    } else {
        Reading::Down
    }
}

/// Feeds the ping outcome of `device` to the tracker and shows the reported
/// ping status on the device.
pub fn after_ping(tracker: &mut StatusTracker, device: &mut Device, up: bool, now: u64) -> (t: Transition)
    requires
        old(tracker).wf(),
    ensures
        final(tracker).wf(),
        final(tracker).threshold() == old(tracker).threshold(),
        final(tracker).states() == old(tracker).states().insert(
            old(device).name@,
            next_state(
                old(tracker).prior(old(device).name@, now),
                reading_of(up),
                Reading::NotApplicable,
                old(tracker).threshold(),
                now,
            ),
        ),
        t == transition(
            old(tracker).prior(old(device).name@, now),
            reading_of(up),
            Reading::NotApplicable,
            old(tracker).threshold(),
        ),
        *final(device) == (Device { ping_status: final(tracker).states()[old(device).name@].ping, ..*old(device) }),
{
    let reading = if up {
        Reading::Up
    } else {
        Reading::Down
    };
    let t = tracker.observe(device.name.as_str(), reading, Reading::NotApplicable, now);
    let st = tracker.state_of(device.name.as_str());
    match st {
        Some(s) => {
            device.ping_status = s.ping;
        },
        None => {},
    }
    t
}

/// An HTTP probe is due when the device is reported up and has an HTTP
/// sensor and a URL to probe.
pub open spec fn http_due(d: Device) -> bool {
    d.ping_status == Some(true) && d.watches_http() && d.http_path is Some
}

pub fn http_probe_due(device: &Device) -> (r: bool)
    ensures
        r == http_due(*device),
{
    device.ping_status == Some(true) && device.has_http_sensor() && device.http_path.is_some()
}

/// The device once the HTTP outcome of the cycle is known: `http` is the
/// probe's result when one was made. A device not reported up loses its HTTP
/// status and bandwidth; a probe that passed brings the bandwidth sample.
pub open spec fn after_http_spec(d: Device, http: Option<bool>, bandwidth: Option<u64>) -> Device {
    if http_due(d) {
        match http {
            Some(true) => Device { http_status: Some(true), bandwidth_usage: bandwidth, ..d },
            Some(false) => Device { http_status: Some(false), bandwidth_usage: None, ..d },
            None => d,
        }
    } else if d.ping_status != Some(true) && d.watches_http() {
        Device { http_status: Some(false), bandwidth_usage: None, ..d }
    } else {
        d
    }
}

/// Whether the HTTP step changed anything worth logging.
pub open spec fn http_step_logged(d: Device, http: Option<bool>) -> bool {
    if http_due(d) {
        http is Some
    } else {
        d.ping_status != Some(true) && d.watches_http()
    }
}

pub fn after_http(device: &mut Device, http: Option<bool>, bandwidth: Option<u64>) -> (logged: bool)
    ensures
        *final(device) == after_http_spec(*old(device), http, bandwidth),
        logged == http_step_logged(*old(device), http),
{
    if http_probe_due(device) {
        match http {
            Some(true) => {
                device.http_status = Some(true);
                device.bandwidth_usage = bandwidth;
                true
            },
            Some(false) => {
                device.http_status = Some(false);
                device.bandwidth_usage = None;
                true
            },
            None => false,
        }
    } else if device.ping_status != Some(true) && device.has_http_sensor() {
        device.http_status = Some(false);
        device.bandwidth_usage = None;
        true
    } else {
        false
    }
}

/// A device's step changed something worth a journal entry: its reported
/// status moved, or its HTTP step changed the device.
pub open spec fn step_logged(t: Transition, http_logged: bool) -> bool {
    t != Transition::Unchanged || http_logged
}

/// Whether the cycle is to be settled: some device's step was logged.
pub fn worth_logging(t: Transition, http_logged: bool) -> (r: bool)
    ensures
        r == step_logged(t, http_logged),
{
    t != Transition::Unchanged || http_logged
}

/// The reported ping status of `d` according to `tracker`.
pub open spec fn reported_ping(tracker: StatusTracker, d: Device) -> Option<bool> {
    if tracker.states().contains_key(d.name@) {
        tracker.states()[d.name@].ping
    } else {
        None
    }
}

/// A device is failing when its ping or its HTTP status reads FAIL.
pub open spec fn failing(tracker: StatusTracker, d: Device) -> bool {
    ping_label(reported_ping(tracker, d)) == "FAIL"@ || http_label(d) == "FAIL"@
}

/// The journal lines of a cycle, one per device in order.
pub open spec fn cycle_lines(devices: Seq<Device>, tracker: StatusTracker, at: Timestamp) -> Seq<char>
    decreases devices.len(),
{
    if devices.len() == 0 {
        Seq::empty()
    } else {
        let d = devices.last();
        cycle_lines(devices.drop_last(), tracker, at) + log_line(
            at,
            d.name@,
            d.ip@,
            ping_label(reported_ping(tracker, d)),
            http_label(d),
            bandwidth_label(d),
        ) + "\n"@
    }
}

/// `after` is `before` once the cycle's line for `d` was reported.
pub open spec fn reports_device(
    before: EmailService,
    after: EmailService,
    tracker: StatusTracker,
    d: Device,
    at: Timestamp,
    now: u64,
) -> bool {
    exists|s: DeviceStatus, mid: EmailService, log: LogData|
        {
            &&& log.date@ == date_text(at)
            &&& log.time@ == time_text(at)
            &&& log.ping_status@ == ping_label(reported_ping(tracker, d))
            &&& log.http_status@ == http_label(d)
            &&& log.bandwidth@ == bandwidth_label(d)
            &&& status_from_log(d.name@, if failing(tracker, d) { "FAIL"@ } else { "OK"@ }, log, now, s)
            &&& records_status(before, mid, s)
            &&& if failing(tracker, d) {
                records_failure(mid, after, s)
            } else {
                after == mid
            }
        }
}

fn status_text(failing: bool) -> (r: &'static str)
    ensures
        r@ == (if failing { "FAIL"@ } else { "OK"@ }),
{
    if failing {
        "FAIL"
    } else {
        "OK"
    }
}

/// The journal text and the alert record for one device.
fn settle_device(
    journal: &mut LogJournal,
    email: &mut EmailService,
    tracker: &StatusTracker,
    d: &Device,
    at: &Timestamp,
    now: u64,
) -> (piece: String)
    requires
        tracker.wf(),
        old(email).wf(),
        at.wf(),
    ensures
        final(email).wf(),
        final(journal).last_logged() == Some(*at),
        piece@ == (if continues_day(old(journal).last_logged(), *at) {
            Seq::<char>::empty()
        } else {
            day_header(*at) + "\n"@
        }) + log_line(
            *at,
            d.name@,
            d.ip@,
            ping_label(reported_ping(*tracker, *d)),
            http_label(*d),
            bandwidth_label(*d),
        ) + "\n"@,
        reports_device(*old(email), *final(email), *tracker, *d, *at, now),
{
    let ping = match tracker.state_of(d.name.as_str()) {
        Some(s) => s.ping,
        None => None,
    };
    let piece = journal.append(d, ping, at);
    let log_data = LogData {
        date: date_string(at),
        time: time_string(at),
        ping_status: String::from_str(crate::journal::ping_label_str(ping)),
        http_status: String::from_str(crate::journal::http_label_str(d)),
        bandwidth: crate::journal::bandwidth_string(d),
    };
    let fails = crate::text::same_text(log_data.ping_status.as_str(), "FAIL")
        || crate::text::same_text(log_data.http_status.as_str(), "FAIL");
    let ghost before = *email;
    proof {
        reveal_strlit("FAIL");
        assert(fails == failing(*tracker, *d));
    }
    email.add_notification(d.name.as_str(), status_text(fails), &log_data, now);
    proof {
        let status = if fails {
            "FAIL"@
        } else {
            "OK"@
        };
        let (st, mid) = choose|st: DeviceStatus, mid: EmailService|
            status_from_log(d.name@, status, log_data, now, st) && records_status(before, mid, st)
                && if is_ok(status) {
                *email == mid
            } else {
                records_failure(mid, *email, st)
            };
        reveal_strlit("OK");
        assert(is_ok(status) == !fails);
        assert(reports_device(before, *email, *tracker, *d, *at, now)) by {
            assert(log_data.date@ == date_text(*at));
            assert(status_from_log(d.name@, status, log_data, now, st));
        }
    }
    piece
}

/// Settles a cycle at `at` (`now` in seconds): every device gets a journal
/// line and a status record, a failing one also a pending alert. Returns the
/// text to append to the journal and whether a report is due.
pub fn settle_cycle(
    journal: &mut LogJournal,
    email: &mut EmailService,
    tracker: &StatusTracker,
    devices: &Vec<Device>,
    at: &Timestamp,
    now: u64,
) -> (r: (String, bool))
    requires
        tracker.wf(),
        old(email).wf(),
        at.wf(),
    ensures
        final(email).wf(),
        devices@.len() > 0 ==> final(journal).last_logged() == Some(*at),
        devices@.len() == 0 ==> final(journal).last_logged() == old(journal).last_logged(),
        r.0@ == (if devices@.len() > 0 && !continues_day(old(journal).last_logged(), *at) {
            day_header(*at) + "\n"@
        } else {
            Seq::<char>::empty()
        }) + cycle_lines(devices@, *tracker, *at),
        exists|states: Seq<EmailService>|
            {
                &&& states.len() == devices@.len() + 1
                &&& states[0] == *old(email)
                &&& states.last() == *final(email)
                &&& forall|i: int|
                    0 <= i < devices@.len() ==> reports_device(
                        #[trigger] states[i],
                        states[i + 1],
                        *tracker,
                        devices@[i],
                        *at,
                        now,
                    )
            },
        r.1 == final(email).flush_due(now),
{
    let ghost start_journal = journal.last_logged();
    let ghost header = if !continues_day(start_journal, *at) {
        day_header(*at) + "\n"@
    } else {
        Seq::<char>::empty()
    };
    let ghost mut states: Seq<EmailService> = seq![*email];
    let mut text = String::new();
    let mut i: usize = 0;
    while i < devices.len()
        invariant
            tracker.wf(),
            email.wf(),
            at.wf(),
            i <= devices@.len(),
            i > 0 ==> journal.last_logged() == Some(*at),
            i == 0 ==> journal.last_logged() == start_journal,
            header == (if !continues_day(start_journal, *at) {
                day_header(*at) + "\n"@
            } else {
                Seq::<char>::empty()
            }),
            text@ == (if i > 0 {
                header
            } else {
                Seq::<char>::empty()
            }) + cycle_lines(devices@.subrange(0, i as int), *tracker, *at),
            states.len() == i + 1,
            states[0] == *old(email),
            states.last() == *email,
            forall|j: int|
                0 <= j < i ==> reports_device(
                    #[trigger] states[j],
                    states[j + 1],
                    *tracker,
                    devices@[j],
                    *at,
                    now,
                ),
        decreases devices@.len() - i,
    {
        let ghost before_text = text@;
        let ghost before = *email;
        let ghost last = journal.last_logged();
        let piece = settle_device(journal, email, tracker, &devices[i], at, now);
        text.append(piece.as_str());
        proof {
            let d = devices@[i as int];
            let prefix = devices@.subrange(0, i as int);
            assert(devices@.subrange(0, i + 1).drop_last() =~= prefix);
            assert(devices@.subrange(0, i + 1).last() == d);
            let line = log_line(
                *at,
                d.name@,
                d.ip@,
                ping_label(reported_ping(*tracker, d)),
                http_label(d),
                bandwidth_label(d),
            ) + "\n"@;
            assert(cycle_lines(devices@.subrange(0, i + 1), *tracker, *at) == cycle_lines(prefix, *tracker, *at) + line);
            if i > 0 {
                assert(text@ =~= header + cycle_lines(devices@.subrange(0, i + 1), *tracker, *at));
            } else {
                assert(cycle_lines(prefix, *tracker, *at) =~= Seq::<char>::empty());
                assert(before_text =~= Seq::<char>::empty());
                assert(last == start_journal);
                assert(piece@ =~= header + line);
                assert(text@ =~= header + cycle_lines(devices@.subrange(0, i + 1), *tracker, *at));
            }
            states = states.push(*email);
            assert forall|j: int| 0 <= j < i + 1 implies reports_device(
                #[trigger] states[j],
                states[j + 1],
                *tracker,
                devices@[j],
                *at,
                now,
            ) by {
                if j == i {
                    assert(states[j] == before);
                }
            }
        }
        i += 1;
    }
    proof {
        assert(devices@.subrange(0, i as int) =~= devices@);
    }
    let due = email.should_flush(now);
    (text, due)
}

/// A cycle never reads the state of a device that is not in the registry:
/// two trackers that differ only on such a device give the same journal
/// lines. So after a reload drops a device, its stale state is harmless.
pub proof fn lemma_stale_state_unused(
    t1: StatusTracker,
    t2: StatusTracker,
    devices: Seq<Device>,
    at: Timestamp,
    gone: Seq<char>,
)
    requires
        forall|i: int| 0 <= i < devices.len() ==> (#[trigger] devices[i]).name@ != gone,
        t1.states().remove(gone) == t2.states().remove(gone),
    ensures
        cycle_lines(devices, t1, at) == cycle_lines(devices, t2, at),
    decreases devices.len(),
{
    if devices.len() > 0 {
        let d = devices.last();
        assert(devices[devices.len() - 1] == d);
        assert(t1.states().remove(gone).contains_key(d.name@) == t1.states().contains_key(d.name@));
        assert(t2.states().remove(gone).contains_key(d.name@) == t2.states().contains_key(d.name@));
        if t1.states().contains_key(d.name@) {
            assert(t1.states().remove(gone)[d.name@] == t1.states()[d.name@]);
            assert(t2.states().remove(gone)[d.name@] == t2.states()[d.name@]);
        }
        assert(reported_ping(t1, d) == reported_ping(t2, d));
        let rest = devices.drop_last();
        assert forall|i: int| 0 <= i < rest.len() implies (#[trigger] rest[i]).name@ != gone by {
            assert(rest[i] == devices[i]);
        }
        lemma_stale_state_unused(t1, t2, rest, at, gone);
    }
}

} // verus!
