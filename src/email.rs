//! Failure alerts: the mail configuration, the failures waiting to be
//! reported, the recent status history of every device, and the decisions
//! of when to send a report and what it holds.

use vstd::prelude::*;
use vstd::string::*;
use crate::keyed::Keyed;
use crate::text::{contains_str, contains_text, decimal, push_decimal, replace_all, replaced, same_text};

verus! {

/// Seconds between two status reports.
pub const NOTIFICATION_INTERVAL_SECS: u64 = 1800;

/// Seconds of status history kept per device.
pub const HISTORY_SECS: u64 = 1800;

/// How the mail server is reached and what an alert says.
pub struct EmailConfig {
    pub smtp_server: String,
    pub smtp_port: u16,
    pub sender_email: String,
    pub sender_password: String,
    pub recipients: Vec<String>,
    pub email_subject: String,
    pub email_body: String,
}

impl Default for EmailConfig {
    fn default() -> (c: Self)
        ensures
            c.smtp_server@ == "smtp.gmail.com"@,
            c.smtp_port == 587,
            c.sender_email@.len() == 0,
            c.sender_password@.len() == 0,
            c.recipients@.len() == 0,
            c.email_subject@ == "Failed Log Alert - {device_name}"@,
            c.email_body@
                == "Device {device_name} failed at {date} {time}\nPing Status: {ping_status}\nHTTP Status: {http_status}\nBandwidth: {bandwidth}"@,
    {
        EmailConfig {
            smtp_server: String::from_str("smtp.gmail.com"),
            smtp_port: 587,
            sender_email: String::new(),
            sender_password: String::new(),
            recipients: Vec::new(),
            email_subject: String::from_str("Failed Log Alert - {device_name}"),
            email_body: String::from_str(
                "Device {device_name} failed at {date} {time}\nPing Status: {ping_status}\nHTTP Status: {http_status}\nBandwidth: {bandwidth}",
            ),
        }
    }
}

/// Why a mail configuration or a mail was refused.
#[derive(Clone, Copy, Debug, PartialEq, Eq, Structural)]
pub enum ConfigError {
    /// No SMTP server, or port 0.
    MissingServer,
    /// No sender address or no password.
    MissingSender,
    /// No recipient.
    NoRecipients,
    /// No address to send a test mail to.
    MissingTestAddress,
}

impl ConfigError {
    pub fn message(&self) -> (r: &'static str)
        ensures
            r@ == match self {
                ConfigError::MissingServer => "SMTP server and port are required"@,
                ConfigError::MissingSender => "Sender email and password are required"@,
                ConfigError::NoRecipients => "At least one recipient is required"@,
                ConfigError::MissingTestAddress => "Test email address is required"@,
            },
    {
        match self {
            ConfigError::MissingServer => "SMTP server and port are required",
            ConfigError::MissingSender => "Sender email and password are required",
            ConfigError::NoRecipients => "At least one recipient is required",
            ConfigError::MissingTestAddress => "Test email address is required",
        }
    }
}

/// The verdict on a new configuration, checks taken in order.
pub open spec fn config_check(c: EmailConfig) -> Result<(), ConfigError> {
    if c.smtp_server@.len() == 0 || c.smtp_port == 0 {
        Err(ConfigError::MissingServer)
    } else if c.sender_email@.len() == 0 || c.sender_password@.len() == 0 {
        Err(ConfigError::MissingSender)
    } else if c.recipients@.len() == 0 {
        Err(ConfigError::NoRecipients)
    } else {
        Ok(())
    }
}

pub fn validate_config(c: &EmailConfig) -> (r: Result<(), ConfigError>)
    ensures
        r == config_check(*c),
{
    if c.smtp_server.as_str().is_empty() || c.smtp_port == 0 {
        Err(ConfigError::MissingServer)
    } else if c.sender_email.as_str().is_empty() || c.sender_password.as_str().is_empty() {
        Err(ConfigError::MissingSender)
    } else if c.recipients.len() == 0 {
        Err(ConfigError::NoRecipients)
    } else {
        Ok(())
    }
}

/// What a log entry said of a device, as text for a mail.
pub struct LogData {
    pub date: String,
    pub time: String,
    pub ping_status: String,
    pub http_status: String,
    pub bandwidth: String,
}

/// One status record of a device.
pub struct DeviceStatus {
    pub name: String,
    /// "OK" when the device is healthy.
    pub status: String,
    /// Date and time as written in the log.
    pub timestamp: String,
    pub ping_status: String,
    pub http_status: String,
    pub bandwidth: String,
    pub failure_count: u32,
    pub last_failure: Option<String>,
    /// When the record was taken, in seconds.
    pub checked_at: u64,
}

pub open spec fn is_ok(status: Seq<char>) -> bool {
    status == "OK"@
}

/// The record of `name` made from a log entry at `now`.
pub open spec fn status_from_log(name: Seq<char>, status: Seq<char>, log: LogData, now: u64, s: DeviceStatus) -> bool {
    &&& s.name@ == name
    &&& s.status@ == status
    &&& s.timestamp@ == log.date@ + " "@ + log.time@
    &&& s.ping_status@ == log.ping_status@
    &&& s.http_status@ == log.http_status@
    &&& s.bandwidth@ == log.bandwidth@
    &&& s.failure_count == 0
    &&& s.last_failure is None
    &&& s.checked_at == now
}

/// A record is kept while it is no older than the history span at `now`.
pub open spec fn recent(s: DeviceStatus, now: u64) -> bool {
    s.checked_at + HISTORY_SECS >= now
}

/// A history with the records too old at `now` dropped.
pub open spec fn pruned(h: Seq<DeviceStatus>, now: u64) -> Seq<DeviceStatus> {
    h.filter(|s: DeviceStatus| recent(s, now))
}

/// Grade of a health percentage, or of one status in a report.
#[derive(Clone, Copy, Debug, PartialEq, Eq, Structural)]
pub enum HealthClass {
    Good,
    Warning,
    Critical,
}

impl HealthClass {
    pub fn label(&self) -> (r: &'static str)
        ensures
            r@ == match self {
                HealthClass::Good => "good"@,
                HealthClass::Warning => "warning"@,
                HealthClass::Critical => "critical"@,
            },
    {
        match self {
            HealthClass::Good => "good",
            HealthClass::Warning => "warning",
            HealthClass::Critical => "critical",
        }
    }
}

/// `ok` out of `total`, in percent rounded to the nearest integer (halves up);
/// 0 when nothing is tracked.
pub open spec fn health_percentage(ok: nat, total: nat) -> nat {
    if total == 0 {
        0
    } else {
        (200 * ok + total) / (2 * total)
    }
}

pub open spec fn health_class(percentage: nat) -> HealthClass {
    if percentage >= 95 {
        HealthClass::Good
    } else if percentage >= 80 {
        HealthClass::Warning
    } else {
        HealthClass::Critical
    }
}

pub fn percentage_of(ok: usize, total: usize) -> (r: u64)
    requires
        ok <= total,
    ensures
        r == health_percentage(ok as nat, total as nat),
{
    if total == 0 {
        0
    } else {
        let ok = ok as u128;
        let total = total as u128;
        assert(200 * ok + total <= 201 * total) by (nonlinear_arith)
            requires
                ok <= total,
        ;
        let r = (200 * ok + total) / (2 * total);
        assert(r <= 100) by (nonlinear_arith)
            requires
                r == (200 * ok + total) / (2 * total),
                ok <= total,
                total > 0,
        {
            assert(200 * ok + total < 202 * total);
            assert(2 * total * 101 == 202 * total);
            vstd::arithmetic::div_mod::lemma_div_by_multiple_is_strongly_ordered(
                (200 * ok + total) as int,
                202 * total as int,
                101,
                2 * total as int,
            );
        }
        r as u64
    }
}

pub fn class_of(percentage: u64) -> (r: HealthClass)
    ensures
        r == health_class(percentage as nat),
{
    if percentage >= 95 {
        HealthClass::Good
    } else if percentage >= 80 {
        HealthClass::Warning
    } else {
        HealthClass::Critical
    }
}

fn prune(h: Vec<DeviceStatus>, now: u64) -> (r: Vec<DeviceStatus>)
    ensures
        r@ == pruned(h@, now),
{
    let ghost all = h@;
    let mut rest = h;
    let mut kept: Vec<DeviceStatus> = Vec::new();
    while rest.len() > 0
        invariant
            rest@.len() <= all.len(),
            rest@ == all.subrange(all.len() - rest@.len(), all.len() as int),
            kept@ == pruned(all.subrange(0, all.len() - rest@.len()), now),
        decreases rest@.len(),
    {
        let ghost done = all.subrange(0, all.len() - rest@.len());
        let s = rest.remove(0);
        assert(all.subrange(0, all.len() - rest@.len()) =~= done.push(s));
        proof {
            done.lemma_filter_push(s, |s: DeviceStatus| recent(s, now));
        }
        if s.checked_at >= now || now - s.checked_at <= HISTORY_SECS {
            kept.push(s);
        }
        assert(rest@ =~= all.subrange(all.len() - rest@.len(), all.len() as int));
    }
    assert(all.subrange(0, all.len() as int) =~= all);
    kept
}

/// One line of a status report.
pub struct StatusRow {
    pub name: String,
    pub status: String,
    pub timestamp: String,
    pub ping_status: String,
    pub http_status: String,
    pub bandwidth: String,
    pub status_class: HealthClass,
    pub ping_class: HealthClass,
    pub http_class: HealthClass,
    pub details: String,
}

pub open spec fn status_class(status: Seq<char>) -> HealthClass {
    if is_ok(status) {
        HealthClass::Good
    } else {
        HealthClass::Critical
    }
}

pub open spec fn ping_class(ping: Seq<char>) -> HealthClass {
    if contains_text(ping, "OK"@) {
        HealthClass::Good
    } else if contains_text(ping, "Warning"@) {
        HealthClass::Warning
    } else {
        HealthClass::Critical
    }
}

pub open spec fn http_class(http: Seq<char>) -> HealthClass {
    if contains_text(http, "200"@) {
        HealthClass::Good
    } else if contains_text(http, "3"@) {
        HealthClass::Warning
    } else {
        HealthClass::Critical
    }
}

/// `r` reports the record `s` with the given details.
pub open spec fn reports(r: StatusRow, s: DeviceStatus, details: Seq<char>) -> bool {
    &&& r.name@ == s.name@
    &&& r.status@ == s.status@
    &&& r.timestamp@ == s.timestamp@
    &&& r.ping_status@ == s.ping_status@
    &&& r.http_status@ == s.http_status@
    &&& r.bandwidth@ == s.bandwidth@
    &&& r.status_class == status_class(s.status@)
    &&& r.ping_class == ping_class(s.ping_status@)
    &&& r.http_class == http_class(s.http_status@)
    &&& r.details@ == details
}

/// Details of a device's latest record in the history part of a report.
pub open spec fn history_details(s: DeviceStatus) -> Seq<char> {
    if is_ok(s.status@) {
        "All systems operational"@
    } else {
        "Last failure: "@ + match s.last_failure {
            Some(f) => f@,
            None => "Unknown"@,
        }
    }
}

/// Details of a pending failure in a report.
pub open spec fn pending_details(s: DeviceStatus) -> Seq<char> {
    if is_ok(s.status@) {
        "All systems operational"@
    } else {
        "Failure count: "@ + decimal(s.failure_count as nat)
    }
}

fn row_for(s: &DeviceStatus, details: String) -> (r: StatusRow)
    ensures
        reports(r, *s, details@),
{
    let ok = same_text(s.status.as_str(), "OK");
    let ping_class = if contains_str(s.ping_status.as_str(), "OK") {
        HealthClass::Good
    } else if contains_str(s.ping_status.as_str(), "Warning") {
        HealthClass::Warning
    } else {
        HealthClass::Critical
    };
    let http_class = if contains_str(s.http_status.as_str(), "200") {
        HealthClass::Good
    } else if contains_str(s.http_status.as_str(), "3") {
        HealthClass::Warning
    } else {
        HealthClass::Critical
    };
    StatusRow {
        name: s.name.clone(),
        status: s.status.clone(),
        timestamp: s.timestamp.clone(),
        ping_status: s.ping_status.clone(),
        http_status: s.http_status.clone(),
        bandwidth: s.bandwidth.clone(),
        status_class: if ok {
            HealthClass::Good
        } else {
            HealthClass::Critical
        },
        ping_class,
        http_class,
        details,
    }
}

fn history_details_of(s: &DeviceStatus) -> (r: String)
    ensures
        r@ == history_details(*s),
{
    if same_text(s.status.as_str(), "OK") {
        String::from_str("All systems operational")
    } else {
        let mut r = String::from_str("Last failure: ");
        match &s.last_failure {
            Some(f) => r.append(f.as_str()),
            None => r.append("Unknown"),
        }
        r
    }
}

fn pending_details_of(s: &DeviceStatus) -> (r: String)
    ensures
        r@ == pending_details(*s),
{
    if same_text(s.status.as_str(), "OK") {
        String::from_str("All systems operational")
    } else {
        let mut r = String::from_str("Failure count: ");
        push_decimal(&mut r, s.failure_count as u64);
        r
    }
}

/// A status report: overall health, then the latest record of every device
/// with history, then every pending failure.
pub struct NotificationBatch {
    pub health_percentage: u64,
    pub health_class: HealthClass,
    pub total_devices: usize,
    pub ok_devices: usize,
    pub failed_devices: usize,
    pub history_rows: Vec<StatusRow>,
    pub rows: Vec<StatusRow>,
    /// The pending failures the report carries, one per row of `rows`.
    pub sent: Vec<DeviceStatus>,
}

/// Devices among `keys` whose latest record in `h` is healthy.
pub open spec fn ok_count(keys: Seq<Seq<char>>, h: Map<Seq<char>, Vec<DeviceStatus>>) -> nat
    decreases keys.len(),
{
    if keys.len() == 0 {
        0
    } else {
        ok_count(keys.drop_last(), h) + if is_ok(h[keys.last()]@.last().status@) {
            1nat
        } else {
            0nat
        }
    }
}

/// Alert state: the configuration, the failures not yet reported (one per
/// device, the latest), the recent history of each device, and when the last
/// report went out.
pub struct EmailService {
    config: EmailConfig,
    pending: Keyed<DeviceStatus>,
    history: Keyed<Vec<DeviceStatus>>,
    last_notification: u64,
    sending: bool,
}

impl EmailService {
    pub closed spec fn config(&self) -> EmailConfig {
        self.config
    }

    /// The latest unreported failure of each device.
    pub closed spec fn pending(&self) -> Map<Seq<char>, DeviceStatus> {
        self.pending.view()
    }

    /// Devices with pending failures, in order of their first failure.
    pub closed spec fn pending_order(&self) -> Seq<Seq<char>> {
        self.pending.keys()
    }

    /// The recent records of each device, oldest first.
    pub closed spec fn history(&self) -> Map<Seq<char>, Vec<DeviceStatus>> {
        self.history.view()
    }

    /// Devices with history, in order of their first record.
    pub closed spec fn history_order(&self) -> Seq<Seq<char>> {
        self.history.keys()
    }

    /// When the last report was sent, in seconds.
    pub closed spec fn last_notification(&self) -> u64 {
        self.last_notification
    }

    /// A report is on its way and not settled yet.
    pub closed spec fn sending(&self) -> bool {
        self.sending
    }

    pub closed spec fn wf(&self) -> bool {
        &&& self.pending.wf()
        &&& self.history.wf()
        &&& forall|k: Seq<char>| #[trigger] self.history.view().contains_key(k) ==> self.history.view()[k]@.len() > 0
    }

    pub fn new(config: EmailConfig, now: u64) -> (e: EmailService)
        ensures
            e.wf(),
            e.config() == config,
            e.pending() == Map::<Seq<char>, DeviceStatus>::empty(),
            e.pending_order() == Seq::<Seq<char>>::empty(),
            e.history() == Map::<Seq<char>, Vec<DeviceStatus>>::empty(),
            e.history_order() == Seq::<Seq<char>>::empty(),
            e.last_notification() == now,
            !e.sending(),
    {
        EmailService {
            config,
            pending: Keyed::new(),
            history: Keyed::new(),
            last_notification: now,
            sending: false,
        }
    }

    pub fn get_config(&self) -> (r: &EmailConfig)
        ensures
            *r == self.config(),
    {
        &self.config
    }

    /// Takes a new configuration if it passes `validate_config`; otherwise
    /// the current one stays.
    pub fn update_config(&mut self, new_config: EmailConfig) -> (r: Result<(), ConfigError>)
        requires
            old(self).wf(),
        ensures
            final(self).wf(),
            r == config_check(new_config),
            r is Ok ==> final(self).config() == new_config,
            r is Err ==> final(self).config() == old(self).config(),
            final(self).pending() == old(self).pending(),
            final(self).pending_order() == old(self).pending_order(),
            final(self).history() == old(self).history(),
            final(self).history_order() == old(self).history_order(),
            final(self).last_notification() == old(self).last_notification(),
            final(self).sending() == old(self).sending(),
    {
        let r = validate_config(&new_config);
        if r.is_ok() {
            self.config = new_config;
        }
        r
    }

    /// Pending failures are there, or devices have history.
    pub open spec fn has_news(&self) -> bool {
        self.pending_order().len() > 0 || self.history_order().len() > 0
    }

    /// A report is due at `now`: none is on its way, the interval since the
    /// last one has passed and there is something to report.
    pub open spec fn flush_due(&self, now: u64) -> bool {
        !self.sending() && now >= self.last_notification() + NOTIFICATION_INTERVAL_SECS
            && self.has_news()
    }

    pub fn should_flush(&self, now: u64) -> (r: bool)
        requires
            self.wf(),
        ensures
            r == self.flush_due(now),
    {
        let elapsed = now >= self.last_notification && now - self.last_notification
            >= NOTIFICATION_INTERVAL_SECS;
        !self.sending && elapsed && (self.pending.len() > 0 || self.history.len() > 0)
    }

    /// Keeps `s` as the pending failure of its device, in place of any earlier one.
    pub fn record_failure(&mut self, s: DeviceStatus)
        requires
            old(self).wf(),
        ensures
            records_failure(*old(self), *final(self), s),
    {
        let name = s.name.clone();
        self.pending.insert(name.as_str(), s);
    }

    /// Adds `s` to the history of its device, dropping the records that are
    /// too old by the time of `s`.
    pub fn record_status(&mut self, s: DeviceStatus)
        requires
            old(self).wf(),
        ensures
            records_status(*old(self), *final(self), s),
    {
        let name = s.name.clone();
        let now = s.checked_at;
        let mut earlier: Vec<DeviceStatus> = Vec::new();
        let found = self.history.swap_value(name.as_str(), &mut earlier);
        let mut kept = prune(earlier, now);
        kept.push(s);
        let ghost mid = self.history.view();
        self.history.insert(name.as_str(), kept);
        proof {
            if found {
                assert(self.history.view() =~= old(self).history.view().insert(name@, kept));
            }
            assert forall|k: Seq<char>| #[trigger] self.history.view().contains_key(k) implies self.history.view()[k]@.len() > 0 by {
                if k != name@ {
                    assert(old(self).history.view().contains_key(k));
                }
            }
        }
    }

    /// Records what a log entry said of `device_name` at `now`: the record
    /// joins the device's history and, unless `status` is "OK", becomes its
    /// pending failure. Says whether a report is now due.
    pub fn add_notification(&mut self, device_name: &str, status: &str, log_data: &LogData, now: u64) -> (due: bool)
        requires
            old(self).wf(),
        ensures
            exists|s: DeviceStatus, mid: EmailService|
                status_from_log(device_name@, status@, *log_data, now, s) && records_status(*old(self), mid, s) && if is_ok(status@) {
                    *final(self) == mid
                } else {
                    records_failure(mid, *final(self), s)
                },
            due == final(self).flush_due(now),
    {
        let mut timestamp = log_data.date.clone();
        timestamp.append(" ");
        timestamp.append(log_data.time.as_str());
        let s = DeviceStatus {
            name: String::from_str(device_name),
            status: String::from_str(status),
            timestamp,
            ping_status: log_data.ping_status.clone(),
            http_status: log_data.http_status.clone(),
            bandwidth: log_data.bandwidth.clone(),
            failure_count: 0,
            last_failure: None,
            checked_at: now,
        };
        proof {
            reveal_strlit(" ");
        }
        let ghost rec = s;
        if same_text(status, "OK") {
            self.record_status(s);
        } else {
            let copy = s.copy();
            self.record_status(copy);
            let ghost mid = *self;
            self.record_failure(s);
            assert(records_status(*old(self), mid, rec));
        }
        self.should_flush(now)
    }

    /// Each device stands once in the order of pending failures and once in
    /// the order of histories, and those orders list exactly the devices of
    /// the maps: a report has one row per device.
    pub proof fn lemma_orders(&self)
        requires
            self.wf(),
        ensures
            self.pending_order().no_duplicates(),
            forall|k: Seq<char>| self.pending().contains_key(k) <==> self.pending_order().contains(k),
            self.history_order().no_duplicates(),
            forall|k: Seq<char>| self.history().contains_key(k) <==> self.history_order().contains(k),
    {
        self.pending.lemma_keys();
        self.history.lemma_keys();
    }

    /// Builds the report of the current state; nothing is cleared.
    pub fn build_batch(&self) -> (b: NotificationBatch)
        requires
            self.wf(),
        ensures
            batch_of(*self, b),
    {
        proof {
            self.history.lemma_keys();
            self.pending.lemma_keys();
        }
        let total = self.history.len();
        let mut ok: usize = 0;
        let mut history_rows: Vec<StatusRow> = Vec::new();
        let mut i: usize = 0;
        while i < total
            invariant
                self.wf(),
                total == self.history_order().len(),
                i <= total,
                ok == ok_count(self.history_order().subrange(0, i as int), self.history()),
                ok <= i,
                history_rows@.len() == i,
                forall|j: int|
                    0 <= j < i ==> {
                        let latest = self.history()[self.history_order()[j]]@.last();
                        reports(#[trigger] history_rows@[j], latest, history_details(latest))
                    },
            decreases total - i,
        {
            let (name, statuses) = self.history.entry_at(i);
            proof {
                self.history.lemma_keys();
                assert(self.history.view().contains_key(self.history_order()[i as int]));
            }
            let latest = &statuses[statuses.len() - 1];
            let ghost before = self.history_order().subrange(0, i as int);
            assert(self.history_order().subrange(0, i + 1).drop_last() =~= before);
            if same_text(latest.status.as_str(), "OK") {
                ok += 1;
            }
            history_rows.push(row_for(latest, history_details_of(latest)));
            i += 1;
        }
        assert(self.history_order().subrange(0, total as int) =~= self.history_order());
        let mut rows: Vec<StatusRow> = Vec::new();
        let mut sent: Vec<DeviceStatus> = Vec::new();
        let mut j: usize = 0;
        while j < self.pending.len()
            invariant
                self.wf(),
                j <= self.pending_order().len(),
                rows@.len() == j,
                sent@.len() == j,
                forall|m: int|
                    0 <= m < j ==> #[trigger] sent@[m] == self.pending()[self.pending_order()[m]],
                forall|m: int|
                    0 <= m < j ==> {
                        let p = self.pending()[self.pending_order()[m]];
                        reports(#[trigger] rows@[m], p, pending_details(p))
                    },
            decreases self.pending_order().len() - j,
        {
            let (name, p) = self.pending.entry_at(j);
            rows.push(row_for(p, pending_details_of(p)));
            sent.push(p.copy());
            j += 1;
        }
        let percentage = percentage_of(ok, total);
        NotificationBatch {
            health_percentage: percentage,
            health_class: class_of(percentage),
            total_devices: total,
            ok_devices: ok,
            failed_devices: total - ok,
            history_rows,
            rows,
            sent,
        }
    }

    /// Builds the report and marks it as on its way: no other report is due
    /// until `finish_flush` settles this one.
    pub fn start_flush(&mut self) -> (b: NotificationBatch)
        requires
            old(self).wf(),
        ensures
            batch_of(*old(self), b),
            final(self).wf(),
            final(self).sending(),
            final(self).config() == old(self).config(),
            final(self).pending() == old(self).pending(),
            final(self).pending_order() == old(self).pending_order(),
            final(self).history() == old(self).history(),
            final(self).history_order() == old(self).history_order(),
            final(self).last_notification() == old(self).last_notification(),
    {
        let b = self.build_batch();
        self.sending = true;
        b
    }

    /// Settles a report attempt made at `now`, `sent` being the failures it
    /// carried. A delivered report drops the pending failures still equal to
    /// one it carried (a failure recorded again meanwhile stays) and restarts
    /// the interval; after a failed one nothing is dropped, so the next report
    /// carries the same failures again.
    pub fn finish_flush(&mut self, delivered: bool, now: u64, sent: &Vec<DeviceStatus>)
        requires
            old(self).wf(),
        ensures
            flush_settled(*old(self), *final(self), delivered, now, sent@),
    {
        let ghost before = *self;
        if delivered {
            proof {
                self.pending.lemma_keys();
            }
            let ghost order = self.pending_order();
            let ghost m = self.pending();
            let ghost pred = |k: Seq<char>| !was_sent(sent@, m[k]);
            let mut kept: Keyed<DeviceStatus> = Keyed::new();
            let n = self.pending.len();
            let mut i: usize = 0;
            while i < n
                invariant
                    *self == before,
                    self.wf(),
                    order == self.pending_order(),
                    m == self.pending(),
                    pred == (|k: Seq<char>| !was_sent(sent@, m[k])),
                    order.no_duplicates(),
                    forall|k: Seq<char>| m.contains_key(k) <==> order.contains(k),
                    n == order.len(),
                    i <= n,
                    kept.wf(),
                    kept.keys() == order.subrange(0, i as int).filter(pred),
                    kept.view() == Map::new(
                        |k: Seq<char>| order.subrange(0, i as int).contains(k) && pred(k),
                        |k: Seq<char>| m[k],
                    ),
                decreases n - i,
            {
                let (name, p) = self.pending.entry_at(i);
                let ghost done = order.subrange(0, i as int);
                assert(order.subrange(0, i + 1) =~= done.push(order[i as int]));
                proof {
                    done.lemma_filter_push(order[i as int], pred);
                    assert(!done.contains(order[i as int])) by {
                        if done.contains(order[i as int]) {
                            let j = choose|j: int| 0 <= j < done.len() && done[j] == order[i as int];
                            assert(order[j] == order[i as int]);
                        }
                    }
                }
                let ghost before_kept = kept.view();
                proof {
                    let next = order.subrange(0, i + 1);
                    assert forall|k: Seq<char>| next.contains(k) <==> (done.contains(k) || k == order[i as int]) by {
                        if next.contains(k) {
                            let j = choose|j: int| 0 <= j < next.len() && next[j] == k;
                            if j < i {
                                assert(done[j] == k);
                            }
                        }
                        if done.contains(k) {
                            let j = choose|j: int| 0 <= j < done.len() && done[j] == k;
                            assert(next[j] == k);
                        }
                        if k == order[i as int] {
                            assert(next[i as int] == k);
                        }
                    }
                    assert(name@ == order[i as int]);
                    assert(*p == m[order[i as int]]);
                }
                if !sent_has(sent, p) {
                    kept.insert(name.as_str(), p.copy());
                    assert(kept.view() =~= Map::new(
                        |k: Seq<char>| order.subrange(0, i + 1).contains(k) && pred(k),
                        |k: Seq<char>| m[k],
                    ));
                } else {
                    assert(kept.view() =~= Map::new(
                        |k: Seq<char>| order.subrange(0, i + 1).contains(k) && pred(k),
                        |k: Seq<char>| m[k],
                    ));
                }
                i += 1;
            }
            assert(order.subrange(0, n as int) =~= order);
            self.pending = kept;
            self.last_notification = now;
            assert(self.pending() =~= unsent(before, sent@));
        }
        self.sending = false;
    }
}

/// Two records say the same, field by field.
pub open spec fn same_record(a: DeviceStatus, b: DeviceStatus) -> bool {
    &&& a.name@ == b.name@
    &&& a.status@ == b.status@
    &&& a.timestamp@ == b.timestamp@
    &&& a.ping_status@ == b.ping_status@
    &&& a.http_status@ == b.http_status@
    &&& a.bandwidth@ == b.bandwidth@
    &&& a.failure_count == b.failure_count
    &&& a.checked_at == b.checked_at
    &&& match (a.last_failure, b.last_failure) {
        (Some(x), Some(y)) => x@ == y@,
        (None, None) => true,
        _ => false,
    }
}

/// A report carried a record saying the same as `s`.
pub open spec fn was_sent(sent: Seq<DeviceStatus>, s: DeviceStatus) -> bool {
    exists|i: int| 0 <= i < sent.len() && same_record(#[trigger] sent[i], s)
}

/// The pending failures of `before` that no record of `sent` matches.
pub open spec fn unsent(before: EmailService, sent: Seq<DeviceStatus>) -> Map<Seq<char>, DeviceStatus> {
    Map::new(
        |k: Seq<char>| before.pending().contains_key(k) && !was_sent(sent, before.pending()[k]),
        |k: Seq<char>| before.pending()[k],
    )
}

fn same_record_of(a: &DeviceStatus, b: &DeviceStatus) -> (r: bool)
    ensures
        r == same_record(*a, *b),
{
    let lf = match (&a.last_failure, &b.last_failure) {
        (Some(x), Some(y)) => *x == *y,
        (None, None) => true,
        _ => false,
    };
    a.name == b.name && a.status == b.status && a.timestamp == b.timestamp && a.ping_status
        == b.ping_status && a.http_status == b.http_status && a.bandwidth == b.bandwidth
        && a.failure_count == b.failure_count && a.checked_at == b.checked_at && lf
}

fn sent_has(sent: &Vec<DeviceStatus>, s: &DeviceStatus) -> (r: bool)
    ensures
        r == was_sent(sent@, *s),
{
    let mut i: usize = 0;
    while i < sent.len()
        invariant
            i <= sent@.len(),
            forall|j: int| 0 <= j < i ==> !same_record(#[trigger] sent@[j], *s),
        decreases sent@.len() - i,
    {
        if same_record_of(&sent[i], s) {
            return true;
        }
        i += 1;
    }
    false
}

/// `b` is the report of `e`: overall health, the latest record of every
/// device with history, and every pending failure with the record it carries.
pub open spec fn batch_of(e: EmailService, b: NotificationBatch) -> bool {
    &&& b.total_devices == e.history_order().len()
    &&& b.ok_devices == ok_count(e.history_order(), e.history())
    &&& b.failed_devices == b.total_devices - b.ok_devices
    &&& b.health_percentage == health_percentage(b.ok_devices as nat, b.total_devices as nat)
    &&& b.health_class == health_class(b.health_percentage as nat)
    &&& b.history_rows@.len() == e.history_order().len()
    &&& forall|i: int|
        0 <= i < b.history_rows@.len() ==> {
            let latest = e.history()[e.history_order()[i]]@.last();
            reports(#[trigger] b.history_rows@[i], latest, history_details(latest))
        }
    &&& b.rows@.len() == e.pending_order().len()
    &&& forall|i: int|
        0 <= i < b.rows@.len() ==> {
            let p = e.pending()[e.pending_order()[i]];
            reports(#[trigger] b.rows@[i], p, pending_details(p))
        }
    &&& b.sent@.len() == e.pending_order().len()
    &&& forall|i: int| 0 <= i < b.sent@.len() ==> #[trigger] b.sent@[i] == e.pending()[e.pending_order()[i]]
}

/// `after` is `before` with `s` kept as the pending failure of its device.
pub open spec fn records_failure(before: EmailService, after: EmailService, s: DeviceStatus) -> bool {
    &&& after.wf()
    &&& after.pending() == before.pending().insert(s.name@, s)
    &&& after.pending_order() == if before.pending().contains_key(s.name@) {
        before.pending_order()
    } else {
        before.pending_order().push(s.name@)
    }
    &&& after.config() == before.config()
    &&& after.history() == before.history()
    &&& after.history_order() == before.history_order()
    &&& after.last_notification() == before.last_notification()
    &&& after.sending() == before.sending()
}

/// `after` is `before` with `s` added to the history of its device, the
/// records too old by the time of `s` dropped.
pub open spec fn records_status(before: EmailService, after: EmailService, s: DeviceStatus) -> bool {
    let earlier = if before.history().contains_key(s.name@) {
        before.history()[s.name@]@
    } else {
        Seq::empty()
    };
    &&& after.wf()
    &&& after.history().contains_key(s.name@)
    &&& after.history()[s.name@]@ == pruned(earlier, s.checked_at).push(s)
    &&& after.history() == before.history().insert(s.name@, after.history()[s.name@])
    &&& after.history_order() == if before.history().contains_key(s.name@) {
        before.history_order()
    } else {
        before.history_order().push(s.name@)
    }
    &&& after.config() == before.config()
    &&& after.pending() == before.pending()
    &&& after.pending_order() == before.pending_order()
    &&& after.last_notification() == before.last_notification()
    &&& after.sending() == before.sending()
}

/// `after` is `before` once a report attempt at `now`, which carried
/// `sent`, was settled.
pub open spec fn flush_settled(
    before: EmailService,
    after: EmailService,
    delivered: bool,
    now: u64,
    sent: Seq<DeviceStatus>,
) -> bool {
    &&& after.wf()
    &&& !after.sending()
    &&& after.config() == before.config()
    &&& after.history() == before.history()
    &&& after.history_order() == before.history_order()
    &&& if delivered {
        &&& after.pending() == unsent(before, sent)
        &&& after.pending_order() == before.pending_order().filter(
            |k: Seq<char>| !was_sent(sent, before.pending()[k]),
        )
        &&& after.last_notification() == now
    } else {
        &&& after.pending() == before.pending()
        &&& after.pending_order() == before.pending_order()
        &&& after.last_notification() == before.last_notification()
    }
}

impl DeviceStatus {
    /// A field-by-field copy.
    pub fn copy(&self) -> (r: DeviceStatus)
        ensures
            r == *self,
    {
        DeviceStatus {
            name: self.name.clone(),
            status: self.status.clone(),
            timestamp: self.timestamp.clone(),
            ping_status: self.ping_status.clone(),
            http_status: self.http_status.clone(),
            bandwidth: self.bandwidth.clone(),
            failure_count: self.failure_count,
            last_failure: match &self.last_failure {
                Some(f) => Some(f.clone()),
                None => None,
            },
            checked_at: self.checked_at,
        }
    }
}

/// A mail ready to hand to the transport.
pub struct OutgoingEmail {
    pub from: String,
    pub to: Vec<String>,
    pub subject: String,
    pub body: String,
}

/// An alert subject: the placeholders `{device_name}`, `{date}` and `{time}`
/// filled in, in that order.
pub open spec fn alert_subject(template: Seq<char>, name: Seq<char>, log: LogData) -> Seq<char> {
    replaced(
        replaced(replaced(template, "{device_name}"@, name), "{date}"@, log.date@),
        "{time}"@,
        log.time@,
    )
}

/// An alert body: the subject's placeholders, then `{ping_status}`,
/// `{http_status}` and `{bandwidth}`, filled in.
pub open spec fn alert_body(template: Seq<char>, name: Seq<char>, log: LogData) -> Seq<char> {
    replaced(
        replaced(
            replaced(alert_subject(template, name, log), "{ping_status}"@, log.ping_status@),
            "{http_status}"@,
            log.http_status@,
        ),
        "{bandwidth}"@,
        log.bandwidth@,
    )
}

/// The verdict on sending an alert with configuration `c`.
pub open spec fn alert_check(c: EmailConfig) -> Result<(), ConfigError> {
    if c.recipients@.len() == 0 {
        Err(ConfigError::NoRecipients)
    } else if c.sender_email@.len() == 0 || c.sender_password@.len() == 0 {
        Err(ConfigError::MissingSender)
    } else {
        Ok(())
    }
}

/// The verdict on sending a test mail to `to` with configuration `c`.
pub open spec fn test_check(c: EmailConfig, to: Seq<char>) -> Result<(), ConfigError> {
    if c.sender_email@.len() == 0 || c.sender_password@.len() == 0 {
        Err(ConfigError::MissingSender)
    } else if to.len() == 0 {
        Err(ConfigError::MissingTestAddress)
    } else {
        Ok(())
    }
}

fn copy_all(v: &Vec<String>) -> (r: Vec<String>)
    ensures
        r@.len() == v@.len(),
        forall|i: int| 0 <= i < v@.len() ==> (#[trigger] r@[i])@ == v@[i]@,
{
    let mut r: Vec<String> = Vec::new();
    let mut i: usize = 0;
    while i < v.len()
        invariant
            i <= v@.len(),
            r@.len() == i,
            forall|j: int| 0 <= j < i ==> (#[trigger] r@[j])@ == v@[j]@,
        decreases v@.len() - i,
    {
        r.push(v[i].clone());
        i += 1;
    }
    r
}

/// Fills the configured templates for an alert on `device_name`.
pub fn fill_alert(config: &EmailConfig, device_name: &str, log_data: &LogData) -> (r: (String, String))
    ensures
        r.0@ == alert_subject(config.email_subject@, device_name@, *log_data),
        r.1@ == alert_body(config.email_body@, device_name@, *log_data),
{
    proof {
        reveal_strlit("{device_name}");
        reveal_strlit("{date}");
        reveal_strlit("{time}");
        reveal_strlit("{ping_status}");
        reveal_strlit("{http_status}");
        reveal_strlit("{bandwidth}");
    }
    let s1 = replace_all(config.email_subject.as_str(), "{device_name}", device_name);
    let s2 = replace_all(s1.as_str(), "{date}", log_data.date.as_str());
    let subject = replace_all(s2.as_str(), "{time}", log_data.time.as_str());
    let b1 = replace_all(config.email_body.as_str(), "{device_name}", device_name);
    let b2 = replace_all(b1.as_str(), "{date}", log_data.date.as_str());
    let b3 = replace_all(b2.as_str(), "{time}", log_data.time.as_str());
    let b4 = replace_all(b3.as_str(), "{ping_status}", log_data.ping_status.as_str());
    let b5 = replace_all(b4.as_str(), "{http_status}", log_data.http_status.as_str());
    let body = replace_all(b5.as_str(), "{bandwidth}", log_data.bandwidth.as_str());
    (subject, body)
}

impl EmailService {
    /// The alert on `device_name` for every recipient, ready for the
    /// transport, or why none can be sent with the current configuration.
    pub fn send_email(&self, device_name: &str, log_data: &LogData) -> (r: Result<OutgoingEmail, ConfigError>)
        ensures
            alert_check(self.config()) is Err ==> r == Err::<OutgoingEmail, ConfigError>(
                alert_check(self.config())->Err_0,
            ),
            alert_check(self.config()) is Ok ==> r is Ok,
            r matches Ok(m) ==> {
                &&& m.from@ == self.config().sender_email@
                &&& m.to@.len() == self.config().recipients@.len()
                &&& forall|i: int|
                    0 <= i < m.to@.len() ==> (#[trigger] m.to@[i])@ == self.config().recipients@[i]@
                &&& m.subject@ == alert_subject(self.config().email_subject@, device_name@, *log_data)
                &&& m.body@ == alert_body(self.config().email_body@, device_name@, *log_data)
            },
    {
        let c = &self.config;
        if c.recipients.len() == 0 {
            return Err(ConfigError::NoRecipients);
        }
        if c.sender_email.as_str().is_empty() || c.sender_password.as_str().is_empty() {
            return Err(ConfigError::MissingSender);
        }
        let (subject, body) = fill_alert(c, device_name, log_data);
        Ok(OutgoingEmail { from: c.sender_email.clone(), to: copy_all(&c.recipients), subject, body })
    }

    /// The test mail for `test_email`, ready for the transport, or why none
    /// can be sent.
    pub fn send_test_email(&self, test_email: &str) -> (r: Result<OutgoingEmail, ConfigError>)
        ensures
            test_check(self.config(), test_email@) is Err ==> r == Err::<OutgoingEmail, ConfigError>(
                test_check(self.config(), test_email@)->Err_0,
            ),
            test_check(self.config(), test_email@) is Ok ==> r is Ok,
            r matches Ok(m) ==> {
                &&& m.from@ == self.config().sender_email@
                &&& m.to@.len() == 1
                &&& m.to@[0]@ == test_email@
                &&& m.subject@ == "RustPing Test Email"@
                &&& m.body@
                    == "This is a test email from RustPing. If you're receiving this, your email configuration is working correctly!"@
            },
    {
        let c = &self.config;
        if c.sender_email.as_str().is_empty() || c.sender_password.as_str().is_empty() {
            return Err(ConfigError::MissingSender);
        }
        if test_email.is_empty() {
            return Err(ConfigError::MissingTestAddress);
        }
        let mut to: Vec<String> = Vec::new();
        to.push(String::from_str(test_email));
        let m = OutgoingEmail {
            from: c.sender_email.clone(),
            to,
            subject: String::from_str("RustPing Test Email"),
            body: String::from_str(
                "This is a test email from RustPing. If you're receiving this, your email configuration is working correctly!",
            ),
        };
        Ok(m)
    }
}

/// Recording two failures of one device before a report leaves one pending
/// entry for it, holding the later record.
pub proof fn lemma_one_pending_per_device(
    e0: EmailService,
    e1: EmailService,
    e2: EmailService,
    first: DeviceStatus,
    second: DeviceStatus,
)
    requires
        e0.wf(),
        first.name@ == second.name@,
        records_failure(e0, e1, first),
        records_failure(e1, e2, second),
    ensures
        e2.pending() == e0.pending().insert(second.name@, second),
        e2.pending()[second.name@] == second,
        exists|i: int|
            0 <= i < e2.pending_order().len() && e2.pending_order()[i] == second.name@ && forall|j: int|
                0 <= j < e2.pending_order().len() && #[trigger] e2.pending_order()[j] == second.name@ ==> j == i,
{
    assert(e2.pending() =~= e0.pending().insert(second.name@, second));
    e2.pending.lemma_keys();
    assert(e2.pending().contains_key(second.name@));
    assert(e2.pending.view().contains_key(second.name@));
    assert(e2.pending.keys().contains(second.name@));
    assert(e2.pending_order().no_duplicates());
    let i = choose|i: int| 0 <= i < e2.pending_order().len() && e2.pending_order()[i] == second.name@;
    assert(forall|j: int|
        0 <= j < e2.pending_order().len() && #[trigger] e2.pending_order()[j] == second.name@ ==> j == i);
}

/// A report that could not be delivered leaves the pending failures exactly
/// as they were, so the next report carries them again.
pub proof fn lemma_failed_send_keeps_pending(
    before: EmailService,
    after: EmailService,
    now: u64,
    sent: Seq<DeviceStatus>,
)
    requires
        before.wf(),
        flush_settled(before, after, false, now, sent),
    ensures
        after.pending() == before.pending(),
        after.pending_order() == before.pending_order(),
        after.pending().dom() == before.pending().dom(),
        before.pending_order().len() > 0 ==> after.pending_order().len() > 0,
{
}

/// A delivered report that carried every pending failure as it still stands
/// leaves nothing pending.
pub proof fn lemma_delivered_report_clears(
    before: EmailService,
    after: EmailService,
    now: u64,
    sent: Seq<DeviceStatus>,
)
    requires
        before.wf(),
        sent.len() == before.pending_order().len(),
        forall|i: int| 0 <= i < sent.len() ==> #[trigger] sent[i] == before.pending()[before.pending_order()[i]],
        flush_settled(before, after, true, now, sent),
    ensures
        after.pending() == Map::<Seq<char>, DeviceStatus>::empty(),
        after.pending_order() == Seq::<Seq<char>>::empty(),
{
    before.lemma_orders();
    let order = before.pending_order();
    let pred = |k: Seq<char>| !was_sent(sent, before.pending()[k]);
    assert forall|k: Seq<char>| before.pending().contains_key(k) implies was_sent(sent, before.pending()[k]) by {
        assert(order.contains(k));
        let i = choose|i: int| 0 <= i < order.len() && order[i] == k;
        assert(same_record(sent[i], before.pending()[k]));
    }
    assert(after.pending() =~= Map::<Seq<char>, DeviceStatus>::empty());
    assert(order.all(|x: Seq<char>| !pred(x))) by {
        assert forall|i: int| 0 <= i < order.len() implies !pred(order[i]) by {
            assert(order.contains(order[i]));
            assert(before.pending().contains_key(order[i]));
        }
    }
    order.lemma_all_neg_filter_empty(pred);
    assert(after.pending_order() =~= Seq::<Seq<char>>::empty());
}

} // verus!
