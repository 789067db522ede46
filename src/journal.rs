//! The status journal: one text line per device per logged cycle, a date
//! header before the first line of each day, and the reading of those lines
//! back into their fields.

use vstd::prelude::*;
use vstd::string::*;
use crate::models::Device;
use crate::text::{
    blank, decimal, find, find_char, find_char_in, find_from, find_last, find_last_in, is_blank,
    contains_text, digit, is_space, occurs_at, push_decimal, push_two_digits, to_chars, trim,
    trim_bounds, trim_end, trim_start, two_digits,
};

verus! {

/// A wall-clock time, as written in the journal.
#[derive(Clone, Copy, Debug, PartialEq, Eq, Structural)]
pub struct Timestamp {
    pub year: u16,
    pub month: u8,
    pub day: u8,
    pub hour: u8,
    pub minute: u8,
    pub second: u8,
}

impl Timestamp {
    /// Fields in range; a second of 60 stands for a leap second.
    pub open spec fn wf(&self) -> bool {
        &&& self.year <= 9999
        &&& 1 <= self.month <= 12
        &&& 1 <= self.day <= 31
        &&& self.hour <= 23
        &&& self.minute <= 59
        &&& self.second <= 60
    }

    pub open spec fn same_day(&self, other: Timestamp) -> bool {
        self.year == other.year && self.month == other.month && self.day == other.day
    }
}

/// `YYYY-MM-DD`.
pub open spec fn date_text(t: Timestamp) -> Seq<char> {
    two_digits((t.year / 100) as nat) + two_digits((t.year % 100) as nat) + "-"@ + two_digits(
        t.month as nat,
    ) + "-"@ + two_digits(t.day as nat)
}

/// `HH:MM:SS`.
pub open spec fn time_text(t: Timestamp) -> Seq<char> {
    two_digits(t.hour as nat) + ":"@ + two_digits(t.minute as nat) + ":"@ + two_digits(
        t.second as nat,
    )
}

/// `YYYY-MM-DD HH:MM:SS`.
pub open spec fn timestamp_text(t: Timestamp) -> Seq<char> {
    date_text(t) + " "@ + time_text(t)
}

pub fn push_date(out: &mut String, t: &Timestamp)
    requires
        t.wf(),
    ensures
        final(out)@ == old(out)@ + date_text(*t),
{
    proof {
        reveal_strlit("-");
    }
    push_two_digits(out, (t.year / 100) as u64);
    push_two_digits(out, (t.year % 100) as u64);
    out.append("-");
    push_two_digits(out, t.month as u64);
    out.append("-");
    push_two_digits(out, t.day as u64);
    assert(out@ =~= old(out)@ + date_text(*t));
}

pub fn push_timestamp(out: &mut String, t: &Timestamp)
    requires
        t.wf(),
    ensures
        final(out)@ == old(out)@ + timestamp_text(*t),
{
    proof {
        reveal_strlit(" ");
        reveal_strlit(":");
    }
    push_date(out, t);
    out.append(" ");
    push_two_digits(out, t.hour as u64);
    out.append(":");
    push_two_digits(out, t.minute as u64);
    out.append(":");
    push_two_digits(out, t.second as u64);
    assert(out@ =~= old(out)@ + timestamp_text(*t));
}

pub open spec fn ping_label(ping: Option<bool>) -> Seq<char> {
    match ping {
        None => "N/A"@,
        Some(true) => "OK"@,
        Some(false) => "FAIL"@,
    }
}

/// HTTP status of a device: N/A without an HTTP sensor, FAIL until known good.
pub open spec fn http_label(d: Device) -> Seq<char> {
    if d.watches_http() {
        if d.http_status == Some(true) {
            "OK"@
        } else {
            "FAIL"@
        }
    } else {
        "N/A"@
    }
}

/// A bandwidth given in hundredths of a megabit per second, with two decimals.
pub open spec fn mbps_text(hundredths: nat) -> Seq<char> {
    decimal(hundredths / 100) + "."@ + two_digits(hundredths % 100) + " Mbps"@
}

/// Bandwidth of a device: only meaningful while its HTTP check passes.
pub open spec fn bandwidth_label(d: Device) -> Seq<char> {
    if d.watches_http() && d.http_status == Some(true) {
        match d.bandwidth_usage {
            Some(b) => mbps_text(b as nat),
            None => "N/A"@,
        }
    } else {
        "N/A"@
    }
}

/// `TIMESTAMP - NAME (ADDRESS): Ping: P, HTTP: H, Bandwidth: B`.
pub open spec fn log_line(
    t: Timestamp,
    name: Seq<char>,
    address: Seq<char>,
    ping: Seq<char>,
    http: Seq<char>,
    bandwidth: Seq<char>,
) -> Seq<char> {
    timestamp_text(t) + " - "@ + name + " ("@ + address + "): Ping: "@ + ping + ", HTTP: "@ + http
        + ", Bandwidth: "@ + bandwidth
}

/// The header written before the first line of a day.
pub open spec fn day_header(t: Timestamp) -> Seq<char> {
    "// "@ + date_text(t)
}

pub fn ping_label_str(ping: Option<bool>) -> (r: &'static str)
    ensures
        r@ == ping_label(ping),
{
    match ping {
        None => "N/A",
        Some(true) => "OK",
        Some(false) => "FAIL",
    }
}

pub fn http_label_str(d: &Device) -> (r: &'static str)
    ensures
        r@ == http_label(*d),
{
    if d.has_http_sensor() {
        if d.http_status == Some(true) {
            "OK"
        } else {
            "FAIL"
        }
    } else {
        "N/A"
    }
}

fn push_bandwidth(out: &mut String, d: &Device)
    ensures
        final(out)@ == old(out)@ + bandwidth_label(*d),
{
    proof {
        reveal_strlit(".");
    }
    if d.has_http_sensor() && d.http_status == Some(true) {
        match d.bandwidth_usage {
            Some(b) => {
                push_decimal(out, b / 100);
                out.append(".");
                push_two_digits(out, b % 100);
                out.append(" Mbps");
                assert(out@ =~= old(out)@ + bandwidth_label(*d));
            },
            None => out.append("N/A"),
        }
    } else {
        out.append("N/A");
    }
}

pub fn bandwidth_string(d: &Device) -> (r: String)
    ensures
        r@ == bandwidth_label(*d),
{
    let mut out = String::new();
    push_bandwidth(&mut out, d);
    out
}

pub fn date_string(t: &Timestamp) -> (r: String)
    requires
        t.wf(),
    ensures
        r@ == date_text(*t),
{
    let mut out = String::new();
    push_date(&mut out, t);
    out
}

pub fn time_string(t: &Timestamp) -> (r: String)
    requires
        t.wf(),
    ensures
        r@ == time_text(*t),
{
    proof {
        reveal_strlit(":");
    }
    let mut out = String::new();
    push_two_digits(&mut out, t.hour as u64);
    out.append(":");
    push_two_digits(&mut out, t.minute as u64);
    out.append(":");
    push_two_digits(&mut out, t.second as u64);
    assert(out@ =~= time_text(*t));
    out
}

/// The journal line for `device` at `at`, with `ping` as its reported ping status.
pub fn format_entry(device: &Device, ping: Option<bool>, at: &Timestamp) -> (r: String)
    requires
        at.wf(),
    ensures
        r@ == log_line(
            *at,
            device.name@,
            device.ip@,
            ping_label(ping),
            http_label(*device),
            bandwidth_label(*device),
        ),
{
    let mut out = String::new();
    push_timestamp(&mut out, at);
    out.append(" - ");
    out.append(device.name.as_str());
    out.append(" (");
    out.append(device.ip.as_str());
    out.append("): Ping: ");
    out.append(ping_label_str(ping));
    out.append(", HTTP: ");
    out.append(http_label_str(device));
    out.append(", Bandwidth: ");
    push_bandwidth(&mut out, device);
    assert(out@ =~= log_line(
        *at,
        device.name@,
        device.ip@,
        ping_label(ping),
        http_label(*device),
        bandwidth_label(*device),
    ));
    out
}

/// A line at `at` continues the day of the last line written.
pub open spec fn continues_day(last: Option<Timestamp>, at: Timestamp) -> bool {
    match last {
        Some(p) => p.same_day(at),
        None => false,
    }
}

/// Remembers the day of the last line written since the process started.
pub struct LogJournal {
    last_logged: Option<Timestamp>,
}

impl LogJournal {
    pub closed spec fn last_logged(&self) -> Option<Timestamp> {
        self.last_logged
    }

    pub fn new() -> (j: LogJournal)
        ensures
            j.last_logged() is None,
    {
        LogJournal { last_logged: None }
    }

    /// The text to append for `device` at `at`: the day header when `at`
    /// starts a new day for this journal, then the entry; every line ends
    /// with a newline.
    pub fn append(&mut self, device: &Device, ping: Option<bool>, at: &Timestamp) -> (r: String)
        requires
            at.wf(),
        ensures
            final(self).last_logged() == Some(*at),
            r@ == (if continues_day(old(self).last_logged(), *at) {
                Seq::<char>::empty()
            } else {
                day_header(*at) + "\n"@
            }) + log_line(
                *at,
                device.name@,
                device.ip@,
                ping_label(ping),
                http_label(*device),
                bandwidth_label(*device),
            ) + "\n"@,
    {
        let new_day = match self.last_logged {
            Some(p) => !(p.year == at.year && p.month == at.month && p.day == at.day),
            None => true,
        };
        let mut out = String::new();
        if new_day {
            out.append("// ");
            push_date(&mut out, at);
            out.append("\n");
        }
        let line = format_entry(device, ping, at);
        out.append(line.as_str());
        out.append("\n");
        self.last_logged = Some(*at);
        proof {
            if !new_day {
                assert(out@ =~= Seq::<char>::empty() + line@ + "\n"@);
            } else {
                assert(out@ =~= day_header(*at) + "\n"@ + line@ + "\n"@);
            }
        }
        out
    }
}

/// What a journal line says, field by field.
pub ghost struct EntryText {
    pub timestamp: Seq<char>,
    pub date: Seq<char>,
    pub time: Seq<char>,
    pub device: Seq<char>,
    pub address: Seq<char>,
    pub ping: Seq<char>,
    pub http: Seq<char>,
    pub bandwidth: Seq<char>,
    pub down: bool,
}

/// A journal line read back.
pub struct LogEntry {
    pub timestamp: String,
    pub date: String,
    pub time: String,
    pub device: String,
    pub address: String,
    pub ping: String,
    pub http: String,
    pub bandwidth: String,
    /// The ping status reads FAIL, in any case.
    pub down: bool,
}

impl LogEntry {
    pub open spec fn says(&self, e: EntryText) -> bool {
        &&& self.timestamp@ == e.timestamp
        &&& self.date@ == e.date
        &&& self.time@ == e.time
        &&& self.device@ == e.device
        &&& self.address@ == e.address
        &&& self.ping@ == e.ping
        &&& self.http@ == e.http
        &&& self.bandwidth@ == e.bandwidth
        &&& self.down == e.down
    }
}

/// `s` reads "fail" in any mix of case.
pub open spec fn reads_fail(s: Seq<char>) -> bool {
    &&& s.len() == 4
    &&& s[0] == 'f' || s[0] == 'F'
    &&& s[1] == 'a' || s[1] == 'A'
    &&& s[2] == 'i' || s[2] == 'I'
    &&& s[3] == 'l' || s[3] == 'L'
}

/// The value of the last `, `-separated field of `l` from `pos` on that starts
/// with `key`, trimmed; `acc` when there is none.
pub open spec fn field_value(l: Seq<char>, key: Seq<char>, pos: int, acc: Seq<char>) -> Seq<char>
    decreases l.len() + 1 - pos,
{
    if pos < 0 || pos > l.len() {
        acc
    } else {
        let next = find_from(l, ", "@, pos);
        let end = match next {
            Some(k) => k,
            None => l.len() as int,
        };
        let here = if pos + key.len() <= end && end <= l.len() && l.subrange(pos, pos + key.len())
            == key {
            trim(l.subrange(pos + key.len(), end))
        } else {
            acc
        };
        match next {
            Some(k) => if pos <= k && k + 2 <= l.len() {
                field_value(l, key, k + 2, here)
            } else {
                here
            },
            None => here,
        }
    }
}

/// Device name and address from `NAME (ADDRESS)` in `l[lo..hi]`; without
/// the parenthesised address, the whole text is the name.
pub open spec fn device_and_address(l: Seq<char>, lo: int, hi: int) -> (Seq<char>, Seq<char>) {
    if lo < hi && l[hi - 1] == ')' {
        match find_last(l, " ("@, lo, hi - 3) {
            Some(k) => (l.subrange(lo, k), l.subrange(k + 2, hi - 1)),
            None => (l.subrange(lo, hi), Seq::empty()),
        }
    } else {
        (l.subrange(lo, hi), Seq::empty())
    }
}

/// Lines that carry no entry: date headers and blank lines.
pub open spec fn skipped(l: Seq<char>) -> bool {
    (l.len() >= 2 && l[0] == '/' && l[1] == '/') || blank(l)
}

/// What a journal line says, if it is an entry: the timestamp ends at the
/// first ` - `, the device part at the next `: `, and the rest is a list of
/// `Key: value` fields.
pub open spec fn parse_line(l: Seq<char>) -> Option<EntryText> {
    if skipped(l) {
        None
    } else {
        match find_from(l, " - "@, 0) {
            None => None,
            Some(i) => match find_from(l, ": "@, i + 3) {
                None => None,
                Some(j) => {
                    let d1 = find_char(l, ' ', 0, i);
                    let d2 = if d1 < i {
                        find_char(l, ' ', d1 + 1, i)
                    } else {
                        i
                    };
                    let ping = field_value(l, "Ping:"@, j + 2, Seq::empty());
                    Some(
                        EntryText {
                            timestamp: l.subrange(0, i),
                            date: l.subrange(0, d1),
                            time: if d1 < i {
                                l.subrange(d1 + 1, d2)
                            } else {
                                Seq::empty()
                            },
                            device: device_and_address(l, i + 3, j).0,
                            address: device_and_address(l, i + 3, j).1,
                            ping,
                            http: field_value(l, "HTTP:"@, j + 2, Seq::empty()),
                            bandwidth: field_value(l, "Bandwidth:"@, j + 2, Seq::empty()),
                            down: reads_fail(ping),
                        },
                    )
                },
            },
        }
    }
}

fn reads_fail_of(v: &Vec<char>) -> (r: bool)
    ensures
        r == reads_fail(v@),
{
    v.len() == 4 && (v[0] == 'f' || v[0] == 'F') && (v[1] == 'a' || v[1] == 'A') && (v[2] == 'i'
        || v[2] == 'I') && (v[3] == 'l' || v[3] == 'L')
}

fn text_of(line: &str, from: usize, to: usize) -> (r: String)
    requires
        from <= to <= line@.len(),
    ensures
        r@ == line@.subrange(from as int, to as int),
{
    String::from_str(line.substring_char(from, to))
}

fn starts_with_at(v: &Vec<char>, key: &Vec<char>, pos: usize, end: usize) -> (r: bool)
    requires
        pos <= end <= v@.len(),
    ensures
        r == (pos + key@.len() <= end && v@.subrange(pos as int, pos + key@.len()) == key@),
{
    if key.len() > end - pos {
        return false;
    }
    let m = crate::text::matches_at(v, key, pos);
    m
}

/// Reads a journal line back into its fields; `None` for headers, blank
/// lines and lines that are not entries.
pub fn parse_log_line(line: &str) -> (r: Option<LogEntry>)
    ensures
        parse_line(line@) is None ==> r is None,
        parse_line(line@) matches Some(e) ==> r matches Some(x) && x.says(e),
{
    proof {
        reveal_strlit(" - ");
        reveal_strlit(": ");
        reveal_strlit(", ");
        reveal_strlit(" (");
    }
    let v = to_chars(line);
    let n = v.len();
    if (n >= 2 && v[0] == '/' && v[1] == '/') || is_blank(line) {
        return None;
    }
    let dash = to_chars(" - ");
    let i = match find(&v, &dash, 0) {
        Some(i) => i,
        None => return None,
    };
    proof {
        crate::text::lemma_find_from(v@, dash@, 0);
    }
    let colon = to_chars(": ");
    let j = match find(&v, &colon, i + 3) {
        Some(j) => j,
        None => return None,
    };
    proof {
        crate::text::lemma_find_from(v@, colon@, i + 3);
    }
    let d1 = find_char_in(&v, ' ', 0, i);
    let d2 = if d1 < i {
        find_char_in(&v, ' ', d1 + 1, i)
    } else {
        i
    };
    let time = if d1 < i {
        text_of(line, d1 + 1, d2)
    } else {
        String::new()
    };
    let head_start = i + 3;
    let mut device_end = j;
    let mut address = String::new();
    if head_start < j && v[j - 1] == ')' && j >= 3 {
        let open = to_chars(" (");
        match find_last_in(&v, &open, head_start, j - 3) {
            Some(k) => {
                proof {
                    crate::text::lemma_find_last(v@, open@, head_start as int, j - 3);
                }
                device_end = k;
                address = text_of(line, k + 2, j - 1);
            },
            None => {},
        }
    }
    let device = text_of(line, head_start, device_end);
    let (ping, http, bandwidth) = read_fields(line, &v, j + 2);
    let pv = to_chars(ping.as_str());
    let down = reads_fail_of(&pv);
    Some(
        LogEntry {
            timestamp: text_of(line, 0, i),
            date: text_of(line, 0, d1),
            time,
            device,
            address,
            ping,
            http,
            bandwidth,
            down,
        },
    )
}

fn read_fields(line: &str, v: &Vec<char>, start: usize) -> (r: (String, String, String))
    requires
        v@ == line@,
        start <= v@.len(),
    ensures
        r.0@ == field_value(line@, "Ping:"@, start as int, Seq::empty()),
        r.1@ == field_value(line@, "HTTP:"@, start as int, Seq::empty()),
        r.2@ == field_value(line@, "Bandwidth:"@, start as int, Seq::empty()),
{
    proof {
        reveal_strlit(", ");
        reveal_strlit("Ping:");
        reveal_strlit("HTTP:");
        reveal_strlit("Bandwidth:");
    }
    let comma = to_chars(", ");
    let ping_key = to_chars("Ping:");
    let http_key = to_chars("HTTP:");
    let bw_key = to_chars("Bandwidth:");
    let n = v.len();
    let mut ping = String::new();
    let mut http = String::new();
    let mut bandwidth = String::new();
    let mut pos = start;
    loop
        invariant
            v@ == line@,
            n == v@.len(),
            pos <= n,
            comma@ == ", "@,
            ping_key@ == "Ping:"@,
            http_key@ == "HTTP:"@,
            bw_key@ == "Bandwidth:"@,
            comma@.len() == 2,
            ping_key@.len() == 5,
            http_key@.len() == 5,
            bw_key@.len() == 10,
            field_value(line@, "Ping:"@, start as int, Seq::empty()) == field_value(line@, "Ping:"@, pos as int, ping@),
            field_value(line@, "HTTP:"@, start as int, Seq::empty()) == field_value(line@, "HTTP:"@, pos as int, http@),
            field_value(line@, "Bandwidth:"@, start as int, Seq::empty()) == field_value(line@, "Bandwidth:"@, pos as int, bandwidth@),
        decreases n + 1 - pos,
    {
        let next = find(v, &comma, pos);
        proof {
            crate::text::lemma_find_from(v@, comma@, pos as int);
        }
        let end = match next {
            Some(k) => k,
            None => n,
        };
        if starts_with_at(v, &ping_key, pos, end) {
            let (a, b) = trim_bounds(v, pos + 5, end);
            ping = text_of(line, a, b);
        }
        if starts_with_at(v, &http_key, pos, end) {
            let (a, b) = trim_bounds(v, pos + 5, end);
            http = text_of(line, a, b);
        }
        if starts_with_at(v, &bw_key, pos, end) {
            let (a, b) = trim_bounds(v, pos + 10, end);
            bandwidth = text_of(line, a, b);
        }
        match next {
            Some(k) => {
                pos = k + 2;
            },
            None => {
                return (ping, http, bandwidth);
            },
        }
    }
}

/// A written status: OK, FAIL or N/A.
pub open spec fn status_word(s: Seq<char>) -> bool {
    s == "OK"@ || s == "FAIL"@ || s == "N/A"@
}

/// A written bandwidth: N/A or a figure in Mbps.
pub open spec fn bandwidth_word(s: Seq<char>) -> bool {
    s == "N/A"@ || exists|c: nat| s == mbps_text(c)
}

pub open spec fn is_digit(c: char) -> bool {
    '0' <= c && c <= '9'
}

proof fn lemma_digit(d: int)
    ensures
        is_digit(digit(d)),
{
}

proof fn lemma_timestamp_chars(t: Timestamp, j: int)
    requires
        0 <= j < 19,
    ensures
        timestamp_text(t).len() == 19,
        timestamp_text(t)[j] == ' ' <==> j == 10,
        is_digit(timestamp_text(t)[11]),
        is_digit(timestamp_text(t)[0]),
{
    reveal_strlit("-");
    reveal_strlit(":");
    reveal_strlit(" ");
    let ts = timestamp_text(t);
    lemma_digit((t.year / 100) as int / 10);
    lemma_digit((t.year / 100) as int % 10);
    lemma_digit((t.year % 100) as int / 10);
    lemma_digit((t.year % 100) as int % 10);
    lemma_digit(t.month as int / 10);
    lemma_digit(t.month as int % 10);
    lemma_digit(t.day as int / 10);
    lemma_digit(t.day as int % 10);
    lemma_digit(t.hour as int / 10);
    lemma_digit(t.hour as int % 10);
    lemma_digit(t.minute as int / 10);
    lemma_digit(t.minute as int % 10);
    lemma_digit(t.second as int / 10);
    lemma_digit(t.second as int % 10);
    assert(ts =~= seq![
        digit((t.year / 100) as int / 10),
        digit((t.year / 100) as int % 10),
        digit((t.year % 100) as int / 10),
        digit((t.year % 100) as int % 10),
        '-',
        digit(t.month as int / 10),
        digit(t.month as int % 10),
        '-',
        digit(t.day as int / 10),
        digit(t.day as int % 10),
        ' ',
        digit(t.hour as int / 10),
        digit(t.hour as int % 10),
        ':',
        digit(t.minute as int / 10),
        digit(t.minute as int % 10),
        ':',
        digit(t.second as int / 10),
        digit(t.second as int % 10),
    ]);
}

proof fn lemma_trim_padded(s: Seq<char>)
    requires
        s.len() > 0,
        !is_space(s[0]),
        !is_space(s.last()),
    ensures
        trim(" "@ + s) == s,
{
    reveal_strlit(" ");
    assert((" "@ + s)[0] == ' ');
    assert((" "@ + s).subrange(1, (" "@ + s).len() as int) =~= s);
    assert(trim_start(" "@ + s) == trim_start(s));
    assert(trim_start(s) == s);
    assert(trim_end(s) == s);
}

proof fn lemma_word_shape(s: Seq<char>)
    requires
        status_word(s) || bandwidth_word(s),
    ensures
        s.len() > 0,
        !is_space(s[0]),
        !is_space(s.last()),
        forall|i: int| 0 <= i < s.len() ==> #[trigger] s[i] != ',',
        s[0] != ' ',
{
    reveal_strlit("OK");
    reveal_strlit("FAIL");
    reveal_strlit("N/A");
    reveal_strlit(".");
    reveal_strlit(" Mbps");
    if !status_word(s) && s != "N/A"@ {
        let c = choose|c: nat| s == mbps_text(c);
        crate::text::lemma_decimal_digits(c / 100);
        let d = decimal(c / 100);
        lemma_digit((c % 100) as int / 10);
        lemma_digit((c % 100) as int % 10);
        assert(s[0] == d[0]);
        assert(s.last() == 's');
        assert forall|i: int| 0 <= i < s.len() implies #[trigger] s[i] != ',' by {
            if i < d.len() {
                assert(s[i] == d[i]);
            }
        }
    }
}

#[verifier::spinoff_prover]
proof fn lemma_timestamp_part(t: Timestamp, line: Seq<char>)
    requires
        line.len() >= 22,
        line.subrange(0, 19) == timestamp_text(t),
        line.subrange(19, 22) == " - "@,
    ensures
        !skipped(line),
        find_from(line, " - "@, 0) == Some(19int),
        find_char(line, ' ', 0, 19) == 10,
        find_char(line, ' ', 11, 19) == 19,
        line.subrange(0, 19) == timestamp_text(t),
        line.subrange(0, 10) == date_text(t),
        line.subrange(11, 19) == time_text(t),
{
    reveal_strlit(" - ");
    reveal_strlit("-");
    reveal_strlit(":");
    reveal_strlit(" ");
    let ts = timestamp_text(t);
    lemma_timestamp_chars(t, 0);
    assert(line[0] == line.subrange(0, 19)[0]);
    assert(line[20] == line.subrange(19, 22)[1]);
    assert(!skipped(line));
    assert forall|j: int| 0 <= j < 19 implies line[j] == ts[j] by {
        assert(line.subrange(0, 19)[j] == line[j]);
    }
    assert forall|j: int| 0 <= j < 19 implies !occurs_at(line, " - "@, j) by {
        lemma_timestamp_chars(t, j);
        lemma_timestamp_chars(t, 11);
        if occurs_at(line, " - "@, j) {
            crate::text::lemma_occurs_chars(line, " - "@, j);
            assert(" - "@[0] == ' ' && " - "@[1] == '-');
            assert(line[j + 0] == " - "@[0]);
            assert(line[j + 1] == " - "@[1]);
        }
    }
    assert(occurs_at(line, " - "@, 19)) by {
        assert(line.subrange(19, 22) =~= " - "@);
    }
    crate::text::lemma_found_at(line, " - "@, 0, 19);
    assert forall|j: int| 0 <= j < 10 implies line[j] != ' ' by {
        lemma_timestamp_chars(t, j);
    }
    lemma_timestamp_chars(t, 10);
    lemma_find_char_from(line, ' ', 0, 10, 19);
    assert forall|j: int| 11 <= j < 19 implies line[j] != ' ' by {
        lemma_timestamp_chars(t, j);
    }
    lemma_find_char_none(line, ' ', 11, 19);
    assert(ts.subrange(0, 10) =~= date_text(t));
    assert(ts.subrange(11, 19) =~= time_text(t));
    assert(line.subrange(0, 10) =~= ts.subrange(0, 10));
    assert(line.subrange(11, 19) =~= ts.subrange(11, 19));
}

#[verifier::spinoff_prover]
proof fn lemma_head_part(line: Seq<char>, name: Seq<char>, address: Seq<char>)
    requires
        !contains_text(name + " ("@ + address + ")"@, ": "@),
        !contains_text(address, " ("@),
        line.len() >= 22 + name.len() + address.len() + 5 as int,
        line.subrange(22, 22 + name.len() + address.len() + 5 as int) == name + " ("@ + address
            + "): "@,
    ensures
        find_from(line, ": "@, 22) == Some((22 + name.len() + address.len() + 3) as int),
        device_and_address(line, 22, (22 + name.len() + address.len() + 3) as int) == (name, address),
{
    reveal_strlit(" (");
    reveal_strlit(")");
    reveal_strlit(": ");
    reveal_strlit("): ");
    let head = name + " ("@ + address + ")"@;
    let c: int = 22 + head.len() as int;
    let q: int = 22 + name.len() as int;
    let piece = head + ": "@;
    assert(piece =~= name + " ("@ + address + "): "@);
    crate::text::lemma_piece_chars(line, 22, piece);
    assert forall|i: int| 0 <= i < head.len() implies line[22 + i] == #[trigger] head[i] by {
        assert(piece[i] == head[i]);
    }
    assert(line[c] == piece[head.len() as int]);
    assert(line[c + 1] == piece[head.len() + 1 as int]);
    assert(line[c - 1] == piece[head.len() - 1]);
    assert(line[q] == piece[name.len() as int]);
    assert(line[q + 1] == piece[name.len() + 1 as int]);
    assert forall|i: int| 0 <= i < address.len() implies line[q + 2 + i] == #[trigger] address[i] by {
        assert(line[22 + (name.len() + 2 + i)] == head[name.len() + 2 + i]);
    }
    assert forall|j: int| 22 <= j < c implies !occurs_at(line, ": "@, j) by {
        if occurs_at(line, ": "@, j) {
            crate::text::lemma_occurs_chars(line, ": "@, j);
            assert(": "@[0] == ':' && ": "@[1] == ' ');
            assert(line[j + 0] == ": "@[0]);
            assert(line[j + 1] == ": "@[1]);
            if j + 2 <= c {
                assert(line[22 + (j - 22)] == head[j - 22]);
                assert(line[22 + (j - 21)] == head[j - 21]);
                assert(head.subrange(j - 22, j - 20) =~= ": "@);
                assert(occurs_at(head, ": "@, j - 22));
            }
        }
    }
    assert(line.subrange(c, c + 2) =~= ": "@);
    crate::text::lemma_found_at(line, ": "@, 22, c);
    assert forall|j: int| q < j <= c - 3 implies !occurs_at(line, " ("@, j) by {
        if occurs_at(line, " ("@, j) {
            crate::text::lemma_occurs_chars(line, " ("@, j);
            assert(" ("@[0] == ' ' && " ("@[1] == '(');
            assert(line[j + 0] == " ("@[0]);
            assert(line[j + 1] == " ("@[1]);
            if j > q + 1 {
                assert(line[q + 2 + (j - q - 2)] == address[j - q - 2]);
                assert(line[q + 2 + (j - q - 1)] == address[j - q - 1]);
                assert(address.subrange(j - q - 2, j - q) =~= " ("@);
                assert(occurs_at(address, " ("@, j - q - 2));
            }
        }
    }
    assert(line.subrange(q, q + 2) =~= " ("@);
    crate::text::lemma_found_last(line, " ("@, 22, c - 3, q);
    assert forall|i: int| 0 <= i < name.len() implies line[22 + i] == #[trigger] name[i] by {
        assert(head[i] == name[i]);
    }
    assert(line.subrange(22, q) =~= name);
    assert(line.subrange(q + 2, c - 1) =~= address);
}

/// One `Key: value` field followed by the separator or the end of the line.
#[verifier::spinoff_prover]
proof fn lemma_one_field(line: Seq<char>, at: int, key: Seq<char>, value: Seq<char>, last: bool)
    requires
        0 <= at,
        key.len() >= 1,
        status_word(value) || bandwidth_word(value),
        forall|i: int| 0 <= i < key.len() ==> key[i] != ',',
        ({
            let piece = key + " "@ + value + if last {
                Seq::<char>::empty()
            } else {
                ", "@
            };
            &&& at + piece.len() <= line.len()
            &&& last ==> at + piece.len() == line.len()
            &&& line.subrange(at, at + piece.len()) == piece
        }),
    ensures
        ({
            let end = at + key.len() + 1 + value.len();
            &&& line.subrange(at, at + key.len()) == key
            &&& line.subrange(at + key.len(), end) == " "@ + value
            &&& trim(line.subrange(at + key.len(), end)) == value
            &&& last ==> find_from(line, ", "@, at) is None && end == line.len()
            &&& !last ==> find_from(line, ", "@, at) == Some(end) && end + 2 <= line.len()
        }),
{
    reveal_strlit(", ");
    reveal_strlit(" ");
    lemma_word_shape(value);
    let piece = key + " "@ + value + if last {
        Seq::<char>::empty()
    } else {
        ", "@
    };
    let end = at + key.len() + 1 + value.len();
    crate::text::lemma_piece_chars(line, at, piece);
    assert forall|i: int| 0 <= i < key.len() implies line[at + i] == #[trigger] key[i] by {
        assert(piece[i] == key[i]);
    }
    crate::text::lemma_piece_from_chars(line, at, key);
    assert forall|i: int| 0 <= i < value.len() + 1 implies line[at + key.len() + i] == #[trigger] (" "@ + value)[i] by {
        assert(piece[key.len() + i] == (" "@ + value)[i]);
        assert(line[at + (key.len() + i)] == piece[key.len() + i]);
    }
    crate::text::lemma_piece_from_chars(line, at + key.len(), " "@ + value);
    lemma_trim_padded(value);
    assert forall|j: int| at <= j < end implies line[j] != ',' by {
        assert(line[at + (j - at)] == piece[j - at]);
        if j - at >= key.len() + 1 {
            assert(piece[j - at] == value[j - at - key.len() - 1]);
        } else if j - at < key.len() {
            assert(piece[j - at] == key[j - at]);
        }
    }
    crate::text::lemma_no_start(line, ", "@, at, end);
    if last {
        crate::text::lemma_not_found(line, ", "@, at);
    } else {
        assert(line[at + (end - at)] == piece[end - at]);
        assert(line[at + (end - at + 1)] == piece[end - at + 1]);
        assert(line.subrange(end, end + 2) =~= ", "@);
        crate::text::lemma_found_at(line, ", "@, at, end);
    }
}

/// From `s1` on, `line` holds `Ping: P, HTTP: H, Bandwidth: B` to its end.
#[verifier::spinoff_prover]
proof fn lemma_fields_part(line: Seq<char>, s1: int, p: Seq<char>, http: Seq<char>, bandwidth: Seq<char>)
    requires
        0 <= s1 <= line.len(),
        status_word(p),
        status_word(http),
        bandwidth_word(bandwidth),
        line.subrange(s1, line.len() as int) == "Ping: "@ + p + ", HTTP: "@ + http + ", Bandwidth: "@
            + bandwidth,
    ensures
        field_value(line, "Ping:"@, s1, Seq::empty()) == p,
        field_value(line, "HTTP:"@, s1, Seq::empty()) == http,
        field_value(line, "Bandwidth:"@, s1, Seq::empty()) == bandwidth,
{
    reveal_strlit(", ");
    reveal_strlit("Ping: ");
    reveal_strlit(", HTTP: ");
    reveal_strlit(", Bandwidth: ");
    reveal_strlit("Ping:");
    reveal_strlit("HTTP:");
    reveal_strlit("Bandwidth:");
    reveal_strlit(" ");
    let k1 = "Ping:"@;
    let k2 = "HTTP:"@;
    let k3 = "Bandwidth:"@;
    let f1 = k1 + " "@ + p + ", "@;
    let f2 = k2 + " "@ + http + ", "@;
    let f3 = k3 + " "@ + bandwidth + Seq::<char>::empty();
    let s2 = s1 + f1.len();
    let s3 = s2 + f2.len();
    let rest = line.subrange(s1, line.len() as int);
    assert(rest =~= f1 + f2 + f3);
    crate::text::lemma_split(f1 + f2, f3);
    crate::text::lemma_split(f1, f2);
    crate::text::lemma_sub_sub(line, s1, line.len() as int, 0, f1.len() as int);
    crate::text::lemma_sub_sub(line, s1, line.len() as int, f1.len() as int, (f1.len() + f2.len()) as int);
    crate::text::lemma_sub_sub(line, s1, line.len() as int, (f1.len() + f2.len()) as int, rest.len() as int);
    assert((f1 + f2 + f3).subrange(0, f1.len() as int) =~= f1);
    assert((f1 + f2 + f3).subrange(f1.len() as int, (f1.len() + f2.len()) as int) =~= f2);
    lemma_one_field(line, s1, k1, p, false);
    lemma_one_field(line, s2, k2, http, false);
    lemma_one_field(line, s3, k3, bandwidth, true);
    let e = Seq::<char>::empty();
    assert(line.subrange(s1, s1 + 5)[0] == 'P');
    assert(line.subrange(s2, s2 + 5)[0] == 'H');
    assert(line.subrange(s3, s3 + 10)[0] == 'B');
    assert(line.subrange(s1, s1 + 10)[0] == line[s1]);
    assert(line.subrange(s2, s2 + 10)[0] == line[s2]);
    assert(line.subrange(s3, s3 + 5)[0] == line[s3]);
    assert(line.subrange(s1, s1 + 5)[0] == line[s1]);
    assert(line.subrange(s2, s2 + 5)[0] == line[s2]);
    assert(line.subrange(s3, s3 + 10)[0] == line[s3]);
    assert(field_value(line, k1, s3, p) == p);
    assert(field_value(line, k1, s2, p) == p);
    assert(field_value(line, k1, s1, e) == p);
    assert(field_value(line, k2, s3, http) == http);
    assert(field_value(line, k2, s2, e) == http);
    assert(field_value(line, k2, s1, e) == http);
    assert(field_value(line, k3, s3, e) == bandwidth);
    assert(field_value(line, k3, s2, e) == bandwidth);
    assert(field_value(line, k3, s1, e) == bandwidth);
}

/// A line written for a device reads back into what was written: timestamp,
/// date and time, name, address and the three statuses, and the device reads
/// as down exactly when its ping status is FAIL. The name and address must
/// keep the line's separators unambiguous: no `: ` in `NAME (ADDRESS)` and
/// no ` (` in the address.
#[verifier::rlimit(60)]
#[verifier::spinoff_prover]
pub proof fn lemma_entry_round_trip(
    t: Timestamp,
    name: Seq<char>,
    address: Seq<char>,
    ping: Option<bool>,
    http: Seq<char>,
    bandwidth: Seq<char>,
)
    requires
        t.wf(),
        !contains_text(name + " ("@ + address + ")"@, ": "@),
        !contains_text(address, " ("@),
        status_word(http),
        bandwidth_word(bandwidth),
    ensures
        parse_line(log_line(t, name, address, ping_label(ping), http, bandwidth)) == Some(
            EntryText {
                timestamp: timestamp_text(t),
                date: date_text(t),
                time: time_text(t),
                device: name,
                address,
                ping: ping_label(ping),
                http,
                bandwidth,
                down: ping == Some(false),
            },
        ),
{
    reveal_strlit(" - ");
    reveal_strlit(" (");
    reveal_strlit("): Ping: ");
    reveal_strlit("): ");
    reveal_strlit("Ping: ");
    reveal_strlit(", HTTP: ");
    reveal_strlit(", Bandwidth: ");
    reveal_strlit("OK");
    reveal_strlit("FAIL");
    reveal_strlit("N/A");
    let p = ping_label(ping);
    assert(status_word(p));
    let ts = timestamp_text(t);
    lemma_timestamp_chars(t, 0);
    let line = log_line(t, name, address, p, http, bandwidth);
    let head = name + " ("@ + address + "): "@;
    let tail = "Ping: "@ + p + ", HTTP: "@ + http + ", Bandwidth: "@ + bandwidth;
    lemma_line_shape(t, name, address, p, http, bandwidth);
    assert(line == ts + " - "@ + head + tail);
    let c: int = 22 + head.len() - 2;
    crate::text::lemma_split(ts + " - "@ + head, tail);
    crate::text::lemma_split(ts + " - "@, head);
    crate::text::lemma_split(ts, " - "@);
    crate::text::lemma_sub_sub(line, 0, c + 2, 0, 22);
    crate::text::lemma_sub_sub(line, 0, c + 2, 22, c + 2);
    crate::text::lemma_sub_sub(line, 0, 22, 0, 19);
    crate::text::lemma_sub_sub(line, 0, 22, 19, 22);
    lemma_timestamp_part(t, line);
    lemma_head_part(line, name, address);
    lemma_fields_part(line, c + 2, p, http, bandwidth);
    assert(reads_fail(p) == (ping == Some(false)));
}

proof fn lemma_line_shape(
    t: Timestamp,
    name: Seq<char>,
    address: Seq<char>,
    p: Seq<char>,
    http: Seq<char>,
    bandwidth: Seq<char>,
)
    ensures
        log_line(t, name, address, p, http, bandwidth) == timestamp_text(t) + " - "@ + (name + " ("@
            + address + "): "@) + ("Ping: "@ + p + ", HTTP: "@ + http + ", Bandwidth: "@
            + bandwidth),
        timestamp_text(t).len() == 19,
{
    reveal_strlit("): Ping: ");
    reveal_strlit("): ");
    reveal_strlit("Ping: ");
    lemma_timestamp_chars(t, 0);
    assert(log_line(t, name, address, p, http, bandwidth) =~= timestamp_text(t) + " - "@ + (name
        + " ("@ + address + "): "@) + ("Ping: "@ + p + ", HTTP: "@ + http + ", Bandwidth: "@
        + bandwidth));
}

proof fn lemma_find_char_from(s: Seq<char>, c: char, k: int, at: int, hi: int)
    requires
        k <= at < hi,
        at < s.len(),
        s[at] == c,
        forall|j: int| k <= j < at ==> s[j] != c,
    ensures
        find_char(s, c, k, hi) == at,
    decreases at - k,
{
    if k < at {
        lemma_find_char_from(s, c, k + 1, at, hi);
    }
}

proof fn lemma_find_char_none(s: Seq<char>, c: char, k: int, hi: int)
    requires
        k <= hi,
        forall|j: int| k <= j < hi ==> s[j] != c,
    ensures
        find_char(s, c, k, hi) == hi,
    decreases hi - k,
{
    if k < hi {
        lemma_find_char_none(s, c, k + 1, hi);
    }
}

} // verus!
