//! Export of journal lines: a date range and a device filter select lines,
//! which are handed out as they are or as CSV rows.

use vstd::prelude::*;
use vstd::string::*;
use chrono::Datelike;
use crate::journal::{parse_line, parse_log_line};
use crate::text::{
    contains_str, contains_text, find, find_char, find_char_in, find_from, lemma_find_from,
    to_chars, trim, trim_bounds,
};

verus! {

/// A calendar date as year, month and day.
pub type Ymd = (i32, u32, u32);

/// What chrono reads from `s` as a `%Y-%m-%d` date.
pub uninterp spec fn parsed_date(s: Seq<char>) -> Option<Ymd>;

/// Relies on `chrono::NaiveDate::parse_from_str` with the format `%Y-%m-%d`,
/// and on `Datelike`: the month lies in 1..=12 and the day in 1..=31.
#[verifier::external_body]
fn parse_date(s: &str) -> (r: Option<Ymd>)
    ensures
        r == parsed_date(s@),
        r matches Some(d) ==> 1 <= d.1 <= 12 && 1 <= d.2 <= 31,
{
    match chrono::NaiveDate::parse_from_str(s, "%Y-%m-%d") {
        Ok(d) => Some((d.year(), d.month(), d.day())),
        Err(_) => None,
    }
}

/// What `str::to_lowercase` makes of `s`.
pub uninterp spec fn lower_of(s: Seq<char>) -> Seq<char>;

/// Relies on `str::to_lowercase`: the result depends on the characters
/// alone, and an empty text stays empty.
#[verifier::external_body]
fn lowercase(s: &str) -> (r: String)
    ensures
        r@ == lower_of(s@),
        s@.len() == 0 ==> r@.len() == 0,
{
    s.to_lowercase()
}

pub open spec fn date_before(a: Ymd, b: Ymd) -> bool {
    a.0 < b.0 || (a.0 == b.0 && (a.1 < b.1 || (a.1 == b.1 && a.2 < b.2)))
}

/// A date lies within the bounds given.
pub open spec fn in_range(d: Ymd, start: Option<Ymd>, end: Option<Ymd>) -> bool {
    !(start matches Some(s) && date_before(d, s)) && !(end matches Some(e) && date_before(e, d))
}

pub fn date_before_of(a: Ymd, b: Ymd) -> (r: bool)
    ensures
        r == date_before(a, b),
{
    a.0 < b.0 || (a.0 == b.0 && (a.1 < b.1 || (a.1 == b.1 && a.2 < b.2)))
}

pub fn in_range_of(d: Ymd, start: Option<Ymd>, end: Option<Ymd>) -> (r: bool)
    ensures
        r == in_range(d, start, end),
{
    let after_start = match start {
        Some(s) => !date_before_of(d, s),
        None => true,
    };
    let before_end = match end {
        Some(e) => !date_before_of(e, d),
        None => true,
    };
    after_start && before_end
}

/// The date of a journal timestamp: its first ten characters read as a date.
pub open spec fn stamp_date(ts: Seq<char>) -> Option<Ymd> {
    if ts.len() >= 10 {
        parsed_date(ts.subrange(0, 10))
    } else {
        None
    }
}

pub fn line_date(ts: &str) -> (r: Option<Ymd>)
    ensures
        r == stamp_date(ts@),
{
    if ts.unicode_len() >= 10 {
        parse_date(ts.substring_char(0, 10))
    } else {
        None
    }
}

/// The pieces of `s` from `pos` on, cut at each `c`.
pub open spec fn pieces_from(s: Seq<char>, c: char, pos: int) -> Seq<Seq<char>>
    decreases s.len() + 1 - pos,
{
    if pos < 0 || pos > s.len() {
        Seq::empty()
    } else {
        let k = find_char(s, c, pos, s.len() as int);
        if pos <= k < s.len() {
            seq![s.subrange(pos, k)] + pieces_from(s, c, k + 1)
        } else {
            seq![s.subrange(pos, s.len() as int)]
        }
    }
}

pub open spec fn pieces(s: Seq<char>, c: char) -> Seq<Seq<char>> {
    pieces_from(s, c, 0)
}

pub open spec fn views(v: Seq<String>) -> Seq<Seq<char>> {
    v.map_values(|x: String| x@)
}

/// The pieces of `s` cut at each `c`.
pub fn split_char(s: &str, c: char) -> (r: Vec<String>)
    ensures
        views(r@) == pieces(s@, c),
{
    let v = to_chars(s);
    let n = v.len();
    let mut out: Vec<String> = Vec::new();
    let mut pos: usize = 0;
    loop
        invariant
            v@ == s@,
            n == v@.len(),
            pos <= n,
            views(out@) + pieces_from(s@, c, pos as int) == pieces(s@, c),
        decreases n + 1 - pos,
    {
        let k = find_char_in(&v, c, pos, n);
        let ghost before = views(out@);
        out.push(String::from_str(s.substring_char(pos, k)));
        assert(views(out@) =~= before.push(s@.subrange(pos as int, k as int)));
        if k < n {
            assert(before + pieces_from(s@, c, pos as int) =~= views(out@) + pieces_from(s@, c, k + 1));
            pos = k + 1;
        } else {
            assert(before + pieces_from(s@, c, pos as int) =~= views(out@));
            return out;
        }
    }
}

fn trimmed(s: &str) -> (r: String)
    ensures
        r@ == trim(s@),
{
    let v = to_chars(s);
    let (a, b) = trim_bounds(&v, 0, v.len());
    assert(s@.subrange(0, v@.len() as int) =~= s@);
    String::from_str(s.substring_char(a, b))
}

/// The device filter: the comma-separated names or addresses, trimmed and
/// in lower case.
pub open spec fn filter_terms(spec: Seq<char>) -> Seq<Seq<char>> {
    pieces(spec, ',').map_values(|p: Seq<char>| lower_of(trim(p)))
}

pub fn device_filters(spec: &str) -> (r: Vec<String>)
    ensures
        views(r@) == filter_terms(spec@),
{
    let parts = split_char(spec, ',');
    let mut out: Vec<String> = Vec::new();
    let mut i: usize = 0;
    while i < parts.len()
        invariant
            i <= parts@.len(),
            views(parts@) == pieces(spec@, ','),
            views(out@) == views(parts@).subrange(0, i as int).map_values(|p: Seq<char>| lower_of(trim(p))),
        decreases parts@.len() - i,
    {
        let t = trimmed(parts[i].as_str());
        let ghost before = views(out@);
        out.push(lowercase(t.as_str()));
        assert(views(parts@)[i as int] == parts@[i as int]@);
        assert(views(out@) =~= before.push(lower_of(trim(parts@[i as int]@))));
        assert(views(parts@).subrange(0, i + 1) =~= views(parts@).subrange(0, i as int).push(parts@[i as int]@));
        assert(views(out@) =~= views(parts@).subrange(0, i + 1).map_values(|p: Seq<char>| lower_of(trim(p))));
        i += 1;
    }
    assert(views(parts@).subrange(0, parts@.len() as int) =~= views(parts@));
    out
}

pub open spec fn is_header(l: Seq<char>) -> bool {
    l.len() >= 2 && l[0] == '/' && l[1] == '/'
}

/// An entry line cut at its first ` - ` into timestamp and the rest.
pub open spec fn stamp_and_rest(l: Seq<char>) -> Option<(Seq<char>, Seq<char>)> {
    match find_from(l, " - "@, 0) {
        Some(i) => Some((l.subrange(0, i), l.subrange(i + 3, l.len() as int))),
        None => None,
    }
}

/// Some term occurs in the name or in the address.
pub open spec fn matches_terms(name: Seq<char>, ip: Seq<char>, terms: Seq<Seq<char>>) -> bool {
    exists|k: int|
        0 <= k < terms.len() && (contains_text(name, #[trigger] terms[k]) || contains_text(ip, terms[k]))
}

/// An export keeps date headers, and journal entries whose date (when it
/// reads as one) lies in range and whose device name or address, in lower
/// case, holds one of the filter terms (when there is a filter).
pub open spec fn export_keeps(
    l: Seq<char>,
    terms: Option<Seq<Seq<char>>>,
    start: Option<Ymd>,
    end: Option<Ymd>,
) -> bool {
    if is_header(l) {
        true
    } else {
        match parse_line(l) {
            None => false,
            Some(e) => {
                &&& match stamp_date(e.timestamp) {
                    Some(d) => in_range(d, start, end),
                    None => true,
                }
                &&& match terms {
                    None => true,
                    Some(t) => matches_terms(lower_of(e.device), lower_of(e.address), t),
                }
            },
        }
    }
}

fn stamp_and_rest_of(line: &str) -> (r: Option<(String, String)>)
    ensures
        r matches Some(x) ==> stamp_and_rest(line@) == Some((x.0@, x.1@)),
        r is None ==> stamp_and_rest(line@) is None,
{
    proof {
        reveal_strlit(" - ");
    }
    let v = to_chars(line);
    let dash = to_chars(" - ");
    match find(&v, &dash, 0) {
        Some(i) => {
            proof {
                lemma_find_from(v@, dash@, 0);
            }
            let n = v.len();
            assert(i + 3 <= n);
            let after = i + 3;
            Some((String::from_str(line.substring_char(0, i)), String::from_str(line.substring_char(after, n))))
        },
        None => None,
    }
}

fn is_header_of(line: &str) -> (r: bool)
    ensures
        r == is_header(line@),
{
    line.unicode_len() >= 2 && line.get_char(0) == '/' && line.get_char(1) == '/'
}

fn matches_terms_of(name: &str, ip: &str, terms: &Vec<String>) -> (r: bool)
    ensures
        r == matches_terms(name@, ip@, views(terms@)),
{
    let mut k: usize = 0;
    while k < terms.len()
        invariant
            k <= terms@.len(),
            forall|j: int|
                0 <= j < k ==> !(contains_text(name@, #[trigger] views(terms@)[j]) || contains_text(ip@, views(terms@)[j])),
        decreases terms@.len() - k,
    {
        if contains_str(name, terms[k].as_str()) || contains_str(ip, terms[k].as_str()) {
            assert(views(terms@)[k as int] == terms@[k as int]@);
            return true;
        }
        assert(views(terms@)[k as int] == terms@[k as int]@);
        k += 1;
    }
    false
}

/// Whether an export keeps `line`.
pub fn export_keeps_line(line: &str, terms: Option<&Vec<String>>, start: Option<Ymd>, end: Option<Ymd>) -> (r: bool)
    ensures
        r == export_keeps(
            line@,
            match terms {
                Some(t) => Some(views(t@)),
                None => None,
            },
            start,
            end,
        ),
{
    if is_header_of(line) {
        return true;
    }
    let e = match parse_log_line(line) {
        Some(e) => e,
        None => return false,
    };
    let dated = match line_date(e.timestamp.as_str()) {
        Some(d) => in_range_of(d, start, end),
        None => true,
    };
    if !dated {
        return false;
    }
    match terms {
        None => true,
        Some(t) => {
            let name = lowercase(e.device.as_str());
            let ip = lowercase(e.address.as_str());
            matches_terms_of(name.as_str(), ip.as_str(), t)
        },
    }
}

/// A field of a CSV row: N/A where the entry has none.
pub open spec fn or_na(s: Seq<char>) -> Seq<char> {
    if s.len() == 0 {
        "N/A"@
    } else {
        s
    }
}

/// `Timestamp,Device Name,IP Address,Ping,HTTP,Bandwidth` for a journal entry.
pub open spec fn csv_row(l: Seq<char>) -> Option<Seq<char>> {
    match parse_line(l) {
        None => None,
        Some(e) => Some(
            e.timestamp + ","@ + e.device + ","@ + e.address + ","@ + or_na(e.ping) + ","@ + or_na(
                e.http,
            ) + ","@ + or_na(e.bandwidth),
        ),
    }
}

fn push_field(out: &mut String, s: &String)
    ensures
        final(out)@ == old(out)@ + ","@ + or_na(s@),
{
    out.append(",");
    if s.as_str().is_empty() {
        out.append("N/A");
    } else {
        out.append(s.as_str());
    }
}

pub fn csv_row_of(line: &str) -> (r: Option<String>)
    ensures
        r matches Some(x) ==> csv_row(line@) == Some(x@),
        r is None ==> csv_row(line@) is None,
{
    let e = match parse_log_line(line) {
        Some(e) => e,
        None => return None,
    };
    let mut out = String::new();
    out.append(e.timestamp.as_str());
    out.append(",");
    out.append(e.device.as_str());
    out.append(",");
    out.append(e.address.as_str());
    push_field(&mut out, &e.ping);
    push_field(&mut out, &e.http);
    push_field(&mut out, &e.bandwidth);
    Some(out)
}

/// Lines joined with newlines between them.
pub open spec fn join_lines(ls: Seq<Seq<char>>) -> Seq<char>
    decreases ls.len(),
{
    if ls.len() == 0 {
        Seq::empty()
    } else if ls.len() == 1 {
        ls[0]
    } else {
        join_lines(ls.drop_last()) + "\n"@ + ls.last()
    }
}

/// The CSV rows of the entry lines among `ls`, in order.
pub open spec fn csv_rows(ls: Seq<Seq<char>>) -> Seq<Seq<char>>
    decreases ls.len(),
{
    if ls.len() == 0 {
        Seq::empty()
    } else {
        match csv_row(ls.last()) {
            Some(r) => csv_rows(ls.drop_last()).push(r),
            None => csv_rows(ls.drop_last()),
        }
    }
}

pub open spec fn opt_view(o: Option<&str>) -> Option<Seq<char>> {
    match o {
        Some(s) => Some(s@),
        None => None,
    }
}

/// A bound given as text: no bound unless it reads as a date.
pub open spec fn bound(o: Option<Seq<char>>) -> Option<Ymd> {
    match o {
        Some(s) => parsed_date(s),
        None => None,
    }
}

pub open spec fn csv_header() -> Seq<char> {
    "Timestamp,Device Name,IP Address,Ping,HTTP,Bandwidth"@
}

/// The export of `lines`: the kept lines as they are, or as CSV under a
/// header row when the format reads `csv` in any case.
pub open spec fn export_text(
    lines: Seq<Seq<char>>,
    devices: Option<Seq<char>>,
    start_date: Option<Seq<char>>,
    end_date: Option<Seq<char>>,
    format: Option<Seq<char>>,
) -> Seq<char> {
    let terms = match devices {
        Some(d) => Some(filter_terms(d)),
        None => None,
    };
    let kept = lines.filter(|l: Seq<char>| export_keeps(l, terms, bound(start_date), bound(end_date)));
    if format matches Some(f) && lower_of(f) == "csv"@ {
        join_lines(seq![csv_header()] + csv_rows(kept))
    } else {
        join_lines(kept)
    }
}

fn push_line(out: &mut String, first: bool, line: &str)
    ensures
        final(out)@ == (if first {
            old(out)@ + line@
        } else {
            old(out)@ + "\n"@ + line@
        }),
{
    if !first {
        out.append("\n");
    }
    out.append(line);
}

/// Exports journal lines, filtered by an optional comma-separated list of
/// device names or addresses and an optional date range, as text or CSV.
pub fn export_log(
    lines: &Vec<String>,
    devices: Option<&str>,
    start_date: Option<&str>,
    end_date: Option<&str>,
    format: Option<&str>,
) -> (r: String)
    ensures
        r@ == export_text(views(lines@), opt_view(devices), opt_view(start_date), opt_view(end_date), opt_view(format)),
{
    let start = match start_date {
        Some(s) => parse_date(s),
        None => None,
    };
    let end = match end_date {
        Some(s) => parse_date(s),
        None => None,
    };
    let terms = match devices {
        Some(d) => Some(device_filters(d)),
        None => None,
    };
    let ghost tv = match &terms {
        Some(t) => Some(views(t@)),
        None => None::<Seq<Seq<char>>>,
    };
    let ghost pred = |l: Seq<char>| export_keeps(l, tv, start, end);
    let csv = match format {
        Some(f) => {
            let lf = lowercase(f);
            crate::text::same_text(lf.as_str(), "csv")
        },
        None => false,
    };
    let mut out = String::new();
    if csv {
        out.append("Timestamp,Device Name,IP Address,Ping,HTTP,Bandwidth");
    }
    let ghost all = views(lines@);
    let mut any = false;
    let mut i: usize = 0;
    while i < lines.len()
        invariant
            i <= lines@.len(),
            all == views(lines@),
            tv == (match &terms {
                Some(t) => Some(views(t@)),
                None => None::<Seq<Seq<char>>>,
            }),
            pred == (|l: Seq<char>| export_keeps(l, tv, start, end)),
            csv ==> out@ == join_lines(seq![csv_header()] + csv_rows(all.subrange(0, i as int).filter(pred))),
            !csv ==> out@ == join_lines(all.subrange(0, i as int).filter(pred)),
            !csv ==> (any <==> all.subrange(0, i as int).filter(pred).len() > 0),
        decreases lines@.len() - i,
    {
        let ghost done = all.subrange(0, i as int);
        let line = lines[i].as_str();
        assert(all.subrange(0, i + 1) =~= done.push(line@));
        proof {
            done.lemma_filter_push(line@, pred);
        }
        let keep = match &terms {
            Some(t) => export_keeps_line(line, Some(t), start, end),
            None => export_keeps_line(line, None, start, end),
        };
        if keep {
            if csv {
                let ghost rows = csv_rows(done.filter(pred));
                assert(done.filter(pred).push(line@).drop_last() =~= done.filter(pred));
                match csv_row_of(line) {
                    Some(row) => {
                        let ghost before = out@;
                        out.append("\n");
                        out.append(row.as_str());
                        assert((seq![csv_header()] + rows.push(row@)).drop_last() =~= seq![csv_header()] + rows);
                        assert(out@ =~= before + "\n"@ + row@);
                    },
                    None => {},
                }
            } else {
                let ghost before = done.filter(pred);
                push_line(&mut out, !any, line);
                assert(before.push(line@).drop_last() =~= before);
                proof {
                    if before.len() == 0 {
                        assert(out@ =~= line@);
                    }
                }
                any = true;
            }
        }
        i += 1;
    }
    assert(all.subrange(0, lines@.len() as int) =~= all);
    out
}

/// Entry lines whose date reads as one and lies in range; the others go.
pub open spec fn dated_in_range(l: Seq<char>, start: Option<Ymd>, end: Option<Ymd>) -> bool {
    match stamp_and_rest(l) {
        Some((ts, rest)) => match stamp_date(ts) {
            Some(d) => in_range(d, start, end),
            None => false,
        },
        None => false,
    }
}

/// The entry lines of `lines` dated within the bounds given.
pub fn process_logs(lines: &Vec<String>, start: Option<Ymd>, end: Option<Ymd>) -> (r: Vec<String>)
    ensures
        views(r@) == views(lines@).filter(|l: Seq<char>| dated_in_range(l, start, end)),
{
    let ghost all = views(lines@);
    let ghost pred = |l: Seq<char>| dated_in_range(l, start, end);
    let mut out: Vec<String> = Vec::new();
    let mut i: usize = 0;
    while i < lines.len()
        invariant
            i <= lines@.len(),
            all == views(lines@),
            pred == (|l: Seq<char>| dated_in_range(l, start, end)),
            views(out@) == all.subrange(0, i as int).filter(pred),
        decreases lines@.len() - i,
    {
        let ghost done = all.subrange(0, i as int);
        let line = lines[i].as_str();
        assert(all.subrange(0, i + 1) =~= done.push(line@));
        proof {
            done.lemma_filter_push(line@, pred);
        }
        let keep = match stamp_and_rest_of(line) {
            Some((ts, rest)) => match line_date(ts.as_str()) {
                Some(d) => in_range_of(d, start, end),
                None => false,
            },
            None => false,
        };
        if keep {
            let ghost before = views(out@);
            out.push(lines[i].clone());
            assert(views(out@) =~= before.push(line@));
        }
        i += 1;
    }
    assert(all.subrange(0, lines@.len() as int) =~= all);
    out
}

} // verus!
