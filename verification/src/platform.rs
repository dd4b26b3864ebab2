//! Calls into the environment, the clock and outside crates. Each function
//! here is trusted: its contract is believed, not proved, and says only what
//! the called code documents.

use vstd::prelude::*;
use crate::text::first_index;

verus! {

/// Calls `dirs::document_dir` and renders the path as text. The folder comes
/// from the environment of the running user, so nothing is stated of it.
#[verifier::external_body]
pub(crate) fn document_dir() -> (r: Option<String>) {
    match dirs::document_dir() {
        Some(p) => Some(p.to_string_lossy().into_owned()),
        None => None,
    }
}

/// A single relative path component on every platform: not empty, no `/`,
/// `\\` or `:`, and neither `.` nor `..`.
pub open spec fn is_plain_name(s: Seq<char>) -> bool {
    &&& s.len() > 0
    &&& forall|i: int| 0 <= i < s.len() ==> #[trigger] s[i] != '/' && s[i] != '\\' && s[i] != ':'
    &&& s != "."@
    &&& s != ".."@
}

/// Whether `c` separates path components on some platform.
pub open spec fn is_sep(c: char) -> bool {
    c == '/' || c == '\\'
}

/// Whether `s` may start with a Windows verbatim prefix (`\\?\`): two
/// separators and a `?`.
pub open spec fn verbatim_like(s: Seq<char>) -> bool {
    s.len() >= 3 && is_sep(s[0]) && is_sep(s[1]) && s[2] == '?'
}

/// What may stand between two adjoined paths: nothing or one separator.
pub open spec fn is_joint(s: Seq<char>) -> bool {
    s == Seq::<char>::empty() || s == seq!['/'] || s == seq!['\\']
}

/// `r` is `base`, at most one separator, then `part`.
pub open spec fn adjoined(base: Seq<char>, part: Seq<char>, r: Seq<char>) -> bool {
    ||| r == base + part
    ||| r == base + seq!['/'] + part
    ||| r == base + seq!['\\'] + part
}

/// Calls `std::path::Path::join`, documented under `PathBuf::push`:
/// adjoining a relative path extends the existing one, and only on a base
/// with a verbatim prefix is the joined path normalized. So for a plain name
/// the result ends with `part`, and for a base without a verbatim prefix it is
/// `base`, at most one separator (which one depends on the platform), then
/// `part`. Nothing is stated for other parts, which an absolute path or a
/// prefix may replace.
#[verifier::external_body]
pub(crate) fn join_path(base: &str, part: &str) -> (r: String)
    ensures
        is_plain_name(part@) ==> r@.len() >= part@.len() && r@.skip(r@.len() - part@.len()) == part@,
        is_plain_name(part@) && !verbatim_like(base@) ==> adjoined(base@, part@, r@),
{
    std::path::Path::new(base).join(part).to_string_lossy().into_owned()
}

/// The pieces of `s` between `/` characters.
pub open spec fn slash_pieces(s: Seq<char>) -> Seq<Seq<char>>
    decreases s.len(),
{
    if first_index(s, '/') >= s.len() {
        seq![s]
    } else {
        seq![s.take(first_index(s, '/') as int)] + slash_pieces(s.skip(first_index(s, '/') as int + 1))
    }
}

/// Whether `s` starts at the root: a leading `/`.
pub open spec fn has_root_slash(s: Seq<char>) -> bool {
    s.len() > 0 && s[0] == '/'
}

/// `s` without its leading `/`.
pub open spec fn path_body(s: Seq<char>) -> Seq<char> {
    if has_root_slash(s) {
        s.drop_first()
    } else {
        s
    }
}

/// A path that every platform splits the same way: an optional leading `/`,
/// then plain names (no `\\`, `:`, `.` or `..`) joined by single `/`.
pub open spec fn is_simple_path(s: Seq<char>) -> bool {
    path_body(s).len() == 0 || forall|i: int|
        0 <= i < slash_pieces(path_body(s)).len() ==> is_plain_name(#[trigger] slash_pieces(path_body(s))[i])
}

/// The components of a simple path: `/` for its root if it has one, then its
/// names.
pub open spec fn path_components(s: Seq<char>) -> Seq<Seq<char>> {
    (if has_root_slash(s) {
        seq![seq!['/']]
    } else {
        Seq::empty()
    }) + (if path_body(s).len() == 0 {
        Seq::empty()
    } else {
        slash_pieces(path_body(s))
    })
}

/// Whether the components of `base` are the first components of `path`.
pub open spec fn components_prefix(base: Seq<char>, path: Seq<char>) -> bool {
    let b = path_components(base);
    let p = path_components(path);
    b.len() <= p.len() && p.take(b.len() as int) == b
}

/// Calls `std::path::Path::starts_with`: whether `base` is a prefix of `path`
/// by whole components. How a text splits into components depends on the
/// platform; for simple paths (see `is_simple_path`) it is the same on every
/// one, and the result is whether the components of `base` come first among
/// those of `path`. Nothing is stated for other paths.
#[verifier::external_body]
pub(crate) fn path_starts_with(path: &str, base: &str) -> (r: bool)
    ensures
        is_simple_path(path@) && is_simple_path(base@) ==> r == components_prefix(base@, path@),
{
    std::path::Path::new(path).starts_with(base)
}

/// `path` with the text of `base` and one following `/` taken off: what is
/// left of a simple path below a non-empty simple base.
pub open spec fn rel_of(base: Seq<char>, path: Seq<char>) -> Seq<char> {
    let rest = path.skip(base.len() as int);
    if rest.len() > 0 && rest[0] == '/' {
        rest.drop_first()
    } else {
        rest
    }
}

/// Calls `std::path::Path::strip_prefix`: `path` without its first
/// components, those of `base`, or `None` when `path` does not start with
/// them. For simple paths (see `is_simple_path`) it succeeds exactly when the
/// components of `base` come first among those of `path`, and, below a
/// non-empty base, what is left is the text after the base and its `/`.
/// Nothing is stated for other paths.
#[verifier::external_body]
pub(crate) fn strip_root(base: &str, path: &str) -> (r: Option<String>)
    ensures
        is_simple_path(base@) && is_simple_path(path@) ==> (r is Some <==> components_prefix(base@, path@)),
        is_simple_path(base@) && is_simple_path(path@) && base@.len() > 0 ==> (r matches Some(rel) ==> rel@
            == rel_of(base@, path@)),
{
    match std::path::Path::new(path).strip_prefix(base) {
        Ok(rel) => Some(rel.to_string_lossy().into_owned()),
        Err(_) => None,
    }
}

/// Calls `chrono::Local::now` and renders it with `to_rfc3339`. The value
/// is the clock's, so nothing is stated of it.
#[verifier::external_body]
pub(crate) fn now_rfc3339() -> (r: String) {
    chrono::Local::now().to_rfc3339()
}

#[verifier::external_type_specification]
#[verifier::external_body]
pub struct ExNaiveDate(chrono::NaiveDate);

/// Calls `chrono::Local::now` and takes its local calendar date. The value is
/// the clock's and the machine's time zone's, so nothing is stated of it.
#[verifier::external_body]
pub(crate) fn today_local() -> (r: chrono::NaiveDate) {
    chrono::Local::now().date_naive()
}

/// The calendar date `n` days before the date `y-m-d`, as (year, month,
/// day); `None` when `y-m-d` is no date or the result is out of chrono's
/// range. Named here, not defined: chrono's calendar decides it, from the
/// arguments alone.
pub uninterp spec fn days_before_date(y: int, m: int, d: int, n: int) -> Option<(int, int, int)>;

/// Calls `chrono::NaiveDate::from_ymd_opt` on `y-m-d` and
/// `chrono::NaiveDate::checked_sub_days` on the date it gives, and reads the
/// result back with `chrono::Datelike::{year, month, day}`. The result is
/// `days_before_date` of the arguments; chrono documents a year in
/// -262144..=262143, a month in 1..=12 and a day in 1..=31.
#[verifier::external_body]
pub(crate) fn date_days_before(y: i32, m: u32, d: u32, n: u32) -> (r: Option<(i32, u32, u32)>)
    ensures
        match r {
            Some(t) => days_before_date(y as int, m as int, d as int, n as int) == Some(
                (t.0 as int, t.1 as int, t.2 as int),
            ),
            None => days_before_date(y as int, m as int, d as int, n as int) is None,
        },
        r matches Some(t) ==> -262144 <= t.0 <= 262143 && 1 <= t.1 <= 12 && 1 <= t.2 <= 31,
{
    let date = match chrono::NaiveDate::from_ymd_opt(y, m, d) {
        Some(x) => x.checked_sub_days(chrono::Days::new(n as u64)),
        None => None,
    };
    match date {
        Some(x) => Some((chrono::Datelike::year(&x), chrono::Datelike::month(&x), chrono::Datelike::day(&x))),
        None => None,
    }
}

/// Calls `chrono::Datelike::{year, month, day}` on `d`. chrono documents a
/// year in -262144..=262143, a month in 1..=12 and a day in 1..=31.
#[verifier::external_body]
pub(crate) fn date_parts(d: chrono::NaiveDate) -> (r: (i32, u32, u32))
    ensures
        -262144 <= r.0 <= 262143,
        1 <= r.1 <= 12,
        1 <= r.2 <= 31,
{
    (chrono::Datelike::year(&d), chrono::Datelike::month(&d), chrono::Datelike::day(&d))
}

/// The instant an RFC 3339 text denotes, as whole seconds since the Unix
/// epoch and the nanoseconds past that second (more than 999,999,999 only in a
/// leap second); `None` for text that is not RFC 3339. Named here, not
/// defined: chrono's parser decides it, and it depends on the text alone.
pub uninterp spec fn rfc3339_instant(text: Seq<char>) -> Option<(i64, u32)>;

/// Calls `chrono::DateTime::parse_from_rfc3339` and converts a parsed value
/// with `timestamp` and `timestamp_subsec_nanos`. The result is
/// `rfc3339_instant` of the text.
#[verifier::external_body]
pub(crate) fn parse_rfc3339(text: &str) -> (r: Option<(i64, u32)>)
    ensures
        r == rfc3339_instant(text@),
{
    match chrono::DateTime::parse_from_rfc3339(text) {
        Ok(t) => Some((t.timestamp(), t.timestamp_subsec_nanos())),
        Err(_) => None,
    }
}

/// Calls `chrono::Local::now` and converts it with `timestamp` and
/// `timestamp_subsec_nanos`. The value is the clock's; nothing is stated.
#[verifier::external_body]
pub(crate) fn now_instant() -> (r: (i64, u32)) {
    let now = chrono::Local::now();
    (now.timestamp(), now.timestamp_subsec_nanos())
}

/// Calls `chrono::Local::now` once and returns its local calendar date and
/// its instant in milliseconds. The values are the clock's; nothing is stated.
#[verifier::external_body]
pub(crate) fn now_date_and_millis() -> (r: (chrono::NaiveDate, i64)) {
    let now = chrono::Local::now();
    (now.date_naive(), now.timestamp_millis())
}

/// Calls `chrono::TimeZone::from_local_datetime` on `chrono::Local` for
/// `d` at `hour:minute:00` and, for a unique answer, gives its instant in
/// milliseconds (`timestamp_millis`) with its local time of day read back by
/// `chrono::Timelike::{hour, minute}`. chrono makes that value from the local
/// time it was given (the local time less its offset, with that offset), so
/// the time read back is `hour:minute`. `None` when that local time is
/// skipped or repeated by a time-zone change, or is no valid time. The instant
/// depends on the machine's time zone and is not stated.
#[verifier::external_body]
pub(crate) fn local_instant_millis(d: chrono::NaiveDate, hour: u32, minute: u32) -> (r: Option<(i64, u32, u32)>)
    ensures
        r matches Some(t) ==> t.1 == hour && t.2 == minute,
{
    let local = match d.and_hms_opt(hour, minute, 0) {
        Some(t) => chrono::TimeZone::from_local_datetime(&chrono::Local, &t).single(),
        None => None,
    };
    match local {
        Some(x) => Some((x.timestamp_millis(), chrono::Timelike::hour(&x), chrono::Timelike::minute(&x))),
        None => None,
    }
}

/// Local calendar date and time of day of an instant.
#[derive(Debug, Clone, Copy, PartialEq, Eq, Structural)]
pub struct LocalStamp {
    pub year: i32,
    pub month: u32,
    pub day: u32,
    pub hour: u32,
    pub minute: u32,
}

/// Calls `chrono::TimeZone::timestamp_opt` on `chrono::Local` and takes the
/// calendar fields of a unique answer. chrono documents a month in 1..=12, a
/// day in 1..=31, an hour in 0..=23 and a minute in 0..=59; the rest depends
/// on the machine's time zone.
#[verifier::external_body]
pub(crate) fn local_stamp(secs: i64, nanos: u32) -> (r: Option<LocalStamp>)
    ensures
        r matches Some(l) ==> 1 <= l.month <= 12 && 1 <= l.day <= 31 && l.hour <= 23 && l.minute
            <= 59,
{
    match chrono::TimeZone::timestamp_opt(&chrono::Local, secs, nanos).single() {
        Some(t) => Some(LocalStamp {
            year: chrono::Datelike::year(&t),
            month: chrono::Datelike::month(&t),
            day: chrono::Datelike::day(&t),
            hour: chrono::Timelike::hour(&t),
            minute: chrono::Timelike::minute(&t),
        }),
        None => None,
    }
}

/// The character of a 6-bit value in the standard base64 alphabet:
/// `A`-`Z`, `a`-`z`, `0`-`9`, `+` and `/`.
pub open spec fn base64_char(v: int) -> char {
    if v < 26 {
        (65 + v) as char
    } else if v < 52 {
        (97 + v - 26) as char
    } else if v < 62 {
        (48 + v - 52) as char
    } else if v == 62 {
        '+'
    } else {
        '/'
    }
}

/// The standard base64 encoding of `bytes` (RFC 4648, section 4): each group
/// of three bytes gives four characters of six bits each, and a last group of
/// one or two bytes is padded with `=`.
pub open spec fn base64_standard(bytes: Seq<u8>) -> Seq<char>
    decreases bytes.len(),
{
    if bytes.len() == 0 {
        seq![]
    } else if bytes.len() == 1 {
        seq![base64_char((bytes[0] as int) / 4), base64_char(((bytes[0] as int) % 4) * 16), '=', '=']
    } else if bytes.len() == 2 {
        seq![
            base64_char((bytes[0] as int) / 4),
            base64_char(((bytes[0] as int) % 4) * 16 + (bytes[1] as int) / 16),
            base64_char(((bytes[1] as int) % 16) * 4),
            '=',
        ]
    } else {
        seq![
            base64_char((bytes[0] as int) / 4),
            base64_char(((bytes[0] as int) % 4) * 16 + (bytes[1] as int) / 16),
            base64_char(((bytes[1] as int) % 16) * 4 + (bytes[2] as int) / 64),
            base64_char((bytes[2] as int) % 64),
        ] + base64_standard(bytes.skip(3))
    }
}

/// Calls `base64::Engine::encode` on `base64::engine::general_purpose::STANDARD`
/// (the standard alphabet, with padding). The result is `base64_standard` of
/// the bytes.
#[verifier::external_body]
pub(crate) fn base64_encode(bytes: &[u8]) -> (r: String)
    ensures
        r@ == base64_standard(bytes@),
{
    base64::Engine::encode(&base64::engine::general_purpose::STANDARD, bytes)
}

} // verus!
