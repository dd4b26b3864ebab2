//! Daily report files: their names, the list of saved reports, newest first,
//! and which reports fall out of the retention window.

use vstd::prelude::*;
use crate::platform::days_before_date;
use crate::text::{
    concat_text, decimal, decimal_text, has_suffix, is_digit, pad2, pad2_text, pad4, pad4_text,
    reverse_texts, sort_texts, sorted_asc, sorted_desc, strip_suffix_text, text_lt, views,
};

verus! {

/// A report's file name: its date stamp and `.json`.
pub open spec fn report_file_name_of(date: Seq<char>) -> Seq<char> {
    date + ".json"@
}

pub fn report_file_name(date: &str) -> (r: String)
    ensures
        r@ == report_file_name_of(date@),
{
    concat_text(date, ".json")
}

/// The stems of the names among `ns` that end in `.json`, in order.
pub open spec fn json_stems(ns: Seq<Seq<char>>) -> Seq<Seq<char>>
    decreases ns.len(),
{
    if ns.len() == 0 {
        seq![]
    } else {
        let rest = json_stems(ns.drop_last());
        let n = ns.last();
        if has_suffix(n, ".json"@) {
            rest.push(n.take(n.len() - ".json"@.len()))
        } else {
            rest
        }
    }
}

/// An ascending list read backwards is descending.
pub proof fn lemma_sorted_reverse(s: Seq<Seq<char>>)
    requires
        sorted_asc(s),
    ensures
        sorted_desc(s.reverse()),
{
    assert forall|i: int, j: int| 0 <= i < j < s.reverse().len() implies !text_lt(
        #[trigger] s.reverse()[i],
        #[trigger] s.reverse()[j],
    ) by {
        assert(s.reverse()[i] == s[s.len() - 1 - i]);
        assert(s.reverse()[j] == s[s.len() - 1 - j]);
    }
}

/// The dates of the saved reports, newest first, from the names of the files
/// in the reports folder: each name ending in `.json`, without it.
pub fn list_reports(names: Vec<String>) -> (r: Vec<String>)
    ensures
        sorted_desc(views(r@)),
        views(r@).to_multiset() == json_stems(views(names@)).to_multiset(),
{
    let mut stems: Vec<String> = Vec::new();
    let mut i: usize = 0;
    proof {
        assert(views(names@).take(0) =~= Seq::<Seq<char>>::empty());
        assert(views(stems@) =~= json_stems(views(names@).take(0)));
    }
    while i < names.len()
        invariant
            i <= names@.len(),
            views(stems@) == json_stems(views(names@).take(i as int)),
        decreases names@.len() - i,
    {
        proof {
            let t = views(names@).take(i + 1);
            assert(t.drop_last() =~= views(names@).take(i as int));
            assert(t.last() == names@[i as int]@);
        }
        match strip_suffix_text(names[i].as_str(), ".json") {
            Some(stem) => {
                let ghost before = stems@;
                stems.push(stem);
                proof {
                    assert(views(stems@) =~= views(before).push(stem@));
                }
            },
            None => {},
        }
        i = i + 1;
    }
    proof {
        assert(views(names@).take(i as int) =~= views(names@));
    }
    let sorted = sort_texts(stems);
    let r = reverse_texts(sorted);
    proof {
        lemma_sorted_reverse(views(sorted@));
        views(sorted@).lemma_reverse_to_multiset();
    }
    r
}

/// A `YYYY-MM-DD` date stamp: ten characters, digits but for the dashes at
/// positions 4 and 7.
pub open spec fn is_date_stamp(s: Seq<char>) -> bool {
    &&& s.len() == 10
    &&& s[4] == '-'
    &&& s[7] == '-'
    &&& forall|k: int| 0 <= k < 10 && k != 4 && k != 7 ==> is_digit(#[trigger] s[k])
}

pub fn is_date_stamp_text(s: &str) -> (r: bool)
    ensures
        r == is_date_stamp(s@),
{
    if s.unicode_len() != 10 {
        return false;
    }
    let mut k: usize = 0;
    while k < 10
        invariant
            s@.len() == 10,
            k <= 10,
            forall|j: int| 0 <= j < k && j != 4 && j != 7 ==> is_digit(#[trigger] s@[j]),
            k > 4 ==> s@[4] == '-',
            k > 7 ==> s@[7] == '-',
        decreases 10 - k,
    {
        let c = s.get_char(k);
        if k == 4 || k == 7 {
            if c != '-' {
                return false;
            }
        } else {
            let n = c as u32;
            if n < 48 || n > 57 {
                return false;
            }
        }
        k = k + 1;
    }
    true
}

/// The year as chrono's `%Y` prints it: four digits, zero-padded, with a sign
/// outside 0..=9999.
pub open spec fn year_text(y: int) -> Seq<char> {
    if 0 <= y <= 9999 {
        pad4(y as nat)
    } else if y > 9999 {
        "+"@ + decimal(y as nat)
    } else {
        "-"@ + pad4((-y) as nat)
    }
}

/// The `%Y-%m-%d` stamp of a date.
pub open spec fn date_stamp_of(y: int, m: nat, d: nat) -> Seq<char> {
    year_text(y) + "-"@ + pad2(m) + "-"@ + pad2(d)
}

pub fn date_stamp(y: i32, m: u32, d: u32) -> (r: String)
    requires
        -262144 <= y <= 262143,
        1 <= m <= 12,
        1 <= d <= 31,
    ensures
        r@ == date_stamp_of(y as int, m as nat, d as nat),
{
    let year = if 0 <= y && y <= 9999 {
        pad4_text(y as u32)
    } else if y > 9999 {
        concat_text("+", decimal_text(y as u32).as_str())
    } else {
        concat_text("-", pad4_text((-y) as u32).as_str())
    };
    let a = concat_text(year.as_str(), "-");
    let b = concat_text(a.as_str(), pad2_text(m).as_str());
    let c = concat_text(b.as_str(), "-");
    let r = concat_text(c.as_str(), pad2_text(d).as_str());
    proof {
        assert(r@ =~= date_stamp_of(y as int, m as nat, d as nat));
    }
    r
}

/// The file name today's report is saved under (local date). The date is the
/// clock's; what is stated is the shape of the name.
pub fn today_report_name() -> (r: String)
    ensures
        exists|y: int, m: nat, d: nat|
            1 <= m <= 12 && 1 <= d <= 31 && r@ == report_file_name_of(#[trigger] date_stamp_of(y, m, d)),
{
    let (y, m, d) = crate::platform::date_parts(crate::platform::today_local());
    report_file_name(date_stamp(y, m, d).as_str())
}

/// The stems among `stems` that are date stamps before `cutoff`, in order.
pub open spec fn expired(stems: Seq<Seq<char>>, cutoff: Seq<char>) -> Seq<Seq<char>>
    decreases stems.len(),
{
    if stems.len() == 0 {
        seq![]
    } else {
        let rest = expired(stems.drop_last(), cutoff);
        let s = stems.last();
        if is_date_stamp(s) && text_lt(s, cutoff) {
            rest.push(s)
        } else {
            rest
        }
    }
}

/// The reports to delete when keeping those dated `cutoff` or later: every
/// date-stamped one before it. Names that are not date stamps are kept.
pub fn expired_reports(stems: &Vec<String>, cutoff: &str) -> (r: Vec<String>)
    ensures
        views(r@) == expired(views(stems@), cutoff@),
{
    let mut out: Vec<String> = Vec::new();
    let mut i: usize = 0;
    proof {
        assert(views(stems@).take(0) =~= Seq::<Seq<char>>::empty());
        assert(views(out@) =~= expired(views(stems@).take(0), cutoff@));
    }
    while i < stems.len()
        invariant
            i <= stems@.len(),
            views(out@) == expired(views(stems@).take(i as int), cutoff@),
        decreases stems@.len() - i,
    {
        proof {
            let t = views(stems@).take(i + 1);
            assert(t.drop_last() =~= views(stems@).take(i as int));
            assert(t.last() == stems@[i as int]@);
        }
        if is_date_stamp_text(stems[i].as_str()) && crate::text::less_text(stems[i].as_str(), cutoff) {
            let ghost before = out@;
            out.push(stems[i].clone());
            proof {
                assert(views(out@) =~= views(before).push(stems@[i as int]@));
            }
        }
        i = i + 1;
    }
    proof {
        assert(views(stems@).take(i as int) =~= views(stems@));
    }
    out
}

/// How many days before today the oldest kept report is dated: `keep_days`
/// days of history are today and the days before it; a `keep_days` of 0
/// keeps today's.
pub open spec fn days_back(keep_days: u32) -> int {
    if keep_days == 0 {
        0
    } else {
        keep_days - 1
    }
}

/// The reports to delete so that `keep_days` days of history remain (today
/// and the days before it). Reads the clock: today's date is the clock's, so
/// what is stated is that the result is `expired` of the stems for the
/// cutoff `days_back(keep_days)` days before some calendar date, and nothing
/// when that cutoff is out of chrono's range.
pub fn prune(keep_days: u32, stems: &Vec<String>) -> (r: Vec<String>)
    ensures
        forall|i: int| 0 <= i < r@.len() ==> views(stems@).contains(#[trigger] r@[i]@) && is_date_stamp(r@[i]@),
        exists|y: int, m: int, d: int|
            -262144 <= y <= 262143 && 1 <= m <= 12 && 1 <= d <= 31 && match #[trigger] days_before_date(
                y,
                m,
                d,
                days_back(keep_days),
            ) {
                Some(c) => views(r@) == expired(views(stems@), date_stamp_of(c.0, c.1 as nat, c.2 as nat)),
                None => r@.len() == 0,
            },
{
    let back = if keep_days == 0 {
        0
    } else {
        keep_days - 1
    };
    let (ty, tm, td) = crate::platform::date_parts(crate::platform::today_local());
    match crate::platform::date_days_before(ty, tm, td, back) {
        Some((y, m, d)) => {
            let cutoff = date_stamp(y, m, d);
            let r = expired_reports(stems, cutoff.as_str());
            proof {
                lemma_expired_within(views(stems@), cutoff@);
                assert forall|i: int| 0 <= i < r@.len() implies views(stems@).contains(#[trigger] r@[i]@)
                    && is_date_stamp(r@[i]@) by {
                    assert(views(r@)[i] == r@[i]@);
                }
                assert(days_before_date(ty as int, tm as int, td as int, days_back(keep_days)) == Some(
                    (y as int, m as int, d as int),
                ));
            }
            r
        },
        None => {
            proof {
                assert(days_before_date(ty as int, tm as int, td as int, days_back(keep_days)) is None);
            }
            Vec::new()
        },
    }
}


/// What `expired` picks are date-stamped stems of the list, each before the
/// cutoff.
pub proof fn lemma_expired_within(stems: Seq<Seq<char>>, cutoff: Seq<char>)
    ensures
        forall|i: int|
            0 <= i < expired(stems, cutoff).len() ==> stems.contains(#[trigger] expired(stems, cutoff)[i])
                && is_date_stamp(expired(stems, cutoff)[i]) && text_lt(expired(stems, cutoff)[i], cutoff),
    decreases stems.len(),
{
    if stems.len() > 0 {
        lemma_expired_within(stems.drop_last(), cutoff);
        let e = expired(stems, cutoff);
        let rest = expired(stems.drop_last(), cutoff);
        assert forall|i: int| 0 <= i < e.len() implies stems.contains(#[trigger] e[i]) && is_date_stamp(e[i])
            && text_lt(e[i], cutoff) by {
            if i < rest.len() {
                assert(e[i] == rest[i]);
                let k = choose|k: int| 0 <= k < stems.drop_last().len() && stems.drop_last()[k] == rest[i];
                assert(stems[k] == rest[i]);
            } else {
                assert(stems[stems.len() - 1] == e[i]);
            }
        }
    }
}

} // verus!
