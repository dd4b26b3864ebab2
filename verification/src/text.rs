//! Character-level text handling: trimming, line splitting, number parsing
//! and decimal rendering, each stated over `Seq<char>`.

use vstd::prelude::*;

verus! {

/// Unicode `White_Space`, the set that `char::is_whitespace` and `str::trim` use.
pub open spec fn is_ws(c: char) -> bool {
    let n = c as u32;
    ||| n == 0x20
    ||| (0x09 <= n && n <= 0x0d)
    ||| n == 0x85
    ||| n == 0xa0
    ||| n == 0x1680
    ||| (0x2000 <= n && n <= 0x200a)
    ||| n == 0x2028
    ||| n == 0x2029
    ||| n == 0x202f
    ||| n == 0x205f
    ||| n == 0x3000
}

pub fn is_ws_char(c: char) -> (r: bool)
    ensures
        r == is_ws(c),
{
    let n = c as u32;
    n == 0x20 || (0x09 <= n && n <= 0x0d) || n == 0x85 || n == 0xa0 || n == 0x1680 || (0x2000
        <= n && n <= 0x200a) || n == 0x2028 || n == 0x2029 || n == 0x202f || n == 0x205f || n
        == 0x3000
}

/// `s` without its leading whitespace.
pub open spec fn trim_start(s: Seq<char>) -> Seq<char>
    decreases s.len(),
{
    if s.len() > 0 && is_ws(s[0]) {
        trim_start(s.drop_first())
    } else {
        s
    }
}

/// `s` without its trailing whitespace.
pub open spec fn trim_end(s: Seq<char>) -> Seq<char>
    decreases s.len(),
{
    if s.len() > 0 && is_ws(s.last()) {
        trim_end(s.drop_last())
    } else {
        s
    }
}

/// `s` without leading and trailing whitespace, as `str::trim` gives it.
pub open spec fn trim(s: Seq<char>) -> Seq<char> {
    trim_end(trim_start(s))
}

/// Leading whitespace skipped by hand does not change what `trim_start` gives.
pub proof fn lemma_trim_start_skip(s: Seq<char>, i: int)
    requires
        0 <= i <= s.len(),
        forall|k: int| 0 <= k < i ==> is_ws(#[trigger] s[k]),
    ensures
        trim_start(s) == trim_start(s.skip(i)),
    decreases i,
{
    if i > 0 {
        assert(is_ws(s[0]));
        assert(s.drop_first().skip(i - 1) =~= s.skip(i));
        assert forall|k: int| 0 <= k < i - 1 implies is_ws(#[trigger] s.drop_first()[k]) by {
            assert(s.drop_first()[k] == s[k + 1]);
        }
        lemma_trim_start_skip(s.drop_first(), i - 1);
    } else {
        assert(s.skip(0) =~= s);
    }
}

/// Trailing whitespace cut by hand does not change what `trim_end` gives.
pub proof fn lemma_trim_end_take(s: Seq<char>, j: int)
    requires
        0 <= j <= s.len(),
        forall|k: int| j <= k < s.len() ==> is_ws(#[trigger] s[k]),
    ensures
        trim_end(s) == trim_end(s.take(j)),
    decreases s.len() - j,
{
    if j < s.len() {
        assert(is_ws(s[s.len() - 1]));
        assert(s.drop_last().take(j) =~= s.take(j));
        lemma_trim_end_take(s.drop_last(), j);
    } else {
        assert(s.take(j) =~= s);
    }
}

/// Copies `s[from..to]` into a new `String`.
pub fn slice_text(s: &str, from: usize, to: usize) -> (r: String)
    requires
        from <= to <= s@.len(),
    ensures
        r@ == s@.subrange(from as int, to as int),
{
    String::from_str(s.substring_char(from, to))
}

/// The text of `s` with leading and trailing whitespace removed.
pub fn trim_text(s: &str) -> (r: String)
    ensures
        r@ == trim(s@),
{
    let n = s.unicode_len();
    let mut i: usize = 0;
    while i < n && is_ws_char(s.get_char(i))
        invariant
            n == s@.len(),
            i <= n,
            forall|k: int| 0 <= k < i ==> is_ws(#[trigger] s@[k]),
        decreases n - i,
    {
        i = i + 1;
    }
    let ghost t = s@.skip(i as int);
    proof {
        lemma_trim_start_skip(s@, i as int);
        assert(trim_start(t) == t);
    }
    let mut j: usize = n;
    while j > i && is_ws_char(s.get_char(j - 1))
        invariant
            n == s@.len(),
            i <= j <= n,
            t == s@.skip(i as int),
            forall|k: int| j <= k < n ==> is_ws(#[trigger] s@[k]),
        decreases j,
    {
        j = j - 1;
    }
    proof {
        assert forall|k: int| (j - i) <= k < t.len() implies is_ws(#[trigger] t[k]) by {
            assert(t[k] == s@[k + i]);
        }
        lemma_trim_end_take(t, (j - i) as int);
        let u = t.take((j - i) as int);
        assert(u =~= s@.subrange(i as int, j as int));
        if u.len() > 0 {
            assert(u.last() == s@[j - 1]);
        }
        assert(trim_end(u) == u);
    }
    slice_text(s, i, j)
}

/// Index of the first line feed in `s`, or `s.len()` when there is none.
pub open spec fn nl_index(s: Seq<char>) -> nat
    decreases s.len(),
{
    if s.len() == 0 {
        0
    } else if s[0] == '\n' {
        0
    } else {
        1 + nl_index(s.drop_first())
    }
}

/// `nl_index` is the position of the first line feed, or the length.
pub proof fn lemma_nl_index(s: Seq<char>)
    ensures
        nl_index(s) <= s.len(),
        nl_index(s) < s.len() ==> s[nl_index(s) as int] == '\n',
        forall|k: int| 0 <= k < nl_index(s) ==> s[k] != '\n',
    decreases s.len(),
{
    if s.len() > 0 && s[0] != '\n' {
        lemma_nl_index(s.drop_first());
        assert forall|k: int| 0 <= k < nl_index(s) implies s[k] != '\n' by {
            if k > 0 {
                assert(s[k] == s.drop_first()[k - 1]);
            }
        }
    }
}

/// A position before which there is no line feed, and at which there is one
/// (or the end), is `nl_index`.
pub proof fn lemma_nl_index_is(s: Seq<char>, m: int)
    requires
        0 <= m <= s.len(),
        forall|k: int| 0 <= k < m ==> s[k] != '\n',
        m < s.len() ==> s[m] == '\n',
    ensures
        nl_index(s) == m,
    decreases m,
{
    if m > 0 {
        assert(s[0] != '\n');
        assert forall|k: int| 0 <= k < m - 1 implies s.drop_first()[k] != '\n' by {
            assert(s.drop_first()[k] == s[k + 1]);
        }
        lemma_nl_index_is(s.drop_first(), m - 1);
    }
}

/// A line without the carriage return of a `\r\n` ending.
pub open spec fn strip_cr(s: Seq<char>) -> Seq<char> {
    if s.len() > 0 && s.last() == '\r' {
        s.drop_last()
    } else {
        s
    }
}

/// The lines of `s`, as `str::lines` yields them: split at `\n`, a `\r`
/// right before a `\n` dropped, and no empty line after a final `\n`.
pub open spec fn lines(s: Seq<char>) -> Seq<Seq<char>>
    decreases s.len(),
{
    if s.len() == 0 {
        seq![]
    } else if nl_index(s) >= s.len() {
        seq![s]
    } else {
        seq![strip_cr(s.take(nl_index(s) as int))] + lines(s.skip(nl_index(s) as int + 1))
    }
}

pub open spec fn views(v: Seq<String>) -> Seq<Seq<char>> {
    v.map_values(|x: String| x@)
}

/// The lines of `s`, each as its own `String`.
pub fn split_lines(s: &str) -> (r: Vec<String>)
    ensures
        views(r@) == lines(s@),
{
    let n = s.unicode_len();
    let mut out: Vec<String> = Vec::new();
    let mut start: usize = 0;
    let mut i: usize = 0;
    proof {
        assert(s@.skip(0) =~= s@);
        assert(views(out@) + lines(s@) =~= lines(s@));
    }
    while i < n
        invariant
            n == s@.len(),
            start <= i <= n,
            forall|k: int| start <= k < i ==> s@[k] != '\n',
            lines(s@) == views(out@) + lines(s@.skip(start as int)),
        decreases n - i,
    {
        if s.get_char(i) == '\n' {
            let ghost t = s@.skip(start as int);
            proof {
                assert forall|k: int| 0 <= k < i - start implies t[k] != '\n' by {
                    assert(t[k] == s@[k + start]);
                }
                lemma_nl_index_is(t, (i - start) as int);
                assert(t.skip(i - start + 1) =~= s@.skip(i + 1));
                assert(t.take(i - start) =~= s@.subrange(start as int, i as int));
            }
            let piece = if i > start && s.get_char(i - 1) == '\r' {
                slice_text(s, start, i - 1)
            } else {
                slice_text(s, start, i)
            };
            proof {
                let u = s@.subrange(start as int, i as int);
                if u.len() > 0 {
                    assert(u.last() == s@[i - 1]);
                    assert(u.drop_last() =~= s@.subrange(start as int, i - 1));
                }
                assert(piece@ == strip_cr(u));
            }
            let ghost before = out@;
            out.push(piece);
            proof {
                assert(out@ =~= before.push(piece));
                assert(views(out@) =~= views(before) + seq![piece@]);
            }
            start = i + 1;
        }
        i = i + 1;
    }
    if start < n {
        let piece = slice_text(s, start, n);
        let ghost t = s@.skip(start as int);
        proof {
            assert forall|k: int| 0 <= k < t.len() implies t[k] != '\n' by {
                assert(t[k] == s@[k + start]);
            }
            lemma_nl_index_is(t, t.len() as int);
            assert(t =~= s@.subrange(start as int, n as int));
        }
        let ghost before = out@;
        out.push(piece);
        proof {
            assert(out@ =~= before.push(piece));
            assert(views(out@) =~= views(before) + seq![piece@]);
        }
    } else {
        proof {
            assert(s@.skip(start as int) =~= Seq::<char>::empty());
            assert(views(out@) + Seq::<Seq<char>>::empty() =~= views(out@));
        }
    }
    out
}

/// Index of the first `c` in `s`, or `s.len()` when there is none.
pub open spec fn first_index(s: Seq<char>, c: char) -> nat
    decreases s.len(),
{
    if s.len() == 0 {
        0
    } else if s[0] == c {
        0
    } else {
        1 + first_index(s.drop_first(), c)
    }
}

/// A position before which `c` does not occur, and at which it does (or the
/// end), is `first_index`.
pub proof fn lemma_first_index_is(s: Seq<char>, c: char, m: int)
    requires
        0 <= m <= s.len(),
        forall|k: int| 0 <= k < m ==> s[k] != c,
        m < s.len() ==> s[m] == c,
    ensures
        first_index(s, c) == m,
    decreases m,
{
    if m > 0 {
        assert(s[0] != c);
        assert forall|k: int| 0 <= k < m - 1 implies s.drop_first()[k] != c by {
            assert(s.drop_first()[k] == s[k + 1]);
        }
        lemma_first_index_is(s.drop_first(), c, m - 1);
    }
}

/// `s` split at its first `c`: the text before it and the text after it, or
/// all of `s` and nothing when `c` does not occur (`splitn(2, c)`).
pub open spec fn split_once(s: Seq<char>, c: char) -> (Seq<char>, Seq<char>) {
    let p = first_index(s, c);
    if p < s.len() {
        (s.take(p as int), s.skip(p as int + 1))
    } else {
        (s, Seq::empty())
    }
}

pub fn split_once_text(s: &str, c: char) -> (r: (String, String))
    ensures
        (r.0@, r.1@) == split_once(s@, c),
{
    let n = s.unicode_len();
    let mut i: usize = 0;
    while i < n && s.get_char(i) != c
        invariant
            n == s@.len(),
            i <= n,
            forall|k: int| 0 <= k < i ==> s@[k] != c,
        decreases n - i,
    {
        i = i + 1;
    }
    proof {
        lemma_first_index_is(s@, c, i as int);
    }
    if i < n {
        let r = (slice_text(s, 0, i), slice_text(s, i + 1, n));
        proof {
            assert(r.0@ =~= s@.take(i as int));
            assert(r.1@ =~= s@.skip(i + 1));
        }
        r
    } else {
        let r = (slice_text(s, 0, n), String::new());
        proof {
            assert(r.0@ =~= s@);
        }
        r
    }
}

/// Length of the run of non-whitespace characters at the start of `s`.
pub open spec fn word_len(s: Seq<char>) -> nat
    decreases s.len(),
{
    if s.len() > 0 && !is_ws(s[0]) {
        1 + word_len(s.drop_first())
    } else {
        0
    }
}

/// A run of non-whitespace ended by whitespace (or the end) is `word_len` long.
pub proof fn lemma_word_len_is(s: Seq<char>, m: int)
    requires
        0 <= m <= s.len(),
        forall|k: int| 0 <= k < m ==> !is_ws(#[trigger] s[k]),
        m < s.len() ==> is_ws(s[m]),
    ensures
        word_len(s) == m,
    decreases m,
{
    if m > 0 {
        assert(!is_ws(s[0]));
        assert forall|k: int| 0 <= k < m - 1 implies !is_ws(#[trigger] s.drop_first()[k]) by {
            assert(s.drop_first()[k] == s[k + 1]);
        }
        lemma_word_len_is(s.drop_first(), m - 1);
    }
}

/// The first whitespace-separated field of `s`, if there is one
/// (the first item that `str::split_whitespace` yields).
pub open spec fn first_word(s: Seq<char>) -> Option<Seq<char>> {
    let t = trim_start(s);
    if t.len() == 0 {
        None
    } else {
        Some(t.take(word_len(t) as int))
    }
}

/// What follows the first whitespace-separated field of `s`.
pub open spec fn after_first_word(s: Seq<char>) -> Seq<char> {
    let t = trim_start(s);
    t.skip(word_len(t) as int)
}

/// First field of `s[from..]`, as (start, end) indices into `s`; `None` when
/// only whitespace is left.
pub fn next_word(s: &str, from: usize) -> (r: Option<(usize, usize)>)
    requires
        from <= s@.len(),
    ensures
        match r {
            None => first_word(s@.skip(from as int)) is None,
            Some((a, b)) => {
                &&& from <= a <= b <= s@.len()
                &&& first_word(s@.skip(from as int)) == Some(s@.subrange(a as int, b as int))
                &&& after_first_word(s@.skip(from as int)) == s@.skip(b as int)
            },
        },
{
    let n = s.unicode_len();
    let ghost u = s@.skip(from as int);
    let mut i: usize = from;
    while i < n && is_ws_char(s.get_char(i))
        invariant
            n == s@.len(),
            from <= i <= n,
            u == s@.skip(from as int),
            forall|k: int| from <= k < i ==> is_ws(#[trigger] s@[k]),
        decreases n - i,
    {
        i = i + 1;
    }
    proof {
        assert forall|k: int| 0 <= k < i - from implies is_ws(#[trigger] u[k]) by {
            assert(u[k] == s@[k + from]);
        }
        lemma_trim_start_skip(u, (i - from) as int);
        assert(u.skip(i - from) =~= s@.skip(i as int));
        if i < n {
            assert(s@.skip(i as int)[0] == s@[i as int]);
        }
        assert(trim_start(s@.skip(i as int)) == s@.skip(i as int));
    }
    if i == n {
        return None;
    }
    let mut j: usize = i;
    while j < n && !is_ws_char(s.get_char(j))
        invariant
            n == s@.len(),
            i <= j <= n,
            forall|k: int| i <= k < j ==> !is_ws(#[trigger] s@[k]),
        decreases n - j,
    {
        j = j + 1;
    }
    proof {
        let t = s@.skip(i as int);
        assert forall|k: int| 0 <= k < j - i implies !is_ws(#[trigger] t[k]) by {
            assert(t[k] == s@[k + i]);
        }
        if j < n {
            assert(t[j - i] == s@[j as int]);
        }
        lemma_word_len_is(t, (j - i) as int);
        assert(t.take(j - i) =~= s@.subrange(i as int, j as int));
        assert(t.skip(j - i) =~= s@.skip(j as int));
    }
    Some((i, j))
}

pub open spec fn is_digit(c: char) -> bool {
    48 <= (c as u32) && (c as u32) <= 57
}

/// The number that a run of decimal digits denotes.
pub open spec fn digits_value(d: Seq<char>) -> nat
    decreases d.len(),
{
    if d.len() == 0 {
        0
    } else {
        digits_value(d.drop_last()) * 10 + ((d.last() as u32) - 48) as nat
    }
}

pub open spec fn all_digits(d: Seq<char>) -> bool {
    forall|k: int| 0 <= k < d.len() ==> is_digit(#[trigger] d[k])
}

/// What `str::parse::<u32>` gives: an optional `+`, then one or more ASCII
/// digits whose value fits in a `u32`.
pub open spec fn parse_u32(s: Seq<char>) -> Option<u32> {
    let d = if s.len() > 0 && s[0] == '+' {
        s.drop_first()
    } else {
        s
    };
    if d.len() > 0 && all_digits(d) && digits_value(d) <= u32::MAX {
        Some(digits_value(d) as u32)
    } else {
        None
    }
}

/// A prefix of a digit string has a value no larger than the whole.
pub proof fn lemma_digits_value_grows(d: Seq<char>, k: int)
    requires
        0 <= k <= d.len(),
        all_digits(d),
    ensures
        digits_value(d.take(k)) <= digits_value(d),
    decreases d.len() - k,
{
    if k < d.len() {
        assert(d.drop_last().take(k) =~= d.take(k));
        assert forall|m: int| 0 <= m < d.drop_last().len() implies is_digit(
            #[trigger] d.drop_last()[m],
        ) by {
            assert(d.drop_last()[m] == d[m]);
        }
        lemma_digits_value_grows(d.drop_last(), k);
    } else {
        assert(d.take(k) =~= d);
    }
}

/// Parses `s[from..to]` the way `str::parse::<u32>` does.
pub fn parse_u32_text(s: &str, from: usize, to: usize) -> (r: Option<u32>)
    requires
        from <= to <= s@.len(),
    ensures
        r == parse_u32(s@.subrange(from as int, to as int)),
{
    let ghost w = s@.subrange(from as int, to as int);
    let mut i = from;
    if from < to && s.get_char(from) == '+' {
        i = from + 1;
    }
    let ghost d = s@.subrange(i as int, to as int);
    proof {
        if w.len() > 0 && w[0] == '+' {
            assert(d =~= w.drop_first());
        } else {
            assert(d =~= w);
        }
    }
    if i == to {
        return None;
    }
    let mut value: u64 = 0;
    let mut k = i;
    while k < to
        invariant
            i <= k <= to <= s@.len(),
            d == s@.subrange(i as int, to as int),
            d.len() > 0,
            w == s@.subrange(from as int, to as int),
            parse_u32(w) == (if all_digits(d) && digits_value(d) <= u32::MAX {
                Some(digits_value(d) as u32)
            } else {
                None
            }),
            value == digits_value(d.take(k - i)),
            value <= u32::MAX,
            all_digits(d.take(k - i)),
        decreases to - k,
    {
        let c = s.get_char(k);
        let cv = c as u32;
        if cv < 48 || cv > 57 {
            proof {
                assert(d[k - i] == c);
                assert(!all_digits(d));
            }
            return None;
        }
        let next = value * 10 + (cv - 48) as u64;
        proof {
            let p = d.take(k + 1 - i);
            assert(p.drop_last() =~= d.take(k - i));
            assert(p.last() == c);
            assert forall|m: int| 0 <= m < p.len() implies is_digit(#[trigger] p[m]) by {
                if m < k - i {
                    assert(p[m] == d.take(k - i)[m]);
                }
            }
        }
        if next > 0xffff_ffff {
            proof {
                let p = d.take(k + 1 - i);
                if all_digits(d) {
                    lemma_digits_value_grows(d, k + 1 - i);
                }
            }
            return None;
        }
        value = next;
        k = k + 1;
    }
    proof {
        assert(d.take(to - i) =~= d);
    }
    Some(value as u32)
}

/// The character of a decimal digit `d` (0 to 9).
pub open spec fn digit_char(d: nat) -> char {
    (48 + d) as char
}

/// The decimal numeral of `n`, without sign or leading zeros.
pub open spec fn decimal(n: nat) -> Seq<char>
    decreases n,
{
    if n < 10 {
        seq![digit_char(n)]
    } else {
        decimal(n / 10).push(digit_char(n % 10))
    }
}

/// `n` in two digits, with a leading zero below ten (`{:02}`).
pub open spec fn pad2(n: nat) -> Seq<char> {
    if n < 10 {
        seq!['0', digit_char(n)]
    } else {
        decimal(n)
    }
}

fn digit_text(d: u32) -> (r: &'static str)
    requires
        d < 10,
    ensures
        r@ == seq![digit_char(d as nat)],
{
    let digits = "0123456789";
    proof {
        reveal_strlit("0123456789");
        assert(digits@[d as int] == digit_char(d as nat));
    }
    let r = digits.substring_char(d as usize, d as usize + 1);
    proof {
        assert(digits@.subrange(d as int, d + 1) =~= seq![digits@[d as int]]);
    }
    r
}

/// The decimal numeral of `n` (what `n.to_string()` gives).
pub fn decimal_text(n: u32) -> (r: String)
    ensures
        r@ == decimal(n as nat),
    decreases n,
{
    if n < 10 {
        String::from_str(digit_text(n))
    } else {
        let mut r = decimal_text(n / 10);
        r.append(digit_text(n % 10));
        r
    }
}

/// `n` in two digits (`{:02}`).
pub fn pad2_text(n: u32) -> (r: String)
    ensures
        r@ == pad2(n as nat),
{
    if n < 10 {
        let mut r = String::from_str(digit_text(0));
        r.append(digit_text(n));
        proof {
            assert(r@ =~= seq!['0', digit_char(n as nat)]);
        }
        r
    } else {
        decimal_text(n)
    }
}

/// Lexicographic order by code point, which is the order of `String`'s `Ord`
/// (UTF-8 byte order and code-point order agree).
pub open spec fn text_lt(a: Seq<char>, b: Seq<char>) -> bool
    decreases a.len(),
{
    if a.len() == 0 {
        b.len() > 0
    } else if b.len() == 0 {
        false
    } else if a[0] != b[0] {
        (a[0] as int) < (b[0] as int)
    } else {
        text_lt(a.drop_first(), b.drop_first())
    }
}

pub open spec fn text_le(a: Seq<char>, b: Seq<char>) -> bool {
    !text_lt(b, a)
}

/// No text comes before itself.
pub proof fn lemma_text_lt_irreflexive(a: Seq<char>)
    ensures
        !text_lt(a, a),
    decreases a.len(),
{
    if a.len() > 0 {
        lemma_text_lt_irreflexive(a.drop_first());
    }
}

/// Of two texts, at most one comes before the other.
pub proof fn lemma_text_lt_asym(a: Seq<char>, b: Seq<char>)
    ensures
        !(text_lt(a, b) && text_lt(b, a)),
    decreases a.len(),
{
    if a.len() > 0 && b.len() > 0 && a[0] == b[0] {
        lemma_text_lt_asym(a.drop_first(), b.drop_first());
    }
}

/// Text order is transitive.
pub proof fn lemma_text_lt_trans(a: Seq<char>, b: Seq<char>, c: Seq<char>)
    requires
        text_lt(a, b),
        text_lt(b, c),
    ensures
        text_lt(a, c),
    decreases a.len(),
{
    if a.len() > 0 && b.len() > 0 && c.len() > 0 && a[0] == b[0] && b[0] == c[0] {
        lemma_text_lt_trans(a.drop_first(), b.drop_first(), c.drop_first());
    }
}

/// Of two different texts, one comes before the other.
pub proof fn lemma_text_lt_total(a: Seq<char>, b: Seq<char>)
    requires
        a != b,
    ensures
        text_lt(a, b) || text_lt(b, a),
    decreases a.len(),
{
    if a.len() > 0 && b.len() > 0 && a[0] == b[0] {
        if a.drop_first() == b.drop_first() {
            assert(a =~= seq![a[0]] + a.drop_first());
            assert(b =~= seq![b[0]] + b.drop_first());
            assert(false);
        } else {
            lemma_text_lt_total(a.drop_first(), b.drop_first());
        }
    } else if a.len() == 0 && b.len() == 0 {
        assert(a =~= b);
    } else if a.len() > 0 && b.len() > 0 {
        assert((a[0] as int) != (b[0] as int));
    }
}

/// Whether `a` sorts before `b`.
pub fn less_text(a: &str, b: &str) -> (r: bool)
    ensures
        r == text_lt(a@, b@),
{
    let na = a.unicode_len();
    let nb = b.unicode_len();
    let mut i: usize = 0;
    proof {
        assert(a@.skip(0) =~= a@);
        assert(b@.skip(0) =~= b@);
    }
    while i < na && i < nb && a.get_char(i) == b.get_char(i)
        invariant
            na == a@.len(),
            nb == b@.len(),
            i <= na,
            i <= nb,
            text_lt(a@, b@) == text_lt(a@.skip(i as int), b@.skip(i as int)),
        decreases na - i,
    {
        proof {
            let x = a@.skip(i as int);
            let y = b@.skip(i as int);
            assert(x[0] == a@[i as int]);
            assert(y[0] == b@[i as int]);
            assert(x.drop_first() =~= a@.skip(i + 1));
            assert(y.drop_first() =~= b@.skip(i + 1));
        }
        i = i + 1;
    }
    if i == na {
        i < nb
    } else if i == nb {
        false
    } else {
        proof {
            assert(a@.skip(i as int)[0] == a@[i as int]);
            assert(b@.skip(i as int)[0] == b@[i as int]);
        }
        (a.get_char(i) as u32) < (b.get_char(i) as u32)
    }
}

/// Whether `a` and `b` hold the same text.
pub fn same_text(a: &str, b: &str) -> (r: bool)
    ensures
        r == (a@ == b@),
{
    let na = a.unicode_len();
    let nb = b.unicode_len();
    if na != nb {
        return false;
    }
    let mut i: usize = 0;
    while i < na
        invariant
            na == a@.len(),
            nb == b@.len(),
            na == nb,
            i <= na,
            forall|k: int| 0 <= k < i ==> a@[k] == b@[k],
        decreases na - i,
    {
        if a.get_char(i) != b.get_char(i) {
            return false;
        }
        i = i + 1;
    }
    proof {
        assert(a@ =~= b@);
    }
    true
}

/// Whether `s` is in ascending order.
pub open spec fn sorted_asc(s: Seq<Seq<char>>) -> bool {
    forall|i: int, j: int| 0 <= i < j < s.len() ==> !text_lt(#[trigger] s[j], #[trigger] s[i])
}

/// Whether `s` is in descending order.
pub open spec fn sorted_desc(s: Seq<Seq<char>>) -> bool {
    forall|i: int, j: int| 0 <= i < j < s.len() ==> !text_lt(#[trigger] s[i], #[trigger] s[j])
}

/// Where `x` goes in the ascending `s`: after every element it does not sort
/// before.
fn insertion_point(s: &Vec<String>, x: &str) -> (p: usize)
    requires
        sorted_asc(views(s@)),
    ensures
        p <= s@.len(),
        forall|k: int| 0 <= k < p ==> !text_lt(x@, #[trigger] s@[k]@),
        p < s@.len() ==> text_lt(x@, s@[p as int]@),
{
    let mut p: usize = 0;
    while p < s.len() && !less_text(x, s[p].as_str())
        invariant
            p <= s@.len(),
            forall|k: int| 0 <= k < p ==> !text_lt(x@, #[trigger] s@[k]@),
        decreases s@.len() - p,
    {
        p = p + 1;
    }
    p
}

/// The texts of `v` in ascending order (`sort` on a `Vec<String>`).
pub fn sort_texts(v: Vec<String>) -> (r: Vec<String>)
    ensures
        sorted_asc(views(r@)),
        views(r@).to_multiset() == views(v@).to_multiset(),
{
    broadcast use vstd::seq_lib::group_to_multiset_ensures;

    let mut out: Vec<String> = Vec::new();
    let mut i: usize = 0;
    proof {
        assert(views(v@).take(0) =~= views(out@));
    }
    while i < v.len()
        invariant
            i <= v@.len(),
            sorted_asc(views(out@)),
            views(out@).to_multiset() == views(v@).take(i as int).to_multiset(),
        decreases v@.len() - i,
    {
        let x = v[i].clone();
        let p = insertion_point(&out, x.as_str());
        let ghost before = views(out@);
        let ghost xv = x@;
        out.insert(p, x);
        proof {
            assert(views(out@) =~= before.insert(p as int, xv));
            let n = views(out@);
            assert forall|a: int, b: int| 0 <= a < b < n.len() implies !text_lt(
                #[trigger] n[b],
                #[trigger] n[a],
            ) by {
                if a < p && b < p {
                    assert(n[a] == before[a] && n[b] == before[b]);
                } else if a < p && b == p {
                    assert(n[a] == before[a]);
                } else if a < p {
                    assert(n[a] == before[a] && n[b] == before[b - 1]);
                    if text_lt(n[b], n[a]) {
                        lemma_text_lt_asym(xv, before[p as int]);
                        if text_lt(before[b - 1], before[a]) {
                        }
                        assert(!text_lt(before[b - 1], before[p as int]));
                        lemma_text_lt_total_or_eq(before[a], xv);
                        if text_lt(before[a], xv) {
                            lemma_text_lt_trans(before[b - 1], before[a], xv);
                            lemma_text_lt_trans(before[b - 1], xv, before[p as int]);
                        } else {
                            lemma_text_lt_trans(before[b - 1], xv, before[p as int]);
                        }
                    }
                } else if a == p {
                    assert(n[b] == before[b - 1]);
                    if text_lt(before[b - 1], xv) {
                        if b - 1 == p {
                            lemma_text_lt_asym(xv, before[p as int]);
                        } else {
                            lemma_text_lt_trans(before[b - 1], xv, before[p as int]);
                        }
                    }
                } else {
                    assert(n[a] == before[a - 1] && n[b] == before[b - 1]);
                }
            }
            assert(views(v@).take(i + 1) =~= views(v@).take(i as int).push(v@[i as int]@));
            vstd::seq_lib::to_multiset_insert(before, p as int, xv);
            vstd::seq_lib::to_multiset_build(views(v@).take(i as int), v@[i as int]@);
        }
        i = i + 1;
    }
    proof {
        assert(views(v@).take(i as int) =~= views(v@));
    }
    out
}

/// Two texts are equal, or one comes before the other.
pub proof fn lemma_text_lt_total_or_eq(a: Seq<char>, b: Seq<char>)
    ensures
        a == b || text_lt(a, b) || text_lt(b, a),
{
    if a != b {
        lemma_text_lt_total(a, b);
    }
}

/// The texts of `v` in reverse order.
pub fn reverse_texts(v: Vec<String>) -> (r: Vec<String>)
    ensures
        views(r@) == views(v@).reverse(),
{
    let mut v = v;
    let mut out: Vec<String> = Vec::new();
    let ghost orig = views(v@);
    while v.len() > 0
        invariant
            orig.len() == out@.len() + v@.len(),
            views(v@) == orig.take(v@.len() as int),
            views(out@) == orig.reverse().take(out@.len() as int),
        decreases v@.len(),
    {
        let ghost n = v@.len();
        let ghost vb = v@;
        let x = v.pop().unwrap();
        proof {
            assert(views(vb)[n - 1] == vb[n - 1]@);
            assert(orig.take(n as int)[n - 1] == orig[n - 1]);
        }
        let ghost before = views(out@);
        out.push(x);
        proof {
            assert(views(v@) =~= orig.take(v@.len() as int));
            assert(views(out@) =~= before.push(x@));
            assert(x@ == orig[n - 1]);
            assert forall|k: int| 0 <= k < out@.len() implies views(out@)[k] == orig.reverse().take(
                out@.len() as int,
            )[k] by {
                if k < out@.len() - 1 {
                    assert(views(out@)[k] == before[k]);
                } else {
                    assert(orig.reverse()[k] == orig[orig.len() - 1 - k]);
                }
            }
            assert(views(out@) =~= orig.reverse().take(out@.len() as int));
        }
    }
    proof {
        assert(views(out@) =~= orig.reverse());
    }
    out
}

/// `n` in at least four digits, zero-padded (`{:04}`).
pub open spec fn pad4(n: nat) -> Seq<char> {
    if n < 10 {
        "000"@ + decimal(n)
    } else if n < 100 {
        "00"@ + decimal(n)
    } else if n < 1000 {
        "0"@ + decimal(n)
    } else {
        decimal(n)
    }
}

pub fn pad4_text(n: u32) -> (r: String)
    ensures
        r@ == pad4(n as nat),
{
    let d = decimal_text(n);
    if n < 10 {
        concat_text("000", d.as_str())
    } else if n < 100 {
        concat_text("00", d.as_str())
    } else if n < 1000 {
        concat_text("0", d.as_str())
    } else {
        d
    }
}

/// Whether `s` ends with `suffix`.
pub open spec fn has_suffix(s: Seq<char>, suffix: Seq<char>) -> bool {
    s.len() >= suffix.len() && s.skip(s.len() - suffix.len()) == suffix
}

/// `s` without `suffix`, if it ends with it (`str::strip_suffix`).
pub fn strip_suffix_text(s: &str, suffix: &str) -> (r: Option<String>)
    ensures
        r is Some <==> has_suffix(s@, suffix@),
        r matches Some(x) ==> x@ == s@.take(s@.len() - suffix@.len()),
{
    let n = s.unicode_len();
    let m = suffix.unicode_len();
    if n < m {
        return None;
    }
    let tail = s.substring_char(n - m, n);
    if same_text(tail, suffix) {
        Some(slice_text(s, 0, n - m))
    } else {
        None
    }
}

/// `a` followed by `b`.
pub fn concat_text(a: &str, b: &str) -> (r: String)
    ensures
        r@ == a@ + b@,
{
    let mut r = String::from_str(a);
    r.append(b);
    r
}

} // verus!
