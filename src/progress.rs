use vstd::prelude::*;
use vstd::string::*;

verus! {

/// `time=` starts at index `i` of `s`.
pub open spec fn marker_at(s: Seq<char>, i: int) -> bool {
    0 <= i && i + 5 <= s.len() && s[i] == 't' && s[i + 1] == 'i' && s[i + 2] == 'm' && s[i + 3]
        == 'e' && s[i + 4] == '='
}

/// Index of the first `time=` at or after `i`.
pub open spec fn marker_from(s: Seq<char>, i: int) -> Option<int>
    decreases s.len() - i,
{
    if i < 0 || i + 5 > s.len() {
        None
    } else if marker_at(s, i) {
        Some(i)
    } else {
        marker_from(s, i + 1)
    }
}

/// End of the value that starts at `j`: the next space, the next `time=`, or the end.
pub open spec fn value_end_from(s: Seq<char>, j: int) -> int
    decreases s.len() - j,
{
    if j < 0 || j >= s.len() {
        s.len() as int
    } else if s[j] == ' ' || marker_at(s, j) {
        j
    } else {
        value_end_from(s, j + 1)
    }
}

/// Index of the first `c` at or after `j`.
pub open spec fn char_from(s: Seq<char>, c: char, j: int) -> Option<int>
    decreases s.len() - j,
{
    if j < 0 || j >= s.len() {
        None
    } else if s[j] == c {
        Some(j)
    } else {
        char_from(s, c, j + 1)
    }
}

/// The text that follows the first `time=` of a line, up to a space or the next marker.
pub open spec fn time_value(s: Seq<char>) -> Option<Seq<char>> {
    match marker_from(s, 0) {
        Some(i) => Some(s.subrange(i + 5, value_end_from(s, i + 5))),
        None => None,
    }
}

pub open spec fn is_digit(c: char) -> bool {
    '0' <= c && c <= '9'
}

pub open spec fn all_digits(d: Seq<char>) -> bool {
    forall|i: int| 0 <= i < d.len() ==> is_digit(#[trigger] d[i])
}

/// The number a string of decimal digits denotes.
pub open spec fn digits_value(d: Seq<char>) -> nat
    decreases d.len(),
{
    if d.len() == 0 {
        0
    } else {
        digits_value(d.drop_last()) * 10 + ((d.last() as u32 - '0' as u32) as nat)
    }
}

/// A whole number of one or more digits.
pub open spec fn whole_number(d: Seq<char>) -> Option<nat> {
    if d.len() > 0 && all_digits(d) {
        Some(digits_value(d))
    } else {
        None
    }
}

/// Seconds written `SS` or `SS.fraction`, with the fraction dropped.
pub open spec fn whole_seconds(d: Seq<char>) -> Option<nat> {
    match char_from(d, '.', 0) {
        None => whole_number(d),
        Some(p) => if all_digits(d.subrange(p + 1, d.len() as int)) {
            whole_number(d.subrange(0, p))
        } else {
            None
        },
    }
}

/// `HH:MM:SS[.fraction]` in seconds: exactly three parts separated by colons.
pub open spec fn clock_seconds(f: Seq<char>) -> Option<nat> {
    match char_from(f, ':', 0) {
        None => None,
        Some(c1) => match char_from(f, ':', c1 + 1) {
            None => None,
            Some(c2) => if char_from(f, ':', c2 + 1).is_some() {
                None
            } else {
                match (
                    whole_number(f.subrange(0, c1)),
                    whole_number(f.subrange(c1 + 1, c2)),
                    whole_seconds(f.subrange(c2 + 1, f.len() as int)),
                ) {
                    (Some(h), Some(m), Some(sec)) => Some(h * 3600 + m * 60 + sec),
                    _ => None,
                }
            },
        },
    }
}

/// The elapsed time that a transcoder status line reports, in whole seconds.
pub open spec fn line_seconds(s: Seq<char>) -> Option<nat> {
    match time_value(s) {
        Some(f) => clock_seconds(f),
        None => None,
    }
}

/// What `parse_progress` returns: the elapsed seconds where they fit in a `u32`.
pub open spec fn progress_of(s: Seq<char>) -> Option<u32> {
    match line_seconds(s) {
        Some(t) => if t <= u32::MAX {
            Some(t as u32)
        } else {
            None
        },
        None => None,
    }
}

pub(crate) fn chars_of(s: &str) -> (r: Vec<char>)
    ensures
        r@ == s@,
{
    let n = s.unicode_len();
    let mut v: Vec<char> = Vec::new();
    let mut i: usize = 0;
    while i < n
        invariant
            n == s@.len(),
            i <= n,
            v@ == s@.subrange(0, i as int),
        decreases n - i,
    {
        v.push(s.get_char(i));
        i += 1;
        assert(v@ =~= s@.subrange(0, i as int));
    }
    assert(v@ =~= s@);
    v
}

fn find_marker(cs: &Vec<char>) -> (r: Option<usize>)
    ensures
        match r {
            Some(i) => marker_from(cs@, 0) == Some(i as int) && i + 5 <= cs.len(),
            None => marker_from(cs@, 0).is_none(),
        },
{
    let n = cs.len();
    let mut i: usize = 0;
    while n >= 5 && i <= n - 5
        invariant
            n == cs@.len(),
            i <= n,
            marker_from(cs@, 0) == marker_from(cs@, i as int),
        decreases n - i,
    {
        if cs[i] == 't' && cs[i + 1] == 'i' && cs[i + 2] == 'm' && cs[i + 3] == 'e' && cs[i + 4]
            == '=' {
            return Some(i);
        }
        i += 1;
    }
    None
}

fn find_value_end(cs: &Vec<char>, start: usize) -> (r: usize)
    requires
        start <= cs.len(),
    ensures
        r as int == value_end_from(cs@, start as int),
        start <= r <= cs.len(),
{
    let n = cs.len();
    let mut j: usize = start;
    while j < n
        invariant
            n == cs@.len(),
            start <= j <= n,
            value_end_from(cs@, start as int) == value_end_from(cs@, j as int),
        decreases n - j,
    {
        if cs[j] == ' ' || (n - j >= 5 && cs[j] == 't' && cs[j + 1] == 'i' && cs[j + 2] == 'm'
            && cs[j + 3] == 'e' && cs[j + 4] == '=') {
            return j;
        }
        j += 1;
    }
    j
}

/// First index of `c` in `cs[base..to]` at or after `from`, counted from `base`.
fn find_char(cs: &Vec<char>, c: char, base: usize, from: usize, to: usize) -> (r: Option<usize>)
    requires
        base <= from <= to <= cs.len(),
    ensures
        match r {
            Some(p) => char_from(cs@.subrange(base as int, to as int), c, from - base) == Some(
                p as int,
            ) && from <= base + p < to,
            None => char_from(cs@.subrange(base as int, to as int), c, from - base).is_none(),
        },
{
    let ghost f = cs@.subrange(base as int, to as int);
    let mut j: usize = from;
    while j < to
        invariant
            base <= from <= j <= to <= cs.len(),
            f == cs@.subrange(base as int, to as int),
            char_from(f, c, from - base) == char_from(f, c, j - base),
        decreases to - j,
    {
        if cs[j] == c {
            return Some(j - base);
        }
        j += 1;
    }
    None
}

/// Whether every character of `cs[from..to]` is a decimal digit.
fn digits_only(cs: &Vec<char>, from: usize, to: usize) -> (r: bool)
    requires
        from <= to <= cs.len(),
    ensures
        r == all_digits(cs@.subrange(from as int, to as int)),
{
    let mut k: usize = from;
    while k < to
        invariant
            from <= k <= to <= cs.len(),
            forall|i: int| from <= i < k ==> is_digit(#[trigger] cs@[i]),
        decreases to - k,
    {
        if !('0' <= cs[k] && cs[k] <= '9') {
            assert(!is_digit(cs@.subrange(from as int, to as int)[k - from]));
            return false;
        }
        k += 1;
    }
    assert forall|i: int| 0 <= i < to - from implies is_digit(
        #[trigger] cs@.subrange(from as int, to as int)[i],
    ) by {
        assert(cs@.subrange(from as int, to as int)[i] == cs@[from + i]);
    }
    true
}

proof fn lemma_digits_step(d: Seq<char>, k: int)
    requires
        0 <= k < d.len(),
    ensures
        digits_value(d.subrange(0, k + 1)) == digits_value(d.subrange(0, k)) * 10 + ((d[k] as u32
            - '0' as u32) as nat),
{
    assert(d.subrange(0, k + 1).drop_last() =~= d.subrange(0, k));
}

proof fn lemma_digits_grow(d: Seq<char>, k: int)
    requires
        0 <= k <= d.len(),
        all_digits(d),
    ensures
        digits_value(d.subrange(0, k)) <= digits_value(d),
    decreases d.len() - k,
{
    if k < d.len() {
        lemma_digits_step(d, k);
        lemma_digits_grow(d, k + 1);
    } else {
        assert(d.subrange(0, k) =~= d);
    }
}

/// The digits of `cs[from..to]` as a number, where it has one or more digits,
/// all of them decimal, and the number fits in a `u32`.
fn read_number(cs: &Vec<char>, from: usize, to: usize) -> (r: Option<u64>)
    requires
        from <= to <= cs.len(),
    ensures
        match whole_number(cs@.subrange(from as int, to as int)) {
            Some(v) => if v <= u32::MAX {
                r == Some(v as u64)
            } else {
                r.is_none()
            },
            None => r.is_none(),
        },
{
    let ghost d = cs@.subrange(from as int, to as int);
    if from == to {
        return None;
    }
    let mut v: u64 = 0;
    let mut k: usize = from;
    while k < to
        invariant
            from <= k <= to <= cs.len(),
            d == cs@.subrange(from as int, to as int),
            all_digits(d.subrange(0, k - from)),
            v as nat == digits_value(d.subrange(0, k - from)),
            v <= u32::MAX,
        decreases to - k,
    {
        let c = cs[k];
        if !('0' <= c && c <= '9') {
            assert(!is_digit(d[k - from]));
            return None;
        }
        proof {
            lemma_digits_step(d, k - from);
            assert forall|i: int| 0 <= i < k + 1 - from implies is_digit(
                #[trigger] d.subrange(0, k + 1 - from)[i],
            ) by {
                if i < k - from {
                    assert(d.subrange(0, k - from)[i] == d[i]);
                }
            }
        }
        v = v * 10 + (c as u32 - '0' as u32) as u64;
        k += 1;
        if v > u32::MAX as u64 {
            proof {
                if all_digits(d) {
                    lemma_digits_grow(d, k - from);
                }
            }
            return None;
        }
    }
    assert(d.subrange(0, k - from) =~= d);
    Some(v)
}

/// Reads the elapsed time of a transcoder status line such as
/// `frame=10 time=00:01:05.00 bitrate=...`, in whole seconds.
/// A line without a well-formed `time=` value gives `None`.
pub fn parse_progress(line: &str) -> (r: Option<u32>)
    ensures
        r == progress_of(line@),
{
    let cs = chars_of(line);
    let ghost s = cs@;
    let i = match find_marker(&cs) {
        Some(i) => i,
        None => return None,
    };
    let end = find_value_end(&cs, i + 5);
    let b = i + 5;
    let ghost f = s.subrange(b as int, end as int);
    let c1 = match find_char(&cs, ':', b, b, end) {
        Some(p) => p,
        None => return None,
    };
    let c2 = match find_char(&cs, ':', b, b + c1 + 1, end) {
        Some(p) => p,
        None => return None,
    };
    if find_char(&cs, ':', b, b + c2 + 1, end).is_some() {
        return None;
    }
    assert(f.subrange(0, c1 as int) =~= s.subrange(b as int, (b + c1) as int));
    assert(f.subrange(c1 + 1, c2 as int) =~= s.subrange((b + c1 + 1) as int, (b + c2) as int));
    let sb = b + c2 + 1;
    let ghost d = f.subrange(c2 + 1, f.len() as int);
    assert(d =~= s.subrange(sb as int, end as int));
    let h = match read_number(&cs, b, b + c1) {
        Some(v) => v,
        None => return None,
    };
    let m = match read_number(&cs, b + c1 + 1, b + c2) {
        Some(v) => v,
        None => return None,
    };
    let sec = match find_char(&cs, '.', sb, sb, end) {
        None => match read_number(&cs, sb, end) {
            Some(v) => v,
            None => return None,
        },
        Some(p) => {
            assert(d.subrange(p + 1, d.len() as int) =~= s.subrange(sb + p + 1, end as int));
            assert(d.subrange(0, p as int) =~= s.subrange(sb as int, sb + p));
            if !digits_only(&cs, sb + p + 1, end) {
                return None;
            }
            match read_number(&cs, sb, sb + p) {
                Some(v) => v,
                None => return None,
            }
        },
    };
    let total: u64 = h * 3600 + m * 60 + sec;
    if total > u32::MAX as u64 {
        return None;
    }
    Some(total as u32)
}

/// Share of a job's duration cap that `seconds` stands for, in whole percent,
/// at most 100. A job without a cap (`duration == 0`) has no share to report.
pub open spec fn percent_of(seconds: nat, duration: nat) -> Option<nat> {
    if duration == 0 {
        None
    } else if seconds * 100 / duration > 100 {
        Some(100)
    } else {
        Some(seconds * 100 / duration)
    }
}

/// Integer percentage of `duration` that `seconds` makes up, capped at 100.
pub fn progress_percent(seconds: u32, duration: u32) -> (r: Option<u64>)
    ensures
        match percent_of(seconds as nat, duration as nat) {
            Some(p) => r == Some(p as u64),
            None => r.is_none(),
        },
        r.is_some() ==> r.unwrap() <= 100,
{
    if duration == 0 {
        return None;
    }
    assert(seconds as u64 * 100 <= u32::MAX as u64 * 100) by (nonlinear_arith);
    let p = seconds as u64 * 100 / duration as u64;
    if p > 100 {
        Some(100)
    } else {
        Some(p)
    }
}

/// The progress event that a transcoder status line gives for a job capped at
/// `duration` seconds: none where the line holds no time or the job has no cap.
pub fn line_progress(line: &str, duration: u32) -> (r: Option<u64>)
    ensures
        r == match progress_of(line@) {
            Some(t) => match percent_of(t as nat, duration as nat) {
                Some(p) => Some(p as u64),
                None => None,
            },
            None => None,
        },
        r.is_some() ==> r.unwrap() <= 100,
{
    match parse_progress(line) {
        Some(t) => progress_percent(t, duration),
        None => None,
    }
}

} // verus!
