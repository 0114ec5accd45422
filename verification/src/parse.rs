//! Reading the text that the orchestrator hands over: cluster IPs and the
//! two annotations of a managed service.

use crate::model::WorkloadKind;
use vstd::prelude::*;
use vstd::string::*;

verus! {

pub open spec fn is_digit(c: char) -> bool {
    48 <= c as u32 <= 57
}

pub open spec fn digit_value(c: char) -> int {
    c as u32 - 48
}

pub open spec fn all_digits(s: Seq<char>) -> bool {
    forall|i: int| 0 <= i < s.len() ==> is_digit(#[trigger] s[i])
}

/// The number that a sequence of decimal digits spells.
pub open spec fn decimal_value(s: Seq<char>) -> int
    decreases s.len(),
{
    if s.len() == 0 {
        0
    } else {
        decimal_value(s.drop_last()) * 10 + digit_value(s.last())
    }
}

/// The number that a signed decimal integer spells, if it fits 64 bits:
/// an optional `+` or `-`, then one or more digits.
pub open spec fn seconds_value(s: Seq<char>) -> Option<i64> {
    let negative = s.len() > 0 && s[0] == '-';
    let signed = s.len() > 0 && (s[0] == '-' || s[0] == '+');
    let digits = if signed {
        s.subrange(1, s.len() as int)
    } else {
        s
    };
    let magnitude = decimal_value(digits);
    let value = if negative {
        -magnitude
    } else {
        magnitude
    };
    if digits.len() > 0 && all_digits(digits) && i64::MIN <= value <= i64::MAX {
        Some(value as i64)
    } else {
        None
    }
}

proof fn lemma_decimal_push(s: Seq<char>, c: char)
    ensures
        decimal_value(s.push(c)) == decimal_value(s) * 10 + digit_value(c),
{
    assert(s.push(c).drop_last() =~= s);
}

fn is_digit_char(c: char) -> (b: bool)
    ensures
        b == is_digit(c),
{
    let code = c as u32;
    48 <= code && code <= 57
}

/// Reads a scale-down time: a signed decimal number of seconds.
pub fn parse_seconds(text: &str) -> (r: Option<i64>)
    ensures
        r == seconds_value(text@),
{
    let n = text.unicode_len();
    if n == 0 {
        return None;
    }
    let first = text.get_char(0);
    let negative = first == '-';
    let start: usize = if first == '-' || first == '+' {
        1
    } else {
        0
    };
    if start == n {
        return None;
    }
    let ghost digits = text@.subrange(start as int, n as int);
    assert(text@.subrange(0, n as int) =~= text@);
    let limit: i128 = 9223372036854775808;
    let mut magnitude: i128 = 0;
    let mut overflow = false;
    let mut i: usize = start;
    assert(digits.subrange(0, 0) =~= Seq::<char>::empty());
    while i < n
        invariant
            start <= i <= n,
            n == text@.len(),
            digits == text@.subrange(start as int, n as int),
            seconds_value(text@) is Some ==> all_digits(digits),
            limit == 9223372036854775808,
            all_digits(digits.subrange(0, i - start)),
            !overflow ==> magnitude == decimal_value(digits.subrange(0, i - start)) && 0
                <= magnitude <= limit,
            overflow ==> decimal_value(digits.subrange(0, i - start)) > limit,
        decreases n - i,
    {
        let c = text.get_char(i);
        let ghost seen = digits.subrange(0, i - start);
        proof {
            assert(digits[i - start] == c);
            assert(seen.push(c) =~= digits.subrange(0, i - start + 1));
            lemma_decimal_push(seen, c);
        }
        if !is_digit_char(c) {
            assert(!is_digit(digits[i - start]));
            return None;
        }
        proof {
            assert forall|j: int| 0 <= j < seen.push(c).len() implies is_digit(
                #[trigger] seen.push(c)[j],
            ) by {
                if j < seen.len() {
                    assert(seen.push(c)[j] == seen[j]);
                }
            }
        }
        if !overflow {
            let next: i128 = magnitude * 10 + (c as u32 - 48) as i128;
            if next > limit {
                overflow = true;
            } else {
                magnitude = next;
            }
        }
        i += 1;
    }
    assert(digits.subrange(0, n - start) =~= digits);
    if overflow {
        return None;
    }
    if negative {
        Some((-magnitude) as i64)
    } else if magnitude == limit {
        None
    } else {
        Some(magnitude as i64)
    }
}

/// Where the run of digits that starts at `from` ends: the first
/// position at or after `from` that holds no digit, or the length.
pub open spec fn digit_run_end(s: Seq<char>, from: int) -> int
    decreases s.len() - from,
{
    if 0 <= from < s.len() && is_digit(s[from]) {
        digit_run_end(s, from + 1)
    } else {
        from
    }
}

/// The value of one part of a dotted quad: one to three digits, no
/// leading zero before another digit, at most 255.
pub open spec fn octet_value(s: Seq<char>) -> Option<int> {
    if 1 <= s.len() <= 3 && all_digits(s) && (s.len() == 1 || s[0] != '0') && decimal_value(s)
        <= 255 {
        Some(decimal_value(s))
    } else {
        None
    }
}

/// The address that a dotted quad spells, in host byte order: four
/// octets with a `.` between each two, and nothing else.
pub open spec fn ipv4_value(s: Seq<char>) -> Option<u32> {
    let e1 = digit_run_end(s, 0);
    let e2 = digit_run_end(s, e1 + 1);
    let e3 = digit_run_end(s, e2 + 1);
    let e4 = digit_run_end(s, e3 + 1);
    let a = octet_value(s.subrange(0, e1));
    let b = octet_value(s.subrange(e1 + 1, e2));
    let c = octet_value(s.subrange(e2 + 1, e3));
    let d = octet_value(s.subrange(e3 + 1, e4));
    if e1 < s.len() && s[e1] == '.' && e2 < s.len() && s[e2] == '.' && e3 < s.len() && s[e3] == '.'
        && e4 == s.len() && a is Some && b is Some && c is Some && d is Some {
        Some((a->0 * 16777216 + b->0 * 65536 + c->0 * 256 + d->0) as u32)
    } else {
        None
    }
}

proof fn lemma_run_bounds(s: Seq<char>, from: int)
    requires
        0 <= from <= s.len(),
    ensures
        from <= digit_run_end(s, from) <= s.len(),
        all_digits(s.subrange(from, digit_run_end(s, from))),
        digit_run_end(s, from) < s.len() ==> !is_digit(s[digit_run_end(s, from)]),
    decreases s.len() - from,
{
    if from < s.len() && is_digit(s[from]) {
        lemma_run_bounds(s, from + 1);
        let end = digit_run_end(s, from);
        assert forall|i: int| 0 <= i < s.subrange(from, end).len() implies is_digit(
            #[trigger] s.subrange(from, end)[i],
        ) by {
            if i > 0 {
                assert(s.subrange(from, end)[i] == s.subrange(from + 1, end)[i - 1]);
            }
        }
    }
}

/// Reads the octet that starts at `from`: its value and where it ends.
fn scan_octet(text: &str, n: usize, from: usize) -> (r: Option<(u32, usize)>)
    requires
        n == text@.len(),
        from <= n,
    ensures
        r is Some <==> octet_value(text@.subrange(from as int, digit_run_end(text@, from as int)))
            is Some,
        r matches Some((value, end)) ==> end == digit_run_end(text@, from as int) && from < end
            <= n && Some(value as int) == octet_value(text@.subrange(from as int, end as int)),
{
    let ghost s = text@;
    let mut pos: usize = from;
    let mut value: u32 = 0;
    let mut done = false;
    assert(s.subrange(from as int, from as int) =~= Seq::<char>::empty());
    while pos < n && !done
        invariant
            s == text@,
            n == s.len(),
            from <= pos <= n,
            pos - from <= 3,
            digit_run_end(s, from as int) == digit_run_end(s, pos as int),
            value == decimal_value(s.subrange(from as int, pos as int)),
            value <= 999,
            pos - from <= 2 ==> value <= 99,
            pos - from <= 1 ==> value <= 9,
            pos == from ==> value == 0,
            done ==> pos < n && !is_digit(s[pos as int]),
        decreases n - pos + (if done { 0int } else { 1int }),
    {
        let c = text.get_char(pos);
        if is_digit_char(c) {
            if pos - from >= 3 {
                proof {
                    lemma_run_bounds(s, pos + 1);
                }
                return None;
            }
            proof {
                let seen = s.subrange(from as int, pos as int);
                assert(seen.push(c) =~= s.subrange(from as int, pos + 1));
                lemma_decimal_push(seen, c);
            }
            value = value * 10 + (c as u32 - 48);
            pos += 1;
        } else {
            done = true;
        }
    }
    proof {
        lemma_run_bounds(s, from as int);
    }
    if pos == from {
        return None;
    }
    if pos - from > 1 && text.get_char(from) == '0' {
        return None;
    }
    if value > 255 {
        return None;
    }
    Some((value, pos))
}

/// Reads a cluster IP written as a dotted quad.
pub fn parse_ipv4(text: &str) -> (r: Option<u32>)
    ensures
        r == ipv4_value(text@),
{
    let n = text.unicode_len();
    let (a, e1) = match scan_octet(text, n, 0) {
        Some(found) => found,
        None => {
            return None;
        },
    };
    if e1 >= n || text.get_char(e1) != '.' {
        return None;
    }
    let (b, e2) = match scan_octet(text, n, e1 + 1) {
        Some(found) => found,
        None => {
            return None;
        },
    };
    if e2 >= n || text.get_char(e2) != '.' {
        return None;
    }
    let (c, e3) = match scan_octet(text, n, e2 + 1) {
        Some(found) => found,
        None => {
            return None;
        },
    };
    if e3 >= n || text.get_char(e3) != '.' {
        return None;
    }
    let (d, e4) = match scan_octet(text, n, e3 + 1) {
        Some(found) => found,
        None => {
            return None;
        },
    };
    if e4 != n {
        return None;
    }
    Some(a * 16777216 + b * 65536 + c * 256 + d)
}

/// Why a workload reference was not accepted.
#[derive(Clone, Copy, Debug, PartialEq, Eq, Structural)]
pub enum ReferenceError {
    /// The text is not two parts with one `/` between them.
    Malformed,
    /// The first part names no kind of workload that can be scaled.
    UnknownKind,
}

/// The text by which a reference names a kind of workload.
pub open spec fn kind_text(kind: WorkloadKind) -> Seq<char> {
    match kind {
        WorkloadKind::Deployment => "deployment"@,
        WorkloadKind::StatefulSet => "statefulset"@,
    }
}

/// The kind of workload that a text names.
pub open spec fn kind_named(text: Seq<char>) -> Option<WorkloadKind> {
    if text == "deployment"@ {
        Some(WorkloadKind::Deployment)
    } else if text == "statefulset"@ {
        Some(WorkloadKind::StatefulSet)
    } else {
        None
    }
}

/// Whether `p` is the position of the one `/` in `s`.
pub open spec fn only_slash_at(s: Seq<char>, p: int) -> bool {
    &&& 0 <= p < s.len()
    &&& s[p] == '/'
    &&& forall|q: int| 0 <= q < s.len() && q != p ==> s[q] != '/'
}

/// The workload that a reference `<kind>/<name>` names.
pub open spec fn reference_value(s: Seq<char>) -> Result<(WorkloadKind, Seq<char>), ReferenceError> {
    if exists|p: int| only_slash_at(s, p) {
        let p = choose|p: int| only_slash_at(s, p);
        match kind_named(s.subrange(0, p)) {
            Some(kind) => Ok((kind, s.subrange(p + 1, s.len() as int))),
            None => Err(ReferenceError::UnknownKind),
        }
    } else {
        Err(ReferenceError::Malformed)
    }
}

/// The text by which references name `kind`.
pub fn kind_name(kind: WorkloadKind) -> (name: &'static str)
    ensures
        name@ == kind_text(kind),
{
    match kind {
        WorkloadKind::Deployment => "deployment",
        WorkloadKind::StatefulSet => "statefulset",
    }
}

/// Reads a workload reference: a kind, one `/`, and a name.
pub fn parse_reference(text: &str) -> (r: Result<(WorkloadKind, String), ReferenceError>)
    ensures
        match r {
            Ok((kind, name)) => reference_value(text@) == Ok::<
                (WorkloadKind, Seq<char>),
                ReferenceError,
            >((kind, name@)),
            Err(e) => reference_value(text@) == Err::<(WorkloadKind, Seq<char>), ReferenceError>(e),
        },
{
    let n = text.unicode_len();
    let mut slash: Option<usize> = None;
    let mut i: usize = 0;
    while i < n
        invariant
            n == text@.len(),
            i <= n,
            slash is None ==> forall|q: int| 0 <= q < i ==> text@[q] != '/',
            slash matches Some(p) ==> p < i && text@[p as int] == '/' && forall|q: int|
                0 <= q < i && q != p ==> text@[q] != '/',
        decreases n - i,
    {
        let c = text.get_char(i);
        if c == '/' {
            match slash {
                Some(p) => {
                    assert forall|x: int| !only_slash_at(text@, x) by {
                        if only_slash_at(text@, x) {
                            if x == p as int {
                                assert(text@[i as int] != '/');
                            } else {
                                assert(text@[p as int] != '/');
                            }
                        }
                    }
                    return Err(ReferenceError::Malformed);
                },
                None => {
                    slash = Some(i);
                },
            }
        }
        i += 1;
    }
    match slash {
        None => {
            assert forall|x: int| !only_slash_at(text@, x) by {}
            Err(ReferenceError::Malformed)
        },
        Some(p) => {
            proof {
                assert(only_slash_at(text@, p as int));
                let chosen = choose|x: int| only_slash_at(text@, x);
                assert(chosen == p as int);
            }
            let kind_part = text.substring_char(0, p).to_owned();
            let name = text.substring_char(p + 1, n).to_owned();
            if kind_part == String::from_str("deployment") {
                Ok((WorkloadKind::Deployment, name))
            } else if kind_part == String::from_str("statefulset") {
                Ok((WorkloadKind::StatefulSet, name))
            } else {
                Err(ReferenceError::UnknownKind)
            }
        },
    }
}

} // verus!
