//! The process marker: the recorded process id of the background instance.
use vstd::prelude::*;
use vstd::string::*;

verus! {

/// The characters that `char::is_whitespace` accepts: Unicode's White_Space.
pub open spec fn is_white(c: char) -> bool {
    ('\u{9}' <= c && c <= '\u{d}') || c == ' ' || c == '\u{85}' || c == '\u{a0}' || c
        == '\u{1680}' || ('\u{2000}' <= c && c <= '\u{200a}') || c == '\u{2028}' || c
        == '\u{2029}' || c == '\u{202f}' || c == '\u{205f}' || c == '\u{3000}'
}

pub open spec fn trim_start(s: Seq<char>) -> Seq<char>
    decreases s.len(),
{
    if s.len() > 0 && is_white(s[0]) {
        trim_start(s.drop_first())
    } else {
        s
    }
}

pub open spec fn trim_end(s: Seq<char>) -> Seq<char>
    decreases s.len(),
{
    if s.len() > 0 && is_white(s.last()) {
        trim_end(s.drop_last())
    } else {
        s
    }
}

pub open spec fn is_digit(c: char) -> bool {
    '0' <= c && c <= '9'
}

/// The number that a sequence of decimal digits writes.
pub open spec fn decimal_of(s: Seq<char>) -> int
    decreases s.len(),
{
    if s.len() == 0 {
        0
    } else {
        decimal_of(s.drop_last()) * 10 + (s.last() as int - '0' as int)
    }
}

/// The digits of a trimmed marker: without one leading `+`.
pub open spec fn digits_part(t: Seq<char>) -> Seq<char> {
    if t.len() > 0 && t[0] == '+' {
        t.drop_first()
    } else {
        t
    }
}

/// The process id that a marker's text records: decimal digits, with an optional
/// `+` and surrounding white space, of a value that fits in 32 bits.
pub open spec fn pid_of(s: Seq<char>) -> Option<u32> {
    let d = digits_part(trim_end(trim_start(s)));
    if d.len() > 0 && (forall|i: int| 0 <= i < d.len() ==> is_digit(#[trigger] d[i])) && decimal_of(d)
        <= u32::MAX {
        Some(decimal_of(d) as u32)
    } else {
        None
    }
}

fn white(c: char) -> (r: bool)
    ensures
        r == is_white(c),
{
    ('\u{9}' <= c && c <= '\u{d}') || c == ' ' || c == '\u{85}' || c == '\u{a0}' || c
        == '\u{1680}' || ('\u{2000}' <= c && c <= '\u{200a}') || c == '\u{2028}' || c
        == '\u{2029}' || c == '\u{202f}' || c == '\u{205f}' || c == '\u{3000}'
}

proof fn lemma_decimal_grows(s: Seq<char>, k: int)
    requires
        0 <= k <= s.len(),
        forall|i: int| 0 <= i < s.len() ==> is_digit(#[trigger] s[i]),
    ensures
        decimal_of(s.subrange(0, k)) <= decimal_of(s),
        decimal_of(s) >= 0,
    decreases s.len(),
{
    if s.len() > 0 {
        let p = s.drop_last();
        if k < s.len() {
            assert(p.subrange(0, k) =~= s.subrange(0, k));
            lemma_decimal_grows(p, k);
        } else {
            assert(s.subrange(0, k) =~= s);
            lemma_decimal_grows(p, 0);
        }
    }
}

/// The process id that the marker text `text` records, if it records one.
pub fn parse_pid(text: &str) -> (r: Option<u32>)
    ensures
        r == pid_of(text@),
{
    let n = text.unicode_len();
    let ghost s = text@;
    let mut a: usize = 0;
    assert(s.subrange(0, n as int) =~= s);
    while a < n && white(text.get_char(a))
        invariant
            a <= n,
            n == s.len(),
            s == text@,
            trim_start(s) == trim_start(s.subrange(a as int, n as int)),
        decreases n - a,
    {
        assert(s.subrange(a as int, n as int).drop_first() =~= s.subrange(a + 1, n as int));
        a = a + 1;
    }
    let ghost ts = s.subrange(a as int, n as int);
    assert(trim_start(s) == ts);
    let mut b: usize = n;
    assert(ts.subrange(0, ts.len() as int) =~= ts);
    while b > a && white(text.get_char(b - 1))
        invariant
            a <= b <= n,
            n == s.len(),
            s == text@,
            ts == s.subrange(a as int, n as int),
            trim_end(ts) == trim_end(s.subrange(a as int, b as int)),
        decreases b,
    {
        assert(s.subrange(a as int, b as int).drop_last() =~= s.subrange(a as int, b - 1));
        b = b - 1;
    }
    let ghost t = s.subrange(a as int, b as int);
    assert(trim_end(trim_start(s)) == t);
    if a < b && text.get_char(a) == '+' {
        a = a + 1;
    }
    let ghost d = s.subrange(a as int, b as int);
    assert(digits_part(t) =~= d);
    if a == b {
        return None;
    }
    let mut value: u32 = 0;
    let mut i: usize = a;
    while i < b
        invariant
            a <= i <= b <= n,
            n == s.len(),
            s == text@,
            d == s.subrange(a as int, b as int),
            digits_part(trim_end(trim_start(s))) == d,
            d.len() > 0,
            forall|k: int| 0 <= k < i - a ==> is_digit(#[trigger] d[k]),
            value == decimal_of(d.subrange(0, i - a)),
        decreases b - i,
    {
        let c = text.get_char(i);
        assert(d[i - a] == c);
        if c < '0' || c > '9' {
            return None;
        }
        assert(d.subrange(0, i - a + 1).drop_last() =~= d.subrange(0, i - a));
        let digit = (c as u32) - ('0' as u32);
        if value > 429496729 || (value == 429496729 && digit > 5) {
            proof {
                assert(decimal_of(d.subrange(0, i - a + 1)) > u32::MAX);
                if forall|k: int| 0 <= k < d.len() ==> is_digit(#[trigger] d[k]) {
                    lemma_decimal_grows(d, i - a + 1);
                }
            }
            return None;
        }
        value = value * 10 + digit;
        i = i + 1;
    }
    assert(d.subrange(0, i - a) =~= d);
    Some(value)
}

/// What the marker says of the background instance.
#[derive(Debug, Clone, Copy, PartialEq, Eq, Structural)]
pub enum MarkerVerdict {
    /// No readable marker: no instance runs.
    NotRunning,
    /// The marker records `pid`, and that process exists.
    Running { pid: u32 },
    /// The marker records no process that exists: it is to be deleted, and no
    /// instance runs.
    Stale,
}

pub open spec fn verdict_of(marker: Option<Seq<char>>, alive: bool) -> MarkerVerdict {
    match marker {
        None => MarkerVerdict::NotRunning,
        Some(t) => match pid_of(t) {
            Some(p) => if alive {
                MarkerVerdict::Running { pid: p }
            } else {
                MarkerVerdict::Stale
            },
            None => MarkerVerdict::Stale,
        },
    }
}

/// Whether an instance runs, from the marker's text (none when there is no
/// readable marker) and whether the process that it records exists.
pub fn is_running(marker: Option<String>, alive: bool) -> (r: MarkerVerdict)
    ensures
        r == verdict_of(
            match marker {
                Some(t) => Some(t@),
                None => None,
            },
            alive,
        ),
{
    match marker {
        None => MarkerVerdict::NotRunning,
        Some(t) => match parse_pid(t.as_str()) {
            Some(p) => if alive {
                MarkerVerdict::Running { pid: p }
            } else {
                MarkerVerdict::Stale
            },
            None => MarkerVerdict::Stale,
        },
    }
}

} // verus!
