//! Disk-usage checking: reading the usage percentage out of the disk
//! reporter's output, and the verdict a given usage earns. Running the
//! reporter is the caller's concern.

use vstd::prelude::*;

use crate::checks::{CheckResult, CheckStatus};
use crate::text::{all_digits, digits_val, find_char, parse_dec_bounded, trim_spec, trim_str};

verus! {

/// Category label of the disk checks.
pub const CATEGORY: &'static str = "Disk";

/// Usage percentage from which a warning is raised.
pub const DISK_WARNING_THRESHOLD: u8 = 80;

/// Usage percentage from which the check fails.
pub const DISK_CRITICAL_THRESHOLD: u8 = 95;

/// What one line of the reporter's output yields: trimmed, it must end in a
/// percent sign, and what stands before it, again trimmed, must be digits
/// denoting at most two hundred and fifty-five.
pub open spec fn percent_line(line: Seq<char>) -> Option<u8> {
    let t = trim_spec(line);
    if t.len() > 0 && t.last() == '%' {
        let b = trim_spec(t.drop_last());
        if b.len() >= 1 && all_digits(b) && digits_val(b) <= 255 {
            Some(digits_val(b) as u8)
        } else {
            None
        }
    } else {
        None
    }
}

/// Read a percentage from one line.
fn parse_percent_line(s: &str, from: usize, to: usize) -> (r: Option<u8>)
    requires
        from <= to <= s@.len(),
    ensures
        r == percent_line(s@.subrange(from as int, to as int)),
{
    let ghost line = s@.subrange(from as int, to as int);
    let line_str = s.substring_char(from, to);
    let (a, b) = trim_str(line_str);
    proof {
        assert(trim_spec(line_str@) == trim_spec(line));
    }
    if b == a {
        return None;
    }
    if line_str.get_char(b - 1) != '%' {
        proof {
            assert(trim_spec(line).last() == line_str@[b - 1]);
        }
        return None;
    }
    let (a2, b2) = trim_str(line_str.substring_char(a, b - 1));
    proof {
        let t = trim_spec(line);
        assert(t =~= line_str@.subrange(a as int, b as int));
        assert(t.drop_last() =~= line_str@.subrange(a as int, b - 1));
        assert(line_str@.subrange(a as int, b - 1).subrange(a2 as int, b2 as int)
            =~= line_str@.subrange(a + a2, a + b2 as int));
    }
    let body = line_str.substring_char(a, b - 1);
    match parse_dec_bounded(body, a2, b2, 255) {
        Some(v) => {
            proof {
                assert(body@.subrange(a2 as int, b2 as int) == trim_spec(
                    trim_spec(line).drop_last(),
                ));
            }
            Some(v as u8)
        },
        None => {
            proof {
                assert(body@.subrange(a2 as int, b2 as int) == trim_spec(
                    trim_spec(line).drop_last(),
                ));
            }
            None
        },
    }
}

/// What the remaining output yields, read from a position: the first line
/// from there on that reads as a percentage. A line runs to the next
/// newline, the last line to the end.
pub open spec fn scan_from(s: Seq<char>, pos: int) -> Option<u8>
    decreases s.len() - pos,
{
    if pos < 0 || pos > s.len() {
        None
    } else if exists|i: int| pos <= i < s.len() && s[i] == '\n' {
        let i = choose|i: int|
            pos <= i < s.len() && s[i] == '\n' && forall|j: int| pos <= j < i ==> s[j] != '\n';
        if pos <= i < s.len() {
            match percent_line(s.subrange(pos, i)) {
                Some(p) => Some(p),
                None => scan_from(s, i + 1),
            }
        } else {
            None
        }
    } else {
        percent_line(s.subrange(pos, s.len() as int))
    }
}

/// What the reporter's whole output yields: its first line is a header,
/// and the first following line that reads as a percentage carries the
/// answer.
pub open spec fn disk_usage_of(s: Seq<char>) -> Option<u8> {
    if exists|i: int| 0 <= i < s.len() && s[i] == '\n' {
        let i = choose|i: int|
            0 <= i < s.len() && s[i] == '\n' && forall|j: int| 0 <= j < i ==> s[j] != '\n';
        if 0 <= i < s.len() {
            scan_from(s, i + 1)
        } else {
            None
        }
    } else {
        None
    }
}

/// A found first newline settles which one the scan splits at.
proof fn lemma_first_newline_from(s: Seq<char>, pos: int, i: int)
    requires
        0 <= pos <= s.len(),
        pos <= i < s.len(),
        s[i] == '\n',
        forall|j: int| pos <= j < i ==> s[j] != '\n',
    ensures
        scan_from(s, pos) == match percent_line(s.subrange(pos, i)) {
            Some(p) => Some(p),
            None => scan_from(s, i + 1),
        },
{
    let i2 = choose|i2: int|
        pos <= i2 < s.len() && s[i2] == '\n' && forall|j: int| pos <= j < i2 ==> s[j] != '\n';
    assert(pos <= i2 < s.len() && s[i2] == '\n' && forall|j: int|
        pos <= j < i2 ==> s[j] != '\n') by {
        assert(pos <= i < s.len() && s[i] == '\n' && forall|j: int| pos <= j < i ==> s[j] != '\n');
    }
    assert(i2 == i);
}

/// Read the usage percentage out of the reporter's output.
pub fn parse_disk_usage(output: &str) -> (r: Option<u8>)
    ensures
        r == disk_usage_of(output@),
{
    let n = output.unicode_len();
    let first_nl = match find_char(output, 0, '\n') {
        Some(i) => i,
        None => {
            return None;
        },
    };
    let mut pos: usize = first_nl + 1;
    proof {
        let i = first_nl as int;
        let i2 = choose|i2: int|
            0 <= i2 < output@.len() && output@[i2] == '\n' && forall|j: int|
                0 <= j < i2 ==> output@[j] != '\n';
        assert(0 <= i2 < output@.len() && output@[i2] == '\n' && forall|j: int|
            0 <= j < i2 ==> output@[j] != '\n') by {
            assert(0 <= i < output@.len() && output@[i] == '\n' && forall|j: int|
                0 <= j < i ==> output@[j] != '\n');
        }
        assert(i2 == i);
        assert(disk_usage_of(output@) == scan_from(output@, pos as int));
    }
    while pos < n
        invariant
            pos <= n,
            n == output@.len(),
            disk_usage_of(output@) == scan_from(output@, pos as int),
        decreases n - pos,
    {
        match find_char(output, pos, '\n') {
            Some(i) => {
                proof {
                    lemma_first_newline_from(output@, pos as int, i as int);
                }
                match parse_percent_line(output, pos, i) {
                    Some(p) => {
                        return Some(p);
                    },
                    None => {
                        pos = i + 1;
                    },
                }
            },
            None => {
                return parse_percent_line(output, pos, n);
            },
        }
    }
    parse_percent_line(output, pos, n)
}

/// The verdict a usage percentage earns: failure from the critical
/// threshold, a warning from the warning threshold, a pass below.
pub fn classify_disk_usage(usage: u8) -> (r: CheckResult)
    ensures
        usage >= DISK_CRITICAL_THRESHOLD ==> r.status == CheckStatus::Fail,
        DISK_WARNING_THRESHOLD <= usage < DISK_CRITICAL_THRESHOLD ==> r.status
            == CheckStatus::Warning,
        usage < DISK_WARNING_THRESHOLD ==> r.status == CheckStatus::Pass,
        r.category@ == CATEGORY@,
{
    if usage >= DISK_CRITICAL_THRESHOLD {
        CheckResult::fail(
            CATEGORY,
            "Disk usage",
            "disk usage at critical level",
            "Free up disk space immediately: podman system prune -a",
        )
    } else if usage >= DISK_WARNING_THRESHOLD {
        CheckResult::warning(
            CATEGORY,
            "Disk usage",
            "disk usage is high",
            "Consider cleaning up: podman system prune",
        )
    } else {
        CheckResult::pass(CATEGORY, "Disk usage", "disk usage is within bounds")
    }
}

} // verus!
