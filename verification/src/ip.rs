//! IPv4 addresses as 32-bit values, with verified rendering to and parsing
//! from the canonical dotted-decimal text form.

use vstd::prelude::*;

use crate::text::{
    all_digits, canonical_dec, char_val, dec_seq, dec_str, digits_val, find_char, is_digit,
    lemma_canonical_dec_seq, lemma_dec_seq_canonical, lemma_dec_seq_injective, lemma_dec_seq_len,
    lemma_digits_val_singleton,
};

verus! {

/// Most significant byte of an address.
pub open spec fn octet3(ip: u32) -> nat {
    (ip as nat) / 0x1000000
}

pub open spec fn octet2(ip: u32) -> nat {
    ((ip as nat) % 0x1000000) / 0x10000
}

pub open spec fn octet1(ip: u32) -> nat {
    (((ip as nat) % 0x1000000) % 0x10000) / 0x100
}

/// Least significant byte of an address.
pub open spec fn octet0(ip: u32) -> nat {
    (((ip as nat) % 0x1000000) % 0x10000) % 0x100
}

/// The canonical dotted-decimal text of an address.
pub open spec fn ip_seq(ip: u32) -> Seq<char> {
    dec_seq(octet3(ip)) + seq!['.'] + dec_seq(octet2(ip)) + seq!['.'] + dec_seq(octet1(ip))
        + seq!['.'] + dec_seq(octet0(ip))
}

/// Whether a character sequence is the canonical text of some address.
pub open spec fn is_ip_seq(s: Seq<char>) -> bool {
    exists|ip: u32| s == ip_seq(ip)
}

/// The address denoted by a canonical dotted-decimal sequence.
pub open spec fn ip_val(s: Seq<char>) -> u32 {
    choose|ip: u32| s == ip_seq(ip)
}

/// The address assembled from four byte values.
pub open spec fn ip_of_octets(b3: nat, b2: nat, b1: nat, b0: nat) -> nat {
    b3 * 0x1000000 + b2 * 0x10000 + b1 * 0x100 + b0
}

pub proof fn lemma_octets_bounded(ip: u32)
    ensures
        octet3(ip) < 256,
        octet2(ip) < 256,
        octet1(ip) < 256,
        octet0(ip) < 256,
        ip as nat == ip_of_octets(octet3(ip), octet2(ip), octet1(ip), octet0(ip)),
{
    let x = ip as nat;
    assert(x < 0x100000000);
    assert(x / 0x1000000 < 256);
    assert(x == (x / 0x1000000) * 0x1000000 + x % 0x1000000);
    let r3 = x % 0x1000000;
    assert(r3 == (r3 / 0x10000) * 0x10000 + r3 % 0x10000);
    let r2 = r3 % 0x10000;
    assert(r2 == (r2 / 0x100) * 0x100 + r2 % 0x100);
}

/// Assembling four bytes and taking the bytes back are inverse operations.
pub proof fn lemma_octets_of_assembled(b3: nat, b2: nat, b1: nat, b0: nat)
    requires
        b3 < 256,
        b2 < 256,
        b1 < 256,
        b0 < 256,
    ensures
        ip_of_octets(b3, b2, b1, b0) < 0x100000000,
        octet3(ip_of_octets(b3, b2, b1, b0) as u32) == b3,
        octet2(ip_of_octets(b3, b2, b1, b0) as u32) == b2,
        octet1(ip_of_octets(b3, b2, b1, b0) as u32) == b1,
        octet0(ip_of_octets(b3, b2, b1, b0) as u32) == b0,
{
    let low = b2 * 0x10000 + b1 * 0x100 + b0;
    assert(b2 * 0x10000 <= 255 * 0x10000) by (nonlinear_arith)
        requires
            b2 < 256,
    ;
    assert(b1 * 0x100 <= 255 * 0x100) by (nonlinear_arith)
        requires
            b1 < 256,
    ;
    assert(low < 0x1000000);
    let x = ip_of_octets(b3, b2, b1, b0);
    assert(x == b3 * 0x1000000 + low);
    assert(b3 * 0x1000000 <= 255 * 0x1000000) by (nonlinear_arith)
        requires
            b3 < 256,
    ;
    assert(x < 0x100000000);
    assert(x / 0x1000000 == b3 && x % 0x1000000 == low) by (nonlinear_arith)
        requires
            x == b3 * 0x1000000 + low,
            low < 0x1000000,
    ;
    let low2 = b1 * 0x100 + b0;
    assert(low2 < 0x10000);
    assert(low / 0x10000 == b2 && low % 0x10000 == low2) by (nonlinear_arith)
        requires
            low == b2 * 0x10000 + low2,
            low2 < 0x10000,
    ;
    assert(low2 / 0x100 == b1 && low2 % 0x100 == b0) by (nonlinear_arith)
        requires
            low2 == b1 * 0x100 + b0,
            b0 < 256,
    ;
}

/// The dotted-decimal rendering is injective.
pub proof fn lemma_ip_seq_injective(a: u32, b: u32)
    requires
        ip_seq(a) == ip_seq(b),
    ensures
        a == b,
{
    lemma_octets_bounded(a);
    lemma_octets_bounded(b);
    lemma_ip_seq_parts(a);
    lemma_ip_seq_parts(b);
    let sa = ip_seq(a);
    let d1 = dec_seq(octet3(a)).len() as int;
    lemma_dec_seq_no_dot(octet3(a));
    lemma_dec_seq_no_dot(octet3(b));
    // the first dot determines the first octet's length on both sides
    lemma_first_dot(a);
    lemma_first_dot(b);
    assert(first_dot_at(sa, dec_seq(octet3(a)).len() as int));
    assert(first_dot_at(sa, dec_seq(octet3(b)).len() as int));
    assert(dec_seq(octet3(a)).len() == dec_seq(octet3(b)).len());
    assert(dec_seq(octet3(a)) =~= dec_seq(octet3(b))) by {
        assert(forall|i: int|
            0 <= i < dec_seq(octet3(a)).len() ==> dec_seq(octet3(a))[i] == sa[i]
                && #[trigger] dec_seq(octet3(b))[i] == sa[i]);
    }
    lemma_dec_seq_injective(octet3(a), octet3(b));
    // drop the first octet and its dot, and repeat on the tail
    let ta = sa.subrange(d1 + 1, sa.len() as int);
    lemma_tail3_eq(a);
    lemma_tail3_eq(b);
    lemma_tail_injective3(a, b, ta);
}

/// The first dot of a sequence stands exactly at the given index.
pub open spec fn first_dot_at(s: Seq<char>, i: int) -> bool {
    &&& 0 <= i < s.len()
    &&& s[i] == '.'
    &&& forall|j: int| 0 <= j < i ==> s[j] != '.'
}

pub proof fn lemma_dec_seq_no_dot(n: nat)
    ensures
        forall|i: int| 0 <= i < dec_seq(n).len() ==> dec_seq(n)[i] != '.',
{
    lemma_dec_seq_canonical(n);
    assert(forall|i: int|
        0 <= i < dec_seq(n).len() ==> is_digit(#[trigger] dec_seq(n)[i]));
}

pub proof fn lemma_ip_seq_parts(ip: u32)
    ensures
        ip_seq(ip).len() == dec_seq(octet3(ip)).len() + dec_seq(octet2(ip)).len() + dec_seq(
            octet1(ip),
        ).len() + dec_seq(octet0(ip)).len() + 3,
{
}

pub proof fn lemma_first_dot(ip: u32)
    ensures
        first_dot_at(ip_seq(ip), dec_seq(octet3(ip)).len() as int),
{
    lemma_dec_seq_no_dot(octet3(ip));
    let s = ip_seq(ip);
    let d = dec_seq(octet3(ip)).len() as int;
    assert(s[d] == '.');
    assert(forall|j: int| 0 <= j < d ==> s[j] == dec_seq(octet3(ip))[j]);
}

/// Tail of the rendering after the first octet and dot: the remaining three
/// octets in dotted form.
pub open spec fn tail3_seq(b2: nat, b1: nat, b0: nat) -> Seq<char> {
    dec_seq(b2) + seq!['.'] + dec_seq(b1) + seq!['.'] + dec_seq(b0)
}

pub proof fn lemma_tail3_eq(ip: u32)
    ensures
        ip_seq(ip).subrange(
            dec_seq(octet3(ip)).len() as int + 1,
            ip_seq(ip).len() as int,
        ) =~= tail3_seq(octet2(ip), octet1(ip), octet0(ip)),
{
}

pub proof fn lemma_tail_injective3(a: u32, b: u32, t: Seq<char>)
    requires
        tail3_seq(octet2(a), octet1(a), octet0(a)) == t,
        tail3_seq(octet2(b), octet1(b), octet0(b)) == t,
        octet3(a) == octet3(b),
    ensures
        a == b,
{
    lemma_dec_seq_no_dot(octet2(a));
    lemma_dec_seq_no_dot(octet2(b));
    assert(first_dot_at(t, dec_seq(octet2(a)).len() as int)) by {
        assert(t[dec_seq(octet2(a)).len() as int] == '.');
        assert(forall|j: int|
            0 <= j < dec_seq(octet2(a)).len() ==> t[j] == dec_seq(octet2(a))[j]);
    }
    assert(first_dot_at(t, dec_seq(octet2(b)).len() as int)) by {
        assert(t[dec_seq(octet2(b)).len() as int] == '.');
        assert(forall|j: int|
            0 <= j < dec_seq(octet2(b)).len() ==> t[j] == dec_seq(octet2(b))[j]);
    }
    assert(dec_seq(octet2(a)).len() == dec_seq(octet2(b)).len());
    assert(dec_seq(octet2(a)) =~= dec_seq(octet2(b))) by {
        assert(forall|i: int|
            0 <= i < dec_seq(octet2(a)).len() ==> dec_seq(octet2(a))[i] == t[i]
                && #[trigger] dec_seq(octet2(b))[i] == t[i]);
    }
    lemma_dec_seq_injective(octet2(a), octet2(b));
    let d = dec_seq(octet2(a)).len() as int;
    let t2 = t.subrange(d + 1, t.len() as int);
    assert(t2 =~= dec_seq(octet1(a)) + seq!['.'] + dec_seq(octet0(a)));
    assert(t2 =~= dec_seq(octet1(b)) + seq!['.'] + dec_seq(octet0(b)));
    lemma_dec_seq_no_dot(octet1(a));
    lemma_dec_seq_no_dot(octet1(b));
    assert(first_dot_at(t2, dec_seq(octet1(a)).len() as int)) by {
        assert(t2[dec_seq(octet1(a)).len() as int] == '.');
        assert(forall|j: int|
            0 <= j < dec_seq(octet1(a)).len() ==> t2[j] == dec_seq(octet1(a))[j]);
    }
    assert(first_dot_at(t2, dec_seq(octet1(b)).len() as int)) by {
        assert(t2[dec_seq(octet1(b)).len() as int] == '.');
        assert(forall|j: int|
            0 <= j < dec_seq(octet1(b)).len() ==> t2[j] == dec_seq(octet1(b))[j]);
    }
    assert(dec_seq(octet1(a)).len() == dec_seq(octet1(b)).len());
    assert(dec_seq(octet1(a)) =~= dec_seq(octet1(b))) by {
        assert(forall|i: int|
            0 <= i < dec_seq(octet1(a)).len() ==> dec_seq(octet1(a))[i] == t2[i]
                && #[trigger] dec_seq(octet1(b))[i] == t2[i]);
    }
    lemma_dec_seq_injective(octet1(a), octet1(b));
    let e = dec_seq(octet1(a)).len() as int;
    assert(dec_seq(octet0(a)) =~= t2.subrange(e + 1, t2.len() as int));
    assert(dec_seq(octet0(b)) =~= t2.subrange(e + 1, t2.len() as int));
    lemma_dec_seq_injective(octet0(a), octet0(b));
    lemma_octets_bounded(a);
    lemma_octets_bounded(b);
}

/// The rendering of an address denotes that address and nothing else.
pub proof fn lemma_ip_val(x: u32)
    ensures
        is_ip_seq(ip_seq(x)),
        ip_val(ip_seq(x)) == x,
{
    assert(is_ip_seq(ip_seq(x)));
    let y = choose|y: u32| ip_seq(x) == ip_seq(y);
    lemma_ip_seq_injective(x, y);
}

/// A dotted-decimal rendering holds only digits and dots.
pub proof fn lemma_ip_seq_chars(ip: u32)
    ensures
        forall|i: int|
            0 <= i < ip_seq(ip).len() ==> is_digit(#[trigger] ip_seq(ip)[i]) || ip_seq(ip)[i]
                == '.',
{
    lemma_dec_seq_canonical(octet3(ip));
    lemma_dec_seq_canonical(octet2(ip));
    lemma_dec_seq_canonical(octet1(ip));
    lemma_dec_seq_canonical(octet0(ip));
}

/// Render an address in dotted-decimal form.
pub fn format_ip(ip: u32) -> (r: String)
    ensures
        r@ == ip_seq(ip),
{
    proof {
        lemma_octets_bounded(ip);
    }
    let b3 = ip / 0x1000000;
    let r3 = ip % 0x1000000;
    let b2 = r3 / 0x10000;
    let r2 = r3 % 0x10000;
    let b1 = r2 / 0x100;
    let b0 = r2 % 0x100;
    let mut s = dec_str(b3 as u64);
    s.append(".");
    let p2 = dec_str(b2 as u64);
    s.append(p2.as_str());
    s.append(".");
    let p1 = dec_str(b1 as u64);
    s.append(p1.as_str());
    s.append(".");
    let p0 = dec_str(b0 as u64);
    s.append(p0.as_str());
    proof {
        reveal_strlit(".");
        assert(s@ =~= ip_seq(ip));
    }
    s
}

/// Parse the character window `[from, to)` as a canonical decimal byte.
pub fn parse_octet(s: &str, from: usize, to: usize) -> (r: Option<u8>)
    requires
        from <= to <= s@.len(),
    ensures
        match r {
            Some(v) => s@.subrange(from as int, to as int) == dec_seq(v as nat),
            None => forall|v: u8| s@.subrange(from as int, to as int) != dec_seq(v as nat),
        },
{
    let ghost sub = s@.subrange(from as int, to as int);
    let n = to - from;
    if n == 0 || n > 3 {
        proof {
            assert forall|v: u8| sub != dec_seq(v as nat) by {
                lemma_dec_seq_len(v as nat);
            }
        }
        return None;
    }
    let mut i = from;
    let mut value: u32 = 0;
    while i < to
        invariant
            from <= i <= to <= s@.len(),
            to - from <= 3,
            sub == s@.subrange(from as int, to as int),
            all_digits(s@.subrange(from as int, i as int)),
            value == digits_val(s@.subrange(from as int, i as int)),
            value <= 999,
        decreases to - i,
    {
        let c = s.get_char(i);
        if !('0' <= c && c <= '9') {
            proof {
                assert(!is_digit(sub[i - from]));
                assert forall|v: u8| sub != dec_seq(v as nat) by {
                    lemma_dec_seq_canonical(v as nat);
                }
            }
            return None;
        }
        let d = (c as u32) - ('0' as u32);
        proof {
            let pref = s@.subrange(from as int, i as int);
            let next = s@.subrange(from as int, i + 1 as int);
            assert(next.drop_last() =~= pref);
            assert(next.last() == s@[i as int]);
            assert(char_val(s@[i as int]) == d);
            lemma_digits_bound(pref);
        }
        value = value * 10 + d;
        i = i + 1;
        proof {
            assert(all_digits(s@.subrange(from as int, i as int))) by {
                let next = s@.subrange(from as int, i as int);
                assert(forall|k: int|
                    0 <= k < next.len() - 1 ==> next[k] == s@.subrange(
                        from as int,
                        i - 1 as int,
                    )[k]);
                assert(is_digit(next[next.len() - 1]));
            }
        }
    }
    proof {
        assert(sub =~= s@.subrange(from as int, to as int));
    }
    if n >= 2 && s.get_char(from) == '0' {
        proof {
            assert(sub[0] == '0');
            assert forall|v: u8| sub != dec_seq(v as nat) by {
                lemma_dec_seq_canonical(v as nat);
            }
        }
        return None;
    }
    if value > 255 {
        proof {
            assert(digits_val(sub) == value);
            assert forall|v: u8| sub != dec_seq(v as nat) by {
                lemma_dec_seq_canonical(v as nat);
            }
        }
        return None;
    }
    proof {
        assert(canonical_dec(sub));
        lemma_canonical_dec_seq(sub);
        assert(dec_seq(digits_val(sub)) =~= sub);
    }
    Some(value as u8)
}

/// Digit strings of bounded length denote bounded values.
proof fn lemma_digits_bound(s: Seq<char>)
    requires
        all_digits(s),
    ensures
        s.len() == 0 ==> digits_val(s) == 0,
        s.len() == 1 ==> digits_val(s) <= 9,
        s.len() == 2 ==> digits_val(s) <= 99,
        s.len() == 3 ==> digits_val(s) <= 999,
    decreases s.len(),
{
    if s.len() > 0 {
        let pref = s.drop_last();
        assert(forall|i: int| 0 <= i < pref.len() ==> pref[i] == s[i]);
        lemma_digits_bound(pref);
        assert(char_val(s.last()) <= 9);
    }
}

/// Parse a dotted-decimal address. Returns the address exactly when the text
/// is the canonical rendering of one.
#[verifier::rlimit(100)]
#[verifier::spinoff_prover]
pub fn parse_ip(s: &str) -> (r: Option<u32>)
    ensures
        match r {
            Some(ip) => s@ == ip_seq(ip),
            None => forall|ip: u32| s@ != ip_seq(ip),
        },
{
    let n = s.unicode_len();
    let p1 = match find_char(s, 0, '.') {
        Some(i) => i,
        None => {
            proof {
                assert forall|ip: u32| s@ != ip_seq(ip) by {
                    lemma_first_dot(ip);
                }
            }
            return None;
        },
    };
    let p2 = match find_char(s, p1 + 1, '.') {
        Some(i) => i,
        None => {
            proof {
                assert forall|ip: u32| s@ != ip_seq(ip) by {
                    lemma_ip_dots(ip);
                }
            }
            return None;
        },
    };
    let p3 = match find_char(s, p2 + 1, '.') {
        Some(i) => i,
        None => {
            proof {
                assert forall|ip: u32| s@ != ip_seq(ip) by {
                    lemma_ip_dots(ip);
                }
            }
            return None;
        },
    };
    match find_char(s, p3 + 1, '.') {
        Some(_) => {
            proof {
                assert forall|ip: u32| s@ != ip_seq(ip) by {
                    lemma_ip_dots(ip);
                }
            }
            return None;
        },
        None => {},
    }
    let b3 = parse_octet(s, 0, p1);
    let b2 = parse_octet(s, p1 + 1, p2);
    let b1 = parse_octet(s, p2 + 1, p3);
    let b0 = parse_octet(s, p3 + 1, n);
    match (b3, b2, b1, b0) {
        (Some(v3), Some(v2), Some(v1), Some(v0)) => {
            proof {
                lemma_octets_of_assembled(v3 as nat, v2 as nat, v1 as nat, v0 as nat);
            }
            let ip: u32 = (v3 as u32) * 0x1000000 + (v2 as u32) * 0x10000 + (v1 as u32) * 0x100
                + (v0 as u32);
            proof {
                assert(s@ =~= ip_seq(ip));
            }
            Some(ip)
        },
        _ => {
            proof {
                assert forall|ip: u32| s@ != ip_seq(ip) by {
                    lemma_ip_dots(ip);
                    if s@ == ip_seq(ip) {
                        let la = dec_seq(octet3(ip)).len() as int;
                        let lb = dec_seq(octet2(ip)).len() as int;
                        let lc = dec_seq(octet1(ip)).len() as int;
                        assert(p1 == la);
                        assert(p2 == la + 1 + lb);
                        assert(p3 == la + lb + 2 + lc);
                        assert(s@.subrange(0, p1 as int) =~= dec_seq(octet3(ip)));
                        assert(s@.subrange(p1 + 1, p2 as int) =~= dec_seq(octet2(ip)));
                        assert(s@.subrange(p2 + 1, p3 as int) =~= dec_seq(octet1(ip)));
                        assert(s@.subrange(p3 + 1, s@.len() as int) =~= dec_seq(octet0(ip)));
                        lemma_octets_bounded(ip);
                    }
                }
            }
            None
        },
    }
}

/// In a canonical rendering, the three dots stand exactly at the octet
/// boundaries.
pub proof fn lemma_ip_dots(ip: u32)
    ensures
        ({
            let la = dec_seq(octet3(ip)).len() as int;
            let lb = dec_seq(octet2(ip)).len() as int;
            let lc = dec_seq(octet1(ip)).len() as int;
            let s = ip_seq(ip);
            &&& s[la] == '.'
            &&& s[la + 1 + lb] == '.'
            &&& s[la + lb + 2 + lc] == '.'
            &&& forall|j: int|
                0 <= j < s.len() && s[j] == '.' ==> j == la || j == la + 1 + lb || j == la + lb + 2
                    + lc
        }),
{
    lemma_dec_seq_no_dot(octet3(ip));
    lemma_dec_seq_no_dot(octet2(ip));
    lemma_dec_seq_no_dot(octet1(ip));
    lemma_dec_seq_no_dot(octet0(ip));
}

} // verus!
