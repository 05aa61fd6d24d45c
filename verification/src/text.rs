//! Character-sequence helpers shared by the rest of the library: decimal
//! rendering of integers, digit predicates, and searching within strings.

use vstd::prelude::*;

verus! {

/// A decimal digit character.
pub open spec fn is_digit(c: char) -> bool {
    '0' <= c && c <= '9'
}

/// Numeric value of a decimal digit character.
pub open spec fn char_val(c: char) -> nat {
    (c as int - '0' as int) as nat
}

/// The digit character for a value below ten.
pub open spec fn digit_char(d: nat) -> char
    recommends
        d < 10,
{
    if d == 0 {
        '0'
    } else if d == 1 {
        '1'
    } else if d == 2 {
        '2'
    } else if d == 3 {
        '3'
    } else if d == 4 {
        '4'
    } else if d == 5 {
        '5'
    } else if d == 6 {
        '6'
    } else if d == 7 {
        '7'
    } else if d == 8 {
        '8'
    } else {
        '9'
    }
}

/// Canonical decimal rendering of a natural number, most significant digit
/// first, without leading zeros.
pub open spec fn dec_seq(n: nat) -> Seq<char>
    decreases n,
{
    if n < 10 {
        seq![digit_char(n)]
    } else {
        dec_seq(n / 10).push(digit_char(n % 10))
    }
}

/// Every character of the sequence is a decimal digit.
pub open spec fn all_digits(s: Seq<char>) -> bool {
    forall|i: int| 0 <= i < s.len() ==> is_digit(#[trigger] s[i])
}

/// Value of a digit sequence read as a decimal number.
pub open spec fn digits_val(s: Seq<char>) -> nat
    decreases s.len(),
{
    if s.len() == 0 {
        0
    } else {
        digits_val(s.drop_last()) * 10 + char_val(s.last())
    }
}

/// A digit sequence in canonical form: non-empty and without a leading zero.
pub open spec fn canonical_dec(s: Seq<char>) -> bool {
    &&& all_digits(s)
    &&& s.len() >= 1
    &&& (s.len() == 1 || s[0] != '0')
}

pub proof fn lemma_digits_val_singleton(s: Seq<char>)
    requires
        s.len() == 1,
    ensures
        digits_val(s) == char_val(s[0]),
{
    assert(s.drop_last().len() == 0);
    assert(digits_val(s.drop_last()) == 0);
    assert(s.last() == s[0]);
}

pub proof fn lemma_digit_char_val(d: nat)
    requires
        d < 10,
    ensures
        is_digit(digit_char(d)),
        char_val(digit_char(d)) == d,
{
}

pub proof fn lemma_dec_seq_canonical(n: nat)
    ensures
        canonical_dec(dec_seq(n)),
        digits_val(dec_seq(n)) == n,
        n >= 1 ==> dec_seq(n)[0] != '0',
    decreases n,
{
    if n < 10 {
        lemma_digit_char_val(n);
        assert(dec_seq(n) =~= seq![digit_char(n)]);
        lemma_digits_val_singleton(dec_seq(n));
    } else {
        lemma_dec_seq_canonical(n / 10);
        lemma_digit_char_val(n % 10);
        let prefix = dec_seq(n / 10);
        let whole = prefix.push(digit_char(n % 10));
        assert(whole.drop_last() =~= prefix);
        assert(whole.last() == digit_char(n % 10));
        assert(digits_val(whole) == (n / 10) * 10 + n % 10);
        assert((n / 10) * 10 + n % 10 == n) by (nonlinear_arith);
        assert(whole[0] == prefix[0]);
        assert(n / 10 >= 1);
        assert(whole[0] != '0');
        assert(forall|i: int|
            0 <= i < whole.len() ==> is_digit(#[trigger] whole[i])) by {
            assert(forall|i: int|
                0 <= i < prefix.len() ==> is_digit(#[trigger] prefix[i]));
            assert(forall|i: int| 0 <= i < whole.len() - 1 ==> whole[i] == prefix[i]);
            assert(is_digit(whole[whole.len() - 1]));
        }
    }
}

pub proof fn lemma_dec_seq_len(n: nat)
    ensures
        n < 10 ==> dec_seq(n).len() == 1,
        10 <= n < 100 ==> dec_seq(n).len() == 2,
        100 <= n < 1000 ==> dec_seq(n).len() == 3,
        1000 <= n < 10000 ==> dec_seq(n).len() == 4,
        10000 <= n < 100000 ==> dec_seq(n).len() == 5,
        dec_seq(n).len() >= 1,
        n >= 10 ==> dec_seq(n).len() >= 2,
    decreases n,
{
    if n >= 10 {
        lemma_dec_seq_len(n / 10);
    }
}

/// Digit strings of bounded length denote bounded values.
pub proof fn lemma_digits_val_bound(s: Seq<char>)
    requires
        all_digits(s),
    ensures
        s.len() == 0 ==> digits_val(s) == 0,
        s.len() <= 1 ==> digits_val(s) <= 9,
        s.len() <= 2 ==> digits_val(s) <= 99,
        s.len() <= 3 ==> digits_val(s) <= 999,
        s.len() <= 4 ==> digits_val(s) <= 9999,
        s.len() <= 5 ==> digits_val(s) <= 99999,
    decreases s.len(),
{
    if s.len() > 0 {
        let pref = s.drop_last();
        assert(forall|i: int| 0 <= i < pref.len() ==> pref[i] == s[i]);
        lemma_digits_val_bound(pref);
        assert(char_val(s.last()) <= 9);
    }
}

/// A canonical digit sequence is the decimal rendering of its own value.
pub proof fn lemma_canonical_dec_seq(s: Seq<char>)
    requires
        canonical_dec(s),
    ensures
        dec_seq(digits_val(s)) =~= s,
    decreases s.len(),
{
    if s.len() == 1 {
        let c = s[0];
        assert(is_digit(c));
        let v = char_val(c);
        assert(v < 10);
        assert(digits_val(s) == digits_val(s.drop_last()) * 10 + char_val(s.last()));
        assert(s.drop_last().len() == 0);
        assert(digits_val(s) == v);
        assert(digit_char(v) == c);
        assert(dec_seq(v) =~= seq![c]);
        assert(seq![c] =~= s);
    } else {
        let prefix = s.drop_last();
        let c = s.last();
        assert(prefix[0] == s[0]);
        assert(forall|i: int| 0 <= i < prefix.len() ==> prefix[i] == s[i]);
        assert(canonical_dec(prefix));
        lemma_canonical_dec_seq(prefix);
        let pv = digits_val(prefix);
        assert(digits_val(s) == pv * 10 + char_val(c));
        // the prefix is non-zero, so the whole value is at least ten
        assert(prefix[0] != '0' || prefix.len() >= 2);
        if prefix.len() == 1 {
            lemma_digits_val_singleton(prefix);
            assert(prefix[0] != '0');
            assert(pv >= 1);
        } else {
            lemma_dec_val_lower_bound(prefix);
            assert(pv >= 10);
        }
        assert(pv >= 1);
        let v = digits_val(s);
        assert(v >= 10) by {
            assert(pv * 10 >= 10) by (nonlinear_arith)
                requires
                    pv >= 1,
            ;
        }
        assert(char_val(c) < 10);
        assert(v / 10 == pv && v % 10 == char_val(c)) by (nonlinear_arith)
            requires
                v == pv * 10 + char_val(c),
                char_val(c) < 10,
        ;
        lemma_digit_char_val(char_val(c));
        assert(is_digit(c));
        assert(digit_char(char_val(c)) == c);
        assert(dec_seq(v) =~= dec_seq(pv).push(c));
        assert(dec_seq(pv) =~= prefix);
        assert(prefix.push(c) =~= s);
    }
}

/// A canonical digit sequence of length at least two denotes at least ten.
pub proof fn lemma_dec_val_lower_bound(s: Seq<char>)
    requires
        canonical_dec(s),
        s.len() >= 2,
    ensures
        digits_val(s) >= 10,
    decreases s.len(),
{
    let prefix = s.drop_last();
    assert(prefix[0] == s[0]);
    assert(forall|i: int| 0 <= i < prefix.len() ==> prefix[i] == s[i]);
    assert(canonical_dec(prefix));
    let pv = digits_val(prefix);
    if prefix.len() == 1 {
        lemma_digits_val_singleton(prefix);
        assert(prefix[0] != '0');
        assert(pv >= 1);
    } else {
        lemma_dec_val_lower_bound(prefix);
    }
    assert(pv >= 1);
    assert(digits_val(s) == pv * 10 + char_val(s.last()));
    assert(pv * 10 >= 10) by (nonlinear_arith)
        requires
            pv >= 1,
    ;
}

/// Decimal renderings are injective.
pub proof fn lemma_dec_seq_injective(a: nat, b: nat)
    requires
        dec_seq(a) == dec_seq(b),
    ensures
        a == b,
{
    lemma_dec_seq_canonical(a);
    lemma_dec_seq_canonical(b);
    assert(digits_val(dec_seq(a)) == digits_val(dec_seq(b)));
}

/// Explicit digit lists for values below a thousand.
pub proof fn lemma_dec3(n: nat)
    requires
        n < 1000,
    ensures
        n < 10 ==> dec_seq(n) =~= seq![digit_char(n)],
        10 <= n < 100 ==> dec_seq(n) =~= seq![digit_char(n / 10), digit_char(n % 10)],
        100 <= n ==> dec_seq(n) =~= seq![
            digit_char(n / 100),
            digit_char((n / 10) % 10),
            digit_char(n % 10),
        ],
{
    if n < 10 {
    } else if n < 100 {
        assert(dec_seq(n / 10) =~= seq![digit_char(n / 10)]);
    } else {
        assert(dec_seq(n / 10) =~= dec_seq(n / 10 / 10).push(digit_char(n / 10 % 10)));
        assert(n / 10 / 10 == n / 100);
        assert(dec_seq(n / 100) =~= seq![digit_char(n / 100)]);
    }
}

/// The single-digit string for a value below ten.
pub fn digit_str(d: u64) -> (r: &'static str)
    requires
        d < 10,
    ensures
        r@ =~= seq![digit_char(d as nat)],
{
    proof {
        reveal_strlit("0");
        reveal_strlit("1");
        reveal_strlit("2");
        reveal_strlit("3");
        reveal_strlit("4");
        reveal_strlit("5");
        reveal_strlit("6");
        reveal_strlit("7");
        reveal_strlit("8");
        reveal_strlit("9");
    }
    if d == 0 {
        "0"
    } else if d == 1 {
        "1"
    } else if d == 2 {
        "2"
    } else if d == 3 {
        "3"
    } else if d == 4 {
        "4"
    } else if d == 5 {
        "5"
    } else if d == 6 {
        "6"
    } else if d == 7 {
        "7"
    } else if d == 8 {
        "8"
    } else {
        "9"
    }
}

/// Render a number in canonical decimal notation.
pub fn dec_str(n: u64) -> (r: String)
    ensures
        r@ == dec_seq(n as nat),
    decreases n,
{
    if n < 10 {
        String::from_str(digit_str(n))
    } else {
        let mut s = dec_str(n / 10);
        s.append(digit_str(n % 10));
        proof {
            assert(dec_seq((n / 10) as nat).push(digit_char((n % 10) as nat)) =~= dec_seq(
                (n / 10) as nat,
            ) + seq![digit_char((n % 10) as nat)]);
        }
        s
    }
}

/// Compare two string slices for equality of their character sequences.
pub fn str_eq(a: &str, b: &str) -> (r: bool)
    ensures
        r == (a@ == b@),
{
    let sa = String::from_str(a);
    let sb = String::from_str(b);
    sa == sb
}

/// Parse the character window `[from, to)` as a canonical decimal sixteen-bit
/// value.
pub fn parse_u16(s: &str, from: usize, to: usize) -> (r: Option<u16>)
    requires
        from <= to <= s@.len(),
    ensures
        match r {
            Some(v) => s@.subrange(from as int, to as int) == dec_seq(v as nat),
            None => forall|v: u16| s@.subrange(from as int, to as int) != dec_seq(v as nat),
        },
{
    let ghost sub = s@.subrange(from as int, to as int);
    let n = to - from;
    if n == 0 || n > 5 {
        proof {
            assert forall|v: u16| sub != dec_seq(v as nat) by {
                lemma_dec_seq_len(v as nat);
            }
        }
        return None;
    }
    let mut i = from;
    let mut value: u32 = 0;
    while i < to
        invariant
            from <= i <= to <= s@.len(),
            to - from <= 5,
            sub == s@.subrange(from as int, to as int),
            all_digits(s@.subrange(from as int, i as int)),
            value == digits_val(s@.subrange(from as int, i as int)),
            value <= 99999,
        decreases to - i,
    {
        let c = s.get_char(i);
        if !('0' <= c && c <= '9') {
            proof {
                assert(!is_digit(sub[i - from]));
                assert forall|v: u16| sub != dec_seq(v as nat) by {
                    lemma_dec_seq_canonical(v as nat);
                }
            }
            return None;
        }
        let d = (c as u32) - ('0' as u32);
        proof {
            let pref = s@.subrange(from as int, i as int);
            let next = s@.subrange(from as int, i + 1 as int);
            assert(next.drop_last() =~= pref);
            assert(next.last() == s@[i as int]);
            assert(char_val(s@[i as int]) == d);
            lemma_digits_val_bound(pref);
        }
        value = value * 10 + d;
        i = i + 1;
        proof {
            assert(all_digits(s@.subrange(from as int, i as int))) by {
                let next = s@.subrange(from as int, i as int);
                assert(forall|k: int|
                    0 <= k < next.len() - 1 ==> next[k] == s@.subrange(
                        from as int,
                        i - 1 as int,
                    )[k]);
                assert(is_digit(next[next.len() - 1]));
            }
        }
    }
    proof {
        assert(sub =~= s@.subrange(from as int, to as int));
    }
    if n >= 2 && s.get_char(from) == '0' {
        proof {
            assert(sub[0] == '0');
            assert forall|v: u16| sub != dec_seq(v as nat) by {
                lemma_dec_seq_canonical(v as nat);
            }
        }
        return None;
    }
    if value > 65535 {
        proof {
            assert(digits_val(sub) == value);
            assert forall|v: u16| sub != dec_seq(v as nat) by {
                lemma_dec_seq_canonical(v as nat);
            }
        }
        return None;
    }
    proof {
        assert(canonical_dec(sub));
        lemma_canonical_dec_seq(sub);
        assert(dec_seq(digits_val(sub)) =~= sub);
    }
    Some(value as u16)
}

/// Whether one sequence occurs inside another.
pub open spec fn contains_seq(hay: Seq<char>, needle: Seq<char>) -> bool {
    exists|i: int|
        0 <= i && i + needle.len() <= hay.len() && #[trigger] hay.subrange(i, i + needle.len())
            == needle
}

/// Whether one string occurs inside another.
pub fn str_contains(hay: &str, needle: &str) -> (r: bool)
    ensures
        r == contains_seq(hay@, needle@),
{
    let n = hay.unicode_len();
    let m = needle.unicode_len();
    if m == 0 {
        proof {
            assert(hay@.subrange(0, 0 + needle@.len() as int) =~= needle@);
        }
        return true;
    }
    if m > n {
        proof {
            if contains_seq(hay@, needle@) {
                let j = choose|j: int|
                    0 <= j && j + needle@.len() <= hay@.len() && #[trigger] hay@.subrange(
                        j,
                        j + needle@.len(),
                    ) == needle@;
            }
        }
        return false;
    }
    let mut i: usize = 0;
    while i <= n - m
        invariant
            1 <= m <= n,
            n == hay@.len(),
            m == needle@.len(),
            i <= n - m + 1,
            forall|j: int|
                0 <= j < i ==> #[trigger] hay@.subrange(j, j + needle@.len()) != needle@,
        decreases n - i,
    {
        let window = hay.substring_char(i, i + m);
        if str_eq(window, needle) {
            return true;
        }
        i = i + 1;
    }
    proof {
        if contains_seq(hay@, needle@) {
            let j = choose|j: int|
                0 <= j && j + needle@.len() <= hay@.len() && #[trigger] hay@.subrange(
                    j,
                    j + needle@.len(),
                ) == needle@;
            assert(j < i);
        }
    }
    false
}

/// An ASCII whitespace character.
pub open spec fn is_space(c: char) -> bool {
    c == ' ' || c == '\t' || c == '\r' || c == '\n'
}

/// The sequence with leading whitespace removed.
pub open spec fn trim_left(s: Seq<char>) -> Seq<char>
    decreases s.len(),
{
    if s.len() > 0 && is_space(s.first()) {
        trim_left(s.drop_first())
    } else {
        s
    }
}

/// The sequence with trailing whitespace removed.
pub open spec fn trim_right(s: Seq<char>) -> Seq<char>
    decreases s.len(),
{
    if s.len() > 0 && is_space(s.last()) {
        trim_right(s.drop_last())
    } else {
        s
    }
}

/// The sequence with whitespace removed on both ends.
pub open spec fn trim_spec(s: Seq<char>) -> Seq<char> {
    trim_right(trim_left(s))
}

pub proof fn lemma_trim_left_at(s: Seq<char>, a: int)
    requires
        0 <= a <= s.len(),
        forall|j: int| 0 <= j < a ==> is_space(#[trigger] s[j]),
        a == s.len() || !is_space(s[a]),
    ensures
        trim_left(s) =~= s.subrange(a, s.len() as int),
    decreases a,
{
    if a > 0 {
        assert(is_space(s.first()));
        let t = s.drop_first();
        assert(forall|j: int| 0 <= j < t.len() ==> #[trigger] t[j] == s[j + 1]);
        lemma_trim_left_at(t, a - 1);
        assert(t.subrange(a - 1, t.len() as int) =~= s.subrange(a, s.len() as int));
    } else {
        if s.len() > 0 {
            assert(!is_space(s[0]));
        }
        assert(s.subrange(0, s.len() as int) =~= s);
    }
}

pub proof fn lemma_trim_right_at(s: Seq<char>, b: int)
    requires
        0 <= b <= s.len(),
        forall|j: int| b <= j < s.len() ==> is_space(#[trigger] s[j]),
        b == 0 || !is_space(s[b - 1]),
    ensures
        trim_right(s) =~= s.subrange(0, b),
    decreases s.len() - b,
{
    if b < s.len() {
        assert(is_space(s.last()));
        let t = s.drop_last();
        assert(forall|j: int| 0 <= j < t.len() ==> #[trigger] t[j] == s[j]);
        lemma_trim_right_at(t, b);
        assert(t.subrange(0, b) =~= s.subrange(0, b));
    } else {
        assert(s.subrange(0, s.len() as int) =~= s);
    }
}

/// Whitespace trimmed from both ends of a string: the window that remains.
pub fn trim_str(s: &str) -> (r: (usize, usize))
    ensures
        r.0 <= r.1 <= s@.len(),
        s@.subrange(r.0 as int, r.1 as int) == trim_spec(s@),
{
    let n = s.unicode_len();
    let mut a: usize = 0;
    while a < n && is_space_char(s.get_char(a))
        invariant
            a <= n,
            n == s@.len(),
            forall|j: int| 0 <= j < a ==> is_space(#[trigger] s@[j]),
        decreases n - a,
    {
        a = a + 1;
    }
    let mut b: usize = n;
    while b > a && is_space_char(s.get_char(b - 1))
        invariant
            a <= b <= n,
            n == s@.len(),
            forall|j: int| b <= j < n ==> is_space(#[trigger] s@[j]),
        decreases b,
    {
        b = b - 1;
    }
    proof {
        lemma_trim_left_at(s@, a as int);
        let t = trim_left(s@);
        assert(t =~= s@.subrange(a as int, n as int));
        assert(forall|j: int| 0 <= j < t.len() ==> #[trigger] t[j] == s@[a + j]);
        if b == a {
            lemma_trim_right_at(t, 0);
        } else {
            lemma_trim_right_at(t, b - a);
        }
        assert(t.subrange(0, b - a) =~= s@.subrange(a as int, b as int));
    }
    (a, b)
}

/// Whether a character is ASCII whitespace.
pub fn is_space_char(c: char) -> (r: bool)
    ensures
        r == is_space(c),
{
    c == ' ' || c == '\t' || c == '\r' || c == '\n'
}

/// The sequence with each ASCII capital replaced by its small form.
pub open spec fn lower_seq(s: Seq<char>) -> Seq<char> {
    s.map_values(|c: char| lower_char(c))
}

/// The small form of an ASCII capital, other characters unchanged.
pub open spec fn lower_char(c: char) -> char {
    if 'A' <= c && c <= 'Z' {
        ((c as u8) + 32) as char
    } else {
        c
    }
}

/// Lower an ASCII string: each capital letter becomes its small form.
pub fn ascii_lower(s: &str) -> (r: String)
    ensures
        r@ == lower_seq(s@),
{
    let n = s.unicode_len();
    let mut out = String::new();
    let mut i: usize = 0;
    while i < n
        invariant
            i <= n,
            n == s@.len(),
            out@ =~= lower_seq(s@.subrange(0, i as int)),
        decreases n - i,
    {
        let c = s.get_char(i);
        if 'A' <= c && c <= 'Z' {
            let lowered = lower_char_exec(c);
            out.append(char_str(lowered).as_str());
            proof {
                assert(lower_seq(s@.subrange(0, i + 1 as int)) =~= lower_seq(
                    s@.subrange(0, i as int),
                ).push(lower_char(s@[i as int])));
            }
        } else {
            let piece = s.substring_char(i, i + 1);
            out.append(piece);
            proof {
                assert(s@.subrange(i as int, i + 1 as int) =~= seq![s@[i as int]]);
                assert(lower_seq(s@.subrange(0, i + 1 as int)) =~= lower_seq(
                    s@.subrange(0, i as int),
                ).push(lower_char(s@[i as int])));
            }
        }
        i = i + 1;
    }
    proof {
        assert(s@.subrange(0, n as int) =~= s@);
    }
    out
}

/// The small form of an ASCII capital.
fn lower_char_exec(c: char) -> (r: char)
    requires
        'A' <= c && c <= 'Z',
    ensures
        r == lower_char(c),
{
    (((c as u8) + 32) as char)
}

/// A one-character string.
fn char_str(c: char) -> (r: String)
    requires
        'a' <= c && c <= 'z',
    ensures
        r@ =~= seq![c],
{
    proof {
        reveal_strlit("a");
        reveal_strlit("b");
        reveal_strlit("c");
        reveal_strlit("d");
        reveal_strlit("e");
        reveal_strlit("f");
        reveal_strlit("g");
        reveal_strlit("h");
        reveal_strlit("i");
        reveal_strlit("j");
        reveal_strlit("k");
        reveal_strlit("l");
        reveal_strlit("m");
        reveal_strlit("n");
        reveal_strlit("o");
        reveal_strlit("p");
        reveal_strlit("q");
        reveal_strlit("r");
        reveal_strlit("s");
        reveal_strlit("t");
        reveal_strlit("u");
        reveal_strlit("v");
        reveal_strlit("w");
        reveal_strlit("x");
        reveal_strlit("y");
        reveal_strlit("z");
    }
    let r = if c == 'a' {
        "a"
    } else if c == 'b' {
        "b"
    } else if c == 'c' {
        "c"
    } else if c == 'd' {
        "d"
    } else if c == 'e' {
        "e"
    } else if c == 'f' {
        "f"
    } else if c == 'g' {
        "g"
    } else if c == 'h' {
        "h"
    } else if c == 'i' {
        "i"
    } else if c == 'j' {
        "j"
    } else if c == 'k' {
        "k"
    } else if c == 'l' {
        "l"
    } else if c == 'm' {
        "m"
    } else if c == 'n' {
        "n"
    } else if c == 'o' {
        "o"
    } else if c == 'p' {
        "p"
    } else if c == 'q' {
        "q"
    } else if c == 'r' {
        "r"
    } else if c == 's' {
        "s"
    } else if c == 't' {
        "t"
    } else if c == 'u' {
        "u"
    } else if c == 'v' {
        "v"
    } else if c == 'w' {
        "w"
    } else if c == 'x' {
        "x"
    } else if c == 'y' {
        "y"
    } else {
        "z"
    };
    String::from_str(r)
}

/// Repeatedly strip a prefix from the front of a sequence.
pub open spec fn strip_all(s: Seq<char>, p: Seq<char>) -> Seq<char>
    decreases s.len(),
{
    if p.len() > 0 && s.len() >= p.len() && s.take(p.len() as int) == p {
        strip_all(s.skip(p.len() as int), p)
    } else {
        s
    }
}

/// Strip every repetition of a prefix from the front of a string.
pub fn strip_all_prefix(s: &str, p: &str) -> (r: String)
    ensures
        r@ == strip_all(s@, p@),
{
    let n = s.unicode_len();
    let m = p.unicode_len();
    let mut start: usize = 0;
    if m == 0 {
        return String::from_str(s);
    }
    proof {
        assert(s@.subrange(0, n as int) =~= s@);
    }
    while n - start >= m && str_eq(s.substring_char(start, start + m), p)
        invariant
            m == p@.len(),
            n == s@.len(),
            m >= 1,
            start <= n,
            strip_all(s@, p@) == strip_all(s@.subrange(start as int, n as int), p@),
        decreases n - start,
    {
        proof {
            let cur = s@.subrange(start as int, n as int);
            assert(cur.take(m as int) =~= s@.subrange(start as int, (start + m) as int));
            assert(cur.skip(m as int) =~= s@.subrange((start + m) as int, n as int));
        }
        start = start + m;
    }
    proof {
        let cur = s@.subrange(start as int, n as int);
        if cur.len() >= m {
            assert(cur.take(m as int) =~= s@.subrange(start as int, (start + m) as int));
        }
        assert(strip_all(cur, p@) == cur);
    }
    String::from_str(s.substring_char(start, n))
}

/// Parse a whole window of digits as a decimal value of at most the given
/// bound, leading zeros allowed.
pub fn parse_dec_bounded(s: &str, from: usize, to: usize, max: u64) -> (r: Option<u64>)
    requires
        from <= to <= s@.len(),
    ensures
        ({
            let w = s@.subrange(from as int, to as int);
            match r {
                Some(v) => w.len() >= 1 && all_digits(w) && digits_val(w) == v && v <= max,
                None => w.len() == 0 || !all_digits(w) || digits_val(w) > max,
            }
        }),
{
    let ghost w = s@.subrange(from as int, to as int);
    if from == to {
        return None;
    }
    let mut i = from;
    let mut value: u64 = 0;
    while i < to
        invariant
            from <= i <= to <= s@.len(),
            w == s@.subrange(from as int, to as int),
            all_digits(s@.subrange(from as int, i as int)),
            value == digits_val(s@.subrange(from as int, i as int)),
            value <= max,
            max <= u64::MAX,
        decreases to - i,
    {
        let c = s.get_char(i);
        if !('0' <= c && c <= '9') {
            proof {
                assert(!is_digit(w[i - from]));
            }
            return None;
        }
        let d = (c as u64) - ('0' as u64);
        proof {
            let pref = s@.subrange(from as int, i as int);
            let next = s@.subrange(from as int, i + 1 as int);
            assert(next.drop_last() =~= pref);
            assert(next.last() == s@[i as int]);
            assert(char_val(s@[i as int]) == d);
        }
        if d > max || value > (max - d) / 10 || value * 10 > max - d {
            proof {
                let next = s@.subrange(from as int, i + 1 as int);
                assert(digits_val(next) == value * 10 + d);
                assert(digits_val(next) > max) by (nonlinear_arith)
                    requires
                        digits_val(next) == value * 10 + d,
                        d > max || value > (max - d) / 10 || value * 10 > max - d,
                        d < 10,
                        max >= 0,
                ;
                if all_digits(w) {
                    assert(w.subrange(0, next.len() as int) =~= next);
                    lemma_digits_val_monotone(w, next.len() as int);
                }
            }
            return None;
        }
        value = value * 10 + d;
        i = i + 1;
        proof {
            assert(all_digits(s@.subrange(from as int, i as int))) by {
                let next = s@.subrange(from as int, i as int);
                assert(forall|k: int|
                    0 <= k < next.len() - 1 ==> next[k] == s@.subrange(
                        from as int,
                        i - 1 as int,
                    )[k]);
                assert(is_digit(next[next.len() - 1]));
            }
        }
    }
    proof {
        assert(w =~= s@.subrange(from as int, to as int));
    }
    Some(value)
}

/// A digit string denotes at least what any of its prefixes denotes.
pub proof fn lemma_digits_val_monotone(s: Seq<char>, i: int)
    requires
        0 <= i <= s.len(),
        all_digits(s),
    ensures
        digits_val(s) >= digits_val(s.subrange(0, i)),
    decreases s.len() - i,
{
    if i < s.len() {
        lemma_digits_val_monotone(s, i + 1);
        let a = s.subrange(0, i);
        let b = s.subrange(0, i + 1);
        assert(b.drop_last() =~= a);
        assert(digits_val(b) == digits_val(a) * 10 + char_val(b.last()));
        assert(digits_val(a) * 10 >= digits_val(a)) by (nonlinear_arith);
    } else {
        assert(s.subrange(0, s.len() as int) =~= s);
    }
}

/// Find the last occurrence of a character in a string.
pub fn find_last_char(s: &str, c: char) -> (r: Option<usize>)
    ensures
        match r {
            Some(i) => {
                &&& i < s@.len()
                &&& s@[i as int] == c
                &&& forall|j: int| i < j < s@.len() ==> s@[j] != c
            },
            None => forall|j: int| 0 <= j < s@.len() ==> s@[j] != c,
        },
{
    let n = s.unicode_len();
    let mut i: usize = n;
    while i > 0
        invariant
            i <= n,
            n == s@.len(),
            forall|j: int| i <= j < n ==> s@[j] != c,
        decreases i,
    {
        if s.get_char(i - 1) == c {
            return Some(i - 1);
        }
        i = i - 1;
    }
    None
}

/// Find the first occurrence of a character at or after a given position.
pub fn find_char(s: &str, from: usize, c: char) -> (r: Option<usize>)
    requires
        from <= s@.len(),
    ensures
        match r {
            Some(i) => {
                &&& from <= i < s@.len()
                &&& s@[i as int] == c
                &&& forall|j: int| from <= j < i ==> s@[j] != c
            },
            None => forall|j: int| from <= j < s@.len() ==> s@[j] != c,
        },
{
    let n = s.unicode_len();
    let mut i = from;
    while i < n
        invariant
            from <= i <= n,
            n == s@.len(),
            forall|j: int| from <= j < i ==> s@[j] != c,
        decreases n - i,
    {
        if s.get_char(i) == c {
            return Some(i);
        }
        i = i + 1;
    }
    None
}

} // verus!
