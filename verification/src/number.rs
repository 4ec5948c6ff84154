//! Whole numbers as text, in both directions.
use crate::text::chars;
use vstd::prelude::*;
use vstd::string::*;

verus! {

/// What `c` stands for as a digit of the given radix (at most sixteen).
pub open spec fn digit(c: char, radix: nat) -> Option<nat> {
    let v: int = if '0' <= c <= '9' {
        c as u32 - '0' as u32
    } else if 'a' <= c <= 'f' {
        c as u32 - 'a' as u32 + 10
    } else if 'A' <= c <= 'F' {
        c as u32 - 'A' as u32 + 10
    } else {
        16
    };
    if v < radix {
        Some(v as nat)
    } else {
        None
    }
}

/// The number that a run of digits writes, the most significant first.
pub open spec fn positional(s: Seq<char>, radix: nat) -> Option<nat>
    decreases s.len(),
{
    if s.len() == 0 {
        Some(0)
    } else {
        match (positional(s.drop_last(), radix), digit(s.last(), radix)) {
            (Some(v), Some(d)) => Some(v * radix + d),
            _ => None,
        }
    }
}

/// The unsigned number that `s` writes: one or more digits, behind at most one `+`, no
/// greater than `max`.
pub open spec fn unsigned(s: Seq<char>, radix: nat, max: nat) -> Option<nat> {
    let body = if s.len() > 0 && s[0] == '+' {
        s.drop_first()
    } else {
        s
    };
    match positional(body, radix) {
        Some(v) => if body.len() > 0 && v <= max {
            Some(v)
        } else {
            None
        },
        None => None,
    }
}

/// The number that one or more digits write, no greater than `max`.
pub open spec fn digits_value(s: Seq<char>, radix: nat, max: nat) -> Option<nat> {
    match positional(s, radix) {
        Some(v) => if s.len() > 0 && v <= max {
            Some(v)
        } else {
            None
        },
        None => None,
    }
}

/// The `i64` that `s` writes: one or more decimal digits, behind at most one sign.
pub open spec fn signed(s: Seq<char>) -> Option<int> {
    if s.len() > 0 && s[0] == '-' {
        let body = s.drop_first();
        match positional(body, 10) {
            Some(v) => if body.len() > 0 && v <= i64::MAX + 1 {
                Some(-v)
            } else {
                None
            },
            None => None,
        }
    } else {
        match unsigned(s, 10, i64::MAX as nat) {
            Some(v) => Some(v as int),
            None => None,
        }
    }
}

/// The number that a run of digits writes is no less than the one its start writes.
pub proof fn positional_grows(s: Seq<char>, radix: nat, k: int)
    requires
        0 <= k <= s.len(),
        radix >= 1,
        positional(s, radix) is Some,
    ensures
        positional(s.take(k), radix) is Some,
        positional(s.take(k), radix)->0 <= positional(s, radix)->0,
    decreases s.len() - k,
{
    if k == s.len() {
        assert(s.take(k) =~= s);
    } else {
        positional_grows(s, radix, k + 1);
        assert(s.take(k + 1).drop_last() =~= s.take(k));
        let v = positional(s.take(k), radix)->0;
        assert(v * radix >= v) by (nonlinear_arith)
            requires
                radix >= 1,
                v >= 0,
        ;
    }
}

/// The number that a run of decimal digits writes, for runs of at most four characters.
pub proof fn positional_is_bounded(s: Seq<char>)
    requires
        s.len() <= 4,
    ensures
        positional(s, 10) is Some ==> positional(s, 10)->0 < 10000,
{
    reveal_with_fuel(positional, 6);
}

fn digit_of(c: char, radix: u32) -> (r: Option<u32>)
    requires
        radix <= 16,
    ensures
        match r {
            Some(d) => digit(c, radix as nat) == Some(d as nat) && d < radix,
            None => digit(c, radix as nat) is None,
        },
{
    let v: u32 = if '0' <= c && c <= '9' {
        c as u32 - '0' as u32
    } else if 'a' <= c && c <= 'f' {
        c as u32 - 'a' as u32 + 10
    } else if 'A' <= c && c <= 'F' {
        c as u32 - 'A' as u32 + 10
    } else {
        16
    };
    if v < radix {
        Some(v)
    } else {
        None
    }
}

/// Reads the digits `cs[from..]`.
fn read_digits(cs: &Vec<char>, from: usize, radix: u32, max: u64) -> (r: Option<u64>)
    requires
        from <= cs@.len(),
        2 <= radix <= 16,
    ensures
        match r {
            Some(v) => from < cs@.len() && positional(cs@.skip(from as int), radix as nat) == Some(
                v as nat,
            ) && v <= max,
            None => from == cs@.len() || match positional(cs@.skip(from as int), radix as nat) {
                Some(v) => v > max,
                None => true,
            },
        },
{
    let n = cs.len();
    if from == n {
        return None;
    }
    let ghost body = cs@.skip(from as int);
    let mut value: u64 = 0;
    let mut i: usize = from;
    while i < n
        invariant
            n == cs@.len(),
            from <= i <= n,
            2 <= radix <= 16,
            from < n,
            body == cs@.skip(from as int),
            value <= max,
            positional(body.take(i - from), radix as nat) == Some(value as nat),
        decreases n - i,
    {
        proof {
            assert(body.take(i - from + 1).drop_last() =~= body.take(i - from));
            assert(body.take(i - from + 1).last() == cs@[i as int]);
            if positional(body, radix as nat) is Some {
                positional_grows(body, radix as nat, i - from + 1);
            }
        }
        let d: u32 = match digit_of(cs[i], radix) {
            Some(d) => d,
            None => {
                return None;
            },
        };
        let shifted: u64 = match value.checked_mul(radix as u64) {
            Some(v) => v,
            None => {
                return None;
            },
        };
        let next: u64 = match shifted.checked_add(d as u64) {
            Some(v) => v,
            None => {
                return None;
            },
        };
        if next > max {
            return None;
        }
        value = next;
        i += 1;
    }
    assert(body.take(n - from) =~= body);
    Some(value)
}

/// Reads an unsigned number no greater than `max`, as the `from_str_radix` of an unsigned
/// integer type with that greatest value does.
pub fn parse_unsigned(s: &str, radix: u32, max: u64) -> (r: Option<u64>)
    requires
        2 <= radix <= 16,
    ensures
        match r {
            Some(v) => unsigned(s@, radix as nat, max as nat) == Some(v as nat),
            None => unsigned(s@, radix as nat, max as nat) is None,
        },
{
    let cs = chars(s);
    assert(s@.skip(0) =~= s@);
    assert(s@.len() > 0 ==> s@.skip(1) =~= s@.drop_first());
    let from: usize = if cs.len() > 0 && cs[0] == '+' {
        1
    } else {
        0
    };
    read_digits(&cs, from, radix, max)
}

/// Reads a number no greater than `max` that is made of digits alone.
pub fn parse_digits(s: &str, radix: u32, max: u64) -> (r: Option<u64>)
    requires
        2 <= radix <= 16,
    ensures
        match r {
            Some(v) => digits_value(s@, radix as nat, max as nat) == Some(v as nat),
            None => digits_value(s@, radix as nat, max as nat) is None,
        },
{
    let cs = chars(s);
    assert(s@.skip(0) =~= s@);
    read_digits(&cs, 0, radix, max)
}

/// Reads a `u64` in decimal, as `str::parse` does.
pub fn parse_u64(s: &str) -> (r: Option<u64>)
    ensures
        match r {
            Some(v) => unsigned(s@, 10, u64::MAX as nat) == Some(v as nat),
            None => unsigned(s@, 10, u64::MAX as nat) is None,
        },
{
    parse_unsigned(s, 10, u64::MAX)
}

/// Reads a `u32` in decimal, as `str::parse` does.
pub fn parse_u32(s: &str) -> (r: Option<u32>)
    ensures
        match r {
            Some(v) => unsigned(s@, 10, u32::MAX as nat) == Some(v as nat),
            None => unsigned(s@, 10, u32::MAX as nat) is None,
        },
{
    match parse_unsigned(s, 10, u32::MAX as u64) {
        Some(v) => Some(v as u32),
        None => None,
    }
}

/// Reads an `i64` in decimal, as `str::parse` does.
pub fn parse_i64(s: &str) -> (r: Option<i64>)
    ensures
        match r {
            Some(v) => signed(s@) == Some(v as int),
            None => signed(s@) is None,
        },
{
    let cs = chars(s);
    if cs.len() > 0 && cs[0] == '-' {
        assert(s@.skip(1) =~= s@.drop_first());
        match read_digits(&cs, 1, 10, 0x8000_0000_0000_0000) {
            Some(v) => if v == 0x8000_0000_0000_0000 {
                Some(i64::MIN)
            } else {
                Some(-(v as i64))
            },
            None => None,
        }
    } else {
        match parse_unsigned(s, 10, i64::MAX as u64) {
            Some(v) => Some(v as i64),
            None => None,
        }
    }
}

/// The character of a digit below sixteen, letters in lower case.
pub open spec fn digit_char(d: nat) -> char {
    if d < 10 {
        ('0' as u32 + d) as u32 as char
    } else {
        ('a' as u32 + d - 10) as u32 as char
    }
}

#[via_fn]
proof fn quotient_shrinks(n: nat, radix: nat) {
    if n >= radix && radix >= 2 {
        assert(n / radix < n) by (nonlinear_arith)
            requires
                n >= radix >= 2,
        ;
    }
}

/// `n` written in the given radix, with no leading zero.
pub open spec fn written(n: nat, radix: nat) -> Seq<char>
    decreases n via quotient_shrinks
{
    if n < radix || radix < 2 {
        seq![digit_char(n)]
    } else {
        written(n / radix, radix).push(digit_char(n % radix))
    }
}

/// `n` written in decimal.
pub open spec fn decimal(n: nat) -> Seq<char> {
    written(n, 10)
}

/// `n` written in decimal, behind a `-` where it is negative.
pub open spec fn decimal_int(n: int) -> Seq<char> {
    if n < 0 {
        seq!['-'] + decimal((-n) as nat)
    } else {
        decimal(n as nat)
    }
}

fn char_of_digit(d: u64) -> (c: char)
    requires
        d < 16,
    ensures
        c == digit_char(d as nat),
{
    if d == 0 { '0' } else if d == 1 { '1' } else if d == 2 { '2' } else if d == 3 { '3' }
    else if d == 4 { '4' } else if d == 5 { '5' } else if d == 6 { '6' } else if d == 7 { '7' }
    else if d == 8 { '8' } else if d == 9 { '9' } else if d == 10 { 'a' } else if d == 11 { 'b' }
    else if d == 12 { 'c' } else if d == 13 { 'd' } else if d == 14 { 'e' } else { 'f' }
}

/// `n` written in the given radix.
pub fn write_radix(n: u64, radix: u64) -> (r: String)
    requires
        2 <= radix <= 16,
    ensures
        r@ == written(n as nat, radix as nat),
    decreases n,
{
    if n < radix {
        let mut s = String::new();
        s.push(char_of_digit(n));
        assert(s@ =~= seq![digit_char(n as nat)]);
        s
    } else {
        assert(n / radix < n) by (nonlinear_arith)
            requires
                n >= radix >= 2,
        ;
        assert(0 <= n % radix < radix) by (nonlinear_arith)
            requires
                radix >= 2,
                n >= 0,
        ;
        let mut s = write_radix(n / radix, radix);
        s.push(char_of_digit(n % radix));
        s
    }
}

/// `n` written in decimal, as `to_string` does.
pub fn write_u64(n: u64) -> (r: String)
    ensures
        r@ == decimal(n as nat),
{
    write_radix(n, 10)
}

/// `n` written in decimal, as `to_string` does.
pub fn write_i64(n: i64) -> (r: String)
    ensures
        r@ == decimal_int(n as int),
{
    if n >= 0 {
        write_u64(n as u64)
    } else {
        let mut s = String::new();
        s.push('-');
        let magnitude: u64 = if n == i64::MIN {
            0x8000_0000_0000_0000
        } else {
            (-n) as u64
        };
        let digits = write_u64(magnitude);
        assert(s@ =~= seq!['-']);
        s.append(digits.as_str());
        s
    }
}

/// Reading a written number gives the number back.
pub proof fn written_reads_back(n: nat, radix: nat)
    requires
        2 <= radix <= 16,
    ensures
        positional(written(n, radix), radix) == Some(n),
        written(n, radix).len() > 0,
    decreases n,
{
    if n < radix {
        assert(seq![digit_char(n)].drop_last() =~= seq![]);
        assert(digit(digit_char(n), radix) == Some(n));
        assert(positional(Seq::<char>::empty(), radix) == Some(0nat));
        assert(0 * radix == 0);
    } else {
        assert(n / radix < n) by (nonlinear_arith)
            requires
                n >= radix >= 2,
        ;
        assert(0 <= n % radix < radix) by (nonlinear_arith)
            requires
                radix >= 2,
                n >= 0,
        ;
        written_reads_back(n / radix, radix);
        let front = written(n / radix, radix);
        let d = n % radix;
        assert(front.push(digit_char(d)).drop_last() =~= front);
        assert(digit(digit_char(d), radix) == Some(d));
        assert((n / radix) * radix + d == n) by (nonlinear_arith)
            requires
                radix >= 2,
                d == n % radix,
        ;
    }
}

/// A number within range that is written in decimal is read back as that number.
pub proof fn decimal_reads_back(n: nat, max: nat)
    requires
        n <= max,
    ensures
        unsigned(decimal(n), 10, max) == Some(n),
{
    written_reads_back(n, 10);
    written_starts_with_a_digit(n, 10);
}

proof fn written_starts_with_a_digit(n: nat, radix: nat)
    requires
        2 <= radix <= 16,
    ensures
        written(n, radix).len() > 0,
        written(n, radix)[0] != '+',
        written(n, radix)[0] != '-',
    decreases n,
{
    if n >= radix {
        assert(n / radix < n) by (nonlinear_arith)
            requires
                n >= radix >= 2,
        ;
        written_starts_with_a_digit(n / radix, radix);
    }
}

/// An `i64` that is written in decimal is read back as that number.
pub proof fn decimal_int_reads_back(n: int)
    requires
        i64::MIN <= n <= i64::MAX,
    ensures
        signed(decimal_int(n)) == Some(n),
{
    if n < 0 {
        let digits = decimal((-n) as nat);
        written_reads_back((-n) as nat, 10);
        assert((seq!['-'] + digits).drop_first() =~= digits);
    } else {
        written_starts_with_a_digit(n as nat, 10);
        decimal_reads_back(n as nat, i64::MAX as nat);
    }
}

/// What writes a number is made of digits.
pub proof fn positional_is_digits(s: Seq<char>, radix: nat)
    requires
        positional(s, radix) is Some,
    ensures
        forall|i: int| 0 <= i < s.len() ==> digit(#[trigger] s[i], radix) is Some,
    decreases s.len(),
{
    if s.len() > 0 {
        let init = s.drop_last();
        positional_is_digits(init, radix);
        assert forall|i: int| 0 <= i < s.len() implies digit(#[trigger] s[i], radix) is Some by {
            if i < init.len() {
                assert(init[i] == s[i]);
            }
        }
    }
}

/// How many decimal digits `s` starts with.
pub open spec fn digit_run(s: Seq<char>) -> int
    decreases s.len(),
{
    if s.len() > 0 && digit(s[0], 10) is Some {
        1 + digit_run(s.drop_first())
    } else {
        0
    }
}

/// The run of digits that a text starts with ends where the first other character stands.
pub proof fn digit_run_facts(s: Seq<char>)
    ensures
        0 <= digit_run(s) <= s.len(),
        forall|i: int| 0 <= i < digit_run(s) ==> digit(#[trigger] s[i], 10) is Some,
        digit_run(s) < s.len() ==> digit(s[digit_run(s)], 10) is None,
        positional(s.take(digit_run(s)), 10) is Some,
    decreases s.len(),
{
    if s.len() > 0 && digit(s[0], 10) is Some {
        let rest = s.drop_first();
        digit_run_facts(rest);
        let n = digit_run(s);
        assert forall|i: int| 0 <= i < n implies digit(#[trigger] s[i], 10) is Some by {
            if i > 0 {
                assert(s[i] == rest[i - 1]);
            }
        }
        if n < s.len() {
            assert(s[n] == rest[n - 1]);
        }
        digits_have_a_value(s.take(n));
    } else {
        assert(s.take(0) =~= seq![]);
    }
}

/// A run of digits writes a number.
pub proof fn digits_have_a_value(s: Seq<char>)
    requires
        forall|i: int| 0 <= i < s.len() ==> digit(#[trigger] s[i], 10) is Some,
    ensures
        positional(s, 10) is Some,
    decreases s.len(),
{
    if s.len() > 0 {
        let init = s.drop_last();
        assert forall|i: int| 0 <= i < init.len() implies digit(#[trigger] init[i], 10) is Some by {
            assert(init[i] == s[i]);
        }
        digits_have_a_value(init);
        assert(digit(s[s.len() - 1], 10) is Some);
    }
}

/// What follows a character that is no digit leaves the run of digits before it as it is.
pub proof fn digit_run_of_longer(a: Seq<char>, b: Seq<char>)
    requires
        digit_run(a) < a.len(),
    ensures
        digit_run(a + b) == digit_run(a),
    decreases a.len(),
{
    if a.len() > 0 && digit(a[0], 10) is Some {
        assert((a + b).drop_first() =~= a.drop_first() + b);
        digit_run_of_longer(a.drop_first(), b);
    }
}

/// A run of digits ends where what follows it starts with another character.
pub proof fn digit_run_of_digits(digits: Seq<char>, rest: Seq<char>)
    requires
        forall|i: int| 0 <= i < digits.len() ==> digit(#[trigger] digits[i], 10) is Some,
        rest.len() > 0 ==> digit(rest[0], 10) is None,
    ensures
        digit_run(digits + rest) == digits.len(),
    decreases digits.len(),
{
    let all = digits + rest;
    if digits.len() > 0 {
        let tail = digits.drop_first();
        assert forall|i: int| 0 <= i < tail.len() implies digit(#[trigger] tail[i], 10) is Some by {
            assert(tail[i] == digits[i + 1]);
        }
        digit_run_of_digits(tail, rest);
        assert(all[0] == digits[0]);
        assert(all.drop_first() =~= tail + rest);
    } else {
        assert(all =~= rest);
    }
}

/// A number is written without zeros at its start, so that each has one way to be written.
pub proof fn no_zeros_stand_at_the_start(n: nat)
    ensures
        decimal(0) == seq!['0'],
        n > 0 ==> decimal(n)[0] != '0',
{
    if n > 0 {
        starts_above_zero(n, 10);
    }
}

proof fn starts_above_zero(n: nat, radix: nat)
    requires
        n > 0,
        2 <= radix <= 16,
    ensures
        written(n, radix).len() > 0,
        written(n, radix)[0] != '0',
    decreases n,
{
    if n >= radix {
        assert(0 < n / radix < n) by (nonlinear_arith)
            requires
                n >= radix >= 2,
        ;
        starts_above_zero(n / radix, radix);
    }
}

/// A number may have a plus sign before it, and a signed one a minus sign, which negates it; one that
/// is too large, or of which a character is no digit, is none, and neither is a sign alone.
pub proof fn signs_stand_before_numbers(n: nat, max: nat, s: Seq<char>, i: int)
    ensures
        unsigned(seq!['+'] + decimal(n), 10, max) == if n <= max {
            Some(n)
        } else {
            None
        },
        n > max ==> unsigned(decimal(n), 10, max) is None,
        signed(seq!['+'] + decimal(n)) == if n <= i64::MAX {
            Some(n as int)
        } else {
            None
        },
        signed(seq!['-'] + decimal(n)) == if n <= i64::MAX + 1 {
            Some(-n)
        } else {
            None
        },
        0 <= i < s.len() && digit(s[i], 10) is None && (i > 0 || s[i] != '+') ==> unsigned(s, 10, max) is None,
        0 <= i < s.len() && digit(s[i], 10) is None && (i > 0 || (s[i] != '+' && s[i] != '-')) ==> signed(s) is None,
        unsigned(seq![], 10, max) is None && unsigned(seq!['+'], 10, max) is None,
        signed(seq![]) is None && signed(seq!['+']) is None && signed(seq!['-']) is None,
{
    let d = decimal(n);
    written_reads_back(n, 10);
    written_starts_with_a_digit(n, 10);
    assert((seq!['+'] + d).drop_first() =~= d);
    assert((seq!['-'] + d).drop_first() =~= d);
    assert(seq!['+'].drop_first() =~= Seq::<char>::empty());
    assert(seq!['-'].drop_first() =~= Seq::<char>::empty());
    if 0 <= i < s.len() && digit(s[i], 10) is None {
        if positional(s, 10) is Some {
            positional_is_digits(s, 10);
        }
        let rest = s.drop_first();
        if i > 0 && positional(rest, 10) is Some {
            positional_is_digits(rest, 10);
            assert(rest[i - 1] == s[i]);
        }
    }
}

} // verus!
