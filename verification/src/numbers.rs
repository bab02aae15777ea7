//! Numbers written as text and read from text.
use crate::text::{all_digits, digit, hex_digit, hex_value, is_digit};
use vstd::prelude::*;

verus! {

// ---------------------------------------------------------------- decimal

pub open spec fn digit_char(d: int) -> char {
    ('0' as int + d) as char
}

/// The decimal digits of a number, without leading zeros.
pub open spec fn decimal(n: nat) -> Seq<char>
    decreases n,
{
    if n < 10 {
        seq![digit_char(n as int)]
    } else {
        decimal(n / 10).push(digit_char((n % 10) as int))
    }
}

/// The number that decimal digits stand for.
pub open spec fn decimal_value(s: Seq<char>) -> nat
    decreases s.len(),
{
    if s.len() == 0 {
        0
    } else {
        decimal_value(s.drop_last()) * 10 + (s.last() as nat - '0' as nat) as nat
    }
}

fn digit_of(d: u8) -> (r: char)
    requires
        d < 10,
    ensures
        r == digit_char(d as int),
{
    (48 + d) as char
}

/// Appends the decimal digits of a number.
pub fn push_decimal(out: &mut String, n: u64)
    ensures
        final(out)@ == old(out)@ + decimal(n as nat),
    decreases n,
{
    if n >= 10 {
        push_decimal(out, n / 10);
    }
    let ghost before = out@;
    out.push(digit_of((n % 10) as u8));
    proof {
        if n >= 10 {
            assert(old(out)@ + decimal((n / 10) as nat).push(digit_char((n % 10) as int))
                == (old(out)@ + decimal((n / 10) as nat)).push(digit_char((n % 10) as int)));
        } else {
            assert(before.push(digit_char(n as int)) == before + seq![digit_char(n as int)]);
        }
    }
}

proof fn lemma_value_grows(s: Seq<char>, i: int)
    requires
        all_digits(s),
        0 <= i <= s.len(),
    ensures
        decimal_value(s.take(i)) <= decimal_value(s),
    decreases s.len() - i,
{
    if i < s.len() {
        lemma_value_grows(s, i + 1);
        assert(s.take(i + 1).drop_last() == s.take(i));
    } else {
        assert(s.take(i) == s);
    }
}

/// Reads decimal digits, where their number does not exceed `limit`.
pub fn read_digits(s: &[char], limit: u64) -> (r: Option<u64>)
    ensures
        match r {
            Some(n) => all_digits(s@) && decimal_value(s@) == n && n <= limit,
            None => !all_digits(s@) || decimal_value(s@) > limit,
        },
{
    let mut n: u64 = 0;
    for i in 0..s.len()
        invariant
            forall|j: int| 0 <= j < i ==> digit(#[trigger] s@[j]),
            n == decimal_value(s@.take(i as int)),
            n <= limit,
    {
        let c = s[i];
        if !is_digit(c) {
            assert(!digit(s@[i as int]));
            return None;
        }
        let d: u64 = (c as u32 - 48) as u64;
        proof {
            assert(s@.take(i + 1).drop_last() == s@.take(i as int));
            assert(decimal_value(s@.take(i + 1)) == n * 10 + d);
            if all_digits(s@) {
                lemma_value_grows(s@, i + 1);
            }
        }
        if d > limit || n > (limit - d) / 10 {
            assert(n * 10 + d > limit) by (nonlinear_arith)
                requires
                    d > limit || n > (limit - d) / 10,
                    n >= 0,
            ;
            return None;
        }
        assert(n * 10 + d <= limit) by (nonlinear_arith)
            requires
                d <= limit,
                n <= (limit - d) / 10,
        ;
        n = n * 10 + d;
    }
    assert(s@.take(s@.len() as int) == s@);
    Some(n)
}

proof fn lemma_digit_char(d: int)
    requires
        0 <= d < 10,
    ensures
        digit(digit_char(d)),
        digit_char(d) as int == '0' as int + d,
{
}

/// Reading the decimal digits of a number gives the number back.
pub proof fn decimal_round_trip(n: nat)
    ensures
        decimal(n).len() > 0,
        all_digits(decimal(n)),
        decimal_value(decimal(n)) == n,
        n >= 10 ==> decimal(n)[0] == decimal(n / 10)[0],
        decimal(n)[0] == '0' ==> n == 0,
    decreases n,
{
    lemma_digit_char((n % 10) as int);
    if n < 10 {
        lemma_digit_char(n as int);
        assert(decimal(n).drop_last() == Seq::<char>::empty());
        assert(decimal_value(Seq::<char>::empty()) == 0);
        assert(decimal(n).last() == digit_char(n as int));
    } else {
        decimal_round_trip(n / 10);
        assert(decimal(n).drop_last() == decimal(n / 10));
        assert(n == (n / 10) * 10 + n % 10);
    }
}

// ---------------------------------------------------------------- numbers with reasons

/// Why a text is no number, as the standard library tells it.
#[derive(Clone, Copy, PartialEq, Eq, Structural, Debug)]
pub enum NumberFault {
    Empty,
    Digit,
    TooLarge,
}

/// The words in which the fault of a number is told.
pub open spec fn number_refusal(e: NumberFault) -> Seq<char> {
    match e {
        NumberFault::Empty => "cannot parse integer from empty string"@,
        NumberFault::Digit => "invalid digit found in string"@,
        NumberFault::TooLarge => "number too large to fit in target type"@,
    }
}

impl NumberFault {
    /// The fault in words.
    pub fn message(&self) -> (r: &'static str)
        ensures
            r@ == number_refusal(*self),
    {
        match self {
            NumberFault::Empty => "cannot parse integer from empty string",
            NumberFault::Digit => "invalid digit found in string",
            NumberFault::TooLarge => "number too large to fit in target type",
        }
    }
}

/// The number that digits give after those of a number, or the first fault from the left.
pub open spec fn scanned(s: Seq<char>, before: nat, limit: nat) -> Result<nat, NumberFault>
    decreases s.len(),
{
    if s.len() == 0 {
        Ok(before)
    } else if !digit(s[0]) {
        Err(NumberFault::Digit)
    } else {
        let next = before * 10 + (s[0] as int - '0' as int) as nat;
        if next > limit {
            Err(NumberFault::TooLarge)
        } else {
            scanned(s.skip(1), next, limit)
        }
    }
}

/// The number that a text gives, up to a limit. A plus sign may stand before it.
pub open spec fn number_of(s: Seq<char>, limit: nat) -> Result<nat, NumberFault> {
    if s.len() == 0 {
        Err(NumberFault::Empty)
    } else if s[0] == '+' {
        if s.len() == 1 {
            Err(NumberFault::Digit)
        } else {
            scanned(s.skip(1), 0, limit)
        }
    } else {
        scanned(s, 0, limit)
    }
}

proof fn lemma_scanned_limited(s: Seq<char>, before: nat, limit: nat)
    requires
        before <= limit,
    ensures
        scanned(s, before, limit) matches Ok(n) ==> n <= limit,
    decreases s.len(),
{
    if s.len() > 0 && digit(s[0]) {
        let next = before * 10 + (s[0] as int - '0' as int) as nat;
        if next <= limit {
            lemma_scanned_limited(s.skip(1), next, limit);
        }
    }
}

/// A number that is read is within its limit.
pub proof fn numbers_are_limited(s: Seq<char>, limit: nat)
    ensures
        number_of(s, limit) matches Ok(n) ==> n <= limit,
{
    lemma_scanned_limited(s, 0, limit);
    lemma_scanned_limited(s.skip(1), 0, limit);
}

/// Reads a number, or tells why a text is none.
pub fn read_number(s: &[char], limit: u64) -> (r: Result<u64, NumberFault>)
    ensures
        match r {
            Ok(n) => number_of(s@, limit as nat) == Ok::<nat, NumberFault>(n as nat),
            Err(e) => number_of(s@, limit as nat) == Err::<nat, NumberFault>(e),
        },
{
    if s.len() == 0 {
        return Err(NumberFault::Empty);
    }
    let mut i: usize = 0;
    if s[0] == '+' {
        if s.len() == 1 {
            return Err(NumberFault::Digit);
        }
        i = 1;
    }
    let mut n: u64 = 0;
    assert(s@.skip(0) =~= s@);
    while i < s.len()
        invariant
            i <= s.len(),
            n <= limit,
            number_of(s@, limit as nat) == scanned(s@.skip(i as int), n as nat, limit as nat),
        decreases s.len() - i,
    {
        let c = s[i];
        assert(s@.skip(i as int)[0] == c);
        assert(s@.skip(i as int).skip(1) =~= s@.skip(i + 1));
        if !('0' <= c && c <= '9') {
            return Err(NumberFault::Digit);
        }
        let d: u64 = (c as u32 - '0' as u32) as u64;
        let next: u128 = n as u128 * 10 + d as u128;
        if next > limit as u128 {
            return Err(NumberFault::TooLarge);
        }
        n = next as u64;
        i = i + 1;
    }
    Ok(n)
}

proof fn lemma_scanned_push(s: Seq<char>, c: char, before: nat, limit: nat)
    requires
        digit(c),
        scanned(s, before, limit) is Ok,
    ensures
        ({
            let next = scanned(s, before, limit)->Ok_0 * 10 + (c as int - '0' as int);
            next <= limit ==> scanned(s.push(c), before, limit) == Ok::<_, NumberFault>(next as nat)
        }),
    decreases s.len(),
{
    if s.len() == 0 {
        reveal_with_fuel(scanned, 2);
        assert(s.push(c).skip(1) =~= Seq::<char>::empty());
    } else {
        let next = before * 10 + (s[0] as int - '0' as int) as nat;
        lemma_scanned_push(s.skip(1), c, next, limit);
        assert(s.push(c).skip(1) =~= s.skip(1).push(c));
        assert(s.push(c)[0] == s[0]);
    }
}

proof fn lemma_scanned_decimal(n: nat, limit: nat)
    requires
        n <= limit,
    ensures
        scanned(decimal(n), 0, limit) == Ok::<_, NumberFault>(n),
    decreases n,
{
    if n < 10 {
        lemma_digit_char(n as int);
        lemma_scanned_push(Seq::empty(), digit_char(n as int), 0, limit);
        assert(Seq::<char>::empty().push(digit_char(n as int)) =~= decimal(n));
    } else {
        lemma_digit_char((n % 10) as int);
        lemma_scanned_decimal(n / 10, limit);
        lemma_scanned_push(decimal(n / 10), digit_char((n % 10) as int), 0, limit);
    }
}

/// The decimal digits of a number are read as that number.
pub proof fn decimal_is_read_back(n: nat, limit: nat)
    requires
        n <= limit,
    ensures
        number_of(decimal(n), limit) == Ok::<_, NumberFault>(n),
{
    decimal_round_trip(n);
    lemma_scanned_decimal(n, limit);
    assert(digit(decimal(n)[0]));
}

// ---------------------------------------------------------------- two digits

/// A number below 100 as two digits; a larger one as its decimal digits.
pub open spec fn two_digits(n: nat) -> Seq<char> {
    if n < 10 {
        seq!['0'] + decimal(n)
    } else {
        decimal(n)
    }
}

/// Appends a number as at least two digits.
pub fn push_two_digits(out: &mut String, n: u64)
    ensures
        final(out)@ == old(out)@ + two_digits(n as nat),
{
    let ghost before = out@;
    if n < 10 {
        out.push('0');
    }
    push_decimal(out, n);
    proof {
        if n < 10 {
            assert(before.push('0') + decimal(n as nat) == before + (seq!['0'] + decimal(n as nat)));
        }
    }
}

// ---------------------------------------------------------------- hexadecimal

/// A hexadecimal digit in lower case.
pub open spec fn hex_char(d: int) -> char {
    if d < 10 {
        ('0' as int + d) as char
    } else {
        ('a' as int + d - 10) as char
    }
}

/// The hexadecimal digits of a number, without leading zeros.
pub open spec fn hexadecimal(n: nat) -> Seq<char>
    decreases n,
{
    if n < 16 {
        seq![hex_char(n as int)]
    } else {
        hexadecimal(n / 16).push(hex_char((n % 16) as int))
    }
}

fn hex_digit_of(d: u8) -> (r: char)
    requires
        d < 16,
    ensures
        r == hex_char(d as int),
{
    if d < 10 {
        (48 + d) as char
    } else {
        (87 + d) as char
    }
}

/// Appends the hexadecimal digits of a number.
pub fn push_hexadecimal(out: &mut String, n: u128)
    ensures
        final(out)@ == old(out)@ + hexadecimal(n as nat),
    decreases n,
{
    if n >= 16 {
        push_hexadecimal(out, n / 16);
    }
    let ghost before = out@;
    out.push(hex_digit_of((n % 16) as u8));
    proof {
        if n >= 16 {
            assert(old(out)@ + hexadecimal((n / 16) as nat).push(hex_char((n % 16) as int))
                == (old(out)@ + hexadecimal((n / 16) as nat)).push(hex_char((n % 16) as int)));
        } else {
            assert(before.push(hex_char(n as int)) == before + seq![hex_char(n as int)]);
        }
    }
}

/// The hexadecimal digits of a number.
pub fn hexadecimal_text(n: u128) -> (r: String)
    ensures
        r@ == hexadecimal(n as nat),
{
    let mut out = String::new();
    push_hexadecimal(&mut out, n);
    assert(Seq::<char>::empty() + hexadecimal(n as nat) == hexadecimal(n as nat));
    out
}

/// Hexadecimal text is never empty and holds hexadecimal digits only.
pub proof fn hexadecimal_is_hex(n: nat)
    ensures
        hexadecimal(n).len() > 0,
        crate::text::all_hex(hexadecimal(n)),
    decreases n,
{
    if n >= 16 {
        hexadecimal_is_hex(n / 16);
    }
}

/// Two lower-case hexadecimal digits for each byte.
pub open spec fn hex_bytes(s: Seq<u8>) -> Seq<char>
    decreases s.len(),
{
    if s.len() == 0 {
        seq![]
    } else {
        hex_bytes(s.drop_last()).push(hex_char(s.last() as int / 16)).push(
            hex_char(s.last() as int % 16),
        )
    }
}

/// Two lower-case hexadecimal digits for each byte.
pub fn hex_bytes_text(s: &[u8]) -> (r: String)
    ensures
        r@ == hex_bytes(s@),
{
    let mut out = String::new();
    for i in 0..s.len()
        invariant
            out@ == hex_bytes(s@.take(i as int)),
    {
        out.push(hex_digit_of(s[i] / 16));
        out.push(hex_digit_of(s[i] % 16));
        assert(s@.take(i + 1).drop_last() == s@.take(i as int));
    }
    assert(s@.take(s@.len() as int) == s@);
    out
}

/// The number that hexadecimal digits stand for.
pub open spec fn hexadecimal_value(s: Seq<char>) -> nat
    decreases s.len(),
{
    if s.len() == 0 {
        0
    } else {
        hexadecimal_value(s.drop_last()) * 16 + hex_value(s.last()) as nat
    }
}

/// Reads one to four hexadecimal digits.
pub fn read_hex_group(s: &[char]) -> (r: Option<u16>)
    ensures
        match r {
            Some(n) => 1 <= s@.len() <= 4 && crate::text::all_hex(s@) && hexadecimal_value(s@) == n,
            None => !(1 <= s@.len() <= 4 && crate::text::all_hex(s@)),
        },
{
    if s.len() < 1 || s.len() > 4 {
        return None;
    }
    let mut n: u32 = 0;
    let mut bound: u32 = 1;
    for i in 0..s.len()
        invariant
            1 <= s.len() <= 4,
            forall|j: int| 0 <= j < i ==> hex_digit(#[trigger] s@[j]),
            n == hexadecimal_value(s@.take(i as int)),
            n < bound,
            i == 0 ==> bound == 1,
            i == 1 ==> bound == 16,
            i == 2 ==> bound == 256,
            i == 3 ==> bound == 4096,
            i == 4 ==> bound == 65536,
    {
        let c = s[i];
        let d: u32 = if '0' <= c && c <= '9' {
            c as u32 - 48
        } else if 'a' <= c && c <= 'f' {
            c as u32 - 87
        } else if 'A' <= c && c <= 'F' {
            c as u32 - 55
        } else {
            assert(!hex_digit(s@[i as int]));
            return None;
        };
        assert(s@.take(i + 1).drop_last() == s@.take(i as int));
        n = n * 16 + d;
        bound = bound * 16;
    }
    assert(s@.take(s@.len() as int) == s@);
    Some(n as u16)
}

// ---------------------------------------------------------------- digits and numbers

/// Digits without a leading zero are those of the number that they stand for.
pub proof fn digits_are_written_again(s: Seq<char>)
    requires
        s.len() > 0,
        all_digits(s),
        s.len() > 1 ==> s[0] != '0',
    ensures
        decimal(decimal_value(s)) == s,
        s[0] != '0' ==> decimal_value(s) > 0,
    decreases s.len(),
{
    let head = s.drop_last();
    assert(digit(s[s.len() - 1]));
    let d = (s.last() as nat - '0' as nat) as nat;
    if s.len() == 1 {
        assert(head =~= Seq::<char>::empty());
        assert(decimal_value(head) == 0);
        assert(decimal(d) =~= s);
    } else {
        assert forall|i: int| 0 <= i < head.len() implies digit(#[trigger] head[i]) by {
            assert(s[i] == head[i]);
        }
        assert(head[0] == s[0]);
        digits_are_written_again(head);
        let n = decimal_value(head);
        assert(decimal_value(s) == n * 10 + d);
        assert((n * 10 + d) / 10 == n && (n * 10 + d) % 10 == d);
        assert(head.push(s.last()) =~= s);
    }
}

/// What is read of a text is the number that its digits stand for, with or without a plus sign
/// before them; a text with anything else, or with a number beyond the limit, is none.
pub proof fn numbers_are_their_digits(s: Seq<char>, limit: nat)
    ensures
        ({
            let digits = if s.len() > 0 && s[0] == '+' {
                s.skip(1)
            } else {
                s
            };
            let good = digits.len() > 0 && all_digits(digits) && decimal_value(digits) <= limit;
            &&& number_of(s, limit) is Ok <==> good
            &&& good ==> number_of(s, limit) == Ok::<_, NumberFault>(decimal_value(digits))
            &&& s.len() == 0 ==> number_of(s, limit) == Err::<nat, _>(NumberFault::Empty)
            &&& s.len() > 0 && digits.len() == 0 ==> number_of(s, limit) == Err::<nat, _>(
                NumberFault::Digit,
            )
            &&& digits.len() > 0 && all_digits(digits) && !good ==> number_of(s, limit) == Err::<
                nat,
                _,
            >(NumberFault::TooLarge)
        }),
{
    let digits = if s.len() > 0 && s[0] == '+' {
        s.skip(1)
    } else {
        s
    };
    lemma_scanned_is_value(digits, Seq::empty(), limit);
    assert(Seq::<char>::empty() + digits =~= digits);
    assert(decimal_value(Seq::<char>::empty()) == 0);
}

proof fn lemma_scanned_is_value(s: Seq<char>, before: Seq<char>, limit: nat)
    requires
        all_digits(before),
        decimal_value(before) <= limit,
    ensures
        scanned(s, decimal_value(before), limit) is Ok <==> all_digits(s) && decimal_value(before + s)
            <= limit,
        scanned(s, decimal_value(before), limit) matches Ok(n) ==> n == decimal_value(before + s),
        all_digits(s) && decimal_value(before + s) > limit ==> scanned(
            s,
            decimal_value(before),
            limit,
        ) == Err::<nat, _>(NumberFault::TooLarge),
    decreases s.len(),
{
    if s.len() == 0 {
        assert(before + s =~= before);
    } else if digit(s[0]) {
        let more = before.push(s[0]);
        assert(more.drop_last() =~= before);
        assert(more + s.skip(1) =~= before + s);
        assert forall|i: int| 0 <= i < more.len() implies digit(#[trigger] more[i]) by {
            if i < before.len() {
                assert(before[i] == more[i]);
            }
        }
        assert(all_digits(s) <==> all_digits(s.skip(1))) by {
            if all_digits(s.skip(1)) {
                assert forall|i: int| 0 <= i < s.len() implies digit(#[trigger] s[i]) by {
                    if i > 0 {
                        assert(s.skip(1)[i - 1] == s[i]);
                    }
                }
            }
        }
        if decimal_value(more) <= limit {
            lemma_scanned_is_value(s.skip(1), more, limit);
        } else if all_digits(s) {
            assert(all_digits(more + s.skip(1))) by {
                assert forall|i: int| 0 <= i < (more + s.skip(1)).len() implies digit(
                    #[trigger] (more + s.skip(1))[i],
                ) by {
                    if i < more.len() {
                        assert(digit(more[i]));
                    } else {
                        assert(digit(s.skip(1)[i - more.len()]));
                    }
                }
            }
            lemma_value_grows(before + s, more.len() as int);
            assert((before + s).take(more.len() as int) =~= more);
        }
    } else {
        assert(!all_digits(s));
    }
}

/// Two digits stand for a number below 100; a larger one is written with all of its digits.
pub proof fn two_digits_are_padded(n: nat)
    ensures
        n < 100 ==> two_digits(n).len() == 2,
        n >= 10 ==> two_digits(n) == decimal(n),
        n < 10 ==> two_digits(n) == seq!['0'] + decimal(n),
        all_digits(two_digits(n)),
        decimal_value(two_digits(n)) == n,
{
    decimal_round_trip(n);
    reveal_with_fuel(decimal, 3);
    if n < 10 {
        let s = two_digits(n);
        assert(s =~= seq!['0'] + decimal(n));
        lemma_digit_char(n as int);
        assert(s.drop_last() =~= seq!['0']);
        assert(seq!['0'].drop_last() =~= Seq::<char>::empty());
        reveal_with_fuel(decimal_value, 3);
        assert(s.last() == digit_char(n as int));
        assert forall|i: int| 0 <= i < s.len() implies digit(#[trigger] s[i]) by {
            if i == 1 {
                assert(s[1] == digit_char(n as int));
            }
        }
    }
}

proof fn lemma_hex_char(d: int)
    requires
        0 <= d < 16,
    ensures
        hex_digit(hex_char(d)),
        hex_value(hex_char(d)) == d,
        d > 0 ==> hex_char(d) != '0',
        '0' <= hex_char(d) <= '9' || 'a' <= hex_char(d) <= 'f',
{
}

/// Reading the hexadecimal digits of a number gives the number back; they are in lower case and
/// without leading zeros.
pub proof fn hexadecimal_round_trip(n: nat)
    ensures
        hexadecimal(n).len() > 0,
        hexadecimal_value(hexadecimal(n)) == n,
        n > 0 ==> hexadecimal(n)[0] != '0',
        forall|i: int|
            0 <= i < hexadecimal(n).len() ==> ('0' <= #[trigger] hexadecimal(n)[i] <= '9' || 'a'
                <= hexadecimal(n)[i] <= 'f'),
    decreases n,
{
    lemma_hex_char((n % 16) as int);
    if n < 16 {
        assert(hexadecimal(n).drop_last() =~= Seq::<char>::empty());
        assert(hexadecimal_value(Seq::<char>::empty()) == 0);
        assert(hexadecimal(n).last() == hex_char(n as int));
    } else {
        hexadecimal_round_trip(n / 16);
        assert(hexadecimal(n).drop_last() =~= hexadecimal(n / 16));
        assert(n == (n / 16) * 16 + n % 16);
        assert forall|i: int| 0 <= i < hexadecimal(n).len() implies ('0' <= #[trigger] hexadecimal(
            n,
        )[i] <= '9' || 'a' <= hexadecimal(n)[i] <= 'f') by {
            if i < hexadecimal(n / 16).len() {
                assert(hexadecimal(n)[i] == hexadecimal(n / 16)[i]);
            }
        }
    }
}

/// Each byte is two hexadecimal digits in lower case, in the order of the bytes.
pub proof fn bytes_are_two_digits_each(s: Seq<u8>)
    ensures
        hex_bytes(s).len() == 2 * s.len(),
        forall|i: int|
            0 <= i < s.len() ==> #[trigger] s[i] == 16 * hex_value(hex_bytes(s)[2 * i]) + hex_value(
                hex_bytes(s)[2 * i + 1],
            ),
        forall|j: int|
            0 <= j < hex_bytes(s).len() ==> ('0' <= #[trigger] hex_bytes(s)[j] <= '9' || 'a'
                <= hex_bytes(s)[j] <= 'f'),
    decreases s.len(),
{
    if s.len() > 0 {
        let head = s.drop_last();
        bytes_are_two_digits_each(head);
        let h = hex_bytes(head);
        let all = hex_bytes(s);
        let last = s.last() as int;
        lemma_hex_char(last / 16);
        lemma_hex_char(last % 16);
        assert forall|i: int| 0 <= i < s.len() implies #[trigger] s[i] == 16 * hex_value(all[2 * i])
            + hex_value(all[2 * i + 1]) by {
            if i < head.len() {
                assert(head[i] == s[i]);
                assert(all[2 * i] == h[2 * i] && all[2 * i + 1] == h[2 * i + 1]);
            }
        }
        assert forall|j: int| 0 <= j < all.len() implies ('0' <= #[trigger] all[j] <= '9' || 'a'
            <= all[j] <= 'f') by {
            if j < h.len() {
                assert(all[j] == h[j]);
            }
        }
    }
}

/// A number of 16 bits has four hexadecimal digits at most.
pub proof fn small_numbers_have_few_digits(n: nat)
    requires
        n < 65536,
    ensures
        hexadecimal(n).len() <= 4,
{
    reveal_with_fuel(hexadecimal, 5);
}

/// The first fault of a number from the left is the one that is told: a character that is no digit, or
/// the digit with which the number exceeds its limit.
pub proof fn first_fault_is_told(digits: Seq<char>, c: char, rest: Seq<char>, limit: nat)
    requires
        digits.len() > 0,
        all_digits(digits),
        digit(digits[0]),
    ensures
        !digit(c) && decimal_value(digits) <= limit ==> number_of(digits + seq![c] + rest, limit)
            == Err::<nat, _>(NumberFault::Digit),
        decimal_value(digits) > limit ==> number_of(digits + rest, limit) == Err::<nat, _>(
            NumberFault::TooLarge,
        ),
{
    let none = Seq::<char>::empty();
    assert(decimal_value(none) == 0);
    assert(none + digits =~= digits);
    lemma_scanned_prefix(digits, none, seq![c] + rest, limit);
    lemma_scanned_prefix(digits, none, rest, limit);
    assert(digits + (seq![c] + rest) =~= digits + seq![c] + rest);
    assert((digits + seq![c] + rest)[0] == digits[0]);
    assert((digits + rest)[0] == digits[0]);
    assert((seq![c] + rest)[0] == c);
}

proof fn lemma_scanned_prefix(s: Seq<char>, before: Seq<char>, rest: Seq<char>, limit: nat)
    requires
        all_digits(s),
        all_digits(before),
        decimal_value(before) <= limit,
    ensures
        decimal_value(before + s) <= limit ==> scanned(s + rest, decimal_value(before), limit)
            == scanned(rest, decimal_value(before + s), limit),
        decimal_value(before + s) > limit ==> scanned(s + rest, decimal_value(before), limit)
            == Err::<nat, _>(NumberFault::TooLarge),
    decreases s.len(),
{
    if s.len() == 0 {
        assert(before + s =~= before);
        assert(s + rest =~= rest);
    } else {
        let more = before.push(s[0]);
        let tail = s.skip(1);
        assert(digit(s[0]));
        assert(more.drop_last() =~= before);
        assert(more + tail =~= before + s);
        assert((s + rest)[0] == s[0]);
        assert((s + rest).skip(1) =~= tail + rest);
        assert forall|i: int| 0 <= i < more.len() implies digit(#[trigger] more[i]) by {
            if i < before.len() {
                assert(before[i] == more[i]);
            }
        }
        assert forall|i: int| 0 <= i < tail.len() implies digit(#[trigger] tail[i]) by {
            assert(s[i + 1] == tail[i]);
        }
        if decimal_value(more) <= limit {
            lemma_scanned_prefix(tail, more, rest, limit);
        } else {
            assert forall|i: int| 0 <= i < (before + s).len() implies digit(
                #[trigger] (before + s)[i],
            ) by {
                if i < before.len() {
                    assert(digit(before[i]));
                } else {
                    assert(digit(s[i - before.len()]));
                }
            }
            lemma_value_grows(before + s, more.len() as int);
            assert((before + s).take(more.len() as int) =~= more);
        }
    }
}

} // verus!
