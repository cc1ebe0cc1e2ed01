//! Numbers as digits, in base ten and base sixteen.

use vstd::prelude::*;
use vstd::slice::slice_subrange;

use crate::seqs::{first_index, lemma_first_index_here, lemma_first_index_none};

verus! {

/// The character for one digit; letters are upper case.
pub open spec fn digit_char(d: nat) -> char {
    if d < 10 {
        (48 + d) as char
    } else {
        (55 + d) as char
    }
}

fn char_of_digit(d: u8) -> (r: char)
    requires
        d < 16,
    ensures
        r == digit_char(d as nat),
{
    if d < 10 {
        (48 + d) as char
    } else {
        (55 + d) as char
    }
}

/// The digits of `n` in base `base`, most significant first, at least one.
pub open spec fn numeral(n: nat, base: nat) -> Seq<char>
    recommends
        2 <= base <= 16,
    decreases n,
{
    if n < base || base < 2 {
        seq![digit_char(n)]
    } else {
        proof {
            assert(n / base < n) by (nonlinear_arith)
                requires
                    n >= base,
                    base >= 2,
            ;
        }
        numeral(n / base, base).push(digit_char(n % base))
    }
}

/// `n` in base ten.
pub open spec fn decimal(n: nat) -> Seq<char> {
    numeral(n, 10)
}

fn numeral_of(n: u64, base: u64) -> (r: String)
    requires
        2 <= base <= 16,
    ensures
        r@ == numeral(n as nat, base as nat),
    decreases n,
{
    if n < base {
        let mut out = String::new();
        out.push(char_of_digit(n as u8));
        assert(out@ =~= seq![digit_char(n as nat)]);
        out
    } else {
        assert(n / base < n) by (nonlinear_arith)
            requires
                n >= base,
                base >= 2,
        ;
        let mut out = numeral_of(n / base, base);
        out.push(char_of_digit((n % base) as u8));
        out
    }
}

/// A number in base ten is made of digits, at least one.
pub proof fn lemma_decimal_digits(n: nat)
    ensures
        decimal(n).len() > 0,
        forall|i: int| 0 <= i < decimal(n).len() ==> '0' <= #[trigger] decimal(n)[i] <= '9',
    decreases n,
{
    if n >= 10 {
        lemma_decimal_digits(n / 10);
    }
}

/// `n` in base ten.
pub fn dec(n: u64) -> (r: String)
    ensures
        r@ == decimal(n as nat),
{
    numeral_of(n, 10)
}

/// The text of a signed number: a minus sign before the digits of a negative one.
pub open spec fn signed_decimal(n: int) -> Seq<char> {
    if n < 0 {
        seq!['-'] + decimal((-n) as nat)
    } else {
        decimal(n as nat)
    }
}

pub fn signed_dec(n: i32) -> (r: String)
    ensures
        r@ == signed_decimal(n as int),
{
    if n < 0 {
        let mut out = String::new();
        out.push('-');
        assert(out@ =~= seq!['-']);
        let d = dec((-(n as i64)) as u64);
        out.append(d.as_str());
        out
    } else {
        dec(n as u64)
    }
}

/// `n` in base sixteen with upper-case digits, filled up with zeros on the
/// left to `width` digits.
pub open spec fn hex_padded(n: nat, width: nat) -> Seq<char> {
    zeros_before(numeral(n, 16), width)
}

/// `n` in base ten, filled up with zeros on the left to `width` digits.
pub open spec fn decimal_padded(n: nat, width: nat) -> Seq<char> {
    zeros_before(decimal(n), width)
}

/// `s`, filled up with zeros on the left to `width` characters.
pub open spec fn zeros_before(s: Seq<char>, width: nat) -> Seq<char> {
    if s.len() < width {
        crate::text::repeated('0', (width - s.len()) as nat) + s
    } else {
        s
    }
}

fn fill_zeros(s: &str, width: usize) -> (r: String)
    ensures
        r@ == zeros_before(s@, width as nat),
{
    let n: usize = s.unicode_len();
    if n < width {
        crate::text::cat2(crate::text::repeat('0', width - n).as_str(), s)
    } else {
        s.to_owned()
    }
}

pub fn hex(n: u32, width: usize) -> (r: String)
    ensures
        r@ == hex_padded(n as nat, width as nat),
{
    let s = numeral_of(n as u64, 16);
    fill_zeros(s.as_str(), width)
}

pub fn dec_padded(n: u32, width: usize) -> (r: String)
    ensures
        r@ == decimal_padded(n as nat, width as nat),
{
    let s = dec(n as u64);
    fill_zeros(s.as_str(), width)
}

// ---------------------------------------------------------------------------
// Reading
// ---------------------------------------------------------------------------

/// The value of one digit, below `base`.
pub open spec fn digit_value(c: char, base: nat) -> Option<nat> {
    let v: int = if '0' <= c <= '9' {
        c as int - 48
    } else if 'a' <= c <= 'f' {
        c as int - 87
    } else if 'A' <= c <= 'F' {
        c as int - 55
    } else {
        99
    };
    if v < base {
        Some(v as nat)
    } else {
        None
    }
}

/// Whether `c` is a hexadecimal digit.
pub open spec fn hex_digit(c: char) -> bool {
    digit_value(c, 16) is Some
}

pub fn value_of_digit(c: char, base: u32) -> (r: Option<u32>)
    requires
        base <= 16,
    ensures
        match r {
            Some(v) => digit_value(c, base as nat) == Some(v as nat),
            None => digit_value(c, base as nat) is None,
        },
{
    let v: u32 = if '0' <= c && c <= '9' {
        c as u32 - 48
    } else if 'a' <= c && c <= 'f' {
        c as u32 - 87
    } else if 'A' <= c && c <= 'F' {
        c as u32 - 55
    } else {
        99
    };
    if v < base {
        Some(v)
    } else {
        None
    }
}

/// Whether every character is a hexadecimal digit.
pub open spec fn all_hex(s: Seq<char>) -> bool {
    forall|i: int| 0 <= i < s.len() ==> hex_digit(#[trigger] s[i])
}

pub fn is_all_hex(s: &[char]) -> (r: bool)
    ensures
        r == all_hex(s@),
{
    let mut i: usize = 0;
    while i < s.len()
        invariant
            i <= s.len(),
            forall|j: int| 0 <= j < i ==> hex_digit(#[trigger] s@[j]),
        decreases s.len() - i,
    {
        if value_of_digit(s[i], 16).is_none() {
            assert(!hex_digit(s@[i as int]));
            return false;
        }
        i += 1;
    }
    true
}

/// Why a text is not an unsigned number that fits.
#[derive(Debug, Clone, Copy, PartialEq, Eq, Structural)]
pub enum NumberError {
    Empty,
    InvalidDigit,
    TooLarge,
}

/// How the error of a number that cannot be read is told.
pub open spec fn number_error_text(e: NumberError) -> Seq<char> {
    match e {
        NumberError::Empty => "cannot parse integer from empty string"@,
        NumberError::InvalidDigit => "invalid digit found in string"@,
        NumberError::TooLarge => "number too large to fit in target type"@,
    }
}

impl NumberError {
    pub fn text(&self) -> (r: &'static str)
        ensures
            r@ == number_error_text(*self),
    {
        match self {
            NumberError::Empty => "cannot parse integer from empty string",
            NumberError::InvalidDigit => "invalid digit found in string",
            NumberError::TooLarge => "number too large to fit in target type",
        }
    }
}

/// What is read from the digits `s`, from the left, on top of `acc`: a digit
/// that is none ends the reading, and so does a value above `max`.
pub open spec fn digits_value(s: Seq<char>, base: nat, acc: nat, max: nat) -> Result<
    nat,
    NumberError,
>
    decreases s.len(),
{
    if s.len() == 0 {
        Ok(acc)
    } else {
        match digit_value(s[0], base) {
            None => Err(NumberError::InvalidDigit),
            Some(d) => if acc * base + d > max {
                Err(NumberError::TooLarge)
            } else {
                digits_value(s.skip(1), base, acc * base + d, max)
            },
        }
    }
}

/// The number written in `s`: digits, with an optional plus sign before them.
pub open spec fn unsigned_value(s: Seq<char>, base: nat, max: nat) -> Result<nat, NumberError> {
    if s.len() == 0 {
        Err(NumberError::Empty)
    } else if s.len() == 1 && (s[0] == '+' || s[0] == '-') {
        Err(NumberError::InvalidDigit)
    } else if s[0] == '+' {
        digits_value(s.skip(1), base, 0, max)
    } else {
        digits_value(s, base, 0, max)
    }
}

/// Reads an unsigned number of at most `max`.
pub fn parse_unsigned(s: &[char], base: u32, max: u32) -> (r: Result<u32, NumberError>)
    requires
        2 <= base <= 16,
    ensures
        match r {
            Ok(v) => unsigned_value(s@, base as nat, max as nat) == Ok::<nat, NumberError>(v as nat),
            Err(e) => unsigned_value(s@, base as nat, max as nat) == Err::<nat, NumberError>(e),
        },
{
    if s.len() == 0 {
        return Err(NumberError::Empty);
    }
    if s.len() == 1 && (s[0] == '+' || s[0] == '-') {
        return Err(NumberError::InvalidDigit);
    }
    let mut i: usize = if s[0] == '+' {
        1
    } else {
        0
    };
    let ghost want = unsigned_value(s@, base as nat, max as nat);
    assert(s@.skip(0) =~= s@);
    let mut acc: u32 = 0;
    while i < s.len()
        invariant
            i <= s.len(),
            2 <= base <= 16,
            want == unsigned_value(s@, base as nat, max as nat),
            want == digits_value(s@.skip(i as int), base as nat, acc as nat, max as nat),
        decreases s.len() - i,
    {
        assert(s@.skip(i as int)[0] == s@[i as int]);
        assert(s@.skip(i as int).skip(1) =~= s@.skip(i as int + 1));
        match value_of_digit(s[i], base) {
            None => {
                return Err(NumberError::InvalidDigit);
            },
            Some(d) => {
                let ghost g = acc as nat * base as nat + d as nat;
                assert(0 <= acc * base <= 0xffff_ffff * 16) by (nonlinear_arith)
                    requires
                        0 <= acc <= 0xffff_ffff,
                        0 <= base <= 16,
                ;
                let next: u64 = acc as u64 * base as u64 + d as u64;
                assert(next as nat == g);
                if next > max as u64 {
                    return Err(NumberError::TooLarge);
                }
                acc = next as u32;
            },
        }
        i += 1;
    }
    Ok(acc)
}

/// The byte written by one or two hexadecimal digits.
pub open spec fn hex_byte_value(s: Seq<char>) -> Option<u8> {
    if s.len() == 1 && hex_digit(s[0]) {
        Some(digit_value(s[0], 16)->0 as u8)
    } else if s.len() == 2 && hex_digit(s[0]) && hex_digit(s[1]) {
        Some((digit_value(s[0], 16)->0 * 16 + digit_value(s[1], 16)->0) as u8)
    } else {
        None
    }
}

/// Reads one or two hexadecimal digits.
pub fn hex_byte(s: &[char]) -> (r: Option<u8>)
    ensures
        r == hex_byte_value(s@),
{
    if s.len() == 1 {
        match value_of_digit(s[0], 16) {
            Some(d) => Some(d as u8),
            None => None,
        }
    } else if s.len() == 2 {
        match (value_of_digit(s[0], 16), value_of_digit(s[1], 16)) {
            (Some(a), Some(b)) => Some((a * 16 + b) as u8),
            _ => None,
        }
    } else {
        None
    }
}

/// Two hexadecimal digits read back as the byte they were written for.
pub proof fn lemma_hex_byte_round_trip(b: u8)
    ensures
        hex_padded(b as nat, 2).len() == 2,
        hex_byte_value(hex_padded(b as nat, 2)) == Some(b),
        all_hex(hex_padded(b as nat, 2)),
{
    let n = b as nat;
    reveal_with_fuel(numeral, 3);
    if n < 16 {
        assert(numeral(n, 16) =~= seq![digit_char(n)]);
        assert(crate::text::repeated('0', 1) =~= seq!['0']);
        assert(hex_padded(n, 2) =~= seq!['0', digit_char(n)]);
    } else {
        assert(numeral(n, 16) =~= seq![digit_char(n / 16), digit_char(n % 16)]);
        assert(hex_padded(n, 2) =~= seq![digit_char(n / 16), digit_char(n % 16)]);
    }
}

/// Holds of what is no hexadecimal digit.
pub open spec fn not_hex() -> spec_fn(char) -> bool {
    |c: char| !hex_digit(c)
}

/// The hexadecimal digits that `s` begins with.
pub open spec fn leading_hex(s: Seq<char>) -> Seq<char> {
    match first_index(s, not_hex()) {
        Some(i) => s.take(i),
        None => s,
    }
}

/// The hexadecimal digits that `s` begins with.
pub fn take_hex(s: &[char]) -> (r: &[char])
    ensures
        r@ == leading_hex(s@),
{
    let mut i: usize = 0;
    while i < s.len()
        invariant
            i <= s.len(),
            forall|j: int| 0 <= j < i ==> !not_hex()(#[trigger] s@[j]),
        decreases s.len() - i,
    {
        if value_of_digit(s[i], 16).is_none() {
            proof {
                assert(not_hex()(s@[i as int]));
                lemma_first_index_here(s@, not_hex(), i as int);
            }
            let r = slice_subrange(s, 0, i);
            assert(r@ =~= s@.take(i as int));
            return r;
        }
        i += 1;
    }
    proof {
        lemma_first_index_none(s@, not_hex());
    }
    s
}

/// A byte as `0x` and two small hexadecimal digits.
pub open spec fn small_hex_byte(n: u8) -> Seq<char> {
    "0x"@ + seq![small_hex_digit(n / 16), small_hex_digit(n % 16)]
}

/// The small hexadecimal digit for a number below sixteen.
pub open spec fn small_hex_digit(d: u8) -> char {
    if d < 10 {
        (48 + d) as char
    } else {
        (87 + d) as char
    }
}

fn small_digit(d: u8) -> (r: char)
    requires
        d < 16,
    ensures
        r == small_hex_digit(d),
{
    if d < 10 {
        (48u8 + d) as char
    } else {
        (87u8 + d) as char
    }
}

/// A byte as `0x` and two small hexadecimal digits.
pub fn small_hex(n: u8) -> (r: String)
    ensures
        r@ == small_hex_byte(n),
{
    let mut out = "0x".to_owned();
    out.push(small_digit(n / 16));
    out.push(small_digit(n % 16));
    assert(out@ =~= small_hex_byte(n));
    out
}

// ---------------------------------------------------------------------------
// What digits are worth
// ---------------------------------------------------------------------------

/// What a digit counts, by its place in the alphabet of digits; less than zero
/// for what is none.
pub open spec fn digit_worth(c: char) -> int {
    if '0' <= c <= '9' {
        c as int - '0' as int
    } else if 'A' <= c <= 'F' {
        c as int - 'A' as int + 10
    } else if 'a' <= c <= 'f' {
        c as int - 'a' as int + 10
    } else {
        -1
    }
}

/// Every character is a digit below `base`.
pub open spec fn all_digits(s: Seq<char>, base: int) -> bool {
    forall|i: int| 0 <= i < s.len() ==> 0 <= digit_worth(#[trigger] s[i]) < base
}

/// What digits are worth behind a number: each shifts what is before it by one
/// place.
pub open spec fn worth_behind(before: int, s: Seq<char>, base: int) -> int
    decreases s.len(),
{
    if s.len() == 0 {
        before
    } else {
        worth_behind(before * base + digit_worth(s[0]), s.skip(1), base)
    }
}

/// What a row of digits is worth.
pub open spec fn worth(s: Seq<char>, base: int) -> int {
    worth_behind(0, s, base)
}

proof fn lemma_worth_push(before: int, s: Seq<char>, c: char, base: int)
    ensures
        worth_behind(before, s.push(c), base) == worth_behind(before, s, base) * base + digit_worth(
            c,
        ),
    decreases s.len(),
{
    if s.len() == 0 {
        assert(s.push(c).skip(1) =~= Seq::<char>::empty());
        assert(worth_behind(before * base + digit_worth(c), s.push(c).skip(1), base) == before
            * base + digit_worth(c));
    } else {
        assert(s.push(c).skip(1) =~= s.skip(1).push(c));
        lemma_worth_push(before * base + digit_worth(s[0]), s.skip(1), c, base);
    }
}

/// A number is written in digits that are worth it, with no zero before them
/// but in zero itself.
pub proof fn law_a_number_is_worth_its_digits(n: nat, base: nat)
    requires
        base == 10 || base == 16,
    ensures
        worth(numeral(n, base), base as int) == n,
        all_digits(numeral(n, base), base as int),
        numeral(n, base).len() > 0,
        numeral(n, base)[0] == '0' ==> n == 0,
    decreases n,
{
    if n < base {
        let s = numeral(n, base);
        assert(s =~= seq![digit_char(n)]);
        assert(s.skip(1) =~= Seq::<char>::empty());
        assert(worth_behind(0, s, base as int) == worth_behind(
            0 * base as int + digit_worth(s[0]),
            s.skip(1),
            base as int,
        ));
    } else {
        let front = numeral(n / base, base);
        let c = digit_char(n % base);
        law_a_number_is_worth_its_digits(n / base, base);
        lemma_worth_push(0, front, c, base as int);
        assert(0 <= digit_worth(c) < base && digit_worth(c) == n % base);
        assert((n / base) * base + n % base == n) by (nonlinear_arith)
            requires
                base > 0,
        ;
        let s = numeral(n, base);
        assert forall|i: int| 0 <= i < s.len() implies 0 <= digit_worth(#[trigger] s[i]) < base by {
            if i < front.len() {
                assert(s[i] == front[i]);
            }
        }
        assert(s[0] == front[0]);
    }
}

/// Numbers that are written alike are the same number.
pub proof fn law_numbers_are_told_apart(a: nat, b: nat, base: nat)
    requires
        base == 10 || base == 16,
        numeral(a, base) == numeral(b, base),
    ensures
        a == b,
{
    law_a_number_is_worth_its_digits(a, base);
    law_a_number_is_worth_its_digits(b, base);
}

/// Zeros before a number fill it up to its width and add nothing to it.
pub proof fn law_zeros_before_a_number_add_nothing(s: Seq<char>, width: nat, base: int)
    requires
        base == 10 || base == 16,
    ensures
        worth(zeros_before(s, width), base) == worth(s, base),
        zeros_before(s, width).len() == if s.len() < width {
            width
        } else {
            s.len()
        },
        all_digits(s, base) ==> all_digits(zeros_before(s, width), base),
{
    if s.len() < width {
        let n = (width - s.len()) as nat;
        lemma_worth_zeros(n, s, base);
        let z = zeros_before(s, width);
        if all_digits(s, base) {
            assert forall|i: int| 0 <= i < z.len() implies 0 <= digit_worth(#[trigger] z[i])
                < base by {
                if i >= n {
                    assert(z[i] == s[i - n]);
                } else {
                    assert(z[i] == '0');
                }
            }
        }
    }
}

proof fn lemma_worth_zeros(n: nat, s: Seq<char>, base: int)
    ensures
        worth(crate::text::repeated('0', n) + s, base) == worth(s, base),
    decreases n,
{
    let zs = crate::text::repeated('0', n);
    if n == 0 {
        assert(zs + s =~= s);
    } else {
        let fewer = crate::text::repeated('0', (n - 1) as nat);
        assert((zs + s)[0] == '0');
        assert((zs + s).skip(1) =~= fewer + s);
        lemma_worth_zeros((n - 1) as nat, s, base);
        assert(0 * base + digit_worth('0') == 0);
        assert(worth_behind(0, zs + s, base) == worth_behind(0, (zs + s).skip(1), base));
    }
}

/// Eight digits are enough for thirty-two bits, and all eight are written.
pub proof fn law_thirty_two_bits_are_eight_digits(n: u32)
    ensures
        hex_padded(n as nat, 8).len() == 8,
        worth(hex_padded(n as nat, 8), 16) == n,
        all_digits(hex_padded(n as nat, 8), 16),
{
    law_a_number_is_worth_its_digits(n as nat, 16);
    law_zeros_before_a_number_add_nothing(numeral(n as nat, 16), 8, 16);
    reveal_with_fuel(numeral, 9);
}

proof fn lemma_worth_grows(before: int, s: Seq<char>, base: int)
    requires
        0 <= before,
        base >= 1,
        all_digits(s, base),
    ensures
        worth_behind(before, s, base) >= before,
    decreases s.len(),
{
    if s.len() > 0 {
        assert(before * base >= before) by (nonlinear_arith)
            requires
                before >= 0,
                base >= 1,
        ;
        assert(0 <= digit_worth(s[0]));
        assert forall|i: int| 0 <= i < s.skip(1).len() implies 0 <= digit_worth(
            #[trigger] s.skip(1)[i],
        ) < base by {
            assert(s.skip(1)[i] == s[i + 1]);
        }
        lemma_worth_grows(before * base + digit_worth(s[0]), s.skip(1), base);
    }
}

proof fn lemma_digits_value(s: Seq<char>, base: nat, acc: nat, max: nat)
    requires
        base == 10 || base == 16,
        acc <= max,
    ensures
        all_digits(s, base as int) ==> digits_value(s, base, acc, max) == if worth_behind(
            acc as int,
            s,
            base as int,
        ) <= max {
            Ok::<nat, NumberError>(worth_behind(acc as int, s, base as int) as nat)
        } else {
            Err(NumberError::TooLarge)
        },
        !all_digits(s, base as int) ==> digits_value(s, base, acc, max) is Err,
    decreases s.len(),
{
    if s.len() > 0 {
        let rest = s.skip(1);
        assert(digit_value(s[0], base) is Some <==> 0 <= digit_worth(s[0]) < base);
        if 0 <= digit_worth(s[0]) < base {
            assert(digit_value(s[0], base) == Some(digit_worth(s[0]) as nat));
            let next = acc * base + digit_value(s[0], base)->0;
            assert(acc as int * base as int == acc * base);
            assert(all_digits(s, base as int) <==> all_digits(rest, base as int)) by {
                assert forall|i: int| 0 <= i < rest.len() implies #[trigger] rest[i] == s[i + 1] by {}
                if all_digits(rest, base as int) {
                    assert forall|i: int| 0 <= i < s.len() implies 0 <= digit_worth(
                        #[trigger] s[i],
                    ) < base by {
                        if i > 0 {
                            assert(rest[i - 1] == s[i]);
                        }
                    }
                }
            }
            if next <= max {
                lemma_digits_value(rest, base, next, max);
            } else if all_digits(rest, base as int) {
                lemma_worth_grows(next as int, rest, base as int);
            }
        }
    }
}

/// A row of digits is read for what it is worth, unless that is too large; a
/// row with anything else in it is not read.
pub proof fn law_digits_are_read_for_their_worth(s: Seq<char>, base: nat, max: nat)
    requires
        base == 10 || base == 16,
        s.len() > 0,
        s[0] != '+',
    ensures
        all_digits(s, base as int) ==> unsigned_value(s, base, max) == if worth(s, base as int)
            <= max {
            Ok::<nat, NumberError>(worth(s, base as int) as nat)
        } else {
            Err(NumberError::TooLarge)
        },
        !all_digits(s, base as int) ==> unsigned_value(s, base, max) is Err,
        all_digits(s, base as int) ==> worth(s, base as int) >= 0,
{
    if all_digits(s, base as int) {
        lemma_worth_grows(0, s, base as int);
    }
    if s.len() == 1 && s[0] == '-' {
        assert(digit_worth(s[0]) < 0);
    } else {
        lemma_digits_value(s, base, 0, max);
    }
}

/// A byte is read from one or two digits for what they are worth, and from
/// nothing else.
pub proof fn law_a_byte_is_read_for_its_worth(s: Seq<char>)
    ensures
        match hex_byte_value(s) {
            Some(b) => 1 <= s.len() <= 2 && all_digits(s, 16) && worth(s, 16) == b,
            None => s.len() == 0 || s.len() > 2 || !all_digits(s, 16),
        },
        forall|b: u8| hex_byte_value(#[trigger] hex_padded(b as nat, 2)) == Some(b),
{
    reveal_with_fuel(worth_behind, 3);
    if s.len() == 1 {
        assert(s.skip(1) =~= Seq::<char>::empty());
        assert(hex_digit(s[0]) <==> 0 <= digit_worth(s[0]) < 16);
    } else if s.len() == 2 {
        assert(s.skip(1).skip(1) =~= Seq::<char>::empty());
        assert(s.skip(1)[0] == s[1]);
        assert(hex_digit(s[0]) <==> 0 <= digit_worth(s[0]) < 16);
        assert(hex_digit(s[1]) <==> 0 <= digit_worth(s[1]) < 16);
    }
    assert forall|b: u8| hex_byte_value(#[trigger] hex_padded(b as nat, 2)) == Some(b) by {
        lemma_hex_byte_round_trip(b);
    }
}

/// A byte is written as nought, an x and two digits that are worth it.
pub proof fn law_a_small_byte_is_worth_its_digits(n: u8)
    ensures
        small_hex_byte(n).len() == 4,
        small_hex_byte(n).take(2) == seq!['0', 'x'],
        all_digits(small_hex_byte(n).skip(2), 16),
        worth(small_hex_byte(n).skip(2), 16) == n,
{
    reveal_strlit("0x");
    reveal_with_fuel(worth_behind, 3);
    let digits = small_hex_byte(n).skip(2);
    assert(small_hex_byte(n).take(2) =~= seq!['0', 'x']);
    assert(digits =~= seq![small_hex_digit(n / 16), small_hex_digit(n % 16)]);
    assert(digit_worth(digits[0]) == n / 16);
    assert(digit_worth(digits[1]) == n % 16);
    assert(digits.skip(1).skip(1) =~= Seq::<char>::empty());
    assert(digits.skip(1)[0] == digits[1]);
    assert((n / 16) * 16 + n % 16 == n);
}

} // verus!
