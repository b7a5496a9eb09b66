use vstd::prelude::*;

verus! {


// Byte values of the protocol's ASCII punctuation.
pub const QUOTE: u8 = 0x22;
pub const BACKSLASH: u8 = 0x5c;
pub const NEWLINE: u8 = 0x0a;
pub const TAB: u8 = 0x09;
pub const CR: u8 = 0x0d;
pub const COMMA: u8 = 0x2c;
pub const EQUALS: u8 = 0x3d;
pub const LBRACE: u8 = 0x7b;
pub const RBRACE: u8 = 0x7d;
pub const LBRACKET: u8 = 0x5b;
pub const RBRACKET: u8 = 0x5d;
pub const CARET: u8 = 0x5e;
pub const STAR: u8 = 0x2a;
pub const PLUS: u8 = 0x2b;
pub const TILDE: u8 = 0x7e;
pub const AT: u8 = 0x40;
pub const AMP: u8 = 0x26;
pub const DASH: u8 = 0x2d;
pub const ZERO: u8 = 0x30;

// ---------------------------------------------------------------------------
// Byte classes of the wire protocol
// ---------------------------------------------------------------------------

/// An ASCII decimal digit.
pub open spec fn is_digit(b: u8) -> bool {
    0x30 <= b <= 0x39
}

/// A byte that may appear in a field key or in an async event name.
pub open spec fn is_ident_byte(b: u8) -> bool {
    is_digit(b) || (0x61 <= b <= 0x7a) || (0x41 <= b <= 0x5a) || b == DASH || b == 0x5f
}

pub fn digit_check(b: u8) -> (r: bool)
    ensures
        r == is_digit(b),
{
    0x30 <= b && b <= 0x39
}

pub fn ident_byte_check(b: u8) -> (r: bool)
    ensures
        r == is_ident_byte(b),
{
    digit_check(b) || (0x61 <= b && b <= 0x7a) || (0x41 <= b && b <= 0x5a) || b == DASH || b
        == 0x5f
}

// ---------------------------------------------------------------------------
// Decimal tokens
// ---------------------------------------------------------------------------

/// The number that one digit byte denotes.
pub open spec fn digit_of(b: u8) -> nat {
    if 0x30 <= b {
        (b - 0x30) as nat
    } else {
        0
    }
}

/// The number that a string of decimal digits denotes.
pub open spec fn digits_val(s: Seq<u8>) -> nat
    decreases s.len(),
{
    if s.len() == 0 {
        0
    } else {
        digits_val(s.drop_last()) * 10 + digit_of(s.last())
    }
}

/// The decimal digit string of a number, without leading zeros.
pub open spec fn dec_digits(n: nat) -> Seq<u8>
    decreases n,
{
    if n < 10 {
        seq![(n + 0x30) as u8]
    } else {
        dec_digits(n / 10).push((n % 10 + 0x30) as u8)
    }
}

/// Reading a printed number back gives the number: the digits are nonempty,
/// all decimal, and denote the value they were printed from.
pub proof fn lemma_dec_digits(n: nat)
    ensures
        dec_digits(n).len() >= 1,
        forall|i: int| 0 <= i < dec_digits(n).len() ==> is_digit(#[trigger] dec_digits(n)[i]),
        digits_val(dec_digits(n)) == n,
    decreases n,
{
    if n < 10 {
        let d = dec_digits(n);
        assert(d.drop_last() =~= Seq::<u8>::empty());
        assert(digits_val(Seq::<u8>::empty()) == 0);
        assert(d.last() == (n + 0x30) as u8);
        assert(digits_val(d) == digit_of((n + 0x30) as u8));
    } else {
        lemma_dec_digits(n / 10);
        lemma_digits_val_push(dec_digits(n / 10), (n % 10 + 0x30) as u8);
        assert(digit_of((n % 10 + 0x30) as u8) == n % 10);
        assert(digits_val(dec_digits(n)) == (n / 10) * 10 + n % 10);
        assert(n == (n / 10) * 10 + n % 10) by (nonlinear_arith);
        let d = dec_digits(n);
        assert(d.drop_last() == dec_digits(n / 10));
        assert forall|i: int| 0 <= i < d.len() implies is_digit(#[trigger] d[i]) by {
            if i < d.len() - 1 {
                assert(d[i] == dec_digits(n / 10)[i]);
            }
        }
    }
}

/// Appending one digit multiplies the value by ten and adds the digit.
pub proof fn lemma_digits_val_push(s: Seq<u8>, d: u8)
    ensures
        digits_val(s.push(d)) == digits_val(s) * 10 + digit_of(d),
{
    assert(s.push(d).drop_last() == s);
    assert(s.push(d).last() == d);
}

/// Prints a number in decimal.
pub fn format_u64(n: u64) -> (r: Vec<u8>)
    ensures
        r@ == dec_digits(n as nat),
    decreases n,
{
    if n < 10 {
        let mut out: Vec<u8> = Vec::new();
        out.push((n as u8) + 0x30);
        assert(out@ =~= dec_digits(n as nat));
        out
    } else {
        let mut out = format_u64(n / 10);
        out.push(((n % 10) as u8) + 0x30);
        assert(out@ =~= dec_digits(n as nat));
        out
    }
}

// ---------------------------------------------------------------------------
// String escapes
// ---------------------------------------------------------------------------

/// What an escape code following a backslash denotes, if it is one of the
/// four accepted codes.
pub open spec fn spec_unescape_byte(c: u8) -> Option<u8> {
    if c == 0x6e {
        Some(NEWLINE)
    } else if c == 0x74 {
        Some(TAB)
    } else if c == QUOTE {
        Some(QUOTE)
    } else if c == BACKSLASH {
        Some(BACKSLASH)
    } else {
        None
    }
}

/// How one byte of a scalar is written inside a quoted string.
pub open spec fn spec_escape_byte(b: u8) -> Seq<u8> {
    if b == QUOTE {
        seq![BACKSLASH, QUOTE]
    } else if b == BACKSLASH {
        seq![BACKSLASH, BACKSLASH]
    } else if b == NEWLINE {
        seq![BACKSLASH, 0x6e]
    } else if b == TAB {
        seq![BACKSLASH, 0x74]
    } else {
        seq![b]
    }
}

/// How a whole scalar is written inside a quoted string, quotes excluded.
pub open spec fn spec_escape(s: Seq<u8>) -> Seq<u8>
    decreases s.len(),
{
    if s.len() == 0 {
        Seq::empty()
    } else {
        spec_escape_byte(s[0]) + spec_escape(s.skip(1))
    }
}

} // verus!
