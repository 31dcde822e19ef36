//! Reading names and numbers out of source text.
use crate::frontend::lexer::ascii::{
    APOSTROPHE, DIGIT_0, DIGIT_9, LOWER_A, LOWER_B, LOWER_F, LOWER_O, LOWER_X, UNDERSCORE, UPPER_A,
    UPPER_F,
};
use crate::frontend::lexer::lexeme::{
    count_of, is_digit, number_base, spec_is_digit, Base, ByteClass,
};
use vstd::prelude::*;

verus! {

/// The characters that the bytes `text` spell, each byte taken as the
/// character of its code.
pub open spec fn chars_of(text: Seq<u8>) -> Seq<char> {
    Seq::new(text.len(), |i: int| text[i] as char)
}

/// Appends `c` to `s`.
///
/// Trusted: stands for `String::push` of the standard library, which appends
/// the given character to the end of the string.
#[verifier::external_body]
fn push_char(s: &mut String, c: char)
    ensures
        final(s)@ == old(s)@.push(c),
{
    s.push(c)
}

/// The string that the bytes `text` spell, each byte taken as the character
/// of its code.
pub fn string_of(text: &[u8]) -> (r: String)
    ensures
        r@ == chars_of(text@),
{
    let mut r = String::new();
    let mut i: usize = 0;
    while i < text.len()
        invariant
            i <= text@.len(),
            r@ == chars_of(text@.take(i as int)),
        decreases text@.len() - i,
    {
        let c = text[i] as char;
        push_char(&mut r, c);
        proof {
            assert(chars_of(text@.take(i + 1)) =~= chars_of(text@.take(i as int)).push(c));
        }
        i += 1;
    }
    proof {
        assert(text@.take(i as int) =~= text@);
        assert(chars_of(text@.take(0)) =~= Seq::<char>::empty());
    }
    r
}

/// The worth of the digit `b` in any base up to sixteen; 0 for what is no
/// digit.
pub open spec fn spec_digit_value(b: u8) -> nat {
    if DIGIT_0 <= b <= DIGIT_9 {
        (b - DIGIT_0) as nat
    } else if LOWER_A <= b <= LOWER_F {
        (b - LOWER_A + 10) as nat
    } else if UPPER_A <= b <= UPPER_F {
        (b - UPPER_A + 10) as nat
    } else {
        0
    }
}

/// The worth of the digit `b` in any base up to sixteen.
pub fn digit_value(b: u8) -> (r: u64)
    ensures
        r == spec_digit_value(b),
        r < 16,
{
    if DIGIT_0 <= b && b <= DIGIT_9 {
        (b - DIGIT_0) as u64
    } else if LOWER_A <= b && b <= LOWER_F {
        (b - LOWER_A + 10) as u64
    } else if UPPER_A <= b && b <= UPPER_F {
        (b - UPPER_A + 10) as u64
    } else {
        0
    }
}

/// Whether `b` is one of the separators that group the digits of a number.
pub open spec fn is_separator(b: u8) -> bool {
    b == UNDERSCORE || b == APOSTROPHE
}

/// The number that the digits `text` spell in `base`, from the most
/// significant digit on. Separators count for nothing. `None` where a byte is
/// neither a digit of the base nor a separator.
pub open spec fn digits_value(text: Seq<u8>, base: Base) -> Option<nat>
    decreases text.len(),
{
    if text.len() == 0 {
        Some(0)
    } else {
        match digits_value(text.drop_last(), base) {
            None => None,
            Some(v) => {
                let b = text.last();
                if is_separator(b) {
                    Some(v)
                } else if base.spec_has_digit(b) {
                    Some((v * base.spec_radix() + spec_digit_value(b)) as nat)
                } else {
                    None
                }
            },
        }
    }
}

/// The value of the integer literal `text`: behind the base prefix, if there
/// is one, digits of the base with separators among them. `None` where the
/// text is no such literal, holds no digit behind a prefix, or spells a number
/// that 64 bits do not hold.
pub open spec fn literal_value(text: Seq<u8>) -> Option<u64> {
    if text.len() == 0 || !spec_is_digit(text[0]) {
        None
    } else {
        let base = number_base(text, 0);
        let head: int = if base == Base::Decimal {
            0
        } else {
            2
        };
        let body = text.subrange(head, text.len() as int);
        match digits_value(body, base) {
            Some(v) => if v <= u64::MAX && count_of(
                body,
                0,
                body.len() as int,
                ByteClass::Digit { base },
            ) > 0 {
                Some(v as u64)
            } else {
                None
            },
            None => None,
        }
    }
}

/// What the first `i` digits say of the whole: where they spell no number,
/// neither does the whole text, and where they do, the whole text spells no
/// smaller one.
pub proof fn lemma_digits_prefix(text: Seq<u8>, base: Base, i: int)
    requires
        0 <= i <= text.len(),
    ensures
        digits_value(text.take(i), base) is None ==> digits_value(text, base) is None,
        digits_value(text.take(i), base) is Some && digits_value(text, base) is Some
            ==> digits_value(text.take(i), base)->0 <= digits_value(text, base)->0,
    decreases text.len() - i,
{
    if i == text.len() {
        assert(text.take(i) =~= text);
    } else {
        let shorter = text.drop_last();
        assert(shorter.take(i) =~= text.take(i));
        lemma_digits_prefix(shorter, base, i);
        if digits_value(shorter, base) is Some {
            let v = digits_value(shorter, base)->0;
            let radix = base.spec_radix() as int;
            assert(v * radix >= v) by (nonlinear_arith)
                requires
                    v >= 0,
                    radix >= 1,
            ;
        }
    }
}

/// The value of the integer literal `text`.
pub fn parse_literal(text: &[u8]) -> (r: Option<u64>)
    ensures
        r == literal_value(text@),
{
    let n = text.len();
    if n == 0 || !is_digit(text[0]) {
        return None;
    }
    let mut base = Base::Decimal;
    if text[0] == DIGIT_0 && n > 1 {
        let c = text[1];
        if c == LOWER_X {
            base = Base::Hex;
        } else if c == LOWER_O {
            base = Base::Octal;
        } else if c == LOWER_B {
            base = Base::Binary;
        }
    }
    let head: usize = if base == Base::Decimal {
        0
    } else {
        2
    };
    let body = vstd::slice::slice_subrange(text, head, n);
    let radix = base.radix();
    let mut value: u64 = 0;
    let mut seen = false;
    let mut i: usize = 0;
    proof {
        assert(body@.take(0) =~= Seq::<u8>::empty());
    }
    while i < body.len()
        invariant
            i <= body@.len(),
            radix == base.spec_radix(),
            text@.len() > 0,
            spec_is_digit(text@[0]),
            base == number_base(text@, 0),
            head == if base == Base::Decimal {
                0int
            } else {
                2int
            },
            body@ == text@.subrange(head as int, text@.len() as int),
            digits_value(body@.take(i as int), base) == Some(value as nat),
            seen == (count_of(body@, 0, i as int, ByteClass::Digit { base }) > 0),
        decreases body@.len() - i,
    {
        let b = body[i];
        proof {
            assert(body@.take(i + 1).drop_last() =~= body@.take(i as int));
            assert(body@.take(i + 1).last() == b);
            lemma_digits_prefix(body@, base, i + 1);
        }
        if b == UNDERSCORE || b == APOSTROPHE {
        } else if base.has_digit(b) {
            seen = true;
            let shifted = match value.checked_mul(radix) {
                Some(shifted) => shifted,
                None => {
                    return None;
                },
            };
            value = match shifted.checked_add(digit_value(b)) {
                Some(value) => value,
                None => {
                    return None;
                },
            };
        } else {
            return None;
        }
        i += 1;
    }
    proof {
        assert(body@.take(i as int) =~= body@);
    }
    if seen {
        Some(value)
    } else {
        None
    }
}

} // verus!
