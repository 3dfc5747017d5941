//! What the scanners for private-mode sequences have in common.
use vstd::prelude::*;

verus! {

/// How far into `ESC [ ? digits final` a scanner is.
#[derive(Debug, Clone, Copy, PartialEq, Eq, Structural)]
pub enum Stage {
    /// Plain text or an unrelated escape sequence: looking for `ESC`.
    Ground,
    /// After `ESC`: looking for `[`.
    Esc,
    /// After `ESC [`: looking for `?`, or for a final byte.
    Csi,
    /// After `ESC [ ?`: reading parameters.
    Param,
}

/// Whether a byte ends a control sequence.
pub open spec fn is_final_byte(b: u8) -> bool {
    0x40 <= b <= 0x7E
}

pub open spec fn is_digit(b: u8) -> bool {
    0x30 <= b <= 0x39
}

/// Whether all bytes are decimal digits.
pub open spec fn all_digits(digits: Seq<u8>) -> bool {
    forall|i: int| 0 <= i < digits.len() ==> is_digit(#[trigger] digits[i])
}

/// The number that decimal digits write.
pub open spec fn decimal(digits: Seq<u8>) -> nat
    decreases digits.len(),
{
    if digits.len() == 0 {
        0
    } else {
        decimal(digits.drop_last()) * 10 + (digits.last() - 0x30) as nat
    }
}

/// `n`, or the largest value of a parameter if that is smaller.
pub open spec fn capped(n: nat) -> u32 {
    if n > u32::MAX {
        u32::MAX
    } else {
        n as u32
    }
}

/// A parameter with one more digit behind it.
pub open spec fn with_digit(value: u32, b: u8) -> u32 {
    capped((value * 10 + (b - 0x30)) as nat)
}

/// A parameter with one more digit behind it.
pub fn push_digit(value: u32, b: u8) -> (grown: u32)
    requires
        is_digit(b),
    ensures
        grown == with_digit(value, b),
{
    let wide: u64 = value as u64 * 10 + (b - 0x30) as u64;
    if wide > u32::MAX as u64 {
        u32::MAX
    } else {
        wide as u32
    }
}

/// Reading digit by digit gives the number they write, up to the cap.
pub proof fn lemma_capped_digit(n: nat, b: u8)
    requires
        is_digit(b),
    ensures
        with_digit(capped(n), b) == capped((n * 10 + (b - 0x30)) as nat),
{
}

} // verus!
