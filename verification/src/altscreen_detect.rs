//! A stream scanner that notices when a program enters or leaves the xterm
//! alternate screen: `CSI ? {1049,47,1047} {h,l}`.
//!
//! Sequences may be split over chunks: what was seen of one is remembered
//! between calls. Bytes outside such a sequence are dropped.
use vstd::prelude::*;

use crate::escape::{
    all_digits, capped, decimal, is_digit, is_final_byte, lemma_capped_digit, push_digit,
    with_digit, Stage,
};
use crate::terminal::is_alt_screen_mode;

verus! {

#[derive(Debug, Clone, Copy, PartialEq, Eq, Structural)]
pub enum AltScreenEvent {
    /// The alternate screen was entered.
    Enter,
    /// The alternate screen was left.
    Leave,
}

/// What a scanner remembers between bytes.
pub struct AltScan {
    pub stage: Stage,
    /// The parameter read since `?`.
    pub param: u32,
    /// Whether it has any digit.
    pub has_param: bool,
}

impl AltScan {
    pub open spec fn fresh() -> AltScan {
        AltScan { stage: Stage::Ground, param: 0, has_param: false }
    }

    /// What is remembered after one more byte.
    pub open spec fn step(self, b: u8) -> AltScan {
        match self.stage {
            Stage::Ground => if b == 0x1B {
                AltScan { stage: Stage::Esc, ..self }
            } else {
                self
            },
            Stage::Esc => if b == 0x5B {
                AltScan { stage: Stage::Csi, ..self }
            } else {
                AltScan { stage: Stage::Ground, ..self }
            },
            Stage::Csi => if b == 0x3F {
                AltScan { stage: Stage::Param, param: 0, has_param: false }
            } else if is_final_byte(b) {
                AltScan { stage: Stage::Ground, ..self }
            } else {
                self
            },
            Stage::Param => if is_digit(b) {
                AltScan { param: with_digit(self.param, b), has_param: true, ..self }
            } else if b == 0x3B || is_final_byte(b) {
                // A list of modes is not looked into.
                AltScan { stage: Stage::Ground, ..self }
            } else {
                self
            },
        }
    }

    /// The transition that a byte completes, if it does.
    pub open spec fn noticed(self, b: u8) -> Seq<AltScreenEvent> {
        if self.stage == Stage::Param && self.has_param && self.param <= 0xFFFF
            && is_alt_screen_mode(self.param as u16) {
            if b == 0x68 {
                seq![AltScreenEvent::Enter]
            } else if b == 0x6C {
                seq![AltScreenEvent::Leave]
            } else {
                Seq::empty()
            }
        } else {
            Seq::empty()
        }
    }

    /// What is remembered after some bytes.
    pub open spec fn after(self, bytes: Seq<u8>) -> AltScan
        decreases bytes.len(),
    {
        if bytes.len() == 0 {
            self
        } else {
            self.after(bytes.drop_last()).step(bytes.last())
        }
    }

    /// The transitions in some bytes, in order.
    pub open spec fn events(self, bytes: Seq<u8>) -> Seq<AltScreenEvent>
        decreases bytes.len(),
    {
        if bytes.len() == 0 {
            Seq::empty()
        } else {
            self.events(bytes.drop_last()) + self.after(bytes.drop_last()).noticed(bytes.last())
        }
    }
}

#[derive(Debug)]
pub struct AltScreenDetector {
    stage: Stage,
    param: u32,
    has_param: bool,
}

impl View for AltScreenDetector {
    type V = AltScan;

    closed spec fn view(&self) -> AltScan {
        AltScan { stage: self.stage, param: self.param, has_param: self.has_param }
    }
}

impl AltScreenDetector {
    pub fn new() -> (detector: Self)
        ensures
            detector@ == AltScan::fresh(),
    {
        AltScreenDetector { stage: Stage::Ground, param: 0, has_param: false }
    }

    /// Takes in bytes and returns the transitions seen in them.
    pub fn feed(&mut self, bytes: &[u8]) -> (events: Vec<AltScreenEvent>)
        ensures
            final(self)@ == old(self)@.after(bytes@),
            events@ == old(self)@.events(bytes@),
    {
        let mut events: Vec<AltScreenEvent> = Vec::new();
        let ghost before = self@;
        let mut i: usize = 0;
        while i < bytes.len()
            invariant
                i <= bytes.len(),
                self@ == before.after(bytes@.take(i as int)),
                events@ == before.events(bytes@.take(i as int)),
            decreases bytes.len() - i,
        {
            let b: u8 = bytes[i];
            assert(bytes@.take(i + 1).drop_last() =~= bytes@.take(i as int));
            let ghost so_far = events@;
            let ghost scan = self@;
            if let Some(event) = self.step(b) {
                events.push(event);
            }
            assert(events@ =~= so_far + scan.noticed(b));
            i += 1;
        }
        assert(bytes@.take(i as int) =~= bytes@);
        events
    }

    /// Takes in one byte.
    fn step(&mut self, b: u8) -> (event: Option<AltScreenEvent>)
        ensures
            final(self)@ == old(self)@.step(b),
            match event {
                Some(e) => old(self)@.noticed(b) == seq![e],
                None => old(self)@.noticed(b) == Seq::<AltScreenEvent>::empty(),
            },
    {
        match self.stage {
            Stage::Ground => {
                if b == 0x1B {
                    self.stage = Stage::Esc;
                }
            },
            Stage::Esc => {
                self.stage = if b == 0x5B {
                    Stage::Csi
                } else {
                    Stage::Ground
                };
            },
            Stage::Csi => {
                if b == 0x3F {
                    self.stage = Stage::Param;
                    self.param = 0;
                    self.has_param = false;
                } else if b >= 0x40 && b <= 0x7E {
                    self.stage = Stage::Ground;
                }
            },
            Stage::Param => {
                if b >= 0x30 && b <= 0x39 {
                    self.param = push_digit(self.param, b);
                    self.has_param = true;
                } else if b == 0x3B {
                    self.stage = Stage::Ground;
                } else if b >= 0x40 && b <= 0x7E {
                    self.stage = Stage::Ground;
                    if self.has_param && (self.param == 1049 || self.param == 47 || self.param
                        == 1047) {
                        if b == 0x68 {
                            return Some(AltScreenEvent::Enter);
                        }
                        if b == 0x6C {
                            return Some(AltScreenEvent::Leave);
                        }
                    }
                }
            },
        }
        None
    }
}

/// A stream may be cut into chunks anywhere: the scanner sees the same
/// transitions and remembers the same.
pub proof fn law_chunks_do_not_matter(scan: AltScan, first: Seq<u8>, then: Seq<u8>)
    ensures
        scan.after(first + then) == scan.after(first).after(then),
        scan.events(first + then) == scan.events(first) + scan.after(first).events(then),
    decreases then.len(),
{
    if then.len() == 0 {
        assert(first + then =~= first);
        assert(scan.events(first) + Seq::<AltScreenEvent>::empty() =~= scan.events(first));
    } else {
        law_chunks_do_not_matter(scan, first, then.drop_last());
        assert((first + then).drop_last() =~= first + then.drop_last());
        assert((first + then).last() == then.last());
        assert(scan.events(first + then) =~= scan.events(first) + scan.after(first).events(then));
    }
}

/// Text without an escape character says nothing.
pub proof fn law_plain_text_is_silent(scan: AltScan, text: Seq<u8>)
    requires
        scan.stage == Stage::Ground,
        !text.contains(0x1B),
    ensures
        scan.events(text) == Seq::<AltScreenEvent>::empty(),
        scan.after(text) == scan,
    decreases text.len(),
{
    if text.len() > 0 {
        let before = text.drop_last();
        assert(text.contains(text.last()));
        assert forall|b: u8| before.contains(b) implies text.contains(b) by {
            let i = before.index_of(b);
            assert(text[i] == b);
        }
        law_plain_text_is_silent(scan, before);
    }
}

/// Reading the digits of a parameter.
proof fn lemma_digits_read(scan: AltScan, digits: Seq<u8>)
    requires
        scan.stage == Stage::Param,
        scan.param == 0,
        all_digits(digits),
    ensures
        scan.after(digits).stage == Stage::Param,
        scan.after(digits).param == capped(decimal(digits)),
        scan.after(digits).has_param == (scan.has_param || digits.len() > 0),
        scan.events(digits) == Seq::<AltScreenEvent>::empty(),
    decreases digits.len(),
{
    if digits.len() > 0 {
        let before = digits.drop_last();
        assert(all_digits(before));
        assert(is_digit(digits[digits.len() - 1]));
        lemma_digits_read(scan, before);
        lemma_capped_digit(decimal(before), digits.last());
    }
}

/// `ESC [ ?`, some digits and a final byte.
pub open spec fn private_sequence(digits: Seq<u8>, last: u8) -> Seq<u8> {
    seq![0x1Bu8, 0x5B, 0x3F] + digits + seq![last]
}

/// Between sequences, `CSI ? n h` is reported as entering and `CSI ? n l` as
/// leaving exactly if `n` is a mode that selects the alternate screen, and the
/// scanner is between sequences again.
pub proof fn law_mode_sequence_is_reported(scan: AltScan, digits: Seq<u8>, on: bool)
    requires
        scan.stage == Stage::Ground,
        all_digits(digits),
    ensures
        ({
            let bytes = private_sequence(digits, if on { 0x68 } else { 0x6C });
            let n = decimal(digits);
            &&& scan.after(bytes).stage == Stage::Ground
            &&& scan.events(bytes) == if n == 1049 || n == 47 || n == 1047 {
                if on {
                    seq![AltScreenEvent::Enter]
                } else {
                    seq![AltScreenEvent::Leave]
                }
            } else {
                Seq::<AltScreenEvent>::empty()
            }
        }),
{
    let head = seq![0x1Bu8, 0x5B, 0x3F];
    let last: u8 = if on {
        0x68
    } else {
        0x6C
    };
    let bytes = private_sequence(digits, last);
    assert(head.drop_last().drop_last().drop_last() =~= Seq::<u8>::empty());
    reveal_with_fuel(AltScan::after, 4);
    reveal_with_fuel(AltScan::events, 4);
    let open = scan.after(head);
    assert(open == AltScan { stage: Stage::Param, param: 0, has_param: false });
    assert(scan.events(head) =~= Seq::<AltScreenEvent>::empty());
    lemma_digits_read(open, digits);
    law_chunks_do_not_matter(scan, head, digits);
    assert(bytes.drop_last() =~= head + digits);
    assert(bytes.last() == last);
    let read = scan.after(head + digits);
    assert(scan.events(bytes) =~= read.noticed(last));
}

/// How far into a sequence one more byte leads. A sequence is an escape
/// character, `[`, `?`, digits and a final byte from `@` to `~`; a semicolon
/// ends the interest in it, and other bytes in it are passed over.
pub proof fn law_bytes_lead_into_a_sequence(scan: AltScan, b: u8)
    ensures
        ({
            let next = scan.step(b);
            let ends = '@' as u8 <= b <= '~' as u8;
            &&& scan.stage == Stage::Ground ==> next == (AltScan {
                stage: if b == 0x1B {
                    Stage::Esc
                } else {
                    Stage::Ground
                },
                ..scan
            })
            &&& scan.stage == Stage::Esc ==> next.stage == if b == '[' as u8 {
                Stage::Csi
            } else {
                Stage::Ground
            }
            &&& scan.stage == Stage::Csi && b == '?' as u8 ==> next.stage == Stage::Param
                && next.param == 0 && !next.has_param
            &&& scan.stage == Stage::Csi && b != '?' as u8 ==> next.stage == if ends {
                Stage::Ground
            } else {
                Stage::Csi
            }
            &&& scan.stage == Stage::Param && '0' as u8 <= b <= '9' as u8 ==> next.stage
                == Stage::Param && next.has_param && next.param == if 10 * scan.param + (b
                - '0' as u8) > u32::MAX {
                u32::MAX as int
            } else {
                10 * scan.param + (b - '0' as u8)
            }
            &&& scan.stage == Stage::Param && (b == ';' as u8 || ends) ==> next.stage
                == Stage::Ground
            &&& scan.stage == Stage::Param && !('0' as u8 <= b <= '9' as u8) && b != ';' as u8
                && !ends ==> next == scan
        }),
{
}

/// A byte is reported exactly if it is the `h` or `l` that ends a sequence whose
/// number is 47, 1047 or 1049: `h` as entering, `l` as leaving.
pub proof fn law_only_switches_are_reported(scan: AltScan, b: u8)
    ensures
        ({
            let selects = scan.stage == Stage::Param && scan.has_param && (scan.param == 47
                || scan.param == 1047 || scan.param == 1049);
            &&& selects && b == 'h' as u8 ==> scan.noticed(b) == seq![AltScreenEvent::Enter]
            &&& selects && b == 'l' as u8 ==> scan.noticed(b) == seq![AltScreenEvent::Leave]
            &&& !selects || (b != 'h' as u8 && b != 'l' as u8) ==> scan.noticed(b).len() == 0
        }),
{
}

/// A stream is read byte by byte.
pub proof fn law_one_byte_is_one_step(scan: AltScan, b: u8)
    ensures
        scan.after(seq![b]) == scan.step(b),
        scan.events(seq![b]) == scan.noticed(b),
        scan.after(Seq::empty()) == scan,
        scan.events(Seq::empty()) == Seq::<AltScreenEvent>::empty(),
        AltScan::fresh().stage == Stage::Ground,
{
    let one = seq![b];
    assert(one.drop_last() =~= Seq::<u8>::empty());
    reveal_with_fuel(AltScan::after, 2);
    reveal_with_fuel(AltScan::events, 2);
    assert(scan.events(one) =~= scan.noticed(b));
}

} // verus!
