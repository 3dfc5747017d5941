//! A stream scanner that notices when a program takes over the terminal, and
//! when it gives it back, by the DEC private modes it sets and resets:
//! `CSI ? p1;p2;... {h|l}`.
//!
//! Programs on the alternate screen set 1049, 47 or 1047. Programs that stay
//! on the main screen ask for mouse reports (1000, 1002, 1003, 1006) or focus
//! reports (1004). Bracketed paste (2004) and cursor visibility (25) say
//! nothing: shells set them at every prompt.
//!
//! The scanner keeps the set of such modes that are on. It reports `Enter`
//! when the set becomes non-empty and `Leave` when it becomes empty again.
use vstd::prelude::*;

use crate::altscreen_detect::private_sequence;
use crate::escape::{
    all_digits, capped, decimal, is_digit, is_final_byte, lemma_capped_digit, push_digit,
    with_digit, Stage,
};

verus! {

#[derive(Debug, Clone, Copy, PartialEq, Eq, Structural)]
pub enum InteractiveEvent {
    /// The first of the modes was switched on: a program took over.
    Enter,
    /// The last of the modes was switched off: the program is done.
    Leave,
}

/// The modes that mark a program which takes over the terminal.
pub open spec fn is_interactive_mode(mode: u32) -> bool {
    ||| mode == 47
    ||| mode == 1047
    ||| mode == 1049
    ||| mode == 1000
    ||| mode == 1002
    ||| mode == 1003
    ||| mode == 1006
    ||| mode == 1004
}

/// The modes that mark a program which takes over the terminal.
fn interactive_mode(mode: u32) -> (yes: bool)
    ensures
        yes == is_interactive_mode(mode),
{
    mode == 47 || mode == 1047 || mode == 1049 || mode == 1000 || mode == 1002 || mode == 1003
        || mode == 1006 || mode == 1004
}

/// The set of modes that are on after one was switched.
pub open spec fn switched(active: Set<u32>, mode: u32, on: bool) -> Set<u32> {
    if !is_interactive_mode(mode) {
        active
    } else if on {
        active.insert(mode)
    } else {
        active.remove(mode)
    }
}

/// What a change of the set is reported as.
pub open spec fn crossing(before: Set<u32>, after: Set<u32>) -> Seq<InteractiveEvent> {
    if before.is_empty() && !after.is_empty() {
        seq![InteractiveEvent::Enter]
    } else if !before.is_empty() && after.is_empty() {
        seq![InteractiveEvent::Leave]
    } else {
        Seq::empty()
    }
}

/// The set after each of a list of modes was switched, in order.
pub open spec fn switched_all(active: Set<u32>, modes: Seq<u32>, on: bool) -> Set<u32>
    decreases modes.len(),
{
    if modes.len() == 0 {
        active
    } else {
        switched(switched_all(active, modes.drop_last(), on), modes.last(), on)
    }
}

/// What is reported while each of a list of modes is switched, in order.
pub open spec fn crossings(active: Set<u32>, modes: Seq<u32>, on: bool) -> Seq<InteractiveEvent>
    decreases modes.len(),
{
    if modes.len() == 0 {
        Seq::empty()
    } else {
        crossings(active, modes.drop_last(), on) + crossing(
            switched_all(active, modes.drop_last(), on),
            switched_all(active, modes, on),
        )
    }
}

/// What a scanner remembers between bytes.
#[verifier::ext_equal]
pub struct InteractiveScan {
    pub stage: Stage,
    /// The parameters read since `?`, but for the one being read.
    pub params: Seq<u32>,
    /// The parameter being read.
    pub cur: u32,
    /// Whether it has any digit.
    pub has_digit: bool,
    /// The modes that are on.
    pub active: Set<u32>,
}

impl InteractiveScan {
    pub open spec fn fresh() -> InteractiveScan {
        InteractiveScan {
            stage: Stage::Ground,
            params: Seq::empty(),
            cur: 0,
            has_digit: false,
            active: Set::empty(),
        }
    }

    /// The parameters with the one being read. One without a digit does not
    /// count.
    pub open spec fn all_params(self) -> Seq<u32> {
        if self.has_digit {
            self.params.push(self.cur)
        } else {
            self.params
        }
    }

    /// What is remembered after one more byte.
    pub open spec fn step(self, b: u8) -> InteractiveScan {
        match self.stage {
            Stage::Ground => if b == 0x1B {
                InteractiveScan { stage: Stage::Esc, ..self }
            } else {
                self
            },
            Stage::Esc => if b == 0x5B {
                InteractiveScan { stage: Stage::Csi, ..self }
            } else {
                InteractiveScan { stage: Stage::Ground, ..self }
            },
            Stage::Csi => if b == 0x3F {
                InteractiveScan {
                    stage: Stage::Param,
                    params: Seq::empty(),
                    cur: 0,
                    has_digit: false,
                    ..self
                }
            } else if is_final_byte(b) {
                InteractiveScan { stage: Stage::Ground, ..self }
            } else {
                self
            },
            Stage::Param => if is_digit(b) {
                InteractiveScan { cur: with_digit(self.cur, b), has_digit: true, ..self }
            } else if b == 0x3B {
                InteractiveScan { params: self.all_params(), cur: 0, has_digit: false, ..self }
            } else if b == 0x68 || b == 0x6C {
                InteractiveScan {
                    stage: Stage::Ground,
                    params: Seq::empty(),
                    cur: 0,
                    has_digit: false,
                    active: switched_all(self.active, self.all_params(), b == 0x68),
                }
            } else if is_final_byte(b) {
                InteractiveScan { stage: Stage::Ground, ..self }
            } else {
                self
            },
        }
    }

    /// What is reported when a byte comes in.
    pub open spec fn noticed(self, b: u8) -> Seq<InteractiveEvent> {
        if self.stage == Stage::Param && (b == 0x68 || b == 0x6C) {
            crossings(self.active, self.all_params(), b == 0x68)
        } else {
            Seq::empty()
        }
    }

    /// What is remembered after some bytes.
    pub open spec fn after(self, bytes: Seq<u8>) -> InteractiveScan
        decreases bytes.len(),
    {
        if bytes.len() == 0 {
            self
        } else {
            self.after(bytes.drop_last()).step(bytes.last())
        }
    }

    /// What is reported for some bytes, in order.
    pub open spec fn events(self, bytes: Seq<u8>) -> Seq<InteractiveEvent>
        decreases bytes.len(),
    {
        if bytes.len() == 0 {
            Seq::empty()
        } else {
            self.events(bytes.drop_last()) + self.after(bytes.drop_last()).noticed(bytes.last())
        }
    }
}

#[derive(Debug)]
pub struct InteractiveDetector {
    stage: Stage,
    params: Vec<u32>,
    cur: u32,
    has_digit: bool,
    /// The modes that are on, each once.
    active: Vec<u32>,
}

impl View for InteractiveDetector {
    type V = InteractiveScan;

    closed spec fn view(&self) -> InteractiveScan {
        InteractiveScan {
            stage: self.stage,
            params: self.params@,
            cur: self.cur,
            has_digit: self.has_digit,
            active: self.active@.to_set(),
        }
    }
}

/// A list that holds a value is not the empty set.
proof fn lemma_set_of_list(list: Seq<u32>)
    ensures
        list.to_set().is_empty() == (list.len() == 0),
{
    if list.len() > 0 {
        assert(list.to_set().contains(list[0]));
    } else {
        assert(list.to_set() =~= Set::empty());
    }
}

impl InteractiveDetector {
    /// Whether each mode that is on is listed once, and is one that counts.
    pub closed spec fn wf(&self) -> bool {
        &&& self.active@.no_duplicates()
        &&& forall|i: int|
            0 <= i < self.active@.len() ==> is_interactive_mode(#[trigger] self.active@[i])
    }

    pub fn new() -> (detector: Self)
        ensures
            detector.wf(),
            detector@ == InteractiveScan::fresh(),
    {
        let detector = InteractiveDetector {
            stage: Stage::Ground,
            params: Vec::new(),
            cur: 0,
            has_digit: false,
            active: Vec::new(),
        };
        assert(detector@.active =~= Set::empty());
        detector
    }

    /// Takes in bytes and returns what is to be reported for them.
    pub fn feed(&mut self, bytes: &[u8]) -> (events: Vec<InteractiveEvent>)
        requires
            old(self).wf(),
        ensures
            final(self).wf(),
            final(self)@ == old(self)@.after(bytes@),
            events@ == old(self)@.events(bytes@),
    {
        let mut events: Vec<InteractiveEvent> = Vec::new();
        let ghost before = self@;
        let mut i: usize = 0;
        while i < bytes.len()
            invariant
                i <= bytes.len(),
                self.wf(),
                self@ == before.after(bytes@.take(i as int)),
                events@ == before.events(bytes@.take(i as int)),
            decreases bytes.len() - i,
        {
            assert(bytes@.take(i + 1).drop_last() =~= bytes@.take(i as int));
            self.step(bytes[i], &mut events);
            i += 1;
        }
        assert(bytes@.take(i as int) =~= bytes@);
        events
    }

    /// Takes in one byte and adds what is to be reported for it.
    fn step(&mut self, b: u8, events: &mut Vec<InteractiveEvent>)
        requires
            old(self).wf(),
        ensures
            final(self).wf(),
            final(self)@ == old(self)@.step(b),
            final(events)@ == old(events)@ + old(self)@.noticed(b),
    {
        assert(events@ + Seq::<InteractiveEvent>::empty() =~= events@);
        match self.stage {
            Stage::Ground => {
                if b == 0x1B {
                    self.stage = Stage::Esc;
                }
            },
            Stage::Esc => {
                self.stage = if b == 0x5B {
                    Stage::Csi
                } else {
                    Stage::Ground
                };
            },
            Stage::Csi => {
                if b == 0x3F {
                    self.stage = Stage::Param;
                    self.params.clear();
                    self.cur = 0;
                    self.has_digit = false;
                } else if b >= 0x40 && b <= 0x7E {
                    self.stage = Stage::Ground;
                }
            },
            Stage::Param => {
                if b >= 0x30 && b <= 0x39 {
                    self.cur = push_digit(self.cur, b);
                    self.has_digit = true;
                } else if b == 0x3B {
                    self.end_param();
                } else if b == 0x68 || b == 0x6C {
                    self.end_param();
                    self.apply_modes(b == 0x68, events);
                    self.stage = Stage::Ground;
                } else if b >= 0x40 && b <= 0x7E {
                    self.stage = Stage::Ground;
                }
            },
        }
    }

    /// Ends the parameter being read.
    fn end_param(&mut self)
        requires
            old(self).wf(),
        ensures
            final(self).wf(),
            final(self)@ == (InteractiveScan {
                params: old(self)@.all_params(),
                cur: 0,
                has_digit: false,
                ..old(self)@
            }),
    {
        if self.has_digit {
            self.params.push(self.cur);
        }
        self.cur = 0;
        self.has_digit = false;
    }

    /// Switches every mode in the list of parameters, and empties the list.
    fn apply_modes(&mut self, on: bool, events: &mut Vec<InteractiveEvent>)
        requires
            old(self).wf(),
        ensures
            final(self).wf(),
            final(self)@ == (InteractiveScan {
                params: Seq::empty(),
                active: switched_all(old(self)@.active, old(self)@.params, on),
                ..old(self)@
            }),
            final(events)@ == old(events)@ + crossings(old(self)@.active, old(self)@.params, on),
    {
        let ghost scan = self@;
        let ghost so_far = events@;
        let mut i: usize = 0;
        assert(events@ =~= so_far + crossings(scan.active, scan.params.take(0), on));
        while i < self.params.len()
            invariant
                i <= self.params@.len(),
                self.wf(),
                self@ == (InteractiveScan {
                    active: switched_all(scan.active, scan.params.take(i as int), on),
                    ..scan
                }),
                events@ == so_far + crossings(scan.active, scan.params.take(i as int), on),
            decreases self.params.len() - i,
        {
            assert(scan.params.take(i + 1).drop_last() =~= scan.params.take(i as int));
            assert(scan.params.take(i + 1).last() == scan.params[i as int]);
            let ghost heard = events@;
            let ghost active = self@.active;
            if let Some(event) = self.apply_mode(self.params[i], on) {
                events.push(event);
            }
            assert(events@ =~= heard + crossing(active, self@.active));
            assert(events@ =~= so_far + crossings(scan.active, scan.params.take(i + 1), on));
            i += 1;
        }
        assert(scan.params.take(i as int) =~= scan.params);
        self.params.clear();
    }

    /// Switches one mode, and tells if the set of those that are on became
    /// empty or ceased to be.
    pub fn apply_mode(&mut self, mode: u32, on: bool) -> (event: Option<InteractiveEvent>)
        requires
            old(self).wf(),
        ensures
            final(self).wf(),
            final(self)@ == (InteractiveScan {
                active: switched(old(self)@.active, mode, on),
                ..old(self)@
            }),
            match event {
                Some(e) => crossing(old(self)@.active, final(self)@.active) == seq![e],
                None => crossing(old(self)@.active, final(self)@.active) == Seq::<
                    InteractiveEvent,
                >::empty(),
            },
    {
        if !interactive_mode(mode) {
            return None;
        }
        let ghost before = self.active@;
        let was_empty = self.active.is_empty();
        let at = self.position(mode);
        if on {
            match at {
                None => {
                    self.active.push(mode);
                    proof {
                        assert forall|i: int| 0 <= i < self.active@.len() implies
                            is_interactive_mode(#[trigger] self.active@[i]) by {
                            if i < before.len() {
                                assert(self.active@[i] == before[i]);
                            }
                        }
                        assert(self.active@.to_set() =~= before.to_set().insert(mode)) by {
                            lemma_push_set(before, mode);
                        }
                    }
                },
                Some(i) => {
                    assert(before.to_set().contains(before[i as int]));
                    assert(before.to_set().insert(mode) =~= before.to_set());
                },
            }
        } else {
            match at {
                None => {
                    assert(before.to_set().remove(mode) =~= before.to_set());
                },
                Some(i) => {
                    self.active.remove(i);
                    proof {
                        lemma_remove_set(before, i as int);
                    }
                },
            }
        }
        proof {
            lemma_set_of_list(before);
            lemma_set_of_list(self.active@);
        }
        let is_empty = self.active.is_empty();
        if was_empty && !is_empty {
            Some(InteractiveEvent::Enter)
        } else if !was_empty && is_empty {
            Some(InteractiveEvent::Leave)
        } else {
            None
        }
    }

    /// Where a mode stands among those that are on.
    fn position(&self, mode: u32) -> (at: Option<usize>)
        ensures
            match at {
                Some(i) => i < self.active@.len() && self.active@[i as int] == mode,
                None => !self.active@.contains(mode),
            },
    {
        let mut i: usize = 0;
        while i < self.active.len()
            invariant
                i <= self.active@.len(),
                forall|j: int| 0 <= j < i ==> self.active@[j] != mode,
            decreases self.active.len() - i,
        {
            if self.active[i] == mode {
                return Some(i);
            }
            i += 1;
        }
        None
    }
}

/// The modes that a detector holds to be on are among those that count.
pub proof fn law_only_counted_modes_are_on(detector: InteractiveDetector, mode: u32)
    requires
        detector.wf(),
        detector@.active.contains(mode),
    ensures
        is_interactive_mode(mode),
{
    let i = detector.active@.index_of(mode);
    assert(is_interactive_mode(detector.active@[i]));
}

/// A value at the end of a list is one more member of its set.
proof fn lemma_push_set(list: Seq<u32>, mode: u32)
    ensures
        list.push(mode).to_set() == list.to_set().insert(mode),
{
    let longer = list.push(mode);
    assert forall|m: u32| longer.to_set().contains(m) == list.to_set().insert(mode).contains(m) by {
        if list.contains(m) {
            let i = list.index_of(m);
            assert(longer[i] == m);
        }
        assert(longer[list.len() as int] == mode);
    }
    assert(longer.to_set() =~= list.to_set().insert(mode));
}

/// Taking the only occurrence of a value out of a list takes it out of the
/// set.
proof fn lemma_remove_set(list: Seq<u32>, i: int)
    requires
        0 <= i < list.len(),
        list.no_duplicates(),
    ensures
        list.remove(i).to_set() == list.to_set().remove(list[i]),
        list.remove(i).no_duplicates(),
        forall|j: int| 0 <= j < list.len() - 1 ==> list.contains(#[trigger] list.remove(i)[j]),
{
    let shorter = list.remove(i);
    assert forall|j: int| 0 <= j < list.len() - 1 implies list.contains(#[trigger] shorter[j]) by {
        assert(shorter[j] == list[if j < i { j } else { j + 1 }]);
    }
    assert forall|m: u32| shorter.to_set().contains(m) == list.to_set().remove(list[i]).contains(
        m,
    ) by {
        if list.contains(m) && m != list[i] {
            let k = list.index_of(m);
            assert(shorter[if k < i { k } else { k - 1 }] == m);
        }
        if shorter.contains(m) {
            let k = shorter.index_of(m);
            assert(shorter[k] == list[if k < i { k } else { k + 1 }]);
        }
    }
    assert(shorter.to_set() =~= list.to_set().remove(list[i]));
}

/// A stream may be cut into chunks anywhere: the scanner reports the same and
/// remembers the same.
pub proof fn law_chunks_do_not_matter(scan: InteractiveScan, first: Seq<u8>, then: Seq<u8>)
    ensures
        scan.after(first + then) == scan.after(first).after(then),
        scan.events(first + then) == scan.events(first) + scan.after(first).events(then),
    decreases then.len(),
{
    if then.len() == 0 {
        assert(first + then =~= first);
        assert(scan.events(first) + Seq::<InteractiveEvent>::empty() =~= scan.events(first));
    } else {
        law_chunks_do_not_matter(scan, first, then.drop_last());
        assert((first + then).drop_last() =~= first + then.drop_last());
        assert((first + then).last() == then.last());
        assert(scan.events(first + then) =~= scan.events(first) + scan.after(first).events(then));
    }
}

/// Text without an escape character says nothing.
pub proof fn law_plain_text_is_silent(scan: InteractiveScan, text: Seq<u8>)
    requires
        scan.stage == Stage::Ground,
        !text.contains(0x1B),
    ensures
        scan.events(text) == Seq::<InteractiveEvent>::empty(),
        scan.after(text) == scan,
    decreases text.len(),
{
    if text.len() > 0 {
        let before = text.drop_last();
        assert(text.contains(text.last()));
        assert forall|b: u8| before.contains(b) implies text.contains(b) by {
            let i = before.index_of(b);
            assert(text[i] == b);
        }
        law_plain_text_is_silent(scan, before);
    }
}

/// Reading the digits of a parameter.
proof fn lemma_digits_read(scan: InteractiveScan, digits: Seq<u8>)
    requires
        scan.stage == Stage::Param,
        scan.cur == 0,
        !scan.has_digit,
        all_digits(digits),
    ensures
        scan.after(digits) == (InteractiveScan {
            cur: capped(decimal(digits)),
            has_digit: digits.len() > 0,
            ..scan
        }),
        scan.events(digits) == Seq::<InteractiveEvent>::empty(),
    decreases digits.len(),
{
    if digits.len() > 0 {
        let before = digits.drop_last();
        assert(all_digits(before));
        assert(is_digit(digits[digits.len() - 1]));
        lemma_digits_read(scan, before);
        lemma_capped_digit(decimal(before), digits.last());
    }
}

/// Between sequences, `CSI ? n h` switches mode `n` on and `CSI ? n l` switches
/// it off, is reported accordingly, and leaves the scanner between sequences.
pub proof fn law_mode_sequence_is_reported(scan: InteractiveScan, digits: Seq<u8>, on: bool)
    requires
        scan.stage == Stage::Ground,
        digits.len() > 0,
        all_digits(digits),
    ensures
        ({
            let bytes = private_sequence(digits, if on { 0x68 } else { 0x6C });
            let active = switched(scan.active, capped(decimal(digits)), on);
            &&& scan.after(bytes).stage == Stage::Ground
            &&& scan.after(bytes).active == active
            &&& scan.events(bytes) == crossing(scan.active, active)
        }),
{
    let head = seq![0x1Bu8, 0x5B, 0x3F];
    let last: u8 = if on {
        0x68
    } else {
        0x6C
    };
    let bytes = private_sequence(digits, last);
    assert(head.drop_last().drop_last().drop_last() =~= Seq::<u8>::empty());
    reveal_with_fuel(InteractiveScan::after, 4);
    reveal_with_fuel(InteractiveScan::events, 4);
    let open = scan.after(head);
    assert(open.stage == Stage::Param && open.cur == 0 && !open.has_digit && open.params
        == Seq::<u32>::empty() && open.active == scan.active);
    assert(scan.events(head) =~= Seq::<InteractiveEvent>::empty());
    lemma_digits_read(open, digits);
    law_chunks_do_not_matter(scan, head, digits);
    assert(bytes.drop_last() =~= head + digits);
    assert(bytes.last() == last);
    let read = scan.after(head + digits);
    let modes = seq![capped(decimal(digits))];
    assert(read.all_params() =~= modes);
    assert(modes.drop_last() =~= Seq::<u32>::empty());
    reveal_with_fuel(switched_all, 2);
    reveal_with_fuel(crossings, 2);
    assert(crossings(scan.active, modes, on) =~= crossing(
        scan.active,
        switched(scan.active, capped(decimal(digits)), on),
    ));
    assert(scan.events(bytes) =~= read.noticed(last));
}

/// Modes that do not count, such as bracketed paste, change nothing and are
/// not reported.
pub proof fn law_other_modes_are_ignored(active: Set<u32>, modes: Seq<u32>, on: bool)
    requires
        forall|i: int| 0 <= i < modes.len() ==> !is_interactive_mode(#[trigger] modes[i]),
    ensures
        switched_all(active, modes, on) == active,
        crossings(active, modes, on) == Seq::<InteractiveEvent>::empty(),
    decreases modes.len(),
{
    if modes.len() > 0 {
        let before = modes.drop_last();
        assert forall|i: int| 0 <= i < before.len() implies !is_interactive_mode(
            #[trigger] before[i],
        ) by {
            assert(before[i] == modes[i]);
        }
        law_other_modes_are_ignored(active, before, on);
        assert(!is_interactive_mode(modes[modes.len() - 1]));
    }
}

/// Whether any of the modes counts.
pub open spec fn any_interactive(modes: Seq<u32>) -> bool {
    exists|i: int| 0 <= i < modes.len() && is_interactive_mode(#[trigger] modes[i])
}

proof fn lemma_any_interactive(modes: Seq<u32>)
    requires
        modes.len() > 0,
    ensures
        any_interactive(modes) == (any_interactive(modes.drop_last()) || is_interactive_mode(
            modes.last(),
        )),
{
    let before = modes.drop_last();
    if any_interactive(before) {
        let i = choose|i: int| 0 <= i < before.len() && is_interactive_mode(#[trigger] before[i]);
        assert(modes[i] == before[i]);
    }
    if is_interactive_mode(modes.last()) {
        assert(is_interactive_mode(modes[modes.len() - 1]));
    }
    if any_interactive(modes) && !is_interactive_mode(modes.last()) {
        let i = choose|i: int| 0 <= i < modes.len() && is_interactive_mode(#[trigger] modes[i]);
        assert(before[i] == modes[i]);
    }
}

/// Switching several modes on at once is reported at most once: as one
/// `Enter`, if none was on and any of them counts.
pub proof fn law_several_modes_enter_once(active: Set<u32>, modes: Seq<u32>)
    ensures
        crossings(active, modes, true) == if active.is_empty() && any_interactive(modes) {
            seq![InteractiveEvent::Enter]
        } else {
            Seq::<InteractiveEvent>::empty()
        },
        switched_all(active, modes, true).is_empty() == (active.is_empty() && !any_interactive(
            modes,
        )),
        forall|m: u32|
            #![trigger switched_all(active, modes, true).contains(m)]
            switched_all(active, modes, true).contains(m) == (active.contains(m) || (
            is_interactive_mode(m) && modes.contains(m))),
    decreases modes.len(),
{
    if modes.len() > 0 {
        let before = modes.drop_last();
        let mode = modes.last();
        law_several_modes_enter_once(active, before);
        lemma_any_interactive(modes);
        let set = switched_all(active, before, true);
        if is_interactive_mode(mode) {
            assert(set.insert(mode).contains(mode));
        }
        assert forall|m: u32| modes.contains(m) == (before.contains(m) || m == mode) by {
            if modes.contains(m) {
                let i = modes.index_of(m);
                if i < before.len() {
                    assert(before[i] == m);
                }
            }
            if before.contains(m) {
                let i = before.index_of(m);
                assert(modes[i] == m);
            }
            assert(modes[modes.len() - 1] == mode);
        }
        assert(crossings(active, modes, true) =~= if active.is_empty() && any_interactive(modes) {
            seq![InteractiveEvent::Enter]
        } else {
            Seq::<InteractiveEvent>::empty()
        });
    }
}

proof fn lemma_switch_off(active: Set<u32>, modes: Seq<u32>)
    ensures
        crossings(active, modes, false) == if !active.is_empty() && switched_all(
            active,
            modes,
            false,
        ).is_empty() {
            seq![InteractiveEvent::Leave]
        } else {
            Seq::<InteractiveEvent>::empty()
        },
        forall|m: u32|
            #![trigger switched_all(active, modes, false).contains(m)]
            switched_all(active, modes, false).contains(m) == (active.contains(m) && !(
            is_interactive_mode(m) && modes.contains(m))),
    decreases modes.len(),
{
    if modes.len() > 0 {
        let before = modes.drop_last();
        let mode = modes.last();
        lemma_switch_off(active, before);
        let set = switched_all(active, before, false);
        assert forall|m: u32| modes.contains(m) == (before.contains(m) || m == mode) by {
            if modes.contains(m) {
                let i = modes.index_of(m);
                if i < before.len() {
                    assert(before[i] == m);
                }
            }
            if before.contains(m) {
                let i = before.index_of(m);
                assert(modes[i] == m);
            }
            assert(modes[modes.len() - 1] == mode);
        }
        assert(set.is_empty() ==> set.remove(mode) =~= set);
        assert(crossings(active, modes, false) =~= if !active.is_empty() && switched_all(
            active,
            modes,
            false,
        ).is_empty() {
            seq![InteractiveEvent::Leave]
        } else {
            Seq::<InteractiveEvent>::empty()
        });
    }
}

/// A program that switches modes on when it starts and the same modes off when
/// it ends is reported as one `Enter` and one `Leave`, however many they are.
pub proof fn law_program_enters_and_leaves_once(modes: Seq<u32>)
    requires
        any_interactive(modes),
    ensures
        ({
            let running = switched_all(Set::empty(), modes, true);
            &&& crossings(Set::empty(), modes, true) == seq![InteractiveEvent::Enter]
            &&& crossings(running, modes, false) == seq![InteractiveEvent::Leave]
            &&& switched_all(running, modes, false) == Set::<u32>::empty()
        }),
{
    law_several_modes_enter_once(Set::empty(), modes);
    let running = switched_all(Set::empty(), modes, true);
    lemma_switch_off(running, modes);
    assert(switched_all(running, modes, false) =~= Set::<u32>::empty());
}

/// Whether events take turns, beginning with `Leave` if a program is running
/// and with `Enter` if not.
pub open spec fn take_turns(events: Seq<InteractiveEvent>, running: bool) -> bool {
    forall|i: int|
        0 <= i < events.len() ==> #[trigger] events[i] == if (i % 2 == 0) == running {
            InteractiveEvent::Leave
        } else {
            InteractiveEvent::Enter
        }
}

/// Whether a program is running after some events.
pub open spec fn running_after(running: bool, events: Seq<InteractiveEvent>) -> bool {
    running == (events.len() % 2 == 0)
}

proof fn lemma_turns_join(a: Seq<InteractiveEvent>, b: Seq<InteractiveEvent>, running: bool)
    requires
        take_turns(a, running),
        take_turns(b, running_after(running, a)),
    ensures
        take_turns(a + b, running),
        running_after(running, a + b) == running_after(running_after(running, a), b),
{
    let both = a + b;
    assert forall|i: int| 0 <= i < both.len() implies #[trigger] both[i] == if (i % 2 == 0)
        == running {
        InteractiveEvent::Leave
    } else {
        InteractiveEvent::Enter
    } by {
        if i < a.len() {
            assert(both[i] == a[i]);
        } else {
            assert(both[i] == b[i - a.len()]);
        }
    }
}

proof fn lemma_crossings_take_turns(active: Set<u32>, modes: Seq<u32>, on: bool)
    ensures
        take_turns(crossings(active, modes, on), !active.is_empty()),
        running_after(!active.is_empty(), crossings(active, modes, on)) == !switched_all(
            active,
            modes,
            on,
        ).is_empty(),
    decreases modes.len(),
{
    if modes.len() > 0 {
        lemma_crossings_take_turns(active, modes.drop_last(), on);
        lemma_turns_join(
            crossings(active, modes.drop_last(), on),
            crossing(
                switched_all(active, modes.drop_last(), on),
                switched_all(active, modes, on),
            ),
            !active.is_empty(),
        );
    }
}

/// Reports take turns whatever the stream holds: there is no second `Enter`
/// before a `Leave`, and the other way round. A program is running after them
/// exactly if a mode is on.
pub proof fn law_events_take_turns(scan: InteractiveScan, bytes: Seq<u8>)
    ensures
        take_turns(scan.events(bytes), !scan.active.is_empty()),
        running_after(!scan.active.is_empty(), scan.events(bytes)) == !scan.after(
            bytes,
        ).active.is_empty(),
    decreases bytes.len(),
{
    if bytes.len() > 0 {
        law_events_take_turns(scan, bytes.drop_last());
        let read = scan.after(bytes.drop_last());
        lemma_crossings_take_turns(read.active, read.all_params(), bytes.last() == 0x68);
        lemma_turns_join(
            scan.events(bytes.drop_last()),
            read.noticed(bytes.last()),
            !scan.active.is_empty(),
        );
    }
}

/// The modes that count: those for the alternate screen, for mouse reports and
/// for focus reports.
pub proof fn law_modes_that_count(mode: u32)
    ensures
        is_interactive_mode(mode) == set![
            47u32,
            1000u32,
            1002u32,
            1003u32,
            1004u32,
            1006u32,
            1047u32,
            1049u32,
        ].contains(mode),
{
}

/// Switching several modes off is reported at most once: as one `Leave`, if any
/// was on and none is any more. Of the modes that were on those stay that are
/// not switched off.
pub proof fn law_several_modes_leave_once(active: Set<u32>, modes: Seq<u32>, mode: u32)
    ensures
        crossings(active, modes, false) == if !active.is_empty() && switched_all(
            active,
            modes,
            false,
        ).is_empty() {
            seq![InteractiveEvent::Leave]
        } else {
            Seq::<InteractiveEvent>::empty()
        },
        switched_all(active, modes, false).contains(mode) == (active.contains(mode) && !(
        is_interactive_mode(mode) && modes.contains(mode))),
{
    lemma_switch_off(active, modes);
}

/// How far into a sequence one more byte leads. A sequence is an escape
/// character, `[`, `?`, numbers with semicolons between them, and a final byte
/// from `@` to `~`; other bytes in it are passed over.
pub proof fn law_bytes_lead_into_a_sequence(scan: InteractiveScan, b: u8)
    ensures
        ({
            let next = scan.step(b);
            let ends = '@' as u8 <= b <= '~' as u8;
            &&& scan.stage == Stage::Ground ==> next == (InteractiveScan {
                stage: if b == 0x1B {
                    Stage::Esc
                } else {
                    Stage::Ground
                },
                ..scan
            })
            &&& scan.stage == Stage::Esc ==> next.stage == if b == '[' as u8 {
                Stage::Csi
            } else {
                Stage::Ground
            }
            &&& scan.stage == Stage::Csi && b == '?' as u8 ==> next.stage == Stage::Param
                && next.params.len() == 0 && next.cur == 0 && !next.has_digit
            &&& scan.stage == Stage::Csi && b != '?' as u8 ==> next.stage == if ends {
                Stage::Ground
            } else {
                Stage::Csi
            }
            &&& scan.stage == Stage::Param && '0' as u8 <= b <= '9' as u8 ==> next.stage
                == Stage::Param && next.has_digit && next.params == scan.params && next.cur
                == if 10 * scan.cur + (b - '0' as u8) > u32::MAX {
                u32::MAX as int
            } else {
                10 * scan.cur + (b - '0' as u8)
            }
            &&& scan.stage == Stage::Param && b == ';' as u8 ==> next.stage == Stage::Param
                && next.cur == 0 && !next.has_digit && next.params == if scan.has_digit {
                scan.params.push(scan.cur)
            } else {
                scan.params
            }
            &&& scan.stage == Stage::Param && ends ==> next.stage == Stage::Ground
            &&& scan.stage == Stage::Param && !('0' as u8 <= b <= '9' as u8) && b != ';' as u8
                && !ends ==> next == scan
            &&& !(scan.stage == Stage::Param && (b == 'h' as u8 || b == 'l' as u8))
                ==> next.active == scan.active
        }),
{
}

/// The `h` that ends a sequence switches all its modes on, the `l` switches them
/// off, one after the other. What that changes is reported, and nothing else is.
pub proof fn law_only_switches_are_reported(scan: InteractiveScan, b: u8)
    ensures
        ({
            let modes = if scan.has_digit {
                scan.params.push(scan.cur)
            } else {
                scan.params
            };
            let on = b == 'h' as u8;
            let switches = scan.stage == Stage::Param && (on || b == 'l' as u8);
            &&& switches ==> scan.step(b).active == switched_all(scan.active, modes, on)
            &&& switches ==> scan.noticed(b) == crossings(scan.active, modes, on)
            &&& !switches ==> scan.noticed(b).len() == 0
        }),
{
}

/// A stream is read byte by byte, and at first no mode is on.
pub proof fn law_one_byte_is_one_step(scan: InteractiveScan, b: u8)
    ensures
        scan.after(seq![b]) == scan.step(b),
        scan.events(seq![b]) == scan.noticed(b),
        scan.after(Seq::empty()) == scan,
        scan.events(Seq::empty()) == Seq::<InteractiveEvent>::empty(),
        InteractiveScan::fresh().stage == Stage::Ground,
        InteractiveScan::fresh().active.is_empty(),
{
    let one = seq![b];
    assert(one.drop_last() =~= Seq::<u8>::empty());
    reveal_with_fuel(InteractiveScan::after, 2);
    reveal_with_fuel(InteractiveScan::events, 2);
    assert(scan.events(one) =~= scan.noticed(b));
}

/// One mode switched: it is on or off then if it counts, every other mode is as
/// before, and the report tells whether the set of those that are on ceased to
/// be empty or became so.
pub proof fn law_one_mode_is_switched(active: Set<u32>, mode: u32, on: bool, other: u32)
    ensures
        ({
            let after = switched(active, mode, on);
            &&& is_interactive_mode(mode) ==> after.contains(mode) == on
            &&& !is_interactive_mode(mode) || other != mode ==> after.contains(other)
                == active.contains(other)
            &&& active.is_empty() && !after.is_empty() ==> crossing(active, after) == seq![
                InteractiveEvent::Enter,
            ]
            &&& !active.is_empty() && after.is_empty() ==> crossing(active, after) == seq![
                InteractiveEvent::Leave,
            ]
            &&& active.is_empty() == after.is_empty() ==> crossing(active, after).len() == 0
        }),
{
}

} // verus!
