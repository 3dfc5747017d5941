//! From PTY bytes to terminal actions. The byte-level state machine is
//! `vte`'s; this module turns the calls it makes into a list of [`Action`]s.
use vstd::prelude::*;

verus! {

/// One thing a terminal program asked for.
#[derive(Debug, Clone)]
pub enum Action {
    /// Draw a character.
    Print(char),
    /// A C0 or C1 control code.
    Execute(u8),
    /// A control sequence: its parameters (each with its subparameters), the
    /// intermediate bytes, and the final character.
    Csi { params: Vec<Vec<u16>>, intermediates: Vec<u8>, action: char },
    /// An escape sequence, by its final byte.
    Esc { byte: u8 },
}

/// What an [`Action`] says, over mathematical sequences.
pub enum ActionModel {
    Print(char),
    Execute(u8),
    Csi { params: Seq<Seq<u16>>, intermediates: Seq<u8>, action: char },
    Esc { byte: u8 },
}

/// The lists inside a list.
pub open spec fn rows_of(lists: Seq<Vec<u16>>) -> Seq<Seq<u16>> {
    Seq::new(lists.len(), |i: int| lists[i]@)
}

impl View for Action {
    type V = ActionModel;

    open spec fn view(&self) -> ActionModel {
        match *self {
            Action::Print(c) => ActionModel::Print(c),
            Action::Execute(b) => ActionModel::Execute(b),
            Action::Csi { params, intermediates, action } => ActionModel::Csi {
                params: rows_of(params@),
                intermediates: intermediates@,
                action,
            },
            Action::Esc { byte } => ActionModel::Esc { byte },
        }
    }
}

/// What each of a list of actions says.
pub open spec fn models_of(actions: Seq<Action>) -> Seq<ActionModel> {
    Seq::new(actions.len(), |i: int| actions[i]@)
}

/// `vte::Parser`, the byte-level state machine. It keeps unfinished sequences
/// between calls.
#[verifier::external_type_specification]
#[verifier::external_body]
pub struct ExParser<const N: usize>(vte::Parser<N>);

/// `vte::Params`, the parameters of one control sequence.
#[verifier::external_type_specification]
#[verifier::external_body]
pub struct ExParams(vte::Params);

/// The chunks of bytes a parser was fed since it was made, in order.
pub uninterp spec fn parser_chunks(parser: vte::Parser) -> Seq<Seq<u8>>;

/// The parameters a `vte::Params` holds, each with its subparameters.
pub uninterp spec fn params_held(params: vte::Params) -> Seq<Seq<u16>>;

/// The `print`, `execute`, `csi_dispatch` and `esc_dispatch` calls that
/// `vte::Parser::advance` makes for `bytes`, when the parser was fed `chunks`
/// before.
pub uninterp spec fn vte_actions(chunks: Seq<Seq<u8>>, bytes: Seq<u8>) -> Seq<ActionModel>;

/// Whether `bytes` is ASCII without the escape character.
pub open spec fn is_plain(bytes: Seq<u8>) -> bool {
    forall|i: int| 0 <= i < bytes.len() ==> (#[trigger] bytes[i]) < 0x80 && bytes[i] != 0x1B
}

/// What plain bytes ask for: the control codes are executed, every other
/// character is drawn.
pub open spec fn plain_actions(bytes: Seq<u8>) -> Seq<ActionModel> {
    Seq::new(
        bytes.len(),
        |i: int|
            if bytes[i] < 0x20 {
                ActionModel::Execute(bytes[i])
            } else {
                ActionModel::Print(bytes[i] as char)
            },
    )
}

/// The parameters of a control sequence, read with `vte::Params::iter`: one
/// list for each parameter, in order, with the parameter's own value first and
/// its subparameters after it.
#[verifier::external_body]
fn params_to_lists(params: &vte::Params) -> (lists: Vec<Vec<u16>>)
    ensures
        rows_of(lists@) == params_held(*params),
{
    params.iter().map(|p| p.to_vec()).collect()
}

/// Writes down, in order, the calls a `vte::Parser` makes.
pub struct ActionLog {
    pub actions: Vec<Action>,
}

impl vte::Perform for ActionLog {
    fn print(&mut self, c: char)
        ensures
            models_of(final(self).actions@) == models_of(old(self).actions@).push(
                ActionModel::Print(c),
            ),
    {
        self.actions.push(Action::Print(c));
        assert(models_of(self.actions@) =~= models_of(old(self).actions@).push(
            ActionModel::Print(c),
        ));
    }

    fn execute(&mut self, byte: u8)
        ensures
            models_of(final(self).actions@) == models_of(old(self).actions@).push(
                ActionModel::Execute(byte),
            ),
    {
        self.actions.push(Action::Execute(byte));
        assert(models_of(self.actions@) =~= models_of(old(self).actions@).push(
            ActionModel::Execute(byte),
        ));
    }

    fn csi_dispatch(
        &mut self,
        params: &vte::Params,
        intermediates: &[u8],
        _ignore: bool,
        action: char,
    )
        ensures
            models_of(final(self).actions@) == models_of(old(self).actions@).push(
                ActionModel::Csi {
                    params: params_held(*params),
                    intermediates: intermediates@,
                    action,
                },
            ),
    {
        let lists = params_to_lists(params);
        let marks = vstd::slice::slice_to_vec(intermediates);
        self.actions.push(Action::Csi { params: lists, intermediates: marks, action });
        assert(models_of(self.actions@) =~= models_of(old(self).actions@).push(
            ActionModel::Csi {
                params: params_held(*params),
                intermediates: intermediates@,
                action,
            },
        ));
    }

    fn esc_dispatch(&mut self, _intermediates: &[u8], _ignore: bool, byte: u8)
        ensures
            models_of(final(self).actions@) == models_of(old(self).actions@).push(
                ActionModel::Esc { byte },
            ),
    {
        self.actions.push(Action::Esc { byte });
        assert(models_of(self.actions@) =~= models_of(old(self).actions@).push(
            ActionModel::Esc { byte },
        ));
    }
}

/// A parser that was fed nothing yet: `vte::Parser::new`.
#[verifier::external_body]
pub(crate) fn new_parser() -> (parser: vte::Parser)
    ensures
        parser_chunks(parser) == Seq::<Seq<u8>>::empty(),
{
    vte::Parser::new()
}

/// Feeds `bytes` to the parser with `vte::Parser::advance` and returns the
/// calls it made, as an [`ActionLog`] wrote them down. They depend on the
/// bytes and on the chunks fed before, and on nothing else. Where a character
/// is cut in two by a chunk boundary they also depend on where the boundary
/// is, so nothing is said of two ways to cut the same bytes. As long as a
/// parser has seen no escape character and nothing but ASCII, it asks for one
/// action for each byte.
#[verifier::external_body]
pub(crate) fn advance(parser: &mut vte::Parser, bytes: &[u8]) -> (actions: Vec<Action>)
    ensures
        parser_chunks(*final(parser)) == parser_chunks(*old(parser)).push(bytes@),
        models_of(actions@) == vte_actions(parser_chunks(*old(parser)), bytes@),
        is_plain(parser_chunks(*old(parser)).flatten()) && is_plain(bytes@) ==> models_of(actions@)
            == plain_actions(bytes@),
{
    let mut log = ActionLog { actions: Vec::new() };
    parser.advance(&mut log, bytes);
    log.actions
}

} // verus!
