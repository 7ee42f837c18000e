//! From bytes to escape sequences.
//!
//! The `vte` crate holds the state machine that splits a terminal's byte stream
//! into characters and control sequences. It reports each one to a handler; the
//! handler here writes them down, in order, so that what they mean can be stated
//! and proved apart from how they are found.
use crate::grid::model::VtAction;
use vstd::prelude::*;

verus! {

/// `vte::Parser`: where in a sequence the stream stands. Opaque.
#[verifier::external_type_specification]
#[verifier::external_body]
pub struct ExParser<const N: usize>(vte::Parser<N>);

/// `vte::Params`: the numeric parameters of a control sequence. Opaque.
#[verifier::external_type_specification]
#[verifier::external_body]
pub struct ExParams(vte::Params);

/// One thing that the parser found.
pub enum VtEvent {
    Print(char),
    Execute(u8),
    Csi { params: Vec<Vec<u16>>, intermediates: Vec<u8>, action: char },
    Esc { intermediates: Vec<u8>, byte: u8 },
    Osc { fields: Vec<Vec<u8>> },
}

/// The numbers of a list of parameter groups.
pub open spec fn groups(v: Seq<Vec<u16>>) -> Seq<Seq<u16>> {
    Seq::new(v.len(), |i: int| v[i]@)
}

/// The bytes of a list of fields.
pub open spec fn fields_of(v: Seq<Vec<u8>>) -> Seq<Seq<u8>> {
    Seq::new(v.len(), |i: int| v[i]@)
}

impl View for VtEvent {
    type V = VtAction;

    open spec fn view(&self) -> VtAction {
        match *self {
            VtEvent::Print(c) => VtAction::Print(c),
            VtEvent::Execute(b) => VtAction::Execute(b),
            VtEvent::Csi { params, intermediates, action } => VtAction::Csi {
                params: groups(params@),
                intermediates: intermediates@,
                action,
            },
            VtEvent::Esc { intermediates, byte } => VtAction::Esc {
                intermediates: intermediates@,
                byte,
            },
            VtEvent::Osc { fields } => VtAction::Osc { fields: fields_of(fields@) },
        }
    }
}

/// What a list of events means.
pub open spec fn actions(events: Seq<VtEvent>) -> Seq<VtAction> {
    Seq::new(events.len(), |i: int| events[i]@)
}

/// The numbers held by a `vte::Params`, group by group.
pub uninterp spec fn param_groups(params: vte::Params) -> Seq<Seq<u16>>;

/// Calls `vte::Params::iter`, and copies each group that it yields.
///
/// Claimed of it: the groups are a function of the parameters.
#[verifier::external_body]
fn groups_of(params: &vte::Params) -> (out: Vec<Vec<u16>>)
    ensures
        groups(out@) == param_groups(*params),
{
    params.iter().map(|group| group.to_vec()).collect()
}

/// A copy of some bytes.
pub fn copy_bytes(bytes: &[u8]) -> (out: Vec<u8>)
    ensures
        out@ == bytes@,
{
    let mut out: Vec<u8> = Vec::new();
    let mut i: usize = 0;
    while i < bytes.len()
        invariant
            i <= bytes@.len(),
            out@ == bytes@.take(i as int),
        decreases bytes@.len() - i,
    {
        out.push(bytes[i]);
        i += 1;
        assert(out@ =~= bytes@.take(i as int));
    }
    assert(out@ =~= bytes@);
    out
}

/// The handler that is given to the parser: it writes down what it is told.
pub struct Recorder {
    pub events: Vec<VtEvent>,
}

impl vte::Perform for Recorder {
    fn print(&mut self, c: char)
        ensures
            actions(final(self).events@) == actions(old(self).events@).push(VtAction::Print(c)),
    {
        self.events.push(VtEvent::Print(c));
        assert(actions(self.events@) =~= actions(old(self).events@).push(VtAction::Print(c)));
    }

    fn execute(&mut self, byte: u8)
        ensures
            actions(final(self).events@) == actions(old(self).events@).push(
                VtAction::Execute(byte),
            ),
    {
        self.events.push(VtEvent::Execute(byte));
        assert(actions(self.events@) =~= actions(old(self).events@).push(VtAction::Execute(byte)));
    }

    fn csi_dispatch(
        &mut self,
        params: &vte::Params,
        intermediates: &[u8],
        _ignore: bool,
        action: char,
    )
        ensures
            actions(final(self).events@) == actions(old(self).events@).push(
                (VtAction::Csi {
                    params: param_groups(*params),
                    intermediates: intermediates@,
                    action,
                }),
            ),
    {
        let event = VtEvent::Csi {
            params: groups_of(params),
            intermediates: copy_bytes(intermediates),
            action,
        };
        self.events.push(event);
        assert(actions(self.events@) =~= actions(old(self).events@).push(event@));
    }

    fn esc_dispatch(&mut self, intermediates: &[u8], _ignore: bool, byte: u8)
        ensures
            actions(final(self).events@) == actions(old(self).events@).push(
                (VtAction::Esc { intermediates: intermediates@, byte }),
            ),
    {
        let event = VtEvent::Esc { intermediates: copy_bytes(intermediates), byte };
        self.events.push(event);
        assert(actions(self.events@) =~= actions(old(self).events@).push(event@));
    }

    fn osc_dispatch(&mut self, params: &[&[u8]], _bell_terminated: bool)
        ensures
            actions(final(self).events@) == actions(old(self).events@).push(
                (VtAction::Osc { fields: Seq::new(params@.len(), |i: int| params@[i]@) }),
            ),
    {
        let mut fields: Vec<Vec<u8>> = Vec::new();
        let mut i: usize = 0;
        while i < params.len()
            invariant
                i <= params@.len(),
                fields@.len() == i,
                forall|k: int| 0 <= k < i ==> (#[trigger] fields@[k])@ == params@[k]@,
            decreases params@.len() - i,
        {
            fields.push(copy_bytes(params[i]));
            i += 1;
        }
        assert(fields_of(fields@) =~= Seq::new(params@.len(), |i: int| params@[i]@));
        let event = VtEvent::Osc { fields };
        self.events.push(event);
        assert(actions(self.events@) =~= actions(old(self).events@).push(event@));
    }
}

/// What `vte::Parser::advance` does with some bytes, from a parser in a given
/// state: what it finds in them, and the state that it leaves the parser in.
pub uninterp spec fn vt_run(parser: vte::Parser, bytes: Seq<u8>) -> (Seq<VtAction>, vte::Parser);

/// What is found in `bytes`, from a parser in a given state.
pub open spec fn vt_actions(parser: vte::Parser, bytes: Seq<u8>) -> Seq<VtAction> {
    vt_run(parser, bytes).0
}

/// The state that the parser is left in.
pub open spec fn vt_state(parser: vte::Parser, bytes: Seq<u8>) -> vte::Parser {
    vt_run(parser, bytes).1
}

/// Calls `vte::Parser::advance`, with a [`Recorder`] as the handler.
///
/// Claimed of it: what is reported, and the state that is left, are functions
/// of the state before and of the bytes.
#[verifier::external_body]
pub(crate) fn advance(parser: &mut vte::Parser, bytes: &[u8]) -> (events: Vec<VtEvent>)
    ensures
        (actions(events@), *final(parser)) == vt_run(*old(parser), bytes@),
{
    let mut recorder = Recorder { events: Vec::new() };
    parser.advance(&mut recorder, bytes);
    recorder.events
}

/// The model of an event shows all that was found.
pub proof fn law_an_event_shows_all(e: VtEvent)
    ensures
        e matches VtEvent::Print(c) ==> e@ == VtAction::Print(c),
        e matches VtEvent::Execute(b) ==> e@ == VtAction::Execute(b),
        e matches VtEvent::Csi { params, intermediates, action } ==> (e@ matches VtAction::Csi {
            params: p,
            intermediates: i,
            action: a,
        } && i == intermediates@ && a == action && p.len() == params@.len() && forall|k: int|
            0 <= k < p.len() ==> (#[trigger] p[k]) == params@[k]@),
        e matches VtEvent::Esc { intermediates, byte } ==> e@ == (VtAction::Esc {
            intermediates: intermediates@,
            byte,
        }),
        e matches VtEvent::Osc { fields } ==> (e@ matches VtAction::Osc { fields: f } && f.len()
            == fields@.len() && forall|k: int| 0 <= k < f.len() ==> (#[trigger] f[k]) == fields@[k]@),
{
}

} // verus!
