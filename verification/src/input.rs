//! Turning the raw input stream into actions or pass-through.
//!
//! Almost every byte belongs to the active child. Two things are intercepted: a
//! prefix chord, `Ctrl-B` and a command key, and mouse reports, so that the
//! rail is made of real buttons. The rest is forwarded untouched.
use crate::text::{decimal, law_numerals_read_back, value_of};
use vstd::prelude::*;
use vstd::utf8::{
    encode_utf8, encode_utf8_valid_utf8, is_ascii_chars, is_ascii_chars_encode_utf8, valid_utf8,
};

verus! {

/// `Ctrl-B`
pub const PREFIX: u8 = 0x02;

/// Give up on a candidate mouse report after this many bytes, and hand them
/// back as ordinary input.
pub const MAX_MOUSE_LEN: usize = 32;

pub const ESC: u8 = 0x1b;

/// A decoded mouse report.
#[derive(Debug, PartialEq, Eq, Clone, Copy, Structural)]
pub struct MouseEvent {
    pub button: u16,
    /// Counted from zero; on the wire columns and rows are counted from one.
    pub x: u16,
    pub y: u16,
    pub pressed: bool,
}

#[derive(Debug, PartialEq, Eq)]
pub enum Action {
    /// Send these bytes to the active terminal.
    Forward(Vec<u8>),
    NewPane,
    ClosePane,
    NextPane,
    PrevPane,
    SelectPane(usize),
    /// A raw click. What it hits depends on the layout of the moment.
    Mouse(MouseEvent),
    GrowSidebar,
    ShrinkSidebar,
    Redraw,
    Quit,
}

/// An [`Action`] with its bytes as a sequence.
#[verifier::ext_equal]
pub enum ActionModel {
    Forward(Seq<u8>),
    NewPane,
    ClosePane,
    NextPane,
    PrevPane,
    SelectPane(int),
    Mouse(MouseEvent),
    GrowSidebar,
    ShrinkSidebar,
    Redraw,
    Quit,
}

impl View for Action {
    type V = ActionModel;

    open spec fn view(&self) -> ActionModel {
        match *self {
            Action::Forward(bytes) => ActionModel::Forward(bytes@),
            Action::NewPane => ActionModel::NewPane,
            Action::ClosePane => ActionModel::ClosePane,
            Action::NextPane => ActionModel::NextPane,
            Action::PrevPane => ActionModel::PrevPane,
            Action::SelectPane(i) => ActionModel::SelectPane(i as int),
            Action::Mouse(m) => ActionModel::Mouse(m),
            Action::GrowSidebar => ActionModel::GrowSidebar,
            Action::ShrinkSidebar => ActionModel::ShrinkSidebar,
            Action::Redraw => ActionModel::Redraw,
            Action::Quit => ActionModel::Quit,
        }
    }
}

/// What a list of actions means.
pub open spec fn meaning(actions: Seq<Action>) -> Seq<ActionModel> {
    Seq::new(actions.len(), |i: int| actions[i]@)
}

// ---- mouse reports --------------------------------------------------------------

/// The place of the first `;` from `from` on, or the length where there is none.
pub open spec fn semicolon(s: Seq<u8>, from: int) -> int
    decreases s.len() - from,
{
    if from >= s.len() {
        s.len() as int
    } else if s[from] == 0x3b {
        from
    } else {
        semicolon(s, from + 1)
    }
}

/// The number that the first `n` of some digits spell.
pub open spec fn digits_value(s: Seq<u8>, n: int) -> nat
    decreases n,
{
    if n <= 0 {
        0
    } else {
        digits_value(s, n - 1) * 10 + (s[n - 1] - 0x30) as nat
    }
}

pub open spec fn all_digits(s: Seq<u8>) -> bool {
    forall|i: int| 0 <= i < s.len() ==> 0x30 <= #[trigger] s[i] <= 0x39
}

/// A decimal numeral that a `u16` can hold, with or without a leading `+`.
pub open spec fn numeral(s: Seq<u8>) -> Option<u16> {
    let digits = if s.len() > 0 && s[0] == 0x2b {
        s.skip(1)
    } else {
        s
    };
    if digits.len() > 0 && all_digits(digits) && digits_value(digits, digits.len() as int)
        <= u16::MAX {
        Some(digits_value(digits, digits.len() as int) as u16)
    } else {
        None
    }
}

pub open spec fn less_one(n: u16) -> u16 {
    if n == 0 {
        0
    } else {
        (n - 1) as u16
    }
}

/// The report in `ESC [ < button ; col ; row M` (a press) or `... m` (a
/// release). Further fields are ignored.
pub open spec fn mouse_report(buf: Seq<u8>) -> Option<MouseEvent> {
    let body = buf.subrange(3, buf.len() - 1);
    let i = semicolon(body, 0);
    let j = semicolon(body, i + 1);
    let k = semicolon(body, j + 1);
    if buf.len() >= 4 && valid_utf8(buf) && is_mouse_head(buf.take(3)) && i < body.len() && j
        < body.len() {
        match (
            numeral(body.subrange(0, i)),
            numeral(body.subrange(i + 1, j)),
            numeral(body.subrange(j + 1, k)),
        ) {
            (Some(button), Some(col), Some(row)) => Some(
                MouseEvent {
                    button,
                    x: less_one(col),
                    y: less_one(row),
                    pressed: buf.last() == 0x4d,
                },
            ),
            _ => None,
        }
    } else {
        None
    }
}

/// `ESC [ <`, or the part of it that has come so far.
pub open spec fn is_mouse_head(s: Seq<u8>) -> bool {
    &&& s.len() <= 3
    &&& s.len() >= 1 ==> s[0] == ESC
    &&& s.len() >= 2 ==> s[1] == 0x5b
    &&& s.len() >= 3 ==> s[2] == 0x3c
}

fn find_semicolon(s: &Vec<u8>, from: usize, to: usize) -> (at: usize)
    requires
        from <= to <= s@.len(),
    ensures
        from <= at <= to,
        at == semicolon(s@.take(to as int), from as int),
{
    let mut i: usize = from;
    while i < to && s[i] != 0x3b
        invariant
            from <= i <= to <= s@.len(),
            semicolon(s@.take(to as int), i as int) == semicolon(s@.take(to as int), from as int),
        decreases to - i,
    {
        i += 1;
    }
    i
}

fn parse_numeral(s: &Vec<u8>, from: usize, to: usize) -> (res: Option<u16>)
    requires
        from <= to <= s@.len(),
    ensures
        res == numeral(s@.subrange(from as int, to as int)),
{
    let ghost text = s@.subrange(from as int, to as int);
    let start: usize = if from < to && s[from] == 0x2b {
        from + 1
    } else {
        from
    };
    let ghost digits = s@.subrange(start as int, to as int);
    assert(digits =~= (if text.len() > 0 && text[0] == 0x2b {
        text.skip(1)
    } else {
        text
    }));
    if start == to {
        return None;
    }
    let mut value: u32 = 0;
    let mut big = false;
    let mut i: usize = start;
    while i < to
        invariant
            start <= i <= to <= s@.len(),
            digits == s@.subrange(start as int, to as int),
            digits == (if text.len() > 0 && text[0] == 0x2b {
                text.skip(1)
            } else {
                text
            }),
            text == s@.subrange(from as int, to as int),
            forall|k: int| 0 <= k < i - start ==> 0x30 <= #[trigger] digits[k] <= 0x39,
            !big ==> value == digits_value(digits, i - start) && value <= 0xffff,
            big ==> digits_value(digits, i - start) > 0xffff,
        decreases to - i,
    {
        let b = s[i];
        assert(digits[i - start] == b);
        if b < 0x30 || b > 0x39 {
            return None;
        }
        if !big {
            value = value * 10 + (b - 0x30) as u32;
            if value > 0xffff {
                big = true;
            }
        }
        i += 1;
    }
    if big {
        None
    } else {
        Some(value as u16)
    }
}

/// Decode a report. Text that begins like one has something after that beginning,
/// and ends in a character of one byte, such as `M` or `m`.
pub fn parse_sgr_mouse(buf: &Vec<u8>) -> (res: Option<MouseEvent>)
    requires
        valid_utf8(buf@) && buf@.len() >= 3 && is_mouse_head(buf@.take(3)) ==> buf@.len() >= 4
            && buf@.last() < 0x80,
    ensures
        res == mouse_report(buf@),
{
    let n: usize = buf.len();
    let valid = core::str::from_utf8(buf.as_slice());
    if valid.is_err() {
        return None;
    }
    if n < 3 {
        return None;
    }
    if buf[0] != ESC || buf[1] != 0x5b || buf[2] != 0x3c {
        assert(buf@.take(3)[0] == buf@[0] && buf@.take(3)[1] == buf@[1] && buf@.take(3)[2] == buf@[2]);
        return None;
    }
    assert(is_mouse_head(buf@.take(3)));
    let end: usize = n - 1;
    let ghost body = buf@.subrange(3, end as int);
    let body_vec = tail_of(buf, 3, end);
    let m: usize = body_vec.len();
    assert(body_vec@.take(m as int) =~= body);
    let i = find_semicolon(&body_vec, 0, m);
    if i >= m {
        return None;
    }
    let j = find_semicolon(&body_vec, i + 1, m);
    if j >= m {
        return None;
    }
    let k = find_semicolon(&body_vec, j + 1, m);
    let button = parse_numeral(&body_vec, 0, i);
    let col = parse_numeral(&body_vec, i + 1, j);
    let row = parse_numeral(&body_vec, j + 1, k);
    match (button, col, row) {
        (Some(button), Some(col), Some(row)) => Some(
            MouseEvent {
                button,
                x: col.saturating_sub(1),
                y: row.saturating_sub(1),
                pressed: buf[n - 1] == 0x4d,
            },
        ),
        _ => None,
    }
}

fn tail_of(buf: &Vec<u8>, from: usize, to: usize) -> (out: Vec<u8>)
    requires
        from <= to <= buf@.len(),
    ensures
        out@ == buf@.subrange(from as int, to as int),
{
    let mut out: Vec<u8> = Vec::new();
    let mut i: usize = from;
    while i < to
        invariant
            from <= i <= to <= buf@.len(),
            out@ == buf@.subrange(from as int, i as int),
        decreases to - i,
    {
        out.push(buf[i]);
        i += 1;
        assert(out@ =~= buf@.subrange(from as int, i as int));
    }
    out
}

// ---- the router as a step function ----------------------------------------------

/// What one byte of input comes to.
#[verifier::ext_equal]
pub enum Token {
    /// A byte for the active terminal.
    Byte(u8),
    /// What was gathered so far goes out before what follows.
    Cut,
    /// Something for the multiplexer, after what was gathered so far.
    Act(ActionModel),
}

/// A [`Router`] as mathematics.
#[verifier::ext_equal]
pub struct RouterModel {
    pub armed: bool,
    pub pending: Seq<u8>,
}

pub open spec fn as_bytes(s: Seq<u8>) -> Seq<Token> {
    Seq::new(s.len(), |i: int| Token::Byte(s[i]))
}

/// What a key means right after the prefix. An unbound key is swallowed.
pub open spec fn chord(b: u8) -> Seq<Token> {
    if b == 0x63 {
        seq![Token::Act(ActionModel::NewPane)]
    } else if b == 0x78 {
        seq![Token::Act(ActionModel::ClosePane)]
    } else if b == 0x6e || b == 0x6f {
        seq![Token::Act(ActionModel::NextPane)]
    } else if b == 0x70 {
        seq![Token::Act(ActionModel::PrevPane)]
    } else if b == 0x71 {
        seq![Token::Act(ActionModel::Quit)]
    } else if b == 0x72 {
        seq![Token::Act(ActionModel::Redraw)]
    } else if b == 0x3e || b == 0x2e {
        seq![Token::Act(ActionModel::GrowSidebar)]
    } else if b == 0x3c || b == 0x2c {
        seq![Token::Act(ActionModel::ShrinkSidebar)]
    } else if 0x31 <= b <= 0x39 {
        seq![Token::Act(ActionModel::SelectPane(b - 0x31))]
    } else if b == PREFIX {
        seq![Token::Cut, Token::Byte(PREFIX)]
    } else {
        seq![Token::Cut]
    }
}

impl RouterModel {
    /// What is held back is the beginning of a mouse report, and not too long.
    pub open spec fn wf(self) -> bool {
        &&& self.pending.len() <= MAX_MOUSE_LEN
        &&& self.pending.len() <= 3 ==> is_mouse_head(self.pending)
        &&& self.pending.len() > 3 ==> is_mouse_head(self.pending.take(3))
    }

    /// A byte outside any escape sequence: a chord key, the prefix itself, or
    /// something for the shell.
    pub open spec fn plain(self, b: u8) -> (RouterModel, Seq<Token>) {
        if self.armed {
            (RouterModel { armed: false, ..self }, chord(b))
        } else if b == PREFIX {
            (RouterModel { armed: true, ..self }, Seq::empty())
        } else {
            (self, seq![Token::Byte(b)])
        }
    }

    /// What is held back, let go as ordinary input.
    pub open spec fn released(self) -> RouterModel {
        RouterModel { pending: Seq::empty(), ..self }
    }

    pub open spec fn holding(self, b: u8) -> RouterModel {
        RouterModel { pending: self.pending.push(b), ..self }
    }

    /// One byte. An escape is always held, even with the prefix armed: a mouse
    /// report between `Ctrl-B` and its command key must not eat the chord. What
    /// is held is let go the moment it stops looking like a mouse report.
    pub open spec fn step(self, b: u8) -> (RouterModel, Seq<Token>) {
        let n = self.pending.len();
        let held = self.pending.push(b);
        if n == 0 {
            if b == ESC {
                (self.holding(b), Seq::empty())
            } else {
                self.plain(b)
            }
        } else if (n == 1 && b == 0x5b) || (n == 2 && b == 0x3c) {
            (self.holding(b), Seq::empty())
        } else if n <= 2 {
            let (next, tokens) = self.released().plain(b);
            (next, as_bytes(self.pending) + tokens)
        } else if b == 0x4d || b == 0x6d {
            match mouse_report(held) {
                Some(m) => (self.released(), seq![Token::Act(ActionModel::Mouse(m))]),
                None => (self.released(), as_bytes(held)),
            }
        } else if n + 1 > MAX_MOUSE_LEN {
            (self.released(), as_bytes(held))
        } else {
            (self.holding(b), Seq::empty())
        }
    }

    /// The state after the first `n` of `bytes`.
    pub open spec fn after(self, bytes: Seq<u8>, n: int) -> RouterModel
        decreases n,
    {
        if n <= 0 {
            self
        } else {
            self.after(bytes, n - 1).step(bytes[n - 1]).0
        }
    }

    /// What the first `n` of `bytes` come to.
    pub open spec fn tokens(self, bytes: Seq<u8>, n: int) -> Seq<Token>
        decreases n,
    {
        if n <= 0 {
            Seq::empty()
        } else {
            self.tokens(bytes, n - 1) + self.after(bytes, n - 1).step(bytes[n - 1]).1
        }
    }
}

/// `forward` sent out, where there is anything to send.
pub open spec fn sent(actions: Seq<ActionModel>, forward: Seq<u8>) -> Seq<ActionModel> {
    if forward.len() > 0 {
        actions.push(ActionModel::Forward(forward))
    } else {
        actions
    }
}

/// The first `n` tokens put together: the actions so far, and the bytes that
/// are gathered for the next one.
pub open spec fn grouped(tokens: Seq<Token>, n: int) -> (Seq<ActionModel>, Seq<u8>)
    decreases n,
{
    if n <= 0 {
        (Seq::empty(), Seq::empty())
    } else {
        let (actions, forward) = grouped(tokens, n - 1);
        match tokens[n - 1] {
            Token::Byte(b) => (actions, forward.push(b)),
            Token::Cut => (sent(actions, forward), Seq::empty()),
            Token::Act(a) => (sent(actions, forward).push(a), Seq::empty()),
        }
    }
}

/// All the tokens of one read put together.
pub open spec fn actions_for(tokens: Seq<Token>) -> Seq<ActionModel> {
    let (actions, forward) = grouped(tokens, tokens.len() as int);
    sent(actions, forward)
}

// ---- the router -----------------------------------------------------------------

pub struct Router {
    prefix_armed: bool,
    /// A partial escape sequence, carried across reads: a read may end anywhere.
    pending: Vec<u8>,
}

impl View for Router {
    type V = RouterModel;

    closed spec fn view(&self) -> RouterModel {
        RouterModel { armed: self.prefix_armed, pending: self.pending@ }
    }
}

/// Actions, and the bytes gathered for the next one.
struct Sink {
    actions: Vec<Action>,
    forward: Vec<u8>,
    tokens: Ghost<Seq<Token>>,
}

proof fn lemma_grouped_prefix(a: Seq<Token>, b: Seq<Token>, n: int)
    requires
        0 <= n <= a.len(),
    ensures
        grouped(a + b, n) == grouped(a, n),
    decreases n,
{
    if n > 0 {
        lemma_grouped_prefix(a, b, n - 1);
        assert((a + b)[n - 1] == a[n - 1]);
    }
}

impl Sink {
    spec fn wf(self) -> bool {
        (meaning(self.actions@), self.forward@) == grouped(
            self.tokens@,
            self.tokens@.len() as int,
        )
    }

    fn byte(&mut self, b: u8)
        requires
            old(self).wf(),
        ensures
            final(self).wf(),
            final(self).tokens@ == old(self).tokens@ + seq![Token::Byte(b)],
    {
        self.forward.push(b);
        proof {
            lemma_grouped_prefix(
                self.tokens@,
                seq![Token::Byte(b)],
                self.tokens@.len() as int,
            );
        }
        self.tokens = Ghost(self.tokens@ + seq![Token::Byte(b)]);
    }

    fn bytes(&mut self, held: &Vec<u8>)
        requires
            old(self).wf(),
        ensures
            final(self).wf(),
            final(self).tokens@ == old(self).tokens@ + as_bytes(held@),
    {
        let mut i: usize = 0;
        assert(self.tokens@ + as_bytes(held@.take(0)) =~= self.tokens@);
        while i < held.len()
            invariant
                i <= held@.len(),
                self.wf(),
                self.tokens@ == old(self).tokens@ + as_bytes(held@.take(i as int)),
            decreases held@.len() - i,
        {
            self.byte(held[i]);
            i += 1;
            assert(self.tokens@ =~= old(self).tokens@ + as_bytes(held@.take(i as int)));
        }
        assert(held@.take(i as int) =~= held@);
    }

    /// Send out what is gathered.
    fn send(&mut self)
        ensures
            meaning(final(self).actions@) == sent(meaning(old(self).actions@), old(self).forward@),
            final(self).forward@ == Seq::<u8>::empty(),
            final(self).tokens == old(self).tokens,
    {
        if self.forward.len() > 0 {
            let mut gathered: Vec<u8> = Vec::new();
            std::mem::swap(&mut gathered, &mut self.forward);
            self.actions.push(Action::Forward(gathered));
            assert(meaning(self.actions@) =~= sent(
                meaning(old(self).actions@),
                old(self).forward@,
            ));
        } else {
            assert(self.forward@ =~= Seq::<u8>::empty());
        }
    }

    fn cut(&mut self)
        requires
            old(self).wf(),
        ensures
            final(self).wf(),
            final(self).tokens@ == old(self).tokens@ + seq![Token::Cut],
    {
        self.send();
        proof {
            lemma_grouped_prefix(self.tokens@, seq![Token::Cut], self.tokens@.len() as int);
        }
        self.tokens = Ghost(self.tokens@ + seq![Token::Cut]);
    }

    fn act(&mut self, a: Action)
        requires
            old(self).wf(),
        ensures
            final(self).wf(),
            final(self).tokens@ == old(self).tokens@ + seq![Token::Act(a@)],
    {
        self.send();
        let ghost before = meaning(self.actions@);
        self.actions.push(a);
        assert(meaning(self.actions@) =~= before.push(a@));
        proof {
            lemma_grouped_prefix(self.tokens@, seq![Token::Act(a@)], self.tokens@.len() as int);
        }
        self.tokens = Ghost(self.tokens@ + seq![Token::Act(a@)]);
    }
}

impl Router {
    /// Nothing armed, nothing held.
    pub fn new() -> (r: Self)
        ensures
            r@ == (RouterModel { armed: false, pending: Seq::empty() }),
            r@.wf(),
    {
        Router { prefix_armed: false, pending: Vec::new() }
    }

    /// Whether the prefix key was pressed and its command key is awaited.
    pub fn prefix_armed(&self) -> (armed: bool)
        ensures
            armed == self@.armed,
    {
        self.prefix_armed
    }

    /// Whether a partial sequence is held back.
    pub fn has_pending(&self) -> (held: bool)
        ensures
            held == (self@.pending.len() > 0),
    {
        self.pending.len() > 0
    }

    /// Release a partial sequence that is held back, as ordinary input. Called
    /// once no further input has come for a while: so a bare Escape reaches the
    /// shell rather than waiting for ever to become a mouse report.
    pub fn flush_pending(&mut self) -> (res: Option<Action>)
        ensures
            final(self)@ == old(self)@.released(),
            final(self)@.wf(),
            res is Some <==> old(self)@.pending.len() > 0,
            res matches Some(a) ==> a@ == ActionModel::Forward(old(self)@.pending),
    {
        if self.pending.len() == 0 {
            assert(self@ =~= old(self)@.released());
            return None;
        }
        let held = self.take_pending();
        Some(Action::Forward(held))
    }

    fn take_pending(&mut self) -> (held: Vec<u8>)
        ensures
            held@ == old(self)@.pending,
            final(self)@ == old(self)@.released(),
    {
        let mut held: Vec<u8> = Vec::new();
        std::mem::swap(&mut held, &mut self.pending);
        assert(self@ =~= old(self)@.released());
        held
    }

    /// Take in what was read, and say what is to be done.
    pub fn feed(&mut self, bytes: &[u8]) -> (actions: Vec<Action>)
        requires
            old(self)@.wf(),
        ensures
            final(self)@ == old(self)@.after(bytes@, bytes@.len() as int),
            final(self)@.wf(),
            meaning(actions@) == actions_for(old(self)@.tokens(bytes@, bytes@.len() as int)),
    {
        let mut sink = Sink { actions: Vec::new(), forward: Vec::new(), tokens: Ghost(Seq::empty()) };
        assert(meaning(sink.actions@) =~= Seq::empty());
        let mut i: usize = 0;
        while i < bytes.len()
            invariant
                i <= bytes@.len(),
                self@.wf(),
                self@ == old(self)@.after(bytes@, i as int),
                sink.wf(),
                sink.tokens@ == old(self)@.tokens(bytes@, i as int),
            decreases bytes@.len() - i,
        {
            self.step(bytes[i], &mut sink);
            i += 1;
        }
        sink.send();
        sink.actions
    }

    fn step(&mut self, b: u8, sink: &mut Sink)
        requires
            old(self)@.wf(),
            old(sink).wf(),
        ensures
            final(self)@ == old(self)@.step(b).0,
            final(self)@.wf(),
            final(sink).wf(),
            final(sink).tokens@ == old(sink).tokens@ + old(self)@.step(b).1,
    {
        if self.pending.len() > 0 {
            self.continue_pending(b, sink);
        } else if b == ESC {
            self.hold(b);
            assert(sink.tokens@ + Seq::<Token>::empty() =~= sink.tokens@);
        } else {
            self.plain(b, sink);
        }
    }

    fn hold(&mut self, b: u8)
        requires
            old(self)@.pending.len() < MAX_MOUSE_LEN,
        ensures
            final(self)@ == old(self)@.holding(b),
    {
        self.pending.push(b);
        assert(self@ =~= old(self)@.holding(b));
    }

    /// Advance a held sequence by one byte.
    fn continue_pending(&mut self, b: u8, sink: &mut Sink)
        requires
            old(self)@.wf(),
            old(self)@.pending.len() > 0,
            old(sink).wf(),
        ensures
            final(self)@ == old(self)@.step(b).0,
            final(self)@.wf(),
            final(sink).wf(),
            final(sink).tokens@ == old(sink).tokens@ + old(self)@.step(b).1,
    {
        let n: usize = self.pending.len();
        if (n == 1 && b == 0x5b) || (n == 2 && b == 0x3c) {
            self.hold(b);
            assert(sink.tokens@ + Seq::<Token>::empty() =~= sink.tokens@);
        } else if n <= 2 {
            let held = self.take_pending();
            sink.bytes(&held);
            self.plain(b, sink);
            assert(sink.tokens@ =~= old(sink).tokens@ + old(self)@.step(b).1);
        } else if b == 0x4d || b == 0x6d {
            let mut held = self.take_pending();
            held.push(b);
            match parse_sgr_mouse(&held) {
                Some(m) => sink.act(Action::Mouse(m)),
                None => sink.bytes(&held),
            }
        } else if n + 1 > MAX_MOUSE_LEN {
            let mut held = self.take_pending();
            held.push(b);
            sink.bytes(&held);
        } else {
            self.hold(b);
            assert(self@.pending.take(3) =~= old(self)@.pending.take(3));
            assert(old(self)@.pending.len() == 3 ==> old(self)@.pending.take(3)
                =~= old(self)@.pending);
            assert(sink.tokens@ + Seq::<Token>::empty() =~= sink.tokens@);
        }
    }

    /// A byte that is not part of an escape sequence.
    fn plain(&mut self, b: u8, sink: &mut Sink)
        requires
            old(self)@.wf(),
            old(sink).wf(),
        ensures
            final(self)@ == old(self)@.plain(b).0,
            final(self)@.wf(),
            final(sink).wf(),
            final(sink).tokens@ == old(sink).tokens@ + old(self)@.plain(b).1,
    {
        if self.prefix_armed {
            self.prefix_armed = false;
            assert(self@ =~= old(self)@.plain(b).0);
            if b == 0x63 {
                sink.act(Action::NewPane);
            } else if b == 0x78 {
                sink.act(Action::ClosePane);
            } else if b == 0x6e || b == 0x6f {
                sink.act(Action::NextPane);
            } else if b == 0x70 {
                sink.act(Action::PrevPane);
            } else if b == 0x71 {
                sink.act(Action::Quit);
            } else if b == 0x72 {
                sink.act(Action::Redraw);
            } else if b == 0x3e || b == 0x2e {
                sink.act(Action::GrowSidebar);
            } else if b == 0x3c || b == 0x2c {
                sink.act(Action::ShrinkSidebar);
            } else if 0x31 <= b && b <= 0x39 {
                sink.act(Action::SelectPane((b - 0x31) as usize));
            } else if b == PREFIX {
                sink.cut();
                sink.byte(PREFIX);
                assert(sink.tokens@ =~= old(sink).tokens@ + chord(b));
            } else {
                sink.cut();
            }
        } else if b == PREFIX {
            self.prefix_armed = true;
            assert(self@ =~= old(self)@.plain(b).0);
            assert(sink.tokens@ + Seq::<Token>::empty() =~= sink.tokens@);
        } else {
            sink.byte(b);
        }
    }
}

// ---- laws -----------------------------------------------------------------------

proof fn lemma_read_prefix(r: RouterModel, a: Seq<u8>, b: Seq<u8>, n: int)
    requires
        0 <= n <= a.len(),
    ensures
        r.after(a + b, n) == r.after(a, n),
        r.tokens(a + b, n) == r.tokens(a, n),
    decreases n,
{
    if n > 0 {
        lemma_read_prefix(r, a, b, n - 1);
        assert((a + b)[n - 1] == a[n - 1]);
    }
}

proof fn lemma_split_reads(r: RouterModel, a: Seq<u8>, b: Seq<u8>, n: int)
    requires
        0 <= n <= b.len(),
    ensures
        r.after(a + b, a.len() + n) == r.after(a, a.len() as int).after(b, n),
        r.tokens(a + b, a.len() + n) == r.tokens(a, a.len() as int) + r.after(
            a,
            a.len() as int,
        ).tokens(b, n),
    decreases n,
{
    if n == 0 {
        lemma_read_prefix(r, a, b, a.len() as int);
        assert(r.tokens(a, a.len() as int) + Seq::<Token>::empty() =~= r.tokens(
            a,
            a.len() as int,
        ));
    } else {
        lemma_split_reads(r, a, b, n - 1);
        assert((a + b)[a.len() + n - 1] == b[n - 1]);
        let s = r.after(a, a.len() as int);
        assert(r.tokens(a, a.len() as int) + (s.tokens(b, n - 1) + s.after(b, n - 1).step(
            b[n - 1],
        ).1) =~= (r.tokens(a, a.len() as int) + s.tokens(b, n - 1)) + s.after(b, n - 1).step(
            b[n - 1],
        ).1);
    }
}

/// Where a read ends makes no difference: two reads come to what one read of
/// both would have come to, and leave the same state.
pub proof fn law_reads_may_split_anywhere(r: RouterModel, a: Seq<u8>, b: Seq<u8>)
    ensures
        r.after(a + b, (a + b).len() as int) == r.after(a, a.len() as int).after(
            b,
            b.len() as int,
        ),
        r.tokens(a + b, (a + b).len() as int) == r.tokens(a, a.len() as int) + r.after(
            a,
            a.len() as int,
        ).tokens(b, b.len() as int),
{
    lemma_split_reads(r, a, b, b.len() as int);
}

/// The invariant is kept by every byte.
pub proof fn law_little_is_held(r: RouterModel, b: u8)
    requires
        r.wf(),
    ensures
        r.step(b).0.wf(),
{
    let n = r.pending.len();
    if n >= 3 {
        assert(r.pending.push(b).take(3) =~= r.pending.take(3));
        assert(n == 3 ==> r.pending.take(3) =~= r.pending);
    }
}

proof fn lemma_ordinary(r: RouterModel, bytes: Seq<u8>, n: int)
    requires
        !r.armed,
        r.pending.len() == 0,
        0 <= n <= bytes.len(),
        forall|i: int| 0 <= i < bytes.len() ==> #[trigger] bytes[i] != PREFIX && bytes[i] != ESC,
    ensures
        r.after(bytes, n) == r,
        r.tokens(bytes, n) == as_bytes(bytes.take(n)),
        grouped(r.tokens(bytes, n), n) == (Seq::<ActionModel>::empty(), bytes.take(n)),
    decreases n,
{
    if n > 0 {
        lemma_ordinary(r, bytes, n - 1);
        assert(bytes[n - 1] != PREFIX && bytes[n - 1] != ESC);
        assert(r.tokens(bytes, n) =~= as_bytes(bytes.take(n)));
        lemma_grouped_prefix(r.tokens(bytes, n - 1), seq![Token::Byte(bytes[n - 1])], n - 1);
        assert(bytes.take(n) =~= bytes.take(n - 1).push(bytes[n - 1]));
    } else {
        assert(r.tokens(bytes, 0) =~= as_bytes(bytes.take(0)));
        assert(bytes.take(0) =~= Seq::empty());
    }
}

/// Ordinary bytes pass straight through, in one piece.
pub proof fn law_ordinary_bytes_pass_through(r: RouterModel, bytes: Seq<u8>)
    requires
        !r.armed,
        r.pending.len() == 0,
        bytes.len() > 0,
        forall|i: int| 0 <= i < bytes.len() ==> #[trigger] bytes[i] != PREFIX && bytes[i] != ESC,
    ensures
        r.after(bytes, bytes.len() as int) == r,
        actions_for(r.tokens(bytes, bytes.len() as int)) == seq![ActionModel::Forward(bytes)],
{
    lemma_ordinary(r, bytes, bytes.len() as int);
    assert(bytes.take(bytes.len() as int) =~= bytes);
    assert(r.tokens(bytes, bytes.len() as int).len() == bytes.len());
    assert(actions_for(r.tokens(bytes, bytes.len() as int)) =~= seq![ActionModel::Forward(bytes)]);
}

/// What a stretch of input is.
pub enum Piece {
    /// A byte for the active terminal.
    Byte(u8),
    /// The prefix key.
    Prefix,
    /// The key after the prefix.
    Key(u8),
    /// A mouse report.
    Report(Seq<u8>),
}

impl Piece {
    /// The bytes of the piece as they came in.
    pub open spec fn raw(self) -> Seq<u8> {
        match self {
            Piece::Byte(b) => seq![b],
            Piece::Prefix => seq![PREFIX],
            Piece::Key(b) => seq![b],
            Piece::Report(bytes) => bytes,
        }
    }

    /// What the piece comes to.
    pub open spec fn meant(self) -> Seq<Token> {
        match self {
            Piece::Byte(b) => seq![Token::Byte(b)],
            Piece::Prefix => Seq::empty(),
            Piece::Key(b) => chord(b),
            Piece::Report(bytes) => seq![
                Token::Act(ActionModel::Mouse(mouse_report(bytes).unwrap())),
            ],
        }
    }
}

/// The bytes of the first `n` pieces as they came in.
pub open spec fn raw(pieces: Seq<Piece>, n: int) -> Seq<u8>
    decreases n,
{
    if n <= 0 {
        Seq::empty()
    } else {
        raw(pieces, n - 1) + pieces[n - 1].raw()
    }
}

/// What the first `n` pieces come to.
pub open spec fn meant(pieces: Seq<Piece>, n: int) -> Seq<Token>
    decreases n,
{
    if n <= 0 {
        Seq::empty()
    } else {
        meant(pieces, n - 1) + pieces[n - 1].meant()
    }
}

/// Every byte a piece of its own, for the active terminal.
pub open spec fn byte_pieces(s: Seq<u8>) -> Seq<Piece> {
    Seq::new(s.len(), |i: int| Piece::Byte(s[i]))
}

impl RouterModel {
    /// The piece that a byte outside any escape sequence is.
    pub open spec fn plain_piece(self, b: u8) -> Piece {
        if self.armed {
            Piece::Key(b)
        } else if b == PREFIX {
            Piece::Prefix
        } else {
            Piece::Byte(b)
        }
    }

    /// The pieces that one more byte completes.
    pub open spec fn completed(self, b: u8) -> Seq<Piece> {
        let held = self.pending.push(b);
        if self.step(b).0.pending.len() > 0 {
            Seq::empty()
        } else if self.pending.len() <= 2 {
            byte_pieces(self.pending).push(self.plain_piece(b))
        } else if (b == 0x4d || b == 0x6d) && mouse_report(held) is Some {
            seq![Piece::Report(held)]
        } else {
            byte_pieces(held)
        }
    }

    /// The pieces that the first `n` of `bytes` complete.
    pub open spec fn pieces(self, bytes: Seq<u8>, n: int) -> Seq<Piece>
        decreases n,
    {
        if n <= 0 {
            Seq::empty()
        } else {
            self.pieces(bytes, n - 1) + self.after(bytes, n - 1).completed(bytes[n - 1])
        }
    }
}

proof fn lemma_pieces_prefix(a: Seq<Piece>, b: Seq<Piece>, n: int)
    requires
        0 <= n <= a.len(),
    ensures
        raw(a + b, n) == raw(a, n),
        meant(a + b, n) == meant(a, n),
    decreases n,
{
    if n > 0 {
        lemma_pieces_prefix(a, b, n - 1);
        assert((a + b)[n - 1] == a[n - 1]);
    }
}

proof fn lemma_pieces_append(a: Seq<Piece>, b: Seq<Piece>, n: int)
    requires
        0 <= n <= b.len(),
    ensures
        raw(a + b, a.len() + n) == raw(a, a.len() as int) + raw(b, n),
        meant(a + b, a.len() + n) == meant(a, a.len() as int) + meant(b, n),
    decreases n,
{
    if n == 0 {
        lemma_pieces_prefix(a, b, a.len() as int);
        assert(raw(a, a.len() as int) + Seq::<u8>::empty() =~= raw(a, a.len() as int));
        assert(meant(a, a.len() as int) + Seq::<Token>::empty() =~= meant(a, a.len() as int));
    } else {
        lemma_pieces_append(a, b, n - 1);
        assert((a + b)[a.len() + n - 1] == b[n - 1]);
        assert(raw(a + b, a.len() + n) =~= raw(a, a.len() as int) + raw(b, n));
        assert(meant(a + b, a.len() + n) =~= meant(a, a.len() as int) + meant(b, n));
    }
}

proof fn lemma_byte_pieces(s: Seq<u8>, n: int)
    requires
        0 <= n <= s.len(),
    ensures
        raw(byte_pieces(s), n) == s.take(n),
        meant(byte_pieces(s), n) == as_bytes(s.take(n)),
    decreases n,
{
    if n > 0 {
        lemma_byte_pieces(s, n - 1);
        assert(byte_pieces(s)[n - 1] == Piece::Byte(s[n - 1]));
        assert(s.take(n) =~= s.take(n - 1) + seq![s[n - 1]]);
        assert(as_bytes(s.take(n)) =~= as_bytes(s.take(n - 1)) + seq![Token::Byte(s[n - 1])]);
    } else {
        assert(s.take(0) =~= Seq::empty());
        assert(as_bytes(s.take(0)) =~= Seq::empty());
    }
}

proof fn lemma_one_piece(p: Piece)
    ensures
        raw(seq![p], 1) == p.raw(),
        meant(seq![p], 1) == p.meant(),
{
    reveal_with_fuel(raw, 2);
    reveal_with_fuel(meant, 2);
    assert(Seq::<u8>::empty() + p.raw() =~= p.raw());
    assert(Seq::<Token>::empty() + p.meant() =~= p.meant());
}

proof fn lemma_byte_accounted(r: RouterModel, b: u8)
    ensures
        ({
            let done = r.completed(b);
            &&& raw(done, done.len() as int) + r.step(b).0.pending == r.pending.push(b)
            &&& meant(done, done.len() as int) == r.step(b).1
        }),
{
    let n = r.pending.len();
    let held = r.pending.push(b);
    let done = r.completed(b);
    let (next, tokens) = r.step(b);
    if next.pending.len() > 0 {
        assert(Seq::<u8>::empty() + held =~= held);
        assert(tokens =~= Seq::empty());
    } else if n <= 2 {
        let last = r.plain_piece(b);
        let one = seq![last];
        assert(done =~= byte_pieces(r.pending) + one);
        lemma_byte_pieces(r.pending, n as int);
        lemma_one_piece(last);
        lemma_pieces_append(byte_pieces(r.pending), one, 1);
        assert(r.pending.take(n as int) =~= r.pending);
        assert(last.raw() =~= seq![b]);
        assert(last.meant() =~= r.released().plain(b).1);
        assert((r.pending + seq![b]) + next.pending =~= held);
        assert(as_bytes(r.pending) + last.meant() =~= tokens);
    } else if (b == 0x4d || b == 0x6d) && mouse_report(held) is Some {
        lemma_one_piece(Piece::Report(held));
        assert(held + next.pending =~= held);
    } else {
        lemma_byte_pieces(held, held.len() as int);
        assert(held.take(held.len() as int) =~= held);
        assert(held + next.pending =~= held);
    }
}

/// Nothing is lost and nothing is made up, whatever was typed and wherever the
/// reads end. The input falls into pieces: bytes for the shell, the prefix and
/// the key after it, mouse reports. Those pieces and what is still held, one
/// after the other, are what came in, and each piece comes to what it means.
pub proof fn law_nothing_is_lost(r: RouterModel, bytes: Seq<u8>, n: int)
    requires
        0 <= n <= bytes.len(),
    ensures
        ({
            let pieces = r.pieces(bytes, n);
            &&& raw(pieces, pieces.len() as int) + r.after(bytes, n).pending == r.pending
                + bytes.take(n)
            &&& meant(pieces, pieces.len() as int) == r.tokens(bytes, n)
            &&& forall|i: int|
                0 <= i < pieces.len() ==> ((#[trigger] pieces[i]) matches Piece::Report(report)
                    ==> mouse_report(report) is Some)
        }),
    decreases n,
{
    if n > 0 {
        let mid = r.after(bytes, n - 1);
        let b = bytes[n - 1];
        let before = r.pieces(bytes, n - 1);
        let more = mid.completed(b);
        law_nothing_is_lost(r, bytes, n - 1);
        lemma_byte_accounted(mid, b);
        lemma_pieces_append(before, more, more.len() as int);
        let came = raw(before, before.len() as int);
        let comes = raw(more, more.len() as int);
        let end = r.after(bytes, n).pending;
        assert((came + comes) + end =~= came + (comes + end));
        assert(came + mid.pending.push(b) =~= (came + mid.pending).push(b));
        assert((r.pending + bytes.take(n - 1)).push(b) =~= r.pending + bytes.take(n));
    } else {
        assert(Seq::<u8>::empty() + r.pending =~= r.pending + bytes.take(0));
    }
}

proof fn lemma_report_held(r: RouterModel, rep: Seq<u8>, n: int)
    requires
        r.pending.len() == 0,
        4 <= rep.len() <= MAX_MOUSE_LEN + 1,
        is_mouse_head(rep.take(3)),
        forall|i: int| 3 <= i < rep.len() - 1 ==> #[trigger] rep[i] != 0x4d && rep[i] != 0x6d,
        0 <= n < rep.len(),
    ensures
        r.after(rep, n) == (RouterModel { armed: r.armed, pending: rep.take(n) }),
        r.tokens(rep, n) == Seq::<Token>::empty(),
    decreases n,
{
    assert(rep.take(3)[0] == rep[0] && rep.take(3)[1] == rep[1] && rep.take(3)[2] == rep[2]);
    if n > 0 {
        lemma_report_held(r, rep, n - 1);
        assert(rep.take(n) =~= rep.take(n - 1).push(rep[n - 1]));
        assert(r.tokens(rep, n) =~= Seq::<Token>::empty());
    } else {
        assert(rep.take(0) =~= r.pending);
    }
}

/// A mouse report comes out as a click and changes nothing else: a prefix that
/// was armed before it is still armed after it.
pub proof fn law_reports_leave_the_chord_alone(r: RouterModel, rep: Seq<u8>)
    requires
        r.pending.len() == 0,
        4 <= rep.len() <= MAX_MOUSE_LEN + 1,
        is_mouse_head(rep.take(3)),
        forall|i: int| 3 <= i < rep.len() - 1 ==> #[trigger] rep[i] != 0x4d && rep[i] != 0x6d,
        rep.last() == 0x4d || rep.last() == 0x6d,
        mouse_report(rep) is Some,
    ensures
        r.after(rep, rep.len() as int) == r,
        actions_for(r.tokens(rep, rep.len() as int)) == seq![
            ActionModel::Mouse(mouse_report(rep).unwrap()),
        ],
{
    let n = rep.len() as int;
    lemma_report_held(r, rep, n - 1);
    assert(rep.take(n - 1).push(rep[n - 1]) =~= rep);
    let act = Token::Act(ActionModel::Mouse(mouse_report(rep).unwrap()));
    assert(r.tokens(rep, n) =~= seq![act]);
    assert(r.after(rep, n) =~= r);
    assert(grouped(seq![act], 0) == (Seq::<ActionModel>::empty(), Seq::<u8>::empty()));
    assert(grouped(seq![act], 1).0 =~= seq![ActionModel::Mouse(mouse_report(rep).unwrap())]);
    assert(grouped(seq![act], 1).1 =~= Seq::<u8>::empty());
}

/// The prefix and a key come to what the key is bound to; nothing stays armed.
pub proof fn law_chords_are_intercepted(r: RouterModel, key: u8)
    requires
        !r.armed,
        r.pending.len() == 0,
        key != ESC,
    ensures
        r.after(seq![PREFIX, key], 2) == r,
        r.tokens(seq![PREFIX, key], 2) == chord(key),
{
    let keys = seq![PREFIX, key];
    assert(keys[0] == PREFIX && keys[1] == key);
    assert(r.after(keys, 0) == r);
    assert(r.after(keys, 1) == RouterModel { armed: true, ..r });
    assert(r.tokens(keys, 0) =~= Seq::<Token>::empty());
    assert(r.tokens(keys, 1) =~= Seq::<Token>::empty());
    assert(r.after(keys, 2) =~= r);
    assert(r.tokens(keys, 2) =~= chord(key));
}

/// The prefix twice sends one literal prefix.
pub proof fn law_doubled_prefix_is_literal(r: RouterModel)
    requires
        !r.armed,
        r.pending.len() == 0,
    ensures
        actions_for(r.tokens(seq![PREFIX, PREFIX], 2)) == seq![
            ActionModel::Forward(seq![PREFIX]),
        ],
{
    law_chords_are_intercepted(r, PREFIX);
    let t = chord(PREFIX);
    assert(t =~= seq![Token::Cut, Token::Byte(PREFIX)]);
    assert(grouped(t, 0) == (Seq::<ActionModel>::empty(), Seq::<u8>::empty()));
    assert(grouped(t, 1) == (Seq::<ActionModel>::empty(), Seq::<u8>::empty()));
    assert(grouped(t, 2).1 =~= seq![PREFIX]);
    assert(actions_for(t) =~= seq![ActionModel::Forward(seq![PREFIX])]);
}

/// Nothing is ever forwarded empty.
pub proof fn law_forwards_are_not_empty(tokens: Seq<Token>, n: int)
    requires
        0 <= n <= tokens.len(),
        forall|i: int|
            0 <= i < tokens.len() ==> !((#[trigger] tokens[i]) matches Token::Act(a)
                && a is Forward),
    ensures
        forall|i: int|
            0 <= i < grouped(tokens, n).0.len() ==> ((#[trigger] grouped(tokens, n).0[i])
                matches ActionModel::Forward(bytes) ==> bytes.len() > 0),
    decreases n,
{
    if n > 0 {
        law_forwards_are_not_empty(tokens, n - 1);
        let (actions, forward) = grouped(tokens, n - 1);
        assert(tokens[n - 1] matches Token::Act(a) ==> !(a is Forward));
    }
}

proof fn lemma_grouped_bytes(t: Seq<Token>, s: Seq<u8>, n: int)
    requires
        0 <= n <= s.len(),
    ensures
        grouped(t + as_bytes(s), t.len() + n) == (
            grouped(t, t.len() as int).0,
            grouped(t, t.len() as int).1 + s.take(n),
        ),
    decreases n,
{
    let all = t + as_bytes(s);
    let gathered = grouped(t, t.len() as int).1;
    if n == 0 {
        lemma_grouped_prefix(t, as_bytes(s), t.len() as int);
        assert(gathered + s.take(0) =~= gathered);
    } else {
        lemma_grouped_bytes(t, s, n - 1);
        assert(all[t.len() + n - 1] == Token::Byte(s[n - 1]));
        assert((gathered + s.take(n - 1)).push(s[n - 1]) =~= gathered + s.take(n));
    }
}

/// A chord in the middle of what is typed: what stands before it is sent first,
/// in one piece, and what comes after it is sent after it.
#[verifier::rlimit(40)]
pub proof fn law_chords_keep_their_place(
    r: RouterModel,
    before: Seq<u8>,
    key: u8,
    act: ActionModel,
    behind: Seq<u8>,
)
    requires
        !r.armed,
        r.pending.len() == 0,
        key != 0x1b,
        before.len() > 0,
        behind.len() > 0,
        forall|i: int| 0 <= i < before.len() ==> #[trigger] before[i] != 0x02 && before[i] != 0x1b,
        forall|i: int| 0 <= i < behind.len() ==> #[trigger] behind[i] != 0x02 && behind[i] != 0x1b,
        r.tokens(seq![0x02, key], 2) == seq![Token::Act(act)],
    ensures
        ({
            let bytes = before + seq![0x02, key] + behind;
            actions_for(r.tokens(bytes, bytes.len() as int)) == seq![
                ActionModel::Forward(before),
                act,
                ActionModel::Forward(behind),
            ]
        }),
{
    let pair = seq![0x02u8, key];
    let front = before + pair;
    law_reads_may_split_anywhere(r, before, pair);
    law_reads_may_split_anywhere(r, front, behind);
    lemma_ordinary(r, before, before.len() as int);
    lemma_ordinary(r, behind, behind.len() as int);
    law_chords_are_intercepted(r, key);
    assert(before.take(before.len() as int) =~= before);
    assert(behind.take(behind.len() as int) =~= behind);
    let none = Seq::<Token>::empty();
    let one = as_bytes(before);
    let two = one + seq![Token::Act(act)];
    let all = two + as_bytes(behind);
    assert(none + one =~= one);
    lemma_grouped_bytes(none, before, before.len() as int);
    assert(Seq::<u8>::empty() + before =~= before);
    lemma_grouped_prefix(one, seq![Token::Act(act)], one.len() as int);
    assert(two[one.len() as int] == Token::Act(act));
    assert(grouped(two, two.len() as int) == (
        seq![ActionModel::Forward(before), act],
        Seq::<u8>::empty(),
    )) by {
        assert(sent(Seq::<ActionModel>::empty(), before).push(act) =~= seq![
            ActionModel::Forward(before),
            act,
        ]);
    }
    lemma_grouped_bytes(two, behind, behind.len() as int);
    assert(Seq::<u8>::empty() + behind =~= behind);
    let bytes = front + behind;
    assert(r.tokens(bytes, bytes.len() as int) =~= all);
    assert(seq![ActionModel::Forward(before), act].push(ActionModel::Forward(behind)) =~= seq![
        ActionModel::Forward(before),
        act,
        ActionModel::Forward(behind),
    ]);
}

/// What each key does after `Ctrl-B`: `c` opens a terminal and `x` closes one, `n`
/// and `o` go to the next and `p` to the one before, a digit to the one of that
/// number, `>` and `<` change the rail, `r` paints anew, `q` leaves. `Ctrl-B`
/// sends one `Ctrl-B` on, and any other key does nothing.
pub proof fn law_keys_do_what_they_are_bound_to(r: RouterModel, key: u8)
    requires
        !r.armed,
        r.pending.len() == 0,
        key != 0x1b,
    ensures
        ({
            let done = actions_for(r.tokens(seq![0x02, key], 2));
            &&& key == 0x63 ==> done == seq![ActionModel::NewPane]
            &&& key == 0x78 ==> done == seq![ActionModel::ClosePane]
            &&& key == 0x6e || key == 0x6f ==> done == seq![ActionModel::NextPane]
            &&& key == 0x70 ==> done == seq![ActionModel::PrevPane]
            &&& 0x31 <= key <= 0x39 ==> done == seq![ActionModel::SelectPane(key as int - 0x31)]
            &&& key == 0x3e || key == 0x2e ==> done == seq![ActionModel::GrowSidebar]
            &&& key == 0x3c || key == 0x2c ==> done == seq![ActionModel::ShrinkSidebar]
            &&& key == 0x72 ==> done == seq![ActionModel::Redraw]
            &&& key == 0x71 ==> done == seq![ActionModel::Quit]
            &&& key == 0x02 ==> done == seq![ActionModel::Forward(seq![0x02u8])]
            &&& done.len() == 0 <==> !(0x31 <= key <= 0x39 || key == 0x63 || key == 0x78 || key
                == 0x6e || key == 0x6f || key == 0x70 || key == 0x3e || key == 0x2e || key == 0x3c
                || key == 0x2c || key == 0x72 || key == 0x71 || key == 0x02)
        }),
{
    law_chords_are_intercepted(r, key);
    law_doubled_prefix_is_literal(r);
    let t = chord(key);
    reveal_with_fuel(grouped, 3);
    if key != 0x02 {
        assert(t.len() == 1);
        assert(actions_for(t) =~= match t[0] {
            Token::Act(a) => seq![a],
            _ => Seq::empty(),
        });
    }
}

/// The escape sequence of a key, which is no mouse report, is for the shell, and
/// gets there in one piece.
pub proof fn law_escape_sequences_pass_through(r: RouterModel, b: u8)
    requires
        !r.armed,
        r.pending.len() == 0,
        b != 0x3c,
        b != 0x02,
    ensures
        actions_for(r.tokens(seq![0x1b, 0x5b, b], 3)) == seq![
            ActionModel::Forward(seq![0x1bu8, 0x5bu8, b]),
        ],
        r.after(seq![0x1b, 0x5b, b], 3) == r,
{
    let keys = seq![0x1bu8, 0x5bu8, b];
    reveal_with_fuel(RouterModel::after, 4);
    reveal_with_fuel(RouterModel::tokens, 4);
    let r1 = r.after(keys, 1);
    assert(r1.pending =~= seq![0x1bu8]);
    let r2 = r.after(keys, 2);
    assert(r2.pending =~= seq![0x1bu8, 0x5bu8]);
    assert(r.after(keys, 3).pending =~= r.pending);
    let t = r.tokens(keys, 3);
    assert(t =~= as_bytes(keys));
    let none = Seq::<Token>::empty();
    assert(none + t =~= t);
    lemma_grouped_bytes(none, keys, 3);
    assert(Seq::<u8>::empty() + keys.take(3) =~= keys);
    assert(actions_for(t) =~= seq![ActionModel::Forward(keys)]);
}

/// The report of a mouse button at a column and a row, both counted from one.
pub open spec fn report_text(button: u16, col: u16, row: u16, pressed: bool) -> Seq<char> {
    seq!['\x1b', '[', '<'] + decimal(button as nat) + seq![';'] + decimal(col as nat) + seq![';']
        + decimal(row as nat) + seq![
        if pressed {
            'M'
        } else {
            'm'
        },
    ]
}

proof fn lemma_semicolon(s: Seq<u8>, from: int, at: int)
    requires
        0 <= from <= at <= s.len(),
        forall|k: int| from <= k < at ==> #[trigger] s[k] != 0x3b,
        at < s.len() ==> s[at] == 0x3b,
    ensures
        semicolon(s, from) == at,
    decreases at - from,
{
    if from < at {
        lemma_semicolon(s, from + 1, at);
    }
}

proof fn lemma_digits_value(s: Seq<u8>, t: Seq<char>, n: int)
    requires
        0 <= n <= s.len() == t.len(),
        forall|i: int| 0 <= i < t.len() ==> '0' <= #[trigger] t[i] <= '9',
        forall|i: int| 0 <= i < t.len() ==> #[trigger] s[i] == t[i] as u8,
    ensures
        digits_value(s, n) == value_of(t.take(n)),
    decreases n,
{
    if n > 0 {
        lemma_digits_value(s, t, n - 1);
        assert(t.take(n).drop_last() =~= t.take(n - 1));
        assert('0' <= t[n - 1] <= '9');
        assert(s[n - 1] == t[n - 1] as u8);
    }
}

proof fn lemma_numeral(s: Seq<u8>, n: u16)
    requires
        s.len() == decimal(n as nat).len(),
        forall|i: int| 0 <= i < s.len() ==> #[trigger] s[i] == decimal(n as nat)[i] as u8,
    ensures
        numeral(s) == Some(n),
{
    let t = decimal(n as nat);
    law_numerals_read_back(n as nat);
    lemma_digits_value(s, t, t.len() as int);
    assert(t.take(t.len() as int) =~= t);
    assert forall|i: int| 0 <= i < s.len() implies 0x30 <= #[trigger] s[i] <= 0x39 by {
        assert('0' <= t[i] <= '9');
    }
    assert(s[0] != 0x2b);
}

/// Where the parts of a report stand, and that its bytes are its characters.
#[verifier::rlimit(40)]
proof fn lemma_report_laid_out(button: u16, col: u16, row: u16, pressed: bool)
    ensures
        ({
            let t = report_text(button, col, row, pressed);
            let b = encode_utf8(t);
            let p1 = 4 + decimal(button as nat).len() as int;
            let p2 = p1 + decimal(col as nat).len() + 1;
            let last = p2 + decimal(row as nat).len();
            &&& valid_utf8(b)
            &&& b.len() == t.len() == last + 1
            &&& forall|i: int| 0 <= i < t.len() ==> #[trigger] b[i] == t[i] as u8
            &&& t[0] == '\x1b' && t[1] == '[' && t[2] == '<' && t[p1 - 1] == ';' && t[p2 - 1] == ';'
            &&& t[last] == (if pressed {
                'M'
            } else {
                'm'
            })
            &&& forall|i: int|
                3 <= i < last && i != p1 - 1 && i != p2 - 1 ==> '0' <= #[trigger] t[i] <= '9'
            &&& t.subrange(3, p1 - 1) == decimal(button as nat)
            &&& t.subrange(p1, p2 - 1) == decimal(col as nat)
            &&& t.subrange(p2, last) == decimal(row as nat)
        }),
{
    let t = report_text(button, col, row, pressed);
    let d0 = decimal(button as nat);
    let d1 = decimal(col as nat);
    let d2 = decimal(row as nat);
    law_numerals_read_back(button as nat);
    law_numerals_read_back(col as nat);
    law_numerals_read_back(row as nat);
    let p1 = 4 + d0.len() as int;
    let p2 = p1 + d1.len() + 1;
    let last = p2 + d2.len();
    assert(t.subrange(3, p1 - 1) =~= d0);
    assert(t.subrange(p1, p2 - 1) =~= d1);
    assert(t.subrange(p2, last) =~= d2);
    assert forall|i: int| 3 <= i < last && i != p1 - 1 && i != p2 - 1 implies '0'
        <= #[trigger] t[i] <= '9' by {
        if i < p1 - 1 {
            assert(t[i] == d0[i - 3]);
        } else if i < p2 - 1 {
            assert(t[i] == d1[i - p1]);
        } else {
            assert(t[i] == d2[i - p2]);
        }
    }
    assert forall|i: int| 0 <= i < t.len() implies '\0' <= #[trigger] t[i] <= '\u{7f}' by {
        if 3 <= i < last && i != p1 - 1 && i != p2 - 1 {
            assert('0' <= t[i] <= '9');
        }
    }
    assert(is_ascii_chars(t));
    is_ascii_chars_encode_utf8(t);
    encode_utf8_valid_utf8(t);
}

#[verifier::rlimit(40)]
proof fn lemma_report_is_read(button: u16, col: u16, row: u16, pressed: bool)
    ensures
        mouse_report(encode_utf8(report_text(button, col, row, pressed))) == Some(
            MouseEvent { button, x: less_one(col), y: less_one(row), pressed },
        ),
{
    let t = report_text(button, col, row, pressed);
    let b = encode_utf8(t);
    lemma_report_laid_out(button, col, row, pressed);
    let p1 = 4 + decimal(button as nat).len() as int;
    let p2 = p1 + decimal(col as nat).len() + 1;
    let body = b.subrange(3, b.len() - 1);
    let i = p1 - 4;
    let j = p2 - 4;
    let n = body.len() as int;
    assert forall|k: int| 0 <= k < n implies #[trigger] body[k] == t[k + 3] as u8 by {
        assert(body[k] == b[k + 3]);
    }
    assert forall|k: int| 0 <= k < n && k != i && k != j implies #[trigger] body[k] != 0x3b by {
        assert('0' <= t[k + 3] <= '9');
    }
    lemma_semicolon(body, 0, i);
    lemma_semicolon(body, i + 1, j);
    lemma_semicolon(body, j + 1, n);
    assert forall|k: int| 0 <= k < i implies #[trigger] body.subrange(0, i)[k] == decimal(
        button as nat,
    )[k] as u8 by {
        assert(t.subrange(3, p1 - 1)[k] == t[k + 3]);
    }
    lemma_numeral(body.subrange(0, i), button);
    assert forall|k: int| 0 <= k < j - i - 1 implies #[trigger] body.subrange(i + 1, j)[k]
        == decimal(col as nat)[k] as u8 by {
        assert(t.subrange(p1, p2 - 1)[k] == t[k + p1]);
        assert(body[i + 1 + k] == t[i + 1 + k + 3] as u8);
    }
    lemma_numeral(body.subrange(i + 1, j), col);
    assert forall|k: int| 0 <= k < n - j - 1 implies #[trigger] body.subrange(j + 1, n)[k]
        == decimal(row as nat)[k] as u8 by {
        assert(t.subrange(p2, t.len() - 1)[k] == t[k + p2]);
        assert(body[j + 1 + k] == t[j + 1 + k + 3] as u8);
    }
    lemma_numeral(body.subrange(j + 1, n), row);
    assert(b[0] == t[0] as u8 && b[1] == t[1] as u8 && b[2] == t[2] as u8);
    assert(b.last() == t[t.len() - 1] as u8);
    assert(is_mouse_head(b.take(3)));
}

/// A report is read for what it says: which button, where, counted from nought,
/// and whether it went down or up. It comes out as that, whatever the state.
pub proof fn law_reports_are_read_back(
    r: RouterModel,
    button: u16,
    col: u16,
    row: u16,
    pressed: bool,
)
    requires
        r.pending.len() == 0,
    ensures
        ({
            let report = encode_utf8(report_text(button, col, row, pressed));
            let at = MouseEvent {
                button,
                x: (if col == 0 {
                    0
                } else {
                    col - 1
                }) as u16,
                y: (if row == 0 {
                    0
                } else {
                    row - 1
                }) as u16,
                pressed,
            };
            &&& mouse_report(report) == Some(at)
            &&& r.after(report, report.len() as int) == r
            &&& actions_for(r.tokens(report, report.len() as int)) == seq![ActionModel::Mouse(at)]
        }),
{
    let t = report_text(button, col, row, pressed);
    let b = encode_utf8(t);
    lemma_report_laid_out(button, col, row, pressed);
    lemma_report_is_read(button, col, row, pressed);
    lemma_short_numeral(button);
    lemma_short_numeral(col);
    lemma_short_numeral(row);
    assert forall|k: int| 3 <= k < b.len() - 1 implies #[trigger] b[k] != 0x4d && b[k] != 0x6d by {
        assert(b[k] == t[k] as u8);
        assert(t[k] == ';' || '0' <= t[k] <= '9');
    }
    assert(b[0] == t[0] as u8 && b[1] == t[1] as u8 && b[2] == t[2] as u8);
    assert(b.last() == t[t.len() - 1] as u8);
    law_reports_leave_the_chord_alone(r, b);
}

proof fn lemma_short_numeral(n: u16)
    ensures
        decimal(n as nat).len() <= 5,
{
    reveal_with_fuel(decimal, 6);
}

/// What looks like a report is held until it ends; once it has grown longer than
/// any report is, all of it is handed back for the shell, and nothing is held.
pub proof fn law_overlong_reports_are_handed_back(r: RouterModel, b: u8)
    requires
        r.pending.len() >= 3,
        b != 0x4d,
        b != 0x6d,
    ensures
        r.pending.len() < 32 ==> r.step(b).0.pending == r.pending.push(b) && r.step(b).1.len() == 0,
        r.pending.len() >= 32 ==> r.step(b).0.pending.len() == 0 && r.step(b).1.len()
            == r.pending.len() + 1 && forall|i: int|
            0 <= i <= r.pending.len() ==> (#[trigger] r.step(b).1[i]) == Token::Byte(
                r.pending.push(b)[i],
            ),
        r.step(b).0.armed == r.armed,
{
}

/// The model of an action shows all that is to be done.
pub proof fn law_an_action_shows_all(a: Action)
    ensures
        a matches Action::Forward(bytes) ==> a@ == ActionModel::Forward(bytes@),
        a matches Action::SelectPane(i) ==> a@ == ActionModel::SelectPane(i as int),
        a matches Action::Mouse(m) ==> a@ == ActionModel::Mouse(m),
        a is NewPane <==> a@ is NewPane,
        a is ClosePane <==> a@ is ClosePane,
        a is NextPane <==> a@ is NextPane,
        a is PrevPane <==> a@ is PrevPane,
        a is GrowSidebar <==> a@ is GrowSidebar,
        a is ShrinkSidebar <==> a@ is ShrinkSidebar,
        a is Redraw <==> a@ is Redraw,
        a is Quit <==> a@ is Quit,
{
}

/// Nothing else is read as a report: it begins as one, is text, and names at least
/// a button, a column and a row.
pub proof fn law_only_reports_are_read(buf: Seq<u8>)
    ensures
        mouse_report(buf) is Some ==> {
            &&& buf.len() >= 4
            &&& buf[0] == 0x1b && buf[1] == 0x5b && buf[2] == 0x3c
            &&& valid_utf8(buf)
            &&& exists|i: int, j: int|
                3 <= i < j < buf.len() - 1 && #[trigger] buf[i] == 0x3b && #[trigger] buf[j] == 0x3b
        },
{
    if mouse_report(buf) is Some {
        let body = buf.subrange(3, buf.len() - 1);
        let i = semicolon(body, 0);
        let j = semicolon(body, i + 1);
        lemma_semicolon_stands(body, 0);
        lemma_semicolon_stands(body, i + 1);
        assert(body[i] == buf[i + 3] && body[j] == buf[j + 3]);
        assert(buf.take(3)[0] == buf[0] && buf.take(3)[1] == buf[1] && buf.take(3)[2] == buf[2]);
    }
}

proof fn lemma_semicolon_stands(s: Seq<u8>, from: int)
    requires
        0 <= from,
    ensures
        semicolon(s, from) < s.len() ==> from <= semicolon(s, from) && s[semicolon(s, from)] == 0x3b,
    decreases s.len() - from,
{
    if from < s.len() && s[from] != 0x3b {
        lemma_semicolon_stands(s, from + 1);
    }
}

} // verus!
