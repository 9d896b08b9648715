//! Command boundary detection from OSC 133 shell-integration markers.
//!
//! The shell integration scripts make the shell print
//!
//! ```text
//!   ESC ] 133 ; A BEL     prompt start
//!   ESC ] 133 ; B BEL     prompt end (user input begins)
//!   ESC ] 133 ; C BEL     command output starts (user pressed Enter)
//!   ESC ] 133 ; D ; N BEL command finished, exit code N
//! ```
//!
//! where BEL (0x07) may also be the string terminator ST (`ESC \`).
//! [`BoundaryParser`] finds these markers in a byte stream that may arrive in
//! chunks of any size.
use vstd::prelude::*;
use vstd::utf8::{decode_utf8, valid_utf8};

use crate::paths::{join_path, joined_with, portable_dir};
use crate::text::{
    chars_of, clean_chars, clean_text, join_from, join_lines, lines, lines_view, parse_i32, parsed_i32,
    split_lines, string_from_chars, trim_chars, trimmed, lemma_trimmed_idempotent,
};

pub use crate::shell::ShellIntegration;

verus! {

/// Events emitted by the boundary detector.
#[derive(Debug, Clone, Copy, PartialEq, Eq, Structural)]
pub enum BoundaryEvent {
    /// `A`: the prompt starts.
    PromptStart,
    /// `B`: the prompt ends; the user can type.
    PromptEnd,
    /// `C`: the user pressed Enter; command output follows.
    CommandStart,
    /// `D;N`: the command finished with exit code `N`.
    CommandDone { exit_code: i32 },
}

/// Where the parser stands inside an escape sequence.
#[derive(Debug, Clone, Copy, PartialEq, Eq, Structural)]
pub enum ParserState {
    /// Outside any escape sequence.
    Normal,
    /// Saw `ESC`.
    Esc,
    /// Saw `ESC ]`; checking for `133;`.
    OscStart,
    /// Saw `ESC ] 133 ;`; collecting the payload until BEL or ST.
    Osc133Semi,
    /// Saw `ESC` inside the payload; expecting `\` to complete ST.
    OscPayload,
}

/// Streaming parser for OSC 133 sequences.
pub struct BoundaryParser {
    state: ParserState,
    /// The payload after `133;`.
    buf: Vec<u8>,
    /// The bytes after `ESC ]`, checked against `133;`.
    osc_accum: Vec<u8>,
}

/// The abstract state of a [`BoundaryParser`].
pub struct ParserView {
    pub state: ParserState,
    pub buf: Seq<u8>,
    pub osc_accum: Seq<u8>,
}

impl View for BoundaryParser {
    type V = ParserView;

    closed spec fn view(&self) -> ParserView {
        ParserView { state: self.state, buf: self.buf@, osc_accum: self.osc_accum@ }
    }
}

pub const ESC: u8 = 0x1B;

pub const BEL: u8 = 0x07;

/// The bytes `133;` that follow `ESC ]` in an OSC 133 marker.
pub open spec fn osc_prefix() -> Seq<u8> {
    seq![0x31u8, 0x33u8, 0x33u8, 0x3Bu8]
}

/// The parser as [`BoundaryParser::new`] makes it.
pub open spec fn initial_parser() -> ParserView {
    ParserView { state: ParserState::Normal, buf: seq![], osc_accum: seq![] }
}

/// The exit code written after `D;`: the bytes read as UTF-8, trimmed and
/// parsed as an `i32`; 0 where any of these fails.
pub open spec fn exit_code_of(bytes: Seq<u8>) -> i32 {
    if valid_utf8(bytes) {
        match parsed_i32(trimmed(decode_utf8(bytes))) {
            Some(v) => v,
            None => 0,
        }
    } else {
        0
    }
}

/// The event that a completed marker with payload `buf` stands for.
pub open spec fn payload_event(buf: Seq<u8>) -> Option<BoundaryEvent> {
    if buf.len() == 0 {
        None
    } else if buf[0] == 0x41 {
        Some(BoundaryEvent::PromptStart)
    } else if buf[0] == 0x42 {
        Some(BoundaryEvent::PromptEnd)
    } else if buf[0] == 0x43 {
        Some(BoundaryEvent::CommandStart)
    } else if buf[0] == 0x44 {
        let code = if buf.len() > 2 && buf[1] == 0x3B {
            exit_code_of(buf.subrange(2, buf.len() as int))
        } else {
            0
        };
        Some(BoundaryEvent::CommandDone { exit_code: code })
    } else {
        None
    }
}

/// The parser after one byte, and the event that byte completes, if any.
pub open spec fn parser_step(p: ParserView, b: u8) -> (ParserView, Option<BoundaryEvent>) {
    match p.state {
        ParserState::Normal => {
            if b == ESC {
                (ParserView { state: ParserState::Esc, ..p }, None)
            } else {
                (p, None)
            }
        },
        ParserState::Esc => {
            if b == 0x5D {
                (ParserView { state: ParserState::OscStart, osc_accum: seq![], ..p }, None)
            } else {
                (ParserView { state: ParserState::Normal, ..p }, None)
            }
        },
        ParserState::OscStart => {
            let acc = p.osc_accum.push(b);
            if acc.len() <= 4 && acc == osc_prefix().take(acc.len() as int) {
                if acc.len() == 4 {
                    (ParserView { state: ParserState::Osc133Semi, buf: seq![], osc_accum: acc }, None)
                } else {
                    (ParserView { osc_accum: acc, ..p }, None)
                }
            } else {
                (ParserView { state: ParserState::Normal, osc_accum: seq![], ..p }, None)
            }
        },
        ParserState::Osc133Semi => {
            if b == BEL {
                (ParserView { state: ParserState::Normal, ..p }, payload_event(p.buf))
            } else if b == ESC {
                (ParserView { state: ParserState::OscPayload, ..p }, None)
            } else {
                (ParserView { buf: p.buf.push(b), ..p }, None)
            }
        },
        ParserState::OscPayload => {
            if b == 0x5C {
                (ParserView { state: ParserState::Normal, ..p }, payload_event(p.buf))
            } else {
                (ParserView { state: ParserState::Normal, ..p }, None)
            }
        },
    }
}

/// An optional event as a sequence of zero or one events.
pub open spec fn opt_seq(e: Option<BoundaryEvent>) -> Seq<BoundaryEvent> {
    match e {
        Some(ev) => seq![ev],
        None => seq![],
    }
}

/// The parser after `data`, and the events found in it, in order.
pub open spec fn parser_run(p: ParserView, data: Seq<u8>) -> (ParserView, Seq<BoundaryEvent>)
    decreases data.len(),
{
    if data.len() == 0 {
        (p, seq![])
    } else {
        let (q, evs) = parser_run(p, data.drop_last());
        let (r, e) = parser_step(q, data.last());
        (r, evs + opt_seq(e))
    }
}

/// UTF-8 decoding (`std::str::from_utf8`): succeeds exactly on valid UTF-8,
/// and then yields the characters the bytes encode.
#[verifier::external_body]
fn str_from_utf8(bytes: &[u8]) -> (r: Option<&str>)
    ensures
        r is Some <==> valid_utf8(bytes@),
        r matches Some(s) ==> s@ == decode_utf8(bytes@),
{
    std::str::from_utf8(bytes).ok()
}

/// The exit code written after `D;`.
fn exit_code_from(bytes: &[u8]) -> (r: i32)
    ensures
        r == exit_code_of(bytes@),
{
    match str_from_utf8(bytes) {
        Some(s) => {
            let cs = chars_of(s);
            let t = trim_chars(cs.as_slice());
            match parse_i32(t.as_slice()) {
                Some(v) => v,
                None => 0,
            }
        },
        None => 0,
    }
}

/// Whether `acc` (at most four bytes) is a prefix of `133;`.
fn is_osc_prefix(acc: &Vec<u8>) -> (r: bool)
    requires
        acc@.len() <= 4,
    ensures
        r == (acc@ == osc_prefix().take(acc@.len() as int)),
{
    let prefix: [u8; 4] = [0x31, 0x33, 0x33, 0x3B];
    let mut i: usize = 0;
    while i < acc.len()
        invariant
            acc@.len() <= 4,
            i <= acc@.len(),
            prefix@ == osc_prefix(),
            forall|j: int| 0 <= j < i ==> acc@[j] == osc_prefix()[j],
        decreases acc@.len() - i,
    {
        if acc[i] != prefix[i] {
            assert(acc@[i as int] != osc_prefix().take(acc@.len() as int)[i as int]);
            return false;
        }
        i += 1;
    }
    assert(acc@ =~= osc_prefix().take(acc@.len() as int));
    true
}

impl BoundaryParser {
    /// A parser outside any escape sequence.
    pub fn new() -> (p: Self)
        ensures
            p@ == initial_parser(),
    {
        BoundaryParser { state: ParserState::Normal, buf: Vec::new(), osc_accum: Vec::new() }
    }

    /// The event of the marker whose payload has been collected.
    fn parse_payload(&self) -> (r: Option<BoundaryEvent>)
        ensures
            r == payload_event(self@.buf),
    {
        if self.buf.len() == 0 {
            return None;
        }
        let first = self.buf[0];
        if first == 0x41 {
            Some(BoundaryEvent::PromptStart)
        } else if first == 0x42 {
            Some(BoundaryEvent::PromptEnd)
        } else if first == 0x43 {
            Some(BoundaryEvent::CommandStart)
        } else if first == 0x44 {
            let exit_code = if self.buf.len() > 2 && self.buf[1] == 0x3B {
                let mut rest: Vec<u8> = Vec::new();
                let mut i: usize = 2;
                while i < self.buf.len()
                    invariant
                        2 <= i <= self.buf@.len(),
                        rest@ == self.buf@.subrange(2, i as int),
                    decreases self.buf@.len() - i,
                {
                    rest.push(self.buf[i]);
                    i += 1;
                    assert(rest@ =~= self.buf@.subrange(2, i as int));
                }
                exit_code_from(rest.as_slice())
            } else {
                0
            };
            Some(BoundaryEvent::CommandDone { exit_code })
        } else {
            None
        }
    }

    /// Takes one byte; returns the event it completes, if any.
    fn feed_byte(&mut self, b: u8) -> (r: Option<BoundaryEvent>)
        ensures
            (final(self)@, r) == parser_step(old(self)@, b),
    {
        match self.state {
            ParserState::Normal => {
                if b == ESC {
                    self.state = ParserState::Esc;
                }
                None
            },
            ParserState::Esc => {
                if b == 0x5D {
                    self.state = ParserState::OscStart;
                    self.osc_accum.clear();
                } else {
                    self.state = ParserState::Normal;
                }
                None
            },
            ParserState::OscStart => {
                self.osc_accum.push(b);
                let len = self.osc_accum.len();
                if len <= 4 && is_osc_prefix(&self.osc_accum) {
                    if len == 4 {
                        self.state = ParserState::Osc133Semi;
                        self.buf.clear();
                    }
                } else {
                    self.state = ParserState::Normal;
                    self.osc_accum.clear();
                }
                None
            },
            ParserState::Osc133Semi => {
                if b == BEL {
                    let ev = self.parse_payload();
                    self.state = ParserState::Normal;
                    ev
                } else {
                    if b == ESC {
                        self.state = ParserState::OscPayload;
                    } else {
                        self.buf.push(b);
                    }
                    None
                }
            },
            ParserState::OscPayload => {
                let ev = if b == 0x5C {
                    self.parse_payload()
                } else {
                    None
                };
                self.state = ParserState::Normal;
                ev
            },
        }
    }

    /// Feeds a chunk of bytes and returns the boundary events found, in
    /// order. A marker may be split across chunks.
    pub fn feed(&mut self, data: &[u8]) -> (events: Vec<BoundaryEvent>)
        ensures
            (final(self)@, events@) == parser_run(old(self)@, data@),
    {
        let mut events: Vec<BoundaryEvent> = Vec::new();
        let mut i: usize = 0;
        assert(data@.take(0) =~= Seq::<u8>::empty());
        while i < data.len()
            invariant
                i <= data@.len(),
                (self@, events@) == parser_run(old(self)@, data@.take(i as int)),
            decreases data@.len() - i,
        {
            let ghost before = data@.take(i as int);
            assert(data@.take(i + 1).drop_last() =~= before);
            assert(data@.take(i + 1).last() == data@[i as int]);
            let ev = self.feed_byte(data[i]);
            let ghost evs_before = events@;
            match ev {
                Some(e) => events.push(e),
                None => {},
            }
            assert(events@ =~= evs_before + opt_seq(ev));
            i += 1;
        }
        assert(data@.take(data@.len() as int) =~= data@);
        events
    }

    /// Whether the parser is inside an escape or OSC sequence.
    pub fn in_sequence(&self) -> (r: bool)
        ensures
            r == (self@.state != ParserState::Normal),
    {
        self.state != ParserState::Normal
    }
}


// ---------------------------------------------------------------------------
// Laws of the parser
// ---------------------------------------------------------------------------

/// Feeding `a` and then `b` gives the same parser and the same events, in the
/// same order, as feeding `a + b` at once: how a stream is cut into chunks
/// never changes what is found in it.
pub proof fn lemma_feed_in_chunks(p: ParserView, a: Seq<u8>, b: Seq<u8>)
    ensures
        parser_run(p, a + b).0 == parser_run(parser_run(p, a).0, b).0,
        parser_run(p, a + b).1 == parser_run(p, a).1 + parser_run(parser_run(p, a).0, b).1,
    decreases b.len(),
{
    if b.len() == 0 {
        assert(a + b =~= a);
        assert(parser_run(p, a).1 + Seq::<BoundaryEvent>::empty() =~= parser_run(p, a).1);
    } else {
        lemma_feed_in_chunks(p, a, b.drop_last());
        assert((a + b).drop_last() =~= a + b.drop_last());
        assert((a + b).last() == b.last());
        let ra = parser_run(p, a);
        let rb = parser_run(ra.0, b.drop_last());
        let e = parser_step(rb.0, b.last()).1;
        assert(ra.1 + (rb.1 + opt_seq(e)) =~= (ra.1 + rb.1) + opt_seq(e));
    }
}

/// Bytes without `ESC`, read outside any sequence, yield no event and leave
/// the parser as it was.
pub proof fn lemma_plain_bytes_yield_nothing(p: ParserView, data: Seq<u8>)
    requires
        p.state == ParserState::Normal,
        forall|i: int| 0 <= i < data.len() ==> #[trigger] data[i] != ESC,
    ensures
        parser_run(p, data) == (p, Seq::<BoundaryEvent>::empty()),
    decreases data.len(),
{
    if data.len() > 0 {
        assert forall|i: int| 0 <= i < data.drop_last().len() implies #[trigger] data.drop_last()[i]
            != ESC by {
            assert(data.drop_last()[i] == data[i]);
        }
        lemma_plain_bytes_yield_nothing(p, data.drop_last());
        assert(data.last() == data[data.len() - 1]);
        assert(Seq::<BoundaryEvent>::empty() + Seq::<BoundaryEvent>::empty() =~= Seq::<
            BoundaryEvent,
        >::empty());
    }
}

/// The bytes of a complete marker: `ESC ] 133 ;`, the payload, then BEL, or
/// ST (`ESC \`) when `st` holds.
pub open spec fn marker_bytes(payload: Seq<u8>, st: bool) -> Seq<u8> {
    seq![ESC, 0x5Du8, 0x31u8, 0x33u8, 0x33u8, 0x3Bu8] + payload + if st {
        seq![ESC, 0x5Cu8]
    } else {
        seq![BEL]
    }
}

proof fn lemma_payload_collected(q: ParserView, payload: Seq<u8>)
    requires
        q.state == ParserState::Osc133Semi,
        forall|i: int| 0 <= i < payload.len() ==> #[trigger] payload[i] != ESC && payload[i] != BEL,
    ensures
        parser_run(q, payload).0 == (ParserView { buf: q.buf + payload, ..q }),
        parser_run(q, payload).1 == Seq::<BoundaryEvent>::empty(),
    decreases payload.len(),
{
    if payload.len() == 0 {
        assert(q.buf + payload =~= q.buf);
    } else {
        assert forall|i: int| 0 <= i < payload.drop_last().len() implies #[trigger] payload.drop_last()[i]
            != ESC && payload.drop_last()[i] != BEL by {
            assert(payload.drop_last()[i] == payload[i]);
        }
        lemma_payload_collected(q, payload.drop_last());
        assert(payload.last() == payload[payload.len() - 1]);
        assert((q.buf + payload.drop_last()).push(payload.last()) =~= q.buf + payload);
        assert(Seq::<BoundaryEvent>::empty() + Seq::<BoundaryEvent>::empty() =~= Seq::<
            BoundaryEvent,
        >::empty());
    }
}

proof fn lemma_marker_head(p: ParserView)
    requires
        p.state == ParserState::Normal,
    ensures
        ({
            let r = parser_run(p, seq![ESC, 0x5Du8, 0x31u8, 0x33u8, 0x33u8, 0x3Bu8]);
            &&& r.0.state == ParserState::Osc133Semi
            &&& r.0.buf == Seq::<u8>::empty()
            &&& r.1 == Seq::<BoundaryEvent>::empty()
        }),
{
    let head = seq![ESC, 0x5Du8, 0x31u8, 0x33u8, 0x33u8, 0x3Bu8];
    let e = Seq::<BoundaryEvent>::empty();
    assert(head.take(0).len() == 0);
    let r0 = parser_run(p, head.take(0));
    assert(r0 == (p, e));
    assert(head.take(1).drop_last() =~= head.take(0));
    let r1 = parser_run(p, head.take(1));
    assert(r1.0.state == ParserState::Esc && r1.1 =~= e);
    assert(head.take(2).drop_last() =~= head.take(1));
    let r2 = parser_run(p, head.take(2));
    assert(r2.0.state == ParserState::OscStart && r2.0.osc_accum =~= Seq::<u8>::empty() && r2.1 =~= e);
    assert(head.take(3).drop_last() =~= head.take(2));
    let r3 = parser_run(p, head.take(3));
    assert(r2.0.osc_accum.push(0x31u8) =~= osc_prefix().take(1));
    assert(r3.0.state == ParserState::OscStart && r3.0.osc_accum =~= osc_prefix().take(1) && r3.1 =~= e);
    assert(head.take(4).drop_last() =~= head.take(3));
    let r4 = parser_run(p, head.take(4));
    assert(r3.0.osc_accum.push(0x33u8) =~= osc_prefix().take(2));
    assert(r4.0.state == ParserState::OscStart && r4.0.osc_accum =~= osc_prefix().take(2) && r4.1 =~= e);
    assert(head.take(5).drop_last() =~= head.take(4));
    let r5 = parser_run(p, head.take(5));
    assert(r4.0.osc_accum.push(0x33u8) =~= osc_prefix().take(3));
    assert(r5.0.state == ParserState::OscStart && r5.0.osc_accum =~= osc_prefix().take(3) && r5.1 =~= e);
    assert(head.take(6).drop_last() =~= head.take(5));
    assert(head.take(6) =~= head);
    assert(r5.0.osc_accum.push(0x3Bu8) =~= osc_prefix().take(4));
}

/// A complete marker read outside any sequence yields exactly the event its
/// payload stands for (none for an unknown or empty payload), and leaves the
/// parser outside any sequence; this holds for both terminators.
pub proof fn lemma_marker_yields_event(p: ParserView, payload: Seq<u8>, st: bool)
    requires
        p.state == ParserState::Normal,
        forall|i: int| 0 <= i < payload.len() ==> #[trigger] payload[i] != ESC && payload[i] != BEL,
    ensures
        parser_run(p, marker_bytes(payload, st)).0.state == ParserState::Normal,
        parser_run(p, marker_bytes(payload, st)).1 == opt_seq(payload_event(payload)),
{
    let head = seq![ESC, 0x5Du8, 0x31u8, 0x33u8, 0x33u8, 0x3Bu8];
    let tail = if st {
        seq![ESC, 0x5Cu8]
    } else {
        seq![BEL]
    };
    let r1 = parser_run(p, head);
    assert(r1.0.state == ParserState::Osc133Semi && r1.0.buf == Seq::<u8>::empty() && r1.1
        =~= Seq::<BoundaryEvent>::empty()) by {
        lemma_marker_head(p);
    }
    lemma_payload_collected(r1.0, payload);
    let r2 = parser_run(r1.0, payload);
    assert(r2.0.buf =~= payload);
    lemma_feed_in_chunks(p, head, payload);
    lemma_feed_in_chunks(p, head + payload, tail);
    assert(marker_bytes(payload, st) == head + payload + tail);
    let r3 = parser_run(r2.0, tail);
    let e = Seq::<BoundaryEvent>::empty();
    assert(tail.take(0).len() == 0);
    assert(parser_run(r2.0, tail.take(0)) == (r2.0, e));
    assert(tail.take(1).drop_last() =~= tail.take(0));
    let t1 = parser_run(r2.0, tail.take(1));
    if st {
        assert(t1.0.state == ParserState::OscPayload && t1.0.buf == payload && t1.1 =~= e);
        assert(tail.take(2).drop_last() =~= tail.take(1));
        assert(tail.take(2) =~= tail);
    } else {
        assert(tail.take(1) =~= tail);
        assert(e + opt_seq(payload_event(payload)) =~= opt_seq(payload_event(payload)));
    }
    assert(r3.0.state == ParserState::Normal);
    assert(r3.1 =~= opt_seq(payload_event(payload)));
    assert(r1.1 + r2.1 + r3.1 =~= opt_seq(payload_event(payload)));
}

proof fn lemma_prefix_phase(q: ParserView, x: Seq<u8>, j: int)
    requires
        q.state == ParserState::OscStart,
        q.osc_accum == Seq::<u8>::empty(),
        0 <= j <= x.len(),
        j < 4,
        forall|k: int| 0 <= k < j ==> #[trigger] x[k] == osc_prefix()[k],
    ensures
        parser_run(q, x.take(j)).0.state == ParserState::OscStart,
        parser_run(q, x.take(j)).0.osc_accum == osc_prefix().take(j),
        parser_run(q, x.take(j)).1 == Seq::<BoundaryEvent>::empty(),
    decreases j,
{
    if j == 0 {
        assert(x.take(0).len() == 0);
        assert(osc_prefix().take(0) =~= Seq::<u8>::empty());
    } else {
        lemma_prefix_phase(q, x, j - 1);
        assert(x.take(j).drop_last() =~= x.take(j - 1));
        assert(x.take(j).last() == x[j - 1]);
        assert(osc_prefix().take(j - 1).push(x[j - 1]) =~= osc_prefix().take(j));
        assert(Seq::<BoundaryEvent>::empty() + Seq::<BoundaryEvent>::empty() =~= Seq::<
            BoundaryEvent,
        >::empty());
    }
}

/// An OSC sequence other than OSC 133 (its text after `ESC ]` departs from
/// `133;` within the first four bytes), read outside any sequence and with
/// no further `ESC`, yields no event and leaves the parser outside any
/// sequence.
pub proof fn lemma_other_osc_yields_nothing(p: ParserView, x: Seq<u8>, m: int)
    requires
        p.state == ParserState::Normal,
        0 <= m < 4,
        m < x.len(),
        forall|k: int| 0 <= k < m ==> #[trigger] x[k] == osc_prefix()[k],
        x[m] != osc_prefix()[m],
        forall|i: int| 0 <= i < x.len() ==> #[trigger] x[i] != ESC,
    ensures
        parser_run(p, seq![ESC, 0x5Du8] + x).0.state == ParserState::Normal,
        parser_run(p, seq![ESC, 0x5Du8] + x).1 == Seq::<BoundaryEvent>::empty(),
{
    let e = Seq::<BoundaryEvent>::empty();
    let head = seq![ESC, 0x5Du8];
    assert(head.take(0).len() == 0);
    assert(parser_run(p, head.take(0)) == (p, e));
    assert(head.take(1).drop_last() =~= head.take(0));
    assert(head.take(1).last() == ESC);
    assert(parser_run(p, head.take(1)).0.state == ParserState::Esc);
    assert(parser_run(p, head.take(1)).1 =~= e);
    assert(head.take(2).drop_last() =~= head.take(1));
    assert(head.take(2).last() == 0x5Du8);
    assert(head.take(2) =~= head);
    let q = parser_run(p, head).0;
    assert(q.state == ParserState::OscStart && q.osc_accum =~= Seq::<u8>::empty());
    assert(parser_run(p, head).1 =~= e);
    lemma_prefix_phase(q, x, m);
    assert(x.take(m + 1).drop_last() =~= x.take(m));
    assert(x.take(m + 1).last() == x[m]);
    let r = parser_run(q, x.take(m + 1));
    assert(osc_prefix().take(m).push(x[m]) != osc_prefix().take(m + 1)) by {
        assert(osc_prefix().take(m).push(x[m])[m] == x[m]);
    }
    assert(r.0.state == ParserState::Normal);
    assert(r.1 =~= e);
    let rest = x.skip(m + 1);
    assert forall|i: int| 0 <= i < rest.len() implies #[trigger] rest[i] != ESC by {
        assert(rest[i] == x[i + m + 1]);
    }
    lemma_plain_bytes_yield_nothing(r.0, rest);
    assert(x.take(m + 1) + rest =~= x);
    lemma_feed_in_chunks(q, x.take(m + 1), rest);
    lemma_feed_in_chunks(p, head, x);
    assert(e + e =~= e);
}

// ---------------------------------------------------------------------------
// Command tracker: turns boundary events into command records
// ---------------------------------------------------------------------------

/// Where the tracker stands between markers.
#[derive(Debug, Clone, Copy, PartialEq, Eq, Structural)]
pub enum TrackerState {
    /// Waiting for the first prompt.
    Idle,
    /// Between A and B.
    InPrompt,
    /// Between B and C: the user is typing.
    InInput,
    /// Between C and D: the command's output.
    InOutput,
}

/// A finished command, ready to be appended to `commands.jsonl`.
pub struct CompletedCommand {
    pub index: usize,
    pub command: String,
    pub exit_code: Option<i32>,
    pub output: String,
}

/// The abstract value of a [`CompletedCommand`].
pub struct CommandRecord {
    pub index: int,
    pub command: Seq<char>,
    pub exit_code: Option<i32>,
    pub output: Seq<char>,
}

impl View for CompletedCommand {
    type V = CommandRecord;

    open spec fn view(&self) -> CommandRecord {
        CommandRecord {
            index: self.index as int,
            command: self.command@,
            exit_code: self.exit_code,
            output: self.output@,
        }
    }
}

/// Tracks command boundaries and yields the finished commands.
pub struct CommandTracker {
    parser: BoundaryParser,
    state: TrackerState,
    command_index: usize,
    /// Raw bytes between B and C (the user's typed command).
    current_input: Vec<u8>,
    /// Raw bytes between C and the next D.
    current_output: Vec<u8>,
    commands_path: String,
    /// Whether at least one A marker has been seen.
    active: bool,
}

/// The abstract state of a [`CommandTracker`].
pub struct TrackerView {
    pub parser: ParserView,
    pub state: TrackerState,
    pub command_index: int,
    pub input: Seq<u8>,
    pub output: Seq<u8>,
    pub commands_path: Seq<char>,
    pub active: bool,
}

impl View for CommandTracker {
    type V = TrackerView;

    closed spec fn view(&self) -> TrackerView {
        TrackerView {
            parser: self.parser@,
            state: self.state,
            command_index: self.command_index as int,
            input: self.current_input@,
            output: self.current_output@,
            commands_path: self.commands_path@,
            active: self.active,
        }
    }
}

/// The tracker as [`CommandTracker::new`] makes it, appending to
/// `commands_path`.
pub open spec fn initial_tracker(commands_path: Seq<char>) -> TrackerView {
    TrackerView {
        parser: initial_parser(),
        state: TrackerState::Idle,
        command_index: 0,
        input: seq![],
        output: seq![],
        commands_path: commands_path,
        active: false,
    }
}

/// A finished command with the next index; none when the command is empty.
pub open spec fn record_for(
    t: TrackerView,
    command: Seq<char>,
    output: Seq<char>,
    code: i32,
) -> (TrackerView, Option<CommandRecord>) {
    if command.len() == 0 {
        (t, None)
    } else {
        (
            TrackerView { command_index: t.command_index + 1, ..t },
            Some(
                CommandRecord {
                    index: t.command_index,
                    command: command,
                    exit_code: Some(code),
                    output: output,
                },
            ),
        )
    }
}

/// D after C: the typed bytes are the command, the bytes after C its
/// output; both buffers are emptied.
pub open spec fn flush_command_spec(t: TrackerView, code: i32) -> (TrackerView, Option<CommandRecord>) {
    record_for(
        TrackerView { input: seq![], output: seq![], ..t },
        clean_text(t.input),
        clean_text(t.output),
        code,
    )
}

/// The first line of `text` (empty when it has none).
pub open spec fn first_line(text: Seq<char>) -> Seq<char> {
    if lines(text).len() > 0 {
        lines(text)[0]
    } else {
        seq![]
    }
}

/// The lines of `text` after the first, joined with `'\n'`.
pub open spec fn after_first_line(text: Seq<char>) -> Seq<char> {
    if lines(text).len() > 0 {
        join_lines(lines(text).skip(1))
    } else {
        seq![]
    }
}

/// D without C: everything since B was collected as input; its first line
/// is the command and the other lines are the output. Only the input buffer
/// is emptied.
pub open spec fn flush_combined_spec(t: TrackerView, code: i32) -> (TrackerView, Option<CommandRecord>) {
    let text = clean_text(t.input);
    let t2 = TrackerView { input: seq![], ..t };
    if text.len() == 0 {
        (t2, None)
    } else {
        record_for(t2, trimmed(first_line(text)), trimmed(after_first_line(text)), code)
    }
}

/// The tracker after one byte, and the command that byte finishes, if any.
pub open spec fn tracker_step(t: TrackerView, b: u8) -> (TrackerView, Option<CommandRecord>) {
    let (p, ev) = parser_step(t.parser, b);
    let t1 = TrackerView {
        parser: p,
        input: if t.state == TrackerState::InInput {
            t.input.push(b)
        } else {
            t.input
        },
        output: if t.state == TrackerState::InOutput {
            t.output.push(b)
        } else {
            t.output
        },
        ..t
    };
    match ev {
        None => (t1, None),
        Some(BoundaryEvent::PromptStart) => (
            TrackerView { active: true, state: TrackerState::InPrompt, ..t1 },
            None,
        ),
        Some(BoundaryEvent::PromptEnd) => (
            TrackerView { state: TrackerState::InInput, input: seq![], ..t1 },
            None,
        ),
        Some(BoundaryEvent::CommandStart) => (
            TrackerView { state: TrackerState::InOutput, output: seq![], ..t1 },
            None,
        ),
        Some(BoundaryEvent::CommandDone { exit_code }) => {
            let (t2, r) = if t1.active && t1.state == TrackerState::InOutput {
                flush_command_spec(t1, exit_code)
            } else if t1.active && t1.state == TrackerState::InInput {
                flush_combined_spec(t1, exit_code)
            } else {
                (t1, None)
            };
            (TrackerView { state: TrackerState::Idle, ..t2 }, r)
        },
    }
}

/// An optional record as a sequence of zero or one records.
pub open spec fn opt_record(r: Option<CommandRecord>) -> Seq<CommandRecord> {
    match r {
        Some(c) => seq![c],
        None => seq![],
    }
}

/// The tracker after `data`, and the commands finished in it, in order.
pub open spec fn tracker_run(t: TrackerView, data: Seq<u8>) -> (TrackerView, Seq<CommandRecord>)
    decreases data.len(),
{
    if data.len() == 0 {
        (t, seq![])
    } else {
        let (q, rs) = tracker_run(t, data.drop_last());
        let (r, c) = tracker_step(q, data.last());
        (r, rs + opt_record(c))
    }
}

/// The view of an optional finished command.
pub open spec fn opt_view(r: Option<CompletedCommand>) -> Option<CommandRecord> {
    match r {
        Some(c) => Some(c@),
        None => None,
    }
}

/// The views of a list of finished commands.
pub open spec fn records_view(v: Seq<CompletedCommand>) -> Seq<CommandRecord> {
    v.map_values(|c: CompletedCommand| c@)
}

proof fn lemma_step_index_grows(t: TrackerView, b: u8)
    ensures
        t.command_index <= tracker_step(t, b).0.command_index,
{
}

/// The command index never decreases as bytes are processed.
proof fn lemma_index_grows(t: TrackerView, data: Seq<u8>, k: int)
    requires
        0 <= k <= data.len(),
    ensures
        tracker_run(t, data.take(k)).0.command_index <= tracker_run(t, data).0.command_index,
    decreases data.len() - k,
{
    if k < data.len() {
        lemma_index_grows(t, data, k + 1);
        assert(data.take(k + 1).drop_last() =~= data.take(k));
        lemma_step_index_grows(tracker_run(t, data.take(k)).0, data.take(k + 1).last());
    } else {
        assert(data.take(k) =~= data);
    }
}

impl CommandTracker {
    /// A tracker that records the commands of the session in `session_dir`.
    pub fn new(session_dir: &str) -> (t: Self)
        ensures
            t@ == initial_tracker(t@.commands_path),
            portable_dir(session_dir@) ==> (t@.commands_path == joined_with(
                session_dir@,
                "commands.jsonl"@,
                '/',
            ) || t@.commands_path == joined_with(session_dir@, "commands.jsonl"@, '\\')),
    {
        proof {
            reveal_strlit("commands.jsonl");
        }
        CommandTracker {
            parser: BoundaryParser::new(),
            state: TrackerState::Idle,
            command_index: 0,
            current_input: Vec::new(),
            current_output: Vec::new(),
            commands_path: join_path(session_dir, "commands.jsonl"),
            active: false,
        }
    }

    /// The file that the finished commands are appended to.
    pub fn commands_path(&self) -> (r: &str)
        ensures
            r@ == self@.commands_path,
    {
        self.commands_path.as_str()
    }

    /// A finished command with the next index, if `command` is not empty.
    fn make_record(&mut self, command: Vec<char>, output: Vec<char>, exit_code: i32) -> (r: Option<
        CompletedCommand,
    >)
        requires
            command@.len() > 0 ==> old(self)@.command_index < usize::MAX,
        ensures
            (final(self)@, opt_view(r)) == record_for(
                old(self)@,
                command@,
                output@,
                exit_code,
            ),
    {
        if command.len() == 0 {
            return None;
        }
        let entry = CompletedCommand {
            index: self.command_index,
            command: string_from_chars(command.as_slice()),
            exit_code: Some(exit_code),
            output: string_from_chars(output.as_slice()),
        };
        self.command_index += 1;
        Some(entry)
    }

    fn flush_command(&mut self, exit_code: i32) -> (r: Option<CompletedCommand>)
        requires
            flush_command_spec(old(self)@, exit_code).0.command_index <= usize::MAX,
        ensures
            (final(self)@, opt_view(r)) == flush_command_spec(
                old(self)@,
                exit_code,
            ),
    {
        let command = clean_chars(self.current_input.as_slice());
        let output = clean_chars(self.current_output.as_slice());
        self.current_input.clear();
        self.current_output.clear();
        self.make_record(command, output, exit_code)
    }

    fn flush_combined(&mut self, exit_code: i32) -> (r: Option<CompletedCommand>)
        requires
            flush_combined_spec(old(self)@, exit_code).0.command_index <= usize::MAX,
        ensures
            (final(self)@, opt_view(r)) == flush_combined_spec(
                old(self)@,
                exit_code,
            ),
    {
        let text = clean_chars(self.current_input.as_slice());
        self.current_input.clear();
        if text.len() == 0 {
            return None;
        }
        let ls = split_lines(text.as_slice());
        assert(lines_view(ls@).len() == ls@.len());
        let (first, rest) = if ls.len() > 0 {
            assert(lines_view(ls@)[0] == ls@[0]@);
            (trim_chars(ls[0].as_slice()), trim_chars(join_from(ls.as_slice(), 1).as_slice()))
        } else {
            (Vec::new(), Vec::new())
        };
        self.make_record(first, rest, exit_code)
    }

    /// Processes one byte; returns the command it finishes, if any.
    fn process_byte(&mut self, b: u8) -> (r: Option<CompletedCommand>)
        requires
            tracker_step(old(self)@, b).0.command_index <= usize::MAX,
        ensures
            (final(self)@, opt_view(r)) == tracker_step(old(self)@, b),
    {
        let ev = self.parser.feed_byte(b);
        if self.state == TrackerState::InInput {
            self.current_input.push(b);
        } else if self.state == TrackerState::InOutput {
            self.current_output.push(b);
        }
        match ev {
            None => None,
            Some(BoundaryEvent::PromptStart) => {
                self.active = true;
                self.state = TrackerState::InPrompt;
                None
            },
            Some(BoundaryEvent::PromptEnd) => {
                self.state = TrackerState::InInput;
                self.current_input.clear();
                None
            },
            Some(BoundaryEvent::CommandStart) => {
                self.state = TrackerState::InOutput;
                self.current_output.clear();
                None
            },
            Some(BoundaryEvent::CommandDone { exit_code }) => {
                let r = if self.active && self.state == TrackerState::InOutput {
                    self.flush_command(exit_code)
                } else if self.active && self.state == TrackerState::InInput {
                    self.flush_combined(exit_code)
                } else {
                    None
                };
                self.state = TrackerState::Idle;
                r
            },
        }
    }

    /// Processes a chunk of terminal output and returns the commands it
    /// finishes, in order. Every byte is kept in the buffer of the current
    /// phase; escape sequences are stripped when a command is finished.
    pub fn process(&mut self, data: &[u8]) -> (done: Vec<CompletedCommand>)
        requires
            tracker_run(old(self)@, data@).0.command_index <= usize::MAX,
        ensures
            final(self)@ == tracker_run(old(self)@, data@).0,
            records_view(done@) == tracker_run(old(self)@, data@).1,
    {
        let mut done: Vec<CompletedCommand> = Vec::new();
        let mut i: usize = 0;
        let ghost start = self@;
        assert(data@.take(0) =~= Seq::<u8>::empty());
        while i < data.len()
            invariant
                i <= data@.len(),
                tracker_run(start, data@).0.command_index <= usize::MAX,
                self@ == tracker_run(start, data@.take(i as int)).0,
                records_view(done@) == tracker_run(start, data@.take(i as int)).1,
            decreases data@.len() - i,
        {
            let ghost before = data@.take(i as int);
            assert(data@.take(i + 1).drop_last() =~= before);
            assert(data@.take(i + 1).last() == data@[i as int]);
            proof {
                lemma_index_grows(start, data@, i + 1);
            }
            let r = self.process_byte(data[i]);
            let ghost done_before = done@;
            match r {
                Some(c) => done.push(c),
                None => {},
            }
            assert(records_view(done@) =~= records_view(done_before) + opt_record(opt_view(r)));
            i += 1;
        }
        assert(data@.take(data@.len() as int) =~= data@);
        done
    }

    /// [`CommandTracker::process`] where the command index cannot overflow:
    /// `None`, with the tracker unchanged, when the index plus the number of
    /// bytes does not fit in `usize`.
    pub fn process_checked(&mut self, data: &[u8]) -> (r: Option<Vec<CompletedCommand>>)
        ensures
            r is Some <==> old(self)@.command_index + data@.len() <= usize::MAX,
            r is None ==> final(self)@ == old(self)@,
            r matches Some(done) ==> final(self)@ == tracker_run(old(self)@, data@).0
                && records_view(done@) == tracker_run(old(self)@, data@).1,
    {
        if !self.has_index_room(data.len()) {
            return None;
        }
        proof {
            lemma_index_bounded(self@, data@);
        }
        Some(self.process(data))
    }

    /// Whether `n` more bytes can be processed without the command index
    /// overflowing: the index plus `n` fits in `usize` (each byte records
    /// at most one command, see [`lemma_index_bounded`]).
    pub fn has_index_room(&self, n: usize) -> (r: bool)
        ensures
            r == (self@.command_index + n <= usize::MAX),
    {
        self.command_index <= usize::MAX - n
    }

    /// Whether OSC 133 markers have been seen (shell integration is active).
    pub fn is_active(&self) -> (r: bool)
        ensures
            r == self@.active,
    {
        self.active
    }
}

/// Processing `a` and then `b` gives the same tracker (shell integration
/// seen or not included) and the same finished commands, in the same order,
/// as processing `a + b` at once; and the command index after `a` is no
/// larger than after `a + b`, so wherever [`CommandTracker::process`] may be
/// called on `a + b` it may be called on `a` and then on `b`.
pub proof fn lemma_process_in_chunks(t: TrackerView, a: Seq<u8>, b: Seq<u8>)
    ensures
        tracker_run(t, a + b).0 == tracker_run(tracker_run(t, a).0, b).0,
        tracker_run(t, a + b).1 == tracker_run(t, a).1 + tracker_run(tracker_run(t, a).0, b).1,
        tracker_run(t, a).0.command_index <= tracker_run(t, a + b).0.command_index,
{
    lemma_chunks_join(t, a, b);
    lemma_records_numbered_consecutively(t, a);
    lemma_records_numbered_consecutively(t, a + b);
}

proof fn lemma_chunks_join(t: TrackerView, a: Seq<u8>, b: Seq<u8>)
    ensures
        tracker_run(t, a + b).0 == tracker_run(tracker_run(t, a).0, b).0,
        tracker_run(t, a + b).1 == tracker_run(t, a).1 + tracker_run(tracker_run(t, a).0, b).1,
    decreases b.len(),
{
    if b.len() == 0 {
        assert(a + b =~= a);
        assert(tracker_run(t, a).1 + Seq::<CommandRecord>::empty() =~= tracker_run(t, a).1);
    } else {
        lemma_chunks_join(t, a, b.drop_last());
        assert((a + b).drop_last() =~= a + b.drop_last());
        assert((a + b).last() == b.last());
        let ra = tracker_run(t, a);
        let rb = tracker_run(ra.0, b.drop_last());
        let c = tracker_step(rb.0, b.last()).1;
        assert(ra.1 + (rb.1 + opt_record(c)) =~= (ra.1 + rb.1) + opt_record(c));
    }
}

/// Recorded commands are numbered consecutively from the tracker's next
/// index, and the next index afterwards follows the last of them.
pub proof fn lemma_records_numbered_consecutively(t: TrackerView, data: Seq<u8>)
    ensures
        tracker_run(t, data).0.command_index == t.command_index + tracker_run(t, data).1.len(),
        forall|i: int|
            0 <= i < tracker_run(t, data).1.len() ==> #[trigger] tracker_run(t, data).1[i].index
                == t.command_index + i,
    decreases data.len(),
{
    if data.len() > 0 {
        lemma_records_numbered_consecutively(t, data.drop_last());
        let (q, rs) = tracker_run(t, data.drop_last());
        let (r, c) = tracker_step(q, data.last());
        assert(tracker_run(t, data).1 == rs + opt_record(c));
        assert forall|i: int| 0 <= i < (rs + opt_record(c)).len() implies #[trigger] (rs
            + opt_record(c))[i].index == t.command_index + i by {
            if i < rs.len() {
                assert((rs + opt_record(c))[i] == rs[i]);
            }
        }
    }
}

/// Shell integration, once seen, stays seen; and while no prompt marker
/// has been seen, no command is recorded.
pub proof fn lemma_nothing_recorded_before_first_prompt(t: TrackerView, data: Seq<u8>)
    ensures
        t.active ==> tracker_run(t, data).0.active,
        !tracker_run(t, data).0.active ==> tracker_run(t, data).1.len() == 0,
    decreases data.len(),
{
    if data.len() > 0 {
        lemma_nothing_recorded_before_first_prompt(t, data.drop_last());
    }
}

/// The tracker reads the stream exactly as a parser on its own does: its
/// parser ends where that parser ends.
pub proof fn lemma_tracker_follows_parser(t: TrackerView, data: Seq<u8>)
    ensures
        tracker_run(t, data).0.parser == parser_run(t.parser, data).0,
    decreases data.len(),
{
    if data.len() > 0 {
        lemma_tracker_follows_parser(t, data.drop_last());
    }
}

/// Each byte records at most one command, so the command index grows by at
/// most the number of bytes processed.
pub proof fn lemma_index_bounded(t: TrackerView, data: Seq<u8>)
    ensures
        tracker_run(t, data).0.command_index <= t.command_index + data.len(),
    decreases data.len(),
{
    if data.len() > 0 {
        lemma_index_bounded(t, data.drop_last());
    }
}

/// The tracker is active (shell integration seen) exactly when it already
/// was or the stream it processed holds a prompt-start marker: a parser on
/// its own finds a [`BoundaryEvent::PromptStart`] in it.
pub proof fn lemma_active_iff_prompt_seen(t: TrackerView, data: Seq<u8>)
    ensures
        tracker_run(t, data).0.active == (t.active || parser_run(t.parser, data).1.contains(
            BoundaryEvent::PromptStart,
        )),
    decreases data.len(),
{
    if data.len() > 0 {
        let d = data.drop_last();
        lemma_active_iff_prompt_seen(t, d);
        lemma_tracker_follows_parser(t, d);
        let q = tracker_run(t, d).0;
        let pr = parser_run(t.parser, d);
        let e = parser_step(pr.0, data.last()).1;
        let evs = pr.1 + opt_seq(e);
        assert(parser_run(t.parser, data).1 == evs);
        if pr.1.contains(BoundaryEvent::PromptStart) {
            let k = choose|k: int| 0 <= k < pr.1.len() && pr.1[k] == BoundaryEvent::PromptStart;
            assert(evs[k] == BoundaryEvent::PromptStart);
        }
        if e == Some(BoundaryEvent::PromptStart) {
            assert(evs[pr.1.len() as int] == BoundaryEvent::PromptStart);
        }
        if evs.contains(BoundaryEvent::PromptStart) {
            let k = choose|k: int| 0 <= k < evs.len() && evs[k] == BoundaryEvent::PromptStart;
            if k < pr.1.len() {
                assert(pr.1[k] == BoundaryEvent::PromptStart);
            } else {
                assert(opt_seq(e)[k - pr.1.len()] == BoundaryEvent::PromptStart);
            }
        }
    }
}

/// What every recorded command looks like: it has an exit code, a command
/// that is not empty, and a command and output with no leading or trailing
/// whitespace.
pub open spec fn well_formed_record(r: CommandRecord) -> bool {
    &&& r.exit_code is Some
    &&& r.command.len() > 0
    &&& trimmed(r.command) == r.command
    &&& trimmed(r.output) == r.output
}

proof fn lemma_step_record_well_formed(t: TrackerView, b: u8)
    ensures
        tracker_step(t, b).1 matches Some(r) ==> well_formed_record(r),
{
    assert forall|x: Seq<char>| #[trigger] trimmed(trimmed(x)) == trimmed(x) by {
        lemma_trimmed_idempotent(x);
    }
}

/// Every command the tracker records has an exit code, a non-empty command,
/// and a command and output with no leading or trailing whitespace.
pub proof fn lemma_records_well_formed(t: TrackerView, data: Seq<u8>)
    ensures
        forall|i: int|
            0 <= i < tracker_run(t, data).1.len() ==> well_formed_record(
                #[trigger] tracker_run(t, data).1[i],
            ),
    decreases data.len(),
{
    if data.len() > 0 {
        lemma_records_well_formed(t, data.drop_last());
        let (q, rs) = tracker_run(t, data.drop_last());
        lemma_step_record_well_formed(q, data.last());
        let c = tracker_step(q, data.last()).1;
        assert forall|i: int| 0 <= i < (rs + opt_record(c)).len() implies well_formed_record(
            #[trigger] (rs + opt_record(c))[i],
        ) by {
            if i < rs.len() {
                assert((rs + opt_record(c))[i] == rs[i]);
            }
        }
    }
}

/// The chunks `cs` read one after another, as one stream.
pub open spec fn concat_chunks(cs: Seq<Seq<u8>>) -> Seq<u8>
    decreases cs.len(),
{
    if cs.len() == 0 {
        seq![]
    } else {
        concat_chunks(cs.drop_last()) + cs.last()
    }
}

/// The tracker after [`CommandTracker::process`] is called on each of the
/// chunks `cs` in turn, and the commands those calls return, in order.
pub open spec fn tracker_run_chunks(t: TrackerView, cs: Seq<Seq<u8>>) -> (
    TrackerView,
    Seq<CommandRecord>,
)
    decreases cs.len(),
{
    if cs.len() == 0 {
        (t, seq![])
    } else {
        let (q, rs) = tracker_run_chunks(t, cs.drop_last());
        let (r, more) = tracker_run(q, cs.last());
        (r, rs + more)
    }
}

/// Calling [`CommandTracker::process`] on any number of chunks in turn
/// gives the same tracker and the same commands, in the same order, as one
/// call on all of them at once; and the command index after any leading
/// part of the chunks is no larger than after all of them, so wherever the
/// single call may be made, each of the calls may be made.
pub proof fn lemma_many_chunks(t: TrackerView, cs: Seq<Seq<u8>>)
    ensures
        tracker_run_chunks(t, cs) == tracker_run(t, concat_chunks(cs)),
        forall|k: int|
            0 <= k <= cs.len() ==> #[trigger] tracker_run_chunks(t, cs.take(k)).0.command_index
                <= tracker_run(t, concat_chunks(cs)).0.command_index,
    decreases cs.len(),
{
    if cs.len() > 0 {
        let d = cs.drop_last();
        lemma_many_chunks(t, d);
        lemma_process_in_chunks(t, concat_chunks(d), cs.last());
        let whole = tracker_run(t, concat_chunks(cs));
        assert forall|k: int| 0 <= k <= cs.len() implies #[trigger] tracker_run_chunks(
            t,
            cs.take(k),
        ).0.command_index <= whole.0.command_index by {
            if k < cs.len() {
                assert(cs.take(k) =~= d.take(k));
            } else {
                assert(cs.take(k) =~= cs);
            }
        }
    } else {
        assert forall|k: int| 0 <= k <= cs.len() implies #[trigger] tracker_run_chunks(
            t,
            cs.take(k),
        ).0.command_index <= tracker_run(t, concat_chunks(cs)).0.command_index by {
            assert(cs.take(k) =~= cs);
        }
    }
}

/// After [`CommandTracker::process`] on any number of chunks, the tracker
/// is active exactly when it was before or a parser finds a prompt-start
/// marker in the chunks read as one stream; it never turns inactive; the
/// commands returned by all the calls are numbered consecutively from the
/// tracker's index; and each of them is well formed.
pub proof fn lemma_chunked_session(t: TrackerView, cs: Seq<Seq<u8>>)
    ensures
        tracker_run_chunks(t, cs).0.active == (t.active || parser_run(
            t.parser,
            concat_chunks(cs),
        ).1.contains(BoundaryEvent::PromptStart)),
        t.active ==> tracker_run_chunks(t, cs).0.active,
        tracker_run_chunks(t, cs).0.command_index == t.command_index + tracker_run_chunks(
            t,
            cs,
        ).1.len(),
        forall|i: int|
            0 <= i < tracker_run_chunks(t, cs).1.len() ==> #[trigger] tracker_run_chunks(
                t,
                cs,
            ).1[i].index == t.command_index + i && well_formed_record(
                tracker_run_chunks(t, cs).1[i],
            ),
{
    let data = concat_chunks(cs);
    lemma_many_chunks(t, cs);
    lemma_active_iff_prompt_seen(t, data);
    lemma_records_numbered_consecutively(t, data);
    lemma_records_well_formed(t, data);
}

/// What the `D` marker that ends a command's output records: a command
/// exactly when the cleaned typed input is not empty, whatever the output
/// (a command that prints nothing is recorded too). The record has the
/// tracker's next index, the cleaned input as its command, the marker's
/// exit code, and as output the cleaned bytes read since `C`; the tracker
/// goes back to waiting with both buffers emptied.
pub proof fn lemma_done_records_typed_command(t: TrackerView, b: u8, code: i32)
    requires
        t.active,
        t.state == TrackerState::InOutput,
        parser_step(t.parser, b).1 == Some(BoundaryEvent::CommandDone { exit_code: code }),
    ensures
        tracker_step(t, b).1 is Some <==> clean_text(t.input).len() > 0,
        clean_text(t.input).len() > 0 ==> tracker_step(t, b).1 == Some(
            CommandRecord {
                index: t.command_index,
                command: clean_text(t.input),
                exit_code: Some(code),
                output: clean_text(t.output.push(b)),
            },
        ),
        tracker_step(t, b).0.command_index == t.command_index + if clean_text(t.input).len() > 0 {
            1int
        } else {
            0
        },
        tracker_step(t, b).0.state == TrackerState::Idle,
        tracker_step(t, b).0.input.len() == 0,
        tracker_step(t, b).0.output.len() == 0,
        tracker_step(t, b).0.active,
{
}

/// What the `D` marker records when no `C` came after the prompt: the
/// cleaned input (the `D` byte included, its marker stripped) is split at its
/// first line; a command is recorded exactly when that first line, trimmed,
/// is not empty, whatever follows it, with the rest of the text, trimmed,
/// as its output.
pub proof fn lemma_done_without_start_records_first_line(t: TrackerView, b: u8, code: i32)
    requires
        t.active,
        t.state == TrackerState::InInput,
        parser_step(t.parser, b).1 == Some(BoundaryEvent::CommandDone { exit_code: code }),
    ensures
        ({
            let text = clean_text(t.input.push(b));
            let command = trimmed(first_line(text));
            &&& tracker_step(t, b).1 is Some <==> command.len() > 0
            &&& command.len() > 0 ==> tracker_step(t, b).1 == Some(
                CommandRecord {
                    index: t.command_index,
                    command: command,
                    exit_code: Some(code),
                    output: trimmed(after_first_line(text)),
                },
            )
            &&& tracker_step(t, b).0.state == TrackerState::Idle
            &&& tracker_step(t, b).0.input.len() == 0
        }),
{
    let text = clean_text(t.input.push(b));
    if text.len() == 0 {
        assert(lines(text).len() == 0 || lines(text)[0].len() == 0) by {
            reveal_with_fuel(lines, 2);
        }
        assert(trimmed(first_line(text)).len() == 0) by {
            reveal_with_fuel(crate::text::trim_start_seq, 2);
            reveal_with_fuel(crate::text::trim_end_seq, 2);
        }
    }
}

} // verus!
