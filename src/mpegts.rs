use crate::bits::{lemma_bits_bound, read_bits};
use crate::demux_model::{
    AdtsState, DemuxCore, DemuxModel, apply_pat, apply_pmt, can_step, dispatch, es_bytes, feed,
    initial_model, lemma_advance_output, lemma_feed_concat, lemma_step_decreases, lemma_step_output,
    measure, needed, step,
    step_core, advance,
};
use crate::error::{AdtsExtractorError, Field};
use crate::psi::{
    expect_bits, parse_pat, parse_pmt, receive_section_bytes, section_total, views,
};
use std::collections::VecDeque;
use vstd::prelude::*;

verus! {

/// Length in bytes of one transport packet.
pub const PACKET_LENGTH: usize = 188;

/// Takes the elementary stream bytes that a demultiplexer extracts, in order.
pub trait AdtsReceiver {
    /// Every byte this receiver has taken so far, in order. A receiver that
    /// does not define it claims nothing about it.
    open spec fn received(&self) -> Seq<u8> {
        vstd::pervasive::arbitrary()
    }

    /// Takes the next bytes of the stream; an error refuses them.
    fn receive(&mut self, data: &[u8]) -> (r: Result<(), AdtsExtractorError>)
        ensures
            r is Ok ==> final(self).received() == old(self).received() + data@,
    ;
}

/// A receiver that keeps every byte it is given.
pub struct VecReceiver {
    pub bytes: Vec<u8>,
}

impl VecReceiver {
    pub fn new() -> (r: Self)
        ensures
            r.bytes@ == Seq::<u8>::empty(),
    {
        VecReceiver { bytes: Vec::new() }
    }
}

impl AdtsReceiver for VecReceiver {
    open spec fn received(&self) -> Seq<u8> {
        self.bytes@
    }

    fn receive(&mut self, data: &[u8]) -> (r: Result<(), AdtsExtractorError>)
        ensures
            r is Ok,
            final(self).bytes@ == old(self).bytes@ + data@,
    {
        crate::psi::append_range(&mut self.bytes, data, 0, data.len());
        assert(data@.subrange(0, data@.len() as int) =~= data@);
        Ok(())
    }
}

/// An incremental transport stream demultiplexer: bytes go in by `push`, in
/// pieces of any size, and the AAC stream's bytes come out to the receiver.
pub struct AdtsExtractor<R: AdtsReceiver> {
    receiver: R,
    state: AdtsState,
    buffer: VecDeque<u8>,
    pid: u16,
    pos: usize,
    has_payload: bool,
    new_payload: bool,
    program_pid: Option<u16>,
    audio_pid: Option<u16>,
    pat_section: Vec<u8>,
    pmt_section: Vec<u8>,
    failure: Option<AdtsExtractorError>,
    emitted: Ghost<Seq<u8>>,
    received_before: Ghost<Seq<u8>>,
    history: Ghost<Seq<u8>>,
    refused: Ghost<bool>,
}

/// Copies a byte slice into a vector.
fn to_vec(s: &[u8]) -> (r: Vec<u8>)
    ensures
        r@ == s@,
{
    let mut v = Vec::new();
    let mut i: usize = 0;
    while i < s.len()
        invariant
            i <= s@.len(),
            v@ == s@.take(i as int),
        decreases s@.len() - i,
    {
        v.push(s[i]);
        i = i + 1;
        assert(v@ =~= s@.take(i as int));
    }
    assert(s@.take(s@.len() as int) =~= s@);
    v
}

/// The elementary stream bytes of one payload of the audio PID.
pub fn es_payload(unit_start: bool, p: &[u8]) -> (r: Result<Vec<u8>, AdtsExtractorError>)
    requires
        p@.len() <= 188,
    ensures
        match es_bytes(unit_start, p@) {
            Ok(es) => r matches Ok(v) && v@ == es,
            Err(e) => r == Err::<Vec<u8>, AdtsExtractorError>(e),
        },
{
    if !unit_start {
        return Ok(to_vec(p));
    }
    if p.len() < 9 {
        return Err(
            AdtsExtractorError::TooShort {
                field: Field::PesHeaderLength,
                minimum: 9,
                actual: p.len() as u32,
            },
        );
    }
    expect_bits(p, 0, 24, 1, Field::PesStartCode)?;
    let header = p[8] as usize;
    if 9 + header > p.len() {
        return Err(
            AdtsExtractorError::TooLong {
                field: Field::PesHeaderLength,
                maximum: (p.len() - 9) as u32,
                actual: header as u32,
            },
        );
    }
    let mut v = Vec::new();
    crate::psi::append_range(&mut v, p, 9 + header, p.len());
    assert(v@ =~= p@.skip(9 + p@[8]));
    Ok(v)
}

impl<R: AdtsReceiver> AdtsExtractor<R> {
    /// The session's core, as the model describes it.
    pub closed spec fn demux_core(&self) -> DemuxCore {
        DemuxCore {
            state: self.state,
            pos: self.pos as nat,
            pid: self.pid,
            has_payload: self.has_payload,
            new_payload: self.new_payload,
            program_pid: self.program_pid,
            audio_pid: self.audio_pid,
            pat_section: self.pat_section@,
            pmt_section: self.pmt_section@,
            output: self.emitted@,
            failure: self.failure,
        }
    }

    pub closed spec fn model(&self) -> DemuxModel {
        DemuxModel { core: self.demux_core(), pending: self.buffer@ }
    }

    pub closed spec fn receiver_spec(&self) -> R {
        self.receiver
    }

    /// Every byte pushed so far, in order.
    pub closed spec fn history(&self) -> Seq<u8> {
        self.history@
    }

    /// What the receiver had taken before this session began.
    pub closed spec fn received_before(&self) -> Seq<u8> {
        self.received_before@
    }

    /// The receiver refused a piece of the stream.
    pub closed spec fn refused(&self) -> bool {
        self.refused@
    }

    pub closed spec fn shape(&self) -> bool {
        &&& self.pos <= 188
        &&& (self.failure is None ==> {
            &&& (self.state matches AdtsState::Adaptation { length } ==> self.pos + length <= 188)
            &&& (self.state == AdtsState::AdaptationLength ==> self.pos == 4)
            &&& (self.state == AdtsState::Sync ==> self.pos == 0)
        })
        &&& self.pat_section@.len() <= 0x1000 + 3
        &&& self.pmt_section@.len() <= 0x1000 + 3
        &&& (self.refused@ ==> self.failure is Some)
        &&& (!self.refused@ ==> self.receiver.received() == self.received_before@ + self.emitted@)
    }

    /// While the receiver took everything, the session is the model fed with
    /// every byte pushed so far.
    pub closed spec fn wf(&self) -> bool {
        &&& self.shape()
        &&& (!self.refused@ ==> self.model() == feed(initial_model(), self.history@))
    }

    pub fn new(receiver: R) -> (r: Self)
        ensures
            r.wf(),
            r.model() == initial_model(),
            r.history() == Seq::<u8>::empty(),
            !r.refused(),
            r.receiver_spec() == receiver,
            r.received_before() == receiver.received(),
    {
        let ghost before = receiver.received();
        let r = AdtsExtractor {
            receiver,
            state: AdtsState::Sync,
            buffer: VecDeque::new(),
            pid: 0,
            pos: 0,
            has_payload: false,
            new_payload: false,
            program_pid: None,
            audio_pid: None,
            pat_section: Vec::new(),
            pmt_section: Vec::new(),
            failure: None,
            emitted: Ghost(Seq::empty()),
            received_before: Ghost(before),
            history: Ghost(Seq::empty()),
            refused: Ghost(false),
        };
        assert(r.model() == initial_model());
        assert(before + Seq::<u8>::empty() =~= before);
        assert(Seq::<u8>::empty() + Seq::<u8>::empty() =~= Seq::<u8>::empty());
        r
    }

    /// Takes `count` bytes off the front of the pending bytes, if there are
    /// that many.
    fn take(&mut self, count: usize) -> (r: Option<Vec<u8>>)
        requires
            old(self).pos + count <= 188,
        ensures
            old(self).buffer@.len() < count ==> r is None && *final(self) == *old(self),
            old(self).buffer@.len() >= count ==> {
                &&& r matches Some(v) && v@ == old(self).buffer@.take(count as int)
                &&& final(self).buffer@ == old(self).buffer@.skip(count as int)
                &&& final(self).pos == old(self).pos + count
                &&& *final(self) == (AdtsExtractor {
                    buffer: final(self).buffer,
                    pos: final(self).pos,
                    ..*old(self)
                })
            },
    {
        if self.buffer.len() < count {
            return None;
        }
        let mut out = Vec::new();
        let mut i: usize = 0;
        while i < count
            invariant
                i <= count <= old(self).buffer@.len(),
                out@ == old(self).buffer@.take(i as int),
                self.buffer@ == old(self).buffer@.skip(i as int),
                *self == (AdtsExtractor { buffer: self.buffer, ..*old(self) }),
            decreases count - i,
        {
            let b = self.buffer.pop_front();
            match b {
                Some(x) => {
                    out.push(x);
                },
                None => {},
            }
            i = i + 1;
            assert(out@ =~= old(self).buffer@.take(i as int));
            assert(self.buffer@ =~= old(self).buffer@.skip(i as int));
        }
        self.pos = self.pos + count;
        Some(out)
    }

    /// Ends the current packet: the next bytes are a packet header.
    fn reset(&mut self)
        ensures
            *final(self) == (AdtsExtractor {
                state: AdtsState::Sync,
                pos: 0,
                has_payload: false,
                new_payload: false,
                ..*old(self)
            }),
    {
        self.state = AdtsState::Sync;
        self.pos = 0;
        self.has_payload = false;
        self.new_payload = false;
    }

    /// The fields that routing a payload leaves alone.
    closed spec fn same_packet(&self, other: &Self) -> bool {
        &&& self.buffer == other.buffer
        &&& self.history == other.history
        &&& self.received_before == other.received_before
        &&& self.state == other.state
        &&& self.pos == other.pos
        &&& self.pid == other.pid
        &&& self.has_payload == other.has_payload
        &&& self.new_payload == other.new_payload
    }

    /// Parses completed PAT sections in order.
    fn apply_pat_sections(&mut self, secs: Vec<Vec<u8>>)
        requires
            forall|i: int|
                0 <= i < secs@.len() ==> #[trigger] secs@[i]@.len() >= 3 && secs@[i]@.len()
                    == section_total(secs@[i]@),
        ensures
            *final(self) == (AdtsExtractor {
                program_pid: final(self).program_pid,
                failure: final(self).failure,
                ..*old(self)
            }),
            final(self).demux_core() == apply_pat(old(self).demux_core(), views(secs@)),
    {
        let mut i: usize = 0;
        assert(views(secs@).skip(0) =~= views(secs@));
        while i < secs.len() && self.failure.is_none()
            invariant
                0 <= i <= secs@.len(),
                forall|i: int|
                    0 <= i < secs@.len() ==> #[trigger] secs@[i]@.len() >= 3 && secs@[i]@.len()
                        == section_total(secs@[i]@),
                *self == (AdtsExtractor {
                    program_pid: self.program_pid,
                    failure: self.failure,
                    ..*old(self)
                }),
                apply_pat(self.demux_core(), views(secs@).skip(i as int)) == apply_pat(
                    old(self).demux_core(),
                    views(secs@),
                ),
            decreases secs@.len() - i,
        {
            let ghost rest = views(secs@).skip(i as int);
            assert(rest[0] == secs@[i as int]@);
            assert(rest.skip(1) =~= views(secs@).skip(i + 1));
            match parse_pat(secs[i].as_slice()) {
                Err(e) => {
                    self.failure = Some(e);
                },
                Ok(Some(p)) => {
                    self.program_pid = Some(p);
                },
                Ok(None) => {},
            }
            i = i + 1;
        }
        assert(views(secs@).skip(secs@.len() as int) =~= Seq::<Seq<u8>>::empty());
    }

    /// Parses completed PMT sections in order.
    fn apply_pmt_sections(&mut self, secs: Vec<Vec<u8>>)
        requires
            forall|i: int|
                0 <= i < secs@.len() ==> #[trigger] secs@[i]@.len() >= 3 && secs@[i]@.len()
                    == section_total(secs@[i]@),
        ensures
            *final(self) == (AdtsExtractor {
                audio_pid: final(self).audio_pid,
                failure: final(self).failure,
                ..*old(self)
            }),
            final(self).demux_core() == apply_pmt(old(self).demux_core(), views(secs@)),
    {
        let mut i: usize = 0;
        assert(views(secs@).skip(0) =~= views(secs@));
        while i < secs.len() && self.failure.is_none()
            invariant
                0 <= i <= secs@.len(),
                forall|i: int|
                    0 <= i < secs@.len() ==> #[trigger] secs@[i]@.len() >= 3 && secs@[i]@.len()
                        == section_total(secs@[i]@),
                *self == (AdtsExtractor {
                    audio_pid: self.audio_pid,
                    failure: self.failure,
                    ..*old(self)
                }),
                apply_pmt(self.demux_core(), views(secs@).skip(i as int)) == apply_pmt(
                    old(self).demux_core(),
                    views(secs@),
                ),
            decreases secs@.len() - i,
        {
            let ghost rest = views(secs@).skip(i as int);
            assert(rest[0] == secs@[i as int]@);
            assert(rest.skip(1) =~= views(secs@).skip(i + 1));
            match parse_pmt(secs[i].as_slice()) {
                Err(e) => {
                    self.failure = Some(e);
                },
                Ok(Some(p)) => {
                    self.audio_pid = Some(p);
                },
                Ok(None) => {},
            }
            i = i + 1;
        }
        assert(views(secs@).skip(secs@.len() as int) =~= Seq::<Seq<u8>>::empty());
    }

    /// Routes the payload of the current packet by its PID.
    fn dispatch_payload(&mut self, p: Vec<u8>)
        requires
            old(self).shape(),
            old(self).failure is None,
            !old(self).refused@,
            p@.len() <= 188,
        ensures
            final(self).shape(),
            final(self).same_packet(old(self)),
            !final(self).refused@ ==> final(self).demux_core() == dispatch(
                old(self).demux_core(),
                p@,
            ),
            final(self).refused@ || final(self).receiver != old(self).receiver ==> dispatch(
                old(self).demux_core(),
                p@,
            ).output.len() > old(self).demux_core().output.len(),
    {
        let is_pmt = match self.program_pid {
            Some(q) => q == self.pid,
            None => false,
        };
        let is_audio = match self.audio_pid {
            Some(q) => q == self.pid,
            None => false,
        };
        if self.pid == 0 {
            match receive_section_bytes(&mut self.pat_section, self.new_payload, p.as_slice()) {
                Err(e) => {
                    self.failure = Some(e);
                },
                Ok(secs) => {
                    self.apply_pat_sections(secs);
                },
            }
        } else if is_pmt {
            match receive_section_bytes(&mut self.pmt_section, self.new_payload, p.as_slice()) {
                Err(e) => {
                    self.failure = Some(e);
                },
                Ok(secs) => {
                    self.apply_pmt_sections(secs);
                },
            }
        } else if is_audio {
            match es_payload(self.new_payload, p.as_slice()) {
                Err(e) => {
                    self.failure = Some(e);
                },
                Ok(es) => {
                    if es.len() == 0 {
                        assert(self.emitted@ + es@ =~= self.emitted@);
                    } else {
                        let accepted = self.receiver.receive(es.as_slice());
                        match accepted {
                            Ok(()) => {
                                assert(self.received_before@ + (self.emitted@ + es@)
                                    =~= self.received_before@ + self.emitted@ + es@);
                                self.emitted = Ghost(self.emitted@ + es@);
                            },
                            Err(e) => {
                                self.failure = Some(e);
                                self.refused = Ghost(true);
                            },
                        }
                    }
                },
            }
        }
    }

    /// Checks a packet header and starts the packet it opens.
    fn on_header(&mut self, taken: Vec<u8>, Ghost(c): Ghost<DemuxCore>)
        requires
            c.state == AdtsState::Sync,
            taken@.len() == 4,
            old(self).demux_core() == (DemuxCore { pos: c.pos + 4, ..c }),
            old(self).failure is None,
        ensures
            *final(self) == (AdtsExtractor {
                state: final(self).state,
                pid: final(self).pid,
                has_payload: final(self).has_payload,
                new_payload: final(self).new_payload,
                failure: final(self).failure,
                ..*old(self)
            }),
            final(self).demux_core() == step_core(c, taken@),
            final(self).failure is None ==> final(self).state == AdtsState::AdaptationLength
                || final(self).state == AdtsState::Payload,
    {
        reveal(step_core);
        let h = taken.as_slice();
        if let Err(e) = expect_bits(h, 0, 8, 0x47, Field::Sync) {
            self.failure = Some(e);
            return ;
        }
        if let Err(e) = expect_bits(h, 8, 1, 0, Field::TransportError) {
            self.failure = Some(e);
            return ;
        }
        if let Err(e) = expect_bits(h, 24, 2, 0, Field::Scrambling) {
            self.failure = Some(e);
            return ;
        }
        let unit_start = read_bits(h, 9, 1);
        let pid = read_bits(h, 11, 13);
        let adaptation = read_bits(h, 26, 1);
        let payload = read_bits(h, 27, 1);
        proof {
            vstd::arithmetic::power2::lemma2_to64();
            lemma_bits_bound(h@, 11, 13);
        }
        self.new_payload = unit_start == 1;
        self.pid = pid as u16;
        self.has_payload = payload == 1;
        self.state = if adaptation == 1 {
            AdtsState::AdaptationLength
        } else {
            AdtsState::Payload
        };
    }

    /// Ends a packet: routes its payload, if it has one, and waits for the next.
    #[verifier::rlimit(40)]
    fn on_payload(&mut self, taken: Vec<u8>, Ghost(c): Ghost<DemuxCore>)
        requires
            c.state == AdtsState::Payload,
            c.pos + taken@.len() <= 188,
            old(self).demux_core() == (DemuxCore { pos: c.pos + taken@.len(), ..c }),
            old(self).failure is None,
            !old(self).refused@,
            old(self).pat_section@.len() <= 0x1000 + 3,
            old(self).pmt_section@.len() <= 0x1000 + 3,
            old(self).receiver.received() == old(self).received_before@ + old(self).emitted@,
        ensures
            final(self).shape(),
            final(self).buffer == old(self).buffer,
            final(self).history == old(self).history,
            final(self).received_before == old(self).received_before,
            final(self).state == AdtsState::Sync,
            !final(self).refused@ ==> final(self).demux_core() == step_core(c, taken@),
            final(self).refused@ || final(self).receiver != old(self).receiver ==> step_core(
                c,
                taken@,
            ).output.len() > c.output.len(),
    {
        reveal(step_core);
        if self.has_payload {
            self.dispatch_payload(taken);
        }
        self.reset();
    }

    /// Takes one step of the state machine, if the pending bytes allow it.
    fn advance_once(&mut self) -> (progressed: bool)
        requires
            old(self).shape(),
            old(self).failure is None,
            !old(self).refused@,
        ensures
            final(self).shape(),
            final(self).history == old(self).history,
            final(self).received_before == old(self).received_before,
            progressed == can_step(old(self).model()),
            !progressed ==> *final(self) == *old(self),
            progressed ==> measure(final(self).model()) < measure(old(self).model()),
            progressed && !final(self).refused@ ==> final(self).model() == step(old(self).model()),
            final(self).refused@ || final(self).receiver != old(self).receiver ==> progressed && step(
                old(self).model(),
            ).core.output.len() > old(self).model().core.output.len(),
    {
        let n: usize = match self.state {
            AdtsState::Sync => 4,
            AdtsState::AdaptationLength => 1,
            AdtsState::Adaptation { length } => length as usize,
            AdtsState::Payload => PACKET_LENGTH - self.pos,
        };
        let ghost m = self.model();
        assert(n == needed(m.core));
        let taken = match self.take(n) {
            None => {
                return false;
            },
            Some(t) => t,
        };
        proof {
            lemma_step_decreases(m);
        }
        let ghost c = m.core;
        assert(self.demux_core() == (DemuxCore { pos: c.pos + taken@.len(), ..c }));
        match self.state {
            AdtsState::Sync => {
                self.on_header(taken, Ghost(c));
                assert(self.shape());
            },
            AdtsState::AdaptationLength => {
                let length = taken[0];
                if self.pos + length as usize > PACKET_LENGTH {
                    self.failure = Some(
                        AdtsExtractorError::TooLong {
                            field: Field::AdaptationLength,
                            maximum: (PACKET_LENGTH - self.pos) as u32,
                            actual: length as u32,
                        },
                    );
                } else {
                    self.state = AdtsState::Adaptation { length };
                }
                proof {
                    reveal(step_core);
                }
                assert(self.shape());
            },
            AdtsState::Adaptation { .. } => {
                self.state = AdtsState::Payload;
                proof {
                    reveal(step_core);
                }
                assert(self.shape());
            },
            AdtsState::Payload => {
                self.on_payload(taken, Ghost(c));
            },
        }
        true
    }

    /// Feeds `data` to the session and runs it as far as the pending bytes
    /// allow. Too few bytes is no error: the next push goes on from there.
    pub fn push(&mut self, data: &[u8]) -> (r: Result<(), AdtsExtractorError>)
        requires
            old(self).wf(),
        ensures
            final(self).wf(),
            final(self).history() == old(self).history() + data@,
            old(self).refused() ==> final(self).refused(),
            !final(self).refused() ==> final(self).model() == feed(old(self).model(), data@),
            !old(self).refused() && final(self).refused() ==> feed(old(self).model(), data@).core.output.len()
                > old(self).model().core.output.len(),
            final(self).received_before() == old(self).received_before(),
            !final(self).refused() ==> final(self).receiver_spec().received()
                == final(self).received_before() + final(self).model().core.output,
            feed(old(self).model(), data@).core.output.len() == old(self).model().core.output.len()
                ==> final(self).receiver_spec() == old(self).receiver_spec() && final(self).refused()
                == old(self).refused(),
            r == match final(self).model().core.failure {
                None => Ok(()),
                Some(e) => Err::<(), AdtsExtractorError>(e),
            },
    {
        let mut i: usize = 0;
        while i < data.len()
            invariant
                i <= data@.len(),
                self.buffer@ == old(self).buffer@ + data@.take(i as int),
                *self == (AdtsExtractor { buffer: self.buffer, ..*old(self) }),
            decreases data@.len() - i,
        {
            self.buffer.push_back(data[i]);
            i = i + 1;
            assert(self.buffer@ =~= old(self).buffer@ + data@.take(i as int));
        }
        assert(data@.take(data@.len() as int) =~= data@);
        self.history = Ghost(old(self).history@ + data@);
        let ghost m0 = self.model();
        assert(m0 == DemuxModel { pending: old(self).model().pending + data@, ..old(self).model() });
        while self.failure.is_none()
            invariant
                self.shape(),
                self.history@ == old(self).history@ + data@,
                old(self).refused@ ==> self.refused@,
                !self.refused@ ==> advance(self.model()) == advance(m0),
                !self.refused@ ==> self.model().core.output.len() >= m0.core.output.len(),
                !old(self).refused@ && self.refused@ ==> advance(m0).core.output.len()
                    > m0.core.output.len(),
                self.receiver != old(self).receiver ==> advance(m0).core.output.len()
                    > m0.core.output.len(),
                self.received_before == old(self).received_before,
            ensures
                self.shape(),
                self.history@ == old(self).history@ + data@,
                old(self).refused@ ==> self.refused@,
                !self.refused@ ==> advance(self.model()) == advance(m0),
                !self.refused@ ==> !can_step(self.model()),
                !old(self).refused@ && self.refused@ ==> advance(m0).core.output.len()
                    > m0.core.output.len(),
                self.receiver != old(self).receiver ==> advance(m0).core.output.len()
                    > m0.core.output.len(),
                self.received_before == old(self).received_before,
            decreases measure(self.model()),
        {
            let ghost before = self.model();
            let ghost was_refused = self.refused@;
            let ghost was_receiver = self.receiver;
            if !self.advance_once() {
                break;
            }
            proof {
                if !was_refused {
                    assert(advance(before) == advance(step(before)));
                    lemma_step_output(before.core, before.pending.take(needed(before.core) as int));
                    if self.refused@ || self.receiver != was_receiver {
                        lemma_advance_output(step(before));
                    }
                }
            }
        }
        proof {
            if !self.refused@ {
                assert(!can_step(self.model()));
                assert(advance(self.model()) == self.model());
                if !old(self).refused@ {
                    lemma_feed_concat(feed(initial_model(), old(self).history@), Seq::empty(), Seq::empty());
                    lemma_feed_concat(initial_model(), old(self).history@, data@);
                }
            }
        }
        match self.failure {
            None => Ok(()),
            Some(e) => Err(e),
        }
    }

    /// Two sessions that were pushed the same bytes, however they were cut
    /// into pushes, and whose receivers took everything, are in the same state:
    /// the same tables, failure and output, and each receiver was handed that
    /// output after what it held before.
    pub proof fn lemma_same_bytes_same_stream<S: AdtsReceiver>(&self, other: &AdtsExtractor<S>)
        requires
            self.wf(),
            other.wf(),
            !self.refused(),
            !other.refused(),
            self.history() == other.history(),
        ensures
            self.model() == other.model(),
            self.receiver_spec().received() == self.received_before() + self.model().core.output,
            other.receiver_spec().received() == other.received_before() + self.model().core.output,
    {
    }

    /// PID of the AAC stream, once the program map table gave it.
    pub fn audio_pid(&self) -> (r: Option<u16>)
        ensures
            r == self.model().core.audio_pid,
    {
        self.audio_pid
    }

    /// PID of the program map table, once the PAT gave it.
    pub fn program_pid(&self) -> (r: Option<u16>)
        ensures
            r == self.model().core.program_pid,
    {
        self.program_pid
    }

    /// The receiver of the elementary stream.
    pub fn receiver(&self) -> (r: &R)
        ensures
            *r == self.receiver_spec(),
    {
        &self.receiver
    }
}

} // verus!
