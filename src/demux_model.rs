use crate::bits::{bits_at, lemma_bits_of_byte, lemma_bits_prefix};
use crate::error::{AdtsExtractorError, Field};
use crate::psi::{
    and_then, check_field, lemma_section_split_across_packets, parse_pat_spec, parse_pmt_spec,
    psi_receive, section_total,
};
use vstd::prelude::*;

verus! {

/// Where the demultiplexer stands inside the current transport packet.
#[derive(Clone, Copy, Debug, PartialEq, Eq, Structural)]
pub enum AdtsState {
    /// Waiting for the four header bytes.
    Sync,
    /// Waiting for the adaptation field's length byte.
    AdaptationLength,
    /// Waiting for the adaptation field's bytes, which are skipped.
    Adaptation { length: u8 },
    /// Waiting for the rest of the packet.
    Payload,
}

/// Everything a demultiplexing session holds but its pending bytes.
pub ghost struct DemuxCore {
    pub state: AdtsState,
    /// Bytes of the current packet taken so far.
    pub pos: nat,
    /// PID of the current packet.
    pub pid: u16,
    pub has_payload: bool,
    /// The current packet starts a unit (a section or a PES packet).
    pub new_payload: bool,
    /// PID of the program map table, once the PAT gave it.
    pub program_pid: Option<u16>,
    /// PID of the AAC stream, once the PMT gave it.
    pub audio_pid: Option<u16>,
    pub pat_section: Seq<u8>,
    pub pmt_section: Seq<u8>,
    /// Elementary stream bytes extracted so far.
    pub output: Seq<u8>,
    pub failure: Option<AdtsExtractorError>,
}

/// A session: its core and the bytes pushed but not yet taken.
pub ghost struct DemuxModel {
    pub core: DemuxCore,
    pub pending: Seq<u8>,
}

pub open spec fn initial_core() -> DemuxCore {
    DemuxCore {
        state: AdtsState::Sync,
        pos: 0,
        pid: 0,
        has_payload: false,
        new_payload: false,
        program_pid: None,
        audio_pid: None,
        pat_section: Seq::empty(),
        pmt_section: Seq::empty(),
        output: Seq::empty(),
        failure: None,
    }
}

pub open spec fn initial_model() -> DemuxModel {
    DemuxModel { core: initial_core(), pending: Seq::empty() }
}

/// How many bytes the current state waits for.
pub open spec fn needed(c: DemuxCore) -> nat {
    match c.state {
        AdtsState::Sync => 4,
        AdtsState::AdaptationLength => 1,
        AdtsState::Adaptation { length } => length as nat,
        AdtsState::Payload => (188 - c.pos) as nat,
    }
}

pub open spec fn can_step(m: DemuxModel) -> bool {
    m.core.failure is None && m.pending.len() >= needed(m.core)
}

pub open spec fn fail(c: DemuxCore, e: AdtsExtractorError) -> DemuxCore {
    DemuxCore { failure: Some(e), ..c }
}

/// The elementary stream bytes of one payload of the audio PID: a payload that
/// starts a PES packet loses the PES header.
pub open spec fn es_bytes(unit_start: bool, p: Seq<u8>) -> Result<Seq<u8>, AdtsExtractorError> {
    if !unit_start {
        Ok(p)
    } else if p.len() < 9 {
        Err(
            AdtsExtractorError::TooShort {
                field: Field::PesHeaderLength,
                minimum: 9,
                actual: p.len() as u32,
            },
        )
    } else {
        match check_field(p, 0, 24, 1, Field::PesStartCode) {
            Err(e) => Err(e),
            Ok(_) => if 9 + p[8] > p.len() {
                Err(
                    AdtsExtractorError::TooLong {
                        field: Field::PesHeaderLength,
                        maximum: (p.len() - 9) as u32,
                        actual: p[8] as u32,
                    },
                )
            } else {
                Ok(p.skip(9 + p[8]))
            },
        }
    }
}

/// Applies the completed PAT sections in order.
pub open spec fn apply_pat(c: DemuxCore, secs: Seq<Seq<u8>>) -> DemuxCore
    decreases secs.len(),
{
    if secs.len() == 0 || c.failure is Some {
        c
    } else {
        let next = match parse_pat_spec(secs[0]) {
            Err(e) => fail(c, e),
            Ok(Some(p)) => DemuxCore { program_pid: Some(p), ..c },
            Ok(None) => c,
        };
        apply_pat(next, secs.skip(1))
    }
}

/// Applies the completed PMT sections in order.
pub open spec fn apply_pmt(c: DemuxCore, secs: Seq<Seq<u8>>) -> DemuxCore
    decreases secs.len(),
{
    if secs.len() == 0 || c.failure is Some {
        c
    } else {
        let next = match parse_pmt_spec(secs[0]) {
            Err(e) => fail(c, e),
            Ok(Some(p)) => DemuxCore { audio_pid: Some(p), ..c },
            Ok(None) => c,
        };
        apply_pmt(next, secs.skip(1))
    }
}

/// Routes the payload `p` of the current packet by its PID: the PAT, the
/// program's map table, the audio stream, or nowhere.
pub open spec fn dispatch(c: DemuxCore, p: Seq<u8>) -> DemuxCore {
    if c.pid == 0 {
        match psi_receive(c.pat_section, c.new_payload, p) {
            Err(e) => fail(c, e),
            Ok((buf, secs)) => apply_pat(DemuxCore { pat_section: buf, ..c }, secs),
        }
    } else if c.program_pid == Some(c.pid) {
        match psi_receive(c.pmt_section, c.new_payload, p) {
            Err(e) => fail(c, e),
            Ok((buf, secs)) => apply_pmt(DemuxCore { pmt_section: buf, ..c }, secs),
        }
    } else if c.audio_pid == Some(c.pid) {
        match es_bytes(c.new_payload, p) {
            Err(e) => fail(c, e),
            Ok(es) => DemuxCore { output: c.output + es, ..c },
        }
    } else {
        c
    }
}

/// Checks of a packet header's fixed fields.
pub open spec fn header_checks(h: Seq<u8>) -> Result<(), AdtsExtractorError> {
    and_then(
        check_field(h, 0, 8, 0x47, Field::Sync),
        and_then(check_field(h, 8, 1, 0, Field::TransportError), check_field(h, 24, 2, 0, Field::Scrambling)),
    )
}

/// What the core becomes on the `taken` bytes that its state waited for. After
/// the adaptation field the packet runs on to its 188th byte whether it has a
/// payload or not, so that the next header is read at a packet boundary; only a
/// payload is routed.
#[verifier::opaque]
pub open spec fn step_core(c: DemuxCore, taken: Seq<u8>) -> DemuxCore {
    let c1 = DemuxCore { pos: c.pos + taken.len(), ..c };
    match c.state {
        AdtsState::Sync => match header_checks(taken) {
            Err(e) => fail(c1, e),
            Ok(_) => DemuxCore {
                state: if bits_at(taken, 26, 1) == 1 {
                    AdtsState::AdaptationLength
                } else {
                    AdtsState::Payload
                },
                new_payload: bits_at(taken, 9, 1) == 1,
                pid: bits_at(taken, 11, 13) as u16,
                has_payload: bits_at(taken, 27, 1) == 1,
                ..c1
            },
        },
        AdtsState::AdaptationLength => if c1.pos + taken[0] > 188 {
            fail(
                c1,
                AdtsExtractorError::TooLong {
                    field: Field::AdaptationLength,
                    maximum: (188 - c1.pos) as u32,
                    actual: taken[0] as u32,
                },
            )
        } else {
            DemuxCore { state: AdtsState::Adaptation { length: taken[0] }, ..c1 }
        },
        AdtsState::Adaptation { .. } => DemuxCore { state: AdtsState::Payload, ..c1 },
        AdtsState::Payload => {
            let c2 = if c.has_payload {
                dispatch(c1, taken)
            } else {
                c1
            };
            DemuxCore {
                state: AdtsState::Sync,
                pos: 0,
                has_payload: false,
                new_payload: false,
                ..c2
            }
        },
    }
}

pub open spec fn step(m: DemuxModel) -> DemuxModel {
    let n = needed(m.core) as int;
    DemuxModel { core: step_core(m.core, m.pending.take(n)), pending: m.pending.skip(n) }
}

pub open spec fn rank(s: AdtsState) -> nat {
    match s {
        AdtsState::Sync => 0,
        AdtsState::Payload => 1,
        AdtsState::Adaptation { .. } => 2,
        AdtsState::AdaptationLength => 3,
    }
}

pub open spec fn measure(m: DemuxModel) -> nat {
    4 * m.pending.len() + rank(m.core.state)
}

pub proof fn lemma_step_decreases(m: DemuxModel)
    requires
        can_step(m),
    ensures
        measure(step(m)) < measure(m),
{
    reveal(step_core);
    let s = step(m);
    assert(s.pending.len() == m.pending.len() - needed(m.core));
}

/// Takes every step that the pending bytes allow.
pub open spec fn advance(m: DemuxModel) -> DemuxModel
    decreases measure(m),
{
    if can_step(m) {
        proof {
            lemma_step_decreases(m);
        }
        advance(step(m))
    } else {
        m
    }
}

/// A session after `data` was pushed into it.
pub open spec fn feed(m: DemuxModel, data: Seq<u8>) -> DemuxModel {
    advance(DemuxModel { pending: m.pending + data, ..m })
}

/// A session after the chunks `cs` were pushed into it one after the other.
pub open spec fn feed_all(m: DemuxModel, cs: Seq<Seq<u8>>) -> DemuxModel
    decreases cs.len(),
{
    if cs.len() == 0 {
        advance(m)
    } else {
        feed_all(feed(m, cs[0]), cs.drop_first())
    }
}

/// Bytes that arrive later do not change the steps taken on earlier ones.
proof fn lemma_advance_append(m: DemuxModel, x: Seq<u8>)
    ensures
        advance(DemuxModel { pending: m.pending + x, ..m }) == advance(
            DemuxModel { pending: advance(m).pending + x, ..advance(m) },
        ),
    decreases measure(m),
{
    if can_step(m) {
        let n = needed(m.core) as int;
        let mx = DemuxModel { pending: m.pending + x, ..m };
        assert((m.pending + x).take(n) =~= m.pending.take(n));
        assert((m.pending + x).skip(n) =~= m.pending.skip(n) + x);
        assert(step(mx) == DemuxModel { pending: step(m).pending + x, ..step(m) });
        lemma_step_decreases(m);
        lemma_advance_append(step(m), x);
    }
}

/// Pushing `a` and then `b` leaves a session as pushing `a + b` at once does.
pub proof fn lemma_feed_concat(m: DemuxModel, a: Seq<u8>, b: Seq<u8>)
    ensures
        feed(feed(m, a), b) == feed(m, a + b),
{
    let ma = DemuxModel { pending: m.pending + a, ..m };
    lemma_advance_append(ma, b);
    assert(m.pending + a + b =~= m.pending + (a + b));
}

/// However a byte sequence is cut into pushes, the session ends the same as
/// after one push of the whole sequence: the same elementary stream output,
/// tables, state and failure.
pub proof fn lemma_chunking_invariance(m: DemuxModel, cs: Seq<Seq<u8>>)
    ensures
        feed_all(m, cs) == feed(m, cs.flatten()),
    decreases cs.len(),
{
    if cs.len() == 0 {
        assert(m.pending + Seq::<u8>::empty() =~= m.pending);
        assert(DemuxModel { pending: m.pending + Seq::<u8>::empty(), ..m } == m);
    } else {
        lemma_chunking_invariance(feed(m, cs[0]), cs.drop_first());
        lemma_feed_concat(m, cs[0], cs.drop_first().flatten());
        assert(cs.flatten() == cs[0] + cs.drop_first().flatten());
    }
}

/// A failed session takes no more steps: pushing more leaves its failure, its
/// tables and its output as they were.
pub proof fn lemma_failure_sticks(m: DemuxModel, data: Seq<u8>)
    requires
        m.core.failure is Some,
    ensures
        feed(m, data).core == m.core,
{
}

/// A packet whose first byte is not the sync byte 0x47 fails the session as
/// soon as its four header bytes are there, with an error that names the sync
/// field and the byte found; the failure then stays, whatever is pushed next.
pub proof fn lemma_bad_sync_fails(m: DemuxModel, data: Seq<u8>, more: Seq<u8>)
    requires
        m.core.failure is None,
        m.core.state == AdtsState::Sync,
        (m.pending + data).len() >= 4,
        (m.pending + data)[0] != 0x47,
    ensures
        feed(m, data).core.failure == Some(
            AdtsExtractorError::InvalidData {
                field: Field::Sync,
                expected: 0x47,
                actual: (m.pending + data)[0] as u32,
            },
        ),
        feed(feed(m, data), more).core.failure == feed(m, data).core.failure,
{
    lemma_bits_of_byte(m.pending + data, 0);
    reveal(step_core);
    let p = m.pending + data;
    let mp = DemuxModel { pending: p, ..m };
    lemma_bits_prefix(p.take(4), p, 0, 8);
    assert(can_step(mp));
    assert(step(mp).core.failure is Some);
    assert(advance(step(mp)) == step(mp));
    lemma_failure_sticks(feed(m, data), more);
}

proof fn lemma_apply_pat_output(c: DemuxCore, secs: Seq<Seq<u8>>)
    ensures
        apply_pat(c, secs).output == c.output,
    decreases secs.len(),
{
    if secs.len() > 0 && c.failure is None {
        let next = match parse_pat_spec(secs[0]) {
            Err(e) => fail(c, e),
            Ok(Some(p)) => DemuxCore { program_pid: Some(p), ..c },
            Ok(None) => c,
        };
        lemma_apply_pat_output(next, secs.skip(1));
    }
}

proof fn lemma_apply_pmt_output(c: DemuxCore, secs: Seq<Seq<u8>>)
    ensures
        apply_pmt(c, secs).output == c.output,
    decreases secs.len(),
{
    if secs.len() > 0 && c.failure is None {
        let next = match parse_pmt_spec(secs[0]) {
            Err(e) => fail(c, e),
            Ok(Some(p)) => DemuxCore { audio_pid: Some(p), ..c },
            Ok(None) => c,
        };
        lemma_apply_pmt_output(next, secs.skip(1));
    }
}

/// A step only ever appends to the output.
pub proof fn lemma_step_output(c: DemuxCore, taken: Seq<u8>)
    ensures
        step_core(c, taken).output.len() >= c.output.len(),
        c.output == step_core(c, taken).output.take(c.output.len() as int),
{
    reveal(step_core);
    let c1 = DemuxCore { pos: c.pos + taken.len(), ..c };
    if c.state == AdtsState::Payload && c.has_payload {
        if c1.pid == 0 {
            if let Ok((buf, secs)) = psi_receive(c1.pat_section, c1.new_payload, taken) {
                lemma_apply_pat_output(DemuxCore { pat_section: buf, ..c1 }, secs);
            }
        } else if c1.program_pid == Some(c1.pid) {
            if let Ok((buf, secs)) = psi_receive(c1.pmt_section, c1.new_payload, taken) {
                lemma_apply_pmt_output(DemuxCore { pmt_section: buf, ..c1 }, secs);
            }
        }
    }
    assert(c.output =~= step_core(c, taken).output.take(c.output.len() as int));
}

/// Advancing a session only ever appends to its output.
pub proof fn lemma_advance_output(m: DemuxModel)
    ensures
        advance(m).core.output.len() >= m.core.output.len(),
    decreases measure(m),
{
    if can_step(m) {
        lemma_step_decreases(m);
        lemma_step_output(m.core, m.pending.take(needed(m.core) as int));
        lemma_advance_output(step(m));
    }
}

/// The program PID and failure after applying PAT sections to a core that had
/// `pp` and `f`.
pub open spec fn pat_result(pp: Option<u16>, f: Option<AdtsExtractorError>, secs: Seq<Seq<u8>>) -> (
    Option<u16>,
    Option<AdtsExtractorError>,
)
    decreases secs.len(),
{
    if secs.len() == 0 || f is Some {
        (pp, f)
    } else {
        match parse_pat_spec(secs[0]) {
            Err(e) => pat_result(pp, Some(e), secs.skip(1)),
            Ok(Some(p)) => pat_result(Some(p), f, secs.skip(1)),
            Ok(None) => pat_result(pp, f, secs.skip(1)),
        }
    }
}

/// Applying PAT sections changes only the program PID and the failure.
proof fn lemma_apply_pat_result(c: DemuxCore, secs: Seq<Seq<u8>>)
    ensures
        apply_pat(c, secs) == (DemuxCore {
            program_pid: pat_result(c.program_pid, c.failure, secs).0,
            failure: pat_result(c.program_pid, c.failure, secs).1,
            ..c
        }),
    decreases secs.len(),
{
    if secs.len() > 0 && c.failure is None {
        let next = match parse_pat_spec(secs[0]) {
            Err(e) => fail(c, e),
            Ok(Some(p)) => DemuxCore { program_pid: Some(p), ..c },
            Ok(None) => c,
        };
        lemma_apply_pat_result(next, secs.skip(1));
    }
}

/// Applying two runs of PAT sections is applying them in one run.
proof fn lemma_pat_result_concat(
    pp: Option<u16>,
    f: Option<AdtsExtractorError>,
    a: Seq<Seq<u8>>,
    b: Seq<Seq<u8>>,
)
    ensures
        pat_result(pat_result(pp, f, a).0, pat_result(pp, f, a).1, b) == pat_result(pp, f, a + b),
    decreases a.len(),
{
    if a.len() == 0 {
        assert(a + b =~= b);
    } else if f is None {
        assert((a + b)[0] == a[0]);
        assert((a + b).skip(1) =~= a.skip(1) + b);
        match parse_pat_spec(a[0]) {
            Err(e) => lemma_pat_result_concat(pp, Some(e), a.skip(1), b),
            Ok(Some(p)) => lemma_pat_result_concat(Some(p), f, a.skip(1), b),
            Ok(None) => lemma_pat_result_concat(pp, f, a.skip(1), b),
        }
    } else {
        if b.len() > 0 {
            assert(pat_result(pp, f, b) == (pp, f));
        }
        assert(pat_result(pp, f, a + b) == (pp, f));
    }
}

/// Through the demultiplexer's routing: a PAT section whose bytes come in a
/// PID 0 packet that starts it and the PID 0 packet that follows leaves the
/// session with the same program PID, section in flight, failure and output as
/// when one PID 0 packet carries it whole.
#[verifier::rlimit(40)]
pub proof fn lemma_pat_split_through_routing(c: DemuxCore, s: Seq<u8>, k: int, t: Seq<u8>)
    requires
        c.pid == 0,
        s.len() >= 3,
        s.len() == section_total(s),
        0 < k < s.len(),
    ensures
        ({
            let whole = dispatch(DemuxCore { new_payload: true, ..c }, seq![0u8] + s + t);
            let first = dispatch(DemuxCore { new_payload: true, ..c }, seq![0u8] + s.take(k));
            let second = dispatch(DemuxCore { new_payload: false, ..first }, s.skip(k) + t);
            &&& second.program_pid == whole.program_pid
            &&& second.pat_section == whole.pat_section
            &&& second.failure == whole.failure
            &&& second.output == whole.output
        }),
{
    lemma_section_split_across_packets(c.pat_section, s, k, t);
    let c0 = DemuxCore { new_payload: true, ..c };
    let (buf1, secs1) = psi_receive(c.pat_section, true, seq![0u8] + s.take(k))->Ok_0;
    let (bufw, secsw) = psi_receive(c.pat_section, true, seq![0u8] + s + t)->Ok_0;
    let (buf2, secs2) = psi_receive(buf1, false, s.skip(k) + t)->Ok_0;
    let pp = c.program_pid;
    let f = c.failure;
    let r1 = pat_result(pp, f, secs1);
    lemma_apply_pat_result(DemuxCore { pat_section: buf1, ..c0 }, secs1);
    lemma_apply_pat_result(DemuxCore { pat_section: bufw, ..c0 }, secsw);
    let first = dispatch(c0, seq![0u8] + s.take(k));
    assert(first == DemuxCore { pat_section: buf1, program_pid: r1.0, failure: r1.1, ..c0 });
    let c2 = DemuxCore { new_payload: false, ..first };
    lemma_apply_pat_result(DemuxCore { pat_section: buf2, ..c2 }, secs2);
    lemma_pat_result_concat(pp, f, secs1, secs2);
}

} // verus!
