use sounds_proxy::error::{AdtsExtractorError, Field};
use sounds_proxy::mpegts::{es_payload, AdtsExtractor, AdtsReceiver, VecReceiver, PACKET_LENGTH};
use sounds_proxy::psi::{parse_pat, parse_pmt, receive_section_bytes};

struct Collect {
    bytes: Vec<u8>,
    calls: usize,
}

impl AdtsReceiver for Collect {
    fn receive(&mut self, data: &[u8]) -> Result<(), AdtsExtractorError> {
        self.bytes.extend_from_slice(data);
        self.calls += 1;
        Ok(())
    }
}

struct Refuse;

impl AdtsReceiver for Refuse {
    fn receive(&mut self, _data: &[u8]) -> Result<(), AdtsExtractorError> {
        Err(AdtsExtractorError::Rejected)
    }
}

const PMT_PID: u16 = 0x1000;
const AUDIO_PID: u16 = 0x0100;

fn packet(pid: u16, unit_start: bool, payload: &[u8]) -> Vec<u8> {
    assert!(payload.len() <= 184);
    let mut p = vec![0x47, ((unit_start as u8) << 6) | (pid >> 8) as u8, (pid & 0xff) as u8];
    if payload.len() == 184 {
        p.push(0x10);
    } else {
        // adaptation field of stuffing, then the payload
        p.push(0x30);
        let length = 183 - payload.len();
        p.push(length as u8);
        if length > 0 {
            p.push(0x00);
            p.extend(std::iter::repeat(0xff).take(length - 1));
        }
    }
    p.extend_from_slice(payload);
    assert_eq!(p.len(), PACKET_LENGTH);
    p
}

fn psi_packet(pid: u16, section: &[u8]) -> Vec<u8> {
    let mut payload = vec![0u8];
    payload.extend_from_slice(section);
    payload.resize(184, 0xff);
    packet(pid, true, &payload)
}

/// A PAT with the network PID entry first, then program 1 on `PMT_PID`.
fn pat_section() -> Vec<u8> {
    vec![
        0x00, 0xB0, 17, 0x00, 0x01, 0xC1, 0x00, 0x00, // header
        0x00, 0x00, 0xE0, 0x10, // program 0: network PID 0x0010
        0x00, 0x01, 0xE0 | (PMT_PID >> 8) as u8, (PMT_PID & 0xff) as u8, // program 1
        0xDE, 0xAD, 0xBE, 0xEF, // CRC
    ]
}

fn pmt_section() -> Vec<u8> {
    vec![
        0x02, 0xB0, 23, 0x00, 0x01, 0xC1, 0x00, 0x00, // header
        0xE1, 0x00, 0xF0, 0x00, // PCR PID, no program info
        0x1B, 0xE2, 0x00, 0xF0, 0x00, // a video stream on 0x200
        0x0F, 0xE0 | (AUDIO_PID >> 8) as u8, (AUDIO_PID & 0xff) as u8, 0xF0, 0x00, // AAC
        0xDE, 0xAD, 0xBE, 0xEF, // CRC
    ]
}

fn es_data(n: usize, seed: u8) -> Vec<u8> {
    (0..n).map(|i| (i as u8).wrapping_mul(7).wrapping_add(seed)).collect()
}

/// PAT, PMT, then two audio packets: one starting a PES packet, one continuing it.
fn stream() -> (Vec<u8>, Vec<u8>) {
    let mut ts = Vec::new();
    ts.extend(psi_packet(0, &pat_section()));
    ts.extend(psi_packet(PMT_PID, &pmt_section()));
    let mut pes = vec![0x00, 0x00, 0x01, 0xC0, 0x00, 0x00, 0x80, 0x80, 0x05, 1, 2, 3, 4, 5];
    let first = es_data(184 - pes.len(), 3);
    pes.extend_from_slice(&first);
    ts.extend(packet(AUDIO_PID, true, &pes));
    let second = es_data(184, 11);
    ts.extend(packet(AUDIO_PID, false, &second));
    // a packet of another PID is passed over
    ts.extend(packet(0x0200, false, &es_data(184, 99)));
    let mut expected = first;
    expected.extend(second);
    (ts, expected)
}

fn run_in_pieces(ts: &[u8], piece: usize) -> AdtsExtractor<Collect> {
    let mut ex = AdtsExtractor::new(Collect { bytes: Vec::new(), calls: 0 });
    for chunk in ts.chunks(piece) {
        ex.push(chunk).unwrap();
    }
    ex
}

#[test]
fn extracts_the_aac_stream() {
    let (ts, expected) = stream();
    let ex = run_in_pieces(&ts, ts.len());
    assert_eq!(ex.program_pid(), Some(PMT_PID));
    assert_eq!(ex.audio_pid(), Some(AUDIO_PID));
    assert_eq!(ex.receiver().bytes, expected);
    assert_eq!(ex.receiver().calls, 2);
}

#[test]
fn network_pid_is_not_taken_for_the_program() {
    let (ts, _) = stream();
    let ex = run_in_pieces(&ts, PACKET_LENGTH);
    assert_ne!(ex.program_pid(), Some(0x0010));
    assert_eq!(ex.program_pid(), Some(PMT_PID));
}

#[test]
fn chunking_does_not_change_the_output() {
    let (ts, expected) = stream();
    for piece in [1usize, 2, 3, 4, 5, 7, 100, 187, 188, 189, 1000] {
        let ex = run_in_pieces(&ts, piece);
        assert_eq!(ex.receiver().bytes, expected, "pieces of {}", piece);
        assert_eq!(ex.audio_pid(), Some(AUDIO_PID));
    }
}

#[test]
fn empty_push_is_no_error() {
    let mut ex = AdtsExtractor::new(Collect { bytes: Vec::new(), calls: 0 });
    assert!(ex.push(&[]).is_ok());
    assert!(ex.push(&[0x47, 0x00]).is_ok());
    assert_eq!(ex.receiver().calls, 0);
}

#[test]
fn pat_split_over_two_packets() {
    let section = pat_section();
    // first packet: pointer and the first 8 bytes, behind a long adaptation field
    let mut first = vec![0u8];
    first.extend_from_slice(&section[..8]);
    let mut second = section[8..].to_vec();
    second.resize(184, 0xff);
    let mut split = Vec::new();
    split.extend(packet(0, true, &first));
    split.extend(packet(0, false, &second));
    let whole = psi_packet(0, &section);

    let a = run_in_pieces(&split, split.len());
    let b = run_in_pieces(&whole, whole.len());
    assert_eq!(a.program_pid(), Some(PMT_PID));
    assert_eq!(a.program_pid(), b.program_pid());
}

#[test]
fn invalid_sync_byte_is_malformed_input() {
    let (mut ts, _) = stream();
    ts[0] = 0x48;
    let mut ex = AdtsExtractor::new(Collect { bytes: Vec::new(), calls: 0 });
    let expected = AdtsExtractorError::InvalidData { field: Field::Sync, expected: 0x47, actual: 0x48 };
    assert_eq!(ex.push(&ts), Err(expected));
    // the session stays failed, and returns at once
    assert_eq!(ex.push(&ts), Err(expected));
    assert_eq!(ex.receiver().calls, 0);
}

#[test]
fn invalid_sync_byte_after_good_packets() {
    let (mut ts, _) = stream();
    ts[2 * PACKET_LENGTH] = 0x00;
    let mut ex = AdtsExtractor::new(Collect { bytes: Vec::new(), calls: 0 });
    let r = ex.push(&ts);
    assert_eq!(r, Err(AdtsExtractorError::InvalidData { field: Field::Sync, expected: 0x47, actual: 0 }));
    assert_eq!(ex.audio_pid(), Some(AUDIO_PID));
}

#[test]
fn scrambled_packet_is_refused() {
    let mut p = psi_packet(0, &pat_section());
    p[3] |= 0x80;
    let mut ex = AdtsExtractor::new(Collect { bytes: Vec::new(), calls: 0 });
    assert_eq!(
        ex.push(&p),
        Err(AdtsExtractorError::InvalidData { field: Field::Scrambling, expected: 0, actual: 2 })
    );
}

#[test]
fn transport_error_flag_is_refused() {
    let mut p = psi_packet(0, &pat_section());
    p[1] |= 0x80;
    let mut ex = AdtsExtractor::new(Collect { bytes: Vec::new(), calls: 0 });
    assert_eq!(
        ex.push(&p),
        Err(AdtsExtractorError::InvalidData { field: Field::TransportError, expected: 0, actual: 1 })
    );
}

#[test]
fn adaptation_field_too_long() {
    let mut p = vec![0x47, 0x40, 0x00, 0x30, 184];
    p.resize(PACKET_LENGTH, 0xff);
    let mut ex = AdtsExtractor::new(Collect { bytes: Vec::new(), calls: 0 });
    assert_eq!(
        ex.push(&p),
        Err(AdtsExtractorError::TooLong { field: Field::AdaptationLength, maximum: 183, actual: 184 })
    );
}

#[test]
fn pat_with_wrong_reserved_bits() {
    let mut section = pat_section();
    section[1] = 0x80; // reserved bits 00 instead of 11
    let mut ex = AdtsExtractor::new(Collect { bytes: Vec::new(), calls: 0 });
    assert_eq!(
        ex.push(&psi_packet(0, &section)),
        Err(AdtsExtractorError::InvalidData { field: Field::Reserved, expected: 3, actual: 0 })
    );
}

#[test]
fn pointer_field_past_the_payload() {
    let mut payload = vec![200u8];
    payload.resize(184, 0xff);
    let mut ex = AdtsExtractor::new(Collect { bytes: Vec::new(), calls: 0 });
    assert_eq!(
        ex.push(&packet(0, true, &payload)),
        Err(AdtsExtractorError::TooLong { field: Field::PointerField, maximum: 183, actual: 200 })
    );
}

#[test]
fn refused_stream_fails_the_session() {
    let (ts, _) = stream();
    let mut ex = AdtsExtractor::new(Refuse);
    assert_eq!(ex.push(&ts), Err(AdtsExtractorError::Rejected));
    assert_eq!(ex.push(&[]), Err(AdtsExtractorError::Rejected));
}

#[test]
fn parse_pat_gives_first_real_program() {
    assert_eq!(parse_pat(&pat_section()), Ok(Some(PMT_PID)));
    let mut only_network = pat_section();
    only_network[2] = 13;
    only_network.truncate(16);
    assert_eq!(parse_pat(&only_network), Ok(None));
}

#[test]
fn parse_pat_checks_table_id() {
    let mut s = pat_section();
    s[0] = 0x02;
    assert_eq!(
        parse_pat(&s),
        Err(AdtsExtractorError::InvalidData { field: Field::TableId, expected: 0, actual: 2 })
    );
}

#[test]
fn parse_pat_short_section_length() {
    let s = vec![0x00, 0xB0, 5, 0, 0, 0, 0, 0];
    assert_eq!(
        parse_pat(&s),
        Err(AdtsExtractorError::TooShort { field: Field::SectionLength, minimum: 9, actual: 5 })
    );
}

#[test]
fn parse_pmt_finds_aac_stream() {
    assert_eq!(parse_pmt(&pmt_section()), Ok(Some(AUDIO_PID)));
    let mut s = pmt_section();
    s[17] = 0x03; // MPEG audio, not AAC
    assert_eq!(parse_pmt(&s), Ok(None));
}

#[test]
fn parse_pmt_es_info_past_the_end() {
    let mut s = pmt_section();
    s[16] = 50;
    assert_eq!(
        parse_pmt(&s),
        Err(AdtsExtractorError::TooLong { field: Field::EsInfoLength, maximum: 5, actual: 50 })
    );
}

#[test]
fn section_bytes_reassembled() {
    let section = pat_section();
    let mut buf = Vec::new();
    let mut first = vec![0u8];
    first.extend_from_slice(&section[..5]);
    assert_eq!(receive_section_bytes(&mut buf, true, &first).unwrap().len(), 0);
    assert_eq!(buf, section[..5].to_vec());
    let mut rest = section[5..].to_vec();
    rest.extend([0xff, 0xff]);
    let done = receive_section_bytes(&mut buf, false, &rest).unwrap();
    assert_eq!(done, vec![section.clone()]);
    assert!(buf.is_empty());
}

#[test]
fn continuation_without_section_is_dropped() {
    let mut buf = Vec::new();
    let done = receive_section_bytes(&mut buf, false, &[1, 2, 3]).unwrap();
    assert!(done.is_empty());
    assert!(buf.is_empty());
}

#[test]
fn pes_header_is_stripped() {
    let p = [0, 0, 1, 0xC0, 0, 0, 0x80, 0x80, 2, 9, 9, 42, 43];
    assert_eq!(es_payload(true, &p), Ok(vec![42, 43]));
    assert_eq!(es_payload(false, &p), Ok(p.to_vec()));
    let bad = [0, 0, 2, 0xC0, 0, 0, 0x80, 0x80, 0];
    assert_eq!(
        es_payload(true, &bad),
        Err(AdtsExtractorError::InvalidData { field: Field::PesStartCode, expected: 1, actual: 2 })
    );
    assert_eq!(
        es_payload(true, &[0, 0, 1]),
        Err(AdtsExtractorError::TooShort { field: Field::PesHeaderLength, minimum: 9, actual: 3 })
    );
}

#[test]
fn pat_split_over_three_packets() {
    let section = pat_section();
    let mut first = vec![0u8];
    first.extend_from_slice(&section[..2]);
    let middle = section[2..9].to_vec();
    let mut last = section[9..].to_vec();
    last.resize(184, 0xff);
    let mut ts = Vec::new();
    ts.extend(packet(0, true, &first));
    ts.extend(packet(0, false, &middle));
    ts.extend(packet(0, false, &last));
    for piece in [1usize, 188, ts.len()] {
        let ex = run_in_pieces(&ts, piece);
        assert_eq!(ex.program_pid(), Some(PMT_PID));
    }
}

#[test]
fn section_tail_before_pointer_completes_previous() {
    let section = pat_section();
    let mut buf = Vec::new();
    let mut first = vec![0u8];
    first.extend_from_slice(&section[..10]);
    receive_section_bytes(&mut buf, true, &first).unwrap();
    // the next unit starts after the rest of the previous section
    let rest = &section[10..];
    let mut second = vec![rest.len() as u8];
    second.extend_from_slice(rest);
    second.extend_from_slice(&section[..4]);
    let done = receive_section_bytes(&mut buf, true, &second).unwrap();
    assert_eq!(done, vec![section.clone()]);
    assert_eq!(buf, section[..4].to_vec());
}

#[test]
fn vec_receiver_keeps_the_stream() {
    let (ts, expected) = stream();
    let mut ex = AdtsExtractor::new(VecReceiver::new());
    for chunk in ts.chunks(61) {
        ex.push(chunk).unwrap();
    }
    assert_eq!(ex.receiver().bytes, expected);
}

#[test]
fn bad_sync_leaves_receiver_untouched() {
    let mut ex = AdtsExtractor::new(VecReceiver::new());
    assert_eq!(
        ex.push(&[0u8; PACKET_LENGTH]),
        Err(AdtsExtractorError::InvalidData { field: Field::Sync, expected: 0x47, actual: 0 })
    );
    assert!(ex.receiver().bytes.is_empty());
}
