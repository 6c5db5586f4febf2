use crate::bits::{bits_at, lemma_bits_bound, lemma_bits_prefix, read_bits};
use crate::error::{AdtsExtractorError, Field};
use vstd::prelude::*;

verus! {

/// Stream type of an AAC audio stream in ADTS framing.
pub const STREAM_TYPE_ADTS_AAC: u32 = 0x0F;

/// `Ok` when the `n` bits at `pos` hold `expected`, else the error naming `field`.
pub open spec fn check_field(s: Seq<u8>, pos: int, n: nat, expected: nat, field: Field) -> Result<
    (),
    AdtsExtractorError,
> {
    if bits_at(s, pos, n) == expected {
        Ok(())
    } else {
        Err(
            AdtsExtractorError::InvalidData {
                field,
                expected: expected as u32,
                actual: bits_at(s, pos, n) as u32,
            },
        )
    }
}

/// The first of two checks that fails, if one does.
pub open spec fn and_then(a: Result<(), AdtsExtractorError>, b: Result<(), AdtsExtractorError>) -> Result<
    (),
    AdtsExtractorError,
> {
    match a {
        Ok(_) => b,
        Err(e) => Err(e),
    }
}

/// Total length of the section that starts `b`: three header bytes and the
/// declared section length.
pub open spec fn section_total(b: Seq<u8>) -> nat {
    3 + bits_at(b, 12, 12)
}

pub open spec fn section_complete(b: Seq<u8>) -> bool {
    b.len() >= 3 && b.len() >= section_total(b)
}

/// Closes the section held in `b` once all its bytes are there: the buffer is
/// emptied and the section, without what follows it, comes out.
pub open spec fn close_section(b: Seq<u8>) -> (Seq<u8>, Option<Seq<u8>>) {
    if section_complete(b) {
        (Seq::empty(), Some(b.take(section_total(b) as int)))
    } else {
        (b, None)
    }
}

pub open spec fn opt_seq(o: Option<Seq<u8>>) -> Seq<Seq<u8>> {
    match o {
        Some(s) => seq![s],
        None => Seq::empty(),
    }
}

/// What one packet payload of a table PID does to the section in flight `buf`:
/// the new buffer and the sections it completed, in order. With the unit start
/// flag the first byte points past the end of the previous section, whose
/// last bytes come first.
pub open spec fn psi_receive(buf: Seq<u8>, unit_start: bool, payload: Seq<u8>) -> Result<
    (Seq<u8>, Seq<Seq<u8>>),
    AdtsExtractorError,
> {
    if unit_start {
        if payload.len() == 0 {
            Err(AdtsExtractorError::TooShort { field: Field::PointerField, minimum: 1, actual: 0 })
        } else if 1 + payload[0] > payload.len() {
            Err(
                AdtsExtractorError::TooLong {
                    field: Field::PointerField,
                    maximum: (payload.len() - 1) as u32,
                    actual: payload[0] as u32,
                },
            )
        } else {
            let tail = payload.subrange(1, 1 + payload[0]);
            let head = payload.subrange(1 + payload[0], payload.len() as int);
            let done_prev = if buf.len() > 0 {
                close_section(buf + tail).1
            } else {
                None
            };
            let (next, done_new) = close_section(head);
            Ok((next, opt_seq(done_prev) + opt_seq(done_new)))
        }
    } else if buf.len() > 0 {
        let (next, done) = close_section(buf + payload);
        Ok((next, opt_seq(done)))
    } else {
        Ok((buf, Seq::empty()))
    }
}

/// Checks of a PAT section's header.
pub open spec fn pat_header(s: Seq<u8>) -> Result<(), AdtsExtractorError> {
    and_then(
        check_field(s, 0, 8, 0x00, Field::TableId),
        and_then(
            check_field(s, 8, 1, 1, Field::SectionSyntax),
            and_then(
                check_field(s, 9, 1, 0, Field::PrivateBit),
                and_then(
                    check_field(s, 10, 2, 3, Field::Reserved),
                    and_then(
                        check_field(s, 12, 2, 0, Field::SectionLength),
                        if bits_at(s, 12, 12) < 9 {
                            Err(
                                AdtsExtractorError::TooShort {
                                    field: Field::SectionLength,
                                    minimum: 9,
                                    actual: bits_at(s, 12, 12) as u32,
                                },
                            )
                        } else {
                            check_field(s, 40, 2, 3, Field::Reserved)
                        },
                    ),
                ),
            ),
        ),
    )
}

/// The PMT PID of the first program with a non-zero number among the PAT
/// entries from byte `off` to byte `end`. Program number zero names the
/// network information PID and is passed over.
pub open spec fn pat_scan(s: Seq<u8>, off: nat, end: nat) -> Result<Option<u16>, AdtsExtractorError>
    decreases end - off,
{
    if off + 4 > end {
        Ok(None)
    } else {
        match check_field(s, 8 * off as int + 16, 3, 7, Field::Reserved) {
            Err(e) => Err(e),
            Ok(_) => {
                let rest = pat_scan(s, off + 4, end);
                if bits_at(s, 8 * off as int, 16) != 0 && rest is Ok {
                    Ok(Some(bits_at(s, 8 * off as int + 19, 13) as u16))
                } else {
                    rest
                }
            },
        }
    }
}

/// What a complete PAT section says: the PMT PID of its first program, if any.
pub open spec fn parse_pat_spec(s: Seq<u8>) -> Result<Option<u16>, AdtsExtractorError> {
    match pat_header(s) {
        Err(e) => Err(e),
        Ok(_) => pat_scan(s, 8, (s.len() - 4) as nat),
    }
}

/// Merges a PID found earlier in a scan with what the rest of the scan gives.
pub open spec fn keep_first(
    found: Option<u16>,
    rest: Result<Option<u16>, AdtsExtractorError>,
) -> Result<Option<u16>, AdtsExtractorError> {
    match found {
        Some(p) => match rest {
            Ok(_) => Ok(Some(p)),
            Err(e) => Err(e),
        },
        None => rest,
    }
}

/// Checks of a PMT section's header.
pub open spec fn pmt_header(s: Seq<u8>) -> Result<(), AdtsExtractorError> {
    and_then(
        check_field(s, 0, 8, 0x02, Field::TableId),
        and_then(
            check_field(s, 8, 1, 1, Field::SectionSyntax),
            and_then(
                check_field(s, 9, 1, 0, Field::PrivateBit),
                and_then(
                    check_field(s, 10, 2, 3, Field::Reserved),
                    and_then(
                        check_field(s, 12, 2, 0, Field::SectionLength),
                        if bits_at(s, 12, 12) < 13 {
                            Err(
                                AdtsExtractorError::TooShort {
                                    field: Field::SectionLength,
                                    minimum: 13,
                                    actual: bits_at(s, 12, 12) as u32,
                                },
                            )
                        } else {
                            and_then(
                                check_field(s, 40, 2, 3, Field::Reserved),
                                and_then(
                                    check_field(s, 64, 3, 7, Field::Reserved),
                                    and_then(
                                        check_field(s, 80, 4, 15, Field::Reserved),
                                        check_field(s, 84, 2, 0, Field::ProgramInfoLength),
                                    ),
                                ),
                            )
                        },
                    ),
                ),
            ),
        ),
    )
}

/// The elementary PID of the first AAC stream among the PMT entries from byte
/// `off` to byte `end`.
pub open spec fn pmt_scan(s: Seq<u8>, off: nat, end: nat) -> Result<Option<u16>, AdtsExtractorError>
    decreases end - off,
{
    if off + 5 > end {
        Ok(None)
    } else {
        let base = 8 * off as int;
        match and_then(
            check_field(s, base + 8, 3, 7, Field::Reserved),
            and_then(
                check_field(s, base + 24, 4, 15, Field::Reserved),
                check_field(s, base + 28, 2, 0, Field::EsInfoLength),
            ),
        ) {
            Err(e) => Err(e),
            Ok(_) => {
                let info = bits_at(s, base + 30, 10);
                if off + 5 + info > end {
                    Err(
                        AdtsExtractorError::TooLong {
                            field: Field::EsInfoLength,
                            maximum: (end - off - 5) as u32,
                            actual: info as u32,
                        },
                    )
                } else {
                    let rest = pmt_scan(s, off + 5 + info, end);
                    if bits_at(s, base, 8) == STREAM_TYPE_ADTS_AAC && rest is Ok {
                        Ok(Some(bits_at(s, base + 11, 13) as u16))
                    } else {
                        rest
                    }
                }
            },
        }
    }
}

/// What a complete PMT section says: the PID of its first AAC stream, if any.
pub open spec fn parse_pmt_spec(s: Seq<u8>) -> Result<Option<u16>, AdtsExtractorError> {
    match pmt_header(s) {
        Err(e) => Err(e),
        Ok(_) => {
            let info = bits_at(s, 86, 10);
            if 12 + info > s.len() - 4 {
                Err(
                    AdtsExtractorError::TooLong {
                        field: Field::ProgramInfoLength,
                        maximum: (s.len() - 16) as u32,
                        actual: info as u32,
                    },
                )
            } else {
                pmt_scan(s, 12 + info, (s.len() - 4) as nat)
            }
        },
    }
}

/// Reads `n` bits at `pos` and compares them with `expected`.
pub(crate) fn expect_bits(s: &[u8], pos: usize, n: u8, expected: u32, field: Field) -> (r: Result<
    (),
    AdtsExtractorError,
>)
    requires
        1 <= n <= 32,
        pos + n <= 8 * s@.len(),
        s@.len() <= 0x1_0000_0000,
    ensures
        r == check_field(s@, pos as int, n as nat, expected as nat, field),
{
    let actual = read_bits(s, pos, n);
    if actual == expected {
        Ok(())
    } else {
        Err(AdtsExtractorError::InvalidData { field, expected, actual })
    }
}

/// Parses a complete PAT section.
pub fn parse_pat(s: &[u8]) -> (r: Result<Option<u16>, AdtsExtractorError>)
    requires
        s@.len() >= 3,
        s@.len() == section_total(s@),
    ensures
        r == parse_pat_spec(s@),
{
    proof {
        vstd::arithmetic::power2::lemma2_to64();
        lemma_bits_bound(s@, 12, 12);
    }
    let length = read_bits(s, 12, 12);
    expect_bits(s, 0, 8, 0x00, Field::TableId)?;
    expect_bits(s, 8, 1, 1, Field::SectionSyntax)?;
    expect_bits(s, 9, 1, 0, Field::PrivateBit)?;
    expect_bits(s, 10, 2, 3, Field::Reserved)?;
    expect_bits(s, 12, 2, 0, Field::SectionLength)?;
    if length < 9 {
        return Err(
            AdtsExtractorError::TooShort { field: Field::SectionLength, minimum: 9, actual: length },
        );
    }
    expect_bits(s, 40, 2, 3, Field::Reserved)?;
    let end = s.len() - 4;
    let mut off: usize = 8;
    let mut found: Option<u16> = None;
    while off + 4 <= end
        invariant
            s@.len() == section_total(s@),
            s@.len() <= 0x1000 + 3,
            end == s@.len() - 4,
            8 <= off <= end + 4,
            pat_header(s@) is Ok,
            parse_pat_spec(s@) == keep_first(found, pat_scan(s@, off as nat, end as nat)),
        decreases end - off,
    {
        let program = read_bits(s, 8 * off, 16);
        let step = expect_bits(s, 8 * off + 16, 3, 7, Field::Reserved);
        if let Err(e) = step {
            return Err(e);
        }
        if program != 0 && found.is_none() {
            let pid = read_bits(s, 8 * off + 19, 13);
            proof {
                vstd::arithmetic::power2::lemma2_to64();
                lemma_bits_bound(s@, 8 * off + 19, 13);
            }
            found = Some(pid as u16);
        }
        off = off + 4;
    }
    Ok(found)
}

/// Parses a complete PMT section.
pub fn parse_pmt(s: &[u8]) -> (r: Result<Option<u16>, AdtsExtractorError>)
    requires
        s@.len() >= 3,
        s@.len() == section_total(s@),
    ensures
        r == parse_pmt_spec(s@),
{
    proof {
        vstd::arithmetic::power2::lemma2_to64();
        lemma_bits_bound(s@, 12, 12);
    }
    let length = read_bits(s, 12, 12);
    expect_bits(s, 0, 8, 0x02, Field::TableId)?;
    expect_bits(s, 8, 1, 1, Field::SectionSyntax)?;
    expect_bits(s, 9, 1, 0, Field::PrivateBit)?;
    expect_bits(s, 10, 2, 3, Field::Reserved)?;
    expect_bits(s, 12, 2, 0, Field::SectionLength)?;
    if length < 13 {
        return Err(
            AdtsExtractorError::TooShort { field: Field::SectionLength, minimum: 13, actual: length },
        );
    }
    expect_bits(s, 40, 2, 3, Field::Reserved)?;
    expect_bits(s, 64, 3, 7, Field::Reserved)?;
    expect_bits(s, 80, 4, 15, Field::Reserved)?;
    expect_bits(s, 84, 2, 0, Field::ProgramInfoLength)?;
    let info = read_bits(s, 86, 10) as usize;
    proof {
        lemma_bits_bound(s@, 86, 10);
    }
    let end = s.len() - 4;
    if 12 + info > end {
        return Err(
            AdtsExtractorError::TooLong {
                field: Field::ProgramInfoLength,
                maximum: (s.len() - 16) as u32,
                actual: info as u32,
            },
        );
    }
    let mut off: usize = 12 + info;
    let mut found: Option<u16> = None;
    while off + 5 <= end
        invariant
            s@.len() == section_total(s@),
            s@.len() <= 0x1000 + 3,
            end == s@.len() - 4,
            off <= end,
            pmt_header(s@) is Ok,
            parse_pmt_spec(s@) == keep_first(found, pmt_scan(s@, off as nat, end as nat)),
        decreases end - off,
    {
        let base = 8 * off;
        let stream_type = read_bits(s, base, 8);
        expect_bits(s, base + 8, 3, 7, Field::Reserved)?;
        expect_bits(s, base + 24, 4, 15, Field::Reserved)?;
        expect_bits(s, base + 28, 2, 0, Field::EsInfoLength)?;
        let es_info = read_bits(s, base + 30, 10) as usize;
        proof {
            vstd::arithmetic::power2::lemma2_to64();
            lemma_bits_bound(s@, base + 30, 10);
        }
        if off + 5 + es_info > end {
            return Err(
                AdtsExtractorError::TooLong {
                    field: Field::EsInfoLength,
                    maximum: (end - off - 5) as u32,
                    actual: es_info as u32,
                },
            );
        }
        if stream_type == STREAM_TYPE_ADTS_AAC && found.is_none() {
            let pid = read_bits(s, base + 11, 13);
            proof {
                lemma_bits_bound(s@, base + 11, 13);
            }
            found = Some(pid as u16);
        }
        off = off + 5 + es_info;
    }
    Ok(found)
}

/// The views of a sequence of byte vectors.
pub open spec fn views(v: Seq<Vec<u8>>) -> Seq<Seq<u8>> {
    v.map_values(|x: Vec<u8>| x@)
}

/// Appends `src[from..to]` to `dst`.
pub fn append_range(dst: &mut Vec<u8>, src: &[u8], from: usize, to: usize)
    requires
        from <= to <= src@.len(),
    ensures
        final(dst)@ == old(dst)@ + src@.subrange(from as int, to as int),
{
    let mut i = from;
    while i < to
        invariant
            from <= i <= to <= src@.len(),
            dst@ == old(dst)@ + src@.subrange(from as int, i as int),
        decreases to - i,
    {
        dst.push(src[i]);
        i = i + 1;
        assert(dst@ =~= old(dst)@ + src@.subrange(from as int, i as int));
    }
}

/// Takes the section out of `buf` once all its bytes are there.
fn close_section_in(buf: &mut Vec<u8>) -> (r: Option<Vec<u8>>)
    requires
        old(buf)@.len() <= 0x1_0000,
    ensures
        final(buf)@ == close_section(old(buf)@).0,
        r matches Some(v) ==> close_section(old(buf)@).1 == Some(v@),
        r is None ==> close_section(old(buf)@).1 is None,
        r matches Some(v) ==> v@.len() >= 3 && v@.len() == section_total(v@),
        final(buf)@.len() <= 0x1000 + 3,
{
    if buf.len() < 3 {
        return None;
    }
    let length = read_bits(buf.as_slice(), 12, 12);
    proof {
        vstd::arithmetic::power2::lemma2_to64();
        lemma_bits_bound(buf@, 12, 12);
    }
    let total = 3 + length as usize;
    if buf.len() < total {
        return None;
    }
    let mut section = Vec::new();
    std::mem::swap(buf, &mut section);
    section.truncate(total);
    proof {
        lemma_bits_prefix(section@, old(buf)@, 12, 12);
    }
    Some(section)
}

/// Feeds one packet payload of a table PID to the section in flight `buf`, and
/// hands out the sections it completed, in order.
pub fn receive_section_bytes(buf: &mut Vec<u8>, unit_start: bool, payload: &[u8]) -> (r: Result<
    Vec<Vec<u8>>,
    AdtsExtractorError,
>)
    requires
        old(buf)@.len() <= 0x1000 + 3,
        payload@.len() <= 188,
    ensures
        match psi_receive(old(buf)@, unit_start, payload@) {
            Ok((next, done)) => r matches Ok(v) && views(v@) == done && final(buf)@ == next,
            Err(e) => r == Err::<Vec<Vec<u8>>, AdtsExtractorError>(e) && final(buf)@ == old(buf)@,
        },
        r matches Ok(v) ==> forall|i: int|
            0 <= i < v@.len() ==> #[trigger] v@[i]@.len() >= 3 && v@[i]@.len() == section_total(
                v@[i]@,
            ),
        final(buf)@.len() <= 0x1000 + 3,
{
    let mut done: Vec<Vec<u8>> = Vec::new();
    if unit_start {
        if payload.len() == 0 {
            return Err(
                AdtsExtractorError::TooShort { field: Field::PointerField, minimum: 1, actual: 0 },
            );
        }
        let pointer = payload[0] as usize;
        if 1 + pointer > payload.len() {
            return Err(
                AdtsExtractorError::TooLong {
                    field: Field::PointerField,
                    maximum: (payload.len() - 1) as u32,
                    actual: pointer as u32,
                },
            );
        }
        let ghost tail = payload@.subrange(1, 1 + pointer as int);
        let ghost head = payload@.subrange(1 + pointer as int, payload@.len() as int);
        if buf.len() > 0 {
            append_range(buf, payload, 1, 1 + pointer);
            if let Some(section) = close_section_in(buf) {
                done.push(section);
            }
        }
        let mut fresh = Vec::new();
        append_range(&mut fresh, payload, 1 + pointer, payload.len());
        assert(fresh@ == head);
        let closed = close_section_in(&mut fresh);
        *buf = fresh;
        if let Some(section) = closed {
            done.push(section);
        }
        proof {
            let done_prev = if old(buf)@.len() > 0 {
                close_section(old(buf)@ + tail).1
            } else {
                None
            };
            assert(views(done@) =~= opt_seq(done_prev) + opt_seq(close_section(head).1));
        }
        Ok(done)
    } else if buf.len() > 0 {
        append_range(buf, payload, 0, payload.len());
        assert(payload@.subrange(0, payload@.len() as int) == payload@);
        if let Some(section) = close_section_in(buf) {
            done.push(section);
        }
        assert(views(done@) =~= opt_seq(close_section(old(buf)@ + payload@).1));
        Ok(done)
    } else {
        assert(views(done@) =~= Seq::<Seq<u8>>::empty());
        Ok(done)
    }
}

/// A section whose bytes are split over a packet that starts it and the packet
/// that follows comes out of reassembly the same, and leaves the same buffer, as
/// when one packet carries it whole, whatever trails it (`t`) and whatever was
/// in flight before (`b`).
pub proof fn lemma_section_split_across_packets(b: Seq<u8>, s: Seq<u8>, k: int, t: Seq<u8>)
    requires
        s.len() >= 3,
        s.len() == section_total(s),
        0 < k < s.len(),
    ensures
        ({
            let whole = psi_receive(b, true, seq![0u8] + s + t);
            let first = psi_receive(b, true, seq![0u8] + s.take(k));
            &&& whole is Ok
            &&& first is Ok
            &&& ({
                let second = psi_receive(first->Ok_0.0, false, s.skip(k) + t);
                &&& second is Ok
                &&& second->Ok_0.0 == whole->Ok_0.0
                &&& first->Ok_0.1 + second->Ok_0.1 == whole->Ok_0.1
            })
        }),
{
    let first_payload = seq![0u8] + s.take(k);
    let whole_payload = seq![0u8] + s + t;
    assert(first_payload.subrange(1, 1) =~= Seq::<u8>::empty());
    assert(whole_payload.subrange(1, 1) =~= Seq::<u8>::empty());
    assert(first_payload.subrange(1, first_payload.len() as int) =~= s.take(k));
    assert(whole_payload.subrange(1, whole_payload.len() as int) =~= s + t);
    assert(b + Seq::<u8>::empty() =~= b);
    // the part of the section in the first packet is not complete on its own
    if k >= 3 {
        lemma_bits_prefix(s.take(k), s, 12, 12);
    }
    assert(close_section(s.take(k)) == (s.take(k), None::<Seq<u8>>));
    // what the second packet completes is the section itself
    let joined = s.take(k) + (s.skip(k) + t);
    assert(joined =~= s + t);
    assert(s =~= (s + t).take(s.len() as int));
    lemma_bits_prefix(s, s + t, 12, 12);
    assert(close_section(s + t) == (Seq::<u8>::empty(), Some(s)));
    assert(opt_seq(None) + opt_seq(Some(s)) =~= opt_seq(Some(s)));
    let first = psi_receive(b, true, first_payload);
    let second = psi_receive(s.take(k), false, s.skip(k) + t);
    let whole = psi_receive(b, true, whole_payload);
    assert(first->Ok_0.1 + second->Ok_0.1 =~= whole->Ok_0.1);
}

} // verus!
