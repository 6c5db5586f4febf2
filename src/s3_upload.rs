use vstd::prelude::*;

verus! {

/// The object store's smallest part, but for the last one: 5 MiB.
pub const BUFFER_SIZE: usize = 0x500000;

/// Why an upload did not end well.
#[derive(Clone, Copy, Debug, PartialEq, Eq, Structural)]
pub enum S3Error {
    /// The object store refused or failed a call.
    UploadError,
    /// The byte stream being uploaded failed.
    Io,
    UnknownError,
}

/// What the existence probe said of the destination.
#[derive(Clone, Copy, Debug, PartialEq, Eq, Structural)]
pub enum ProbeOutcome {
    Exists,
    NotFound,
    Failed,
}

/// Where an upload stands.
#[derive(Clone, Copy, Debug, PartialEq, Eq, Structural)]
pub enum UploadPhase {
    /// Waiting for the existence probe.
    Probing,
    /// Taking bytes and handing out full parts.
    Streaming,
    /// The bytes ended; waiting for the last confirmations.
    Finishing,
    /// The completion call was handed out.
    Completing,
    Done,
    Failed,
}

/// A part to upload: its 1-based number and its bytes.
pub struct PartUpload {
    pub number: i32,
    pub data: Vec<u8>,
}

/// A part the store confirmed: its number and the tag it returned.
pub struct CompletedPart {
    pub number: i32,
    pub tag: String,
}

/// The parts that the bytes `s` make: consecutive pieces of `m` bytes, the last
/// one shorter if need be.
pub open spec fn split_parts(s: Seq<u8>, m: nat) -> Seq<Seq<u8>>
    decreases s.len(),
{
    if s.len() == 0 || m == 0 {
        Seq::empty()
    } else if s.len() <= m {
        seq![s]
    } else {
        seq![s.take(m as int)] + split_parts(s.skip(m as int), m)
    }
}

/// Full parts followed by a shorter rest are the parts of their bytes.
pub proof fn lemma_split_full(sent: Seq<Seq<u8>>, last: Seq<u8>, m: nat)
    requires
        m > 0,
        forall|i: int| 0 <= i < sent.len() ==> (#[trigger] sent[i]).len() == m,
        last.len() <= m,
    ensures
        split_parts(sent.flatten() + last, m) == (if last.len() == 0 {
            sent
        } else {
            sent.push(last)
        }),
    decreases sent.len(),
{
    if sent.len() == 0 {
        assert(sent.flatten() + last =~= last);
        if last.len() != 0 {
            assert(seq![last] =~= sent.push(last));
        }
    } else {
        let rest = sent.drop_first();
        assert forall|i: int| 0 <= i < rest.len() implies (#[trigger] rest[i]).len() == m by {
            assert(rest[i] == sent[i + 1]);
        }
        lemma_split_full(rest, last, m);
        let s = sent.flatten() + last;
        assert(sent.flatten() == sent[0] + rest.flatten());
        assert(s =~= sent[0] + (rest.flatten() + last));
        rest.lemma_flatten_length_le_mul(m as int);
        if rest.len() == 0 && last.len() == 0 {
            assert(rest.flatten() =~= Seq::<u8>::empty());
            assert(s =~= sent[0]);
            assert(seq![s] =~= sent);
        } else {
            if rest.len() > 0 {
                rest.lemma_flatten_length_ge_single_element_length(0);
            }
            assert(s.len() > m);
            assert(s.take(m as int) =~= sent[0]);
            assert(s.skip(m as int) =~= rest.flatten() + last);
            if last.len() == 0 {
                assert(seq![sent[0]] + rest =~= sent);
            } else {
                assert(seq![sent[0]] + rest.push(last) =~= sent.push(last));
            }
        }
    }
}

/// The parts of a byte sequence put it back together in order, and each of
/// them is full but the last, which holds between one and `m` bytes.
pub proof fn lemma_split_parts_sizes(s: Seq<u8>, m: nat)
    requires
        m > 0,
    ensures
        split_parts(s, m).flatten() == s,
        forall|i: int|
            0 <= i < split_parts(s, m).len() - 1 ==> (#[trigger] split_parts(s, m)[i]).len() == m,
        split_parts(s, m).len() > 0 ==> 0 < split_parts(s, m).last().len() <= m,
        s.len() == 0 <==> split_parts(s, m).len() == 0,
    decreases s.len(),
{
    let p = split_parts(s, m);
    if s.len() == 0 {
        assert(p.flatten() =~= s);
    } else if s.len() <= m {
        assert(p == seq![s]);
        p.lemma_flatten_singleton();
    } else {
        let rest = split_parts(s.skip(m as int), m);
        lemma_split_parts_sizes(s.skip(m as int), m);
        assert(p == seq![s.take(m as int)] + rest);
        assert(p.drop_first() =~= rest);
        assert(p.flatten() == p[0] + p.drop_first().flatten());
        assert(p.flatten() =~= s);
        assert forall|i: int| 0 <= i < p.len() - 1 implies (#[trigger] p[i]).len() == m by {
            if i > 0 {
                assert(p[i] == rest[i - 1]);
            }
        }
        assert(p.last() == rest.last());
    }
}

/// Bytes of five full parts and one more make six parts: five of `m` bytes and
/// a last one of a single byte.
pub proof fn lemma_five_parts_and_a_byte(s: Seq<u8>, m: nat)
    requires
        m > 0,
        s.len() == 5 * m + 1,
    ensures
        split_parts(s, m).len() == 6,
        forall|i: int| 0 <= i < 5 ==> (#[trigger] split_parts(s, m)[i]).len() == m,
        split_parts(s, m)[5].len() == 1,
        split_parts(s, m)[5] == s.skip(5 * m as int),
{
    let p = split_parts(s, m);
    let s1 = s.skip(m as int);
    let s2 = s1.skip(m as int);
    let s3 = s2.skip(m as int);
    let s4 = s3.skip(m as int);
    let s5 = s4.skip(m as int);
    assert(s5 =~= s.skip(5 * m as int));
    assert(split_parts(s5, m) == seq![s5]);
    assert(split_parts(s4, m) == seq![s4.take(m as int)] + seq![s5]);
    assert(split_parts(s3, m) == seq![s3.take(m as int)] + split_parts(s4, m));
    assert(split_parts(s2, m) == seq![s2.take(m as int)] + split_parts(s3, m));
    assert(split_parts(s1, m) == seq![s1.take(m as int)] + split_parts(s2, m));
    assert(p == seq![s.take(m as int)] + split_parts(s1, m));
    assert(p =~= seq![
        s.take(m as int),
        s1.take(m as int),
        s2.take(m as int),
        s3.take(m as int),
        s4.take(m as int),
        s5,
    ]);
}

/// The decisions of one multipart upload: the existence probe's outcome, how
/// the byte stream is cut into parts, and when the completion call is due. The
/// caller makes the calls to the store and reports what they gave.
pub struct MultipartUpload {
    part_size: usize,
    phase: UploadPhase,
    buffer: Vec<u8>,
    confirmed: Vec<CompletedPart>,
    issued: usize,
    sent: Ghost<Seq<Seq<u8>>>,
    seen: Ghost<Seq<u8>>,
    completions: Ghost<nat>,
}

impl MultipartUpload {
    pub closed spec fn phase(&self) -> UploadPhase {
        self.phase
    }

    pub closed spec fn part_size(&self) -> nat {
        self.part_size as nat
    }

    /// Every byte taken so far, in order.
    pub closed spec fn seen(&self) -> Seq<u8> {
        self.seen@
    }

    /// The parts handed out for upload, in order.
    pub closed spec fn sent(&self) -> Seq<Seq<u8>> {
        self.sent@
    }

    /// Bytes taken and not yet in a part.
    pub closed spec fn buffered(&self) -> Seq<u8> {
        self.buffer@
    }

    /// The parts the store confirmed, in order.
    pub closed spec fn confirmed(&self) -> Seq<CompletedPart> {
        self.confirmed@
    }

    /// How many completion calls were handed out.
    pub closed spec fn completions(&self) -> nat {
        self.completions@
    }

    pub closed spec fn wf(&self) -> bool {
        &&& self.part_size > 0
        &&& self.issued == self.sent@.len()
        &&& self.sent@.flatten() + self.buffer@ == self.seen@
        &&& self.buffer@.len() <= self.part_size
        &&& forall|i: int|
            0 <= i < self.sent@.len() && (self.phase == UploadPhase::Streaming || i + 1
                < self.sent@.len()) ==> (#[trigger] self.sent@[i]).len() == self.part_size
        &&& (self.phase != UploadPhase::Streaming && self.phase != UploadPhase::Failed
            ==> self.buffer@.len() == 0)
        &&& self.issued <= 0x7fff_ffff
        &&& self.confirmed@.len() <= self.sent@.len()
        &&& forall|i: int|
            0 <= i < self.confirmed@.len() ==> (#[trigger] self.confirmed@[i]).number == i + 1
        &&& (self.phase == UploadPhase::Probing ==> self.sent@.len() == 0 && self.seen@.len() == 0)
        &&& (self.completions@ > 0 ==> self.phase == UploadPhase::Completing || self.phase
            == UploadPhase::Done || self.phase == UploadPhase::Failed)
        &&& self.completions@ <= 1
    }

    /// A session for an upload whose parts are `part_size` bytes.
    pub fn new(part_size: usize) -> (r: Self)
        requires
            part_size > 0,
        ensures
            r.wf(),
            r.phase() == UploadPhase::Probing,
            r.part_size() == part_size,
            r.seen() == Seq::<u8>::empty(),
            r.sent() == Seq::<Seq<u8>>::empty(),
            r.buffered() == Seq::<u8>::empty(),
            r.confirmed() == Seq::<CompletedPart>::empty(),
            r.completions() == 0,
    {
        let r = MultipartUpload {
            part_size,
            phase: UploadPhase::Probing,
            buffer: Vec::new(),
            confirmed: Vec::new(),
            issued: 0,
            sent: Ghost(Seq::empty()),
            seen: Ghost(Seq::empty()),
            completions: Ghost(0),
        };
        assert(r.sent@.flatten() + r.buffer@ =~= Seq::<u8>::empty());
        r
    }

    /// How many parts were handed out so far.
    pub fn parts_handed_out(&self) -> (r: usize)
        requires
            self.wf(),
        ensures
            r == self.sent().len(),
    {
        self.issued
    }

    /// Acts on the existence probe: `None` means go on and start the upload;
    /// otherwise the upload ends now with that result. An object that exists
    /// already is success, with nothing uploaded; a failed probe is a failure.
    pub fn on_probe(&mut self, outcome: ProbeOutcome) -> (r: Option<Result<(), S3Error>>)
        requires
            old(self).wf(),
        ensures
            final(self).wf(),
            final(self).part_size() == old(self).part_size(),
            final(self).seen() == old(self).seen(),
            final(self).sent() == old(self).sent(),
            final(self).buffered() == old(self).buffered(),
            final(self).completions() == old(self).completions(),
            old(self).phase() != UploadPhase::Probing ==> r is None && *final(self) == *old(self),
            old(self).phase() == UploadPhase::Probing ==> match outcome {
                ProbeOutcome::Exists => r == Some(Ok::<(), S3Error>(()))
                    && final(self).phase() == UploadPhase::Done && final(self).sent().len() == 0
                    && final(self).completions() == 0,
                ProbeOutcome::NotFound => r is None && final(self).phase() == UploadPhase::Streaming,
                ProbeOutcome::Failed => r == Some(Err::<(), S3Error>(S3Error::UploadError))
                    && final(self).phase() == UploadPhase::Failed,
            },
    {
        if self.phase != UploadPhase::Probing {
            return None;
        }
        match outcome {
            ProbeOutcome::Exists => {
                self.phase = UploadPhase::Done;
                Some(Ok(()))
            },
            ProbeOutcome::NotFound => {
                self.phase = UploadPhase::Streaming;
                None
            },
            ProbeOutcome::Failed => {
                self.phase = UploadPhase::Failed;
                Some(Err(S3Error::UploadError))
            },
        }
    }

    /// Takes bytes of `data` from `from` on until the part buffer is full or
    /// `data` ends, and returns where it stopped.
    pub fn fill(&mut self, data: &[u8], from: usize) -> (r: usize)
        requires
            old(self).wf(),
            from <= data@.len(),
        ensures
            final(self).wf(),
            final(self).part_size() == old(self).part_size(),
            final(self).phase() == old(self).phase(),
            final(self).sent() == old(self).sent(),
            final(self).confirmed() == old(self).confirmed(),
            final(self).completions() == old(self).completions(),
            from <= r <= data@.len(),
            final(self).buffered().len() <= final(self).part_size(),
            old(self).phase() != UploadPhase::Streaming ==> r == from && *final(self) == *old(self),
            old(self).phase() == UploadPhase::Streaming ==> {
                &&& r == (if data@.len() - from <= old(self).part_size() - old(self).buffered().len() {
                    data@.len() as int
                } else {
                    from + old(self).part_size() - old(self).buffered().len()
                })
                &&& final(self).seen() == old(self).seen() + data@.subrange(from as int, r as int)
                &&& final(self).buffered() == old(self).buffered() + data@.subrange(
                    from as int,
                    r as int,
                )
            },
    {
        if self.phase != UploadPhase::Streaming {
            return from;
        }
        let mut i = from;
        while i < data.len() && self.buffer.len() < self.part_size
            invariant
                from <= i <= data@.len(),
                self.buffer@ == old(self).buffer@ + data@.subrange(from as int, i as int),
                self.buffer@.len() <= self.part_size,
                *self == (MultipartUpload { buffer: self.buffer, ..*old(self) }),
            decreases data@.len() - i,
        {
            self.buffer.push(data[i]);
            i = i + 1;
            assert(self.buffer@ =~= old(self).buffer@ + data@.subrange(from as int, i as int));
        }
        self.seen = Ghost(old(self).seen@ + data@.subrange(from as int, i as int));
        assert(self.sent@.flatten() + self.buffer@ =~= self.seen@);
        i
    }

    /// Hands out the next part once the buffer holds a full one and every
    /// earlier part is confirmed: parts go to the store one at a time.
    pub fn next_part(&mut self) -> (r: Option<PartUpload>)
        requires
            old(self).wf(),
            old(self).sent().len() < 0x7fff_ffff,
        ensures
            final(self).wf(),
            final(self).part_size() == old(self).part_size(),
            final(self).phase() == old(self).phase(),
            final(self).seen() == old(self).seen(),
            final(self).confirmed() == old(self).confirmed(),
            final(self).completions() == old(self).completions(),
            (old(self).phase() == UploadPhase::Streaming && old(self).buffered().len()
                == old(self).part_size() && old(self).confirmed().len() == old(self).sent().len())
                ==> {
                &&& r matches Some(p) && p.number == old(self).sent().len() + 1 && p.data@
                    == old(self).buffered()
                &&& final(self).sent() == old(self).sent().push(old(self).buffered())
                &&& final(self).buffered() == Seq::<u8>::empty()
            },
            !(old(self).phase() == UploadPhase::Streaming && old(self).buffered().len()
                == old(self).part_size() && old(self).confirmed().len() == old(self).sent().len())
                ==> r is None && *final(self) == *old(self),
    {
        if self.phase != UploadPhase::Streaming || self.buffer.len() < self.part_size
            || self.confirmed.len() != self.issued {
            return None;
        }
        let mut data = Vec::new();
        std::mem::swap(&mut data, &mut self.buffer);
        self.issued = self.issued + 1;
        self.sent = Ghost(self.sent@.push(data@));
        proof {
            let old_sent = old(self).sent@;
            assert(old_sent.push(data@).flatten() == old_sent.flatten() + data@) by {
                old_sent.lemma_flatten_push(data@);
            }
            assert(self.sent@.flatten() + self.buffer@ =~= self.seen@);
        }
        Some(PartUpload { number: self.issued as i32, data })
    }

    /// Ends the byte stream once every part handed out is confirmed: hands out
    /// what is left in the buffer as the last part, if anything is.
    pub fn last_part(&mut self) -> (r: Option<PartUpload>)
        requires
            old(self).wf(),
            old(self).sent().len() < 0x7fff_ffff,
        ensures
            final(self).wf(),
            final(self).part_size() == old(self).part_size(),
            final(self).seen() == old(self).seen(),
            final(self).confirmed() == old(self).confirmed(),
            final(self).completions() == old(self).completions(),
            old(self).phase() == UploadPhase::Streaming && old(self).confirmed().len() == old(
                self,
            ).sent().len() ==> {
                &&& final(self).phase() == UploadPhase::Finishing
                &&& final(self).sent() == split_parts(old(self).seen(), old(self).part_size())
                &&& old(self).buffered().len() > 0 ==> (r matches Some(p) && p.number
                    == old(self).sent().len() + 1 && p.data@ == old(self).buffered())
                &&& old(self).buffered().len() == 0 ==> r is None
            },
            !(old(self).phase() == UploadPhase::Streaming && old(self).confirmed().len() == old(
                self,
            ).sent().len()) ==> r is None && *final(self) == *old(self),
    {
        if self.phase != UploadPhase::Streaming || self.confirmed.len() != self.issued {
            return None;
        }
        proof {
            lemma_split_full(self.sent@, self.buffer@, self.part_size as nat);
        }
        self.phase = UploadPhase::Finishing;
        if self.buffer.len() == 0 {
            return None;
        }
        let mut data = Vec::new();
        std::mem::swap(&mut data, &mut self.buffer);
        self.issued = self.issued + 1;
        self.sent = Ghost(self.sent@.push(data@));
        proof {
            let old_sent = old(self).sent@;
            assert(old_sent.push(data@).flatten() == old_sent.flatten() + data@) by {
                old_sent.lemma_flatten_push(data@);
            }
            assert(self.sent@.flatten() + self.buffer@ =~= self.seen@);
        }
        Some(PartUpload { number: self.issued as i32, data })
    }

    /// Records what the upload of the oldest unconfirmed part gave. A failure
    /// fails the whole upload and is handed back.
    pub fn on_part_result(&mut self, result: Result<String, S3Error>) -> (r: Result<(), S3Error>)
        requires
            old(self).wf(),
        ensures
            final(self).wf(),
            final(self).part_size() == old(self).part_size(),
            final(self).seen() == old(self).seen(),
            final(self).sent() == old(self).sent(),
            final(self).completions() == old(self).completions(),
            ({
                let expecting = (old(self).phase() == UploadPhase::Streaming || old(self).phase()
                    == UploadPhase::Finishing) && old(self).confirmed().len() < old(
                self).sent().len();
                &&& expecting && result is Ok ==> r is Ok && final(self).phase() == old(
                    self).phase() && final(self).confirmed().len() == old(self).confirmed().len()
                    + 1 && final(self).confirmed().last().tag == result->Ok_0
                    && final(self).confirmed().drop_last() == old(self).confirmed()
                &&& expecting && result is Err ==> r == Err::<(), S3Error>(result->Err_0)
                    && final(self).phase() == UploadPhase::Failed
                &&& !expecting ==> r == Err::<(), S3Error>(S3Error::UnknownError)
                    && final(self).phase() == (if old(self).phase() == UploadPhase::Done {
                    UploadPhase::Done
                } else {
                    UploadPhase::Failed
                })
            }),
    {
        let expecting = (self.phase == UploadPhase::Streaming || self.phase
            == UploadPhase::Finishing) && self.confirmed.len() < self.issued;
        if !expecting {
            if self.phase != UploadPhase::Done {
                self.phase = UploadPhase::Failed;
            }
            return Err(S3Error::UnknownError);
        }
        match result {
            Ok(tag) => {
                let number = (self.confirmed.len() + 1) as i32;
                self.confirmed.push(CompletedPart { number, tag });
                assert(self.confirmed@.drop_last() =~= old(self).confirmed@);
                Ok(())
            },
            Err(e) => {
                self.phase = UploadPhase::Failed;
                Err(e)
            },
        }
    }

    /// Hands out the completion call's part list once the stream ended and
    /// every part was confirmed; `Some` only if at least one part was. An
    /// upload with no part at all ends here, with nothing to complete.
    pub fn completion(&mut self) -> (r: Option<Vec<CompletedPart>>)
        requires
            old(self).wf(),
        ensures
            final(self).wf(),
            final(self).part_size() == old(self).part_size(),
            final(self).seen() == old(self).seen(),
            final(self).sent() == old(self).sent(),
            ({
                let due = old(self).phase() == UploadPhase::Finishing && old(self).confirmed().len()
                    == old(self).sent().len();
                &&& due && old(self).sent().len() > 0 ==> (r matches Some(v) && v@ == old(
                    self).confirmed() && final(self).phase() == UploadPhase::Completing
                    && final(self).completions() == old(self).completions() + 1)
                &&& r matches Some(v) ==> v@.len() == old(self).sent().len() && forall|i: int|
                    0 <= i < v@.len() ==> (#[trigger] v@[i]).number == i + 1
                &&& due && old(self).sent().len() == 0 ==> r is None && final(self).phase()
                    == UploadPhase::Done && final(self).completions() == old(self).completions()
                &&& !due ==> r is None && *final(self) == *old(self)
            }),
    {
        if self.phase != UploadPhase::Finishing || self.confirmed.len() != self.issued {
            return None;
        }
        if self.issued == 0 {
            self.phase = UploadPhase::Done;
            return None;
        }
        let mut parts = Vec::new();
        std::mem::swap(&mut parts, &mut self.confirmed);
        self.phase = UploadPhase::Completing;
        self.completions = Ghost(self.completions@ + 1);
        Some(parts)
    }

    /// Records what the completion call gave, and ends the upload with it.
    pub fn on_completed(&mut self, result: Result<(), S3Error>) -> (r: Result<(), S3Error>)
        requires
            old(self).wf(),
        ensures
            final(self).wf(),
            final(self).part_size() == old(self).part_size(),
            final(self).completions() == old(self).completions(),
            old(self).phase() == UploadPhase::Completing ==> r == result && final(self).phase() == (
            if result is Ok {
                UploadPhase::Done
            } else {
                UploadPhase::Failed
            }),
            old(self).phase() != UploadPhase::Completing ==> r == Err::<(), S3Error>(
                S3Error::UnknownError,
            ) && *final(self) == *old(self),
    {
        if self.phase != UploadPhase::Completing {
            return Err(S3Error::UnknownError);
        }
        self.phase = if result.is_ok() {
            UploadPhase::Done
        } else {
            UploadPhase::Failed
        };
        result
    }

    /// Ends the upload with a failure that came from elsewhere (the byte stream,
    /// or a call to the store), and hands it back.
    pub fn fail(&mut self, e: S3Error) -> (r: S3Error)
        requires
            old(self).wf(),
        ensures
            final(self).wf(),
            final(self).part_size() == old(self).part_size(),
            r == e,
            final(self).phase() == UploadPhase::Failed,
            final(self).sent() == old(self).sent(),
            final(self).completions() == old(self).completions(),
    {
        self.phase = UploadPhase::Failed;
        e
    }
}

} // verus!
