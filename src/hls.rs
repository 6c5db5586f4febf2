use vstd::prelude::*;

verus! {

/// Why the producer of an episode's audio stream failed.
#[derive(Clone, Debug)]
pub enum HlsError {
    NoAudio,
    /// Only AAC is supported.
    UnsupportedCodec,
    /// The decoder failed; the message says how.
    FfmpegError(String),
    IoError(String),
}

/// How the worker thread that produced the stream ended.
#[derive(Clone, Copy, Debug, PartialEq, Eq, Structural)]
pub enum WorkerOutcome {
    /// It returned success.
    Finished,
    /// It returned an error value.
    Failed,
    /// It terminated abnormally (it panicked).
    Panicked,
}

/// What the producer needs to know of an input stream.
#[derive(Clone, Copy, Debug, PartialEq, Eq, Structural)]
pub struct StreamKind {
    pub is_audio: bool,
    pub is_aac: bool,
}

/// The input stream to relay: the first audio stream, which must be AAC.
pub fn choose_audio_stream(streams: &Vec<StreamKind>) -> (r: Result<usize, HlsError>)
    ensures
        r matches Ok(i) ==> i < streams@.len() && streams@[i as int].is_audio
            && streams@[i as int].is_aac && forall|j: int| 0 <= j < i ==> !(#[trigger] streams@[j]).is_audio,
        r matches Err(HlsError::NoAudio) <==> forall|j: int|
            0 <= j < streams@.len() ==> !(#[trigger] streams@[j]).is_audio,
        r matches Err(HlsError::UnsupportedCodec) <==> exists|i: int|
            0 <= i < streams@.len() && (#[trigger] streams@[i]).is_audio && !streams@[i].is_aac
                && forall|j: int| 0 <= j < i ==> !(#[trigger] streams@[j]).is_audio,
        r is Ok || r matches Err(HlsError::NoAudio) || r matches Err(HlsError::UnsupportedCodec),
{
    let mut i: usize = 0;
    while i < streams.len()
        invariant
            i <= streams@.len(),
            forall|j: int| 0 <= j < i ==> !(#[trigger] streams@[j]).is_audio,
        decreases streams@.len() - i,
    {
        if streams[i].is_audio {
            if streams[i].is_aac {
                return Ok(i);
            } else {
                return Err(HlsError::UnsupportedCodec);
            }
        }
        i = i + 1;
    }
    Err(HlsError::NoAudio)
}

/// What the byte-chunk sequence does next.
#[derive(Clone, Copy, Debug, PartialEq, Eq, Structural)]
pub enum NextItem {
    /// Hand out the chunk just read.
    Chunk,
    /// Join the worker thread and report how it ended.
    JoinWorker,
    /// Hand out the failure as the last element.
    Fail,
    /// Raise the worker's abnormal termination again on the consumer's side.
    Reraise,
    /// The sequence has ended.
    End,
}

#[derive(Clone, Copy, Debug, PartialEq, Eq, Structural)]
pub enum BridgePhase {
    Reading,
    Joining,
    Ended,
}

/// The decisions of the bridge between a blocking producer on its own thread
/// and an asynchronous consumer: a finite sequence of chunks, then at most one
/// terminal failure, then nothing. It cannot be restarted.
pub struct ChunkBridge {
    phase: BridgePhase,
}

impl ChunkBridge {
    pub closed spec fn phase(&self) -> BridgePhase {
        self.phase
    }

    pub fn new() -> (r: Self)
        ensures
            r.phase() == BridgePhase::Reading,
    {
        ChunkBridge { phase: BridgePhase::Reading }
    }

    /// The sequence has ended: nothing more is read.
    pub fn ended(&self) -> (r: bool)
        ensures
            r == (self.phase() == BridgePhase::Ended),
    {
        self.phase == BridgePhase::Ended
    }

    /// Acts on a read from the channel: `Some(n)` read `n` bytes, where none
    /// means the producer closed its end; `None` is a failed read.
    pub fn on_read(&mut self, read: Option<usize>) -> (r: NextItem)
        ensures
            old(self).phase() != BridgePhase::Reading ==> r == NextItem::End && final(self).phase()
                == BridgePhase::Ended,
            old(self).phase() == BridgePhase::Reading ==> match read {
                Some(n) => if n > 0 {
                    r == NextItem::Chunk && final(self).phase() == BridgePhase::Reading
                } else {
                    r == NextItem::JoinWorker && final(self).phase() == BridgePhase::Joining
                },
                None => r == NextItem::Fail && final(self).phase() == BridgePhase::Ended,
            },
    {
        if self.phase != BridgePhase::Reading {
            self.phase = BridgePhase::Ended;
            return NextItem::End;
        }
        match read {
            Some(n) => {
                if n > 0 {
                    NextItem::Chunk
                } else {
                    self.phase = BridgePhase::Joining;
                    NextItem::JoinWorker
                }
            },
            None => {
                self.phase = BridgePhase::Ended;
                NextItem::Fail
            },
        }
    }

    /// Acts on how the joined worker ended: success ends the sequence, an
    /// error value is its last element, and an abnormal end is raised again.
    pub fn on_join(&mut self, outcome: WorkerOutcome) -> (r: NextItem)
        ensures
            final(self).phase() == BridgePhase::Ended,
            old(self).phase() != BridgePhase::Joining ==> r == NextItem::End,
            old(self).phase() == BridgePhase::Joining ==> r == match outcome {
                WorkerOutcome::Finished => NextItem::End,
                WorkerOutcome::Failed => NextItem::Fail,
                WorkerOutcome::Panicked => NextItem::Reraise,
            },
    {
        let joining = self.phase == BridgePhase::Joining;
        self.phase = BridgePhase::Ended;
        if !joining {
            return NextItem::End;
        }
        match outcome {
            WorkerOutcome::Finished => NextItem::End,
            WorkerOutcome::Failed => NextItem::Fail,
            WorkerOutcome::Panicked => NextItem::Reraise,
        }
    }
}

} // verus!
