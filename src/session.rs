use vstd::prelude::*;
use crate::flac::{
    Encoder, EncodeError, FinishError, MAX_STREAM_SAMPLES, flac_encoding, flac_marker,
};
use crate::utils::{format_duration, recorded_tenths, duration_text};
use crate::waveform::{CHUNK_SIZE, reduce, chunk_peaks, leftover, lemma_leftover_short};

verus! {

/// Why the capture session refused a request.
#[derive(Debug, PartialEq, Eq)]
pub enum CaptureError {
    /// The encoder refused a batch.
    Encode(EncodeError),
    /// The encoder could not finish the stream.
    Finish(FinishError),
    /// The session was finished already: nothing more is encoded.
    AlreadyFinished,
}

/// A sample from the capture device, 32 bits wide, brought down to the
/// encoder's 24 bits by dropping its 8 lowest bits (rounding toward minus
/// infinity).
pub open spec fn to_encoder_depth(x: i32) -> int {
    (x as int) / 256
}

/// Brings a batch from the capture device down to the encoder's bit depth.
pub fn scale_capture(raw: &Vec<i32>) -> (r: Vec<i32>)
    ensures
        r@.len() == raw@.len(),
        forall|i: int| 0 <= i < raw@.len() ==> r@[i] as int == to_encoder_depth(#[trigger] raw@[i]),
{
    let mut out: Vec<i32> = Vec::new();
    let mut i: usize = 0;
    while i < raw.len()
        invariant
            i <= raw@.len(),
            out@.len() == i,
            forall|j: int| 0 <= j < i ==> out@[j] as int == to_encoder_depth(#[trigger] raw@[j]),
        decreases raw@.len() - i,
    {
        let x = raw[i];
        let shifted: u64 = (x as i64 + 0x8000_0000) as u64;
        let q: u64 = shifted / 256;
        assert(q as int - 0x80_0000 == (x as int) / 256) by (nonlinear_arith)
            requires
                shifted as int == x as int + 0x8000_0000,
                q as int == shifted as int / 256,
        ;
        out.push((q as i64 - 0x80_0000) as i32);
        i = i + 1;
    }
    out
}

/// The state of one recording: the encoder, the waveform summary shown while
/// recording, and whether recording is paused.
pub struct Capture {
    encoder: Option<Encoder>,
    peaks: Vec<u32>,
    carry: Vec<i32>,
    paused: bool,
    sample_count: u64,
}

impl Capture {
    /// The peaks of the waveform summary, one per complete chunk, in order.
    pub closed spec fn spec_peaks(&self) -> Seq<u32> {
        self.peaks@
    }

    /// Samples kept for the next chunk.
    pub closed spec fn spec_carry(&self) -> Seq<i32> {
        self.carry@
    }

    pub closed spec fn spec_paused(&self) -> bool {
        self.paused
    }

    /// Samples committed to the encoder while recording.
    pub closed spec fn spec_sample_count(&self) -> nat {
        self.sample_count as nat
    }

    pub closed spec fn spec_finished(&self) -> bool {
        self.encoder is None
    }

    /// The encoder, while the session is not finished.
    pub closed spec fn spec_encoder(&self) -> Encoder {
        self.encoder->0
    }

    pub closed spec fn wf(&self) -> bool {
        &&& self.carry@.len() < CHUNK_SIZE
        &&& self.sample_count <= MAX_STREAM_SAMPLES
        &&& self.encoder matches Some(e) ==> e.wf() && self.sample_count as nat
            == e.submitted().len()
    }

    /// Starts recording into `encoder`, unpaused, with an empty waveform.
    pub fn new(encoder: Encoder) -> (r: Capture)
        requires
            encoder.wf(),
            encoder.submitted().len() == 0,
        ensures
            r.wf(),
            !r.spec_finished(),
            r.spec_encoder() == encoder,
            r.spec_peaks() == Seq::<u32>::empty(),
            r.spec_carry() == Seq::<i32>::empty(),
            !r.spec_paused(),
            r.spec_sample_count() == 0,
    {
        Capture { encoder: Some(encoder), peaks: Vec::new(), carry: Vec::new(), paused: false, sample_count: 0 }
    }

    /// Pauses a running recording, or resumes a paused one.
    pub fn toggle_pause(&mut self)
        requires
            old(self).wf(),
        ensures
            final(self).wf(),
            final(self).spec_paused() == !old(self).spec_paused(),
            final(self).spec_finished() == old(self).spec_finished(),
            final(self).spec_encoder() == old(self).spec_encoder(),
            final(self).spec_peaks() == old(self).spec_peaks(),
            final(self).spec_carry() == old(self).spec_carry(),
            final(self).spec_sample_count() == old(self).spec_sample_count(),
    {
        self.paused = !self.paused;
    }

    pub fn is_paused(&self) -> (r: bool)
        ensures
            r == self.spec_paused(),
    {
        self.paused
    }

    pub fn is_finished(&self) -> (r: bool)
        ensures
            r == self.spec_finished(),
    {
        self.encoder.is_none()
    }

    /// The waveform summary so far.
    pub fn peaks(&self) -> (r: &Vec<u32>)
        ensures
            r@ == self.spec_peaks(),
    {
        &self.peaks
    }

    /// Samples committed to the encoder so far.
    pub fn sample_count(&self) -> (r: u64)
        ensures
            r == self.spec_sample_count(),
    {
        self.sample_count
    }

    /// The recording time shown to the user.
    pub fn record_time_text(&self, sample_rate: u32) -> (r: String)
        requires
            self.wf(),
            sample_rate > 0,
        ensures
            r@ == duration_text(((self.spec_sample_count() as int * 10) / (sample_rate as int)) as nat),
    {
        format_duration(recorded_tenths(self.sample_count, sample_rate))
    }

    /// Handles the batch polled in one tick. While recording, the batch is
    /// encoded, the clock advances by its length and its samples go through
    /// the waveform reducer; while paused, it is dropped. A finished session
    /// refuses every batch; a refused batch leaves the waveform and the clock
    /// as they were.
    pub fn tick(&mut self, batch: &Vec<i32>) -> (r: Result<(), CaptureError>)
        requires
            old(self).wf(),
        ensures
            final(self).wf(),
            final(self).spec_paused() == old(self).spec_paused(),
            final(self).spec_finished() == old(self).spec_finished(),
            old(self).spec_finished() ==> r == Err::<(), CaptureError>(CaptureError::AlreadyFinished)
                && *final(self) == *old(self),
            !old(self).spec_finished() && old(self).spec_paused() ==> r is Ok && *final(self)
                == *old(self),
            !old(self).spec_finished() && !old(self).spec_paused() ==> {
                let outcome = Encoder::encode_outcome(&old(self).spec_encoder(), batch@);
                match outcome {
                    Ok(_) => {
                        &&& r is Ok
                        &&& final(self).spec_encoder().submitted() == old(self).spec_encoder().submitted()
                            + batch@
                        &&& final(self).spec_sample_count() == old(self).spec_sample_count()
                            + batch@.len()
                        &&& final(self).spec_peaks() == old(self).spec_peaks() + chunk_peaks(
                            old(self).spec_carry() + batch@,
                            CHUNK_SIZE as nat,
                        )
                        &&& final(self).spec_carry() == leftover(
                            old(self).spec_carry() + batch@,
                            CHUNK_SIZE as nat,
                        )
                    },
                    Err(e) => {
                        &&& r == Err::<(), CaptureError>(CaptureError::Encode(e))
                        &&& final(self).spec_encoder().fault() == Some(e)
                        &&& final(self).spec_encoder().submitted() == old(self).spec_encoder().submitted()
                        &&& final(self).spec_sample_count() == old(self).spec_sample_count()
                        &&& final(self).spec_peaks() == old(self).spec_peaks()
                        &&& final(self).spec_carry() == old(self).spec_carry()
                    },
                }
            },
    {
        if self.encoder.is_none() {
            return Err(CaptureError::AlreadyFinished);
        }
        if self.paused {
            return Ok(());
        }
        let mut enc = self.encoder.take().unwrap();
        let res = enc.encode(batch);
        self.encoder = Some(enc);
        match res {
            Err(e) => Err(CaptureError::Encode(e)),
            Ok(()) => {
                self.sample_count = self.sample_count + batch.len() as u64;
                let (mut fresh, rest) = reduce(batch, &self.carry, CHUNK_SIZE);
                self.peaks.append(&mut fresh);
                self.carry = rest;
                Ok(())
            },
        }
    }

    /// The ordered shutdown: encodes the final batch, paused or not, and
    /// finishes the encoder, giving the bytes of the stream. Runs once: the
    /// session is finished afterwards whatever the outcome, and a second call
    /// is refused.
    pub fn finish(&mut self, final_batch: &Vec<i32>) -> (r: Result<Vec<u8>, CaptureError>)
        requires
            old(self).wf(),
        ensures
            final(self).wf(),
            final(self).spec_finished(),
            final(self).spec_peaks() == old(self).spec_peaks(),
            old(self).spec_finished() ==> r matches Err(CaptureError::AlreadyFinished),
            !old(self).spec_finished() ==> {
                let enc = old(self).spec_encoder();
                match Encoder::encode_outcome(&enc, final_batch@) {
                    Err(e) => r matches Err(CaptureError::Encode(x)) && x == e,
                    Ok(_) => match flac_encoding(
                        enc.submitted() + final_batch@,
                        enc.spec_channels() as nat,
                        enc.spec_bits_per_sample() as nat,
                        enc.spec_sample_rate() as nat,
                    ) {
                        Some(bytes) => r matches Ok(b) && b@ == bytes && b@.take(4) == flac_marker(),
                        None => r matches Err(CaptureError::Finish(FinishError::Encoder(_))),
                    },
                }
            },
    {
        match self.encoder.take() {
            None => Err(CaptureError::AlreadyFinished),
            Some(mut enc) => {
                let res = enc.encode(final_batch);
                let done = enc.finish();
                match res {
                    Err(e) => Err(CaptureError::Encode(e)),
                    Ok(()) => match done {
                        Ok(bytes) => Ok(bytes),
                        Err(fe) => Err(CaptureError::Finish(fe)),
                    },
                }
            },
        }
    }
}

} // verus!
