use vstd::prelude::*;
use vstd::arithmetic::power2::{pow2, lemma_pow2_unfold, lemma2_to64};
use flacenc::component::BitRepr;
use flacenc::error::Verify;

verus! {

/// Channels of a recording.
pub const CHANNELS: u32 = 1;

/// Sample rate of a recording, in Hz.
pub const SAMPLE_RATE: u32 = 44100;

/// Bits per encoded sample.
pub const BITS_PER_SAMPLE: u32 = 24;

/// Compression level of a recording.
pub const COMPRESSION_LEVEL: u32 = 8;

/// Most samples one session accepts: a little over 27 hours at 44.1 kHz.
pub const MAX_STREAM_SAMPLES: usize = 0xffff_0000;

/// The FLAC stream that `flacenc`, in its default configuration, makes of
/// `samples` with the given format; `None` where it refuses them.
pub uninterp spec fn flac_encoding(
    samples: Seq<i32>,
    channels: nat,
    bits_per_sample: nat,
    sample_rate: nat,
) -> Option<Seq<u8>>;

/// The four bytes that open every FLAC stream: `fLaC`.
pub open spec fn flac_marker() -> Seq<u8> {
    seq![0x66u8, 0x4cu8, 0x61u8, 0x43u8]
}

/// Relies on `flacenc::encode_with_fixed_block_size`, with the default
/// `flacenc::config::Encoder` and a `flacenc::source::MemSource` over
/// `samples`, and on `BitRepr::write` of the resulting `Stream` into a
/// `ByteSink`: the bytes depend on the arguments alone, and the stream is
/// written starting with the `fLaC` marker. Only mono streams of at most 32
/// bits whose samples fit the bit depth are handed to it: wider depths make
/// `flacenc::source::Context::new` panic, and the rate and channel count are
/// narrowed before flacenc checks them.
#[verifier::external_body]
fn encode_flac(samples: &Vec<i32>, channels: usize, bits_per_sample: usize, sample_rate: usize) -> (r:
    Result<Vec<u8>, String>)
    requires
        channels == 1,
        1 <= bits_per_sample <= 32,
        sample_rate <= u32::MAX,
        forall|i: int| 0 <= i < samples@.len() ==> fits_bits(#[trigger] samples@[i], bits_per_sample as nat),
    ensures
        match r {
            Ok(b) => flac_encoding(samples@, channels as nat, bits_per_sample as nat, sample_rate as nat)
                == Some(b@) && b@.len() >= 4 && b@.take(4) == flac_marker(),
            Err(_) => flac_encoding(samples@, channels as nat, bits_per_sample as nat, sample_rate as nat) is None,
        },
{
    let config = flacenc::config::Encoder::default().into_verified().map_err(|(_, e)| e.to_string())?;
    let source = flacenc::source::MemSource::from_samples(samples.as_slice(), channels, bits_per_sample, sample_rate);
    let stream = flacenc::encode_with_fixed_block_size(&config, source, config.block_size)
        .map_err(|e| e.to_string())?;
    let mut sink = flacenc::bitsink::ByteSink::new();
    stream.write(&mut sink).map_err(|e| e.to_string())?;
    Ok(sink.into_inner())
}

/// Whether `x` can be written with `bits` bits in two's complement.
pub open spec fn fits_bits(x: i32, bits: nat) -> bool {
    bits >= 1 && -(pow2((bits - 1) as nat) as int) <= x < pow2((bits - 1) as nat)
}

/// Position of the first sample of `s` that does not fit `bits` bits, or the
/// length of `s` when all fit.
pub open spec fn first_misfit(s: Seq<i32>, bits: nat) -> nat
    decreases s.len(),
{
    if s.len() == 0 || !fits_bits(s[0], bits) {
        0
    } else {
        1 + first_misfit(s.skip(1), bits)
    }
}

/// Why a batch was refused.
#[derive(Clone, Copy, Debug, PartialEq, Eq, Structural)]
pub enum EncodeError {
    /// The sample at `position` of the stream, `value`, does not fit the
    /// configured bit depth.
    SampleOutOfRange { position: u64, value: i32 },
    /// The batch would take the stream past `MAX_STREAM_SAMPLES`.
    StreamFull,
}

/// Why a session could not be finished.
#[derive(Debug, PartialEq, Eq)]
pub enum FinishError {
    /// An earlier batch was refused; nothing was written.
    Faulted(EncodeError),
    /// The encoder refused the stream, with its own description.
    Encoder(String),
}

/// Why a session could not be opened.
#[derive(Clone, Copy, Debug, PartialEq, Eq, Structural)]
pub enum EncoderInitError {
    /// No output path was set.
    MissingOutputPath,
}

/// Format and destination of a recording, before the session starts.
pub struct EncoderConfig {
    output_path: Option<String>,
    sample_rate: u32,
    bits_per_sample: u32,
    channels: u32,
    compression_level: u32,
}

impl EncoderConfig {
    pub closed spec fn spec_output_path(&self) -> Option<Seq<char>> {
        match self.output_path {
            Some(p) => Some(p@),
            None => None,
        }
    }

    pub closed spec fn spec_sample_rate(&self) -> u32 {
        self.sample_rate
    }

    pub closed spec fn spec_bits_per_sample(&self) -> u32 {
        self.bits_per_sample
    }

    pub closed spec fn spec_channels(&self) -> u32 {
        self.channels
    }

    pub closed spec fn spec_compression_level(&self) -> u32 {
        self.compression_level
    }

    /// The format of every recording: mono, 24 bits, 44.1 kHz, compression
    /// level 8; no path yet.
    pub fn new() -> (r: EncoderConfig)
        ensures
            r.spec_output_path() is None,
            r.spec_channels() == CHANNELS,
            r.spec_sample_rate() == SAMPLE_RATE,
            r.spec_bits_per_sample() == BITS_PER_SAMPLE,
            r.spec_compression_level() == COMPRESSION_LEVEL,
    {
        EncoderConfig {
            output_path: None,
            channels: CHANNELS,
            sample_rate: SAMPLE_RATE,
            bits_per_sample: BITS_PER_SAMPLE,
            compression_level: COMPRESSION_LEVEL,
        }
    }

    /// Sets where the recording goes; the format is kept.
    pub fn set_output_path(&mut self, output_path: &str)
        ensures
            final(self).spec_output_path() == Some(output_path@),
            final(self).spec_channels() == old(self).spec_channels(),
            final(self).spec_sample_rate() == old(self).spec_sample_rate(),
            final(self).spec_bits_per_sample() == old(self).spec_bits_per_sample(),
            final(self).spec_compression_level() == old(self).spec_compression_level(),
    {
        self.output_path = Some(output_path.to_owned());
    }

    /// Opens a session with this format; fails when no output path was set.
    /// Sessions are mono.
    pub fn get_encoder(self) -> (r: Result<Encoder, EncoderInitError>)
        requires
            self.spec_channels() == 1,
            1 <= self.spec_bits_per_sample() <= 32,
        ensures
            match r {
                Ok(e) => {
                    &&& self.spec_output_path() == Some(e.spec_output_path())
                    &&& e.spec_channels() == self.spec_channels()
                    &&& e.spec_sample_rate() == self.spec_sample_rate()
                    &&& e.spec_bits_per_sample() == self.spec_bits_per_sample()
                    &&& e.spec_compression_level() == self.spec_compression_level()
                    &&& e.submitted() == Seq::<i32>::empty()
                    &&& e.fault() is None
                    &&& e.wf()
                },
                Err(err) => self.spec_output_path() is None && err
                    == EncoderInitError::MissingOutputPath,
            },
    {
        match self.output_path {
            Some(path) => {
                let limit = sample_limit(self.bits_per_sample);
                Ok(
                    Encoder {
                        output_path: path,
                        channels: self.channels,
                        sample_rate: self.sample_rate,
                        bits_per_sample: self.bits_per_sample,
                        compression_level: self.compression_level,
                        limit,
                        samples: Vec::new(),
                        fault: None,
                    },
                )
            },
            None => Err(EncoderInitError::MissingOutputPath),
        }
    }
}

/// `2^(bits - 1)`, the first magnitude that `bits` bits cannot hold.
fn sample_limit(bits: u32) -> (r: i64)
    requires
        1 <= bits <= 32,
    ensures
        r as int == pow2((bits - 1) as nat),
{
    let mut r: i64 = 1;
    let mut i: u32 = 0;
    proof {
        lemma2_to64();
    }
    while i < bits - 1
        invariant
            i <= bits - 1,
            bits <= 32,
            r as int == pow2(i as nat),
        decreases bits - 1 - i,
    {
        proof {
            lemma_pow2_unfold((i + 1) as nat);
            lemma2_to64();
            vstd::arithmetic::power2::lemma_pow2_strictly_increases(i as nat, 31);
        }
        r = r * 2;
        i = i + 1;
    }
    r
}

/// One recording: the samples accepted so far, in order, and whether a batch
/// was refused. Moved into `finish`, after which it is gone.
pub struct Encoder {
    output_path: String,
    channels: u32,
    sample_rate: u32,
    bits_per_sample: u32,
    compression_level: u32,
    limit: i64,
    samples: Vec<i32>,
    fault: Option<EncodeError>,
}

impl Encoder {
    pub closed spec fn spec_output_path(&self) -> Seq<char> {
        self.output_path@
    }

    pub closed spec fn spec_sample_rate(&self) -> u32 {
        self.sample_rate
    }

    pub closed spec fn spec_bits_per_sample(&self) -> u32 {
        self.bits_per_sample
    }

    pub closed spec fn spec_channels(&self) -> u32 {
        self.channels
    }

    /// The compression level the session was opened with. flacenc has no
    /// levels of its own: its default configuration is used whatever the
    /// level.
    pub closed spec fn spec_compression_level(&self) -> u32 {
        self.compression_level
    }

    /// Every sample accepted so far, in the order of the calls and of the
    /// batches.
    pub closed spec fn submitted(&self) -> Seq<i32> {
        self.samples@
    }

    /// The error that ended the session, if a batch was refused.
    pub closed spec fn fault(&self) -> Option<EncodeError> {
        self.fault
    }

    pub closed spec fn wf(&self) -> bool {
        &&& self.channels == 1
        &&& 1 <= self.bits_per_sample <= 32
        &&& self.limit as int == pow2((self.bits_per_sample - 1) as nat)
        &&& self.samples@.len() <= MAX_STREAM_SAMPLES
        &&& forall|i: int|
            0 <= i < self.samples@.len() ==> fits_bits(
                #[trigger] self.samples@[i],
                self.bits_per_sample as nat,
            )
    }

    /// The outcome of one `encode` call on a session in state `e`.
    pub open spec fn encode_outcome(e: &Encoder, data: Seq<i32>) -> Result<(), EncodeError> {
        let bits = e.spec_bits_per_sample() as nat;
        let k = first_misfit(data, bits);
        match e.fault() {
            Some(err) => Err(err),
            None => if e.submitted().len() + data.len() > MAX_STREAM_SAMPLES {
                Err(EncodeError::StreamFull)
            } else if k < data.len() {
                Err(
                    EncodeError::SampleOutOfRange {
                        position: (e.submitted().len() + k) as u64,
                        value: data[k as int],
                    },
                )
            } else {
                Ok(())
            },
        }
    }

    /// Where the recording goes.
    pub fn output_path(&self) -> (r: &String)
        ensures
            r@ == self.spec_output_path(),
    {
        &self.output_path
    }

    /// The compression level the session was opened with.
    pub fn compression_level(&self) -> (r: u32)
        ensures
            r == self.spec_compression_level(),
    {
        self.compression_level
    }

    /// Number of samples accepted so far.
    pub fn sample_count(&self) -> (r: usize)
        ensures
            r == self.submitted().len(),
    {
        self.samples.len()
    }

    /// Whether a batch was refused.
    pub fn is_faulted(&self) -> (r: bool)
        ensures
            r == self.fault() is Some,
    {
        self.fault.is_some()
    }

    /// Adds a batch of samples, already scaled to the session's bit depth, to
    /// the stream. A batch with a sample that does not fit, or one that would
    /// make the stream too long, is refused as a whole and ends the session:
    /// from then on every call is refused with the same error.
    pub fn encode(&mut self, data: &Vec<i32>) -> (r: Result<(), EncodeError>)
        requires
            old(self).wf(),
        ensures
            final(self).wf(),
            r == Encoder::encode_outcome(old(self), data@),
            final(self).spec_output_path() == old(self).spec_output_path(),
            final(self).spec_channels() == old(self).spec_channels(),
            final(self).spec_sample_rate() == old(self).spec_sample_rate(),
            final(self).spec_bits_per_sample() == old(self).spec_bits_per_sample(),
            final(self).spec_compression_level() == old(self).spec_compression_level(),
            old(self).fault() is Some ==> *final(self) == *old(self),
            r is Ok ==> final(self).submitted() == old(self).submitted() + data@,
            r is Ok ==> final(self).fault() is None,
            r matches Err(e) ==> final(self).submitted() == old(self).submitted(),
            r matches Err(e) ==> final(self).fault() == Some(e),
    {
        if let Some(e) = self.fault {
            return Err(e);
        }
        if data.len() > MAX_STREAM_SAMPLES - self.samples.len() {
            self.fault = Some(EncodeError::StreamFull);
            return Err(EncodeError::StreamFull);
        }
        let bits = Ghost(self.bits_per_sample as nat);
        let mut i: usize = 0;
        assert(data@.skip(0) =~= data@);
        while i < data.len()
            invariant
                *self == *old(self),
                old(self).wf(),
                old(self).fault is None,
                old(self).samples@.len() + data@.len() <= MAX_STREAM_SAMPLES,
                i <= data@.len(),
                self.limit as int == pow2((bits@ - 1) as nat),
                bits@ == self.bits_per_sample as nat,
                1 <= bits@ <= 32,
                forall|j: int| 0 <= j < i ==> fits_bits(#[trigger] data@[j], bits@),
                first_misfit(data@, bits@) == i + first_misfit(data@.skip(i as int), bits@),
            decreases data@.len() - i,
        {
            let x = data[i];
            assert(data@.skip(i as int)[0] == x);
            if (x as i64) < -self.limit || (x as i64) >= self.limit {
                let e = EncodeError::SampleOutOfRange {
                    position: (self.samples.len() + i) as u64,
                    value: x,
                };
                self.fault = Some(e);
                return Err(e);
            }
            assert(data@.skip(i as int).skip(1) =~= data@.skip(i + 1));
            i = i + 1;
        }
        assert(first_misfit(data@.skip(i as int), bits@) == 0);
        let ghost before = self.samples@;
        let mut j: usize = 0;
        while j < data.len()
            invariant
                old(self).wf(),
                self.fault is None,
                self.output_path == old(self).output_path,
                self.channels == old(self).channels,
                self.sample_rate == old(self).sample_rate,
                self.bits_per_sample == old(self).bits_per_sample,
                self.compression_level == old(self).compression_level,
                self.limit == old(self).limit,
                bits@ == self.bits_per_sample as nat,
                j <= data@.len(),
                self.samples@ == before + data@.take(j as int),
                forall|k: int| 0 <= k < data@.len() ==> fits_bits(#[trigger] data@[k], bits@),
                before.len() + data@.len() <= MAX_STREAM_SAMPLES,
            decreases data@.len() - j,
        {
            self.samples.push(data[j]);
            j = j + 1;
            assert(self.samples@ =~= before + data@.take(j as int));
        }
        assert(data@.take(data@.len() as int) =~= data@);
        assert forall|k: int| 0 <= k < self.samples@.len() implies fits_bits(#[trigger] self.samples@[k], bits@) by {
            if k >= before.len() {
                assert(self.samples@[k] == data@[k - before.len()]);
            }
        }
        Ok(())
    }

    /// Ends the session: encodes every sample accepted, in order, and gives
    /// back the bytes of the FLAC stream. Fails when a batch was refused or
    /// the encoder refuses the stream. The session is consumed either way.
    pub fn finish(self) -> (r: Result<Vec<u8>, FinishError>)
        requires
            self.wf(),
        ensures
            match self.fault() {
                Some(e) => r == Err::<Vec<u8>, FinishError>(FinishError::Faulted(e)),
                None => match flac_encoding(
                    self.submitted(),
                    self.spec_channels() as nat,
                    self.spec_bits_per_sample() as nat,
                    self.spec_sample_rate() as nat,
                ) {
                    Some(bytes) => r matches Ok(b) && b@ == bytes && b@.take(4) == flac_marker(),
                    None => r matches Err(FinishError::Encoder(_)),
                },
            },
    {
        match self.fault {
            Some(e) => Err(FinishError::Faulted(e)),
            None => finish_outcome(
                encode_flac(
                    &self.samples,
                    self.channels as usize,
                    self.bits_per_sample as usize,
                    self.sample_rate as usize,
                ),
            ),
        }
    }
}

/// What `finish` reports for an outcome of the encoder: its bytes, or its
/// error as a `FinishError`.
pub fn finish_outcome(encoded: Result<Vec<u8>, String>) -> (r: Result<Vec<u8>, FinishError>)
    ensures
        match encoded {
            Ok(b) => r matches Ok(c) && c@ == b@,
            Err(msg) => r matches Err(FinishError::Encoder(m)) && m@ == msg@,
        },
{
    match encoded {
        Ok(b) => Ok(b),
        Err(msg) => Err(FinishError::Encoder(msg)),
    }
}

/// Encoding order: the samples of two batches accepted one after the other
/// stand in the stream in the order submitted, each batch's in its own order.
pub proof fn lemma_encode_order(e0: Encoder, e1: Encoder, e2: Encoder, a: Seq<i32>, b: Seq<i32>)
    requires
        e1.submitted() == e0.submitted() + a,
        e2.submitted() == e1.submitted() + b,
    ensures
        e2.submitted() == e0.submitted() + a + b,
        forall|i: int| 0 <= i < a.len() ==> e2.submitted()[e0.submitted().len() + i] == a[i],
        forall|i: int|
            0 <= i < b.len() ==> e2.submitted()[e0.submitted().len() + a.len() + i] == b[i],
{
    assert(e2.submitted() =~= e0.submitted() + a + b);
}

/// Once a batch is refused, every later batch is refused with the same error
/// and nothing more is accepted.
pub proof fn lemma_fault_is_sticky(e: Encoder, data: Seq<i32>)
    requires
        e.fault() is Some,
    ensures
        Encoder::encode_outcome(&e, data) == Err::<(), EncodeError>(e.fault()->0),
{
}

} // verus!
