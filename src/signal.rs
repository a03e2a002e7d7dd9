//! Decoding of raw sample bytes into fixed-width digital samples.
use vstd::prelude::*;

verus! {

/// The packing schemes a signal file may use.
#[derive(Clone, Copy, Debug, PartialEq, Eq, Structural)]
pub enum SampleFormat {
    /// Format 16: two bytes per sample, low byte first.
    Le16,
}

impl SampleFormat {
    /// The header code under which a format is written.
    pub open spec fn spec_code(self) -> u64 {
        match self {
            SampleFormat::Le16 => 16,
        }
    }

    /// The format named by a header code, if it is one this library reads.
    pub fn from_code(code: u64) -> (r: Option<SampleFormat>)
        ensures
            r matches Some(f) ==> f.spec_code() == code,
            r is None <==> code != 16,
    {
        if code == 16 {
            Some(SampleFormat::Le16)
        } else {
            None
        }
    }

    pub open spec fn spec_bytes_per_sample(self) -> nat {
        match self {
            SampleFormat::Le16 => 2,
        }
    }

    /// How many bytes one sample occupies.
    pub fn bytes_per_sample(self) -> (r: usize)
        ensures
            r == self.spec_bytes_per_sample(),
    {
        match self {
            SampleFormat::Le16 => 2,
        }
    }
}

/// Why a sample range could not be decoded.
#[derive(Clone, Copy, Debug, PartialEq, Eq, Structural)]
pub enum SignalError {
    /// The file could not be opened, positioned or read.
    IoFailure,
    /// Fewer bytes were available than the requested samples occupy.
    TruncatedData { requested: usize, available: usize },
}

/// The value of a little-endian pair of bytes.
pub open spec fn le16_value(low: u8, high: u8) -> nat {
    low as nat + 256 * high as nat
}

/// Joins two bytes, low byte first, into one 16-bit sample.
pub fn set_u16_le(a: &[u8; 2]) -> (r: u16)
    ensures
        r as nat == le16_value(a@[0], a@[1]),
{
    let low = a[0];
    let high = a[1];
    let r = (low as u16) | ((high as u16) << 8u16);
    assert(r == low as u16 + 256 * (high as u16)) by (bit_vector)
        requires
            r == (low as u16) | ((high as u16) << 8u16),
    ;
    r
}

/// The samples that `count` little-endian pairs at the start of `bytes` hold.
pub open spec fn spec_le16_samples(bytes: Seq<u8>, count: nat) -> Seq<nat> {
    Seq::new(count, |i: int| le16_value(bytes[2 * i], bytes[2 * i + 1]))
}

/// The raw digital samples of one channel.
#[derive(Clone, Debug, PartialEq, Eq)]
pub struct WFDBSignal {
    pub signal: Vec<u16>,
}

impl WFDBSignal {
    /// Decodes `length` samples of the given format from the start of `buffer`;
    /// the buffer holds the bytes read from the signal file at the channel's
    /// starting offset. A buffer too short for `length` samples is an error,
    /// never a short result.
    pub fn from_bytes(buffer: &Vec<u8>, length: usize, format: SampleFormat) -> (r: Result<
        WFDBSignal,
        SignalError,
    >)
        ensures
            (length * format.spec_bytes_per_sample() > buffer@.len()) <==> r is Err,
            r matches Err(e) ==> e == (SignalError::TruncatedData {
                requested: length,
                available: buffer@.len() as usize,
            }),
            r matches Ok(s) ==> s.signal@.len() == length && forall|i: int|
                0 <= i < length ==> s.signal@[i] as nat == spec_le16_samples(buffer@, length as nat)[i],
    {
        let width = format.bytes_per_sample();
        if length > buffer.len() / width {
            return Err(SignalError::TruncatedData { requested: length, available: buffer.len() });
        }
        let available: usize = buffer.len();
        assert(width == 2);
        assert(2 * length <= buffer@.len());
        let mut signal: Vec<u16> = Vec::with_capacity(length);
        let mut i: usize = 0;
        while i < length
            invariant
                2 * length <= buffer@.len(),
                available == buffer@.len(),
                i <= length,
                signal@.len() == i,
                forall|k: int|
                    0 <= k < i ==> signal@[k] as nat == le16_value(buffer@[2 * k], buffer@[2 * k + 1]),
            decreases length - i,
        {
            assert(2 * i + 1 < buffer@.len());
            let pair: [u8; 2] = [buffer[2 * i], buffer[2 * i + 1]];
            let v = set_u16_le(&pair);
            signal.push(v);
            i = i + 1;
        }
        Ok(WFDBSignal { signal })
    }
}

} // verus!
