//! The WFDB header: the record line and one specification line per channel.
//!
//! A record line reads
//! `RECORD_NAME[/NUM_SEG] NUM_SIG [FS[/COUNTER_FREQ[(BASE_COUNT)]]] [SIG_LEN] [BASE_TIME] [BASE_DATE]`
//! and a channel line reads
//! `FILE_NAME FORMAT[xSAMPS_PER_FRAME][:SKEW][+BYTE_OFFSET] [ADC_GAIN[(BASELINE)][/UNITS]] [ADC_RES] [ADC_ZERO] [INIT_VALUE] [CHECKSUM] [BLOCK_SIZE] [SIG_NAME]`.
//!
//! Words are separated by whitespace and read by position. Inside a word the
//! fixed separators `/ x : + ( )` mark the optional parts. A part whose
//! separator is written is present and must be a valid number; only a part
//! that is not written at all takes its default. The numbers that lead a word
//! (the sampling frequency, the ADC gain) may be left empty and then take
//! their default as well.
use vstd::prelude::*;
use crate::text::chars_of;
use crate::text::first_of;
use crate::text::lemma_first_of;
use crate::text::lemma_word_end;
use crate::text::lemma_digits_shift;
use crate::text::is_space;
use crate::text::all_digits;
use crate::text::digits_value;
use crate::text::spans_from;
use crate::text::find_char;
use crate::text::parse_decimal;
use crate::text::parse_int;
use crate::text::parse_uint;
use crate::text::spans;
use crate::text::spans_ordered;
use crate::text::spans_view;
use crate::text::spec_decimal;
use crate::text::spec_int;
use crate::text::spec_uint;
use crate::text::text_of;
use crate::text::word_spans;
use crate::text::Decimal;

verus! {

/// The header fields, as named in diagnostics.
#[derive(Clone, Copy, Debug, PartialEq, Eq, Structural)]
pub enum Field {
    RecordName,
    SegmentCount,
    SignalCount,
    SamplingFrequency,
    CounterFrequency,
    BaseCounter,
    SignalLength,
    FileName,
    Format,
    SampsPerFrame,
    Skew,
    ByteOffset,
    AdcGain,
    Baseline,
    AdcResolution,
    AdcZero,
    InitValue,
    Checksum,
    BlockSize,
}

/// Why a header could not be decoded. `line` counts the record line as 0 and
/// the channel lines from 1.
#[derive(Clone, Copy, Debug, PartialEq, Eq, Structural)]
pub enum HeaderError {
    /// The line does not follow the grammar (stray words, unbalanced parentheses).
    MalformedInput { line: usize },
    /// A field without a default is not written.
    MissingRequiredField { line: usize, field: Field },
    /// A field that is written does not hold a valid number for it.
    UnparsableNumber { line: usize, field: Field },
    /// The number of channel lines differs from the declared signal count.
    CountMismatch { declared: u64, supplied: usize },
}

/// One channel's specification.
#[derive(Clone, Debug, PartialEq)]
pub struct WFDBChannel {
    pub file_name: String,
    pub fmt: u64,
    pub samps_per_frame: u64,
    pub skew: u64,
    pub byte_offset: u64,
    pub adc_gain: Decimal,
    pub baseline: i64,
    pub units: String,
    pub adc_res: u64,
    pub adc_zero: i64,
    pub init_value: i64,
    pub checksum: i64,
    pub block_size: u64,
    pub sig_name: String,
}

pub struct ChannelModel {
    pub file_name: Seq<char>,
    pub fmt: u64,
    pub samps_per_frame: u64,
    pub skew: u64,
    pub byte_offset: u64,
    pub adc_gain: Decimal,
    pub baseline: i64,
    pub units: Seq<char>,
    pub adc_res: u64,
    pub adc_zero: i64,
    pub init_value: i64,
    pub checksum: i64,
    pub block_size: u64,
    pub sig_name: Seq<char>,
}

impl View for WFDBChannel {
    type V = ChannelModel;

    open spec fn view(&self) -> ChannelModel {
        ChannelModel {
            file_name: self.file_name@,
            fmt: self.fmt,
            samps_per_frame: self.samps_per_frame,
            skew: self.skew,
            byte_offset: self.byte_offset,
            adc_gain: self.adc_gain,
            baseline: self.baseline,
            units: self.units@,
            adc_res: self.adc_res,
            adc_zero: self.adc_zero,
            init_value: self.init_value,
            checksum: self.checksum,
            block_size: self.block_size,
            sig_name: self.sig_name@,
        }
    }
}

/// A record's header: the fields of its record line and its channels.
#[derive(Clone, Debug, PartialEq)]
pub struct WFDBHeader {
    pub record_name: String,
    pub n_seg: Option<u64>,
    pub n_sig: u64,
    pub fs: Decimal,
    pub counter_freq: Option<Decimal>,
    pub base_counter: Option<Decimal>,
    pub sig_len: Option<u64>,
    pub base_time: Option<String>,
    pub base_date: Option<String>,
    pub channels: Vec<WFDBChannel>,
}

pub struct HeaderModel {
    pub record_name: Seq<char>,
    pub n_seg: Option<u64>,
    pub n_sig: u64,
    pub fs: Decimal,
    pub counter_freq: Option<Decimal>,
    pub base_counter: Option<Decimal>,
    pub sig_len: Option<u64>,
    pub base_time: Option<Seq<char>>,
    pub base_date: Option<Seq<char>>,
    pub channels: Seq<ChannelModel>,
}

pub open spec fn opt_text(o: Option<String>) -> Option<Seq<char>> {
    match o {
        Some(t) => Some(t@),
        None => None,
    }
}

impl View for WFDBHeader {
    type V = HeaderModel;

    open spec fn view(&self) -> HeaderModel {
        HeaderModel {
            record_name: self.record_name@,
            n_seg: self.n_seg,
            n_sig: self.n_sig,
            fs: self.fs,
            counter_freq: self.counter_freq,
            base_counter: self.base_counter,
            sig_len: self.sig_len,
            base_time: opt_text(self.base_time),
            base_date: opt_text(self.base_date),
            channels: self.channels@.map_values(|c: WFDBChannel| c@),
        }
    }
}

pub open spec fn header_result_view(r: Result<WFDBHeader, HeaderError>) -> Result<
    HeaderModel,
    HeaderError,
> {
    match r {
        Ok(h) => Ok(h@),
        Err(e) => Err(e),
    }
}

pub open spec fn channel_result_view(r: Result<WFDBChannel, HeaderError>) -> Result<
    ChannelModel,
    HeaderError,
> {
    match r {
        Ok(c) => Ok(c@),
        Err(e) => Err(e),
    }
}

// ---------------------------------------------------------------------------
// Single fields
pub open spec fn uint_field(s: Seq<char>, a: int, b: int, line: usize, field: Field) -> Result<
    u64,
    HeaderError,
> {
    match spec_uint(s, a, b) {
        Some(v) => Ok(v),
        None => Err(HeaderError::UnparsableNumber { line, field }),
    }
}

pub open spec fn int_field(s: Seq<char>, a: int, b: int, line: usize, field: Field) -> Result<
    i64,
    HeaderError,
> {
    match spec_int(s, a, b) {
        Some(v) => Ok(v),
        None => Err(HeaderError::UnparsableNumber { line, field }),
    }
}

pub open spec fn decimal_field(s: Seq<char>, a: int, b: int, line: usize, field: Field) -> Result<
    Decimal,
    HeaderError,
> {
    match spec_decimal(s, a, b) {
        Some(v) => Ok(v),
        None => Err(HeaderError::UnparsableNumber { line, field }),
    }
}

fn read_uint(s: &Vec<char>, a: usize, b: usize, line: usize, field: Field) -> (r: Result<
    u64,
    HeaderError,
>)
    requires
        a <= b <= s@.len(),
    ensures
        r == uint_field(s@, a as int, b as int, line, field),
{
    match parse_uint(s, a, b) {
        Some(v) => Ok(v),
        None => Err(HeaderError::UnparsableNumber { line, field }),
    }
}

fn read_int(s: &Vec<char>, a: usize, b: usize, line: usize, field: Field) -> (r: Result<
    i64,
    HeaderError,
>)
    requires
        a <= b <= s@.len(),
    ensures
        r == int_field(s@, a as int, b as int, line, field),
{
    match parse_int(s, a, b) {
        Some(v) => Ok(v),
        None => Err(HeaderError::UnparsableNumber { line, field }),
    }
}

fn read_decimal(s: &Vec<char>, a: usize, b: usize, line: usize, field: Field) -> (r: Result<
    Decimal,
    HeaderError,
>)
    requires
        a <= b <= s@.len(),
    ensures
        r == decimal_field(s@, a as int, b as int, line, field),
{
    match parse_decimal(s, a, b) {
        Some(v) => Ok(v),
        None => Err(HeaderError::UnparsableNumber { line, field }),
    }
}

/// An optional unsigned word at position `k`; 0 where the line has no such word.
pub open spec fn word_uint(s: Seq<char>, t: Seq<(int, int)>, k: int, line: usize, field: Field) -> Result<
    u64,
    HeaderError,
> {
    if k < t.len() {
        uint_field(s, t[k].0, t[k].1, line, field)
    } else {
        Ok(0)
    }
}

/// An optional signed word at position `k`; 0 where the line has no such word.
pub open spec fn word_int(s: Seq<char>, t: Seq<(int, int)>, k: int, line: usize, field: Field) -> Result<
    i64,
    HeaderError,
> {
    if k < t.len() {
        int_field(s, t[k].0, t[k].1, line, field)
    } else {
        Ok(0)
    }
}

fn span_at(t: &Vec<(usize, usize)>, k: usize) -> (r: (usize, usize))
    requires
        k < t@.len(),
    ensures
        (r.0 as int, r.1 as int) == spans_view(t@)[k as int],
{
    t[k]
}

fn read_word_uint(s: &Vec<char>, t: &Vec<(usize, usize)>, k: usize, line: usize, field: Field) -> (r:
    Result<u64, HeaderError>)
    requires
        spans_view(t@) == spans(s@),
        spans_ordered(spans(s@), 0, s@.len() as int),
    ensures
        r == word_uint(s@, spans(s@), k as int, line, field),
{
    if k < t.len() {
        let (a, b) = span_at(t, k);
        read_uint(s, a, b, line, field)
    } else {
        Ok(0)
    }
}

fn read_word_int(s: &Vec<char>, t: &Vec<(usize, usize)>, k: usize, line: usize, field: Field) -> (r:
    Result<i64, HeaderError>)
    requires
        spans_view(t@) == spans(s@),
        spans_ordered(spans(s@), 0, s@.len() as int),
    ensures
        r == word_int(s@, spans(s@), k as int, line, field),
{
    if k < t.len() {
        let (a, b) = span_at(t, k);
        read_int(s, a, b, line, field)
    } else {
        Ok(0)
    }
}

// ---------------------------------------------------------------------------
// Record line
/// `FS[/COUNTER_FREQ[(BASE_COUNT)]]` in `[a, b)`: the sampling frequency
/// (250 where not written), the counter frequency and the base counter value.
pub open spec fn spec_frequency_group(s: Seq<char>, a: int, b: int) -> Result<
    (Decimal, Option<Decimal>, Option<Decimal>),
    HeaderError,
> {
    let slash = first_of(s, '/', a, b);
    let fs = if slash == a {
        Ok(Decimal::spec_from_whole(250))
    } else {
        decimal_field(s, a, slash, 0, Field::SamplingFrequency)
    };
    if fs is Err {
        Err(fs->Err_0)
    } else if slash < b {
        let paren = first_of(s, '(', slash + 1, b);
        let cf = decimal_field(s, slash + 1, paren, 0, Field::CounterFrequency);
        if cf is Err {
            Err(cf->Err_0)
        } else if paren < b {
            if !(paren < b - 1 && s[b - 1] == ')') {
                Err(HeaderError::MalformedInput { line: 0 })
            } else {
                match decimal_field(s, paren + 1, b - 1, 0, Field::BaseCounter) {
                    Ok(bc) => Ok((fs->Ok_0, Some(cf->Ok_0), Some(bc))),
                    Err(e) => Err(e),
                }
            }
        } else {
            Ok((fs->Ok_0, Some(cf->Ok_0), None))
        }
    } else {
        Ok((fs->Ok_0, None, None))
    }
}

fn read_frequency_group(s: &Vec<char>, a: usize, b: usize) -> (r: Result<
    (Decimal, Option<Decimal>, Option<Decimal>),
    HeaderError,
>)
    requires
        a <= b <= s@.len(),
    ensures
        r == spec_frequency_group(s@, a as int, b as int),
{
    let slash = find_char(s, '/', a, b);
    let fs = if slash == a {
        Decimal::from_whole(250)
    } else {
        match read_decimal(s, a, slash, 0, Field::SamplingFrequency) {
            Ok(v) => v,
            Err(e) => return Err(e),
        }
    };
    if slash < b {
        let paren = find_char(s, '(', slash + 1, b);
        let cf = match read_decimal(s, slash + 1, paren, 0, Field::CounterFrequency) {
            Ok(v) => v,
            Err(e) => return Err(e),
        };
        if paren < b {
            if !(paren < b - 1 && s[b - 1] == ')') {
                return Err(HeaderError::MalformedInput { line: 0 });
            }
            match read_decimal(s, paren + 1, b - 1, 0, Field::BaseCounter) {
                Ok(bc) => Ok((fs, Some(cf), Some(bc))),
                Err(e) => Err(e),
            }
        } else {
            Ok((fs, Some(cf), None))
        }
    } else {
        Ok((fs, None, None))
    }
}

/// The header that a record line describes, without channels yet.
pub open spec fn spec_general(s: Seq<char>) -> Result<HeaderModel, HeaderError> {
    let t = spans(s);
    if t.len() == 0 {
        Err(HeaderError::MissingRequiredField { line: 0, field: Field::RecordName })
    } else {
        let a0 = t[0].0;
        let b0 = t[0].1;
        let slash = first_of(s, '/', a0, b0);
        let n_seg = uint_field(s, slash + 1, b0, 0, Field::SegmentCount);
        if slash == a0 {
            Err(HeaderError::MissingRequiredField { line: 0, field: Field::RecordName })
        } else if slash < b0 && n_seg is Err {
            Err(n_seg->Err_0)
        } else if t.len() < 2 {
            Err(HeaderError::MissingRequiredField { line: 0, field: Field::SignalCount })
        } else {
            let n_sig = uint_field(s, t[1].0, t[1].1, 0, Field::SignalCount);
            let freq = if t.len() > 2 {
                spec_frequency_group(s, t[2].0, t[2].1)
            } else {
                Ok((Decimal::spec_from_whole(250), None, None))
            };
            let sig_len = uint_field(s, t[3].0, t[3].1, 0, Field::SignalLength);
            if n_sig is Err {
                Err(n_sig->Err_0)
            } else if t.len() > 6 {
                Err(HeaderError::MalformedInput { line: 0 })
            } else if freq is Err {
                Err(freq->Err_0)
            } else if t.len() > 3 && sig_len is Err {
                Err(sig_len->Err_0)
            } else {
                Ok(
                    HeaderModel {
                        record_name: s.subrange(a0, slash),
                        n_seg: if slash < b0 {
                            Some(n_seg->Ok_0)
                        } else {
                            None
                        },
                        n_sig: n_sig->Ok_0,
                        fs: freq->Ok_0.0,
                        counter_freq: freq->Ok_0.1,
                        base_counter: freq->Ok_0.2,
                        sig_len: if t.len() > 3 {
                            Some(sig_len->Ok_0)
                        } else {
                            None
                        },
                        base_time: if t.len() > 4 {
                            Some(s.subrange(t[4].0, t[4].1))
                        } else {
                            None
                        },
                        base_date: if t.len() > 5 {
                            Some(s.subrange(t[5].0, t[5].1))
                        } else {
                            None
                        },
                        channels: seq![],
                    },
                )
            }
        }
    }
}

// ---------------------------------------------------------------------------
// Channel lines
/// `FORMAT[xSAMPS_PER_FRAME][:SKEW][+BYTE_OFFSET]` in `[a, b)`: the format
/// code, samples per frame (1 where not written, never 0), skew and byte
/// offset (0 where not written).
pub open spec fn spec_format_group(s: Seq<char>, a: int, b: int, line: usize) -> Result<
    (u64, u64, u64, u64),
    HeaderError,
> {
    let plus = first_of(s, '+', a, b);
    let colon = first_of(s, ':', a, plus);
    let x = first_of(s, 'x', a, colon);
    let fmt = uint_field(s, a, x, line, Field::Format);
    let spf = if x < colon {
        uint_field(s, x + 1, colon, line, Field::SampsPerFrame)
    } else {
        Ok(1)
    };
    let skew = if colon < plus {
        uint_field(s, colon + 1, plus, line, Field::Skew)
    } else {
        Ok(0)
    };
    let offset = if plus < b {
        uint_field(s, plus + 1, b, line, Field::ByteOffset)
    } else {
        Ok(0)
    };
    if fmt is Err {
        Err(fmt->Err_0)
    } else if spf is Err {
        Err(spf->Err_0)
    } else if spf->Ok_0 == 0 {
        Err(HeaderError::UnparsableNumber { line, field: Field::SampsPerFrame })
    } else if skew is Err {
        Err(skew->Err_0)
    } else if offset is Err {
        Err(offset->Err_0)
    } else {
        Ok((fmt->Ok_0, spf->Ok_0, skew->Ok_0, offset->Ok_0))
    }
}

fn read_format_group(s: &Vec<char>, a: usize, b: usize, line: usize) -> (r: Result<
    (u64, u64, u64, u64),
    HeaderError,
>)
    requires
        a <= b <= s@.len(),
    ensures
        r == spec_format_group(s@, a as int, b as int, line),
{
    let plus = find_char(s, '+', a, b);
    let colon = find_char(s, ':', a, plus);
    let x = find_char(s, 'x', a, colon);
    let fmt = match read_uint(s, a, x, line, Field::Format) {
        Ok(v) => v,
        Err(e) => return Err(e),
    };
    let spf = if x < colon {
        match read_uint(s, x + 1, colon, line, Field::SampsPerFrame) {
            Ok(v) => v,
            Err(e) => return Err(e),
        }
    } else {
        1
    };
    if spf == 0 {
        return Err(HeaderError::UnparsableNumber { line, field: Field::SampsPerFrame });
    }
    let skew = if colon < plus {
        match read_uint(s, colon + 1, plus, line, Field::Skew) {
            Ok(v) => v,
            Err(e) => return Err(e),
        }
    } else {
        0
    };
    let offset = if plus < b {
        match read_uint(s, plus + 1, b, line, Field::ByteOffset) {
            Ok(v) => v,
            Err(e) => return Err(e),
        }
    } else {
        0
    };
    Ok((fmt, spf, skew, offset))
}

/// `ADC_GAIN[(BASELINE)][/UNITS]` in `[a, b)`: the gain (200 where not
/// written), the baseline (0 where not written) and the span of the units.
pub open spec fn spec_gain_group(s: Seq<char>, a: int, b: int, line: usize) -> Result<
    (Decimal, i64, int, int),
    HeaderError,
> {
    let slash = first_of(s, '/', a, b);
    let paren = first_of(s, '(', a, slash);
    let gain = if paren == a {
        Ok(Decimal::spec_from_whole(200))
    } else {
        decimal_field(s, a, paren, line, Field::AdcGain)
    };
    let units_start = if slash < b {
        slash + 1
    } else {
        b
    };
    if gain is Err {
        Err(gain->Err_0)
    } else if paren < slash {
        if !(paren < slash - 1 && s[slash - 1] == ')') {
            Err(HeaderError::MalformedInput { line })
        } else {
            match int_field(s, paren + 1, slash - 1, line, Field::Baseline) {
                Ok(v) => Ok((gain->Ok_0, v, units_start, b)),
                Err(e) => Err(e),
            }
        }
    } else {
        Ok((gain->Ok_0, 0, units_start, b))
    }
}

fn read_gain_group(s: &Vec<char>, a: usize, b: usize, line: usize) -> (r: Result<
    (Decimal, i64, usize, usize),
    HeaderError,
>)
    requires
        a <= b <= s@.len(),
    ensures
        match (r, spec_gain_group(s@, a as int, b as int, line)) {
            (Ok(v), Ok(w)) => v.0 == w.0 && v.1 == w.1 && v.2 == w.2 && v.3 == w.3,
            (Err(e), Err(f)) => e == f,
            _ => false,
        },
        r matches Ok(v) ==> v.2 <= v.3 <= s@.len(),
{
    let slash = find_char(s, '/', a, b);
    let paren = find_char(s, '(', a, slash);
    let gain = if paren == a {
        Decimal::from_whole(200)
    } else {
        match read_decimal(s, a, paren, line, Field::AdcGain) {
            Ok(v) => v,
            Err(e) => return Err(e),
        }
    };
    let units_start = if slash < b {
        slash + 1
    } else {
        b
    };
    if paren < slash {
        if !(paren < slash - 1 && s[slash - 1] == ')') {
            return Err(HeaderError::MalformedInput { line });
        }
        match read_int(s, paren + 1, slash - 1, line, Field::Baseline) {
            Ok(v) => Ok((gain, v, units_start, b)),
            Err(e) => Err(e),
        }
    } else {
        Ok((gain, 0, units_start, b))
    }
}

/// The channel that a channel line describes; `line` is its place among
/// the header's lines.
pub open spec fn spec_channel(s: Seq<char>, line: usize) -> Result<ChannelModel, HeaderError> {
    let t = spans(s);
    if t.len() == 0 {
        Err(HeaderError::MissingRequiredField { line, field: Field::FileName })
    } else if t.len() < 2 {
        Err(HeaderError::MissingRequiredField { line, field: Field::Format })
    } else {
        let f = spec_format_group(s, t[1].0, t[1].1, line);
        let g = if t.len() > 2 {
            spec_gain_group(s, t[2].0, t[2].1, line)
        } else {
            Ok((Decimal::spec_from_whole(200), 0i64, 0int, 0int))
        };
        let res = word_uint(s, t, 3, line, Field::AdcResolution);
        let zero = word_int(s, t, 4, line, Field::AdcZero);
        let init = word_int(s, t, 5, line, Field::InitValue);
        let check = word_int(s, t, 6, line, Field::Checksum);
        let block = word_uint(s, t, 7, line, Field::BlockSize);
        if f is Err {
            Err(f->Err_0)
        } else if g is Err {
            Err(g->Err_0)
        } else if res is Err {
            Err(res->Err_0)
        } else if zero is Err {
            Err(zero->Err_0)
        } else if init is Err {
            Err(init->Err_0)
        } else if check is Err {
            Err(check->Err_0)
        } else if block is Err {
            Err(block->Err_0)
        } else {
            Ok(
                ChannelModel {
                    file_name: s.subrange(t[0].0, t[0].1),
                    fmt: f->Ok_0.0,
                    samps_per_frame: f->Ok_0.1,
                    skew: f->Ok_0.2,
                    byte_offset: f->Ok_0.3,
                    adc_gain: g->Ok_0.0,
                    baseline: g->Ok_0.1,
                    units: s.subrange(g->Ok_0.2, g->Ok_0.3),
                    adc_res: res->Ok_0,
                    adc_zero: zero->Ok_0,
                    init_value: init->Ok_0,
                    checksum: check->Ok_0,
                    block_size: block->Ok_0,
                    sig_name: if t.len() > 8 {
                        s.subrange(t[8].0, t[t.len() - 1].1)
                    } else {
                        seq![]
                    },
                },
            )
        }
    }
}

/// Decodes one channel line; `index` is its place among the header's lines.
pub fn decode_channel(line: &str, index: usize) -> (r: Result<WFDBChannel, HeaderError>)
    ensures
        channel_result_view(r) == spec_channel(line@, index),
{
    let s = chars_of(line);
    let t = word_spans(&s);
    if t.len() == 0 {
        return Err(HeaderError::MissingRequiredField { line: index, field: Field::FileName });
    }
    if t.len() < 2 {
        return Err(HeaderError::MissingRequiredField { line: index, field: Field::Format });
    }
    let (a0, b0) = span_at(&t, 0);
    let (a1, b1) = span_at(&t, 1);
    let (fmt, samps_per_frame, skew, byte_offset) = match read_format_group(&s, a1, b1, index) {
        Ok(v) => v,
        Err(e) => return Err(e),
    };
    let (adc_gain, baseline, us, ue) = if t.len() > 2 {
        let (a2, b2) = span_at(&t, 2);
        match read_gain_group(&s, a2, b2, index) {
            Ok(v) => v,
            Err(e) => return Err(e),
        }
    } else {
        (Decimal::from_whole(200), 0i64, 0usize, 0usize)
    };
    let adc_res = match read_word_uint(&s, &t, 3, index, Field::AdcResolution) {
        Ok(v) => v,
        Err(e) => return Err(e),
    };
    let adc_zero = match read_word_int(&s, &t, 4, index, Field::AdcZero) {
        Ok(v) => v,
        Err(e) => return Err(e),
    };
    let init_value = match read_word_int(&s, &t, 5, index, Field::InitValue) {
        Ok(v) => v,
        Err(e) => return Err(e),
    };
    let checksum = match read_word_int(&s, &t, 6, index, Field::Checksum) {
        Ok(v) => v,
        Err(e) => return Err(e),
    };
    let block_size = match read_word_uint(&s, &t, 7, index, Field::BlockSize) {
        Ok(v) => v,
        Err(e) => return Err(e),
    };
    let sig_name = if t.len() > 8 {
        let (a8, _) = span_at(&t, 8);
        let (_, bl) = span_at(&t, t.len() - 1);
        text_of(line, a8, bl)
    } else {
        String::new()
    };
    Ok(
        WFDBChannel {
            file_name: text_of(line, a0, b0),
            fmt,
            samps_per_frame,
            skew,
            byte_offset,
            adc_gain,
            baseline,
            units: text_of(line, us, ue),
            adc_res,
            adc_zero,
            init_value,
            checksum,
            block_size,
            sig_name,
        },
    )
}

// ---------------------------------------------------------------------------
// Whole header
pub open spec fn lines_view(v: Seq<&str>) -> Seq<Seq<char>> {
    v.map_values(|l: &str| l@)
}

/// The channels that the first `n` channel lines describe, or the first
/// error among them; the channel line `k` (from 0) is header line `k + 1`.
pub open spec fn spec_channels(lines: Seq<Seq<char>>, n: int) -> Result<
    Seq<ChannelModel>,
    HeaderError,
>
    decreases n,
{
    if n <= 0 {
        Ok(seq![])
    } else {
        match spec_channels(lines, n - 1) {
            Err(e) => Err(e),
            Ok(cs) => match spec_channel(lines[n - 1], n as usize) {
                Ok(c) => Ok(cs.push(c)),
                Err(e) => Err(e),
            },
        }
    }
}

/// The header `h` completed with the channels of `lines`: there must be
/// exactly as many lines as `h` declares signals.
pub open spec fn spec_with_channels(h: HeaderModel, lines: Seq<Seq<char>>) -> Result<
    HeaderModel,
    HeaderError,
> {
    if lines.len() != h.n_sig as int {
        Err(HeaderError::CountMismatch { declared: h.n_sig, supplied: lines.len() as usize })
    } else {
        match spec_channels(lines, lines.len() as int) {
            Ok(cs) => Ok(HeaderModel { channels: cs, ..h }),
            Err(e) => Err(e),
        }
    }
}

impl WFDBHeader {
    /// Decodes the record line of a header. Fields that are not written stay
    /// absent, except the sampling frequency, which is then 250.
    pub fn build_general_header(contents: &str) -> (r: Result<WFDBHeader, HeaderError>)
        ensures
            header_result_view(r) == spec_general(contents@),
    {
        let s = chars_of(contents);
        let t = word_spans(&s);
        if t.len() == 0 {
            return Err(HeaderError::MissingRequiredField { line: 0, field: Field::RecordName });
        }
        let (a0, b0) = span_at(&t, 0);
        let slash = find_char(&s, '/', a0, b0);
        if slash == a0 {
            return Err(HeaderError::MissingRequiredField { line: 0, field: Field::RecordName });
        }
        let n_seg = if slash < b0 {
            match read_uint(&s, slash + 1, b0, 0, Field::SegmentCount) {
                Ok(v) => Some(v),
                Err(e) => return Err(e),
            }
        } else {
            None
        };
        if t.len() < 2 {
            return Err(HeaderError::MissingRequiredField { line: 0, field: Field::SignalCount });
        }
        let (a1, b1) = span_at(&t, 1);
        let n_sig = match read_uint(&s, a1, b1, 0, Field::SignalCount) {
            Ok(v) => v,
            Err(e) => return Err(e),
        };
        if t.len() > 6 {
            return Err(HeaderError::MalformedInput { line: 0 });
        }
        let (fs, counter_freq, base_counter) = if t.len() > 2 {
            let (a2, b2) = span_at(&t, 2);
            match read_frequency_group(&s, a2, b2) {
                Ok(v) => v,
                Err(e) => return Err(e),
            }
        } else {
            (Decimal::from_whole(250), None, None)
        };
        let sig_len = if t.len() > 3 {
            let (a3, b3) = span_at(&t, 3);
            match read_uint(&s, a3, b3, 0, Field::SignalLength) {
                Ok(v) => Some(v),
                Err(e) => return Err(e),
            }
        } else {
            None
        };
        let base_time = if t.len() > 4 {
            let (a4, b4) = span_at(&t, 4);
            Some(text_of(contents, a4, b4))
        } else {
            None
        };
        let base_date = if t.len() > 5 {
            let (a5, b5) = span_at(&t, 5);
            Some(text_of(contents, a5, b5))
        } else {
            None
        };
        let h = WFDBHeader {
            record_name: text_of(contents, a0, slash),
            n_seg,
            n_sig,
            fs,
            counter_freq,
            base_counter,
            sig_len,
            base_time,
            base_date,
            channels: Vec::new(),
        };
        assert(h@.channels =~= seq![]);
        Ok(h)
    }

    /// Decodes the channel lines that follow the record line, one per
    /// declared signal, and stores their channels in the header. On an error
    /// the header is left as it was.
    pub fn build_channel_header(&mut self, contents: Vec<&str>) -> (r: Result<(), HeaderError>)
        ensures
            match spec_with_channels(old(self)@, lines_view(contents@)) {
                Ok(h) => r is Ok && final(self)@ == h,
                Err(e) => r == Err::<(), HeaderError>(e) && final(self)@ == old(self)@,
            },
    {
        let n = contents.len();
        if n as u64 != self.n_sig {
            return Err(HeaderError::CountMismatch { declared: self.n_sig, supplied: n });
        }
        let ghost lines = lines_view(contents@);
        let mut out: Vec<WFDBChannel> = Vec::new();
        let mut i: usize = 0;
        assert(out@.map_values(|c: WFDBChannel| c@) =~= seq![]);
        while i < n
            invariant
                n == contents@.len(),
                lines == lines_view(contents@),
                lines.len() == n,
                self@ == old(self)@,
                n as int == self.n_sig as int,
                i <= n,
                spec_channels(lines, i as int) == Ok::<Seq<ChannelModel>, HeaderError>(
                    out@.map_values(|c: WFDBChannel| c@),
                ),
            decreases n - i,
        {
            let line: &str = contents[i];
            assert(lines[i as int] == line@);
            let c = match decode_channel(line, i + 1) {
                Ok(c) => c,
                Err(e) => {
                    proof {
                        assert(spec_channels(lines, i + 1) == Err::<Seq<ChannelModel>, HeaderError>(
                            e,
                        ));
                        lemma_channels_error_stays(lines, i + 1, n as int);
                    }
                    return Err(e);
                },
            };
            let ghost before = out@;
            out.push(c);
            assert(out@.map_values(|c: WFDBChannel| c@) =~= before.map_values(
                |c: WFDBChannel| c@,
            ).push(c@));
            i = i + 1;
        }
        self.channels = out;
        Ok(())
    }
}

/// Once a channel line fails, the decoding of every longer run of lines
/// fails with the same error.
proof fn lemma_channels_error_stays(lines: Seq<Seq<char>>, i: int, n: int)
    requires
        0 <= i <= n,
        spec_channels(lines, i) is Err,
    ensures
        spec_channels(lines, n) == spec_channels(lines, i),
    decreases n - i,
{
    if i < n {
        lemma_channels_error_stays(lines, i, n - 1);
    }
}

/// With fewer or more channel lines than declared signals, completing a
/// header always fails with a count mismatch, whatever the signal count.
pub proof fn lemma_count_mismatch(h: HeaderModel, lines: Seq<Seq<char>>)
    requires
        lines.len() != h.n_sig as int,
    ensures
        spec_with_channels(h, lines) == Err::<HeaderModel, HeaderError>(
            HeaderError::CountMismatch { declared: h.n_sig, supplied: lines.len() as usize },
        ),
{
}

/// A channel line whose ADC gain is not written (no third word, or a third
/// word that starts with its baseline or units) decodes with a gain of 200.
pub proof fn lemma_gain_default(s: Seq<char>, line: usize)
    requires
        spec_channel(s, line) is Ok,
        spans(s).len() <= 2 || ({
            let a = spans(s)[2].0;
            let b = spans(s)[2].1;
            first_of(s, '(', a, first_of(s, '/', a, b)) == a
        }),
    ensures
        spec_channel(s, line)->Ok_0.adc_gain == Decimal::spec_from_whole(200),
{
}

/// A channel line whose format word has no `x` part decodes with one sample
/// per frame.
pub proof fn lemma_samps_per_frame_default(s: Seq<char>, line: usize)
    requires
        spec_channel(s, line) is Ok,
        spans(s).len() >= 2,
        forall|k: int| spans(s)[1].0 <= k < spans(s)[1].1 ==> s[k] != 'x',
    ensures
        spec_channel(s, line)->Ok_0.samps_per_frame == 1,
{
    let a = spans(s)[1].0;
    let b = spans(s)[1].1;
    crate::text::lemma_spans_ordered_all(s);
    let plus = first_of(s, '+', a, b);
    lemma_first_of(s, '+', a, b);
    let colon = first_of(s, ':', a, plus);
    lemma_first_of(s, ':', a, plus);
    lemma_first_of(s, 'x', a, colon);
}

/// The record line written from a record name and a signal count, followed
/// by `rest` (empty, or optional fields after whitespace).
pub open spec fn record_line(name: Seq<char>, count: Seq<char>, rest: Seq<char>) -> Seq<char> {
    name + seq![' '] + count + rest
}

/// A record line that writes a record name and a signal count, whatever
/// optional fields follow, decodes (where it decodes) to exactly that name and
/// that count: the required fields survive writing and reading unchanged.
pub proof fn lemma_required_fields_round_trip(name: Seq<char>, count: Seq<char>, rest: Seq<char>)
    requires
        name.len() > 0,
        forall|k: int| 0 <= k < name.len() ==> !is_space(#[trigger] name[k]) && name[k] != '/',
        count.len() > 0,
        all_digits(count, 0, count.len() as int),
        rest.len() == 0 || is_space(rest[0]),
        spec_general(record_line(name, count, rest)) is Ok,
    ensures
        spec_general(record_line(name, count, rest))->Ok_0.record_name == name,
        spec_general(record_line(name, count, rest))->Ok_0.n_sig as int == digits_value(
            count,
            0,
            count.len() as int,
        ),
{
    let s = record_line(name, count, rest);
    let m = name.len() as int;
    let e = m + 1 + count.len();
    assert(forall|k: int| 0 <= k < m ==> s[k] == name[k]);
    assert(s[m] == ' ');
    assert(forall|k: int| 0 <= k < count.len() ==> s[m + 1 + k] == count[k]);
    assert(e == s.len() || s[e] == rest[0]);
    assert forall|k: int| m + 1 <= k < e implies !is_space(#[trigger] s[k]) by {
        assert(s[k] == count[k - (m + 1)]);
        assert(crate::text::is_digit(count[k - (m + 1)]));
    }
    lemma_word_end(s, 1, m);
    lemma_word_end(s, m + 2, e);
    assert(spans_from(s, m) == spans_from(s, m + 1));
    assert(spans_from(s, m + 1) == seq![(m + 1, e)] + spans_from(s, e));
    assert(spans_from(s, 0) == seq![(0, m)] + spans_from(s, m));
    let t = spans(s);
    assert(t[0] == (0int, m));
    assert(t[1] == (m + 1, e));
    lemma_first_of(s, '/', 0, m);
    assert(s.subrange(0, m) =~= name);
    lemma_digits_shift(s, m + 1, e, count, 0);
}

} // verus!
