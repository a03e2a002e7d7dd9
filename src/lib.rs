//! Reading WFDB (waveform database) records: the text header that describes a
//! recording, and the little-endian sample stream of its signal files.
use vstd::prelude::*;

pub mod header;
pub mod signal;
pub mod text;

verus! {

} // verus!
