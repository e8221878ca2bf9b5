//! PCM sample data and its layout.

use vstd::prelude::*;
use crate::le::{push_u16, push_u32, u16_bytes, u32_bytes};

verus! {

/// Layout of a block of PCM samples.
#[derive(Clone, Copy, Debug)]
pub struct WavFormat {
    pub channels: u16,
    pub sample_rate: u32,
    pub bit_depth: u16,
}

/// A block of PCM samples with its layout.
#[derive(Debug)]
pub struct WavSample {
    pub format: WavFormat,
    pub data: Vec<u8>,
}

impl Clone for WavSample {
    fn clone(&self) -> (r: Self)
        ensures
            r.format == self.format,
            r.data@ == self.data@,
    {
        let data = self.data.clone();
        assert(data@ =~= self.data@);
        WavSample { format: self.format, data }
    }
}

/// The format chunk of a RIFF file of PCM samples.
#[allow(non_snake_case)]
#[derive(Debug)]
pub struct WAVEFORMATEX {
    /// 1 for PCM.
    pub wFormatTag: u16,
    pub nChannels: u16,
    pub nSamplesPerSec: u32,
    /// `nSamplesPerSec * nBlockAlign`.
    pub nAvgBytesPerSec: u32,
    /// `nChannels * wBitsPerSample / 8`.
    pub nBlockAlign: u16,
    pub wBitsPerSample: u16,
}

/// The four characters `RIFF`.
pub open spec fn riff_tag() -> Seq<u8> {
    seq![0x52u8, 0x49u8, 0x46u8, 0x46u8]
}

/// The four characters `WAVE`.
pub open spec fn wave_tag() -> Seq<u8> {
    seq![0x57u8, 0x41u8, 0x56u8, 0x45u8]
}

/// The four characters `fmt` and a space.
pub open spec fn fmt_tag() -> Seq<u8> {
    seq![0x66u8, 0x6du8, 0x74u8, 0x20u8]
}

/// The four characters `data`.
pub open spec fn data_tag() -> Seq<u8> {
    seq![0x64u8, 0x61u8, 0x74u8, 0x61u8]
}

/// Length of the format chunk's body.
pub const FMT_LEN: u32 = 16;

/// Bytes of a RIFF header between the size field and the sample data.
pub const RIFF_REST: u32 = 36;

/// The header of a RIFF file that holds `samples` stereo frames of one
/// byte for each channel, at 44100 frames a second.
pub open spec fn wav_header_bytes(samples: u32) -> Seq<u8> {
    let format = WAVEFORMATEX {
        wFormatTag: 1,
        nChannels: 2,
        nSamplesPerSec: 44100,
        nAvgBytesPerSec: 88200,
        nBlockAlign: 2,
        wBitsPerSample: 8,
    };
    riff_tag() + u32_bytes((RIFF_REST + 2 * samples) as u32) + wave_tag() + format.bytes()
        + data_tag() + u32_bytes((2 * samples) as u32)
}

#[allow(non_snake_case)]
impl WAVEFORMATEX {
    /// The chunk as bytes: the tag, the length of the body, and the six
    /// fields in order, every number with its lowest byte first.
    pub open spec fn bytes(&self) -> Seq<u8> {
        fmt_tag() + u32_bytes(FMT_LEN) + u16_bytes(self.wFormatTag) + u16_bytes(self.nChannels)
            + u32_bytes(self.nSamplesPerSec) + u32_bytes(self.nAvgBytesPerSec) + u16_bytes(
            self.nBlockAlign,
        ) + u16_bytes(self.wBitsPerSample)
    }

    /// The format of PCM samples, with the two fields that follow from
    /// the others filled in.
    pub fn new(nChannels: u16, nSamplesPerSec: u32, wBitsPerSample: u16) -> (r: WAVEFORMATEX)
        requires
            nChannels * wBitsPerSample <= u16::MAX,
            nSamplesPerSec * (nChannels * wBitsPerSample / 8) <= u32::MAX,
        ensures
            r.wFormatTag == 1,
            r.nChannels == nChannels,
            r.nSamplesPerSec == nSamplesPerSec,
            r.wBitsPerSample == wBitsPerSample,
            r.nBlockAlign == nChannels * wBitsPerSample / 8,
            r.nAvgBytesPerSec == nSamplesPerSec * r.nBlockAlign,
    {
        let nBlockAlign: u16 = nChannels * wBitsPerSample / 8;
        let nAvgBytesPerSec: u32 = nSamplesPerSec * nBlockAlign as u32;
        WAVEFORMATEX {
            wFormatTag: 1,
            nChannels,
            nSamplesPerSec,
            nAvgBytesPerSec,
            nBlockAlign,
            wBitsPerSample,
        }
    }

    pub fn to_bytes(&self) -> (out: Vec<u8>)
        ensures
            out@ == self.bytes(),
            out@.len() == 24,
    {
        let mut out: Vec<u8> = Vec::with_capacity(24);
        out.push(0x66);
        out.push(0x6d);
        out.push(0x74);
        out.push(0x20);
        assert(out@ =~= fmt_tag());
        push_u32(&mut out, FMT_LEN);
        push_u16(&mut out, self.wFormatTag);
        push_u16(&mut out, self.nChannels);
        push_u32(&mut out, self.nSamplesPerSec);
        push_u32(&mut out, self.nAvgBytesPerSec);
        push_u16(&mut out, self.nBlockAlign);
        push_u16(&mut out, self.wBitsPerSample);
        out
    }
}

/// The header that goes before `samples` frames of output.
pub fn wav_header(samples: u32) -> (out: Vec<u8>)
    requires
        RIFF_REST + 2 * samples <= u32::MAX,
    ensures
        out@ == wav_header_bytes(samples),
        out@.len() == 44,
{
    let data_size: u32 = 2 * samples;
    let riff_size: u32 = RIFF_REST + data_size;
    let format = WAVEFORMATEX::new(2, 44100, 8);
    let mut out: Vec<u8> = Vec::new();
    out.push(0x52);
    out.push(0x49);
    out.push(0x46);
    out.push(0x46);
    assert(out@ =~= riff_tag());
    push_u32(&mut out, riff_size);
    out.push(0x57);
    out.push(0x41);
    out.push(0x56);
    out.push(0x45);
    assert(out@ =~= riff_tag() + u32_bytes(riff_size) + wave_tag());
    let mut chunk = format.to_bytes();
    out.append(&mut chunk);
    out.push(0x64);
    out.push(0x61);
    out.push(0x74);
    out.push(0x61);
    assert(out@ =~= riff_tag() + u32_bytes(riff_size) + wave_tag() + format.bytes() + data_tag());
    push_u32(&mut out, data_size);
    out
}

} // verus!
