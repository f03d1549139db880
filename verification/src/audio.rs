//! Waveform parsing.
//!
//! Character sounds are RIFF/WAVE blobs lifted straight out of the character
//! file and may use any codec the author had installed. Only what the speech
//! envelope needs is read here: the format and the samples.
use vstd::prelude::*;

use crate::bytes;
use crate::bytes::{dword, has_tag, word};

verus! {

/// The sample format of a WAVE buffer.
#[derive(Debug, Clone, Copy, PartialEq, Eq, Structural)]
pub struct WavFormat {
    pub tag: u16,
    pub channels: u16,
    pub sample_rate: u32,
    pub bits: u16,
}

/// `RIFF`.
pub open spec fn riff_tag() -> Seq<u8> {
    seq![0x52u8, 0x49u8, 0x46u8, 0x46u8]
}

/// `WAVE`.
pub open spec fn wave_tag() -> Seq<u8> {
    seq![0x57u8, 0x41u8, 0x56u8, 0x45u8]
}

/// `fmt `.
pub open spec fn fmt_tag() -> Seq<u8> {
    seq![0x66u8, 0x6Du8, 0x74u8, 0x20u8]
}

/// `data`.
pub open spec fn data_tag() -> Seq<u8> {
    seq![0x64u8, 0x61u8, 0x74u8, 0x61u8]
}

/// The buffer carries the marks of a WAVE sound.
pub open spec fn is_wave(data: Seq<u8>) -> bool {
    bytes::tagged(data, 0, riff_tag()) && bytes::tagged(data, 8, wave_tag())
}

/// Whether a buffer carries the marks of a WAVE sound.
pub fn has_wave_marks(data: &[u8]) -> (r: bool)
    ensures
        r == is_wave(data@),
{
    let riff: [u8; 4] = [0x52, 0x49, 0x46, 0x46];
    let wave: [u8; 4] = [0x57, 0x41, 0x56, 0x45];
    assert(riff@ =~= riff_tag());
    assert(wave@ =~= wave_tag());
    has_tag(data, 0, &riff) && has_tag(data, 8, &wave)
}

/// The format in the body of a format chunk. There is at least one channel and
/// one sample per second.
pub open spec fn format_at(data: Seq<u8>, body: int) -> WavFormat {
    WavFormat {
        tag: bytes::le16(data, body),
        channels: if bytes::le16(data, body + 2) == 0 {
            1
        } else {
            bytes::le16(data, body + 2)
        },
        sample_rate: if bytes::le32(data, body + 4) == 0 {
            1
        } else {
            bytes::le32(data, body + 4)
        },
        bits: bytes::le16(data, body + 14),
    }
}

/// A wave buffer taken apart: its format, and where its samples start and end.
pub struct Wave {
    pub format: WavFormat,
    pub start: int,
    pub end: int,
}

/// Where the samples end that start at `body`, in a chunk of the declared
/// size: streamed output writes a placeholder for the size, so a size of zero,
/// or one that does not fit, stands for the rest of the buffer.
pub open spec fn samples_end(data: Seq<u8>, body: int, size: int) -> int {
    if size == 0 || body + size > data.len() {
        data.len() as int
    } else {
        body + size
    }
}

/// The chunks from `pos` on, with the format that was found before.
pub open spec fn chunks_from(data: Seq<u8>, pos: int, format: Option<WavFormat>) -> Option<Wave>
    decreases
            if pos <= data.len() {
                data.len() - pos
            } else {
                0
            },
{
    if pos < 0 || pos + 8 > data.len() {
        None
    } else {
        let size = bytes::le32(data, pos + 4) as int;
        let body = pos + 8;
        // Chunks are padded to even lengths.
        let next = body + size + size % 2;
        if bytes::tagged(data, pos, fmt_tag()) && body + 16 <= data.len() {
            chunks_from(data, next, Some(format_at(data, body)))
        } else if bytes::tagged(data, pos, data_tag()) {
            match format {
                Some(f) => Some(
                    Wave { format: f, start: body, end: samples_end(data, body, size) },
                ),
                None => None,
            }
        } else {
            chunks_from(data, next, format)
        }
    }
}

/// The format and samples of a WAVE buffer.
pub open spec fn wave_of(data: Seq<u8>) -> Option<Wave> {
    if is_wave(data) {
        chunks_from(data, 12, None)
    } else {
        None
    }
}

fn read_format(data: &[u8], body: usize) -> (r: WavFormat)
    requires
        body + 16 <= data@.len(),
    ensures
        r == format_at(data@, body as int),
{
    assert(body + 16 <= data.len());
    let channels = word(data, body + 2);
    let sample_rate = dword(data, body + 4);
    WavFormat {
        tag: word(data, body),
        channels: if channels == 0 {
            1
        } else {
            channels
        },
        sample_rate: if sample_rate == 0 {
            1
        } else {
            sample_rate
        },
        bits: word(data, body + 14),
    }
}

/// Locates the PCM payload of a WAVE buffer and returns it with its format.
///
/// The declared `data` chunk size is ignored where it cannot be right: streamed
/// WAVE output (espeak-ng's among others) writes a placeholder length, so the
/// payload is taken as the rest of the buffer when the declared size does not
/// fit.
pub fn parse_wav(data: &[u8]) -> (r: Option<(WavFormat, &[u8])>)
    ensures
        match r {
            Some((format, pcm)) => wave_of(data@) matches Some(w) && {
                &&& format == w.format
                &&& 0 <= w.start <= w.end <= data@.len()
                &&& pcm@ == data@.subrange(w.start, w.end)
            },
            None => wave_of(data@) is None,
        },
{
    if !has_wave_marks(data) {
        return None;
    }
    let fmt: [u8; 4] = [0x66, 0x6D, 0x74, 0x20];
    let tag: [u8; 4] = [0x64, 0x61, 0x74, 0x61];
    assert(fmt@ =~= fmt_tag());
    assert(tag@ =~= data_tag());
    let len: u64 = data.len() as u64;
    let mut pos: u64 = 12;
    let mut format: Option<WavFormat> = None;
    while len >= 8 && pos <= len - 8
        invariant
            len == data.len(),
            fmt@ == fmt_tag(),
            tag@ == data_tag(),
            chunks_from(data@, pos as int, format) == wave_of(data@),
        decreases
                if pos <= len {
                    len - pos
                } else {
                    0
                },
    {
        let at: usize = pos as usize;
        let size: u64 = dword(data, at + 4) as u64;
        let body: usize = at + 8;
        if has_tag(data, at, &fmt) && data.len() - body >= 16 {
            format = Some(read_format(data, body));
        } else if has_tag(data, at, &tag) {
            return match format {
                Some(f) => {
                    let room: u64 = (data.len() - body) as u64;
                    let end: usize = if size == 0 || size > room {
                        data.len()
                    } else {
                        body + size as usize
                    };
                    Some((f, vstd::slice::slice_subrange(data, body, end)))
                },
                None => None,
            };
        }
        if size >= (data.len() - body) as u64 {
            assert(chunks_from(data@, pos + 8 + size + size % 2, format) is None);
            return None;
        }
        pos = pos + 8 + size + size % 2;
    }
    None
}

/// In the plain layout, with a sixteen-byte format chunk first and the samples
/// right behind it, reading finds that format and those samples, whether the
/// declared size is right, zero or too large.
pub proof fn plain_waves_are_read(data: Seq<u8>)
    requires
        is_wave(data),
        data.len() >= 44,
        bytes::tagged(data, 12, fmt_tag()),
        bytes::le32(data, 16) == 16,
        bytes::tagged(data, 36, data_tag()),
    ensures
        wave_of(data) == Some(
            (Wave {
                format: format_at(data, 20),
                start: 44,
                end: samples_end(data, 44, bytes::le32(data, 40) as int),
            }),
        ),
{
    assert(!bytes::tagged(data, 36, fmt_tag())) by {
        if bytes::tagged(data, 36, fmt_tag()) {
            assert(fmt_tag()[0] == data_tag()[0]);
        }
    }
    let f = Some(format_at(data, 20));
    assert(chunks_from(data, 12, None) == chunks_from(data, 36, f));
    assert(chunks_from(data, 36, f) == Some(
        (Wave {
            format: format_at(data, 20),
            start: 44,
            end: samples_end(data, 44, bytes::le32(data, 40) as int),
        }),
    ));
}

/// Without a format chunk in front of them, samples are of no use: a buffer
/// that starts with its data chunk gives nothing.
pub proof fn samples_need_a_format(data: Seq<u8>)
    requires
        is_wave(data),
        bytes::tagged(data, 12, data_tag()),
    ensures
        wave_of(data) is None,
{
    assert(!bytes::tagged(data, 12, fmt_tag())) by {
        if bytes::tagged(data, 12, fmt_tag()) {
            assert(fmt_tag()[0] == data_tag()[0]);
        }
    }
}

/// A WAVE buffer in the plain layout: the format in sixteen bytes, then the
/// samples under a declared size.
pub open spec fn plain_wave(
    total: u32,
    tag: u16,
    channels: u16,
    rate: u32,
    spare: Seq<u8>,
    bits: u16,
    size: u32,
    pcm: Seq<u8>,
) -> Seq<u8> {
    seq![0x52u8, 0x49u8, 0x46u8, 0x46u8] + bytes::dword_bytes(total) + seq![
        0x57u8,
        0x41u8,
        0x56u8,
        0x45u8,
        0x66u8,
        0x6Du8,
        0x74u8,
        0x20u8,
        16u8,
        0u8,
        0u8,
        0u8,
    ] + bytes::word_bytes(tag) + bytes::word_bytes(channels) + bytes::dword_bytes(rate) + spare
        + bytes::word_bytes(bits) + seq![0x64u8, 0x61u8, 0x74u8, 0x61u8] + bytes::dword_bytes(size)
        + pcm
}

proof fn word_reads(data: Seq<u8>, at: int, v: u16)
    requires
        data[at] == bytes::word_bytes(v)[0],
        data[at + 1] == bytes::word_bytes(v)[1],
    ensures
        bytes::le16(data, at) == v,
{
}

proof fn dword_reads(data: Seq<u8>, at: int, v: u32)
    requires
        data[at] == bytes::dword_bytes(v)[0],
        data[at + 1] == bytes::dword_bytes(v)[1],
        data[at + 2] == bytes::dword_bytes(v)[2],
        data[at + 3] == bytes::dword_bytes(v)[3],
    ensures
        bytes::le32(data, at) == v,
{
}

/// What a plain WAVE buffer says comes back: the format, of at least one channel
/// and one sample per second, and the samples. They are as many bytes as the
/// declared size says; a size of zero, or one larger than what is there, stands
/// for all the rest.
pub proof fn plain_waves_come_back(
    total: u32,
    tag: u16,
    channels: u16,
    rate: u32,
    spare: Seq<u8>,
    bits: u16,
    size: u32,
    pcm: Seq<u8>,
)
    requires
        spare.len() == 6,
    ensures
        wave_of(plain_wave(total, tag, channels, rate, spare, bits, size, pcm)) == Some(
            (Wave {
                format: WavFormat {
                    tag,
                    channels: if channels == 0 {
                        1
                    } else {
                        channels
                    },
                    sample_rate: if rate == 0 {
                        1
                    } else {
                        rate
                    },
                    bits,
                },
                start: 44,
                end: if 0 < size <= pcm.len() {
                    44 + size
                } else {
                    44 + pcm.len() as int
                },
            }),
        ),
{
    let data = plain_wave(total, tag, channels, rate, spare, bits, size, pcm);
    assert(data.len() == 44 + pcm.len());
    assert(data.subrange(0, 4) =~= riff_tag());
    assert(data.subrange(8, 12) =~= wave_tag());
    assert(data.subrange(12, 16) =~= fmt_tag());
    assert(data.subrange(36, 40) =~= data_tag());
    assert(data[16] == 16 && data[17] == 0 && data[18] == 0 && data[19] == 0);
    word_reads(data, 20, tag);
    word_reads(data, 22, channels);
    dword_reads(data, 24, rate);
    word_reads(data, 34, bits);
    dword_reads(data, 40, size);
    plain_waves_are_read(data);
}

/// A chunk of another kind is passed over, with the byte that pads it to an even
/// length, and keeps the format that was found before it.
pub proof fn other_chunks_are_passed_over(
    front: Seq<u8>,
    tag: Seq<u8>,
    size: u32,
    back: Seq<u8>,
    format: Option<WavFormat>,
)
    requires
        tag.len() == 4,
        tag != seq![0x66u8, 0x6Du8, 0x74u8, 0x20u8],
        tag != seq![0x64u8, 0x61u8, 0x74u8, 0x61u8],
    ensures
        ({
            let data = front + tag + bytes::dword_bytes(size) + back;
            chunks_from(data, front.len() as int, format) == chunks_from(
                data,
                front.len() + 8 + size + size % 2,
                format,
            )
        }),
{
    let data = front + tag + bytes::dword_bytes(size) + back;
    let n = front.len() as int;
    assert(data.subrange(n, n + 4) =~= tag);
    assert(tag != fmt_tag() && tag != data_tag());
    dword_reads(data, n + 4, size);
}

/// A format chunk is read wherever it stands, as long as sixteen bytes follow it,
/// whatever size it declares; the next chunk is looked for behind that size. One
/// with fewer bytes behind it tells nothing.
pub proof fn formats_are_read_where_they_stand(
    front: Seq<u8>,
    size: u32,
    tag: u16,
    channels: u16,
    rate: u32,
    spare: Seq<u8>,
    bits: u16,
    back: Seq<u8>,
    format: Option<WavFormat>,
)
    requires
        spare.len() == 6,
    ensures
        ({
            let head = front + seq![0x66u8, 0x6Du8, 0x74u8, 0x20u8] + bytes::dword_bytes(size);
            let data = head + (bytes::word_bytes(tag) + bytes::word_bytes(channels)
                + bytes::dword_bytes(rate) + spare + bytes::word_bytes(bits)) + back;
            let next = front.len() + 8 + size + size % 2;
            &&& chunks_from(data, front.len() as int, format) == chunks_from(
                data,
                next,
                Some(
                    WavFormat {
                        tag,
                        channels: if channels == 0 {
                            1
                        } else {
                            channels
                        },
                        sample_rate: if rate == 0 {
                            1
                        } else {
                            rate
                        },
                        bits,
                    },
                ),
            )
            &&& back.len() < 16 ==> chunks_from(head + back, front.len() as int, format)
                == chunks_from(head + back, next, format)
        }),
{
    let n = front.len() as int;
    let head = front + seq![0x66u8, 0x6Du8, 0x74u8, 0x20u8] + bytes::dword_bytes(size);
    let data = head + (bytes::word_bytes(tag) + bytes::word_bytes(channels) + bytes::dword_bytes(
        rate,
    ) + spare + bytes::word_bytes(bits)) + back;
    assert(data.subrange(n, n + 4) =~= fmt_tag());
    dword_reads(data, n + 4, size);
    word_reads(data, n + 8, tag);
    word_reads(data, n + 10, channels);
    dword_reads(data, n + 12, rate);
    word_reads(data, n + 22, bits);
    let less = head + back;
    assert(less.subrange(n, n + 4) =~= fmt_tag());
    dword_reads(less, n + 4, size);
    assert(fmt_tag()[0] != data_tag()[0]);
}

/// The samples follow the first data chunk's head, wherever it stands. They are
/// as many bytes as it declares, or all the rest where it declares none or more
/// than there are. Without a format in front there are none.
pub proof fn samples_follow_the_format(
    front: Seq<u8>,
    size: u32,
    back: Seq<u8>,
    format: WavFormat,
)
    ensures
        ({
            let data = front + seq![0x64u8, 0x61u8, 0x74u8, 0x61u8] + bytes::dword_bytes(size)
                + back;
            let start = front.len() + 8;
            &&& chunks_from(data, front.len() as int, None) is None
            &&& chunks_from(data, front.len() as int, Some(format)) == Some(
                Wave {
                    format,
                    start: start as int,
                    end: if 0 < size <= back.len() {
                        start + size
                    } else {
                        (start + back.len()) as int
                    },
                },
            )
        }),
{
    let n = front.len() as int;
    let data = front + seq![0x64u8, 0x61u8, 0x74u8, 0x61u8] + bytes::dword_bytes(size) + back;
    assert(data.subrange(n, n + 4) =~= data_tag());
    assert(fmt_tag()[0] != data_tag()[0]);
    dword_reads(data, n + 4, size);
}

/// Only what starts with `RIFF` and has `WAVE` at the ninth byte is a wave, and
/// its chunks start behind that.
pub proof fn waves_carry_their_marks(data: Seq<u8>)
    ensures
        is_wave(data) <==> data.len() >= 12 && data.take(4) == seq![0x52u8, 0x49u8, 0x46u8, 0x46u8]
            && data.subrange(8, 12) == seq![0x57u8, 0x41u8, 0x56u8, 0x45u8],
        is_wave(data) ==> wave_of(data) == chunks_from(data, 12, None),
        !is_wave(data) ==> wave_of(data) is None,
        data.len() < 20 ==> wave_of(data) is None,
{
    if data.len() >= 4 {
        assert(data.subrange(0, 4) =~= data.take(4));
    }
}

} // verus!
