//! Microsoft Actor 1.0/2.0 (`.act`) reader.
//!
//! Actor is the format behind the Microsoft Bob cast and the Office 95-era
//! assistants. Unlike Agent's `.acs`, the artwork is vector: every frame is a
//! stack of placeable Windows Metafiles positioned on a 2880x2160 logical
//! canvas, which [`crate::wmf`] turns into drawing operations.
//!
//! File layout, all offsets relative to the end of the name string:
//!
//! | pointer | contents |
//! |---|---|
//! | 0 | metafile and frame-composition blobs |
//! | 1 | offset table into pointer 0 |
//! | 2 | audio blobs |
//! | 3 | offset table into pointer 2 |
//! | 4 | animation sequences |
//! | 5 | action table |
//! | 6 | character bio strings |
//! | 7 | secondary sequence table (unused here) |
//!
//! Entries below `first_frame` in the offset table are metafiles; the rest are
//! frame compositions.
use vstd::prelude::*;

use crate::bytes;
use crate::bytes::{dword, has_tag, slice_of, to_signed, word};
use crate::canvas;
use crate::canvas::{blank, paint, Patch, Rgba};
use crate::character::{Artwork, Character};
use crate::error::{Error, Fault};
use crate::text;
use crate::text::{decimal_text, from_utf8_lossy};
use crate::sequence;
use crate::sequence::{branch_chains_fit, build_frames, parse_sequences, Slot, BLANK};
use crate::types;
use crate::types::{
    Animation, AnimationModel, CharacterInfo, LocalizedInfo, LocalizedModel, PlainInfo, Rgb,
    Transition,
};
use crate::wmf;
use crate::wmf::{is_drawable, Drawing, DrawingModel};

verus! {

/// Actor's logical drawing canvas, which layer rectangles are expressed in.
pub const LOGICAL_WIDTH: u16 = 2880;

/// The height of the logical drawing canvas.
pub const LOGICAL_HEIGHT: u16 = 2160;

/// The bytes from `start` up to `end` of a file.
#[derive(Debug, Clone, Copy, PartialEq, Eq, Structural)]
pub struct Span {
    pub start: u64,
    pub end: u64,
}

impl Span {
    /// The number of bytes; none where the span runs backwards.
    pub open spec fn size(self) -> int {
        if self.start <= self.end {
            self.end - self.start
        } else {
            0
        }
    }
}

/// One metafile placed on a frame, in logical units.
#[derive(Debug, Clone, Copy, PartialEq, Eq, Structural)]
pub struct Layer {
    pub asset: u16,
    pub left: i16,
    pub top: i16,
    pub right: i16,
    pub bottom: i16,
}

/// The complaint about data that ends too early.
pub open spec fn truncated() -> Fault {
    Fault::Parse("truncated Actor data"@)
}

/// The word at `at`, or the complaint that it is not there.
pub open spec fn word_at(data: Seq<u8>, at: int) -> Result<u16, Fault> {
    if at + 2 <= data.len() {
        Ok(bytes::le16(data, at))
    } else {
        Err(truncated())
    }
}

/// The double word at `at`, or the complaint that it is not there.
pub open spec fn dword_at(data: Seq<u8>, at: int) -> Result<u32, Fault> {
    if at + 4 <= data.len() {
        Ok(bytes::le32(data, at))
    } else {
        Err(truncated())
    }
}

/// The value or the fault of a result.
pub open spec fn outcome<T>(r: Result<T, Error>) -> Result<T, Fault> {
    match r {
        Ok(v) => Ok(v),
        Err(e) => Err(e@),
    }
}

/// Reads the word at `at`.
pub fn u16_at(data: &[u8], at: u64) -> (r: Result<u16, Error>)
    ensures
        outcome(r) == word_at(data@, at as int),
{
    let len: u64 = data.len() as u64;
    if len >= 2 && at <= len - 2 {
        Ok(word(data, at as usize))
    } else {
        Err(Error::parse("truncated Actor data"))
    }
}

/// Reads the double word at `at`.
pub fn u32_at(data: &[u8], at: u64) -> (r: Result<u32, Error>)
    ensures
        outcome(r) == dword_at(data@, at as int),
{
    let len: u64 = data.len() as u64;
    if len >= 4 && at <= len - 4 {
        Ok(dword(data, at as usize))
    } else {
        Err(Error::parse("truncated Actor data"))
    }
}

/// The offset table between `at` and `end`.
pub open spec fn offsets_at(data: Seq<u8>, at: int, end: int) -> Result<Seq<u32>, Fault> {
    if end < at || (end - at) % 4 != 0 {
        Err(Fault::Parse("invalid Actor offset table"@))
    } else if end > at && end > data.len() {
        Err(truncated())
    } else {
        Ok(Seq::new(((end - at) / 4) as nat, |k: int| bytes::le32(data, at + 4 * k)))
    }
}

/// Reads the offset table between `at` and `end`.
pub fn parse_offsets(data: &[u8], at: usize, end: usize) -> (r: Result<Vec<u32>, Error>)
    ensures
        match r {
            Ok(v) => offsets_at(data@, at as int, end as int) == Ok::<Seq<u32>, Fault>(v@),
            Err(e) => offsets_at(data@, at as int, end as int) == Err::<Seq<u32>, Fault>(e@),
        },
{
    if end < at || (end - at) % 4 != 0 {
        return Err(Error::parse("invalid Actor offset table"));
    }
    if end > at && end > data.len() {
        return Err(Error::parse("truncated Actor data"));
    }
    let mut out: Vec<u32> = Vec::new();
    let mut p: usize = at;
    while p < end
        invariant
            at <= p <= end,
            (end - at) % 4 == 0,
            end > at ==> end <= data@.len(),
            p - at == 4 * out@.len(),
            forall|k: int| 0 <= k < out@.len() ==> #[trigger] out@[k] == bytes::le32(data@, at + 4 * k),
        decreases end - p,
    {
        out.push(dword(data, p));
        p += 4;
    }
    assert(out@ =~= Seq::new(((end - at) / 4) as nat, |k: int| bytes::le32(data@, at + 4 * k)));
    Ok(out)
}

/// The layer whose ten bytes start at `at`.
pub open spec fn layer_at(data: Seq<u8>, at: int) -> Layer {
    Layer {
        asset: bytes::le16(data, at),
        left: bytes::signed16(bytes::le16(data, at + 2)),
        top: bytes::signed16(bytes::le16(data, at + 4)),
        right: bytes::signed16(bytes::le16(data, at + 6)),
        bottom: bytes::signed16(bytes::le16(data, at + 8)),
    }
}

/// The frame composition in a span: a count of metafile placements, each with
/// its rectangle on the logical canvas.
pub open spec fn layers_in(data: Seq<u8>, span: Span) -> Result<Seq<Layer>, Fault> {
    if span.size() < 4 {
        Err(Fault::Parse("short Actor frame composition"@))
    } else {
        match word_at(data, span.start + 2) {
            Err(e) => Err(e),
            Ok(count) => {
                if span.size() < 4 + 10 * count {
                    Err(Fault::Parse("truncated Actor frame composition"@))
                } else if count > 0 && span.start + 4 + 10 * count > data.len() {
                    Err(truncated())
                } else {
                    Ok(Seq::new(count as nat, |k: int| layer_at(data, span.start + 4 + 10 * k)))
                }
            },
        }
    }
}

/// Reads a frame composition.
pub fn parse_layers(data: &[u8], span: Span) -> (r: Result<Vec<Layer>, Error>)
    ensures
        match r {
            Ok(v) => layers_in(data@, span) == Ok::<Seq<Layer>, Fault>(v@),
            Err(e) => layers_in(data@, span) == Err::<Seq<Layer>, Fault>(e@),
        },
{
    if span.start > span.end || span.end - span.start < 4 {
        return Err(Error::parse("short Actor frame composition"));
    }
    let size: u64 = span.end - span.start;
    let count: u64 = match u16_at(data, span.start + 2) {
        Ok(n) => n as u64,
        Err(e) => return Err(e),
    };
    if size < 4 + count * 10 {
        return Err(Error::parse("truncated Actor frame composition"));
    }
    if count > 0 && span.start + 4 + count * 10 > data.len() as u64 {
        return Err(Error::parse("truncated Actor data"));
    }
    let mut layers: Vec<Layer> = Vec::new();
    let mut k: u64 = 0;
    let ghost base = span.start + 4;
    while k < count
        invariant
            k <= count <= 65535,
            layers@.len() == k,
            base == span.start + 4,
            count > 0 ==> base + 10 * count <= data.len(),
            forall|j: int| 0 <= j < k ==> #[trigger] layers@[j] == layer_at(data@, base + 10 * j),
        decreases count - k,
    {
        let p: usize = (span.start + 4 + k * 10) as usize;
        layers.push(
            Layer {
                asset: word(data, p),
                left: to_signed(word(data, p + 2)),
                top: to_signed(word(data, p + 4)),
                right: to_signed(word(data, p + 6)),
                bottom: to_signed(word(data, p + 8)),
            },
        );
        k += 1;
    }
    assert(layers@ =~= Seq::new(count as nat, |k: int| layer_at(data@, span.start + 4 + 10 * k)));
    Ok(layers)
}

/// What the header of an Actor file says.
pub struct HeaderModel {
    pub version: u16,
    pub name: Seq<char>,
    pub first_frame: u16,
    pub width: u16,
    pub height: u16,
    pub pointers: Seq<usize>,
}

/// The header of an Actor file, its canvas enlarged.
pub struct Header {
    pub version: u16,
    pub name: String,
    pub first_frame: u16,
    pub width: u16,
    pub height: u16,
    pub pointers: Vec<usize>,
}

impl View for Header {
    type V = HeaderModel;

    open spec fn view(&self) -> HeaderModel {
        HeaderModel {
            version: self.version,
            name: self.name@,
            first_frame: self.first_frame,
            width: self.width,
            height: self.height,
            pointers: self.pointers@,
        }
    }
}

/// A canvas side, three times as large, and kept within sixteen bits.
///
/// Characters declare a 192x144 canvas, which is small for artwork that is
/// vector to begin with. Rasterizing a few times larger costs little and keeps
/// the character crisp when the window scales it up.
pub open spec fn enlarged(v: u16) -> u16 {
    if 3 * v > 0xFFFF {
        0xFFFF
    } else {
        (3 * v) as u16
    }
}

fn enlarge(v: u16) -> (r: u16)
    ensures
        r == enlarged(v),
{
    let w: u32 = 3 * (v as u32);
    if w > 0xFFFF {
        0xFFFF
    } else {
        w as u16
    }
}

/// Some bytes without the one zero they may end in.
pub open spec fn without_terminator(s: Seq<u8>) -> Seq<u8> {
    if s.len() > 0 && s.last() == 0 {
        s.drop_last()
    } else {
        s
    }
}

/// The section pointer number `i`, in a file whose name string ends at `end`.
pub open spec fn pointer(data: Seq<u8>, end: int, i: int) -> int {
    end + bytes::le32(data, end + 38 + 4 * i)
}

/// The mark an Actor file starts with.
pub open spec fn magic() -> Seq<u8> {
    seq![0x4Cu8, 0x50u8]
}

/// The header of a file, or what is wrong with it.
pub open spec fn header_of(data: Seq<u8>) -> Result<HeaderModel, Fault> {
    if !bytes::tagged(data, 0, magic()) {
        Err(Fault::Unsupported("not a Microsoft Actor file"@))
    } else if data.len() < 4 {
        Err(truncated())
    } else if !(1 <= bytes::le16(data, 2) <= 2) {
        Err(
            Fault::Unsupported(
                "unknown Microsoft Actor version "@ + text::decimal(bytes::le16(data, 2) as nat),
            ),
        )
    } else if data.len() < 10 {
        Err(truncated())
    } else {
        let end = 18 + bytes::le16(data, 8);
        if end > data.len() {
            Err(Fault::Parse("truncated Actor name"@))
        } else if end + 16 > data.len() {
            Err(truncated())
        } else if enlarged(bytes::le16(data, end + 12)) == 0 || enlarged(bytes::le16(data, end + 14)) == 0 {
            Err(Fault::Parse("Actor character has an empty canvas"@))
        } else if end + 70 > data.len() {
            Err(truncated())
        } else if exists|i: int| 0 <= i < 8 && #[trigger] pointer(data, end, i) > data.len() {
            Err(Fault::Parse("Actor section offset past end of file"@))
        } else {
            Ok(
                HeaderModel {
                    version: bytes::le16(data, 2),
                    name: text::lossy_utf8(without_terminator(data.subrange(18, end))),
                    first_frame: bytes::le16(data, end + 4),
                    width: enlarged(bytes::le16(data, end + 12)),
                    height: enlarged(bytes::le16(data, end + 14)),
                    pointers: Seq::new(8, |i: int| pointer(data, end, i) as usize),
                },
            )
        }
    }
}

/// Reads the section pointers, unless one of them leads past the file.
fn read_pointers(data: &[u8], end: usize) -> (r: Option<Vec<usize>>)
    requires
        end + 70 <= data@.len(),
        end <= 0x1_0012,
    ensures
        r is None <==> exists|i: int|
            0 <= i < 8 && #[trigger] pointer(data@, end as int, i) > data@.len(),
        r matches Some(p) ==> p@ == Seq::new(8, |i: int| pointer(data@, end as int, i) as usize),
{
    let mut pointers: Vec<usize> = Vec::new();
    let mut i: usize = 0;
    while i < 8
        invariant
            i <= 8,
            end + 70 <= data.len(),
            end <= 0x1_0012,
            pointers@.len() == i,
            forall|k: int| 0 <= k < i ==> #[trigger] pointer(data@, end as int, k) <= data@.len(),
            forall|k: int|
                0 <= k < i ==> #[trigger] pointers@[k] == pointer(data@, end as int, k) as usize,
        decreases 8 - i,
    {
        let p: u64 = end as u64 + dword(data, end + 38 + 4 * i) as u64;
        assert(p == pointer(data@, end as int, i as int));
        if p > data.len() as u64 {
            return None;
        }
        pointers.push(p as usize);
        i += 1;
    }
    assert(pointers@ =~= Seq::new(8, |i: int| pointer(data@, end as int, i) as usize));
    Some(pointers)
}

/// Reads the header.
pub fn read_header(data: &[u8]) -> (r: Result<Header, Error>)
    ensures
        match r {
            Ok(h) => header_of(data@) == Ok::<HeaderModel, Fault>(h@),
            Err(e) => header_of(data@) == Err::<HeaderModel, Fault>(e@),
        },
{
    let lp: [u8; 2] = [0x4C, 0x50];
    assert(lp@ =~= magic());
    if !has_tag(data, 0, &lp) {
        return Err(Error::Unsupported("not a Microsoft Actor file".to_owned()));
    }
    if data.len() < 4 {
        return Err(Error::parse("truncated Actor data"));
    }
    let version = word(data, 2);
    if version < 1 || version > 2 {
        let mut m = "unknown Microsoft Actor version ".to_owned();
        let n = decimal_text(version as u64);
        m.append(n.as_str());
        return Err(Error::Unsupported(m));
    }
    if data.len() < 10 {
        return Err(Error::parse("truncated Actor data"));
    }
    let end: usize = 18 + word(data, 8) as usize;
    if end > data.len() {
        return Err(Error::parse("truncated Actor name"));
    }
    let name_bytes = vstd::slice::slice_subrange(data, 18, end);
    let stripped = if name_bytes.len() > 0 && name_bytes[name_bytes.len() - 1] == 0 {
        let s = vstd::slice::slice_subrange(name_bytes, 0, name_bytes.len() - 1);
        assert(s@ =~= name_bytes@.drop_last());
        s
    } else {
        name_bytes
    };
    let name = from_utf8_lossy(stripped);
    let left: usize = data.len() - end;
    if left < 16 {
        return Err(Error::parse("truncated Actor data"));
    }
    let first_frame = word(data, end + 4);
    let width = enlarge(word(data, end + 12));
    let height = enlarge(word(data, end + 14));
    if width == 0 || height == 0 {
        return Err(Error::parse("Actor character has an empty canvas"));
    }
    if left < 70 {
        return Err(Error::parse("truncated Actor data"));
    }
    let pointers = match read_pointers(data, end) {
        Some(p) => p,
        None => return Err(Error::parse("Actor section offset past end of file")),
    };
    Ok(Header { version, name, first_frame, width, height, pointers })
}

/// The spans between consecutive offsets from `base`.
pub open spec fn spans_of(base: int, offsets: Seq<u32>) -> Seq<Span> {
    Seq::new(
        if offsets.len() == 0 {
            0
        } else {
            (offsets.len() - 1) as nat
        },
        |i: int|
            Span { start: (base + offsets[i]) as u64, end: (base + offsets[i + 1]) as u64 },
    )
}

/// Pairs consecutive offsets into spans.
fn read_spans(base: usize, offsets: &Vec<u32>) -> (r: Vec<Span>)
    requires
        base <= 0x2_0000_0000,
    ensures
        r@ == spans_of(base as int, offsets@),
{
    let mut out: Vec<Span> = Vec::new();
    if offsets.len() > 0 {
        let n: usize = offsets.len() - 1;
        let mut i: usize = 0;
        while i < n
            invariant
                i <= n,
                n + 1 == offsets.len(),
                base <= 0x2_0000_0000,
                out@.len() == i,
                forall|k: int| 0 <= k < i ==> #[trigger] out@[k] == spans_of(base as int, offsets@)[k],
            decreases n - i,
        {
            out.push(
                Span {
                    start: base as u64 + offsets[i] as u64,
                    end: base as u64 + offsets[i + 1] as u64,
                },
            );
            i += 1;
        }
    }
    assert(out@ =~= spans_of(base as int, offsets@));
    out
}

/// The layers of each frame.
pub open spec fn layer_lists(s: Seq<Vec<Layer>>) -> Seq<Seq<Layer>> {
    Seq::new(s.len(), |i: int| s[i]@)
}

/// The first `n` frame compositions, which start at span `first`; the first
/// one that cannot be read is the complaint, under its number.
pub open spec fn frames_upto(data: Seq<u8>, spans: Seq<Span>, first: int, n: nat) -> Result<
    Seq<Seq<Layer>>,
    Fault,
>
    decreases n,
{
    if n == 0 {
        Ok(Seq::empty())
    } else {
        match frames_upto(data, spans, first, (n - 1) as nat) {
            Err(e) => Err(e),
            Ok(done) => match layers_in(data, spans[first + n - 1]) {
                Ok(l) => Ok(done.push(l)),
                Err(e) => Err(
                    Fault::Parse(
                        "Actor frame "@ + text::decimal((first + n - 1) as nat) + ": "@ + e.message(),
                    ),
                ),
            },
        }
    }
}

proof fn frames_upto_keeps_fault(data: Seq<u8>, spans: Seq<Span>, first: int, n: nat, m: nat)
    requires
        n <= m,
        frames_upto(data, spans, first, n) is Err,
    ensures
        frames_upto(data, spans, first, m) == frames_upto(data, spans, first, n),
    decreases m,
{
    if n < m {
        frames_upto_keeps_fault(data, spans, first, n, (m - 1) as nat);
    }
}

/// Reads the frame compositions.
fn read_frames(data: &[u8], spans: &Vec<Span>, first: usize) -> (r: Result<Vec<Vec<Layer>>, Error>)
    requires
        first <= spans@.len(),
    ensures
        ({
            let want = frames_upto(data@, spans@, first as int, (spans@.len() - first) as nat);
            match r {
                Ok(v) => want == Ok::<Seq<Seq<Layer>>, Fault>(layer_lists(v@)),
                Err(e) => want == Err::<Seq<Seq<Layer>>, Fault>(e@),
            }
        }),
{
    let mut out: Vec<Vec<Layer>> = Vec::new();
    let mut i: usize = first;
    assert(layer_lists(out@) =~= Seq::empty());
    while i < spans.len()
        invariant
            first <= i <= spans@.len(),
            frames_upto(data@, spans@, first as int, (i - first) as nat) == Ok::<
                Seq<Seq<Layer>>,
                Fault,
            >(layer_lists(out@)),
        decreases spans@.len() - i,
    {
        match parse_layers(data, spans[i]) {
            Ok(l) => {
                let ghost before = layer_lists(out@);
                out.push(l);
                assert(layer_lists(out@) =~= before.push(l@));
            },
            Err(e) => {
                let mut m = "Actor frame ".to_owned();
                let n = decimal_text(i as u64);
                m.append(n.as_str());
                m.append(": ");
                m.append(e.message());
                proof {
                    frames_upto_keeps_fault(
                        data@,
                        spans@,
                        first as int,
                        (i - first + 1) as nat,
                        (spans@.len() - first) as nat,
                    );
                }
                return Err(Error::Parse(m));
            },
        }
        i += 1;
    }
    Ok(out)
}

/// The sound in a span, if the span lies in the file.
pub open spec fn sound_in(data: Seq<u8>, span: Span) -> Option<Seq<u8>> {
    if span.start <= span.end <= data.len() {
        Some(data.subrange(span.start as int, span.end as int))
    } else {
        None
    }
}

/// The sounds in the first `n` spans; spans outside the file are passed over.
pub open spec fn sounds_upto(data: Seq<u8>, spans: Seq<Span>, n: nat) -> Seq<Seq<u8>>
    decreases n,
{
    if n == 0 {
        Seq::empty()
    } else {
        let done = sounds_upto(data, spans, (n - 1) as nat);
        match sound_in(data, spans[n - 1]) {
            Some(s) => done.push(s),
            None => done,
        }
    }
}

/// Lifts the sounds out of the file.
fn read_sounds(data: &[u8], spans: &Vec<Span>) -> (r: Vec<Vec<u8>>)
    ensures
        types::sound_models(r@) == sounds_upto(data@, spans@, spans@.len()),
{
    let mut out: Vec<Vec<u8>> = Vec::new();
    let mut i: usize = 0;
    assert(types::sound_models(out@) =~= Seq::empty());
    while i < spans.len()
        invariant
            i <= spans@.len(),
            types::sound_models(out@) == sounds_upto(data@, spans@, i as nat),
        decreases spans@.len() - i,
    {
        let span = spans[i];
        if span.start <= span.end && span.end <= data.len() as u64 {
            let ghost before = types::sound_models(out@);
            let sound = slice_of(data, span.start as usize, span.end as usize);
            out.push(sound);
            assert(types::sound_models(out@) =~= before.push(sound@));
        }
        i += 1;
    }
    out
}

/// An entry of the action table: `variants` sequences from number `start` on,
/// counted from one.
#[derive(Debug, Clone, Copy, PartialEq, Eq, Structural)]
pub struct Action {
    pub id: u16,
    pub variants: u16,
    pub start: u16,
}

/// The action whose six bytes start at `at`.
pub open spec fn action_at(data: Seq<u8>, at: int) -> Action {
    Action { id: bytes::le16(data, at), variants: bytes::le16(data, at + 2), start: bytes::le16(data, at + 4) }
}

/// The action table at `at`: a count and that many actions.
pub open spec fn actions_at(data: Seq<u8>, at: int) -> Result<Seq<Action>, Fault> {
    match dword_at(data, at) {
        Err(e) => Err(e),
        Ok(count) => if at + 4 + 6 * count > data.len() {
            Err(truncated())
        } else {
            Ok(Seq::new(count as nat, |i: int| action_at(data, at + 4 + 6 * i)))
        },
    }
}

/// Reads the action table.
fn read_actions(data: &[u8], at: usize) -> (r: Result<Vec<Action>, Error>)
    requires
        at <= data@.len(),
    ensures
        match r {
            Ok(v) => actions_at(data@, at as int) == Ok::<Seq<Action>, Fault>(v@),
            Err(e) => actions_at(data@, at as int) == Err::<Seq<Action>, Fault>(e@),
        },
{
    let count: u64 = match u32_at(data, at as u64) {
        Ok(n) => n as u64,
        Err(e) => return Err(e),
    };
    let room: u64 = data.len() as u64 - at as u64 - 4;
    if 6 * count > room {
        return Err(Error::parse("truncated Actor data"));
    }
    let mut out: Vec<Action> = Vec::new();
    let mut p: usize = at + 4;
    let mut i: u64 = 0;
    while i < count
        invariant
            i <= count,
            at + 4 + 6 * count <= data.len(),
            p == at + 4 + 6 * i,
            out@.len() == i,
            forall|k: int|
                0 <= k < i ==> #[trigger] out@[k] == action_at(data@, at + 4 + 6 * k),
        decreases count - i,
    {
        out.push(
            Action { id: word(data, p), variants: word(data, p + 2), start: word(data, p + 4) },
        );
        p += 6;
        i += 1;
    }
    assert(out@ =~= Seq::new(count as nat, |i: int| action_at(data@, at + 4 + 6 * i)));
    Ok(out)
}

/// The largest of one and one past the last sequence that the first `n`
/// actions name.
pub open spec fn sequence_end(actions: Seq<Action>, n: nat) -> nat
    decreases n,
{
    if n == 0 {
        1
    } else {
        let before = sequence_end(actions, (n - 1) as nat);
        let end = (actions[n - 1].start + actions[n - 1].variants) as nat;
        if end > before {
            end
        } else {
            before
        }
    }
}

/// How many sequences the actions name. Actions count sequences from one, so
/// the highest start plus its variant count is one past the last sequence.
fn sequence_count(actions: &Vec<Action>) -> (r: usize)
    ensures
        r == sequence_end(actions@, actions@.len()) - 1,
{
    let mut end: usize = 1;
    let mut i: usize = 0;
    while i < actions.len()
        invariant
            i <= actions@.len(),
            end >= 1,
            end == sequence_end(actions@, i as nat),
        decreases actions@.len() - i,
    {
        let e: usize = actions[i].start as usize + actions[i].variants as usize;
        if e > end {
            end = e;
        }
        i += 1;
    }
    end - 1
}

/// A 6x7x6 colour cube after a leading black, padded with black.
pub open spec fn cube() -> Seq<Rgb> {
    Seq::new(
        256,
        |i: int|
            if 1 <= i <= 252 {
                Rgb {
                    r: ((i - 1) / 42 * 51) as u8,
                    g: ((i - 1) / 6 % 7 * 255 / 6) as u8,
                    b: ((i - 1) % 6 * 51) as u8,
                }
            } else {
                Rgb { r: 0, g: 0, b: 0 }
            },
    )
}

/// A 6x7x6 colour cube. Actor frames are composited straight to RGBA, so this
/// only stands in for the palette of the character.
pub fn palette() -> (r: Vec<Rgb>)
    ensures
        r@ == cube(),
{
    let mut p: Vec<Rgb> = Vec::new();
    let mut i: u32 = 0;
    while i < 256
        invariant
            i <= 256,
            p@.len() == i,
            forall|k: int| 0 <= k < i ==> #[trigger] p@[k] == cube()[k],
        decreases 256 - i,
    {
        if 1 <= i && i <= 252 {
            let n: u32 = i - 1;
            p.push(
                Rgb {
                    r: (n / 42 * 51) as u8,
                    g: (n / 6 % 7 * 255 / 6) as u8,
                    b: (n % 6 * 51) as u8,
                },
            );
        } else {
            p.push(Rgb { r: 0, g: 0, b: 0 });
        }
        i += 1;
    }
    assert(p@ =~= cube());
    p
}

/// The name of an animation: its action, and its variant where there are more.
pub open spec fn animation_name(action: Action, variant: int) -> Seq<char> {
    if action.variants > 1 {
        "Action "@ + text::decimal(action.id as nat) + " ("@ + text::decimal((variant + 1) as nat) + ")"@
    } else {
        "Action "@ + text::decimal(action.id as nat)
    }
}

/// The slots of a variant of an action, if the file has that sequence.
pub open spec fn variant_slots(action: Action, variant: int, sequences: Seq<Seq<Slot>>) -> Option<
    Seq<Slot>,
> {
    if 1 <= action.start + variant <= sequences.len() {
        Some(sequences[action.start + variant - 1])
    } else {
        None
    }
}

/// A variant of an action as an animation, unless it has no frames.
pub open spec fn variant_animation(
    action: Action,
    variant: int,
    sequences: Seq<Seq<Slot>>,
    first_frame: u16,
    frame_total: int,
) -> Seq<AnimationModel> {
    match variant_slots(action, variant, sequences) {
        Some(slots) => if slots.len() > 0 {
            seq![
                AnimationModel {
                    name: animation_name(action, variant),
                    transition: Transition::Nothing,
                    return_animation: Seq::empty(),
                    frames: sequence::frames_of(slots, first_frame, frame_total),
                },
            ]
        } else {
            Seq::empty()
        },
        None => Seq::empty(),
    }
}

/// The animations of the first `n` variants of an action.
pub open spec fn variants_upto(
    action: Action,
    n: nat,
    sequences: Seq<Seq<Slot>>,
    first_frame: u16,
    frame_total: int,
) -> Seq<AnimationModel>
    decreases n,
{
    if n == 0 {
        Seq::empty()
    } else {
        variants_upto(action, (n - 1) as nat, sequences, first_frame, frame_total)
            + variant_animation(action, n - 1, sequences, first_frame, frame_total)
    }
}

/// The animations of the first `n` actions.
pub open spec fn animations_upto(
    actions: Seq<Action>,
    n: nat,
    sequences: Seq<Seq<Slot>>,
    first_frame: u16,
    frame_total: int,
) -> Seq<AnimationModel>
    decreases n,
{
    if n == 0 {
        Seq::empty()
    } else {
        animations_upto(actions, (n - 1) as nat, sequences, first_frame, frame_total)
            + variants_upto(
            actions[n - 1],
            actions[n - 1].variants as nat,
            sequences,
            first_frame,
            frame_total,
        )
    }
}

/// The branch chains of a variant hand out no more than there is.
pub open spec fn variant_fits(action: Action, variant: int, sequences: Seq<Seq<Slot>>) -> bool {
    variant_slots(action, variant, sequences) matches Some(slots) ==> sequence::chains_fit(slots)
}

/// The branch chains of every variant of every action hand out no more than
/// there is.
pub open spec fn actions_fit(actions: Seq<Action>, sequences: Seq<Seq<Slot>>) -> bool {
    forall|i: int, v: int|
        0 <= i < actions.len() && 0 <= v < actions[i].variants ==> #[trigger] variant_fits(
            actions[i],
            v,
            sequences,
        )
}

fn variant_name(action: Action, variant: u16) -> (r: String)
    ensures
        r@ == animation_name(action, variant as int),
{
    let mut name = "Action ".to_owned();
    let id = decimal_text(action.id as u64);
    name.append(id.as_str());
    if action.variants > 1 {
        let number = decimal_text(variant as u64 + 1);
        name.append(" (");
        name.append(number.as_str());
        name.append(")");
    }
    name
}

/// The place of a variant's sequence in the list, if the file has it.
fn variant_index(action: Action, variant: u16, sequences: &Vec<Vec<Slot>>) -> (r: Option<usize>)
    ensures
        match r {
            Some(i) => i < sequences@.len() && variant_slots(
                action,
                variant as int,
                sequence::slot_lists(sequences@),
            ) == Some(sequences@[i as int]@),
            None => variant_slots(action, variant as int, sequence::slot_lists(sequences@)) is None,
        },
{
    let number: usize = action.start as usize + variant as usize;
    if number >= 1 && number <= sequences.len() {
        Some(number - 1)
    } else {
        None
    }
}

/// Builds the animation of one variant and adds it to the list.
fn add_variant(
    animations: &mut Vec<Animation>,
    action: Action,
    variant: u16,
    sequences: &Vec<Vec<Slot>>,
    first_frame: u16,
    frame_total: usize,
)
    requires
        variant_fits(action, variant as int, sequence::slot_lists(sequences@)),
    ensures
        types::animation_models(final(animations)@) == types::animation_models(old(animations)@)
            + variant_animation(
            action,
            variant as int,
            sequence::slot_lists(sequences@),
            first_frame,
            frame_total as int,
        ),
{
    let ghost before = types::animation_models(animations@);
    if let Some(i) = variant_index(action, variant, sequences) {
        let slots = &sequences[i];
        if slots.len() > 0 {
            let frames = build_frames(slots.as_slice(), first_frame, frame_total);
            let animation = Animation {
                name: variant_name(action, variant),
                transition: Transition::Nothing,
                return_animation: String::new(),
                frames,
            };
            animations.push(animation);
            assert(types::animation_models(animations@) =~= before.push(animation@));
            assert(before.push(animation@) =~= before + seq![animation@]);
            return ;
        }
    }
    assert(before + Seq::<AnimationModel>::empty() =~= before);
}

/// Builds the animations that the actions name.
fn build_animations(
    actions: &Vec<Action>,
    sequences: &Vec<Vec<Slot>>,
    first_frame: u16,
    frame_total: usize,
) -> (r: Vec<Animation>)
    requires
        actions_fit(actions@, sequence::slot_lists(sequences@)),
    ensures
        types::animation_models(r@) == animations_upto(
            actions@,
            actions@.len(),
            sequence::slot_lists(sequences@),
            first_frame,
            frame_total as int,
        ),
{
    let ghost seqs = sequence::slot_lists(sequences@);
    let ghost total = frame_total as int;
    let mut out: Vec<Animation> = Vec::new();
    assert(types::animation_models(out@) =~= Seq::empty());
    let mut i: usize = 0;
    while i < actions.len()
        invariant
            i <= actions@.len(),
            seqs == sequence::slot_lists(sequences@),
            total == frame_total,
            actions_fit(actions@, seqs),
            types::animation_models(out@) == animations_upto(
                actions@,
                i as nat,
                seqs,
                first_frame,
                total,
            ),
        decreases actions@.len() - i,
    {
        let action = actions[i];
        let ghost done = types::animation_models(out@);
        let mut v: u16 = 0;
        assert(done + variants_upto(action, 0, seqs, first_frame, total) =~= done);
        while v < action.variants
            invariant
                v <= action.variants,
                i < actions@.len(),
                action == actions@[i as int],
                seqs == sequence::slot_lists(sequences@),
                total == frame_total,
                actions_fit(actions@, seqs),
                types::animation_models(out@) == done + variants_upto(
                    action,
                    v as nat,
                    seqs,
                    first_frame,
                    total,
                ),
            decreases action.variants - v,
        {
            assert(variant_fits(actions@[i as int], v as int, seqs));
            let ghost upto = variants_upto(action, v as nat, seqs, first_frame, total);
            let ghost one = variant_animation(action, v as int, seqs, first_frame, total);
            add_variant(&mut out, action, v, sequences, first_frame, frame_total);
            assert(done + upto + one =~= done + (upto + one));
            v += 1;
        }
        i += 1;
    }
    out
}

/// An Actor file, taken apart.
pub struct Layout {
    pub header: Header,
    pub assets: Vec<Span>,
    pub frames: Vec<Vec<Layer>>,
    pub sounds: Vec<Vec<u8>>,
    pub actions: Vec<Action>,
    pub sequences: Vec<Vec<Slot>>,
}

/// The value of a [`Layout`].
pub struct LayoutModel {
    pub header: HeaderModel,
    pub assets: Seq<Span>,
    pub frames: Seq<Seq<Layer>>,
    pub sounds: Seq<Seq<u8>>,
    pub actions: Seq<Action>,
    pub sequences: Seq<Seq<Slot>>,
}

impl View for Layout {
    type V = LayoutModel;

    open spec fn view(&self) -> LayoutModel {
        LayoutModel {
            header: self.header@,
            assets: self.assets@,
            frames: layer_lists(self.frames@),
            sounds: types::sound_models(self.sounds@),
            actions: self.actions@,
            sequences: sequence::slot_lists(self.sequences@),
        }
    }
}

impl LayoutModel {
    /// Every branch chain that becomes part of an animation hands out no more
    /// than there is.
    pub open spec fn fits(self) -> bool {
        actions_fit(self.actions, self.sequences)
    }

    /// The animations of the file.
    pub open spec fn animations(self) -> Seq<AnimationModel> {
        animations_upto(
            self.actions,
            self.actions.len(),
            self.sequences,
            self.header.first_frame,
            self.frames.len() as int,
        )
    }
}

/// The parts of a file with this header, or what is wrong with it.
pub open spec fn layout_under(data: Seq<u8>, h: HeaderModel) -> Result<LayoutModel, Fault> {
    match offsets_at(data, h.pointers[1] as int, h.pointers[2] as int) {
        Err(e) => Err(e),
        Ok(offsets) => {
            let spans = spans_of(h.pointers[0] as int, offsets);
            let first = h.first_frame as int;
            if first >= spans.len() {
                Err(Fault::Parse("Actor first-frame index is invalid"@))
            } else {
                match frames_upto(data, spans, first, (spans.len() - first) as nat) {
                    Err(e) => Err(e),
                    Ok(frames) => match offsets_at(
                        data,
                        h.pointers[3] as int,
                        h.pointers[4] as int,
                    ) {
                        Err(e) => Err(e),
                        Ok(sound_offsets) => {
                            let sound_spans = spans_of(h.pointers[2] as int, sound_offsets);
                            match actions_at(data, h.pointers[5] as int) {
                                Err(e) => Err(e),
                                Ok(actions) => Ok(
                                    LayoutModel {
                                        header: h,
                                        assets: spans.take(first),
                                        frames,
                                        sounds: sounds_upto(
                                            data,
                                            sound_spans,
                                            sound_spans.len(),
                                        ),
                                        actions,
                                        sequences: sequence::sequences_of(
                                            data,
                                            h.pointers[4] as int,
                                            h.pointers[5] as int,
                                            (sequence_end(actions, actions.len()) - 1) as nat,
                                        ),
                                    },
                                ),
                            }
                        },
                    },
                }
            }
        },
    }
}

/// The parts of a file, or what is wrong with it.
pub open spec fn layout_of(data: Seq<u8>) -> Result<LayoutModel, Fault> {
    match header_of(data) {
        Err(e) => Err(e),
        Ok(h) => layout_under(data, h),
    }
}

/// The first spans, which hold the metafiles.
fn take_spans(spans: &Vec<Span>, n: usize) -> (r: Vec<Span>)
    requires
        n <= spans@.len(),
    ensures
        r@ == spans@.take(n as int),
{
    let mut out: Vec<Span> = Vec::new();
    let mut i: usize = 0;
    while i < n
        invariant
            i <= n <= spans@.len(),
            out@ == spans@.take(i as int),
        decreases n - i,
    {
        out.push(spans[i]);
        i += 1;
        assert(out@ =~= spans@.take(i as int));
    }
    out
}

proof fn pointers_are_small(data: Seq<u8>)
    requires
        header_of(data) is Ok,
    ensures
        header_of(data)->Ok_0.pointers.len() == 8,
        forall|i: int|
            0 <= i < 8 ==> #[trigger] header_of(data)->Ok_0.pointers[i] <= 0x2_0000_0000
                && header_of(data)->Ok_0.pointers[i] <= data.len(),
{
    let end = 18 + bytes::le16(data, 8);
    let h = header_of(data)->Ok_0;
    assert forall|i: int| 0 <= i < 8 implies #[trigger] h.pointers[i] <= 0x2_0000_0000
        && h.pointers[i] <= data.len() by {
        assert(pointer(data, end, i) <= data.len());
    }
}

/// Takes an Actor file apart.
pub fn read_layout(data: &[u8]) -> (r: Result<Layout, Error>)
    ensures
        match r {
            Ok(l) => layout_of(data@) == Ok::<LayoutModel, Fault>(l@),
            Err(e) => layout_of(data@) == Err::<LayoutModel, Fault>(e@),
        },
{
    let header = match read_header(data) {
        Ok(h) => h,
        Err(e) => return Err(e),
    };
    proof {
        pointers_are_small(data@);
        assert(data.len() == data@.len());
        assert(forall|i: int| 0 <= i < 8 ==> #[trigger] header.pointers@[i] <= 0x2_0000_0000);
    }
    let offsets = match parse_offsets(data, header.pointers[1], header.pointers[2]) {
        Ok(o) => o,
        Err(e) => return Err(e),
    };
    let spans = read_spans(header.pointers[0], &offsets);
    let first = header.first_frame as usize;
    if first >= spans.len() {
        return Err(Error::parse("Actor first-frame index is invalid"));
    }
    let assets = take_spans(&spans, first);
    let frames = match read_frames(data, &spans, first) {
        Ok(f) => f,
        Err(e) => return Err(e),
    };
    let sound_offsets = match parse_offsets(data, header.pointers[3], header.pointers[4]) {
        Ok(o) => o,
        Err(e) => return Err(e),
    };
    let sound_spans = read_spans(header.pointers[2], &sound_offsets);
    let sounds = read_sounds(data, &sound_spans);
    let actions = match read_actions(data, header.pointers[5]) {
        Ok(a) => a,
        Err(e) => return Err(e),
    };
    let count = sequence_count(&actions);
    let sequences = parse_sequences(data, header.pointers[4]..header.pointers[5], count);
    Ok(Layout { header, assets, frames, sounds, actions, sequences })
}

impl Layout {
    /// Whether every branch chain that becomes part of an animation hands out
    /// no more than there is.
    pub fn fits(&self) -> (r: bool)
        ensures
            r == self@.fits(),
    {
        let ghost seqs = sequence::slot_lists(self.sequences@);
        let mut i: usize = 0;
        while i < self.actions.len()
            invariant
                i <= self.actions@.len(),
                seqs == sequence::slot_lists(self.sequences@),
                forall|j: int, v: int|
                    0 <= j < i && 0 <= v < self.actions@[j].variants ==> #[trigger] variant_fits(
                        self.actions@[j],
                        v,
                        seqs,
                    ),
            decreases self.actions@.len() - i,
        {
            let action = self.actions[i];
            let mut v: u16 = 0;
            while v < action.variants
                invariant
                    v <= action.variants,
                    i < self.actions@.len(),
                    action == self.actions@[i as int],
                    seqs == sequence::slot_lists(self.sequences@),
                    forall|u: int| 0 <= u < v ==> #[trigger] variant_fits(action, u, seqs),
                decreases action.variants - v,
            {
                if let Some(k) = variant_index(action, v, &self.sequences) {
                    if !branch_chains_fit(self.sequences[k].as_slice()) {
                        assert(!variant_fits(self.actions@[i as int], v as int, seqs));
                        return false;
                    }
                }
                assert(variant_fits(action, v as int, seqs));
                v += 1;
            }
            i += 1;
        }
        true
    }
}

/// The artwork of an Actor character: the file, where its metafiles lie, and
/// the layers of each frame image.
#[derive(Debug)]
pub struct ActorSource {
    pub data: Vec<u8>,
    pub assets: Vec<Span>,
    pub frames: Vec<Vec<Layer>>,
    pub width: u16,
    pub height: u16,
}

/// The complaint about a number that names nothing.
pub open spec fn out_of_range(what: Seq<char>, index: nat) -> Fault {
    Fault::Parse(what + text::decimal(index) + " is out of range"@)
}

fn range_error(what: &str, index: u64) -> (e: Error)
    ensures
        e@ == out_of_range(what@, index as nat),
{
    let mut m = what.to_owned();
    let n = decimal_text(index);
    m.append(n.as_str());
    m.append(" is out of range");
    Error::Parse(m)
}

/// What a layer shows: the pixels of the canvas it covers, or nothing for a
/// layer with nothing to show, or what kept its artwork from being drawn.
pub enum Sample {
    Patch(Patch),
    Nothing,
    Failed(Error),
}

/// A pixel of a frame after the first `n` layers. Blank layers paint nothing.
pub open spec fn layered(
    layers: Seq<Layer>,
    samples: Seq<Sample>,
    n: nat,
    x: int,
    y: int,
) -> Rgba
    decreases n,
{
    if n == 0 {
        canvas::clear()
    } else {
        let under = layered(layers, samples, (n - 1) as nat, x, y);
        match samples[n - 1] {
            Sample::Patch(patch) => if layers[n - 1].asset == BLANK {
                under
            } else {
                patch.over(under, x, y)
            },
            _ => under,
        }
    }
}

/// The artwork of this layer is wanted and could not be drawn.
pub open spec fn spoils(layers: Seq<Layer>, samples: Seq<Sample>, k: int) -> bool {
    layers[k].asset != BLANK && samples[k] is Failed
}

/// A size that each use of an asset is drawn within and that, past one pixel,
/// some use is drawn at.
pub open spec fn largest_size(
    frames: Seq<Seq<Layer>>,
    drawn: Seq<Vec<(usize, usize)>>,
    asset: int,
    size: (usize, usize),
) -> bool {
    &&& size.0 >= 1 && size.1 >= 1
    &&& forall|f: int, l: int|
        0 <= f < frames.len() && 0 <= l < frames[f].len() && (#[trigger] frames[f][l]).asset
            == asset ==> drawn[f]@[l].0 <= size.0 && drawn[f]@[l].1 <= size.1
    &&& size.0 == 1 || exists|f: int, l: int|
        0 <= f < frames.len() && 0 <= l < frames[f].len() && (#[trigger] frames[f][l]).asset
            == asset && drawn[f]@[l].0 == size.0
    &&& size.1 == 1 || exists|f: int, l: int|
        0 <= f < frames.len() && 0 <= l < frames[f].len() && (#[trigger] frames[f][l]).asset
            == asset && drawn[f]@[l].1 == size.1
}

/// There is a drawn size for each layer of each frame.
pub open spec fn sized_alike(frames: Seq<Seq<Layer>>, drawn: Seq<Vec<(usize, usize)>>) -> bool {
    &&& frames.len() == drawn.len()
    &&& forall|f: int| 0 <= f < frames.len() ==> (#[trigger] frames[f]).len() == drawn[f]@.len()
}

impl ActorSource {
    /// The number of frame images.
    pub fn frame_count(&self) -> (r: usize)
        ensures
            r == self.frames@.len(),
    {
        self.frames.len()
    }

    /// The layers of a frame image, bottom layer first.
    pub fn layers(&self, index: usize) -> (r: Result<&Vec<Layer>, Error>)
        ensures
            match r {
                Ok(l) => index < self.frames@.len() && *l == self.frames@[index as int],
                Err(e) => index >= self.frames@.len() && e@ == out_of_range(
                    "Actor frame "@,
                    index as nat,
                ),
            },
    {
        if index < self.frames.len() {
            Ok(&self.frames[index])
        } else {
            Err(range_error("Actor frame ", index as u64))
        }
    }

    /// The bytes of an asset's metafile.
    pub open spec fn metafile(&self, index: u16) -> Seq<u8> {
        self.data@.subrange(
            self.assets@[index as int].start as int,
            self.assets@[index as int].end as int,
        )
    }

    /// An asset that the table has lies in the file and can be drawn at this
    /// size.
    pub open spec fn asset_ready(&self, index: u16, size: (usize, usize)) -> bool {
        index < self.assets@.len() ==> {
            &&& self.assets@[index as int].start <= self.assets@[index as int].end
                <= self.data@.len()
            &&& wmf::drawable(self.metafile(index), size.0, size.1)
        }
    }

    /// Whether an asset that the table has lies in the file and can be drawn at
    /// this size.
    pub fn is_asset_ready(&self, index: u16, size: (usize, usize)) -> (r: bool)
        ensures
            r == self.asset_ready(index, size),
    {
        if (index as usize) < self.assets.len() {
            let span = self.assets[index as usize];
            if span.start > span.end || span.end > self.data.len() as u64 {
                return false;
            }
            assert(span.end <= self.data.len());
            let metafile = vstd::slice::slice_subrange(
                self.data.as_slice(),
                span.start as usize,
                span.end as usize,
            );
            is_drawable(metafile, size.0, size.1)
        } else {
            true
        }
    }

    /// What to draw of an asset, at this size.
    pub fn asset(&self, index: u16, size: (usize, usize)) -> (r: Result<Drawing, Error>)
        requires
            self.asset_ready(index, size),
        ensures
            match r {
                Ok(d) => index < self.assets@.len() && wmf::rendered(
                    self.metafile(index),
                    size.0,
                    size.1,
                ) == Ok::<DrawingModel, Fault>(d@),
                Err(e) => if index < self.assets@.len() {
                    wmf::rendered(self.metafile(index), size.0, size.1) == Err::<
                        DrawingModel,
                        Fault,
                    >(e@)
                } else {
                    e@ == out_of_range("Actor asset "@, index as nat)
                },
            },
    {
        if (index as usize) < self.assets.len() {
            let span = self.assets[index as usize];
            assert(span.end <= self.data.len());
            let metafile = vstd::slice::slice_subrange(
                self.data.as_slice(),
                span.start as usize,
                span.end as usize,
            );
            wmf::render(metafile, size.0, size.1)
        } else {
            Err(range_error("Actor asset ", index as u64))
        }
    }

    /// The size to rasterize an asset at: the largest it is ever drawn, so one
    /// raster serves every frame that uses it. `drawn` holds the size each
    /// layer of each frame is drawn at, in pixels.
    pub fn asset_size(&self, index: u16, drawn: &Vec<Vec<(usize, usize)>>) -> (r: (usize, usize))
        requires
            sized_alike(layer_lists(self.frames@), drawn@),
        ensures
            largest_size(layer_lists(self.frames@), drawn@, index as int, r),
    {
        let ghost frames = layer_lists(self.frames@);
        let mut w: usize = 1;
        let mut h: usize = 1;
        let mut f: usize = 0;
        while f < self.frames.len()
            invariant
                f <= self.frames@.len(),
                frames == layer_lists(self.frames@),
                sized_alike(frames, drawn@),
                largest_size(frames.take(f as int), drawn@, index as int, (w, h)),
            decreases self.frames@.len() - f,
        {
            assert(frames[f as int].len() == drawn@[f as int]@.len());
            let mut l: usize = 0;
            let ghost w0 = w;
            let ghost h0 = h;
            while l < self.frames[f].len()
                invariant
                    f < self.frames@.len(),
                    l <= self.frames@[f as int]@.len(),
                    frames == layer_lists(self.frames@),
                    sized_alike(frames, drawn@),
                    frames[f as int].len() == drawn@[f as int]@.len(),
                    largest_size(frames.take(f as int), drawn@, index as int, (w0, h0)),
                    w >= w0 && h >= h0,
                    forall|m: int|
                        0 <= m < l && (#[trigger] frames[f as int][m]).asset == index
                            ==> drawn@[f as int]@[m].0 <= w && drawn@[f as int]@[m].1 <= h,
                    w == w0 || exists|m: int|
                        0 <= m < l && (#[trigger] frames[f as int][m]).asset == index
                            && drawn@[f as int]@[m].0 == w,
                    h == h0 || exists|m: int|
                        0 <= m < l && (#[trigger] frames[f as int][m]).asset == index
                            && drawn@[f as int]@[m].1 == h,
                decreases self.frames@[f as int]@.len() - l,
            {
                assert(self.frames@[f as int]@[l as int] == frames[f as int][l as int]);
                if self.frames[f][l].asset == index {
                    let size = drawn[f][l];
                    if size.0 > w {
                        w = size.0;
                    }
                    if size.1 > h {
                        h = size.1;
                    }
                }
                l += 1;
            }
            proof {
                let part = frames.take(f as int);
                let more = frames.take(f + 1);
                assert forall|g: int, m: int|
                    0 <= g < more.len() && 0 <= m < more[g].len() && (
                    #[trigger] more[g][m]).asset == index implies drawn@[g]@[m].0 <= w
                    && drawn@[g]@[m].1 <= h by {
                    if g < f {
                        assert(part[g][m] == more[g][m]);
                    } else {
                        assert(frames[f as int][m] == more[g][m]);
                    }
                }
                if w != 1 {
                    if w == w0 {
                        let (g, m) = choose|g: int, m: int|
                            0 <= g < part.len() && 0 <= m < part[g].len() && (
                            #[trigger] part[g][m]).asset == index && drawn@[g]@[m].0 == w;
                        assert(more[g][m] == part[g][m]);
                    } else {
                        let m = choose|m: int|
                            0 <= m < l && (#[trigger] frames[f as int][m]).asset == index
                                && drawn@[f as int]@[m].0 == w;
                        assert(more[f as int][m].asset == index);
                    }
                }
                if h != 1 {
                    if h == h0 {
                        let (g, m) = choose|g: int, m: int|
                            0 <= g < part.len() && 0 <= m < part[g].len() && (
                            #[trigger] part[g][m]).asset == index && drawn@[g]@[m].1 == h;
                        assert(more[g][m] == part[g][m]);
                    } else {
                        let m = choose|m: int|
                            0 <= m < l && (#[trigger] frames[f as int][m]).asset == index
                                && drawn@[f as int]@[m].1 == h;
                        assert(more[f as int][m].asset == index);
                    }
                }
            }
            f += 1;
        }
        assert(frames.take(f as int) =~= frames);
        (w, h)
    }

    /// Composites one frame image into a straight-alpha picture, from what each
    /// layer shows. The first layer whose artwork could not be drawn is the
    /// complaint.
    pub fn render(&self, index: usize, samples: &Vec<Sample>) -> (r: Result<
        Vec<u8>,
        Error,
    >)
        requires
            self.width * self.height * 4 <= usize::MAX,
            index < self.frames@.len() ==> samples@.len() == self.frames@[index as int]@.len(),
            forall|k: int|
                0 <= k < samples@.len() ==> ((#[trigger] samples@[k]) matches Sample::Patch(
                    p,
                ) ==> p.fits(self.width as int, self.height as int)),
        ensures
            match r {
                Ok(rgba) => {
                    let layers = self.frames@[index as int]@;
                    &&& index < self.frames@.len()
                    &&& forall|k: int|
                        0 <= k < layers.len() ==> !#[trigger] spoils(layers, samples@, k)
                    &&& rgba@.len() == self.width * self.height * 4
                    &&& forall|x: int, y: int|
                        0 <= x < self.width && 0 <= y < self.height ==> #[trigger] canvas::pixel(
                            rgba@,
                            self.width as int,
                            x,
                            y,
                        ) == layered(layers, samples@, layers.len(), x, y)
                },
                Err(e) => if index < self.frames@.len() {
                    let layers = self.frames@[index as int]@;
                    exists|k: int|
                        {
                            &&& 0 <= k < layers.len()
                            &&& #[trigger] spoils(layers, samples@, k)
                            &&& samples@[k]->Failed_0@ == e@
                            &&& forall|j: int|
                                0 <= j < k ==> !#[trigger] spoils(layers, samples@, j)
                        }
                } else {
                    e@ == out_of_range("Actor frame "@, index as nat)
                },
            },
    {
        if index >= self.frames.len() {
            return Err(range_error("Actor frame ", index as u64));
        }
        let layers = &self.frames[index];
        let w = self.width as usize;
        let h = self.height as usize;
        let mut rgba = blank(w, h);
        let mut k: usize = 0;
        while k < layers.len()
            invariant
                k <= layers@.len(),
                layers@.len() == samples@.len(),
                rgba@.len() == w * h * 4,
                forall|k: int|
                    0 <= k < samples@.len() ==> ((#[trigger] samples@[k]) matches Sample::Patch(
                        p,
                    ) ==> p.fits(w as int, h as int)),
                forall|j: int| 0 <= j < k ==> !#[trigger] spoils(layers@, samples@, j),
                index < self.frames@.len(),
                layers == self.frames@[index as int],
                forall|x: int, y: int|
                    0 <= x < w && 0 <= y < h ==> #[trigger] canvas::pixel(rgba@, w as int, x, y)
                        == layered(layers@, samples@, k as nat, x, y),
            decreases layers@.len() - k,
        {
            let layer = layers[k];
            if layer.asset != BLANK {
                match &samples[k] {
                    Sample::Patch(patch) => paint(&mut rgba, patch, w, h),
                    Sample::Nothing => {},
                    Sample::Failed(e) => {
                        assert(spoils(layers@, samples@, k as int));
                        return Err(e.copy());
                    },
                }
            }
            assert(!spoils(layers@, samples@, k as int));
            k += 1;
        }
        Ok(rgba)
    }
}

/// The value of an Actor file.
pub struct ActorModel {
    pub info: PlainInfo,
    pub animations: Seq<AnimationModel>,
    pub layout: LayoutModel,
}

/// What the header says of the character.
pub open spec fn info_of(h: HeaderModel) -> PlainInfo {
    PlainInfo {
        major_version: h.version,
        minor_version: 0,
        guid: Seq::new(16, |i: int| 0u8),
        width: h.width,
        height: h.height,
        transparent_index: 0,
        flags: 0,
        palette: cube(),
        localized: LocalizedModel {
            language_id: 0x0409,
            name: h.name,
            description: if h.version == 1 {
                "Microsoft Bob Actor"@
            } else {
                "Microsoft Office 97 Actor"@
            },
            extra: Seq::empty(),
        },
    }
}

/// The character in an Actor file, or what is wrong with the file.
pub open spec fn actor_file(data: Seq<u8>) -> Result<ActorModel, Fault> {
    match layout_of(data) {
        Err(e) => Err(e),
        Ok(l) => if l.animations().len() == 0 {
            Err(Fault::Parse("Actor file contains no playable animations"@))
        } else {
            Ok(ActorModel { info: info_of(l.header), animations: l.animations(), layout: l })
        },
    }
}

/// Every branch chain of the file's animations hands out no more than there
/// is.
pub open spec fn file_fits(data: Seq<u8>) -> bool {
    layout_of(data) matches Ok(l) ==> l.fits()
}

/// Whether every branch chain of the file's animations hands out no more than
/// there is.
pub fn is_sound(data: &[u8]) -> (r: bool)
    ensures
        r == file_fits(data@),
{
    match read_layout(data) {
        Ok(layout) => layout.fits(),
        Err(_) => true,
    }
}

/// Reads the character in an Actor file.
pub fn parse(data: Vec<u8>) -> (r: Result<Character, Error>)
    requires
        file_fits(data@),
    ensures
        match r {
            Ok(c) => actor_file(data@) matches Ok(m) && {
                &&& c.info.is_plain(m.info)
                &&& types::animation_models(c.animations@) == m.animations
                &&& types::sound_models(c.audio@) == m.layout.sounds
                &&& c.artwork matches Artwork::Actor(a)
                &&& a.data@ == data@
                &&& a.assets@ == m.layout.assets
                &&& layer_lists(a.frames@) == m.layout.frames
                &&& a.width == m.info.width
                &&& a.height == m.info.height
            },
            Err(e) => actor_file(data@) == Err::<ActorModel, Fault>(e@),
        },
{
    let layout = match read_layout(data.as_slice()) {
        Ok(l) => l,
        Err(e) => return Err(e),
    };
    let ghost model = layout@;
    let Layout { header, assets, frames, sounds, actions, sequences } = layout;
    let animations = build_animations(&actions, &sequences, header.first_frame, frames.len());
    if animations.len() == 0 {
        assert(types::animation_models(animations@) =~= Seq::empty());
        return Err(Error::parse("Actor file contains no playable animations"));
    }
    let width = header.width;
    let height = header.height;
    let mut localized: Vec<LocalizedInfo> = Vec::new();
    localized.push(
        LocalizedInfo {
            language_id: 0x0409,
            name: header.name,
            description: if header.version == 1 {
                "Microsoft Bob Actor".to_owned()
            } else {
                "Microsoft Office 97 Actor".to_owned()
            },
            extra: String::new(),
        },
    );
    let guid: [u8; 16] = [0; 16];
    let info = CharacterInfo {
        major_version: header.version,
        minor_version: 0,
        guid,
        width,
        height,
        transparent_index: 0,
        flags: 0,
        voice: None,
        balloon: None,
        palette: palette(),
        states: Vec::new(),
        localized,
    };
    assert(guid@ =~= Seq::new(16, |i: int| 0u8));
    assert(info.localized@[0]@ == info_of(model.header).localized);
    let source = ActorSource { data, assets, frames, width, height };
    Ok(Character::from_actor(info, animations, source, sounds))
}

/// A layer as its ten bytes: the asset, then the sides of its rectangle.
pub open spec fn layer_bytes(l: Layer) -> Seq<u8> {
    bytes::word_bytes(l.asset) + bytes::signed_bytes(l.left) + bytes::signed_bytes(l.top)
        + bytes::signed_bytes(l.right) + bytes::signed_bytes(l.bottom)
}

proof fn layer_reads(data: Seq<u8>, at: int, l: Layer)
    requires
        0 <= at,
        at + 10 <= data.len(),
        data.subrange(at, at + 10) == layer_bytes(l),
    ensures
        layer_at(data, at) == l,
{
    let b = layer_bytes(l);
    assert(forall|i: int| 0 <= i < 10 ==> #[trigger] b[i] == data[at + i]) by {
        assert forall|i: int| 0 <= i < 10 implies #[trigger] b[i] == data[at + i] by {
            assert(data.subrange(at, at + 10)[i] == data[at + i]);
        }
    }
    assert(b[0] == data[at] && b[1] == data[at + 1] && b[2] == data[at + 2] && b[3] == data[at + 3]
        && b[4] == data[at + 4] && b[5] == data[at + 5] && b[6] == data[at + 6] && b[7] == data[at
        + 7] && b[8] == data[at + 8] && b[9] == data[at + 9]);
}

/// Layers keep the file's stacking order: a composition that holds some layers
/// one after another reads back as exactly that list, so the first one in the
/// file is the bottom one and the last one the top one.
pub proof fn layers_keep_their_order(
    front: Seq<u8>,
    lead: u16,
    layers: Seq<Layer>,
    back: Seq<u8>,
    span: Span,
)
    requires
        layers.len() <= 0xFFFF,
        span.start == front.len(),
        span.start + 4 + 10 * layers.len() <= span.end,
    ensures
        layers_in(
            front + (bytes::word_bytes(lead) + bytes::word_bytes(layers.len() as u16)
                + bytes::joined(Seq::new(layers.len(), |k: int| layer_bytes(layers[k])))) + back,
            span,
        ) == Ok::<Seq<Layer>, Fault>(layers),
{
    let n = layers.len();
    let pieces = Seq::new(n, |k: int| layer_bytes(layers[k]));
    let stack = bytes::joined(pieces);
    let data = front + (bytes::word_bytes(lead) + bytes::word_bytes(n as u16) + stack) + back;
    let base = front.len() as int + 4;
    bytes::pieces_keep_their_places(pieces, 10, 0);
    assert(data =~= front + bytes::word_bytes(lead) + bytes::word_bytes(n as u16) + (stack + back));
    bytes::numbers_come_back(front + bytes::word_bytes(lead), n as u16, 0, 0, stack + back);
    assert forall|k: int| 0 <= k < n implies #[trigger] layer_at(data, base + 10 * k)
        == layers[k] by {
        bytes::pieces_keep_their_places(pieces, 10, k);
        assert(data.subrange(base + 10 * k, base + 10 * k + 10) =~= stack.subrange(
            10 * k,
            10 * k + 10,
        ));
        layer_reads(data, base + 10 * k, layers[k]);
    }
    assert(Seq::new(n, |k: int| layer_at(data, span.start + 4 + 10 * k)) =~= layers);
}

/// The last layer is on top: where it shows an opaque colour, that colour is
/// what the frame shows, and where it shows nothing the frame is what the
/// layers below it leave.
pub proof fn the_last_layer_is_on_top(
    layers: Seq<Layer>,
    samples: Seq<Sample>,
    n: nat,
    x: int,
    y: int,
)
    requires
        0 < n <= layers.len(),
        samples.len() == layers.len(),
    ensures
        ({
            let top = layered(layers, samples, n, x, y);
            let below = layered(layers, samples, (n - 1) as nat, x, y);
            match samples[n - 1] {
                Sample::Patch(p) => {
                    let inside = p.x0 <= x < p.x1 && p.y0 <= y < p.y1;
                    let color = p.colors@[(y - p.y0) * (p.x1 - p.x0) + (x - p.x0)];
                    let wanted = layers[n - 1].asset != 0xFFFF;
                    &&& wanted && inside && color.a == 255 ==> top == color
                    &&& wanted && inside && color.a > 0 && below.a == 0 ==> top == color
                    &&& !wanted || !inside || color.a == 0 ==> top == below
                },
                _ => top == below,
            }
        }),
        layered(layers, samples, 0, x, y) == (Rgba { r: 0, g: 0, b: 0, a: 0 }),
{
    if let Sample::Patch(p) = samples[n - 1] {
        canvas::painting_extremes(
            layered(layers, samples, (n - 1) as nat, x, y),
            p.color(x, y),
        );
    }
}

/// The frames of a file are its compositions in their order, each from the span
/// that stands for it.
pub proof fn frames_follow_their_spans(data: Seq<u8>, spans: Seq<Span>, first: int, n: nat, i: int)
    requires
        frames_upto(data, spans, first, n) is Ok,
        0 <= i < n,
    ensures
        frames_upto(data, spans, first, n)->Ok_0.len() == n,
        layers_in(data, spans[first + i]) == Ok::<Seq<Layer>, Fault>(
            frames_upto(data, spans, first, n)->Ok_0[i],
        ),
    decreases n,
{
    if n > 1 {
        if i < n - 1 {
            frames_follow_their_spans(data, spans, first, (n - 1) as nat, i);
        } else {
            frames_follow_their_spans(data, spans, first, (n - 1) as nat, 0);
        }
    } else {
        assert(frames_upto(data, spans, first, 0) == Ok::<Seq<Seq<Layer>>, Fault>(Seq::empty()));
    }
}

/// A table of offsets reads back as those offsets, in their order.
pub proof fn offsets_come_back(front: Seq<u8>, offsets: Seq<u32>, back: Seq<u8>)
    ensures
        offsets_at(
            front + bytes::joined(Seq::new(offsets.len(), |k: int| bytes::dword_bytes(offsets[k])))
                + back,
            front.len() as int,
            (front.len() + 4 * offsets.len()) as int,
        ) == Ok::<Seq<u32>, Fault>(offsets),
{
    let n = offsets.len();
    let pieces = Seq::new(n, |k: int| bytes::dword_bytes(offsets[k]));
    let table = bytes::joined(pieces);
    let data = front + table + back;
    let at = front.len() as int;
    bytes::pieces_keep_their_places(pieces, 4, 0);
    assert forall|k: int| 0 <= k < n implies #[trigger] bytes::le32(data, at + 4 * k)
        == offsets[k] by {
        bytes::pieces_keep_their_places(pieces, 4, k);
        let four = data.subrange(at + 4 * k, at + 4 * k + 4);
        assert(four =~= table.subrange(4 * k, 4 * k + 4));
        assert(four == bytes::dword_bytes(offsets[k]));
        assert(data =~= data.take(at + 4 * k) + bytes::dword_bytes(offsets[k]) + data.skip(
            at + 4 * k + 4,
        ));
        bytes::numbers_come_back(
            data.take(at + 4 * k),
            0,
            0,
            offsets[k],
            data.skip(at + 4 * k + 4),
        );
    }
    assert(Seq::new(n, |k: int| bytes::le32(data, at + 4 * k)) =~= offsets);
}

/// An action as its six bytes.
pub open spec fn action_bytes(a: Action) -> Seq<u8> {
    bytes::word_bytes(a.id) + bytes::word_bytes(a.variants) + bytes::word_bytes(a.start)
}

proof fn action_reads(data: Seq<u8>, at: int, a: Action)
    requires
        0 <= at,
        at + 6 <= data.len(),
        data.subrange(at, at + 6) == action_bytes(a),
    ensures
        action_at(data, at) == a,
{
    let six = data.subrange(at, at + 6);
    assert(data.subrange(at, at + 2) =~= six.subrange(0, 2));
    assert(data.subrange(at + 2, at + 4) =~= six.subrange(2, 4));
    assert(data.subrange(at + 4, at + 6) =~= six.subrange(4, 6));
    assert(six.subrange(0, 2) =~= bytes::word_bytes(a.id));
    assert(six.subrange(2, 4) =~= bytes::word_bytes(a.variants));
    assert(six.subrange(4, 6) =~= bytes::word_bytes(a.start));
    bytes::numbers_stand_there(data, at, a.id, 0);
    bytes::numbers_stand_there(data, at + 2, a.variants, 0);
    bytes::numbers_stand_there(data, at + 4, a.start, 0);
}

/// An action table reads back as its actions, in their order.
pub proof fn actions_come_back(front: Seq<u8>, actions: Seq<Action>, back: Seq<u8>)
    requires
        actions.len() <= u32::MAX,
    ensures
        actions_at(
            front + (bytes::dword_bytes(actions.len() as u32) + bytes::joined(
                Seq::new(actions.len(), |k: int| action_bytes(actions[k])),
            )) + back,
            front.len() as int,
        ) == Ok::<Seq<Action>, Fault>(actions),
{
    let n = actions.len();
    let pieces = Seq::new(n, |k: int| action_bytes(actions[k]));
    let table = bytes::joined(pieces);
    let data = front + (bytes::dword_bytes(n as u32) + table) + back;
    let at = front.len() as int + 4;
    bytes::pieces_keep_their_places(pieces, 6, 0);
    assert(data =~= front + bytes::dword_bytes(n as u32) + (table + back));
    bytes::numbers_come_back(front, 0, 0, n as u32, table + back);
    assert forall|k: int| 0 <= k < n implies #[trigger] action_at(data, at + 6 * k)
        == actions[k] by {
        bytes::pieces_keep_their_places(pieces, 6, k);
        assert(data.subrange(at + 6 * k, at + 6 * k + 6) =~= table.subrange(6 * k, 6 * k + 6));
        action_reads(data, at + 6 * k, actions[k]);
    }
    assert(Seq::new(n, |k: int| action_at(data, front.len() + 4 + 6 * k)) =~= actions);
}

/// A header reads back: the version, the name without the zero that may end it,
/// the first frame, a canvas of three times the size, and the eight sections,
/// which are told from `end`, the end of the name.
pub proof fn headers_come_back(
    data: Seq<u8>,
    version: u16,
    name: Seq<u8>,
    first: u16,
    width: u16,
    height: u16,
    offsets: Seq<u32>,
    end: int,
)
    requires
        name.len() <= 0xFFFF,
        end == 18 + name.len(),
        end + 70 <= data.len() <= usize::MAX,
        data.subrange(0, 2) == seq![0x4Cu8, 0x50u8],
        data.subrange(2, 4) == bytes::word_bytes(version),
        data.subrange(8, 10) == bytes::word_bytes(name.len() as u16),
        data.subrange(18, end) == name,
        data.subrange(end + 4, end + 6) == bytes::word_bytes(first),
        data.subrange(end + 12, end + 14) == bytes::word_bytes(width),
        data.subrange(end + 14, end + 16) == bytes::word_bytes(height),
        offsets.len() == 8,
        data.subrange(end + 38, end + 70) == bytes::joined(
            Seq::new(8, |i: int| bytes::dword_bytes(offsets[i])),
        ),
        version == 1 || version == 2,
        width > 0 && height > 0,
        forall|i: int| 0 <= i < 8 ==> end + #[trigger] offsets[i] <= data.len(),
    ensures
        header_of(data) matches Ok(h) && {
            &&& h.version == version
            &&& name.len() == 0 || name.last() != 0 ==> h.name == text::lossy_utf8(name)
            &&& name.len() > 0 && name.last() == 0 ==> h.name == text::lossy_utf8(name.drop_last())
            &&& h.first_frame == first
            &&& width <= 21845 ==> h.width == 3 * width
            &&& width > 21845 ==> h.width == 65535
            &&& height <= 21845 ==> h.height == 3 * height
            &&& height > 21845 ==> h.height == 65535
            &&& h.pointers.len() == 8
            &&& forall|i: int|
                0 <= i < 8 ==> (#[trigger] h.pointers[i]) == end + offsets[i]
        },
{
    let pieces = Seq::new(8, |i: int| bytes::dword_bytes(offsets[i]));
    let table = data.subrange(end + 38, end + 70);
    bytes::numbers_stand_there(data, 2, version, 0);
    bytes::numbers_stand_there(data, 8, name.len() as u16, 0);
    bytes::numbers_stand_there(data, end + 4, first, 0);
    bytes::numbers_stand_there(data, end + 12, width, 0);
    bytes::numbers_stand_there(data, end + 14, height, 0);
    assert forall|i: int| 0 <= i < 8 implies #[trigger] pointer(data, end, i) == end
        + offsets[i] by {
        bytes::pieces_keep_their_places(pieces, 4, i);
        assert(data.subrange(end + 38 + 4 * i, end + 38 + 4 * i + 4) =~= table.subrange(
            4 * i,
            4 * i + 4,
        ));
        assert(pieces[i] == bytes::dword_bytes(offsets[i]));
        bytes::numbers_stand_there(data, end + 38 + 4 * i, 0, offsets[i]);
    }
    assert(magic() =~= seq![0x4Cu8, 0x50u8]);
}

/// A file with another mark at its start, or of a version other than one and two,
/// is refused as such.
pub proof fn other_files_are_refused(data: Seq<u8>, version: u16)
    ensures
        data.len() < 2 || data[0] != 0x4C || data[1] != 0x50 ==> header_of(data) == Err::<
            HeaderModel,
            Fault,
        >(Fault::Unsupported("not a Microsoft Actor file"@)),
        data.len() >= 4 && data[0] == 0x4C && data[1] == 0x50 && data.subrange(2, 4)
            == bytes::word_bytes(version) && (version < 1 || version > 2) ==> header_of(data)
            == Err::<HeaderModel, Fault>(
            Fault::Unsupported(
                "unknown Microsoft Actor version "@ + text::decimal(version as nat),
            ),
        ),
{
    if data.len() >= 2 {
        let mark = data.subrange(0, 2);
        assert(mark[0] == data[0] && mark[1] == data[1]);
        if data[0] == 0x4C && data[1] == 0x50 {
            assert(mark =~= magic());
        }
    }
    bytes::numbers_stand_there(data, 2, version, 0);
}

/// The parts of a file are where the header's sections have them. The table
/// in the second section cuts the first into pieces, of which those before the
/// first frame are the metafiles and the others are the frames. The table in the
/// fourth cuts the third into sounds. The sixth lists the actions, and the
/// sequences stand in the fifth.
pub proof fn parts_are_in_their_sections(
    data: Seq<u8>,
    h: HeaderModel,
    l: LayoutModel,
    cuts: Seq<u32>,
    sounds: Seq<u32>,
    i: int,
)
    requires
        layout_under(data, h) == Ok::<LayoutModel, Fault>(l),
        offsets_at(data, h.pointers[1] as int, h.pointers[2] as int) == Ok::<Seq<u32>, Fault>(
            cuts,
        ),
        offsets_at(data, h.pointers[3] as int, h.pointers[4] as int) == Ok::<Seq<u32>, Fault>(
            sounds,
        ),
        h.pointers[0] + 0xFFFF_FFFF <= u64::MAX,
        h.pointers[2] + 0xFFFF_FFFF <= u64::MAX,
    ensures
        l.header == h,
        l.assets.len() == h.first_frame,
        l.assets.len() + l.frames.len() == cuts.len() - 1,
        0 <= i < l.assets.len() ==> l.assets[i].start == h.pointers[0] + cuts[i]
            && l.assets[i].end == h.pointers[0] + cuts[i + 1],
        0 <= i < l.frames.len() ==> layers_in(
            data,
            Span {
                start: (h.pointers[0] + cuts[h.first_frame + i]) as u64,
                end: (h.pointers[0] + cuts[h.first_frame + i + 1]) as u64,
            },
        ) == Ok::<Seq<Layer>, Fault>(l.frames[i]),
        (forall|k: int| 0 < k < sounds.len() ==> sounds[k - 1] <= #[trigger] sounds[k]) && (
        sounds.len() > 0 ==> h.pointers[2] + sounds.last() <= data.len()) ==> {
            &&& l.sounds.len() == (if sounds.len() == 0 {
                0
            } else {
                sounds.len() - 1
            })
            &&& 0 <= i < l.sounds.len() ==> l.sounds[i] == data.subrange(
                h.pointers[2] + sounds[i],
                h.pointers[2] + sounds[i + 1],
            )
        },
        actions_at(data, h.pointers[5] as int) == Ok::<Seq<Action>, Fault>(l.actions),
        l.sequences == sequence::sequences_of(
            data,
            h.pointers[4] as int,
            h.pointers[5] as int,
            (sequence_end(l.actions, l.actions.len()) - 1) as nat,
        ),
{
    let spans = spans_of(h.pointers[0] as int, cuts);
    let first = h.first_frame as int;
    let n = (spans.len() - first) as nat;
    if 0 <= i < n {
        frames_follow_their_spans(data, spans, first, n, i);
    }
    frames_follow_their_spans(data, spans, first, n, 0);
    if (forall|k: int| 0 < k < sounds.len() ==> sounds[k - 1] <= #[trigger] sounds[k]) && (
    sounds.len() > 0 ==> h.pointers[2] + sounds.last() <= data.len()) {
        let heard = spans_of(h.pointers[2] as int, sounds);
        assert forall|k: int| 0 <= k < heard.len() implies (#[trigger] heard[k]).start
            <= heard[k].end <= data.len() by {
            assert(sounds[k + 1 - 1] <= sounds[k + 1]);
            cuts_go_up(sounds, k + 1, sounds.len() - 1);
        }
        sounds_follow_their_spans(data, heard, heard.len(), i);
    }
}

proof fn cuts_go_up(cuts: Seq<u32>, a: int, b: int)
    requires
        0 <= a <= b < cuts.len(),
        forall|k: int| 0 < k < cuts.len() ==> cuts[k - 1] <= #[trigger] cuts[k],
    ensures
        cuts[a] <= cuts[b],
    decreases b - a,
{
    if a < b {
        assert(cuts[b - 1] <= cuts[b]);
        cuts_go_up(cuts, a, b - 1);
    }
}

proof fn sounds_follow_their_spans(data: Seq<u8>, spans: Seq<Span>, n: nat, i: int)
    requires
        n <= spans.len(),
        forall|k: int| 0 <= k < n ==> (#[trigger] spans[k]).start <= spans[k].end <= data.len(),
    ensures
        sounds_upto(data, spans, n).len() == n,
        0 <= i < n ==> sounds_upto(data, spans, n)[i] == data.subrange(
            spans[i].start as int,
            spans[i].end as int,
        ),
    decreases n,
{
    if n > 0 {
        assert(spans[n - 1].start <= spans[n - 1].end <= data.len());
        sounds_follow_their_spans(data, spans, (n - 1) as nat, i);
    }
}

/// A sound whose span lies outside the file, or runs backwards, is passed over:
/// the others stay as they are.
pub proof fn lost_sounds_are_passed_over(data: Seq<u8>, spans: Seq<Span>, lost: Span)
    requires
        lost.start > lost.end || lost.end > data.len(),
    ensures
        sounds_upto(data, spans.push(lost), spans.len() + 1) == sounds_upto(
            data,
            spans,
            spans.len(),
        ),
{
    sounds_go_alike(data, spans.push(lost), spans, spans.len());
}

proof fn sounds_go_alike(data: Seq<u8>, a: Seq<Span>, b: Seq<Span>, n: nat)
    requires
        n <= a.len(),
        n <= b.len(),
        forall|i: int| 0 <= i < n ==> a[i] == b[i],
    ensures
        sounds_upto(data, a, n) == sounds_upto(data, b, n),
    decreases n,
{
    if n > 0 {
        sounds_go_alike(data, a, b, (n - 1) as nat);
    }
}

/// The sequences to look for reach to the last that any action names: counted
/// from one, an action's variants start at its number.
pub proof fn every_named_sequence_counts(actions: Seq<Action>, n: nat, i: int)
    requires
        n <= actions.len(),
    ensures
        sequence_end(actions, n) >= 1,
        0 <= i < n ==> actions[i].start + actions[i].variants <= sequence_end(actions, n),
        sequence_end(actions, n) == 1 || exists|k: int|
            0 <= k < n && (#[trigger] actions[k]).start + actions[k].variants == sequence_end(
                actions,
                n,
            ),
    decreases n,
{
    if n > 0 {
        every_named_sequence_counts(actions, (n - 1) as nat, i);
        let before = sequence_end(actions, (n - 1) as nat);
        if sequence_end(actions, n) != before {
            assert(actions[n - 1].start + actions[n - 1].variants == sequence_end(actions, n));
        } else if before != 1 {
            let k = choose|k: int|
                0 <= k < n - 1 && (#[trigger] actions[k]).start + actions[k].variants == before;
            assert(actions[k].start + actions[k].variants == sequence_end(actions, n));
        }
    }
}

/// The palette runs through six reds, seven greens and six blues, blue fastest
/// and red slowest, from none to full, behind a black, with blacks behind it.
pub proof fn the_palette_is_a_cube(r: int, g: int, b: int, i: int)
    requires
        0 <= r < 6,
        0 <= g < 7,
        0 <= b < 6,
    ensures
        cube().len() == 256,
        ({
            let c = cube()[1 + 42 * r + 6 * g + b];
            &&& 5 * c.r == 255 * r
            &&& 255 * g - 6 < 6 * c.g <= 255 * g
            &&& 5 * c.b == 255 * b
        }),
        i == 0 || 253 <= i < 256 ==> cube()[i] == (Rgb { r: 0, g: 0, b: 0 }),
{
    let n = 42 * r + 6 * g + b;
    assert(n / 42 == r);
    assert(n / 6 == 7 * r + g);
    assert((7 * r + g) % 7 == g);
    assert(n % 6 == b);
    assert(0 <= n < 252);
}

/// An action without variants names its animation alone; one with more has the
/// variant behind it in brackets, counted from one.
pub proof fn animations_are_named_after_actions(id: u16, variants: u16, start: u16, variant: nat)
    requires
        variant < variants,
    ensures
        ({
            let name = animation_name(Action { id, variants, start }, variant as int);
            &&& variants == 1 ==> name == "Action "@ + text::decimal(id as nat)
            &&& variants > 1 ==> name == "Action "@ + text::decimal(id as nat) + " ("@
                + text::decimal(variant + 1) + ")"@
        }),
{
}

/// Each variant of an action whose sequence has any frames is an animation, in
/// the order of the variants. Sequences count from one, and a variant plays the
/// one that is so many behind its action's.
pub proof fn variants_are_animations(
    action: Action,
    n: nat,
    sequences: Seq<Seq<Slot>>,
    first_frame: u16,
    total: int,
    v: int,
)
    requires
        0 <= v < n,
        1 <= action.start,
        action.start + n - 1 <= sequences.len(),
        forall|k: int|
            action.start - 1 <= k < action.start + n - 1 ==> (#[trigger] sequences[k]).len() > 0,
    ensures
        variants_upto(action, n, sequences, first_frame, total).len() == n,
        ({
            let a = variants_upto(action, n, sequences, first_frame, total)[v];
            &&& a.name == animation_name(action, v)
            &&& a.frames == sequence::frames_of(
                sequences[action.start + v - 1],
                first_frame,
                total,
            )
            &&& a.return_animation == Seq::<char>::empty()
            &&& a.transition == Transition::Nothing
        }),
    decreases n,
{
    assert(sequences[action.start + n - 2].len() > 0);
    if n > 1 {
        let w = if v < n - 1 {
            v
        } else {
            0
        };
        variants_are_animations(action, (n - 1) as nat, sequences, first_frame, total, w);
    } else {
        assert(variants_upto(action, 0, sequences, first_frame, total) =~= Seq::empty());
    }
}

/// A variant whose sequence the file has not, or has without frames, is no
/// animation.
pub proof fn empty_variants_are_left_out(
    action: Action,
    n: nat,
    sequences: Seq<Seq<Slot>>,
    first_frame: u16,
    total: int,
)
    requires
        action.start + n < 1 || action.start + n > sequences.len() || sequences[action.start + n
            - 1].len() == 0,
    ensures
        variants_upto(action, n + 1, sequences, first_frame, total) == variants_upto(
            action,
            n,
            sequences,
            first_frame,
            total,
        ),
{
    let before = variants_upto(action, n, sequences, first_frame, total);
    assert(before + Seq::empty() =~= before);
}

/// The animations of one action follow those of the actions before it.
pub proof fn actions_follow_one_another(
    actions: Seq<Action>,
    one: Action,
    sequences: Seq<Seq<Slot>>,
    first_frame: u16,
    total: int,
)
    ensures
        animations_upto(Seq::empty(), 0, sequences, first_frame, total).len() == 0,
        animations_upto(actions.push(one), actions.len() + 1, sequences, first_frame, total)
            == animations_upto(actions, actions.len(), sequences, first_frame, total)
            + variants_upto(one, one.variants as nat, sequences, first_frame, total),
{
    actions_go_alike(actions.push(one), actions, actions.len(), sequences, first_frame, total);
}

proof fn actions_go_alike(
    a: Seq<Action>,
    b: Seq<Action>,
    n: nat,
    sequences: Seq<Seq<Slot>>,
    first_frame: u16,
    total: int,
)
    requires
        n <= a.len(),
        n <= b.len(),
        forall|i: int| 0 <= i < n ==> a[i] == b[i],
    ensures
        animations_upto(a, n, sequences, first_frame, total) == animations_upto(
            b,
            n,
            sequences,
            first_frame,
            total,
        ),
    decreases n,
{
    if n > 0 {
        actions_go_alike(a, b, (n - 1) as nat, sequences, first_frame, total);
    }
}

/// A character is told by its header: the version and the canvas are its own,
/// its name is in American English, and what kind of Actor it is goes by the
/// version.
pub proof fn actors_are_told_by_their_header(h: HeaderModel)
    ensures
        info_of(h).major_version == h.version,
        info_of(h).minor_version == 0,
        info_of(h).width == h.width,
        info_of(h).height == h.height,
        info_of(h).localized.language_id == 1033,
        info_of(h).localized.name == h.name,
        h.version == 1 ==> info_of(h).localized.description == "Microsoft Bob Actor"@,
        h.version == 2 ==> info_of(h).localized.description == "Microsoft Office 97 Actor"@,
        info_of(h).localized.extra == Seq::<char>::empty(),
        info_of(h).flags == 0 && info_of(h).transparent_index == 0,
        info_of(h).palette == cube(),
        info_of(h).guid.len() == 16,
        forall|i: int| 0 <= i < 16 ==> info_of(h).guid[i] == 0,
{
}

/// A file with animations is a character, with what its header and its parts
/// tell; one without any is refused.
pub proof fn files_with_animations_are_characters(data: Seq<u8>, l: LayoutModel)
    requires
        layout_of(data) == Ok::<LayoutModel, Fault>(l),
    ensures
        l.animations().len() > 0 ==> (actor_file(data) matches Ok(m) && m.info == info_of(l.header)
            && m.animations == l.animations() && m.layout == l),
        l.animations().len() == 0 ==> actor_file(data) == Err::<ActorModel, Fault>(
            Fault::Parse("Actor file contains no playable animations"@),
        ),
        l.animations() == animations_upto(
            l.actions,
            l.actions.len(),
            l.sequences,
            l.header.first_frame,
            l.frames.len() as int,
        ),
        header_of(data) == Ok::<HeaderModel, Fault>(l.header),
{
}

/// What is read of a file is its own: the bytes that the metafiles are cut from,
/// the places of the metafiles, the layers of every frame, the sounds and the
/// canvas.
pub proof fn characters_hold_their_files(data: Vec<u8>, c: Character, l: LayoutModel, i: int)
    requires
        call_ensures(parse, (data,), Ok::<Character, Error>(c)),
        layout_of(data@) == Ok::<LayoutModel, Fault>(l),
    ensures
        l.animations().len() > 0,
        c.animations@.len() == l.animations().len(),
        0 <= i < c.animations@.len() ==> c.animations@[i].name@ == l.animations()[i].name
            && c.animations@[i].frames@.len() == l.animations()[i].frames.len(),
        c.audio@.len() == l.sounds.len(),
        0 <= i < c.audio@.len() ==> c.audio@[i]@ == l.sounds[i],
        c.artwork matches Artwork::Actor(a) && {
            &&& a.data@ == data@
            &&& a.assets@ == l.assets
            &&& a.frames@.len() == l.frames.len()
            &&& 0 <= i < a.frames@.len() ==> a.frames@[i]@ == l.frames[i]
            &&& a.width == l.header.width && a.height == l.header.height
        },
        c.info.width == l.header.width && c.info.height == l.header.height,
        c.info.localized@.len() == 1 && c.info.localized@[0].name@ == l.header.name,
{
    let m = l.animations();
    assert(types::animation_models(c.animations@).len() == m.len());
    if 0 <= i < c.animations@.len() {
        assert(types::animation_models(c.animations@)[i] == c.animations@[i]@);
    }
    assert(types::sound_models(c.audio@).len() == l.sounds.len());
    if 0 <= i < c.audio@.len() {
        assert(types::sound_models(c.audio@)[i] == c.audio@[i]@);
    }
    if let Artwork::Actor(a) = c.artwork {
        assert(layer_lists(a.frames@).len() == a.frames@.len());
        if 0 <= i < a.frames@.len() {
            assert(layer_lists(a.frames@)[i] == a.frames@[i]@);
        }
    }
}

/// A composition that is too small for its own start, or for the layers that it
/// counts, is refused, and so is one that the file cuts short.
pub proof fn short_compositions_are_refused(data: Seq<u8>, span: Span, count: u16)
    requires
        span.start + 4 <= data.len(),
        data.subrange(span.start + 2, span.start + 4) == bytes::word_bytes(count),
    ensures
        span.end < span.start + 4 ==> layers_in(data, span) == Err::<Seq<Layer>, Fault>(
            Fault::Parse("short Actor frame composition"@),
        ),
        span.start + 4 <= span.end < span.start + 4 + 10 * count ==> layers_in(data, span)
            == Err::<Seq<Layer>, Fault>(Fault::Parse("truncated Actor frame composition"@)),
        data.len() < span.start + 4 + 10 * count <= span.end ==> layers_in(data, span) == Err::<
            Seq<Layer>,
            Fault,
        >(Fault::Parse("truncated Actor data"@)),
{
    bytes::numbers_stand_there(data, span.start + 2, count, 0);
}

/// A table of offsets that runs backwards or is no number of whole offsets is
/// refused, and so is one that the file cuts short.
pub proof fn broken_tables_are_refused(data: Seq<u8>, at: int, end: int, count: u32)
    requires
        0 <= at,
    ensures
        end < at || (end - at) % 4 != 0 ==> offsets_at(data, at, end) == Err::<Seq<u32>, Fault>(
            Fault::Parse("invalid Actor offset table"@),
        ),
        at < end && (end - at) % 4 == 0 && end > data.len() ==> offsets_at(data, at, end) == Err::<
            Seq<u32>,
            Fault,
        >(Fault::Parse("truncated Actor data"@)),
        at + 4 > data.len() ==> actions_at(data, at) == Err::<Seq<Action>, Fault>(
            Fault::Parse("truncated Actor data"@),
        ),
        at + 4 <= data.len() < at + 4 + 6 * count && data.subrange(at, at + 4)
            == bytes::dword_bytes(count) ==> actions_at(data, at) == Err::<Seq<Action>, Fault>(
            Fault::Parse("truncated Actor data"@),
        ),
{
    bytes::numbers_stand_there(data, at, 0, count);
}

/// A file that ends within its name or its header is refused, and so is one with
/// an empty canvas or with a section that starts past its end.
pub proof fn broken_headers_are_refused(
    data: Seq<u8>,
    version: u16,
    length: u16,
    width: u16,
    height: u16,
    k: int,
    offset: u32,
    end: int,
)
    requires
        data.len() >= 10,
        data.take(2) == seq![0x4Cu8, 0x50u8],
        data.subrange(2, 4) == bytes::word_bytes(version),
        version == 1 || version == 2,
        data.subrange(8, 10) == bytes::word_bytes(length),
        end == 18 + length,
        end + 16 <= data.len() ==> data.subrange(end + 12, end + 14) == bytes::word_bytes(width)
            && data.subrange(end + 14, end + 16) == bytes::word_bytes(height),
    ensures
        data.len() < end ==> header_of(data) == Err::<HeaderModel, Fault>(
            Fault::Parse("truncated Actor name"@),
        ),
        end <= data.len() < end + 16 ==> header_of(data) == Err::<HeaderModel, Fault>(
            Fault::Parse("truncated Actor data"@),
        ),
        end + 16 <= data.len() && (width == 0 || height == 0) ==> header_of(data) == Err::<
            HeaderModel,
            Fault,
        >(Fault::Parse("Actor character has an empty canvas"@)),
        end + 16 <= data.len() < end + 70 && width > 0 && height > 0 ==> header_of(data) == Err::<
            HeaderModel,
            Fault,
        >(Fault::Parse("truncated Actor data"@)),
        end + 70 <= data.len() && width > 0 && height > 0 && 0 <= k < 8 && data.subrange(
            end + 38 + 4 * k,
            end + 42 + 4 * k,
        ) == bytes::dword_bytes(offset) && end + offset > data.len() ==> header_of(data) == Err::<
            HeaderModel,
            Fault,
        >(Fault::Parse("Actor section offset past end of file"@)),
{
    assert(data.subrange(0, 2) =~= data.take(2));
    assert(magic() =~= seq![0x4Cu8, 0x50u8]);
    bytes::numbers_stand_there(data, 2, version, 0);
    bytes::numbers_stand_there(data, 8, length, 0);
    bytes::numbers_stand_there(data, end + 12, width, 0);
    bytes::numbers_stand_there(data, end + 14, height, 0);
    bytes::numbers_stand_there(data, end + 38 + 4 * k, 0, offset);
    if 0 <= k < 8 && pointer(data, end, k) > data.len() {
        assert(exists|i: int| 0 <= i < 8 && #[trigger] pointer(data, end, i) > data.len());
    }
}

/// A frame that the character has is drawn unless artwork that it shows could not
/// be drawn; then the first such layer is the complaint. Layers that are blank
/// spoil nothing. A frame that it has not is complained of by its number.
pub proof fn frames_are_drawn_unless_spoiled(
    a: &ActorSource,
    index: usize,
    samples: &Vec<Sample>,
    r: Result<Vec<u8>, Error>,
    k: int,
)
    requires
        call_ensures(ActorSource::render, (a, index, samples), r),
        index < a.frames@.len() ==> samples@.len() == a.frames@[index as int]@.len(),
    ensures
        index >= a.frames@.len() ==> (r matches Err(e) && e@ == Fault::Parse(
            "Actor frame "@ + text::decimal(index as nat) + " is out of range"@,
        )),
        index < a.frames@.len() ==> {
            let layers = a.frames@[index as int]@;
            &&& (forall|j: int|
                #![trigger layers[j]]
                0 <= j < layers.len() ==> layers[j].asset == 0xFFFF || !(samples@[j] is Failed))
                ==> r is Ok
            &&& 0 <= k < layers.len() && layers[k].asset != 0xFFFF && samples@[k] is Failed && (
            forall|j: int|
                #![trigger layers[j]]
                0 <= j < k ==> layers[j].asset == 0xFFFF || !(samples@[j] is Failed)) ==> (
            r matches Err(e) && e@ == samples@[k]->Failed_0@)
        },
{
    if index < a.frames@.len() {
        let layers = a.frames@[index as int]@;
        if let Err(e) = r {
            let n = choose|n: int|
                {
                    &&& 0 <= n < layers.len()
                    &&& #[trigger] spoils(layers, samples@, n)
                    &&& samples@[n]->Failed_0@ == e@
                    &&& forall|j: int| 0 <= j < n ==> !#[trigger] spoils(layers, samples@, j)
                };
            assert(layers[n].asset != 0xFFFF);
            if 0 <= k < n {
                assert(!spoils(layers, samples@, k));
            }
        } else if 0 <= k < layers.len() {
            assert(!spoils(layers, samples@, k));
        }
    }
}

/// An asset is drawn from the bytes of the file between the two ends of its span,
/// at the size that is asked for. One that the table has not is complained of by
/// its number.
pub proof fn assets_are_drawn_from_their_bytes(
    a: &ActorSource,
    index: u16,
    size: (usize, usize),
    r: Result<Drawing, Error>,
)
    requires
        call_ensures(ActorSource::asset, (a, index, size), r),
        index < a.assets@.len() ==> a.assets@[index as int].start <= a.assets@[index as int].end
            <= a.data@.len(),
    ensures
        index >= a.assets@.len() ==> (r matches Err(e) && e@ == Fault::Parse(
            "Actor asset "@ + text::decimal(index as nat) + " is out of range"@,
        )),
        index < a.assets@.len() ==> {
            let span = a.assets@[index as int];
            let bytes = a.data@.take(span.end as int).skip(span.start as int);
            match r {
                Ok(d) => wmf::rendered(bytes, size.0, size.1) == Ok::<DrawingModel, Fault>(d@),
                Err(e) => wmf::rendered(bytes, size.0, size.1) == Err::<DrawingModel, Fault>(e@),
            }
        },
{
    if index < a.assets@.len() {
        let span = a.assets@[index as int];
        assert(a.data@.take(span.end as int).skip(span.start as int) =~= a.metafile(index));
    }
}

} // verus!
