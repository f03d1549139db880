//! Microsoft Agent 1.5 structured-storage (`.acs`) reader.
//!
//! The packed parts of a file and its strings are decoded by routines that the
//! caller hands in, so that one decoder serves every Agent format.
use vstd::prelude::*;

use crate::audio;
use crate::audio::has_wave_marks;
use crate::bytes;
use crate::character::{Artwork, Character};
use crate::compound;
use crate::error::{Error, Fault};
use crate::reader;
use crate::reader::Cursor;
use crate::text;
use crate::text::decimal_text;
use crate::types;
use crate::types::{
    stride_for, Animation, AnimationModel, CharacterInfo, Frame, FrameImage, FrameModel,
    IndexedImage, IndexedModel, LocalizedInfo, LocalizedModel, PlainInfo, Rgb, Transition,
};

verus! {

pub const ACF_SIGNATURE: u32 = 0xABCD_ABC1;

pub const INNER_SIGNATURE: u32 = 0x0001_001F;

/// The value of what a decompressor returned.
pub open spec fn unpacked_value(r: Result<Vec<u8>, Error>) -> Result<Seq<u8>, Fault> {
    match r {
        Ok(v) => Ok(v@),
        Err(e) => Err(e@),
    }
}

/// A decompressor can be called on anything, and what it returns depends on
/// the bytes and the size alone.
pub open spec fn is_decompressor<D: Fn(&[u8], usize) -> Result<Vec<u8>, Error>>(d: D) -> bool {
    &&& forall|s: &[u8], n: usize| #[trigger] call_requires(d, (s, n))
    &&& forall|s: &[u8], t: &[u8], n: usize, a: Result<Vec<u8>, Error>, b: Result<Vec<u8>, Error>|
        s@ == t@ && #[trigger] call_ensures(d, (s, n), a) && #[trigger] call_ensures(d, (t, n), b)
            ==> unpacked_value(a) == unpacked_value(b)
}

/// The function a decompressor computes.
pub open spec fn unpacking<D: Fn(&[u8], usize) -> Result<Vec<u8>, Error>>(d: D) -> spec_fn(
    Seq<u8>,
    nat,
) -> Result<Seq<u8>, Fault> {
    |bytes: Seq<u8>, n: nat|
        {
            let (s, r) = choose|s: &[u8], r: Result<Vec<u8>, Error>|
                s@ == bytes && #[trigger] call_ensures(d, (s, n as usize), r);
            unpacked_value(r)
        }
}

proof fn unpacking_is<D: Fn(&[u8], usize) -> Result<Vec<u8>, Error>>(
    d: D,
    s: &[u8],
    n: usize,
    r: Result<Vec<u8>, Error>,
)
    requires
        is_decompressor(d),
        call_ensures(d, (s, n), r),
    ensures
        unpacking(d)(s@, n as nat) == unpacked_value(r),
{
    let (t, q) = choose|t: &[u8], q: Result<Vec<u8>, Error>|
        t@ == s@ && #[trigger] call_ensures(d, (t, n), q);
    assert(t@ == s@ && call_ensures(d, (t, n), q));
}

/// The value of what a string reader returned: the string and the place behind
/// it.
pub open spec fn string_value(r: Result<(String, usize), Error>) -> Result<
    (Seq<char>, nat),
    Fault,
> {
    match r {
        Ok(v) => Ok((v.0@, v.1 as nat)),
        Err(e) => Err(e@),
    }
}

/// A string reader can be called at any place in some bytes, stays within
/// them, and what it returns depends on the bytes and the place alone.
pub open spec fn is_string_reader<S: Fn(&[u8], usize) -> Result<(String, usize), Error>>(
    f: S,
) -> bool {
    &&& forall|s: &[u8], p: usize| p <= s@.len() ==> #[trigger] call_requires(f, (s, p))
    &&& forall|s: &[u8], p: usize, r: Result<(String, usize), Error>| #[trigger]
        call_ensures(f, (s, p), r) ==> (r matches Ok(v) ==> v.1 <= s@.len())
    &&& forall|
        s: &[u8],
        t: &[u8],
        p: usize,
        a: Result<(String, usize), Error>,
        b: Result<(String, usize), Error>,
    |
        s@ == t@ && #[trigger] call_ensures(f, (s, p), a) && #[trigger] call_ensures(f, (t, p), b)
            ==> string_value(a) == string_value(b)
}

/// The function a string reader computes.
pub open spec fn strings<S: Fn(&[u8], usize) -> Result<(String, usize), Error>>(f: S) -> spec_fn(
    Seq<u8>,
    nat,
) -> Result<(Seq<char>, nat), Fault> {
    |bytes: Seq<u8>, p: nat|
        {
            let (s, r) = choose|s: &[u8], r: Result<(String, usize), Error>|
                s@ == bytes && #[trigger] call_ensures(f, (s, p as usize), r);
            string_value(r)
        }
}

proof fn strings_is<S: Fn(&[u8], usize) -> Result<(String, usize), Error>>(
    f: S,
    s: &[u8],
    p: usize,
    r: Result<(String, usize), Error>,
)
    requires
        is_string_reader(f),
        call_ensures(f, (s, p), r),
    ensures
        strings(f)(s@, p as nat) == string_value(r),
{
    let (t, q) = choose|t: &[u8], q: Result<(String, usize), Error>|
        t@ == s@ && #[trigger] call_ensures(f, (t, p), q);
    assert(t@ == s@ && call_ensures(f, (t, p), q));
}

/// Reads a string at the cursor.
fn next_string<S: Fn(&[u8], usize) -> Result<(String, usize), Error>>(
    c: &mut Cursor,
    read_string: &S,
) -> (r: Result<String, Error>)
    requires
        old(c).wf(),
        is_string_reader(*read_string),
    ensures
        final(c).wf(),
        final(c).data == old(c).data,
        match r {
            Ok(v) => strings(*read_string)(old(c).data@, old(c).pos as nat) == Ok::<
                (Seq<char>, nat),
                Fault,
            >((v@, final(c).pos as nat)),
            Err(e) => strings(*read_string)(old(c).data@, old(c).pos as nat) == Err::<
                (Seq<char>, nat),
                Fault,
            >(e@),
        },
{
    let r = read_string(c.data, c.pos);
    proof {
        strings_is(*read_string, c.data, c.pos, r);
    }
    match r {
        Ok((text, next)) => {
            c.pos = next;
            Ok(text)
        },
        Err(e) => Err(e),
    }
}

/// Where a character file keeps an animation.
#[derive(Debug)]
pub struct AnimationRef {
    pub name: String,
    pub file: String,
    pub checksum: u32,
}

/// The value of an [`AnimationRef`].
#[verifier::ext_equal]
pub struct RefModel {
    pub name: Seq<char>,
    pub file: Seq<char>,
    pub checksum: u32,
}

impl View for AnimationRef {
    type V = RefModel;

    open spec fn view(&self) -> RefModel {
        RefModel { name: self.name@, file: self.file@, checksum: self.checksum }
    }
}

/// The values of some references.
pub open spec fn ref_models(s: Seq<AnimationRef>) -> Seq<RefModel> {
    Seq::new(s.len(), |i: int| s[i]@)
}

/// The unpacked character description.
pub open spec fn acf_payload(
    un: spec_fn(Seq<u8>, nat) -> Result<Seq<u8>, Fault>,
    bytes: Seq<u8>,
) -> Result<Seq<u8>, Fault> {
    match reader::dword_at(bytes, 0) {
        Err(e) => Err(e),
        Ok(signature) => if signature != ACF_SIGNATURE {
            Err(Fault::Parse("invalid Agent 1.5 ACF signature"@))
        } else {
            match reader::dword_at(bytes, 4) {
                Err(e) => Err(e),
                Ok(unpacked) => match reader::dword_at(bytes, 8) {
                    Err(e) => Err(e),
                    Ok(packed) => match reader::bytes_at(bytes, 12, packed as int) {
                        Err(e) => Err(e),
                        Ok(payload) => un(payload, unpacked as nat),
                    },
                },
            }
        },
    }
}

/// Unpacks the character description.
pub fn unpack_acf<D: Fn(&[u8], usize) -> Result<Vec<u8>, Error>>(
    bytes: &[u8],
    decompress: &D,
) -> (r: Result<Vec<u8>, Error>)
    requires
        is_decompressor(*decompress),
    ensures
        unpacked_value(r) == acf_payload(unpacking(*decompress), bytes@),
{
    let mut c = Cursor::new(bytes);
    let signature = match c.u32() {
        Ok(v) => v,
        Err(e) => return Err(e),
    };
    if signature != ACF_SIGNATURE {
        return Err(Error::parse("invalid Agent 1.5 ACF signature"));
    }
    let unpacked = match c.u32() {
        Ok(v) => v,
        Err(e) => return Err(e),
    };
    let packed = match c.u32() {
        Ok(v) => v,
        Err(e) => return Err(e),
    };
    let payload = match c.bytes(packed) {
        Ok(v) => v,
        Err(e) => return Err(e),
    };
    let packed_bytes = payload.as_slice();
    let r = decompress(packed_bytes, unpacked as usize);
    proof {
        unpacking_is(*decompress, packed_bytes, unpacked as usize, r);
    }
    r
}

/// The unpacked data of an animation. The stored checksum is passed over: a
/// mismatch with the one in the reference does not spoil the animation.
pub open spec fn aaf_payload(
    un: spec_fn(Seq<u8>, nat) -> Result<Seq<u8>, Fault>,
    bytes: Seq<u8>,
) -> Result<Seq<u8>, Fault> {
    match reader::dword_at(bytes, 0) {
        Err(e) => Err(e),
        Ok(signature) => if signature != INNER_SIGNATURE {
            Err(Fault::Parse("invalid Agent 1.5 AAF signature"@))
        } else if bytes.len() < 17 {
            Err(reader::short_data())
        } else {
            let unpacked = bytes::le32(bytes, 9);
            match reader::bytes_at(bytes, 17, bytes::le32(bytes, 13) as int) {
                Err(e) => Err(e),
                Ok(payload) => if bytes[8] != 0 {
                    un(payload, unpacked as nat)
                } else if payload.len() == unpacked {
                    Ok(payload)
                } else {
                    Err(Fault::Parse("Agent 1.5 AAF size mismatch"@))
                },
            }
        },
    }
}

/// Unpacks the data of an animation.
pub fn unpack_aaf<D: Fn(&[u8], usize) -> Result<Vec<u8>, Error>>(
    bytes: &[u8],
    decompress: &D,
) -> (r: Result<Vec<u8>, Error>)
    requires
        is_decompressor(*decompress),
    ensures
        unpacked_value(r) == aaf_payload(unpacking(*decompress), bytes@),
{
    let mut c = Cursor::new(bytes);
    let signature = match c.u32() {
        Ok(v) => v,
        Err(e) => return Err(e),
    };
    if signature != INNER_SIGNATURE {
        return Err(Error::parse("invalid Agent 1.5 AAF signature"));
    }
    match c.u32() {
        Ok(_) => {},
        Err(e) => return Err(e),
    }
    let compressed = match c.u8() {
        Ok(v) => v != 0,
        Err(e) => return Err(e),
    };
    let unpacked = match c.u32() {
        Ok(v) => v,
        Err(e) => return Err(e),
    };
    let stored = match c.u32() {
        Ok(v) => v,
        Err(e) => return Err(e),
    };
    let payload = match c.bytes(stored) {
        Ok(v) => v,
        Err(e) => return Err(e),
    };
    if compressed {
        let packed_bytes = payload.as_slice();
        let r = decompress(packed_bytes, unpacked as usize);
        proof {
            unpacking_is(*decompress, packed_bytes, unpacked as usize, r);
        }
        r
    } else if payload.len() == unpacked as usize {
        Ok(payload)
    } else {
        Err(Error::parse("Agent 1.5 AAF size mismatch"))
    }
}

/// The reference at `p`, with the place behind it: a name, a stream, the name
/// of a return animation, which is passed over, and a checksum.
pub open spec fn ref_at(
    st: spec_fn(Seq<u8>, nat) -> Result<(Seq<char>, nat), Fault>,
    data: Seq<u8>,
    p: nat,
) -> Result<(RefModel, nat), Fault> {
    match st(data, p) {
        Err(e) => Err(e),
        Ok((name, p1)) => match st(data, p1) {
            Err(e) => Err(e),
            Ok((file, p2)) => match st(data, p2) {
                Err(e) => Err(e),
                Ok((_, p3)) => match reader::dword_at(data, p3 as int) {
                    Err(e) => Err(e),
                    Ok(checksum) => Ok((RefModel { name, file, checksum }, p3 + 4)),
                },
            },
        },
    }
}

/// The first `n` references from `p` on, with the place behind them.
pub open spec fn refs_upto(
    st: spec_fn(Seq<u8>, nat) -> Result<(Seq<char>, nat), Fault>,
    data: Seq<u8>,
    p: nat,
    n: nat,
) -> Result<(Seq<RefModel>, nat), Fault>
    decreases n,
{
    if n == 0 {
        Ok((Seq::empty(), p))
    } else {
        match refs_upto(st, data, p, (n - 1) as nat) {
            Err(e) => Err(e),
            Ok((done, q)) => match ref_at(st, data, q) {
                Err(e) => Err(e),
                Ok((r, next)) => Ok((done.push(r), next)),
            },
        }
    }
}

proof fn refs_keep_fault(
    st: spec_fn(Seq<u8>, nat) -> Result<(Seq<char>, nat), Fault>,
    data: Seq<u8>,
    p: nat,
    n: nat,
    m: nat,
)
    requires
        n <= m,
        refs_upto(st, data, p, n) is Err,
    ensures
        refs_upto(st, data, p, m) == refs_upto(st, data, p, n),
    decreases m,
{
    if n < m {
        refs_keep_fault(st, data, p, n, (m - 1) as nat);
    }
}

fn read_ref<S: Fn(&[u8], usize) -> Result<(String, usize), Error>>(
    c: &mut Cursor,
    read_string: &S,
) -> (r: Result<AnimationRef, Error>)
    requires
        old(c).wf(),
        is_string_reader(*read_string),
    ensures
        final(c).wf(),
        final(c).data == old(c).data,
        match r {
            Ok(v) => ref_at(strings(*read_string), old(c).data@, old(c).pos as nat) == Ok::<
                (RefModel, nat),
                Fault,
            >((v@, final(c).pos as nat)),
            Err(e) => ref_at(strings(*read_string), old(c).data@, old(c).pos as nat) == Err::<
                (RefModel, nat),
                Fault,
            >(e@),
        },
{
    let name = match next_string(c, read_string) {
        Ok(v) => v,
        Err(e) => return Err(e),
    };
    let file = match next_string(c, read_string) {
        Ok(v) => v,
        Err(e) => return Err(e),
    };
    match next_string(c, read_string) {
        Ok(_) => {},
        Err(e) => return Err(e),
    }
    match c.u32() {
        Ok(checksum) => Ok(AnimationRef { name, file, checksum }),
        Err(e) => Err(e),
    }
}

fn read_refs<S: Fn(&[u8], usize) -> Result<(String, usize), Error>>(
    c: &mut Cursor,
    count: u16,
    read_string: &S,
) -> (r: Result<Vec<AnimationRef>, Error>)
    requires
        old(c).wf(),
        is_string_reader(*read_string),
    ensures
        final(c).wf(),
        final(c).data == old(c).data,
        ({
            let want = refs_upto(
                strings(*read_string),
                old(c).data@,
                old(c).pos as nat,
                count as nat,
            );
            match r {
                Ok(v) => want == Ok::<(Seq<RefModel>, nat), Fault>(
                    (ref_models(v@), final(c).pos as nat),
                ),
                Err(e) => want == Err::<(Seq<RefModel>, nat), Fault>(e@),
            }
        }),
{
    let ghost st = strings(*read_string);
    let ghost data = c.data@;
    let ghost start = c.pos as nat;
    let mut refs: Vec<AnimationRef> = Vec::new();
    let mut i: u16 = 0;
    assert(ref_models(refs@) =~= Seq::empty());
    while i < count
        invariant
            i <= count,
            c.wf(),
            c.data == old(c).data,
            c.data@ == data,
            start == old(c).pos,
            st == strings(*read_string),
            is_string_reader(*read_string),
            refs_upto(st, data, start, i as nat) == Ok::<(Seq<RefModel>, nat), Fault>(
                (ref_models(refs@), c.pos as nat),
            ),
        decreases count - i,
    {
        let ghost before = ref_models(refs@);
        match read_ref(c, read_string) {
            Ok(v) => {
                refs.push(v);
                assert(ref_models(refs@) =~= before.push(v@));
            },
            Err(e) => {
                proof {
                    refs_keep_fault(st, data, start, (i + 1) as nat, count as nat);
                }
                return Err(e);
            },
        }
        i += 1;
    }
    Ok(refs)
}

/// The palette in front of the four legacy flag bytes that end the data.
/// Colours are stored blue first, with a byte to spare.
pub open spec fn palette_of(data: Seq<u8>) -> Seq<Rgb> {
    let at = data.len() - 1028;
    Seq::new(
        256,
        |i: int|
            Rgb { r: data[at + 4 * i + 2], g: data[at + 4 * i + 1], b: data[at + 4 * i] },
    )
}

fn read_palette(data: &[u8]) -> (r: Vec<Rgb>)
    requires
        data@.len() >= 1028,
    ensures
        r@ == palette_of(data@),
{
    let at: usize = data.len() - 1028;
    let mut out: Vec<Rgb> = Vec::new();
    let mut i: usize = 0;
    while i < 256
        invariant
            i <= 256,
            at + 1028 == data.len(),
            out@.len() == i,
            forall|k: int| 0 <= k < i ==> #[trigger] out@[k] == palette_of(data@)[k],
        decreases 256 - i,
    {
        let q: usize = at + 4 * i;
        out.push(Rgb { r: data[q + 2], g: data[q + 1], b: data[q] });
        i += 1;
    }
    assert(out@ =~= palette_of(data@));
    out
}

/// What follows the references: the character's identity, its name in three
/// strings, its size, transparent colour and flags, and its palette.
pub open spec fn info_at(
    st: spec_fn(Seq<u8>, nat) -> Result<(Seq<char>, nat), Fault>,
    data: Seq<u8>,
    p: nat,
) -> Result<PlainInfo, Fault> {
    match reader::bytes_at(data, p as int, 16) {
        Err(e) => Err(e),
        Ok(guid) => match st(data, p + 16) {
            Err(e) => Err(e),
            Ok((name, p1)) => match st(data, p1) {
                Err(e) => Err(e),
                Ok((description, p2)) => match st(data, p2) {
                    Err(e) => Err(e),
                    Ok((extra, p3)) => if p3 + 9 > data.len() {
                        Err(reader::short_data())
                    } else if data.len() < 1028 {
                        Err(Fault::Parse("Agent 1.5 ACF has no complete palette"@))
                    } else {
                        Ok(
                            PlainInfo {
                                major_version: 1,
                                minor_version: 5,
                                guid,
                                width: bytes::le16(data, p3 as int),
                                height: bytes::le16(data, (p3 + 2) as int),
                                transparent_index: data[(p3 + 4) as int],
                                flags: bytes::le32(data, (p3 + 5) as int),
                                palette: palette_of(data),
                                localized: LocalizedModel {
                                    language_id: 0x0409,
                                    name,
                                    description,
                                    extra,
                                },
                            },
                        )
                    },
                },
            },
        },
    }
}

fn guid_of(v: &Vec<u8>) -> (r: [u8; 16])
    requires
        v@.len() == 16,
    ensures
        r@ == v@,
{
    let r: [u8; 16] = [
        v[0],
        v[1],
        v[2],
        v[3],
        v[4],
        v[5],
        v[6],
        v[7],
        v[8],
        v[9],
        v[10],
        v[11],
        v[12],
        v[13],
        v[14],
        v[15],
    ];
    assert(r@ =~= v@);
    r
}

fn read_info<S: Fn(&[u8], usize) -> Result<(String, usize), Error>>(
    c: &mut Cursor,
    read_string: &S,
) -> (r: Result<CharacterInfo, Error>)
    requires
        old(c).wf(),
        is_string_reader(*read_string),
    ensures
        match r {
            Ok(v) => info_at(strings(*read_string), old(c).data@, old(c).pos as nat) matches Ok(p)
                && v.is_plain(p),
            Err(e) => info_at(strings(*read_string), old(c).data@, old(c).pos as nat) == Err::<
                PlainInfo,
                Fault,
            >(e@),
        },
{
    let guid = match c.bytes(16) {
        Ok(v) => guid_of(&v),
        Err(e) => return Err(e),
    };
    let name = match next_string(c, read_string) {
        Ok(v) => v,
        Err(e) => return Err(e),
    };
    let description = match next_string(c, read_string) {
        Ok(v) => v,
        Err(e) => return Err(e),
    };
    let extra = match next_string(c, read_string) {
        Ok(v) => v,
        Err(e) => return Err(e),
    };
    let width = match c.u16() {
        Ok(v) => v,
        Err(e) => return Err(e),
    };
    let height = match c.u16() {
        Ok(v) => v,
        Err(e) => return Err(e),
    };
    let transparent_index = match c.u8() {
        Ok(v) => v,
        Err(e) => return Err(e),
    };
    let flags = match c.u32() {
        Ok(v) => v,
        Err(e) => return Err(e),
    };
    if c.data.len() < 1028 {
        return Err(Error::parse("Agent 1.5 ACF has no complete palette"));
    }
    let palette = read_palette(c.data);
    let mut localized: Vec<LocalizedInfo> = Vec::new();
    localized.push(LocalizedInfo { language_id: 0x0409, name, description, extra });
    Ok(
        CharacterInfo {
            major_version: 1,
            minor_version: 5,
            guid,
            width,
            height,
            transparent_index,
            flags,
            voice: None,
            balloon: None,
            palette,
            states: Vec::new(),
            localized,
        },
    )
}

/// The character description: the animations it names, and the character.
pub open spec fn acf_of(
    un: spec_fn(Seq<u8>, nat) -> Result<Seq<u8>, Fault>,
    st: spec_fn(Seq<u8>, nat) -> Result<(Seq<char>, nat), Fault>,
    bytes: Seq<u8>,
) -> Result<(Seq<RefModel>, PlainInfo), Fault> {
    match acf_payload(un, bytes) {
        Err(e) => Err(e),
        Ok(data) => match reader::dword_at(data, 0) {
            Err(e) => Err(e),
            Ok(signature) => if signature != INNER_SIGNATURE {
                Err(Fault::Parse("invalid decompressed Agent 1.5 ACF"@))
            } else {
                match reader::word_at(data, 4) {
                    Err(e) => Err(e),
                    Ok(count) => match refs_upto(st, data, 6, count as nat) {
                        Err(e) => Err(e),
                        Ok((refs, p)) => match info_at(st, data, p) {
                            Err(e) => Err(e),
                            Ok(info) => Ok((refs, info)),
                        },
                    },
                }
            },
        },
    }
}

/// Reads the character description.
pub fn parse_acf<
    D: Fn(&[u8], usize) -> Result<Vec<u8>, Error>,
    S: Fn(&[u8], usize) -> Result<(String, usize), Error>,
>(bytes: &[u8], decompress: &D, read_string: &S) -> (r: Result<
    (Vec<AnimationRef>, CharacterInfo),
    Error,
>)
    requires
        is_decompressor(*decompress),
        is_string_reader(*read_string),
    ensures
        ({
            let want = acf_of(unpacking(*decompress), strings(*read_string), bytes@);
            match r {
                Ok(v) => want matches Ok(m) && ref_models(v.0@) == m.0 && v.1.is_plain(m.1),
                Err(e) => want == Err::<(Seq<RefModel>, PlainInfo), Fault>(e@),
            }
        }),
{
    let data = match unpack_acf(bytes, decompress) {
        Ok(v) => v,
        Err(e) => return Err(e),
    };
    let mut c = Cursor::new(data.as_slice());
    let signature = match c.u32() {
        Ok(v) => v,
        Err(e) => return Err(e),
    };
    if signature != INNER_SIGNATURE {
        return Err(Error::parse("invalid decompressed Agent 1.5 ACF"));
    }
    let count = match c.u16() {
        Ok(v) => v,
        Err(e) => return Err(e),
    };
    let refs = match read_refs(&mut c, count, read_string) {
        Ok(v) => v,
        Err(e) => return Err(e),
    };
    match read_info(&mut c, read_string) {
        Ok(info) => Ok((refs, info)),
        Err(e) => Err(e),
    }
}

/// An image with its rows in the opposite order.
pub open spec fn flipped(pixels: Seq<u8>, stride: nat, height: nat) -> Seq<u8> {
    Seq::new(
        stride * height,
        |i: int| pixels[(height - 1 - i / stride as int) * stride + i % stride as int],
    )
}

proof fn cell(stride: int, height: int, k: int, x: int)
    requires
        0 <= x < stride,
        0 <= k < height,
    ensures
        0 <= k * stride + x < stride * height,
        (k * stride + x) / stride == k,
        (k * stride + x) % stride == x,
{
    assert(0 <= k * stride + x < stride * height) by (nonlinear_arith)
        requires
            0 <= x < stride,
            0 <= k < height,
    ;
    vstd::arithmetic::div_mod::lemma_fundamental_div_mod_converse(k * stride + x, stride, k, x);
}

/// Reversing the rows twice gives the image back.
pub proof fn flipping_twice_restores(pixels: Seq<u8>, stride: nat, height: nat)
    requires
        pixels.len() == stride * height,
    ensures
        flipped(flipped(pixels, stride, height), stride, height) == pixels,
{
    let once = flipped(pixels, stride, height);
    let twice = flipped(once, stride, height);
    assert forall|i: int| 0 <= i < pixels.len() implies twice[i] == pixels[i] by {
        let k = i / stride as int;
        let x = i % stride as int;
        assert(stride > 0 && height > 0) by (nonlinear_arith)
            requires
                0 <= i < stride * height,
        ;
        vstd::arithmetic::div_mod::lemma_fundamental_div_mod(i, stride as int);
        assert(0 <= k < height && 0 <= x < stride && i == k * stride + x) by (nonlinear_arith)
            requires
                0 <= i < stride * height,
                stride > 0,
                i == stride * k + x,
                0 <= x < stride,
        ;
        cell(stride as int, height as int, height - 1 - k, x);
    }
    assert(twice =~= pixels);
}

/// Reverses the order of an image's rows.
pub fn flip(pixels: &Vec<u8>, stride: usize, height: usize) -> (r: Vec<u8>)
    requires
        pixels@.len() == stride * height,
    ensures
        r@ == flipped(pixels@, stride as nat, height as nat),
{
    let mut out: Vec<u8> = Vec::new();
    let mut k: usize = 0;
    assert(0 * stride == 0);
    while k < height
        invariant
            k <= height,
            pixels.len() == stride * height,
            out@.len() == k * stride,
            forall|i: int|
                0 <= i < out@.len() ==> #[trigger] out@[i] == flipped(
                    pixels@,
                    stride as nat,
                    height as nat,
                )[i],
        decreases height - k,
    {
        let mut x: usize = 0;
        while x < stride
            invariant
                k < height,
                x <= stride,
                pixels.len() == stride * height,
                out@.len() == k * stride + x,
                forall|i: int|
                    0 <= i < out@.len() ==> #[trigger] out@[i] == flipped(
                        pixels@,
                        stride as nat,
                        height as nat,
                    )[i],
            decreases stride - x,
        {
            proof {
                cell(stride as int, height as int, k as int, x as int);
                cell(stride as int, height as int, height - 1 - k, x as int);
                assert(0 <= (height - 1 - k) * stride) by (nonlinear_arith)
                    requires
                        k < height,
                        0 <= stride,
                ;
            }
            let at: usize = (height - 1 - k) * stride + x;
            out.push(pixels[at]);
            x += 1;
        }
        assert((k + 1) * stride == k * stride + stride) by (nonlinear_arith);
        k += 1;
    }
    assert(out@.len() == stride * height) by (nonlinear_arith)
        requires
            out@.len() == k * stride,
            k == height,
    ;
    assert(out@ =~= flipped(pixels@, stride as nat, height as nat));
    out
}

/// The images and sounds collected from the animations so far.
#[verifier::ext_equal]
pub struct Stock {
    pub images: Seq<IndexedModel>,
    pub sounds: Seq<Seq<u8>>,
}

/// How many of `n` images of `size` bytes each lie in the data from `p` on.
pub open spec fn whole_images(data: Seq<u8>, p: int, size: int, n: nat) -> nat {
    if p + n * size <= data.len() {
        n
    } else {
        ((data.len() - p) / size) as nat
    }
}

/// Image number `i` of an animation, stored top row first.
pub open spec fn image_number(
    data: Seq<u8>,
    p: int,
    size: int,
    i: int,
    width: u16,
    height: u16,
) -> IndexedModel {
    IndexedModel {
        width,
        height,
        pixels: flipped(
            data.subrange(p + i * size, p + i * size + size),
            types::row_bytes(width),
            height as nat,
        ),
    }
}

/// Frame number `i` of an animation, whose images follow `base` others. The
/// animation's sound goes with its first frame.
pub open spec fn frame_number(base: nat, i: int, audio: Option<u16>) -> FrameModel {
    FrameModel {
        images: seq![FrameImage { image_index: (base + i) as u32, x: 0, y: 0 }],
        audio_index: if i == 0 {
            audio
        } else {
            None
        },
        duration: 10,
        exit_frame: -1i16,
        branches: Seq::empty(),
        overlays: Seq::empty(),
    }
}

/// The frames of an animation, from `p` on: their count, the size of an image,
/// a byte to spare and the images. Images before one that is cut short are
/// collected all the same.
pub open spec fn frames_at(
    data: Seq<u8>,
    p: int,
    r: RefModel,
    width: u16,
    height: u16,
    audio: Option<u16>,
    stock: Stock,
) -> (Result<AnimationModel, Fault>, Stock) {
    let size = types::row_bytes(width) * height;
    if p + 7 > data.len() {
        (Err(reader::short_data()), stock)
    } else if bytes::le32(data, p + 2) != size {
        (
            Err(
                Fault::Parse(
                    r.file + " frame size "@ + text::decimal(bytes::le32(data, p + 2) as nat)
                        + " != "@ + text::decimal(size as nat),
                ),
            ),
            stock,
        )
    } else {
        let n = bytes::le16(data, p) as nat;
        let whole = whole_images(data, p + 7, size, n);
        (
            if whole == n {
                Ok(
                    AnimationModel {
                        name: r.name,
                        transition: Transition::Nothing,
                        return_animation: Seq::empty(),
                        frames: Seq::new(
                            n,
                            |i: int| frame_number(stock.images.len(), i, audio),
                        ),
                    },
                )
            } else {
                Err(reader::short_data())
            },
            Stock {
                images: stock.images + Seq::new(
                    whole,
                    |i: int| image_number(data, p + 7, size, i, width, height),
                ),
                sounds: stock.sounds,
            },
        )
    }
}

/// The animation in some bytes, or what is wrong with it, and the images and
/// sounds collected after it.
pub open spec fn aaf_of(
    un: spec_fn(Seq<u8>, nat) -> Result<Seq<u8>, Fault>,
    bytes: Seq<u8>,
    r: RefModel,
    width: u16,
    height: u16,
    stock: Stock,
) -> (Result<AnimationModel, Fault>, Stock) {
    match aaf_payload(un, bytes) {
        Err(e) => (Err(e), stock),
        Ok(data) => if data.len() < 2 {
            (Err(reader::short_data()), stock)
        } else if data[0] == 0 {
            frames_at(data, 2, r, width, height, None, stock)
        } else {
            match reader::dword_at(data, 2) {
                Err(e) => (Err(e), stock),
                Ok(size) => match reader::bytes_at(data, 6, size as int) {
                    Err(e) => (Err(e), stock),
                    Ok(wave) => if audio::is_wave(wave) {
                        frames_at(
                            data,
                            6 + size,
                            r,
                            width,
                            height,
                            Some(stock.sounds.len() as u16),
                            Stock { images: stock.images, sounds: stock.sounds.push(wave) },
                        )
                    } else {
                        (Err(Fault::Parse(r.file + " has an invalid WAVE block"@)), stock)
                    },
                },
            }
        },
    }
}

/// The collected images and sounds.
pub open spec fn stock_of(images: Seq<IndexedImage>, sounds: Seq<Vec<u8>>) -> Stock {
    Stock { images: types::image_models(images), sounds: types::sound_models(sounds) }
}

fn size_error(file: &str, got: u32, want: usize) -> (e: Error)
    ensures
        e@ == Fault::Parse(
            file@ + " frame size "@ + text::decimal(got as nat) + " != "@ + text::decimal(
                want as nat,
            ),
        ),
{
    let mut m = file.to_owned();
    m.append(" frame size ");
    let a = decimal_text(got as u64);
    m.append(a.as_str());
    m.append(" != ");
    let b = decimal_text(want as u64);
    m.append(b.as_str());
    Error::Parse(m)
}

proof fn whole_images_is(data: Seq<u8>, p: int, size: int, n: nat, i: int)
    requires
        0 <= i < n,
        0 <= size,
        p + i * size <= data.len(),
        p + i * size + size > data.len(),
    ensures
        whole_images(data, p, size, n) == i,
{
    assert(n * size >= i * size + size) by (nonlinear_arith)
        requires
            i < n,
            0 <= size,
    ;
    assert(0 <= i * size) by (nonlinear_arith)
        requires
            0 <= i,
            0 <= size,
    ;
    vstd::arithmetic::div_mod::lemma_fundamental_div_mod_converse(
        data.len() - p,
        size,
        i,
        data.len() - p - i * size,
    );
}

/// Reads the frames of an animation and collects their images.
fn read_aaf_frames(
    c: &mut Cursor,
    r: &AnimationRef,
    info: &CharacterInfo,
    audio: Option<u16>,
    images: &mut Vec<IndexedImage>,
    Ghost(sounds): Ghost<Seq<Seq<u8>>>,
) -> (out: Result<Animation, Error>)
    requires
        old(c).wf(),
    ensures
        ({
            let want = frames_at(
                old(c).data@,
                old(c).pos as int,
                r@,
                info.width,
                info.height,
                audio,
                Stock { images: types::image_models(old(images)@), sounds },
            );
            &&& types::image_models(final(images)@) == want.1.images
            &&& want.1.sounds == sounds
            &&& match out {
                Ok(a) => want.0 == Ok::<AnimationModel, Fault>(a@),
                Err(e) => want.0 == Err::<AnimationModel, Fault>(e@),
            }
        }),
{
    let ghost data = c.data@;
    let ghost start = c.pos + 7;
    let ghost had = types::image_models(images@);
    let ghost base = images@.len();
    let frame_count = match c.u16() {
        Ok(v) => v,
        Err(e) => return Err(e),
    };
    let frame_size = match c.u32() {
        Ok(v) => v,
        Err(e) => return Err(e),
    };
    match c.u8() {
        Ok(_) => {},
        Err(e) => return Err(e),
    }
    let stride = stride_for(info.width);
    let height = info.height as usize;
    assert(stride * height <= 65536 * 65535) by (nonlinear_arith)
        requires
            stride <= 65536,
            height <= 65535,
    ;
    let expected: usize = stride * height;
    if frame_size as usize != expected {
        return Err(size_error(r.file.as_str(), frame_size, expected));
    }
    let ghost size = expected as int;
    let ghost pictures = Seq::new(
        frame_count as nat,
        |i: int| image_number(data, start, size, i, info.width, info.height),
    );
    let mut frames: Vec<Frame> = Vec::new();
    let mut n: u16 = 0;
    assert(types::image_models(images@) =~= had + pictures.take(0));
    assert(0 * size == 0);
    while n < frame_count
        invariant
            n <= frame_count,
            c.wf(),
            c.data@ == data,
            c.pos == start + n * size,
            size == expected == frame_size,
            size == stride * height,
            stride == types::row_bytes(info.width),
            height == info.height,
            frame_count == bytes::le16(data, start - 7),
            size == bytes::le32(data, start - 5),
            start <= data.len(),
            start - 7 == old(c).pos,
            data == old(c).data@,
            had == types::image_models(old(images)@),
            base == had.len(),
            pictures == Seq::new(
                frame_count as nat,
                |i: int| image_number(data, start, size, i, info.width, info.height),
            ),
            images@.len() == base + n,
            types::image_models(images@) == had + pictures.take(n as int),
            frames@.len() == n,
            forall|i: int| 0 <= i < n ==> (#[trigger] frames@[i])@ == frame_number(base, i, audio),
        decreases frame_count - n,
    {
        let top_down = match c.bytes(frame_size) {
            Ok(v) => v,
            Err(e) => {
                proof {
                    whole_images_is(data, start, size, frame_count as nat, n as int);
                    assert(pictures.take(n as int) =~= Seq::new(
                        n as nat,
                        |i: int| image_number(data, start, size, i, info.width, info.height),
                    ));
                }
                return Err(e);
            },
        };
        let pixels = flip(&top_down, stride, height);
        let ghost before = types::image_models(images@);
        let image = IndexedImage { width: info.width, height: info.height, pixels };
        assert(image@ == pictures[n as int]);
        images.push(image);
        assert(types::image_models(images@) =~= before.push(image@));
        assert(had + pictures.take(n + 1) =~= before.push(image@));
        let mut frame_images: Vec<FrameImage> = Vec::new();
        frame_images.push(FrameImage { image_index: (images.len() - 1) as u32, x: 0, y: 0 });
        let frame = Frame {
            images: frame_images,
            audio_index: if n == 0 {
                audio
            } else {
                None
            },
            duration: 10,
            exit_frame: -1,
            branches: Vec::new(),
            overlays: Vec::new(),
        };
        assert(frame@ =~= frame_number(base, n as int, audio));
        frames.push(frame);
        assert((n + 1) * size == n * size + size) by (nonlinear_arith);
        n += 1;
    }
    let animation = Animation {
        name: r.name.as_str().to_owned(),
        transition: Transition::Nothing,
        return_animation: String::new(),
        frames,
    };
    proof {
        assert(types::frame_models(frames@) =~= Seq::new(
            frame_count as nat,
            |i: int| frame_number(base, i, audio),
        ));
        assert(whole_images(data, start, size, frame_count as nat) == frame_count);
        assert(pictures.take(n as int) =~= pictures);
    }
    Ok(animation)
}

/// Reads an animation, collecting its images and its sound.
pub fn parse_aaf<D: Fn(&[u8], usize) -> Result<Vec<u8>, Error>>(
    bytes: &[u8],
    r: &AnimationRef,
    info: &CharacterInfo,
    images: &mut Vec<IndexedImage>,
    sounds: &mut Vec<Vec<u8>>,
    decompress: &D,
) -> (out: Result<Animation, Error>)
    requires
        is_decompressor(*decompress),
    ensures
        ({
            let want = aaf_of(
                unpacking(*decompress),
                bytes@,
                r@,
                info.width,
                info.height,
                stock_of(old(images)@, old(sounds)@),
            );
            &&& stock_of(final(images)@, final(sounds)@) == want.1
            &&& match out {
                Ok(a) => want.0 == Ok::<AnimationModel, Fault>(a@),
                Err(e) => want.0 == Err::<AnimationModel, Fault>(e@),
            }
        }),
{
    let data = match unpack_aaf(bytes, decompress) {
        Ok(v) => v,
        Err(e) => return Err(e),
    };
    let mut c = Cursor::new(data.as_slice());
    let has_audio = match c.u8() {
        Ok(v) => v != 0,
        Err(e) => return Err(e),
    };
    match c.u8() {
        Ok(_) => {},
        Err(e) => return Err(e),
    }
    let audio_index: Option<u16> = if has_audio {
        let size = match c.u32() {
            Ok(v) => v,
            Err(e) => return Err(e),
        };
        let wave = match c.bytes(size) {
            Ok(v) => v,
            Err(e) => return Err(e),
        };
        if !has_wave_marks(wave.as_slice()) {
            let mut m = r.file.as_str().to_owned();
            m.append(" has an invalid WAVE block");
            return Err(Error::Parse(m));
        }
        let ghost before = types::sound_models(sounds@);
        sounds.push(wave);
        assert(types::sound_models(sounds@) =~= before.push(wave@));
        Some((sounds.len() - 1) as u16)
    } else {
        None
    };
    let ghost heard = types::sound_models(sounds@);
    read_aaf_frames(&mut c, r, info, audio_index, images, Ghost(heard))
}

/// An animation that could not be read: its name, and no frames.
pub open spec fn unreadable(r: RefModel) -> AnimationModel {
    AnimationModel {
        name: r.name,
        transition: Transition::Nothing,
        return_animation: Seq::empty(),
        frames: Seq::empty(),
    }
}

/// The first `n` animations with the images and sounds collected for them,
/// from what was read of their streams. One that cannot be read stays in the
/// list without frames.
pub open spec fn animations_upto(
    un: spec_fn(Seq<u8>, nat) -> Result<Seq<u8>, Fault>,
    refs: Seq<RefModel>,
    streams: Seq<Option<Seq<u8>>>,
    width: u16,
    height: u16,
    n: nat,
) -> (Seq<AnimationModel>, Stock)
    decreases n,
{
    if n == 0 {
        (Seq::empty(), Stock { images: Seq::empty(), sounds: Seq::empty() })
    } else {
        let (done, stock) = animations_upto(un, refs, streams, width, height, (n - 1) as nat);
        let r = refs[n - 1];
        match streams[n - 1] {
            None => (done.push(unreadable(r)), stock),
            Some(bytes) => {
                let (a, more) = aaf_of(un, bytes, r, width, height, stock);
                match a {
                    Ok(animation) => (done.push(animation), more),
                    Err(_) => (done.push(unreadable(r)), more),
                }
            },
        }
    }
}

/// A character has as many animations as its description names, in that
/// order, whatever could be read of them.
pub proof fn every_animation_is_listed(
    un: spec_fn(Seq<u8>, nat) -> Result<Seq<u8>, Fault>,
    refs: Seq<RefModel>,
    streams: Seq<Option<Seq<u8>>>,
    width: u16,
    height: u16,
    n: nat,
)
    ensures
        animations_upto(un, refs, streams, width, height, n).0.len() == n,
        forall|i: int|
            0 <= i < n ==> (#[trigger] animations_upto(
                un,
                refs,
                streams,
                width,
                height,
                n,
            ).0[i]).name == refs[i].name,
    decreases n,
{
    if n > 0 {
        every_animation_is_listed(un, refs, streams, width, height, (n - 1) as nat);
    }
}

/// What was read of some streams.
pub open spec fn stream_values(s: Seq<Option<Vec<u8>>>) -> Seq<Option<Seq<u8>>> {
    Seq::new(
        s.len(),
        |i: int|
            match s[i] {
                Some(v) => Some(v@),
                None => None,
            },
    )
}

/// Builds a character from its description and what was read of the streams
/// of its animations.
pub fn assemble<D: Fn(&[u8], usize) -> Result<Vec<u8>, Error>>(
    refs: &Vec<AnimationRef>,
    info: CharacterInfo,
    streams: &Vec<Option<Vec<u8>>>,
    decompress: &D,
) -> (c: Character)
    requires
        is_decompressor(*decompress),
        streams@.len() == refs@.len(),
    ensures
        c.info == info,
        ({
            let want = animations_upto(
                unpacking(*decompress),
                ref_models(refs@),
                stream_values(streams@),
                info.width,
                info.height,
                refs@.len(),
            );
            &&& types::animation_models(c.animations@) == want.0
            &&& types::sound_models(c.audio@) == want.1.sounds
            &&& c.artwork matches Artwork::Indexed(images) && types::image_models(images@)
                == want.1.images
        }),
{
    let ghost un = unpacking(*decompress);
    let ghost models = ref_models(refs@);
    let ghost values = stream_values(streams@);
    let mut images: Vec<IndexedImage> = Vec::new();
    let mut sounds: Vec<Vec<u8>> = Vec::new();
    let mut animations: Vec<Animation> = Vec::new();
    let mut i: usize = 0;
    proof {
        assert(types::animation_models(animations@) =~= Seq::empty());
        assert(stock_of(images@, sounds@) =~= (Stock {
            images: Seq::empty(),
            sounds: Seq::empty(),
        }));
    }
    while i < refs.len()
        invariant
            i <= refs@.len(),
            is_decompressor(*decompress),
            streams@.len() == refs@.len(),
            un == unpacking(*decompress),
            models == ref_models(refs@),
            values == stream_values(streams@),
            (types::animation_models(animations@), stock_of(images@, sounds@)) == animations_upto(
                un,
                models,
                values,
                info.width,
                info.height,
                i as nat,
            ),
        decreases refs@.len() - i,
    {
        let ghost before = types::animation_models(animations@);
        let r = &refs[i];
        let read: Option<Animation> = match &streams[i] {
            Some(aaf) => match parse_aaf(
                aaf.as_slice(),
                r,
                &info,
                &mut images,
                &mut sounds,
                decompress,
            ) {
                Ok(a) => Some(a),
                Err(_) => None,
            },
            None => None,
        };
        let animation = match read {
            Some(a) => a,
            None => {
                let frames: Vec<Frame> = Vec::new();
                assert(types::frame_models(frames@) =~= Seq::empty());
                Animation {
                    name: r.name.as_str().to_owned(),
                    transition: Transition::Nothing,
                    return_animation: String::new(),
                    frames,
                }
            },
        };
        animations.push(animation);
        assert(types::animation_models(animations@) =~= before.push(animation@));
        i += 1;
    }
    Character::from_legacy(info, animations, images, sounds)
}

/// The path of the character description in a compound file.
pub open spec fn acf_path() -> Seq<char> {
    "/char.acf"@
}

/// The path of an animation's stream in a compound file.
pub open spec fn aaf_path(file: Seq<char>) -> Seq<char> {
    "/"@ + file
}

/// Builds the path of an animation's stream in a compound file.
pub fn stream_path(file: &str) -> (r: String)
    ensures
        r@ == aaf_path(file@),
{
    let mut path = "/".to_owned();
    path.append(file);
    path
}

/// What an open stream answered when it was read to its end into an empty
/// buffer: the bytes, or the complaint.
closed spec fn drained(
    stream: cfb::Stream<std::io::Cursor<Vec<u8>>>,
    answer: Result<Seq<u8>, Seq<char>>,
) -> bool {
    exists|s: &mut cfb::Stream<std::io::Cursor<Vec<u8>>>, b: &mut Vec<u8>, r: Result<usize, String>|
        {
            &&& #[trigger] call_ensures(compound::read_to_end, (s, b), r)
            &&& *s == stream
            &&& b@.len() == 0
            &&& answer == (match r {
                Ok(_) => Ok(compound::stream_rest(stream)),
                Err(m) => Err(m@),
            })
        }
}

/// What a compound file with these bytes answered when it was asked for a path:
/// nothing when it opened no stream there, and otherwise what reading that
/// stream to its end answered. Nothing but asking it shows what it answered.
pub closed spec fn asked(
    data: Seq<u8>,
    path: Seq<char>,
    answer: Option<Result<Seq<u8>, Seq<char>>>,
) -> bool {
    exists|
        file: &mut cfb::CompoundFile<std::io::Cursor<Vec<u8>>>,
        p: &str,
        opened: Option<cfb::Stream<std::io::Cursor<Vec<u8>>>>,
    |
        {
            &&& #[trigger] call_ensures(compound::open_stream, (file, p), opened)
            &&& compound::compound_bytes(*file) == data
            &&& p@ == path
            &&& match opened {
                Some(stream) => answer matches Some(a) && drained(stream, a),
                None => answer is None,
            }
        }
}

/// The bytes in an answer, if there are any.
pub open spec fn bytes_answered(answer: Option<Result<Seq<u8>, Seq<char>>>) -> Option<Seq<u8>> {
    match answer {
        Some(Ok(bytes)) => Some(bytes),
        _ => None,
    }
}

/// What came back for a path is what the file answered: bytes that were read to
/// their end are there, and nothing is there only where opening or reading the
/// stream answered so.
pub open spec fn came_back(data: Seq<u8>, path: Seq<char>, got: Option<Seq<u8>>) -> bool {
    exists|answer: Option<Result<Seq<u8>, Seq<char>>>| #[trigger]
        asked(data, path, answer) && got == bytes_answered(answer)
}

/// Something that reading a stream can come back with: the stream's contents,
/// or nothing. Whatever a path leads to on one platform alone is left open, and
/// so is when reading fails; a path that leads nowhere gives nothing.
pub open spec fn readable_as(data: Seq<u8>, path: Seq<char>, got: Option<Seq<u8>>) -> bool {
    compound::plain_path(path) ==> (got is Some ==> got == compound::stream_in(data, path))
}

/// An answer to being asked for a path, from what reading answered and what it
/// left in the buffer.
pub open spec fn answer_of(read: Option<Result<usize, String>>, bytes: Seq<u8>) -> Option<
    Result<Seq<u8>, Seq<char>>,
> {
    match read {
        Some(Ok(_)) => Some(Ok(bytes)),
        Some(Err(m)) => Some(Err(m@)),
        None => None,
    }
}

/// Asks a compound file for a path: what reading the stream answered, unless
/// none was opened, and the bytes that were read.
fn ask(file: &mut cfb::CompoundFile<std::io::Cursor<Vec<u8>>>, path: &str) -> (r: (
    Option<Result<usize, String>>,
    Vec<u8>,
))
    ensures
        compound::compound_bytes(*final(file)) == compound::compound_bytes(*old(file)),
        asked(compound::compound_bytes(*old(file)), path@, answer_of(r.0, r.1@)),
        compound::plain_path(path@) ==> match r.0 {
            Some(Ok(_)) => compound::stream_in(compound::compound_bytes(*old(file)), path@)
                == Some(r.1@),
            Some(Err(_)) => compound::stream_in(compound::compound_bytes(*old(file)), path@) is Some,
            None => compound::stream_in(compound::compound_bytes(*old(file)), path@) is None,
        },
{
    let mut out: Vec<u8> = Vec::new();
    match compound::open_stream(file, path) {
        Some(mut stream) => {
            let ghost rest = compound::stream_rest(stream);
            let ghost opened = stream;
            let got = compound::read_to_end(&mut stream, &mut out);
            assert(got is Ok ==> out@ =~= rest);
            assert(drained(
                opened,
                match got {
                    Ok(_) => Ok(out@),
                    Err(m) => Err(m@),
                },
            ));
            (Some(got), out)
        },
        None => (None, out),
    }
}

/// Reads a whole stream, or nothing when it is missing or unreadable.
fn read_stream(
    file: &mut cfb::CompoundFile<std::io::Cursor<Vec<u8>>>,
    path: &str,
) -> (r: Option<Vec<u8>>)
    ensures
        compound::compound_bytes(*final(file)) == compound::compound_bytes(*old(file)),
        readable_as(
            compound::compound_bytes(*old(file)),
            path@,
            match r {
                Some(v) => Some(v@),
                None => None,
            },
        ),
        came_back(
            compound::compound_bytes(*old(file)),
            path@,
            match r {
                Some(v) => Some(v@),
                None => None,
            },
        ),
{
    let (read, out) = ask(file, path);
    stream_contents(read, out)
}

/// What reading a stream comes to: the bytes that were read, if the stream was
/// opened and read to its end. `read` is what reading answered, unless the
/// stream was not opened, and `bytes` is what it left in the buffer.
pub fn stream_contents(read: Option<Result<usize, String>>, bytes: Vec<u8>) -> (r: Option<Vec<u8>>)
    ensures
        r == (match read {
            Some(Ok(_)) => Some(bytes),
            _ => None,
        }),
{
    match read {
        Some(Ok(_)) => Some(bytes),
        _ => None,
    }
}

/// Reads the streams of some animations.
fn read_streams(
    file: &mut cfb::CompoundFile<std::io::Cursor<Vec<u8>>>,
    refs: &Vec<AnimationRef>,
) -> (r: Vec<Option<Vec<u8>>>)
    ensures
        r@.len() == refs@.len(),
        forall|i: int|
            0 <= i < refs@.len() ==> readable_as(
                compound::compound_bytes(*old(file)),
                aaf_path(ref_models(refs@)[i].file),
                #[trigger] stream_values(r@)[i],
            ),
        forall|i: int|
            0 <= i < refs@.len() ==> came_back(
                compound::compound_bytes(*old(file)),
                aaf_path(ref_models(refs@)[i].file),
                #[trigger] stream_values(r@)[i],
            ),
{
    let ghost data = compound::compound_bytes(*file);
    let mut out: Vec<Option<Vec<u8>>> = Vec::new();
    let mut i: usize = 0;
    while i < refs.len()
        invariant
            i <= refs@.len(),
            compound::compound_bytes(*file) == data,
            out@.len() == i,
            forall|j: int|
                0 <= j < i ==> readable_as(
                    data,
                    aaf_path(ref_models(refs@)[j].file),
                    #[trigger] stream_values(out@)[j],
                ) && came_back(
                    data,
                    aaf_path(ref_models(refs@)[j].file),
                    stream_values(out@)[j],
                ),
        decreases refs@.len() - i,
    {
        let path = stream_path(refs[i].file.as_str());
        let ghost before = stream_values(out@);
        let got = read_stream(file, path.as_str());
        out.push(got);
        proof {
            assert forall|j: int| 0 <= j < i + 1 implies readable_as(
                data,
                aaf_path(ref_models(refs@)[j].file),
                #[trigger] stream_values(out@)[j],
            ) && came_back(
                data,
                aaf_path(ref_models(refs@)[j].file),
                stream_values(out@)[j],
            ) by {
                if j < i {
                    assert(stream_values(out@)[j] == before[j]);
                }
            }
        }
        i += 1;
    }
    out
}

/// A character assembled from a description and something that reading the
/// streams of its animations can come back with.
pub open spec fn is_assembled(
    c: Character,
    un: spec_fn(Seq<u8>, nat) -> Result<Seq<u8>, Fault>,
    data: Seq<u8>,
    refs: Seq<RefModel>,
    info: PlainInfo,
    streams: Seq<Option<Seq<u8>>>,
) -> bool {
    let want = animations_upto(un, refs, streams, info.width, info.height, refs.len());
    &&& streams.len() == refs.len()
    &&& forall|i: int|
        0 <= i < refs.len() ==> readable_as(data, aaf_path(refs[i].file), #[trigger] streams[i])
    &&& forall|i: int|
        0 <= i < refs.len() ==> came_back(data, aaf_path(refs[i].file), #[trigger] streams[i])
    &&& c.info.is_plain(info)
    &&& types::animation_models(c.animations@) == want.0
    &&& types::sound_models(c.audio@) == want.1.sounds
    &&& c.artwork matches Artwork::Indexed(images) && types::image_models(images@)
        == want.1.images
}

proof fn later_animations_move_nothing(
    un: spec_fn(Seq<u8>, nat) -> Result<Seq<u8>, Fault>,
    refs: Seq<RefModel>,
    streams: Seq<Option<Seq<u8>>>,
    width: u16,
    height: u16,
    k: nat,
    n: nat,
)
    requires
        k < n,
    ensures
        animations_upto(un, refs, streams, width, height, n).0[k as int] == animations_upto(
            un,
            refs,
            streams,
            width,
            height,
            k + 1,
        ).0[k as int],
    decreases n,
{
    every_animation_is_listed(un, refs, streams, width, height, (n - 1) as nat);
    if k + 1 < n {
        later_animations_move_nothing(un, refs, streams, width, height, k, (n - 1) as nat);
    }
}

/// A stream that is missing, or that holds no animation, leaves its animation
/// without frames, and neither drops nor moves an animation: there are as many
/// as the description names, each under its name and in its place. A missing
/// stream is spoken of for every path that all platforms take apart alike.
pub proof fn lost_animations_keep_their_place(
    c: Character,
    un: spec_fn(Seq<u8>, nat) -> Result<Seq<u8>, Fault>,
    data: Seq<u8>,
    refs: Seq<RefModel>,
    info: PlainInfo,
    streams: Seq<Option<Seq<u8>>>,
    k: int,
)
    requires
        is_assembled(c, un, data, refs, info, streams),
        0 <= k < refs.len(),
    ensures
        c.animations@.len() == refs.len(),
        c.animations@[k].name@ == refs[k].name,
        compound::plain_path(aaf_path(refs[k].file)) && compound::stream_in(
            data,
            aaf_path(refs[k].file),
        ) is None ==> c.animations@[k].frames@.len() == 0,
        streams[k] is None ==> c.animations@[k].frames@.len() == 0,
        streams[k] matches Some(bytes) && aaf_of(
            un,
            bytes,
            refs[k],
            info.width,
            info.height,
            animations_upto(un, refs, streams, info.width, info.height, k as nat).1,
        ).0 is Err ==> c.animations@[k].frames@.len() == 0,
{
    let want = animations_upto(un, refs, streams, info.width, info.height, refs.len()).0;
    every_animation_is_listed(un, refs, streams, info.width, info.height, refs.len());
    every_animation_is_listed(un, refs, streams, info.width, info.height, k as nat);
    later_animations_move_nothing(
        un,
        refs,
        streams,
        info.width,
        info.height,
        k as nat,
        refs.len(),
    );
    assert(readable_as(data, aaf_path(refs[k].file), streams[k]));
    assert(types::animation_models(c.animations@)[k] == c.animations@[k]@);
    assert(c.animations@[k]@ == want[k]);
    assert(want[k].frames.len() == c.animations@[k].frames@.len());
}

/// Reads the character in an Agent 1.5 file.
///
/// The complaints about the compound file, about a missing description and
/// about a broken one come exactly where they are due. A description that is
/// there can still fail to be read, for want of memory, say, and so can an
/// animation's stream, which then leaves that animation without frames.
pub fn parse<
    D: Fn(&[u8], usize) -> Result<Vec<u8>, Error>,
    S: Fn(&[u8], usize) -> Result<(String, usize), Error>,
>(data: Vec<u8>, decompress: &D, read_string: &S) -> (r: Result<Character, Error>)
    requires
        is_decompressor(*decompress),
        is_string_reader(*read_string),
    ensures
        match compound::compound_fault(data@) {
            Some(m) => r matches Err(e) && e@ == Fault::Parse(
                "invalid Agent 1.5 compound file: "@ + m,
            ),
            None => match compound::stream_in(data@, acf_path()) {
                None => r matches Err(e) && e@ == Fault::Parse(
                    "Agent 1.5 file has no char.acf stream"@,
                ),
                Some(acf) => (r matches Err(e) && (e@ matches Fault::Io(m) && asked(
                    data@,
                    acf_path(),
                    Some(Err(m)),
                ))) || (asked(data@, acf_path(), Some(Ok(acf))) && match acf_of(
                    unpacking(*decompress),
                    strings(*read_string),
                    acf,
                ) {
                    Err(f) => r matches Err(e) && e@ == f,
                    Ok(m) => r matches Ok(c) && exists|streams: Seq<Option<Seq<u8>>>| #[trigger]
                        is_assembled(c, unpacking(*decompress), data@, m.0, m.1, streams),
                }),
            },
        },
{
    let ghost all = data@;
    let mut file = match compound::open(data) {
        Ok(f) => f,
        Err(m) => {
            let mut message = "invalid Agent 1.5 compound file: ".to_owned();
            message.append(m.as_str());
            return Err(Error::Parse(message));
        },
    };
    proof {
        reveal_strlit("/char.acf");
    }
    let (read, acf) = ask(&mut file, "/char.acf");
    match read {
        Some(Ok(_)) => {},
        Some(Err(m)) => return Err(Error::Io(m)),
        None => return Err(Error::parse("Agent 1.5 file has no char.acf stream")),
    }
    let (refs, info) = match parse_acf(acf.as_slice(), decompress, read_string) {
        Ok(v) => v,
        Err(e) => return Err(e),
    };
    let streams = read_streams(&mut file, &refs);
    let c = assemble(&refs, info, &streams, decompress);
    proof {
        let m = acf_of(unpacking(*decompress), strings(*read_string), acf@)->Ok_0;
        assert(is_assembled(
            c,
            unpacking(*decompress),
            all,
            m.0,
            m.1,
            stream_values(streams@),
        ));
    }
    Ok(c)
}

/// A stream that can be read is used, whatever its size and name: each
/// animation has the frames that the bytes of its stream describe, as the file
/// answered them when it was asked for that stream. It is left without frames
/// only where opening or reading the stream answered so, or where the bytes are
/// no animation.
pub proof fn what_was_read_is_used(
    c: Character,
    un: spec_fn(Seq<u8>, nat) -> Result<Seq<u8>, Fault>,
    data: Seq<u8>,
    refs: Seq<RefModel>,
    info: PlainInfo,
    streams: Seq<Option<Seq<u8>>>,
    k: int,
)
    requires
        is_assembled(c, un, data, refs, info, streams),
        0 <= k < refs.len(),
    ensures
        exists|answer: Option<Result<Seq<u8>, Seq<char>>>|
            {
                &&& #[trigger] asked(data, "/"@ + refs[k].file, answer)
                &&& match answer {
                    Some(Ok(bytes)) => match aaf_of(
                        un,
                        bytes,
                        refs[k],
                        info.width,
                        info.height,
                        animations_upto(un, refs, streams, info.width, info.height, k as nat).1,
                    ).0 {
                        Ok(animation) => c.animations@[k]@ == animation,
                        Err(_) => c.animations@[k].frames@.len() == 0,
                    },
                    _ => c.animations@[k].frames@.len() == 0,
                }
            },
{
    lost_animations_keep_their_place(c, un, data, refs, info, streams, k);
    every_animation_is_listed(un, refs, streams, info.width, info.height, k as nat);
    later_animations_move_nothing(
        un,
        refs,
        streams,
        info.width,
        info.height,
        k as nat,
        refs.len(),
    );
    assert(came_back(data, aaf_path(refs[k].file), streams[k]));
    assert(types::animation_models(c.animations@)[k] == c.animations@[k]@);
    let answer = choose|answer: Option<Result<Seq<u8>, Seq<char>>>| #[trigger]
        asked(data, aaf_path(refs[k].file), answer) && streams[k] == bytes_answered(answer);
    assert(asked(data, "/"@ + refs[k].file, answer));
}

/// Reversing the order of the rows moves each row to the other end, and moves
/// nothing within a row.
pub proof fn rows_change_places(pixels: Seq<u8>, stride: nat, height: nat, y: int, x: int)
    requires
        0 <= y < height,
        0 <= x < stride,
        pixels.len() == stride * height,
    ensures
        flipped(pixels, stride, height).len() == pixels.len(),
        flipped(pixels, stride, height)[y * stride + x] == pixels[(height - 1 - y) * stride + x],
{
    cell(stride as int, height as int, y, x);
}

/// An animation without sound, stored as it is: the marks and sizes, the number
/// of images, and the images one after another.
pub open spec fn plain_animation(
    checksum: u32,
    second: u8,
    transparent: u8,
    size: u32,
    images: Seq<Seq<u8>>,
) -> Seq<u8> {
    let body = seq![0u8, second] + bytes::word_bytes(images.len() as u16) + bytes::dword_bytes(size)
        + seq![transparent] + bytes::joined(images);
    bytes::dword_bytes(0x0001_001F) + bytes::dword_bytes(checksum) + seq![0u8]
        + bytes::dword_bytes(body.len() as u32) + bytes::dword_bytes(body.len() as u32) + body
}

proof fn dword_reads(data: Seq<u8>, at: int, v: u32)
    requires
        data[at] == bytes::dword_bytes(v)[0],
        data[at + 1] == bytes::dword_bytes(v)[1],
        data[at + 2] == bytes::dword_bytes(v)[2],
        data[at + 3] == bytes::dword_bytes(v)[3],
    ensures
        bytes::le32(data, at) == v,
{
}

/// The images of a plain animation come back in their order, each with its rows
/// turned over, and each has a frame of its own that shows it for a tenth of a
/// second.
pub proof fn plain_animations_come_back(
    un: spec_fn(Seq<u8>, nat) -> Result<Seq<u8>, Fault>,
    checksum: u32,
    second: u8,
    transparent: u8,
    images: Seq<Seq<u8>>,
    r: RefModel,
    width: u16,
    height: u16,
    stock: Stock,
)
    requires
        images.len() <= 0xFFFF,
        types::row_bytes(width) * height <= u32::MAX,
        9 + types::row_bytes(width) * height * images.len() <= u32::MAX,
        forall|i: int|
            0 <= i < images.len() ==> (#[trigger] images[i]).len() == types::row_bytes(width)
                * height,
    ensures
        ({
            let size = (types::row_bytes(width) * height) as u32;
            let (got, after) = aaf_of(
                un,
                plain_animation(checksum, second, transparent, size, images),
                r,
                width,
                height,
                stock,
            );
            &&& got matches Ok(a) && {
                &&& a.name == r.name
                &&& a.frames.len() == images.len()
                &&& forall|i: int|
                    0 <= i < images.len() ==> (#[trigger] a.frames[i]) == (FrameModel {
                        images: seq![
                            FrameImage {
                                image_index: (stock.images.len() + i) as u32,
                                x: 0,
                                y: 0,
                            },
                        ],
                        audio_index: None,
                        duration: 10,
                        exit_frame: -1i16,
                        branches: Seq::empty(),
                        overlays: Seq::empty(),
                    })
            }
            &&& after.sounds == stock.sounds
            &&& after.images == stock.images + Seq::new(
                images.len(),
                |i: int|
                    IndexedModel {
                        width,
                        height,
                        pixels: flipped(images[i], types::row_bytes(width), height as nat),
                    },
            )
        }),
{
    let size = types::row_bytes(width) * height;
    let n = images.len();
    let all = bytes::joined(images);
    bytes::pieces_keep_their_places(images, size as nat, 0);
    let body = seq![0u8, second] + bytes::word_bytes(n as u16) + bytes::dword_bytes(size as u32)
        + seq![transparent] + all;
    let file = plain_animation(checksum, second, transparent, size as u32, images);
    assert(size * n == n * size) by (nonlinear_arith);
    assert(body.len() == 9 + n * size);
    assert(file.len() == 17 + body.len());
    dword_reads(file, 0, 0x0001_001F);
    dword_reads(file, 9, body.len() as u32);
    dword_reads(file, 13, body.len() as u32);
    assert(file[8] == 0);
    assert(file.subrange(17, file.len() as int) =~= body);
    assert(aaf_payload(un, file) == Ok::<Seq<u8>, Fault>(body));
    assert(body[2] == bytes::word_bytes(n as u16)[0] && body[3] == bytes::word_bytes(n as u16)[1]);
    assert(bytes::le16(body, 2) == n);
    dword_reads(body, 4, size as u32);
    assert(whole_images(body, 9, size, n) == n);
    let want = Seq::new(
        n,
        |i: int|
            IndexedModel {
                width,
                height,
                pixels: flipped(images[i], types::row_bytes(width), height as nat),
            },
    );
    let got = Seq::new(n, |i: int| image_number(body, 9, size, i, width, height));
    assert forall|i: int| 0 <= i < n implies #[trigger] got[i] == want[i] by {
        bytes::pieces_keep_their_places(images, size as nat, i);
        assert(size * i == i * size) by (nonlinear_arith);
        assert(body.subrange(9 + i * size, 9 + i * size + size) =~= all.subrange(
            size * i,
            size * i + size,
        ));
    }
    assert(got =~= want);
}

/// A description is unpacked from as many bytes as are said to be packed, to the
/// size that is said to come out, whatever stands behind them. One with another
/// signature is refused.
pub proof fn descriptions_are_unpacked(
    un: spec_fn(Seq<u8>, nat) -> Result<Seq<u8>, Fault>,
    signature: u32,
    unpacked: u32,
    packed: Seq<u8>,
    rest: Seq<u8>,
)
    requires
        packed.len() <= u32::MAX,
    ensures
        ({
            let got = acf_payload(
                un,
                bytes::dword_bytes(signature) + bytes::dword_bytes(unpacked) + bytes::dword_bytes(
                    packed.len() as u32,
                ) + packed + rest,
            );
            &&& signature == 0xABCD_ABC1 ==> got == un(packed, unpacked as nat)
            &&& signature != 0xABCD_ABC1 ==> got == Err::<Seq<u8>, Fault>(
                Fault::Parse("invalid Agent 1.5 ACF signature"@),
            )
        }),
{
    let data = bytes::dword_bytes(signature) + bytes::dword_bytes(unpacked) + bytes::dword_bytes(
        packed.len() as u32,
    ) + packed + rest;
    dword_reads(data, 0, signature);
    dword_reads(data, 4, unpacked);
    dword_reads(data, 8, packed.len() as u32);
    assert(data.subrange(12, (12 + packed.len()) as int) =~= packed);
}

/// The data of an animation is unpacked where it is marked as packed, and taken as
/// it is where it is not; it must then have the size that is told. The stored
/// checksum does not matter.
pub proof fn animations_are_unpacked(
    un: spec_fn(Seq<u8>, nat) -> Result<Seq<u8>, Fault>,
    signature: u32,
    checksum: u32,
    mark: u8,
    unpacked: u32,
    stored: Seq<u8>,
    rest: Seq<u8>,
)
    requires
        stored.len() <= u32::MAX,
    ensures
        ({
            let got = aaf_payload(
                un,
                bytes::dword_bytes(signature) + bytes::dword_bytes(checksum) + seq![mark]
                    + bytes::dword_bytes(unpacked) + bytes::dword_bytes(stored.len() as u32)
                    + stored + rest,
            );
            &&& signature != 0x0001_001F ==> got == Err::<Seq<u8>, Fault>(
                Fault::Parse("invalid Agent 1.5 AAF signature"@),
            )
            &&& signature == 0x0001_001F && mark != 0 ==> got == un(stored, unpacked as nat)
            &&& signature == 0x0001_001F && mark == 0 && stored.len() == unpacked ==> got == Ok::<
                Seq<u8>,
                Fault,
            >(stored)
            &&& signature == 0x0001_001F && mark == 0 && stored.len() != unpacked ==> got == Err::<
                Seq<u8>,
                Fault,
            >(Fault::Parse("Agent 1.5 AAF size mismatch"@))
        }),
{
    let data = bytes::dword_bytes(signature) + bytes::dword_bytes(checksum) + seq![mark]
        + bytes::dword_bytes(unpacked) + bytes::dword_bytes(stored.len() as u32) + stored + rest;
    dword_reads(data, 0, signature);
    dword_reads(data, 9, unpacked);
    dword_reads(data, 13, stored.len() as u32);
    assert(data[8] == mark);
    assert(data.subrange(17, (17 + stored.len()) as int) =~= stored);
}

/// The references of a description come in their order. Each is a name, a stream,
/// a third text that is passed over, and four bytes of checksum, each right behind
/// the one before. `places` are where they start, and `ends` where the texts of
/// each end.
pub proof fn references_follow_one_another(
    st: spec_fn(Seq<u8>, nat) -> Result<(Seq<char>, nat), Fault>,
    data: Seq<u8>,
    places: Seq<nat>,
    ends: Seq<(nat, nat, nat)>,
    passed: Seq<Seq<char>>,
    refs: Seq<RefModel>,
)
    requires
        places.len() == refs.len() + 1,
        ends.len() == refs.len(),
        passed.len() == refs.len(),
        forall|i: int|
            #![trigger refs[i]]
            0 <= i < refs.len() ==> {
                &&& st(data, places[i]) == Ok::<(Seq<char>, nat), Fault>((refs[i].name, ends[i].0))
                &&& st(data, ends[i].0) == Ok::<(Seq<char>, nat), Fault>((refs[i].file, ends[i].1))
                &&& st(data, ends[i].1) == Ok::<(Seq<char>, nat), Fault>((passed[i], ends[i].2))
                &&& ends[i].2 + 4 <= data.len()
                &&& data.subrange(ends[i].2 as int, (ends[i].2 + 4) as int) == bytes::dword_bytes(
                    refs[i].checksum,
                )
                &&& places[i + 1] == ends[i].2 + 4
            },
    ensures
        refs_upto(st, data, places[0], refs.len()) == Ok::<(Seq<RefModel>, nat), Fault>(
            (refs, places.last()),
        ),
    decreases refs.len(),
{
    let n = refs.len() as int;
    if n > 0 {
        let less = refs.drop_last();
        assert forall|i: int|
            #![trigger less[i]]
            0 <= i < less.len() implies less[i] == refs[i] by {}
        references_follow_one_another(
            st,
            data,
            places.drop_last(),
            ends.drop_last(),
            passed.drop_last(),
            less,
        );
        let last = refs[n - 1];
        assert(places.drop_last().last() == places[n - 1]);
        bytes::numbers_stand_there(data, ends[n - 1].2 as int, 0, last.checksum);
        assert(less.push(last) =~= refs);
    } else {
        assert(refs =~= Seq::empty());
    }
}

/// Behind the references stand sixteen bytes of identity, a name, a description
/// and a further text, then the width, the height, the transparent colour and the
/// flags. The palette stands 1028 bytes before the end, blue first and red last.
pub proof fn characters_are_told_in_order(
    st: spec_fn(Seq<u8>, nat) -> Result<(Seq<char>, nat), Fault>,
    data: Seq<u8>,
    p: nat,
    name: (Seq<char>, nat),
    description: (Seq<char>, nat),
    extra: (Seq<char>, nat),
    width: u16,
    height: u16,
    transparent: u8,
    flags: u32,
)
    requires
        p + 16 <= data.len(),
        st(data, p + 16) == Ok::<(Seq<char>, nat), Fault>(name),
        st(data, name.1) == Ok::<(Seq<char>, nat), Fault>(description),
        st(data, description.1) == Ok::<(Seq<char>, nat), Fault>(extra),
        extra.1 + 9 <= data.len(),
        data.subrange(extra.1 as int, (extra.1 + 9) as int) == bytes::word_bytes(width)
            + bytes::word_bytes(height) + seq![transparent] + bytes::dword_bytes(flags),
    ensures
        data.len() < 1028 ==> info_at(st, data, p) == Err::<PlainInfo, Fault>(
            Fault::Parse("Agent 1.5 ACF has no complete palette"@),
        ),
        data.len() >= 1028 ==> (info_at(st, data, p) matches Ok(i) && {
            &&& i.major_version == 1 && i.minor_version == 5
            &&& i.guid == data.subrange(p as int, (p + 16) as int)
            &&& i.localized.language_id == 1033
            &&& i.localized.name == name.0
            &&& i.localized.description == description.0
            &&& i.localized.extra == extra.0
            &&& i.width == width
            &&& i.height == height
            &&& i.transparent_index == transparent
            &&& i.flags == flags
            &&& i.palette.len() == 256
            &&& forall|k: int|
                0 <= k < 256 ==> {
                    let q = data.skip(data.len() - 1028).subrange(4 * k, 4 * k + 4);
                    let c = #[trigger] i.palette[k];
                    c.b == q[0] && c.g == q[1] && c.r == q[2]
                }
        }),
{
    let at = extra.1 as int;
    let nine = data.subrange(at, at + 9);
    assert(nine[0] == data[at] && nine[1] == data[at + 1] && nine[2] == data[at + 2] && nine[3]
        == data[at + 3] && nine[4] == data[at + 4] && nine[5] == data[at + 5] && nine[6] == data[at
        + 6] && nine[7] == data[at + 7] && nine[8] == data[at + 8]);
    let w = bytes::word_bytes(width);
    let h = bytes::word_bytes(height);
    let f = bytes::dword_bytes(flags);
    assert(data[at] == w[0] && data[at + 1] == w[1] && data[at + 2] == h[0] && data[at + 3] == h[1]);
    assert(data[at + 4] == transparent);
    dword_reads(data, at + 5, flags);
    assert(bytes::le16(data, at) == width);
    assert(bytes::le16(data, at + 2) == height);
}

/// A description is a mark, the number of its references, the references and what
/// is told of the character.
pub proof fn descriptions_list_and_tell(
    un: spec_fn(Seq<u8>, nat) -> Result<Seq<u8>, Fault>,
    st: spec_fn(Seq<u8>, nat) -> Result<(Seq<char>, nat), Fault>,
    file: Seq<u8>,
    data: Seq<u8>,
    mark: u32,
    refs: Seq<RefModel>,
    p: nat,
    info: PlainInfo,
)
    requires
        acf_payload(un, file) == Ok::<Seq<u8>, Fault>(data),
        data.len() >= 6,
        refs.len() <= 0xFFFF,
        data.subrange(0, 6) == bytes::dword_bytes(mark) + bytes::word_bytes(refs.len() as u16),
        refs_upto(st, data, 6, refs.len()) == Ok::<(Seq<RefModel>, nat), Fault>((refs, p)),
        info_at(st, data, p) == Ok::<PlainInfo, Fault>(info),
    ensures
        mark == 0x0001_001F ==> acf_of(un, st, file) == Ok::<(Seq<RefModel>, PlainInfo), Fault>(
            (refs, info),
        ),
        mark != 0x0001_001F ==> acf_of(un, st, file) == Err::<(Seq<RefModel>, PlainInfo), Fault>(
            Fault::Parse("invalid decompressed Agent 1.5 ACF"@),
        ),
{
    let six = data.subrange(0, 6);
    assert(six[0] == data[0] && six[1] == data[1] && six[2] == data[2] && six[3] == data[3]
        && six[4] == data[4] && six[5] == data[5]);
    let n = bytes::word_bytes(refs.len() as u16);
    assert(data[4] == n[0] && data[5] == n[1]);
    dword_reads(data, 0, mark);
    assert(bytes::le16(data, 4) == refs.len());
}

/// An animation with a sound has it in front of its frames, with its size. It is
/// kept as it is, it goes with the first frame, and a sound that is no wave spoils
/// the animation.
pub proof fn sounds_go_with_the_first_frame(
    un: spec_fn(Seq<u8>, nat) -> Result<Seq<u8>, Fault>,
    file: Seq<u8>,
    mark: u8,
    second: u8,
    wave: Seq<u8>,
    rest: Seq<u8>,
    r: RefModel,
    width: u16,
    height: u16,
    stock: Stock,
)
    requires
        mark != 0,
        wave.len() <= u32::MAX,
        aaf_payload(un, file) == Ok::<Seq<u8>, Fault>(
            seq![mark, second] + bytes::dword_bytes(wave.len() as u32) + wave + rest,
        ),
        stock.sounds.len() <= 0xFFFF,
    ensures
        ({
            let (got, after) = aaf_of(un, file, r, width, height, stock);
            &&& !audio::is_wave(wave) ==> got is Err && after == stock
            &&& audio::is_wave(wave) ==> after.sounds == stock.sounds.push(wave)
            &&& got matches Ok(a) ==> {
                &&& a.name == r.name
                &&& forall|i: int|
                    0 <= i < a.frames.len() ==> (#[trigger] a.frames[i]).audio_index == (if i
                        == 0 {
                        Some(stock.sounds.len() as u16)
                    } else {
                        None
                    })
            }
            &&& audio::is_wave(wave) ==> (got, after) == frames_at(
                seq![mark, second] + bytes::dword_bytes(wave.len() as u32) + wave + rest,
                6 + wave.len() as int,
                r,
                width,
                height,
                Some(stock.sounds.len() as u16),
                Stock { images: stock.images, sounds: stock.sounds.push(wave) },
            )
        }),
{
    let data = seq![mark, second] + bytes::dword_bytes(wave.len() as u32) + wave + rest;
    assert(data[0] == mark);
    dword_reads(data, 2, wave.len() as u32);
    assert(data.subrange(6, (6 + wave.len()) as int) =~= wave);
}

/// Images of the right size come back in their order, whatever stands in front of
/// them, each with its rows turned over and with a frame of its own.
pub proof fn images_come_back_in_order(
    front: Seq<u8>,
    transparent: u8,
    images: Seq<Seq<u8>>,
    r: RefModel,
    width: u16,
    height: u16,
    sound: Option<u16>,
    stock: Stock,
)
    requires
        images.len() <= 0xFFFF,
        types::row_bytes(width) * height <= u32::MAX,
        forall|i: int|
            0 <= i < images.len() ==> (#[trigger] images[i]).len() == types::row_bytes(width)
                * height,
    ensures
        ({
            let size = (types::row_bytes(width) * height) as u32;
            let (got, after) = frames_at(
                front + (bytes::word_bytes(images.len() as u16) + bytes::dword_bytes(size)
                    + seq![transparent] + bytes::joined(images)),
                front.len() as int,
                r,
                width,
                height,
                sound,
                stock,
            );
            &&& got matches Ok(a) && {
                &&& a.name == r.name
                &&& a.frames.len() == images.len()
                &&& forall|i: int|
                    0 <= i < images.len() ==> {
                        let f = #[trigger] a.frames[i];
                        &&& f.images.len() == 1
                        &&& f.images[0].image_index == (stock.images.len() + i) as u32
                        &&& f.images[0].x == 0 && f.images[0].y == 0
                        &&& f.duration == 10
                        &&& f.exit_frame == -1
                        &&& f.branches.len() == 0
                        &&& f.overlays.len() == 0
                    }
            }
            &&& after.sounds == stock.sounds
            &&& after.images == stock.images + Seq::new(
                images.len(),
                |i: int|
                    IndexedModel {
                        width,
                        height,
                        pixels: flipped(images[i], types::row_bytes(width), height as nat),
                    },
            )
        }),
{
    let size = types::row_bytes(width) * height;
    let n = images.len();
    let all = bytes::joined(images);
    bytes::pieces_keep_their_places(images, size as nat, 0);
    let p = front.len() as int;
    let data = front + (bytes::word_bytes(n as u16) + bytes::dword_bytes(size as u32)
        + seq![transparent] + all);
    assert(size * n == n * size) by (nonlinear_arith);
    assert(data[p] == bytes::word_bytes(n as u16)[0] && data[p + 1] == bytes::word_bytes(
        n as u16,
    )[1]);
    assert(bytes::le16(data, p) == n);
    dword_reads(data, p + 2, size as u32);
    assert(data.len() == p + 7 + n * size);
    let want = Seq::new(
        n,
        |i: int|
            IndexedModel {
                width,
                height,
                pixels: flipped(images[i], types::row_bytes(width), height as nat),
            },
    );
    let got = Seq::new(n, |i: int| image_number(data, p + 7, size, i, width, height));
    assert forall|i: int| 0 <= i < n implies #[trigger] got[i] == want[i] by {
        bytes::pieces_keep_their_places(images, size as nat, i);
        assert(size * i == i * size) by (nonlinear_arith);
        assert(data.subrange(p + 7 + i * size, p + 7 + i * size + size) =~= all.subrange(
            size * i,
            size * i + size,
        ));
    }
    assert(got =~= want);
}

/// Where the images are cut short there is no animation, and the images in front
/// of the cut are kept.
pub proof fn images_before_a_cut_are_kept(
    data: Seq<u8>,
    p: int,
    n: u16,
    size: u32,
    whole: nat,
    r: RefModel,
    width: u16,
    height: u16,
    sound: Option<u16>,
    stock: Stock,
)
    requires
        0 <= p,
        p + 7 <= data.len(),
        data.subrange(p, p + 2) == bytes::word_bytes(n),
        data.subrange(p + 2, p + 6) == bytes::dword_bytes(size),
        size == types::row_bytes(width) * height,
        whole < n,
        p + 7 + whole * size <= data.len() < p + 7 + whole * size + size,
    ensures
        frames_at(data, p, r, width, height, sound, stock).0 is Err,
        frames_at(data, p, r, width, height, sound, stock).1.images.len() == stock.images.len()
            + whole,
        frames_at(data, p, r, width, height, sound, stock).1.sounds == stock.sounds,
{
    bytes::numbers_stand_there(data, p, n, 0);
    bytes::numbers_stand_there(data, p + 2, 0, size);
    let left = data.len() - p - 7;
    let each = size as int;
    assert(left / each == whole && left < n * each) by (nonlinear_arith)
        requires
            whole * each <= left < whole * each + each,
            0 <= whole,
            whole + 1 <= n,
    ;
}

/// Frames of another size than the character's are refused, and nothing is kept
/// of them.
pub proof fn other_sizes_are_refused(
    data: Seq<u8>,
    p: int,
    size: u32,
    r: RefModel,
    width: u16,
    height: u16,
    sound: Option<u16>,
    stock: Stock,
)
    requires
        0 <= p,
        p + 7 <= data.len(),
        data.subrange(p + 2, p + 6) == bytes::dword_bytes(size),
        size != types::row_bytes(width) * height,
    ensures
        frames_at(data, p, r, width, height, sound, stock) == (
            Err::<AnimationModel, Fault>(
                Fault::Parse(
                    r.file + " frame size "@ + text::decimal(size as nat) + " != "@ + text::decimal(
                        types::row_bytes(width) * height as nat,
                    ),
                ),
            ),
            stock,
        ),
{
    bytes::numbers_stand_there(data, p + 2, 0, size);
}

/// Data that ends early is refused as such: a description or an animation within
/// its sizes or within what they promise, and an animation in front of its frames.
pub proof fn data_that_ends_early_is_refused(
    un: spec_fn(Seq<u8>, nat) -> Result<Seq<u8>, Fault>,
    file: Seq<u8>,
    stored: u32,
    data: Seq<u8>,
    r: RefModel,
    width: u16,
    height: u16,
    sound: Option<u16>,
    stock: Stock,
)
    ensures
        ({
            let short = Fault::Parse("unexpected end of data"@);
            &&& 4 <= file.len() && file.take(4) == bytes::dword_bytes(0xABCD_ABC1) && (file.len()
                < 12 || (file.subrange(8, 12) == bytes::dword_bytes(stored) && file.len() < 12
                + stored)) ==> acf_payload(un, file) == Err::<Seq<u8>, Fault>(short)
            &&& 4 <= file.len() && file.take(4) == bytes::dword_bytes(0x0001_001F) && (file.len()
                < 17 || (file.subrange(13, 17) == bytes::dword_bytes(stored) && file.len() < 17
                + stored)) ==> aaf_payload(un, file) == Err::<Seq<u8>, Fault>(short)
            &&& data.len() < 7 ==> frames_at(data, 0, r, width, height, sound, stock) == (
                Err::<AnimationModel, Fault>(short),
                stock,
            )
        }),
{
    if file.len() >= 4 {
        assert(file.subrange(0, 4) =~= file.take(4));
    }
    bytes::numbers_stand_there(file, 0, 0, 0xABCD_ABC1);
    bytes::numbers_stand_there(file, 0, 0, 0x0001_001F);
    bytes::numbers_stand_there(file, 8, 0, stored);
    bytes::numbers_stand_there(file, 13, 0, stored);
}

/// A file answers for itself. For a path that every platform takes apart alike,
/// it answers with nothing exactly where the path leads to no stream, and bytes
/// that it answers with are all of the stream's, however many.
pub proof fn answers_are_the_files_own(
    data: Seq<u8>,
    path: Seq<char>,
    answer: Option<Result<Seq<u8>, Seq<char>>>,
)
    requires
        asked(data, path, answer),
        compound::plain_path(path),
    ensures
        answer is None <==> compound::stream_in(data, path) is None,
        answer matches Some(Ok(bytes)) ==> compound::stream_in(data, path) == Some(bytes),
{
}

/// Nothing is answered only where opening the stream gave none, and a failure only
/// where reading a stream to its end failed, in the words of that failure.
pub(crate) proof fn failures_are_those_of_reading(
    data: Seq<u8>,
    path: Seq<char>,
    answer: Option<Result<Seq<u8>, Seq<char>>>,
)
    requires
        asked(data, path, answer),
    ensures
        answer is None ==> exists|
            file: &mut cfb::CompoundFile<std::io::Cursor<Vec<u8>>>,
            p: &str,
        | #[trigger]
            call_ensures(compound::open_stream, (file, p), None) && compound::compound_bytes(*file)
                == data && p@ == path,
        answer matches Some(Err(m)) ==> exists|
            s: &mut cfb::Stream<std::io::Cursor<Vec<u8>>>,
            b: &mut Vec<u8>,
            words: String,
        | #[trigger]
            call_ensures(compound::read_to_end, (s, b), Err(words)) && words@ == m,
{
}

} // verus!
