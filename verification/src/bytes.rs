//! Little-endian numbers in byte sequences.
use vstd::prelude::*;

verus! {

/// The two bytes at `at` as a little-endian number.
pub open spec fn le16(s: Seq<u8>, at: int) -> u16 {
    (s[at] + 256 * s[at + 1]) as u16
}

/// The four bytes at `at` as a little-endian number.
pub open spec fn le32(s: Seq<u8>, at: int) -> u32 {
    (s[at] + 256 * s[at + 1] + 65536 * s[at + 2] + 16777216 * s[at + 3]) as u32
}

/// A word read as a two's complement number.
pub open spec fn signed16(v: u16) -> i16 {
    if v < 0x8000 {
        v as i16
    } else {
        (v - 0x1_0000) as i16
    }
}

/// Reads a little-endian word that is known to be there.
pub fn word(s: &[u8], at: usize) -> (r: u16)
    requires
        at + 2 <= s@.len(),
    ensures
        r == le16(s@, at as int),
{
    s[at] as u16 + 256 * (s[at + 1] as u16)
}

/// Reads a little-endian double word that is known to be there.
pub fn dword(s: &[u8], at: usize) -> (r: u32)
    requires
        at + 4 <= s@.len(),
    ensures
        r == le32(s@, at as int),
{
    s[at] as u32 + 256 * (s[at + 1] as u32) + 65536 * (s[at + 2] as u32) + 16777216 * (s[at
        + 3] as u32)
}

/// The word at `at`, or zero past the end of the data.
pub open spec fn padded16(data: Seq<u8>, at: int) -> u16 {
    if at + 2 <= data.len() {
        le16(data, at)
    } else {
        0
    }
}

/// Reads the word at `at`, or zero past the end of the data.
pub fn padded_word(data: &[u8], at: u64) -> (r: u16)
    ensures
        r == padded16(data@, at as int),
{
    let len: u64 = data.len() as u64;
    if len >= 2 && at <= len - 2 {
        word(data, at as usize)
    } else {
        0
    }
}

/// Reinterprets a word as a signed number.
pub fn to_signed(v: u16) -> (r: i16)
    ensures
        r == signed16(v),
{
    if v < 0x8000 {
        v as i16
    } else {
        (v as i32 - 0x1_0000) as i16
    }
}

/// Whether the bytes at `at` are these.
pub open spec fn tagged(s: Seq<u8>, at: int, tag: Seq<u8>) -> bool {
    &&& 0 <= at
    &&& at + tag.len() <= s.len()
    &&& s.subrange(at, at + tag.len()) == tag
}

/// Compares the bytes at `at` with a tag.
pub fn has_tag(s: &[u8], at: usize, tag: &[u8]) -> (r: bool)
    ensures
        r == tagged(s@, at as int, tag@),
{
    if tag.len() > s.len() || at > s.len() - tag.len() {
        return false;
    }
    let mut i: usize = 0;
    while i < tag.len()
        invariant
            at + tag.len() <= s.len(),
            i <= tag.len(),
            forall|k: int| 0 <= k < i ==> s@[at + k] == #[trigger] tag@[k],
        decreases tag.len() - i,
    {
        if s[at + i] != tag[i] {
            assert(s@.subrange(at as int, at + tag@.len())[i as int] != tag@[i as int]);
            return false;
        }
        i += 1;
    }
    assert(s@.subrange(at as int, at + tag@.len()) =~= tag@);
    true
}

/// Copies the bytes from `from` up to `to`.
pub fn slice_of(s: &[u8], from: usize, to: usize) -> (r: Vec<u8>)
    requires
        from <= to <= s@.len(),
    ensures
        r@ == s@.subrange(from as int, to as int),
{
    vstd::slice::slice_to_vec(vstd::slice::slice_subrange(s, from, to))
}

/// A word as two bytes, the low one first.
pub open spec fn word_bytes(v: u16) -> Seq<u8> {
    seq![(v % 256) as u8, (v / 256) as u8]
}

/// A double word as four bytes, the low one first.
pub open spec fn dword_bytes(v: u32) -> Seq<u8> {
    seq![
        (v % 256) as u8,
        (v / 256 % 256) as u8,
        (v / 65536 % 256) as u8,
        (v / 16777216) as u8,
    ]
}

/// A signed number as two bytes, in two's complement.
pub open spec fn signed_bytes(v: i16) -> Seq<u8> {
    word_bytes(
        if v < 0 {
            (v + 0x1_0000) as u16
        } else {
            v as u16
        },
    )
}

/// A number written low byte first reads back, wherever it stands.
pub proof fn numbers_come_back(front: Seq<u8>, v: u16, i: i16, d: u32, back: Seq<u8>)
    ensures
        le16(front + word_bytes(v) + back, front.len() as int) == v,
        padded16(front + word_bytes(v) + back, front.len() as int) == v,
        signed16(le16(front + signed_bytes(i) + back, front.len() as int)) == i,
        le32(front + dword_bytes(d) + back, front.len() as int) == d,
{
    let n = front.len() as int;
    let w = front + word_bytes(v) + back;
    assert(w[n] == word_bytes(v)[0] && w[n + 1] == word_bytes(v)[1]);
    let s = front + signed_bytes(i) + back;
    assert(s[n] == signed_bytes(i)[0] && s[n + 1] == signed_bytes(i)[1]);
    let x = front + dword_bytes(d) + back;
    assert(x[n] == dword_bytes(d)[0] && x[n + 1] == dword_bytes(d)[1] && x[n + 2] == dword_bytes(
        d,
    )[2] && x[n + 3] == dword_bytes(d)[3]);
}

/// A word that starts at or past the last byte is zero.
pub proof fn past_the_end_is_zero(data: Seq<u8>, at: int)
    requires
        at + 1 >= data.len(),
    ensures
        padded16(data, at) == 0,
{
}

/// Bytes that stand at a place carry the tag they spell, and no other of the
/// same length.
pub proof fn tags_tell_apart(front: Seq<u8>, tag: Seq<u8>, back: Seq<u8>, other: Seq<u8>)
    requires
        other.len() == tag.len(),
    ensures
        tagged(front + tag + back, front.len() as int, other) == (other == tag),
{
    let data = front + tag + back;
    let n = front.len() as int;
    assert(data.subrange(n, n + tag.len()) =~= tag);
}

/// Some pieces one after another.
pub open spec fn joined(pieces: Seq<Seq<u8>>) -> Seq<u8>
    decreases pieces.len(),
{
    if pieces.len() == 0 {
        Seq::empty()
    } else {
        joined(pieces.drop_last()) + pieces.last()
    }
}

/// Pieces of one size stand one after another, each at its place.
pub proof fn pieces_keep_their_places(pieces: Seq<Seq<u8>>, size: nat, k: int)
    requires
        forall|i: int| 0 <= i < pieces.len() ==> (#[trigger] pieces[i]).len() == size,
    ensures
        joined(pieces).len() == size * pieces.len(),
        0 <= k < pieces.len() ==> {
            &&& 0 <= size * k
            &&& size * k + size <= joined(pieces).len()
            &&& joined(pieces).subrange(size * k, size * k + size) == pieces[k]
        },
    decreases pieces.len(),
{
    if pieces.len() > 0 {
        let head = pieces.drop_last();
        let n = pieces.len() as int;
        assert forall|i: int| 0 <= i < head.len() implies (#[trigger] head[i]).len() == size by {
            assert(head[i] == pieces[i]);
        }
        pieces_keep_their_places(head, size, k);
        assert(pieces[n - 1].len() == size);
        assert(size * n == size * (n - 1) + size) by (nonlinear_arith);
        if 0 <= k < n - 1 {
            assert(head[k] == pieces[k]);
            assert(joined(pieces).subrange(size * k, size * k + size) =~= joined(head).subrange(
                size * k,
                size * k + size,
            ));
        } else if k == n - 1 {
            assert(joined(pieces).subrange(size * k, size * k + size) =~= pieces[k]);
            assert(0 <= size * k) by (nonlinear_arith)
                requires
                    0 <= k,
                    0 <= size,
            ;
        }
    } else {
        assert(size * 0 == 0);
    }
}

/// Numbers read back from where their bytes stand.
pub proof fn numbers_stand_there(data: Seq<u8>, at: int, v: u16, d: u32)
    ensures
        0 <= at && at + 2 <= data.len() && data.subrange(at, at + 2) == word_bytes(v) ==> le16(
            data,
            at,
        ) == v,
        0 <= at && at + 4 <= data.len() && data.subrange(at, at + 4) == dword_bytes(d) ==> le32(
            data,
            at,
        ) == d,
{
    if 0 <= at && at + 2 <= data.len() && data.subrange(at, at + 2) == word_bytes(v) {
        let s = data.subrange(at, at + 2);
        assert(s[0] == data[at] && s[1] == data[at + 1]);
    }
    if 0 <= at && at + 4 <= data.len() && data.subrange(at, at + 4) == dword_bytes(d) {
        let s = data.subrange(at, at + 4);
        assert(s[0] == data[at] && s[1] == data[at + 1] && s[2] == data[at + 2] && s[3] == data[at
            + 3]);
    }
}

} // verus!
