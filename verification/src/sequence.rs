//! Actor animation sequences: splitting the sequence region into slots, and
//! folding slots into frames.
use vstd::prelude::*;

use crate::bytes;
use crate::bytes::{padded_word, word};
use crate::types;
use crate::types::{Branch, Frame, FrameImage, FrameModel, Overlay};

verus! {

/// Stands in for "no artwork" in a layer and "no image" in a sequence slot.
pub const BLANK: u16 = 0xFFFF;

/// A branch record follows the slot.
pub const FLAG_BRANCH: u16 = 0x0001;

/// A sound record follows the slot.
pub const FLAG_SOUND: u16 = 0x0002;

/// The slot holds the last frame of its sequence.
pub const FLAG_LAST: u16 = 0x0100;

/// One entry of an animation sequence, before it becomes a frame.
#[derive(Debug, Clone, Copy, PartialEq, Eq, Structural)]
pub struct Slot {
    pub id: u16,
    pub value: u16,
    pub flags: u16,
}

/// The slot whose six bytes start at `at`.
pub open spec fn slot_at(data: Seq<u8>, at: int) -> Slot {
    Slot {
        id: bytes::padded16(data, at),
        value: bytes::padded16(data, at + 2),
        flags: bytes::padded16(data, at + 4),
    }
}

/// The `n` slots that start at `at`.
pub open spec fn slots_at(data: Seq<u8>, at: int, n: nat) -> Seq<Slot> {
    Seq::new(n, |i: int| slot_at(data, at + 6 * i))
}

/// The sequences from `p` on, at most `count` of them: each is a slot count, a
/// flags word and that many slots, and must end by `end`.
pub open spec fn sequences_from(data: Seq<u8>, p: int, end: int, count: nat) -> Seq<Seq<Slot>>
    decreases count,
{
    if count == 0 || p + 4 > data.len() {
        Seq::empty()
    } else {
        let n = bytes::le16(data, p) as nat;
        let next = p + 4 + 6 * n;
        if next > end {
            Seq::empty()
        } else {
            seq![slots_at(data, p + 4, n)] + sequences_from(data, next, end, (count - 1) as nat)
        }
    }
}

/// The sequences of a region, which opens with a two-byte prefix.
pub open spec fn sequences_of(data: Seq<u8>, start: int, end: int, count: nat) -> Seq<Seq<Slot>> {
    sequences_from(data, start + 2, end, count)
}

/// The slots of each sequence.
pub open spec fn slot_lists(s: Seq<Vec<Slot>>) -> Seq<Seq<Slot>> {
    Seq::new(s.len(), |i: int| s[i]@)
}

/// Splits the sequence region into sequences.
///
/// The region opens with a two-byte prefix, then each sequence is a `u16` slot
/// count and a `u16` flags word followed by that many six-byte slots. A slot is
/// `id, value, flags`, and the flags say what follows it: bit 0 chains a branch
/// record, bit 1 appends a sound record after any branch chain, and bit 8 marks
/// the last frame of the sequence.
pub fn parse_sequences(data: &[u8], region: std::ops::Range<usize>, count: usize) -> (r: Vec<
    Vec<Slot>,
>)
    ensures
        slot_lists(r@) == sequences_of(data@, region.start as int, region.end as int, count as nat),
{
    let len: u64 = data.len() as u64;
    let end: u64 = region.end as u64;
    let ghost all = sequences_of(data@, region.start as int, region.end as int, count as nat);
    let mut sequences: Vec<Vec<Slot>> = Vec::new();
    if len < 2 || region.start as u64 > len - 2 {
        assert(slot_lists(sequences@) =~= all);
        return sequences;
    }
    let mut p: u64 = region.start as u64 + 2;
    assert(slot_lists(sequences@) + sequences_from(
        data@,
        p as int,
        end as int,
        count as nat,
    ) =~= all);
    while sequences.len() < count
        invariant
            len == data@.len(),
            end == region.end,
            sequences@.len() <= count,
            slot_lists(sequences@) + sequences_from(
                data@,
                p as int,
                end as int,
                (count - sequences@.len()) as nat,
            ) == all,
        ensures
            slot_lists(sequences@) == all,
        decreases count - sequences@.len(),
    {
        if len < 4 || p > len - 4 {
            assert(slot_lists(sequences@) =~= all);
            break;
        }
        let slots: u64 = word(data, p as usize) as u64;
        let body: u64 = p + 4;
        if body > end || slots * 6 > end - body {
            assert(slot_lists(sequences@) =~= all);
            break;
        }
        let mut sequence: Vec<Slot> = Vec::new();
        let mut i: u64 = 0;
        while i < slots
            invariant
                i <= slots <= 65535,
                sequence@.len() == i,
                body + slots * 6 <= end,
                forall|k: int| 0 <= k < i ==> #[trigger] sequence@[k] == slot_at(data@, body + 6 * k),
            decreases slots - i,
        {
            let at: u64 = body + i * 6;
            sequence.push(
                Slot {
                    id: padded_word(data, at),
                    value: padded_word(data, at + 2),
                    flags: padded_word(data, at + 4),
                },
            );
            i += 1;
        }
        let ghost before = slot_lists(sequences@);
        let ghost rest = sequences_from(
            data@,
            body + 6 * slots,
            end as int,
            (count - sequences@.len() - 1) as nat,
        );
        assert(sequence@ =~= slots_at(data@, body as int, slots as nat));
        sequences.push(sequence);
        p = body + slots * 6;
        assert(slot_lists(sequences@) =~= before.push(sequence@));
        assert(before.push(sequence@) + rest =~= before + (seq![sequence@] + rest));
    }
    assert(slot_lists(sequences@) =~= all);
    sequences
}

/// A sound record follows this slot.
pub open spec fn has_sound(slot: Slot) -> bool {
    slot.flags & FLAG_SOUND != 0
}

/// A branch record follows this slot.
pub open spec fn has_branch(slot: Slot) -> bool {
    slot.flags & FLAG_BRANCH != 0
}

/// No frame comes after this slot's.
pub open spec fn is_last(slot: Slot) -> bool {
    slot.flags & FLAG_LAST != 0
}

/// What follows a frame's own slot: its sound, its branch records as pairs of
/// target slot and weight, and the slot after all of those.
#[verifier::ext_equal]
pub struct Trail {
    pub sound: Option<u16>,
    pub branches: Seq<(u16, u16)>,
    pub next: int,
}

/// A chain of branch records: the branches so far, the number of sound records
/// that are to come after the chain, and the slot after the last branch.
#[verifier::ext_equal]
pub struct Chain {
    pub branches: Seq<(u16, u16)>,
    pub sounds: nat,
    pub next: int,
}

/// The sound records that a slot appends.
pub open spec fn sounds_of(slot: Slot) -> nat {
    if has_sound(slot) {
        1
    } else {
        0
    }
}

/// Follows a chain of branch records from `c.next` on.
pub open spec fn chain_from(slots: Seq<Slot>, c: Chain) -> Chain
    decreases slots.len() - c.next,
{
    if c.next < 0 || c.next >= slots.len() {
        c
    } else {
        let b = slots[c.next];
        let after = Chain {
            branches: c.branches.push((b.id, b.value)),
            sounds: c.sounds + sounds_of(b),
            next: c.next + 1,
        };
        if has_branch(b) {
            chain_from(slots, after)
        } else {
            after
        }
    }
}

/// The branch chain of the frame whose own slot is `slots[i]`.
pub open spec fn chain_of(slots: Seq<Slot>, i: int) -> Chain {
    let c = Chain { branches: Seq::empty(), sounds: sounds_of(slots[i]), next: i + 1 };
    if has_branch(slots[i]) {
        chain_from(slots, c)
    } else {
        c
    }
}

/// The trail of the frame whose own slot is `slots[i]`: any branch chain, then
/// the sound records, of which the last one counts.
pub open spec fn trail(slots: Seq<Slot>, i: int) -> Trail {
    let c = chain_of(slots, i);
    let left = slots.len() - c.next;
    let taken = if c.sounds <= left {
        c.sounds as int
    } else {
        left
    };
    Trail {
        sound: if taken == 0 {
            None
        } else {
            Some(slots[c.next + taken - 1].id)
        },
        branches: c.branches,
        next: c.next + taken,
    }
}

proof fn chain_advances(slots: Seq<Slot>, c: Chain)
    requires
        0 <= c.next <= slots.len(),
        c.sounds <= c.next,
    ensures
        c.next <= chain_from(slots, c).next <= slots.len(),
        chain_from(slots, c).sounds <= chain_from(slots, c).next,
    decreases slots.len() - c.next,
{
    if c.next < slots.len() {
        let b = slots[c.next];
        let after = Chain {
            branches: c.branches.push((b.id, b.value)),
            sounds: c.sounds + sounds_of(b),
            next: c.next + 1,
        };
        if has_branch(b) {
            chain_advances(slots, after);
        }
    }
}

/// A frame consumes at least its own slot and nothing past the sequence.
pub proof fn trail_advances(slots: Seq<Slot>, i: int)
    requires
        0 <= i < slots.len(),
    ensures
        i < trail(slots, i).next <= slots.len(),
{
    chain_advances(
        slots,
        Chain { branches: Seq::empty(), sounds: sounds_of(slots[i]), next: i + 1 },
    );
}

/// The slots from `i` on that become frames, in order. Sound and branch
/// records are consumed by the frame before them.
pub open spec fn starts_from(slots: Seq<Slot>, i: int) -> Seq<int>
    decreases slots.len() - i,
{
    if i < 0 || i >= slots.len() {
        Seq::empty()
    } else if is_last(slots[i]) {
        seq![i]
    } else {
        proof {
            trail_advances(slots, i);
        }
        seq![i] + starts_from(slots, trail(slots, i).next)
    }
}

/// The slots that become frames, in order.
pub open spec fn starts(slots: Seq<Slot>) -> Seq<int> {
    starts_from(slots, 0)
}

/// The frame that a slot became, if it became one.
pub open spec fn landing(starts: Seq<int>, slot: int) -> Option<int> {
    if exists|k: int| 0 <= k < starts.len() && #[trigger] starts[k] == slot {
        Some(choose|k: int| 0 <= k < starts.len() && #[trigger] starts[k] == slot)
    } else {
        None
    }
}

/// The share of `remaining` percent that branch `n` takes: its weight out of
/// `0x8000`, except that the last branch takes all that is left.
pub open spec fn share(branches: Seq<(u16, u16)>, n: int, remaining: int) -> int {
    if n == branches.len() - 1 {
        remaining
    } else {
        remaining * branches[n].1 / 0x8000
    }
}

/// No branch from `n` on takes more than is left.
pub open spec fn cascade_fits(branches: Seq<(u16, u16)>, n: int, remaining: int) -> bool
    decreases branches.len() - n,
{
    if n < 0 || n >= branches.len() {
        true
    } else {
        let s = share(branches, n, remaining);
        s <= remaining && cascade_fits(branches, n + 1, remaining - s)
    }
}

/// The branches from `n` on, with plain percentages and frame numbers. A
/// branch to a slot that is no frame, or with nothing to take, is dropped.
pub open spec fn resolved(
    starts: Seq<int>,
    branches: Seq<(u16, u16)>,
    n: int,
    remaining: int,
) -> Seq<Branch>
    decreases branches.len() - n,
{
    if n < 0 || n >= branches.len() {
        Seq::empty()
    } else {
        let s = share(branches, n, remaining);
        let rest = resolved(starts, branches, n + 1, remaining - s);
        match landing(starts, branches[n].0 as int) {
            Some(k) => if s == 0 {
                rest
            } else {
                seq![Branch { frame_index: k as u16, probability: s as u16 }] + rest
            },
            None => rest,
        }
    }
}

/// Every branch chain of the sequence hands out no more than there is.
pub open spec fn chains_fit(slots: Seq<Slot>) -> bool {
    forall|k: int|
        0 <= k < starts(slots).len() ==> cascade_fits(
            (#[trigger] trail(slots, starts(slots)[k])).branches,
            0,
            100,
        )
}

/// The image that a slot shows: its id counted from the first frame id, where
/// that names one of the frame images there are.
pub open spec fn picture(id: u16, first_frame: u16, frame_total: int) -> Seq<FrameImage> {
    if id != BLANK && first_frame <= id && id - first_frame < frame_total {
        seq![FrameImage { image_index: (id - first_frame) as u32, x: 0, y: 0 }]
    } else {
        Seq::empty()
    }
}

/// The frame that the slot `start` becomes.
pub open spec fn frame_from(
    slots: Seq<Slot>,
    starts: Seq<int>,
    start: int,
    first_frame: u16,
    frame_total: int,
) -> FrameModel {
    FrameModel {
        images: picture(slots[start].id, first_frame, frame_total),
        audio_index: trail(slots, start).sound,
        duration: (slots[start].value / 10) as u16,
        exit_frame: -1i16,
        branches: resolved(starts, trail(slots, start).branches, 0, 100),
        overlays: Seq::empty(),
    }
}

/// The frames of a sequence.
pub open spec fn frames_of(slots: Seq<Slot>, first_frame: u16, frame_total: int) -> Seq<
    FrameModel,
> {
    let st = starts(slots);
    Seq::new(st.len(), |k: int| frame_from(slots, st, st[k], first_frame, frame_total))
}

proof fn starts_increase(slots: Seq<Slot>, i: int)
    requires
        0 <= i <= slots.len(),
    ensures
        starts_from(slots, i).len() <= slots.len() - i,
        forall|k: int|
            0 <= k < starts_from(slots, i).len() ==> i <= #[trigger] starts_from(slots, i)[k]
                < slots.len(),
        forall|a: int, b: int|
            0 <= a < b < starts_from(slots, i).len() ==> #[trigger] starts_from(slots, i)[a]
                < #[trigger] starts_from(slots, i)[b],
    decreases slots.len() - i,
{
    if i < slots.len() && !is_last(slots[i]) {
        trail_advances(slots, i);
        let next = trail(slots, i).next;
        starts_increase(slots, next);
        let rest = starts_from(slots, next);
        assert forall|a: int, b: int|
            0 <= a < b < starts_from(slots, i).len() implies #[trigger] starts_from(slots, i)[a]
            < #[trigger] starts_from(slots, i)[b] by {
            assert(starts_from(slots, i)[b] == rest[b - 1]);
            if a > 0 {
                assert(starts_from(slots, i)[a] == rest[a - 1]);
            }
        }
    }
}

/// The landing of a frame's own slot is that frame.
proof fn landing_of_start(starts: Seq<int>, k: int)
    requires
        0 <= k < starts.len(),
        forall|a: int, b: int| 0 <= a < b < starts.len() ==> starts[a] < starts[b],
    ensures
        landing(starts, starts[k]) == Some(k),
{
    let c = choose|c: int| 0 <= c < starts.len() && #[trigger] starts[c] == starts[k];
    assert(starts[c] == starts[k]);
    if c < k {
        assert(starts[c] < starts[k]);
    } else if k < c {
        assert(starts[k] < starts[c]);
    }
}

/// The sum of the shares that the branches from `n` on take of `remaining`.
pub open spec fn share_sum(branches: Seq<(u16, u16)>, n: int, remaining: int) -> int
    decreases branches.len() - n,
{
    if n < 0 || n >= branches.len() {
        0
    } else {
        let s = share(branches, n, remaining);
        s + share_sum(branches, n + 1, remaining - s)
    }
}

/// The sum of the probabilities of some branches.
pub open spec fn probability_sum(branches: Seq<Branch>) -> int
    decreases branches.len(),
{
    if branches.len() == 0 {
        0
    } else {
        branches[0].probability + probability_sum(branches.drop_first())
    }
}

/// In a chain, each branch takes its share of what the earlier ones left and
/// the last one catches the remainder, so the shares of a non-empty chain add
/// up to the whole.
pub proof fn shares_add_up(branches: Seq<(u16, u16)>, n: int, remaining: int)
    requires
        0 <= n < branches.len(),
    ensures
        share_sum(branches, n, remaining) == remaining,
    decreases branches.len() - n,
{
    if n < branches.len() - 1 {
        shares_add_up(branches, n + 1, remaining - share(branches, n, remaining));
    } else {
        assert(share_sum(branches, n + 1, 0) == 0);
    }
}

/// The probabilities a frame ends up with never exceed the whole, and reach it
/// when every branch of the chain leads to a frame.
pub proof fn probabilities_within_the_whole(
    starts: Seq<int>,
    branches: Seq<(u16, u16)>,
    n: int,
    remaining: int,
)
    requires
        0 <= n <= branches.len(),
        0 <= remaining <= 100,
        cascade_fits(branches, n, remaining),
    ensures
        0 <= probability_sum(resolved(starts, branches, n, remaining)) <= remaining,
        n < branches.len() && (forall|m: int|
            n <= m < branches.len() ==> landing(starts, (#[trigger] branches[m]).0 as int) is Some)
            ==> probability_sum(resolved(starts, branches, n, remaining)) == remaining,
    decreases branches.len() - n,
{
    if n < branches.len() {
        let s = share(branches, n, remaining);
        assert(0 <= s) by {
            assert(0 <= remaining * branches[n].1) by (nonlinear_arith)
                requires
                    0 <= remaining,
                    0 <= branches[n].1,
            ;
        }
        probabilities_within_the_whole(starts, branches, n + 1, remaining - s);
        let rest = resolved(starts, branches, n + 1, remaining - s);
        let all = resolved(starts, branches, n, remaining);
        if landing(starts, branches[n].0 as int) is Some && s != 0 {
            assert(all.drop_first() =~= rest);
            assert(all[0].probability == s);
        }
        if n + 1 == branches.len() {
            assert(rest =~= Seq::empty());
        }
    }
}

/// Every branch of a frame leads to a frame of the same sequence, as long as
/// frame numbers fit in sixteen bits.
pub proof fn branches_lead_to_frames(
    starts: Seq<int>,
    branches: Seq<(u16, u16)>,
    n: int,
    remaining: int,
)
    requires
        starts.len() <= 0x1_0000,
    ensures
        forall|j: int|
            0 <= j < resolved(starts, branches, n, remaining).len() ==> (#[trigger] resolved(
                starts,
                branches,
                n,
                remaining,
            )[j]).frame_index < starts.len(),
    decreases branches.len() - n,
{
    if 0 <= n < branches.len() {
        let s = share(branches, n, remaining);
        branches_lead_to_frames(starts, branches, n + 1, remaining - s);
        let rest = resolved(starts, branches, n + 1, remaining - s);
        let all = resolved(starts, branches, n, remaining);
        assert forall|j: int| 0 <= j < all.len() implies (#[trigger] all[j]).frame_index
            < starts.len() by {
            if landing(starts, branches[n].0 as int) is Some && s != 0 {
                if j > 0 {
                    assert(all[j] == rest[j - 1]);
                }
            } else {
                assert(all[j] == rest[j]);
            }
        }
    }
}

/// A branch back to a slot that became a frame leads to that very frame.
pub proof fn a_branch_finds_its_frame(slots: Seq<Slot>, k: int)
    requires
        0 <= k < starts(slots).len(),
    ensures
        landing(starts(slots), starts(slots)[k]) == Some(k),
{
    starts_increase(slots, 0);
    landing_of_start(starts(slots), k);
}

/// A frame's own slot with the records that follow it.
struct Strand {
    start: usize,
    sound: Option<u16>,
    branches: Vec<(u16, u16)>,
    next: usize,
}

impl Strand {
    spec fn follows(&self, slots: Seq<Slot>) -> bool {
        let t = trail(slots, self.start as int);
        &&& self.start < slots.len()
        &&& self.sound == t.sound
        &&& self.branches@ == t.branches
        &&& self.next == t.next
    }
}

/// Reads the records that belong to the frame at `start`.
fn read_strand(slots: &[Slot], start: usize) -> (r: Strand)
    requires
        start < slots@.len(),
    ensures
        r.start == start,
        r.follows(slots@),
        start < r.next <= slots@.len(),
{
    proof {
        trail_advances(slots@, start as int);
    }
    let ghost goal = chain_of(slots@, start as int);
    let slot = slots[start];
    let mut i: usize = start + 1;
    let mut sounds: usize = if slot.flags & FLAG_SOUND != 0 {
        1
    } else {
        0
    };
    let mut branches: Vec<(u16, u16)> = Vec::new();
    assert(branches@ =~= Seq::<(u16, u16)>::empty());
    if slot.flags & FLAG_BRANCH != 0 {
        while i < slots.len()
            invariant_except_break
                chain_from(
                    slots@,
                    Chain { branches: branches@, sounds: sounds as nat, next: i as int },
                ) == goal,
            invariant
                i <= slots@.len(),
                sounds <= i,
            ensures
                (Chain { branches: branches@, sounds: sounds as nat, next: i as int }) == goal,
            decreases slots@.len() - i,
        {
            let b = slots[i];
            i += 1;
            branches.push((b.id, b.value));
            if b.flags & FLAG_SOUND != 0 {
                sounds += 1;
            }
            if b.flags & FLAG_BRANCH == 0 {
                break;
            }
        }
    }
    assert(branches@ =~= goal.branches);
    let left: usize = slots.len() - i;
    let taken: usize = if sounds <= left {
        sounds
    } else {
        left
    };
    let next: usize = i + taken;
    let sound: Option<u16> = if taken == 0 {
        None
    } else {
        Some(slots[next - 1].id)
    };
    Strand { start, sound, branches, next }
}

/// Reads the frames' slots with their records, in order.
fn read_strands(slots: &[Slot]) -> (r: Vec<Strand>)
    ensures
        r@.len() == starts(slots@).len(),
        forall|k: int| 0 <= k < r@.len() ==> (#[trigger] r@[k]).start == starts(slots@)[k],
        forall|k: int| 0 <= k < r@.len() ==> (#[trigger] r@[k]).follows(slots@),
{
    let mut out: Vec<Strand> = Vec::new();
    let mut i: usize = 0;
    let ghost mut done: Seq<int> = Seq::empty();
    proof {
        assert(done + starts_from(slots@, 0) =~= starts(slots@));
    }
    while i < slots.len()
        invariant_except_break
            done + starts_from(slots@, i as int) == starts(slots@),
        invariant
            i <= slots@.len(),
            out@.len() == done.len(),
            forall|k: int| 0 <= k < out@.len() ==> (#[trigger] out@[k]).start == done[k],
            forall|k: int| 0 <= k < out@.len() ==> (#[trigger] out@[k]).follows(slots@),
        ensures
            done == starts(slots@),
        decreases slots@.len() - i,
    {
        let strand = read_strand(slots, i);
        let next = strand.next;
        let last = slots[i].flags & FLAG_LAST != 0;
        let ghost rest = starts_from(slots@, next as int);
        let ghost before = done;
        out.push(strand);
        proof {
            done = before.push(i as int);
            if last {
                assert(before + seq![i as int] =~= done);
            } else {
                assert(before + (seq![i as int] + rest) =~= done + rest);
            }
        }
        if last {
            break;
        }
        i = next;
    }
    assert(done =~= starts(slots@));
    out
}

/// Records where each slot landed.
fn landings(strands: &Vec<Strand>, count: usize) -> (r: Vec<Option<usize>>)
    requires
        forall|k: int| 0 <= k < strands@.len() ==> (#[trigger] strands@[k]).start < count,
        forall|a: int, b: int|
            0 <= a < b < strands@.len() ==> (#[trigger] strands@[a]).start < (
            #[trigger] strands@[b]).start,
    ensures
        r@.len() == count,
        forall|t: int|
            0 <= t < count ==> match #[trigger] r@[t] {
                Some(k) => k < strands@.len() && strands@[k as int].start == t,
                None => forall|j: int|
                    0 <= j < strands@.len() ==> (#[trigger] strands@[j]).start != t,
            },
{
    let mut out: Vec<Option<usize>> = Vec::new();
    let mut k: usize = 0;
    let mut t: usize = 0;
    while t < count
        invariant
            t <= count,
            out@.len() == t,
            k <= strands@.len(),
            forall|k: int| 0 <= k < strands@.len() ==> (#[trigger] strands@[k]).start < count,
            forall|a: int, b: int|
                0 <= a < b < strands@.len() ==> (#[trigger] strands@[a]).start < (
                #[trigger] strands@[b]).start,
            forall|j: int| 0 <= j < k ==> (#[trigger] strands@[j]).start < t,
            forall|j: int| k <= j < strands@.len() ==> (#[trigger] strands@[j]).start >= t,
            forall|u: int|
                0 <= u < t ==> match #[trigger] out@[u] {
                    Some(k) => k < strands@.len() && strands@[k as int].start == u,
                    None => forall|j: int|
                        0 <= j < strands@.len() ==> (#[trigger] strands@[j]).start != u,
                },
        decreases count - t,
    {
        if k < strands.len() && strands[k].start == t {
            out.push(Some(k));
            k += 1;
        } else {
            out.push(None);
        }
        t += 1;
    }
    out
}

/// Whether no branch of a chain takes more than the earlier ones left.
fn chain_fits(branches: &Vec<(u16, u16)>) -> (r: bool)
    ensures
        r == cascade_fits(branches@, 0, 100),
{
    let mut remaining: u32 = 100;
    let mut n: usize = 0;
    while n < branches.len()
        invariant
            n <= branches@.len(),
            remaining <= 100,
            cascade_fits(branches@, 0, 100) == cascade_fits(
                branches@,
                n as int,
                remaining as int,
            ),
        decreases branches@.len() - n,
    {
        if n + 1 < branches.len() {
            let value = branches[n].1;
            assert(remaining * value <= 100 * 65535) by (nonlinear_arith)
                requires
                    remaining <= 100,
                    value <= 65535,
            ;
            let s: u32 = remaining * (value as u32) / 0x8000;
            if s > remaining {
                return false;
            }
            remaining = remaining - s;
        } else {
            remaining = 0;
        }
        n += 1;
    }
    true
}

/// Whether every branch chain of a sequence hands out no more than there is.
pub fn branch_chains_fit(slots: &[Slot]) -> (r: bool)
    ensures
        r == chains_fit(slots@),
{
    let strands = read_strands(slots);
    let mut k: usize = 0;
    while k < strands.len()
        invariant
            k <= strands@.len(),
            strands@.len() == starts(slots@).len(),
            forall|k: int| 0 <= k < strands@.len() ==> (#[trigger] strands@[k]).start == starts(slots@)[k],
            forall|k: int| 0 <= k < strands@.len() ==> (#[trigger] strands@[k]).follows(slots@),
            forall|j: int|
                0 <= j < k ==> cascade_fits(
                    (#[trigger] trail(slots@, starts(slots@)[j])).branches,
                    0,
                    100,
                ),
        decreases strands@.len() - k,
    {
        if !chain_fits(&strands[k].branches) {
            assert(strands@[k as int].follows(slots@));
            assert(!cascade_fits(trail(slots@, starts(slots@)[k as int]).branches, 0, 100));
            return false;
        }
        assert(strands@[k as int].follows(slots@));
        k += 1;
    }
    true
}

/// Folds a cascade out into plain percentages and frame numbers.
fn resolve(
    branches: &Vec<(u16, u16)>,
    landed: &Vec<Option<usize>>,
    Ghost(starts): Ghost<Seq<int>>,
) -> (r: Vec<Branch>)
    requires
        cascade_fits(branches@, 0, 100),
        forall|t: int|
            0 <= t < landed@.len() ==> #[trigger] landed@[t] == (match landing(starts, t) {
                Some(k) => Some(k as usize),
                None => None,
            }),
        forall|t: int| landing(starts, t) is Some ==> 0 <= t < landed@.len(),
        forall|t: int| (#[trigger] landing(starts, t)) matches Some(k) ==> 0 <= k <= usize::MAX,
    ensures
        r@ == resolved(starts, branches@, 0, 100),
{
    let mut out: Vec<Branch> = Vec::new();
    let mut remaining: u32 = 100;
    let mut n: usize = 0;
    assert(out@ + resolved(starts, branches@, 0, 100) =~= resolved(starts, branches@, 0, 100));
    while n < branches.len()
        invariant
            n <= branches@.len(),
            remaining <= 100,
            cascade_fits(branches@, n as int, remaining as int),
            forall|t: int|
                0 <= t < landed@.len() ==> #[trigger] landed@[t] == (match landing(starts, t) {
                    Some(k) => Some(k as usize),
                    None => None,
                }),
            forall|t: int| landing(starts, t) is Some ==> 0 <= t < landed@.len(),
            forall|t: int| (#[trigger] landing(starts, t)) matches Some(k) ==> 0 <= k <= usize::MAX,
            out@ + resolved(starts, branches@, n as int, remaining as int) == resolved(
                starts,
                branches@,
                0,
                100,
            ),
        decreases branches@.len() - n,
    {
        let target: usize = branches[n].0 as usize;
        let value = branches[n].1;
        let s: u32 = if n + 1 == branches.len() {
            remaining
        } else {
            assert(remaining * value <= 100 * 65535) by (nonlinear_arith)
                requires
                    remaining <= 100,
                    value <= 65535,
            ;
            remaining * (value as u32) / 0x8000
        };
        assert(s == share(branches@, n as int, remaining as int));
        let ghost rest = resolved(starts, branches@, n + 1, remaining - s);
        let ghost before = out@;
        remaining = remaining - s;
        n += 1;
        if target < landed.len() {
            if let Some(index) = landed[target] {
                if s != 0 {
                    let branch = Branch { frame_index: index as u16, probability: s as u16 };
                    out.push(branch);
                    assert(before + (seq![branch] + rest) =~= out@ + rest);
                }
            }
        }
    }
    assert(out@ =~= resolved(starts, branches@, 0, 100));
    out
}

/// Turns a sequence's slots into frames, resolving sounds and branch targets.
///
/// Probabilities form a cascade: each branch takes its share of what the
/// earlier ones left, and the last one catches the remainder. The frames carry
/// plain percentages, so the cascade is folded out here.
pub fn build_frames(slots: &[Slot], first_frame: u16, frame_total: usize) -> (r: Vec<Frame>)
    requires
        chains_fit(slots@),
    ensures
        types::frame_models(r@) == frames_of(slots@, first_frame, frame_total as int),
{
    let strands = read_strands(slots);
    let ghost st = starts(slots@);
    proof {
        starts_increase(slots@, 0);
        assert forall|a: int, b: int| 0 <= a < b < strands@.len() implies (
        #[trigger] strands@[a]).start < (#[trigger] strands@[b]).start by {
            assert(st[a] < st[b]);
        }
        assert forall|k: int| 0 <= k < strands@.len() implies (#[trigger] strands@[k]).start
            < slots@.len() by {
            assert(strands@[k].start == st[k]);
        }
    }
    let landed = landings(&strands, slots.len());
    proof {
        assert forall|t: int| 0 <= t < landed@.len() implies #[trigger] landed@[t] == (
        match landing(st, t) {
            Some(k) => Some(k as usize),
            None => None,
        }) by {
            match landed@[t] {
                Some(k) => {
                    assert(strands@[k as int].start == t);
                    landing_of_start(st, k as int);
                },
                None => {
                    if exists|k: int| 0 <= k < st.len() && #[trigger] st[k] == t {
                        let k = choose|k: int| 0 <= k < st.len() && #[trigger] st[k] == t;
                        assert(strands@[k].start == t);
                    }
                },
            }
        }
    }
    let mut frames: Vec<Frame> = Vec::new();
    let mut k: usize = 0;
    while k < strands.len()
        invariant
            k <= strands@.len(),
            frames@.len() == k,
            st == starts(slots@),
            strands@.len() == st.len() <= slots@.len(),
            slots@.len() <= usize::MAX,
            chains_fit(slots@),
            landed@.len() == slots@.len(),
            forall|k: int| 0 <= k < strands@.len() ==> (#[trigger] strands@[k]).start == st[k],
            forall|k: int| 0 <= k < st.len() ==> 0 <= #[trigger] st[k] < slots@.len(),
            forall|k: int| 0 <= k < strands@.len() ==> (#[trigger] strands@[k]).follows(slots@),
            forall|t: int|
                0 <= t < landed@.len() ==> #[trigger] landed@[t] == (match landing(st, t) {
                    Some(k) => Some(k as usize),
                    None => None,
                }),
            forall|j: int|
                0 <= j < k ==> (#[trigger] frames@[j])@ == frame_from(
                    slots@,
                    st,
                    st[j],
                    first_frame,
                    frame_total as int,
                ),
        decreases strands@.len() - k,
    {
        let strand = &strands[k];
        assert(strand.follows(slots@));
        assert(strand.branches@ == trail(slots@, st[k as int]).branches);
        let slot = slots[strand.start];
        let branches = resolve(&strand.branches, &landed, Ghost(st));
        let mut images: Vec<FrameImage> = Vec::new();
        if slot.id != BLANK && slot.id >= first_frame && ((slot.id - first_frame) as usize)
            < frame_total {
            images.push(FrameImage { image_index: (slot.id - first_frame) as u32, x: 0, y: 0 });
        }
        let overlays: Vec<Overlay> = Vec::new();
        let frame = Frame {
            images,
            audio_index: strand.sound,
            duration: slot.value / 10,
            exit_frame: -1,
            branches,
            overlays,
        };
        assert(frame@ =~= frame_from(slots@, st, st[k as int], first_frame, frame_total as int));
        frames.push(frame);
        k += 1;
    }
    assert(types::frame_models(frames@) =~= frames_of(slots@, first_frame, frame_total as int));
    frames
}

/// A slot as its six bytes.
pub open spec fn slot_bytes(s: Slot) -> Seq<u8> {
    bytes::word_bytes(s.id) + bytes::word_bytes(s.value) + bytes::word_bytes(s.flags)
}

/// A sequence as its bytes: the number of slots, a flags word and the slots.
pub open spec fn sequence_bytes(slots: Seq<Slot>, flags: u16) -> Seq<u8> {
    bytes::word_bytes(slots.len() as u16) + bytes::word_bytes(flags) + bytes::joined(
        Seq::new(slots.len(), |k: int| slot_bytes(slots[k])),
    )
}

/// Some sequences one after another.
pub open spec fn sequences_bytes(sequences: Seq<Seq<Slot>>, flags: u16) -> Seq<u8>
    decreases sequences.len(),
{
    if sequences.len() == 0 {
        Seq::empty()
    } else {
        sequence_bytes(sequences[0], flags) + sequences_bytes(sequences.drop_first(), flags)
    }
}

proof fn one_sequence_reads(front: Seq<u8>, slots: Seq<Slot>, flags: u16, back: Seq<u8>)
    requires
        slots.len() <= 0xFFFF,
    ensures
        ({
            let data = front + sequence_bytes(slots, flags) + back;
            let at = front.len() as int;
            &&& sequence_bytes(slots, flags).len() == 4 + 6 * slots.len()
            &&& bytes::le16(data, at) == slots.len()
            &&& slots_at(data, at + 4, slots.len()) == slots
        }),
{
    let n = slots.len();
    let pieces = Seq::new(n, |k: int| slot_bytes(slots[k]));
    let body = bytes::joined(pieces);
    let data = front + sequence_bytes(slots, flags) + back;
    let at = front.len() as int;
    bytes::pieces_keep_their_places(pieces, 6, 0);
    assert(data =~= front + bytes::word_bytes(n as u16) + (bytes::word_bytes(flags) + body + back));
    bytes::numbers_come_back(front, n as u16, 0, 0, bytes::word_bytes(flags) + body + back);
    assert forall|k: int| 0 <= k < n implies #[trigger] slot_at(data, at + 4 + 6 * k)
        == slots[k] by {
        bytes::pieces_keep_their_places(pieces, 6, k);
        let six = data.subrange(at + 4 + 6 * k, at + 4 + 6 * k + 6);
        assert(six =~= body.subrange(6 * k, 6 * k + 6));
        let b = slot_bytes(slots[k]);
        assert(six[0] == b[0] && six[1] == b[1] && six[2] == b[2] && six[3] == b[3] && six[4]
            == b[4] && six[5] == b[5]);
    }
    assert(slots_at(data, at + 4, n) =~= slots);
}

/// Sequences written one after another come back as they are, slot by slot and
/// in their order, where the region holds them all.
pub proof fn sequences_come_back(
    front: Seq<u8>,
    sequences: Seq<Seq<Slot>>,
    flags: u16,
    back: Seq<u8>,
    end: int,
)
    requires
        front.len() >= 2,
        forall|i: int| 0 <= i < sequences.len() ==> (#[trigger] sequences[i]).len() <= 0xFFFF,
        front.len() + sequences_bytes(sequences, flags).len() <= end,
    ensures
        sequences_of(
            front + sequences_bytes(sequences, flags) + back,
            front.len() - 2,
            end,
            sequences.len(),
        ) == sequences,
{
    sequences_read_on(front, sequences, flags, back, end);
}

proof fn sequences_read_on(
    front: Seq<u8>,
    sequences: Seq<Seq<Slot>>,
    flags: u16,
    back: Seq<u8>,
    end: int,
)
    requires
        forall|i: int| 0 <= i < sequences.len() ==> (#[trigger] sequences[i]).len() <= 0xFFFF,
        front.len() + sequences_bytes(sequences, flags).len() <= end,
    ensures
        sequences_from(
            front + sequences_bytes(sequences, flags) + back,
            front.len() as int,
            end,
            sequences.len(),
        ) == sequences,
    decreases sequences.len(),
{
    let data = front + sequences_bytes(sequences, flags) + back;
    if sequences.len() > 0 {
        let one = sequence_bytes(sequences[0], flags);
        let rest = sequences.drop_first();
        let more = sequences_bytes(rest, flags);
        one_sequence_reads(front, sequences[0], flags, more + back);
        assert(data =~= front + one + (more + back));
        assert(data =~= (front + one) + more + back);
        assert forall|i: int| 0 <= i < rest.len() implies (#[trigger] rest[i]).len() <= 0xFFFF by {
            assert(rest[i] == sequences[i + 1]);
        }
        sequences_read_on(front + one, rest, flags, back, end);
        assert(seq![sequences[0]] + rest =~= sequences);
        assert((front + one).len() == front.len() + 4 + 6 * sequences[0].len());
    } else {
        assert(sequences_from(data, front.len() as int, end, 0) =~= sequences);
    }
}

/// How many of the `n` slots from `from` on ask for a sound record.
pub open spec fn sounds_among(slots: Seq<Slot>, from: int, n: nat) -> nat
    decreases n,
{
    if n == 0 {
        0
    } else {
        sounds_among(slots, from, (n - 1) as nat) + (if slots[from + n - 1].flags & 0x0002 != 0 {
            1nat
        } else {
            0nat
        })
    }
}

proof fn chain_runs_on(slots: Seq<Slot>, i: int, m: nat, k: nat)
    requires
        0 <= i,
        1 <= m,
        i + m < slots.len(),
        k < m,
        forall|j: int| i < j < i + m ==> (#[trigger] slots[j]).flags & 0x0001 != 0,
        slots[i + m].flags & 0x0001 == 0,
    ensures
        chain_from(
            slots,
            Chain {
                branches: Seq::new(k, |j: int| (slots[i + 1 + j].id, slots[i + 1 + j].value)),
                sounds: sounds_among(slots, i, k + 1),
                next: i + 1 + k,
            },
        ) == (Chain {
            branches: Seq::new(m, |j: int| (slots[i + 1 + j].id, slots[i + 1 + j].value)),
            sounds: sounds_among(slots, i, m + 1),
            next: i + 1 + m,
        }),
    decreases m - k,
{
    let b = slots[i + 1 + k];
    let now = Seq::new(k, |j: int| (slots[i + 1 + j].id, slots[i + 1 + j].value));
    let then_on = Seq::new(k + 1, |j: int| (slots[i + 1 + j].id, slots[i + 1 + j].value));
    assert(now.push((b.id, b.value)) =~= then_on);
    assert(sounds_among(slots, i, k + 2) == sounds_among(slots, i, k + 1) + sounds_of(b));
    if k + 1 < m {
        chain_runs_on(slots, i, m, k + 1);
    } else {
        assert(i + 1 + k == i + m);
        assert(then_on =~= Seq::new(m, |j: int| (slots[i + 1 + j].id, slots[i + 1 + j].value)));
    }
}

/// Bit 0 of a slot chains a branch record, and each branch record with the bit
/// another; bit 1 of any of them appends a sound record after the chain. A frame
/// takes all of those, in that order, and the last sound counts. `m` is the
/// number of branch records.
pub proof fn records_follow_their_frame(slots: Seq<Slot>, i: int, m: nat)
    requires
        0 <= i,
        i + 1 + m + sounds_among(slots, i, m + 1) <= slots.len(),
        (slots[i].flags & 0x0001 != 0) == (m > 0),
        forall|j: int| i < j < i + m ==> (#[trigger] slots[j]).flags & 0x0001 != 0,
        m > 0 ==> slots[i + m].flags & 0x0001 == 0,
    ensures
        ({
            let q = sounds_among(slots, i, m + 1);
            let t = trail(slots, i);
            &&& t.branches == Seq::new(m, |j: int| (slots[i + 1 + j].id, slots[i + 1 + j].value))
            &&& t.next == i + 1 + m + q
            &&& t.sound == (if q == 0 {
                None
            } else {
                Some(slots[i + m + q].id)
            })
        }),
{
    assert(sounds_among(slots, i, 1) == sounds_among(slots, i, 0) + sounds_of(slots[i]));
    let none = Seq::new(0, |j: int| (slots[i + 1 + j].id, slots[i + 1 + j].value));
    assert(none =~= Seq::empty());
    if m > 0 {
        chain_runs_on(slots, i, m, 0);
    } else {
        assert(Seq::<(u16, u16)>::empty() =~= Seq::new(
            m,
            |j: int| (slots[i + 1 + j].id, slots[i + 1 + j].value),
        ));
    }
}

/// The first slot becomes the first frame. Where a frame's records end, the next
/// frame starts, up to a slot with bit 8 set, which is the last, or the end of
/// the slots.
pub proof fn frames_start_behind_one_another(slots: Seq<Slot>, k: int)
    requires
        0 <= k < starts(slots).len(),
    ensures
        starts(slots)[0] == 0,
        slots[starts(slots)[k]].flags & 0x0100 != 0 || trail(slots, starts(slots)[k]).next
            >= slots.len() ==> k == starts(slots).len() - 1,
        !(slots[starts(slots)[k]].flags & 0x0100 != 0) && trail(slots, starts(slots)[k]).next
            < slots.len() ==> k + 1 < starts(slots).len() && starts(slots)[k + 1] == trail(
            slots,
            starts(slots)[k],
        ).next,
{
    starts_behind(slots, 0, k);
}

proof fn starts_behind(slots: Seq<Slot>, i: int, k: int)
    requires
        0 <= i < slots.len(),
        0 <= k < starts_from(slots, i).len(),
    ensures
        starts_from(slots, i)[0] == i,
        ({
            let all = starts_from(slots, i);
            let ends = slots[all[k]].flags & 0x0100 != 0;
            let next = trail(slots, all[k]).next;
            &&& ends || next >= slots.len() ==> k == all.len() - 1
            &&& !ends && next < slots.len() ==> k + 1 < all.len() && all[k + 1] == next
        }),
    decreases slots.len() - i,
{
    if !is_last(slots[i]) {
        trail_advances(slots, i);
        let next = trail(slots, i).next;
        let rest = starts_from(slots, next);
        let all = starts_from(slots, i);
        assert(all =~= seq![i] + rest);
        if next < slots.len() {
            if k > 0 {
                starts_behind(slots, next, k - 1);
                assert(all[k] == rest[k - 1]);
                if k + 1 < all.len() {
                    assert(all[k + 1] == rest[k]);
                }
            } else {
                assert(rest.len() > 0);
                starts_behind(slots, next, 0);
                assert(all[1] == rest[0]);
            }
        }
    }
}

/// A frame shows the image that its slot names, counted from the first frame
/// number, where there is one; stays for a tenth of the slot's value, which is
/// in milliseconds; and carries the sound and the branches behind it.
pub proof fn frames_are_as_their_slots(
    slots: Seq<Slot>,
    first_frame: u16,
    frame_total: int,
    k: int,
)
    requires
        0 <= k < starts(slots).len(),
    ensures
        frames_of(slots, first_frame, frame_total).len() == starts(slots).len(),
        ({
            let at = starts(slots)[k];
            let f = frames_of(slots, first_frame, frame_total)[k];
            &&& f.duration == slots[at].value / 10
            &&& f.audio_index == trail(slots, at).sound
            &&& f.exit_frame == -1
            &&& f.overlays.len() == 0
            &&& f.branches == resolved(starts(slots), trail(slots, at).branches, 0, 100)
            &&& if slots[at].id == 0xFFFF || slots[at].id < first_frame || slots[at].id
                - first_frame >= frame_total {
                f.images.len() == 0
            } else {
                &&& f.images.len() == 1
                &&& f.images[0].image_index == slots[at].id - first_frame
                &&& f.images[0].x == 0 && f.images[0].y == 0
            }
        }),
{
}

/// Branches share out what is left in turn: each takes its weight in parts of
/// 32768, and the last takes the rest. One that takes something and leads to a
/// slot that became a frame stays, with that frame's number.
pub proof fn branches_share_in_turn(
    slots: Seq<Slot>,
    branches: Seq<(u16, u16)>,
    n: int,
    remaining: int,
    k: int,
)
    requires
        0 <= n < branches.len(),
        0 <= remaining <= 100,
    ensures
        ({
            let st = starts(slots);
            let taken = if n + 1 == branches.len() {
                remaining
            } else {
                remaining * branches[n].1 / 32768
            };
            let rest = resolved(st, branches, n + 1, remaining - taken);
            &&& taken != 0 && 0 <= k < st.len() && st[k] == branches[n].0 ==> resolved(
                st,
                branches,
                n,
                remaining,
            ) == seq![Branch { frame_index: k as u16, probability: taken as u16 }] + rest
            &&& taken == 0 || (forall|j: int| 0 <= j < st.len() ==> #[trigger] st[j]
                != branches[n].0) ==> resolved(st, branches, n, remaining) == rest
        }),
        resolved(starts(slots), branches, branches.len() as int, remaining).len() == 0,
{
    if 0 <= k < starts(slots).len() {
        a_branch_finds_its_frame(slots, k);
    }
}

} // verus!
