//! The diagnostic tool: what it counts, and which frame it is asked to write.
use vstd::prelude::*;

use crate::character::Character;
use crate::selection;
use crate::selection::{find_animation, frames_have_overlays};
use crate::text;
use crate::text::{parse_number, same_text};
use crate::types::{Animation, Frame, MouthShape};

verus! {

/// How decoding the images has gone.
#[derive(Debug, Clone, Copy)]
pub struct Tally {
    pub failures: usize,
    pub total_pixels: u64,
}

impl Tally {
    /// Nothing decoded yet.
    pub fn new() -> (r: Tally)
        ensures
            r.failures == 0,
            r.total_pixels == 0,
    {
        Tally { failures: 0, total_pixels: 0 }
    }

    /// Counts an image that decoded.
    pub fn decoded(&mut self, width: u32, height: u32)
        requires
            old(self).total_pixels + width * height <= u64::MAX,
        ensures
            final(self).failures == old(self).failures,
            final(self).total_pixels == old(self).total_pixels + width * height,
    {
        assert(0 <= width * height) by (nonlinear_arith);
        self.total_pixels = self.total_pixels + width as u64 * height as u64;
    }

    /// Counts an image that failed, and says whether to complain about it:
    /// only the first five are.
    pub fn failed(&mut self) -> (complain: bool)
        requires
            old(self).failures < usize::MAX,
        ensures
            final(self).failures == old(self).failures + 1,
            final(self).total_pixels == old(self).total_pixels,
            complain == (old(self).failures < 5),
    {
        let complain = self.failures < 5;
        self.failures = self.failures + 1;
        complain
    }
}

/// How many of the first `n` animations carry mouth overlays.
pub open spec fn overlay_animations(animations: Seq<Animation>, n: nat) -> nat
    decreases n,
{
    if n == 0 {
        0
    } else {
        overlay_animations(animations, (n - 1) as nat) + (if selection::has_overlays(
            animations[n - 1].frames@,
        ) {
            1nat
        } else {
            0nat
        })
    }
}

/// How many of the first `n` frames carry mouth overlays.
pub open spec fn overlay_frames(frames: Seq<Frame>, n: nat) -> nat
    decreases n,
{
    if n == 0 {
        0
    } else {
        overlay_frames(frames, (n - 1) as nat) + (if frames[n - 1].overlays@.len() > 0 {
            1nat
        } else {
            0nat
        })
    }
}

/// How many frames of the first `n` animations carry mouth overlays.
pub open spec fn all_overlay_frames(animations: Seq<Animation>, n: nat) -> nat
    decreases n,
{
    if n == 0 {
        0
    } else {
        all_overlay_frames(animations, (n - 1) as nat) + overlay_frames(
            animations[n - 1].frames@,
            animations[n - 1].frames@.len(),
        )
    }
}

/// How many of the first `n` animations have no frames.
pub open spec fn empty_animations(animations: Seq<Animation>, n: nat) -> nat
    decreases n,
{
    if n == 0 {
        0
    } else {
        empty_animations(animations, (n - 1) as nat) + (if animations[n - 1].frames@.len() == 0 {
            1nat
        } else {
            0nat
        })
    }
}

/// How many of the first `n` frames play a sound.
pub open spec fn sounding_frames(frames: Seq<Frame>, n: nat) -> nat
    decreases n,
{
    if n == 0 {
        0
    } else {
        sounding_frames(frames, (n - 1) as nat) + (if frames[n - 1].audio_index is Some {
            1nat
        } else {
            0nat
        })
    }
}

/// How many branches the first `n` frames have together.
pub open spec fn branch_count(frames: Seq<Frame>, n: nat) -> nat
    decreases n,
{
    if n == 0 {
        0
    } else {
        branch_count(frames, (n - 1) as nat) + frames[n - 1].branches@.len()
    }
}

fn count_overlay_frames(frames: &Vec<Frame>) -> (r: usize)
    ensures
        r == overlay_frames(frames@, frames@.len()),
{
    let mut n: usize = 0;
    let mut i: usize = 0;
    while i < frames.len()
        invariant
            i <= frames@.len(),
            n <= i,
            n == overlay_frames(frames@, i as nat),
        decreases frames@.len() - i,
    {
        if frames[i].overlays.len() > 0 {
            n += 1;
        }
        i += 1;
    }
    n
}

/// What the tool reports of a character's animations.
#[derive(Debug, Clone, Copy)]
pub struct Survey {
    pub overlay_animations: usize,
    pub overlay_frames: u128,
    pub empty_animations: usize,
}

/// Counts what the tool reports of a character's animations.
pub fn survey(character: &Character) -> (r: Survey)
    ensures
        r.overlay_animations == overlay_animations(
            character.animations@,
            character.animations@.len(),
        ),
        r.overlay_frames == all_overlay_frames(
            character.animations@,
            character.animations@.len(),
        ),
        r.empty_animations == empty_animations(
            character.animations@,
            character.animations@.len(),
        ),
{
    let animations = &character.animations;
    let mut r = Survey { overlay_animations: 0, overlay_frames: 0, empty_animations: 0 };
    let mut i: usize = 0;
    while i < animations.len()
        invariant
            i <= animations.len(),
            r.overlay_animations <= i,
            r.empty_animations <= i,
            r.overlay_frames <= i * 0xFFFF_FFFF_FFFF_FFFF,
            r.overlay_animations == overlay_animations(animations@, i as nat),
            r.overlay_frames == all_overlay_frames(animations@, i as nat),
            r.empty_animations == empty_animations(animations@, i as nat),
        decreases animations@.len() - i,
    {
        let frames = &animations[i].frames;
        if frames_have_overlays(frames) {
            r.overlay_animations = r.overlay_animations + 1;
        }
        r.overlay_frames = r.overlay_frames + count_overlay_frames(frames) as u128;
        if frames.len() == 0 {
            r.empty_animations = r.empty_animations + 1;
        }
        i += 1;
    }
    r
}

/// What the tool reports of one animation besides its length.
#[derive(Debug, Clone, Copy)]
pub struct AnimationSurvey {
    pub sounds: usize,
    pub branches: u128,
}

/// Counts the sounds and branches of an animation.
pub fn survey_animation(animation: &Animation) -> (r: AnimationSurvey)
    ensures
        r.sounds == sounding_frames(animation.frames@, animation.frames@.len()),
        r.branches == branch_count(animation.frames@, animation.frames@.len()),
{
    let frames = &animation.frames;
    let mut r = AnimationSurvey { sounds: 0, branches: 0 };
    let mut i: usize = 0;
    while i < frames.len()
        invariant
            i <= frames.len(),
            r.sounds <= i,
            r.branches <= i * 0xFFFF_FFFF_FFFF_FFFF,
            r.sounds == sounding_frames(frames@, i as nat),
            r.branches == branch_count(frames@, i as nat),
        decreases frames@.len() - i,
    {
        if frames[i].audio_index.is_some() {
            r.sounds = r.sounds + 1;
        }
        r.branches = r.branches + frames[i].branches.len() as u128;
        i += 1;
    }
    r
}

/// The first argument from `i` on that is this one.
pub open spec fn position(args: Seq<Seq<char>>, name: Seq<char>, i: int) -> Option<int>
    decreases args.len() - i,
{
    if i < 0 || i >= args.len() {
        None
    } else if args[i] == name {
        Some(i)
    } else {
        position(args, name, i + 1)
    }
}

/// Argument number `i`, or a default.
pub open spec fn arg_or(args: Seq<Seq<char>>, i: int, default: Seq<char>) -> Seq<char> {
    if 0 <= i < args.len() {
        args[i]
    } else {
        default
    }
}

/// Finds an argument.
pub fn find_arg(args: &Vec<String>, name: &str) -> (r: Option<usize>)
    ensures
        match r {
            Some(i) => i < args@.len() && position(text::texts(args@), name@, 0) == Some(i as int),
            None => position(text::texts(args@), name@, 0) is None,
        },
{
    let ghost all = text::texts(args@);
    let mut i: usize = 0;
    while i < args.len()
        invariant
            i <= args@.len(),
            all == text::texts(args@),
            position(all, name@, 0) == position(all, name@, i as int),
        decreases args@.len() - i,
    {
        assert(all[i as int] == args@[i as int]@);
        if same_text(args[i].as_str(), name) {
            return Some(i);
        }
        i += 1;
    }
    None
}

/// A frame to write as a picture.
#[derive(Debug)]
pub struct PngRequest {
    pub animation: String,
    pub frame: u64,
    pub out: String,
    pub mouth: Option<MouthShape>,
}

/// The mouth that the arguments ask for.
pub open spec fn mouth_wanted(args: Seq<Seq<char>>) -> Option<MouthShape> {
    match position(args, "--mouth"@, 0) {
        Some(p) => if p + 1 < args.len() {
            match text::number_in(args[p + 1], 255) {
                Some(v) => MouthShape::numbered(v as u8),
                None => None,
            }
        } else {
            None
        },
        None => None,
    }
}

fn arg_text(args: &Vec<String>, i: usize, offset: usize, default: &str) -> (r: String)
    requires
        i < args@.len(),
        offset <= 3,
    ensures
        r@ == arg_or(text::texts(args@), i + offset, default@),
{
    let rest: usize = args.len() - i;
    if offset < rest {
        args[i + offset].as_str().to_owned()
    } else {
        default.to_owned()
    }
}

/// Reads what frame to write: the animation, frame number and file behind
/// `--png`, each with a default, and the mouth behind `--mouth`.
pub fn png_request(args: &Vec<String>) -> (r: Option<PngRequest>)
    ensures
        ({
            let all = text::texts(args@);
            match position(all, "--png"@, 0) {
                Some(p) => r matches Some(q) && {
                    &&& q.animation@ == arg_or(all, p + 1, ""@)
                    &&& q.frame == (match text::number_in(arg_or(all, p + 2, ""@), u64::MAX as int) {
                        Some(v) => v,
                        None => 0,
                    })
                    &&& q.out@ == arg_or(all, p + 3, "frame.png"@)
                    &&& q.mouth == mouth_wanted(all)
                },
                None => r is None,
            }
        }),
{
    let p: usize = match find_arg(args, "--png") {
        Some(p) => p,
        None => return None,
    };
    let animation = arg_text(args, p, 1, "");
    let number = arg_text(args, p, 2, "");
    let frame: u64 = match parse_number(number.as_str(), u64::MAX) {
        Some(v) => v,
        None => 0,
    };
    let out = arg_text(args, p, 3, "frame.png");
    let mouth: Option<MouthShape> = match find_arg(args, "--mouth") {
        Some(m) => if args.len() - m >= 2 {
            assert(text::texts(args@)[m + 1] == args@[m + 1]@);
            match parse_number(args[m + 1].as_str(), 255) {
                Some(v) => MouthShape::from_u8(v as u8),
                None => None,
            }
        } else {
            None
        },
        None => None,
    };
    Some(PngRequest { animation, frame, out, mouth })
}

/// The animation to take a frame from: the one of that name, or else the first
/// with frames.
pub open spec fn chosen(animations: Seq<Animation>, name: Seq<char>) -> Option<int> {
    match selection::named_from(animations, name, 0) {
        Some(i) => Some(i),
        None => selection::serving_from(animations, selection::Use::Playing, 0),
    }
}

/// Chooses the animation to take a frame from.
pub fn choose_animation(character: &Character, name: &str) -> (r: Option<usize>)
    ensures
        selection::found(r) == chosen(character.animations@, name@),
{
    match find_animation(character, name) {
        Some(i) => Some(i),
        None => selection::find_first(character, selection::Use::Playing),
    }
}

/// The counts are of the animations and frames that carry mouth overlays, of the
/// animations without frames, and of the frames that play a sound.
pub proof fn counts_are_of_what_fits(animations: Seq<Animation>, frames: Seq<Frame>)
    ensures
        overlay_animations(animations, animations.len()) == animations.filter(
            |a: Animation|
                exists|k: int|
                    0 <= k < a.frames@.len() && (#[trigger] a.frames@[k]).overlays@.len() > 0,
        ).len(),
        empty_animations(animations, animations.len()) == animations.filter(
            |a: Animation| a.frames@.len() == 0,
        ).len(),
        overlay_frames(frames, frames.len()) == frames.filter(
            |f: Frame| f.overlays@.len() > 0,
        ).len(),
        sounding_frames(frames, frames.len()) == frames.filter(
            |f: Frame| f.audio_index is Some,
        ).len(),
    decreases animations.len() + frames.len(),
{
    reveal(Seq::filter);
    if animations.len() > 0 || frames.len() > 0 {
        let fewer = if animations.len() > 0 {
            animations.drop_last()
        } else {
            animations
        };
        let less = if frames.len() > 0 {
            frames.drop_last()
        } else {
            frames
        };
        counts_are_of_what_fits(fewer, less);
        animations_count_alike(animations, fewer, fewer.len());
        frames_count_alike(frames, less, less.len());
    }
}

proof fn animations_count_alike(a: Seq<Animation>, b: Seq<Animation>, n: nat)
    requires
        n <= a.len(),
        n <= b.len(),
        forall|i: int| 0 <= i < n ==> a[i] == b[i],
    ensures
        overlay_animations(a, n) == overlay_animations(b, n),
        empty_animations(a, n) == empty_animations(b, n),
        all_overlay_frames(a, n) == all_overlay_frames(b, n),
    decreases n,
{
    if n > 0 {
        animations_count_alike(a, b, (n - 1) as nat);
    }
}

proof fn frames_count_alike(a: Seq<Frame>, b: Seq<Frame>, n: nat)
    requires
        n <= a.len(),
        n <= b.len(),
        forall|i: int| 0 <= i < n ==> a[i] == b[i],
    ensures
        overlay_frames(a, n) == overlay_frames(b, n),
        sounding_frames(a, n) == sounding_frames(b, n),
        branch_count(a, n) == branch_count(b, n),
    decreases n,
{
    if n > 0 {
        frames_count_alike(a, b, (n - 1) as nat);
    }
}

/// Branches and frames with overlays add up: every branch of every frame counts,
/// and every such frame of every animation.
pub proof fn counts_add_up(frames: Seq<Frame>, f: Frame, animations: Seq<Animation>, a: Animation)
    ensures
        branch_count(Seq::empty(), 0) == 0,
        branch_count(frames.push(f), frames.len() + 1) == branch_count(frames, frames.len())
            + f.branches@.len(),
        all_overlay_frames(Seq::empty(), 0) == 0,
        all_overlay_frames(animations.push(a), animations.len() + 1) == all_overlay_frames(
            animations,
            animations.len(),
        ) + a.frames@.filter(|f: Frame| f.overlays@.len() > 0).len(),
{
    frames_count_alike(frames.push(f), frames, frames.len());
    animations_count_alike(animations.push(a), animations, animations.len());
    counts_are_of_what_fits(animations, a.frames@);
}

proof fn found_at(args: Seq<Seq<char>>, name: Seq<char>, from: int, p: int)
    requires
        0 <= from <= p < args.len(),
        args[p] == name,
        forall|i: int| from <= i < p ==> args[i] != name,
    ensures
        position(args, name, from) == Some(p),
    decreases p - from,
{
    if from < p {
        assert(args[from] != name);
        found_at(args, name, from + 1, p);
    }
}

/// The first `--png` is followed by the name of an animation, the number of a
/// frame and the name of a file. What is left out, or is no number, is replaced:
/// no name, frame 0, and `frame.png`.
pub proof fn pictures_are_asked_for_in_order(
    args: &Vec<String>,
    r: Option<PngRequest>,
    p: int,
    n: nat,
)
    requires
        call_ensures(png_request, (args,), r),
        0 <= p < args@.len(),
        args@[p]@ == "--png"@,
        forall|i: int| 0 <= i < p ==> (#[trigger] args@[i])@ != "--png"@,
    ensures
        r matches Some(q) && {
            &&& p + 1 < args@.len() ==> q.animation@ == args@[p + 1]@
            &&& p + 1 >= args@.len() ==> q.animation@ == ""@
            &&& p + 2 < args@.len() && args@[p + 2]@ == text::decimal(n) && n <= u64::MAX ==> q.frame
                == n
            &&& p + 2 < args@.len() && text::number_in(args@[p + 2]@, u64::MAX as int) is None
                ==> q.frame == 0
            &&& p + 3 < args@.len() ==> q.out@ == args@[p + 3]@
            &&& p + 3 >= args@.len() ==> q.out@ == "frame.png"@
        },
{
    let all = text::texts(args@);
    assert forall|i: int| 0 <= i < p implies all[i] != "--png"@ by {
        assert(all[i] == args@[i]@);
    }
    assert(all[p] == args@[p]@);
    found_at(all, "--png"@, 0, p);
    text::numbers_read_back(n, u64::MAX as int);
}

/// Without `--png` there is no picture to write.
pub proof fn no_picture_unasked(args: &Vec<String>, r: Option<PngRequest>)
    requires
        call_ensures(png_request, (args,), r),
        forall|i: int| 0 <= i < args@.len() ==> (#[trigger] args@[i])@ != "--png"@,
    ensures
        r is None,
{
    let all = text::texts(args@);
    assert forall|i: int| 0 <= i < all.len() implies all[i] != "--png"@ by {
        assert(all[i] == args@[i]@);
    }
    not_found(all, "--png"@, 0);
}

proof fn not_found(args: Seq<Seq<char>>, name: Seq<char>, from: int)
    requires
        0 <= from,
        forall|i: int| from <= i < args.len() ==> args[i] != name,
    ensures
        position(args, name, from) is None,
    decreases args.len() - from,
{
    if from < args.len() {
        not_found(args, name, from + 1);
    }
}

/// The mouth is the one with the number behind the first `--mouth`.
pub proof fn mouths_are_asked_for_by_number(args: Seq<Seq<char>>, p: int, n: u8)
    requires
        0 <= p < args.len(),
        args[p] == "--mouth"@,
        forall|i: int| 0 <= i < p ==> args[i] != "--mouth"@,
    ensures
        p + 1 < args.len() && args[p + 1] == text::decimal(n as nat) ==> mouth_wanted(args)
            == MouthShape::numbered(n),
        p + 1 >= args.len() ==> mouth_wanted(args) is None,
{
    found_at(args, "--mouth"@, 0, p);
    text::numbers_read_back(n as nat, 255);
}

/// A frame is taken of the first animation of the name that is asked for, and of
/// the first with any frames where there is none of that name.
pub proof fn frames_are_taken_by_name(animations: Seq<Animation>, name: Seq<char>, i: int)
    requires
        0 <= i < animations.len(),
    ensures
        text::same_ignoring_case(animations[i].name@, name) && (forall|j: int|
            0 <= j < i ==> !text::same_ignoring_case((#[trigger] animations[j]).name@, name))
            ==> chosen(animations, name) == Some(i),
        (forall|j: int|
            0 <= j < animations.len() ==> !text::same_ignoring_case(
                (#[trigger] animations[j]).name@,
                name,
            )) && animations[i].frames@.len() > 0 && (forall|j: int|
            0 <= j < i ==> (#[trigger] animations[j]).frames@.len() == 0) ==> chosen(
            animations,
            name,
        ) == Some(i),
{
    selection::the_first_of_a_name_is_found(animations, name);
    if animations[i].frames@.len() > 0 && (forall|j: int|
        0 <= j < i ==> (#[trigger] animations[j]).frames@.len() == 0) {
        selection::first_serves(animations, selection::Use::Playing, 0, i);
    }
}

} // verus!
