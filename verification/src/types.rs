//! The data of a character: its animations, frames and settings.
use vstd::prelude::*;

verus! {

/// An opaque colour.
#[derive(Debug, Clone, Copy, PartialEq, Eq, Structural)]
pub struct Rgb {
    pub r: u8,
    pub g: u8,
    pub b: u8,
}

/// An image placed on a frame.
#[derive(Debug, Clone, Copy, PartialEq, Eq, Structural)]
pub struct FrameImage {
    pub image_index: u32,
    pub x: i16,
    pub y: i16,
}

/// A jump that a frame may take instead of running on to the next one, with
/// its probability in percent.
#[derive(Debug, Clone, Copy, PartialEq, Eq, Structural)]
pub struct Branch {
    pub frame_index: u16,
    pub probability: u16,
}

/// The mouth images a speaking character switches between.
#[derive(Debug, Clone, Copy, PartialEq, Eq, Structural)]
pub enum MouthShape {
    Closed,
    WideOpen1,
    WideOpen2,
    WideOpen3,
    WideOpen4,
    Medium,
    Narrow,
}

impl MouthShape {
    /// The mouth that a stored number stands for.
    pub open spec fn numbered(v: u8) -> Option<MouthShape> {
        match v {
            0 => Some(MouthShape::Closed),
            1 => Some(MouthShape::WideOpen1),
            2 => Some(MouthShape::WideOpen2),
            3 => Some(MouthShape::WideOpen3),
            4 => Some(MouthShape::WideOpen4),
            5 => Some(MouthShape::Medium),
            6 => Some(MouthShape::Narrow),
            _ => None,
        }
    }

    /// Finds the mouth that a stored number stands for.
    pub fn from_u8(v: u8) -> (r: Option<MouthShape>)
        ensures
            r == MouthShape::numbered(v),
    {
        match v {
            0 => Some(MouthShape::Closed),
            1 => Some(MouthShape::WideOpen1),
            2 => Some(MouthShape::WideOpen2),
            3 => Some(MouthShape::WideOpen3),
            4 => Some(MouthShape::WideOpen4),
            5 => Some(MouthShape::Medium),
            6 => Some(MouthShape::Narrow),
            _ => None,
        }
    }
}

/// A mouth image that replaces part of a frame while speaking.
#[derive(Debug, Clone, Copy, PartialEq, Eq, Structural)]
pub struct Overlay {
    pub mouth: MouthShape,
    pub image_index: u32,
}

/// One frame of an animation. Durations count hundredths of a second, and a
/// negative exit frame means there is none.
#[derive(Debug)]
pub struct Frame {
    pub images: Vec<FrameImage>,
    pub audio_index: Option<u16>,
    pub duration: u16,
    pub exit_frame: i16,
    pub branches: Vec<Branch>,
    pub overlays: Vec<Overlay>,
}

/// The value of a [`Frame`].
#[verifier::ext_equal]
pub struct FrameModel {
    pub images: Seq<FrameImage>,
    pub audio_index: Option<u16>,
    pub duration: u16,
    pub exit_frame: i16,
    pub branches: Seq<Branch>,
    pub overlays: Seq<Overlay>,
}

impl View for Frame {
    type V = FrameModel;

    open spec fn view(&self) -> FrameModel {
        FrameModel {
            images: self.images@,
            audio_index: self.audio_index,
            duration: self.duration,
            exit_frame: self.exit_frame,
            branches: self.branches@,
            overlays: self.overlays@,
        }
    }
}

impl Frame {
    /// How long the frame stays on screen, in milliseconds.
    pub open spec fn spec_duration_ms(&self) -> u64 {
        (self.duration * 10) as u64
    }

    /// How long the frame stays on screen, in milliseconds.
    pub fn duration_ms(&self) -> (ms: u64)
        ensures
            ms == self.spec_duration_ms(),
    {
        self.duration as u64 * 10
    }
}

/// How an animation hands over to the next one.
#[derive(Debug, Clone, Copy, PartialEq, Eq, Structural)]
pub enum Transition {
    ReturnAnimation,
    ExitBranches,
    Nothing,
}

/// A named run of frames.
#[derive(Debug)]
pub struct Animation {
    pub name: String,
    pub transition: Transition,
    pub return_animation: String,
    pub frames: Vec<Frame>,
}

/// The value of an [`Animation`].
#[verifier::ext_equal]
pub struct AnimationModel {
    pub name: Seq<char>,
    pub transition: Transition,
    pub return_animation: Seq<char>,
    pub frames: Seq<FrameModel>,
}

/// The values of some frames.
pub open spec fn frame_models(s: Seq<Frame>) -> Seq<FrameModel> {
    Seq::new(s.len(), |i: int| s[i]@)
}

impl View for Animation {
    type V = AnimationModel;

    open spec fn view(&self) -> AnimationModel {
        AnimationModel {
            name: self.name@,
            transition: self.transition,
            return_animation: self.return_animation@,
            frames: frame_models(self.frames@),
        }
    }
}

/// The values of some animations.
pub open spec fn animation_models(s: Seq<Animation>) -> Seq<AnimationModel> {
    Seq::new(s.len(), |i: int| s[i]@)
}

/// The time the first `n` frames take together.
pub open spec fn total_ms(frames: Seq<Frame>, n: nat) -> nat
    decreases n,
{
    if n == 0 {
        0
    } else {
        total_ms(frames, (n - 1) as nat) + frames[n - 1].spec_duration_ms() as nat
    }
}

proof fn total_ms_bound(frames: Seq<Frame>, n: nat)
    ensures
        total_ms(frames, n) <= n * 655350,
    decreases n,
{
    if n > 0 {
        total_ms_bound(frames, (n - 1) as nat);
    }
}

impl Animation {
    /// The running time of one pass over the frames, in milliseconds.
    pub fn duration_ms(&self) -> (ms: u64)
        requires
            self.frames@.len() * 655350 <= u64::MAX,
        ensures
            ms == total_ms(self.frames@, self.frames@.len()),
    {
        let mut sum: u64 = 0;
        let mut i: usize = 0;
        while i < self.frames.len()
            invariant
                i <= self.frames@.len(),
                self.frames@.len() * 655350 <= u64::MAX,
                sum == total_ms(self.frames@, i as nat),
            decreases self.frames@.len() - i,
        {
            proof {
                total_ms_bound(self.frames@, (i + 1) as nat);
            }
            sum = sum + self.frames[i].duration_ms();
            i += 1;
        }
        sum
    }
}

/// Voice settings, as the character's author stored them.
#[derive(Debug, Clone, Copy)]
pub struct VoiceInfo {
    pub speed: u32,
    pub pitch: u16,
    pub gender: Option<u16>,
    pub language_id: Option<u16>,
}

/// Word balloon settings, as the character's author stored them.
#[derive(Debug)]
pub struct BalloonInfo {
    pub lines: u8,
    pub chars_per_line: u8,
    pub font_name: String,
    pub font_height: i32,
    pub font_weight: i32,
    pub italic: bool,
    pub foreground: Rgb,
    pub background: Rgb,
    pub border: Rgb,
}

/// A state of the character and the animations that belong to it.
#[derive(Debug)]
pub struct StateInfo {
    pub name: String,
    pub animations: Vec<String>,
}

/// Name and description in one language.
#[derive(Debug)]
pub struct LocalizedInfo {
    pub language_id: u16,
    pub name: String,
    pub description: String,
    pub extra: String,
}

/// The value of a [`LocalizedInfo`].
pub struct LocalizedModel {
    pub language_id: u16,
    pub name: Seq<char>,
    pub description: Seq<char>,
    pub extra: Seq<char>,
}

impl View for LocalizedInfo {
    type V = LocalizedModel;

    open spec fn view(&self) -> LocalizedModel {
        LocalizedModel {
            language_id: self.language_id,
            name: self.name@,
            description: self.description@,
            extra: self.extra@,
        }
    }
}

/// Everything about a character but its pictures, frames and sounds.
#[derive(Debug)]
pub struct CharacterInfo {
    pub major_version: u16,
    pub minor_version: u16,
    pub guid: [u8; 16],
    pub width: u16,
    pub height: u16,
    pub transparent_index: u8,
    pub flags: u32,
    pub voice: Option<VoiceInfo>,
    pub balloon: Option<BalloonInfo>,
    pub palette: Vec<Rgb>,
    pub states: Vec<StateInfo>,
    pub localized: Vec<LocalizedInfo>,
}

/// The value of a [`CharacterInfo`] that has neither voice nor balloon
/// settings nor states, and one language, as the older formats have it.
#[verifier::ext_equal]
pub struct PlainInfo {
    pub major_version: u16,
    pub minor_version: u16,
    pub guid: Seq<u8>,
    pub width: u16,
    pub height: u16,
    pub transparent_index: u8,
    pub flags: u32,
    pub palette: Seq<Rgb>,
    pub localized: LocalizedModel,
}

impl CharacterInfo {
    /// The info is plain, and this is its value.
    pub open spec fn is_plain(&self, p: PlainInfo) -> bool {
        &&& self.major_version == p.major_version
        &&& self.minor_version == p.minor_version
        &&& self.guid@ == p.guid
        &&& self.width == p.width
        &&& self.height == p.height
        &&& self.transparent_index == p.transparent_index
        &&& self.flags == p.flags
        &&& self.voice is None
        &&& self.balloon is None
        &&& self.palette@ == p.palette
        &&& self.states@.len() == 0
        &&& self.localized@.len() == 1
        &&& self.localized@[0]@ == p.localized
    }
}

/// The entry for a primary language from `i` on: the first whose low ten bits
/// are that language.
pub open spec fn entry_for(localized: Seq<LocalizedInfo>, primary: u16, i: int) -> Option<int>
    decreases localized.len() - i,
{
    if i < 0 || i >= localized.len() {
        None
    } else if localized[i].language_id % 1024 == primary {
        Some(i)
    } else {
        entry_for(localized, primary, i + 1)
    }
}

/// The entry to show: the one for the wanted primary language, or else the
/// first.
pub open spec fn shown_entry(localized: Seq<LocalizedInfo>, primary: Option<u16>) -> Option<int> {
    let first = if localized.len() > 0 {
        Some(0)
    } else {
        None
    };
    match primary {
        Some(p) => match entry_for(localized, p, 0) {
            Some(i) => Some(i),
            None => first,
        },
        None => first,
    }
}

impl CharacterInfo {
    fn entry(&self, primary: Option<u16>) -> (r: Option<&LocalizedInfo>)
        ensures
            match r {
                Some(l) => shown_entry(self.localized@, primary) matches Some(i)
                    && 0 <= i < self.localized@.len() && *l == self.localized@[i],
                None => shown_entry(self.localized@, primary) is None,
            },
    {
        if let Some(p) = primary {
            let mut i: usize = 0;
            while i < self.localized.len()
                invariant
                    i <= self.localized@.len(),
                    primary == Some(p),
                    entry_for(self.localized@, p, 0) == entry_for(self.localized@, p, i as int),
                decreases self.localized@.len() - i,
            {
                if self.localized[i].language_id % 1024 == p {
                    return Some(&self.localized[i]);
                }
                i += 1;
            }
        }
        if self.localized.len() > 0 {
            Some(&self.localized[0])
        } else {
            None
        }
    }

    /// The character's name in a primary language, or in the first there is.
    pub fn name_for(&self, primary: Option<u16>) -> (r: Option<&str>)
        ensures
            match r {
                Some(s) => shown_entry(self.localized@, primary) matches Some(i) && s@
                    == self.localized@[i].name@,
                None => shown_entry(self.localized@, primary) is None,
            },
    {
        match self.entry(primary) {
            Some(l) => Some(l.name.as_str()),
            None => None,
        }
    }

    /// The character's description in a primary language, or in the first
    /// there is.
    pub fn description_for(&self, primary: Option<u16>) -> (r: Option<&str>)
        ensures
            match r {
                Some(s) => shown_entry(self.localized@, primary) matches Some(i) && s@
                    == self.localized@[i].description@,
                None => shown_entry(self.localized@, primary) is None,
            },
    {
        match self.entry(primary) {
            Some(l) => Some(l.description.as_str()),
            None => None,
        }
    }
}

/// A palette image, stored bottom row first.
#[derive(Debug)]
pub struct IndexedImage {
    pub width: u16,
    pub height: u16,
    pub pixels: Vec<u8>,
}

/// The value of an [`IndexedImage`].
pub struct IndexedModel {
    pub width: u16,
    pub height: u16,
    pub pixels: Seq<u8>,
}

impl View for IndexedImage {
    type V = IndexedModel;

    open spec fn view(&self) -> IndexedModel {
        IndexedModel { width: self.width, height: self.height, pixels: self.pixels@ }
    }
}

/// The values of some images.
pub open spec fn image_models(s: Seq<IndexedImage>) -> Seq<IndexedModel> {
    Seq::new(s.len(), |i: int| s[i]@)
}

/// The values of some sounds.
pub open spec fn sound_models(s: Seq<Vec<u8>>) -> Seq<Seq<u8>> {
    Seq::new(s.len(), |i: int| s[i]@)
}

/// Bytes per row of a palette image: the width, padded to a multiple of four.
pub open spec fn row_bytes(width: u16) -> nat {
    ((width + 3) / 4 * 4) as nat
}

/// Bytes per row of a palette image.
pub fn stride_for(width: u16) -> (r: usize)
    ensures
        r == row_bytes(width),
{
    (width as usize + 3) / 4 * 4
}

/// A straight-alpha picture, four bytes per pixel.
#[derive(Debug)]
pub struct RgbaImage {
    pub width: u32,
    pub height: u32,
    pub data: Vec<u8>,
}

impl RgbaImage {
    /// The data holds every row in full.
    pub open spec fn wf(&self) -> bool {
        self.width * 4 * self.height == self.data@.len()
    }

    /// Bytes per row.
    pub fn stride(&self) -> (r: usize)
        requires
            self.width * 4 <= usize::MAX,
        ensures
            r == self.width * 4,
    {
        self.width as usize * 4
    }
}

/// The mouths by their stored numbers, and no others.
pub proof fn mouths_go_by_number(v: u8)
    ensures
        MouthShape::numbered(0) == Some(MouthShape::Closed),
        MouthShape::numbered(1) == Some(MouthShape::WideOpen1),
        MouthShape::numbered(2) == Some(MouthShape::WideOpen2),
        MouthShape::numbered(3) == Some(MouthShape::WideOpen3),
        MouthShape::numbered(4) == Some(MouthShape::WideOpen4),
        MouthShape::numbered(5) == Some(MouthShape::Medium),
        MouthShape::numbered(6) == Some(MouthShape::Narrow),
        v > 6 ==> MouthShape::numbered(v) is None,
{
}

/// A row of a palette image is the least multiple of four bytes that holds its
/// pixels.
pub proof fn rows_are_padded(width: u16)
    ensures
        row_bytes(width) % 4 == 0,
        width <= row_bytes(width) < width + 4,
{
}

/// Frames last ten milliseconds for each count of their duration, and an
/// animation as long as its frames together.
pub proof fn durations_add_up(frames: Seq<Frame>, n: nat)
    requires
        n < frames.len(),
    ensures
        frames[n as int].spec_duration_ms() == frames[n as int].duration * 10,
        total_ms(frames, 0) == 0,
        total_ms(frames, n + 1) == total_ms(frames, n) + frames[n as int].duration * 10,
{
}

/// The entry that is shown is the first in the wanted language, which the low
/// ten bits of its number give; where there is none, it is the first of all.
pub proof fn the_wanted_language_is_shown(localized: Seq<LocalizedInfo>, primary: Option<u16>)
    ensures
        localized.len() == 0 <==> shown_entry(localized, primary) is None,
        shown_entry(localized, primary) matches Some(i) ==> {
            &&& 0 <= i < localized.len()
            &&& primary is None ==> i == 0
            &&& primary matches Some(p) ==> {
                let fits = |k: int| localized[k].language_id % 1024 == p;
                ||| fits(i) && forall|k: int| 0 <= k < i ==> !#[trigger] fits(k)
                ||| i == 0 && forall|k: int| 0 <= k < localized.len() ==> !#[trigger] fits(k)
            }
        },
{
    if let Some(p) = primary {
        entry_is_first(localized, p, 0);
        let fits = |k: int| localized[k].language_id % 1024 == p;
        match entry_for(localized, p, 0) {
            Some(i) => {
                assert(fits(i));
                assert forall|k: int| 0 <= k < i implies !#[trigger] fits(k) by {
                    assert(localized[k].language_id % 1024 != p);
                }
            },
            None => {
                assert forall|k: int| 0 <= k < localized.len() implies !#[trigger] fits(k) by {
                    assert(localized[k].language_id % 1024 != p);
                }
            },
        }
    }
}

proof fn entry_is_first(localized: Seq<LocalizedInfo>, p: u16, i: int)
    requires
        0 <= i,
    ensures
        match entry_for(localized, p, i) {
            Some(k) => {
                &&& i <= k < localized.len()
                &&& localized[k].language_id % 1024 == p
                &&& forall|j: int| i <= j < k ==> (#[trigger] localized[j]).language_id % 1024 != p
            },
            None => forall|j: int|
                i <= j < localized.len() ==> (#[trigger] localized[j]).language_id % 1024 != p,
        },
    decreases localized.len() - i,
{
    if i < localized.len() {
        entry_is_first(localized, p, i + 1);
    }
}

/// The value of a frame tells all of it, and the value of an animation tells its
/// name and every frame.
pub proof fn animations_are_told_in_full(all: Seq<Animation>, i: int, k: int)
    requires
        0 <= i < all.len(),
        0 <= k < all[i].frames@.len(),
    ensures
        animation_models(all).len() == all.len(),
        animation_models(all)[i].name == all[i].name@,
        animation_models(all)[i].transition == all[i].transition,
        animation_models(all)[i].return_animation == all[i].return_animation@,
        animation_models(all)[i].frames.len() == all[i].frames@.len(),
        ({
            let told = animation_models(all)[i].frames[k];
            let frame = all[i].frames@[k];
            &&& told.images == frame.images@
            &&& told.audio_index == frame.audio_index
            &&& told.duration == frame.duration
            &&& told.exit_frame == frame.exit_frame
            &&& told.branches == frame.branches@
            &&& told.overlays == frame.overlays@
        }),
{
}

/// The values of pictures and sounds tell all of them, in their order.
pub proof fn pictures_and_sounds_are_told_in_full(
    images: Seq<IndexedImage>,
    sounds: Seq<Vec<u8>>,
    i: int,
)
    ensures
        image_models(images).len() == images.len(),
        sound_models(sounds).len() == sounds.len(),
        0 <= i < images.len() ==> image_models(images)[i].width == images[i].width && image_models(
            images,
        )[i].height == images[i].height && image_models(images)[i].pixels == images[i].pixels@,
        0 <= i < sounds.len() ==> sound_models(sounds)[i] == sounds[i]@,
{
}

/// A plain character has what its value tells, in the one language that it tells
/// of, and neither voice nor balloon settings nor states.
pub proof fn plain_characters_are_told_in_full(info: CharacterInfo, p: PlainInfo)
    requires
        info.is_plain(p),
    ensures
        info.major_version == p.major_version && info.minor_version == p.minor_version,
        info.guid@ == p.guid,
        info.width == p.width && info.height == p.height,
        info.transparent_index == p.transparent_index && info.flags == p.flags,
        info.palette@ == p.palette,
        info.voice is None && info.balloon is None,
        info.states@.len() == 0,
        info.localized@.len() == 1,
        info.localized@[0].language_id == p.localized.language_id,
        info.localized@[0].name@ == p.localized.name,
        info.localized@[0].description@ == p.localized.description,
        info.localized@[0].extra@ == p.localized.extra,
{
}

} // verus!
