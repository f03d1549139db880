//! Animation playback: frame timing, branching and exit sequences.
use std::rc::Rc;

use vstd::prelude::*;

use crate::character::Character;
use crate::error::Error;
use crate::types::{Animation, Branch, Frame, MouthShape, RgbaImage};

verus! {

/// Guards against frames with a zero duration chaining forever in one tick.
pub const MAX_STEPS_PER_TICK: u32 = 64;

/// What happened during one advance of the clock.
#[derive(Debug)]
pub struct Tick {
    /// The displayed frame changed and the stage needs a new texture.
    pub frame_changed: bool,
    /// A sound the new frame asks to play, as an index into the audio table.
    pub sound: Option<usize>,
    /// The animation ran to its end and playback stopped.
    pub finished: bool,
}

/// Nothing happened.
pub open spec fn quiet() -> Tick {
    Tick { frame_changed: false, sound: None, finished: false }
}

impl Default for Tick {
    fn default() -> (r: Tick)
        ensures
            r == quiet(),
    {
        Tick { frame_changed: false, sound: None, finished: false }
    }
}

/// Plays the animations of a character.
pub struct Player {
    character: Rc<Character>,
    animation: Option<usize>,
    frame: usize,
    elapsed_us: u64,
    playing: bool,
    looping: bool,
    /// xorshift state, so branch probabilities do not need a crate.
    rng: u64,
}

/// The value of a [`Player`].
pub struct Playback {
    pub character: Character,
    pub animation: Option<usize>,
    pub frame: usize,
    pub elapsed_us: u64,
    pub playing: bool,
    pub looping: bool,
    pub rng: u64,
}

impl View for Player {
    type V = Playback;

    closed spec fn view(&self) -> Playback {
        Playback {
            character: *self.character,
            animation: self.animation,
            frame: self.frame,
            elapsed_us: self.elapsed_us,
            playing: self.playing,
            looping: self.looping,
            rng: self.rng,
        }
    }
}

/// The longest a frame can stay on screen, in microseconds.
pub const LONGEST_FRAME_US: u64 = 655_350_000;

/// The state of the random numbers after one more of them.
pub open spec fn stirred(x: u64) -> u64 {
    let a = x ^ (x >> 12);
    let b = a ^ (a << 25);
    b ^ (b >> 27)
}

/// The random number below `modulo` that a state stands for.
pub open spec fn drawn(x: u64, modulo: u32) -> u32 {
    ((x.wrapping_mul(0x2545_F491_4F6C_DD1D) >> 33) % (modulo as u64)) as u32
}

/// The random numbers never run dry: a state that is not zero stays so.
pub proof fn stirring_keeps_the_state_alive(x: u64)
    requires
        x != 0,
    ensures
        stirred(x) != 0,
{
    let a = x ^ (x >> 12);
    assert(a != 0) by (bit_vector)
        requires
            x != 0,
            a == x ^ (x >> 12),
    ;
    let b = a ^ (a << 25);
    assert(b != 0) by (bit_vector)
        requires
            a != 0,
            b == a ^ (a << 25),
    ;
    let c = b ^ (b >> 27);
    assert(c != 0) by (bit_vector)
        requires
            b != 0,
            c == b ^ (b >> 27),
    ;
}

/// The branch a roll takes: the first one up to which the probabilities add up
/// to the roll, counted from `n` on with `acc` already added up.
pub open spec fn taken(branches: Seq<Branch>, n: int, acc: int, roll: int) -> Option<int>
    decreases branches.len() - n,
{
    if n < 0 || n >= branches.len() {
        None
    } else if roll <= acc + branches[n].probability {
        Some(n)
    } else {
        taken(branches, n + 1, acc + branches[n].probability, roll)
    }
}

/// A roll takes exactly the branch whose share of the percentages it falls in.
pub proof fn a_roll_falls_in_its_share(branches: Seq<Branch>, n: int, acc: int, roll: int)
    requires
        0 <= n <= branches.len(),
        acc < roll,
    ensures
        match taken(branches, n, acc, roll) {
            Some(k) => {
                &&& n <= k < branches.len()
                &&& acc + probabilities(branches, n, k) < roll
                &&& roll <= acc + probabilities(branches, n, k + 1)
            },
            None => acc + probabilities(branches, n, branches.len() as int) < roll,
        },
    decreases branches.len() - n,
{
    if n < branches.len() {
        let p = branches[n].probability as int;
        if roll <= acc + p {
            assert(probabilities(branches, n, n + 1) == p) by {
                assert(probabilities(branches, n, n) == 0);
            }
        } else {
            a_roll_falls_in_its_share(branches, n + 1, acc + p, roll);
            match taken(branches, n + 1, acc + p, roll) {
                Some(k) => {
                    probabilities_split(branches, n, k);
                    probabilities_split(branches, n, k + 1);
                },
                None => {
                    probabilities_split(branches, n, branches.len() as int);
                },
            }
        }
    }
}

/// The probabilities of the branches from `from` up to `to`, added up.
pub open spec fn probabilities(branches: Seq<Branch>, from: int, to: int) -> int
    decreases to - from,
{
    if from >= to {
        0
    } else {
        probabilities(branches, from, to - 1) + branches[to - 1].probability
    }
}

proof fn probabilities_split(branches: Seq<Branch>, from: int, to: int)
    requires
        from < to,
    ensures
        probabilities(branches, from, to) == branches[from].probability + probabilities(
            branches,
            from + 1,
            to,
        ),
    decreases to - from,
{
    if from + 1 < to {
        probabilities_split(branches, from, to - 1);
    } else {
        assert(probabilities(branches, from, from) == 0);
    }
}

impl Playback {
    /// The animation that is selected, if the character has it.
    pub open spec fn current_animation(self) -> Option<Animation> {
        match self.animation {
            Some(i) => if i < self.character.animations@.len() {
                Some(self.character.animations@[i as int])
            } else {
                None
            },
            None => None,
        }
    }

    /// The frames of the selected animation.
    pub open spec fn frames(self) -> Seq<Frame> {
        match self.current_animation() {
            Some(a) => a.frames@,
            None => Seq::empty(),
        }
    }

    /// The frame on screen.
    pub open spec fn current_frame(self) -> Option<Frame> {
        if self.frame < self.frames().len() {
            Some(self.frames()[self.frame as int])
        } else {
            None
        }
    }

    /// The sound that the frame on screen plays.
    pub open spec fn current_sound(self) -> Option<usize> {
        match self.current_frame() {
            Some(f) => match f.audio_index {
                Some(i) => Some(i as usize),
                None => None,
            },
            None => None,
        }
    }

    /// The frame on screen is one of the animation's, or the first of none;
    /// only an animation with frames plays; a frame's time is not up for
    /// longer than it can stay; and the random numbers have not run dry.
    pub open spec fn wf(self) -> bool {
        &&& self.frame < self.frames().len() || self.frame == 0
        &&& self.playing ==> self.frames().len() > 0
        &&& self.elapsed_us < LONGEST_FRAME_US
        &&& self.rng != 0
    }

    /// The branch that the frame on screen takes, if it takes one that leads to
    /// a frame.
    pub open spec fn jump(self) -> Option<usize> {
        match self.current_frame() {
            Some(f) => {
                let roll = drawn(stirred(self.rng), 100) + 1;
                match taken(f.branches@, 0, 0, roll) {
                    Some(k) => if f.branches@[k].frame_index < self.frames().len() {
                        Some(f.branches@[k].frame_index as usize)
                    } else {
                        None
                    },
                    None => None,
                }
            },
            None => None,
        }
    }

    /// The frame has branches to choose from.
    pub open spec fn branches(self) -> bool {
        self.current_frame() matches Some(f) && f.branches@.len() > 0
    }

    /// The frame to show next: where a branch leads, or the one after, or the
    /// first again when looping. `None` when the animation is over.
    pub open spec fn next(self) -> Option<usize> {
        if self.branches() && self.jump() is Some {
            self.jump()
        } else if self.frame + 1 < self.frames().len() {
            Some((self.frame + 1) as usize)
        } else if self.looping {
            Some(0)
        } else {
            None
        }
    }

    /// The random state after choosing the next frame.
    pub open spec fn next_rng(self) -> u64 {
        if self.branches() {
            stirred(self.rng)
        } else {
            self.rng
        }
    }

    /// The time that the frame on screen is due for, in microseconds.
    pub open spec fn due_us(self) -> int {
        match self.current_frame() {
            Some(f) => f.duration * 10_000,
            None => 0,
        }
    }

    /// The frame on screen stays for now. A frame without duration never does.
    pub open spec fn rests(self) -> bool {
        self.current_frame() is None || (self.due_us() > 0 && self.elapsed_us < self.due_us())
    }

    /// The same with another time on the clock.
    pub open spec fn at_time(self, us: int) -> Playback {
        Playback { elapsed_us: us as u64, ..self }
    }

    /// Once the time of the frame on screen is up: the time left over.
    pub open spec fn left_over(self) -> int {
        if self.elapsed_us >= self.due_us() {
            self.elapsed_us - self.due_us()
        } else {
            0
        }
    }

    /// Moves on to a frame, keeping the time left over.
    pub open spec fn moved(self, frame: usize) -> Playback {
        Playback { frame, rng: self.next_rng(), ..self.at_time(self.left_over()) }
    }

    /// Stops at the end of the animation.
    pub open spec fn ended(self) -> Playback {
        Playback { playing: false, rng: self.next_rng(), ..self.at_time(0) }
    }

    /// Whether moving on `steps` times so far and on hits the limit.
    pub open spec fn overruns(self, steps: nat) -> bool
        decreases 65 - steps,
    {
        if self.rests() || steps > 64 {
            false
        } else if steps == 64 {
            true
        } else {
            match self.next() {
                Some(f) => self.moved(f).overruns(steps + 1),
                None => false,
            }
        }
    }

    /// Moves on while time is up, at most `64 - steps` times. A sound that a
    /// later frame asks for replaces an earlier one.
    pub open spec fn advanced(self, tick: Tick, steps: nat) -> (Playback, Tick)
        decreases 65 - steps,
    {
        if self.rests() || steps > 64 {
            (self, tick)
        } else if steps == 64 {
            (self.at_time(0), tick)
        } else {
            match self.next() {
                Some(f) => {
                    let there = self.moved(f);
                    there.advanced(
                        Tick {
                            frame_changed: true,
                            sound: if there.current_sound() is Some {
                                there.current_sound()
                            } else {
                                tick.sound
                            },
                            finished: tick.finished,
                        },
                        steps + 1,
                    )
                },
                None => (self.ended(), Tick { finished: true, ..tick }),
            }
        }
    }

    /// An animation selected, at its first frame, and playing if it has any.
    pub open spec fn selected(self, index: usize) -> Playback {
        let chosen = Playback { animation: Some(index), frame: 0, elapsed_us: 0, ..self };
        Playback { playing: chosen.frames().len() > 0, ..chosen }
    }

    /// Looping set.
    pub open spec fn looped(self, looping: bool) -> Playback {
        Playback { looping, ..self }
    }

    /// Playing, if there is anything to play.
    pub open spec fn started(self) -> Playback {
        Playback { playing: self.playing || self.frames().len() > 0, ..self }
    }

    /// Paused where it is.
    pub open spec fn paused(self) -> Playback {
        Playback { playing: false, ..self }
    }

    /// Stopped, at the first frame.
    pub open spec fn stopped(self) -> Playback {
        Playback { playing: false, frame: 0, elapsed_us: 0, ..self }
    }

    /// At a frame, if the animation has it.
    pub open spec fn sought(self, frame: usize) -> Playback {
        if frame < self.frames().len() {
            Playback { frame, elapsed_us: 0, ..self }
        } else {
            self
        }
    }

    /// The frame to play out from, if the frame on screen names one.
    pub open spec fn way_out(self) -> Option<usize> {
        match self.current_frame() {
            Some(f) => if 0 <= f.exit_frame < self.frames().len() {
                Some(f.exit_frame as usize)
            } else {
                None
            },
            None => None,
        }
    }

    /// What `us` microseconds do.
    pub open spec fn after(self, us: int) -> (Playback, Tick) {
        if !self.playing || self.frames().len() == 0 {
            (self, quiet())
        } else {
            self.at_time(self.elapsed_us + us).advanced(quiet(), 0)
        }
    }
}

/// A moment of the system clock.
#[verifier::external_type_specification]
#[verifier::external_body]
pub struct ExSystemTime(std::time::SystemTime);

/// Calls `SystemTime::now`. Nothing is said of what the clock shows.
#[verifier::external_body]
fn now() -> std::time::SystemTime {
    std::time::SystemTime::now()
}

/// Calls `SystemTime::duration_since` with the Unix epoch. Nothing is said of
/// the result, and there is none for a clock that stands before the epoch.
#[verifier::external_body]
fn since_epoch(time: std::time::SystemTime) -> Option<std::time::Duration> {
    time.duration_since(std::time::UNIX_EPOCH).ok()
}

/// Calls `Duration::as_nanos`. Nothing is said of the number.
#[verifier::external_body]
fn as_nanos(span: std::time::Duration) -> u128 {
    span.as_nanos()
}

/// The random state that a clock reading in nanoseconds gives; without one, a
/// fixed number stands in. It is never zero.
pub open spec fn seed_of(nanos: Option<u64>) -> u64 {
    match nanos {
        Some(n) => n | 1,
        None => 0x2545_F491_4F6C_DD1D,
    }
}

impl Player {
    /// The playback can go on from here.
    pub open spec fn wf(&self) -> bool {
        self@.wf()
    }

    /// A player with nothing selected, its random numbers seeded by the clock.
    pub fn new(character: Rc<Character>) -> (r: Player)
        ensures
            r.wf(),
            exists|nanos: Option<u64>|
                r@ == (Playback {
                    character: *character,
                    animation: None,
                    frame: 0,
                    elapsed_us: 0,
                    playing: false,
                    looping: true,
                    rng: #[trigger] seed_of(nanos),
                }),
    {
        let nanos: Option<u64> = match since_epoch(now()) {
            Some(d) => Some(as_nanos(d) as u64),
            None => None,
        };
        Player::with_seed(character, nanos)
    }

    /// A player with nothing selected, its random numbers seeded by a clock
    /// reading in nanoseconds.
    pub fn with_seed(character: Rc<Character>, nanos: Option<u64>) -> (r: Player)
        ensures
            r.wf(),
            r@ == (Playback {
                character: *character,
                animation: None,
                frame: 0,
                elapsed_us: 0,
                playing: false,
                looping: true,
                rng: seed_of(nanos),
            }),
    {
        let rng: u64 = match nanos {
            Some(n) => n | 1,
            None => 0x2545_F491_4F6C_DD1D,
        };
        proof {
            if let Some(n) = nanos {
                assert(n | 1 != 0) by (bit_vector);
            }
        }
        Player {
            character,
            animation: None,
            frame: 0,
            elapsed_us: 0,
            playing: false,
            looping: true,
            rng,
        }
    }

    /// The character that plays.
    pub fn character(&self) -> (r: &Rc<Character>)
        ensures
            **r == self@.character,
    {
        &self.character
    }

    /// The number of the selected animation.
    pub fn animation_index(&self) -> (r: Option<usize>)
        ensures
            r == self@.animation,
    {
        self.animation
    }

    /// The number of the frame on screen.
    pub fn frame_index(&self) -> (r: usize)
        ensures
            r == self@.frame,
    {
        self.frame
    }

    /// Whether time moves the animation on.
    pub fn is_playing(&self) -> (r: bool)
        ensures
            r == self@.playing,
    {
        self.playing
    }

    /// Whether the animation starts over at its end.
    pub fn is_looping(&self) -> (r: bool)
        ensures
            r == self@.looping,
    {
        self.looping
    }

    /// Sets whether the animation starts over at its end.
    pub fn set_looping(&mut self, looping: bool)
        requires
            old(self).wf(),
        ensures
            final(self).wf(),
            final(self)@ == old(self)@.looped(looping),
    {
        self.looping = looping;
    }

    /// The number of frames of the selected animation.
    pub fn frame_count(&self) -> (r: usize)
        ensures
            r == self@.frames().len(),
    {
        match self.current_animation() {
            Some(a) => a.frames.len(),
            None => 0,
        }
    }

    /// The selected animation, if the character has it.
    pub fn current_animation(&self) -> (r: Option<&Animation>)
        ensures
            match r {
                Some(a) => self@.current_animation() == Some(*a),
                None => self@.current_animation() is None,
            },
    {
        match self.animation {
            Some(i) => if i < self.character.animations.len() {
                Some(&self.character.animations[i])
            } else {
                None
            },
            None => None,
        }
    }

    fn current_frame(&self) -> (r: Option<&Frame>)
        ensures
            match r {
                Some(f) => self@.current_frame() == Some(*f),
                None => self@.current_frame() is None,
            },
    {
        match self.current_animation() {
            Some(a) => if self.frame < a.frames.len() {
                Some(&a.frames[self.frame])
            } else {
                None
            },
            None => None,
        }
    }

    fn current_sound(&self) -> (r: Option<usize>)
        ensures
            r == self@.current_sound(),
    {
        match self.current_frame() {
            Some(f) => match f.audio_index {
                Some(i) => Some(i as usize),
                None => None,
            },
            None => None,
        }
    }

    /// Selects an animation and rewinds to its first frame. Returns the sound
    /// the first frame plays, if any.
    pub fn select(&mut self, index: usize) -> (r: Option<usize>)
        requires
            old(self).wf(),
        ensures
            final(self).wf(),
            final(self)@ == old(self)@.selected(index),
            r == final(self)@.current_sound(),
    {
        self.animation = Some(index);
        self.frame = 0;
        self.elapsed_us = 0;
        self.playing = self.frame_count() > 0;
        self.current_sound()
    }

    /// Starts playing, if there is anything to play.
    pub fn play(&mut self)
        requires
            old(self).wf(),
        ensures
            final(self).wf(),
            final(self)@ == old(self)@.started(),
    {
        if self.frame_count() > 0 {
            self.playing = true;
        }
    }

    /// Stops where it is.
    pub fn pause(&mut self)
        requires
            old(self).wf(),
        ensures
            final(self).wf(),
            final(self)@ == (Playback { playing: false, ..old(self)@ }),
            final(self)@ == old(self)@.paused(),
    {
        self.playing = false;
    }

    /// Stops and returns to the first frame.
    pub fn stop(&mut self)
        requires
            old(self).wf(),
        ensures
            final(self).wf(),
            final(self)@ == (Playback { playing: false, frame: 0, elapsed_us: 0, ..old(self)@ }),
            final(self)@ == old(self)@.stopped(),
    {
        self.playing = false;
        self.frame = 0;
        self.elapsed_us = 0;
    }

    /// Jumps to the animation's exit frame so it can play out gracefully.
    /// Returns false when the animation has no exit sequence.
    pub fn exit(&mut self) -> (r: bool)
        requires
            old(self).wf(),
        ensures
            final(self).wf(),
            r == (old(self)@.current_frame() matches Some(f) && 0 <= f.exit_frame < old(
                self,
            )@.frames().len()),
            final(self)@ == (if r {
                Playback {
                    frame: old(self)@.current_frame()->Some_0.exit_frame as usize,
                    elapsed_us: 0,
                    playing: true,
                    ..old(self)@
                }
            } else {
                old(self)@
            }),
            r == (old(self)@.way_out() is Some),
            old(self)@.way_out() matches Some(k) ==> final(self)@ == old(self)@.sought(
                k,
            ).started(),
    {
        let exit: i16 = match self.current_frame() {
            Some(f) => f.exit_frame,
            None => return false,
        };
        if exit < 0 || exit as usize >= self.frame_count() {
            return false;
        }
        self.frame = exit as usize;
        self.elapsed_us = 0;
        self.playing = true;
        true
    }

    /// Shows a frame, if the animation has it.
    pub fn seek(&mut self, frame: usize)
        requires
            old(self).wf(),
        ensures
            final(self).wf(),
            final(self)@ == (if frame < old(self)@.frames().len() {
                Playback { frame, elapsed_us: 0, ..old(self)@ }
            } else {
                old(self)@
            }),
            final(self)@ == old(self)@.sought(frame),
    {
        if frame < self.frame_count() {
            self.frame = frame;
            self.elapsed_us = 0;
        }
    }

    fn next_random(&mut self, modulo: u32) -> (r: u32)
        requires
            modulo > 0,
            old(self).rng != 0,
        ensures
            final(self)@ == (Playback { rng: stirred(old(self)@.rng), ..old(self)@ }),
            r == drawn(stirred(old(self)@.rng), modulo),
            r < modulo,
            final(self).rng != 0,
    {
        proof {
            stirring_keeps_the_state_alive(self.rng);
        }
        self.rng = self.rng ^ (self.rng >> 12);
        self.rng = self.rng ^ (self.rng << 25);
        self.rng = self.rng ^ (self.rng >> 27);
        let v: u64 = self.rng.wrapping_mul(0x2545_F491_4F6C_DD1D);
        ((v >> 33) % (modulo as u64)) as u32
    }

    /// Picks the frame to show next, honouring branch probabilities. Returns
    /// `None` when the animation is over.
    fn next_frame(&mut self) -> (r: Option<usize>)
        requires
            old(self).rng != 0,
            old(self)@.frame < old(self)@.frames().len(),
        ensures
            r == old(self)@.next(),
            final(self)@ == (Playback { rng: old(self)@.next_rng(), ..old(self)@ }),
            r matches Some(f) ==> f < old(self)@.frames().len(),
            final(self).rng != 0,
    {
        let ghost before = self@;
        let count = self.frame_count();
        let has_branches = match self.current_frame() {
            Some(f) => f.branches.len() > 0,
            None => false,
        };
        if has_branches {
            let roll: u32 = self.next_random(100) + 1;
            if let Some(target) = self.branch_for(roll) {
                if target < count {
                    return Some(target);
                }
            }
        }
        let next: usize = self.frame + 1;
        if next < count {
            return Some(next);
        }
        if self.looping {
            return Some(0);
        }
        None
    }

    /// The frame that the branch for a roll leads to.
    fn branch_for(&self, roll: u32) -> (r: Option<usize>)
        requires
            1 <= roll <= 100,
        ensures
            match self@.current_frame() {
                Some(f) => r == (match taken(f.branches@, 0, 0, roll as int) {
                    Some(k) => Some(f.branches@[k].frame_index as usize),
                    None => None,
                }),
                None => r is None,
            },
    {
        match self.current_frame() {
            Some(f) => {
                let mut acc: u32 = 0;
                let mut n: usize = 0;
                while n < f.branches.len()
                    invariant
                        n <= f.branches@.len(),
                        acc < roll <= 100,
                        taken(f.branches@, 0, 0, roll as int) == taken(
                            f.branches@,
                            n as int,
                            acc as int,
                            roll as int,
                        ),
                        self@.current_frame() == Some(*f),
                    decreases f.branches@.len() - n,
                {
                    let b = f.branches[n];
                    acc = acc + b.probability as u32;
                    if roll <= acc {
                        return Some(b.frame_index as usize);
                    }
                    n += 1;
                }
                None
            },
            None => None,
        }
    }

    /// Advances playback by `dt_us` microseconds.
    pub fn advance(&mut self, dt_us: u64) -> (r: Tick)
        requires
            old(self).wf(),
            old(self)@.playing ==> old(self)@.elapsed_us + dt_us <= u64::MAX,
        ensures
            final(self).wf(),
            (final(self)@, r) == old(self)@.after(dt_us as int),
    {
        let mut tick = Tick::default();
        if !self.playing || self.frame_count() == 0 {
            return tick;
        }
        let ghost goal = self@.after(dt_us as int);
        self.elapsed_us = self.elapsed_us + dt_us;
        let mut steps: u32 = 0;
        loop
            invariant_except_break
                self@.advanced(tick, steps as nat) == goal,
                self@.frame < self@.frames().len(),
            invariant
                steps <= 64,
                self.rng != 0,
            ensures
                self@.wf(),
                (self@, tick) == goal,
            decreases 65 - steps,
        {
            let due_us: u64 = match self.current_frame() {
                Some(f) => f.duration_ms() * 1000,
                None => {
                    break;
                },
            };
            // A zero-duration frame advances immediately.
            if due_us > 0 && self.elapsed_us < due_us {
                break;
            }
            let ghost here = self@;
            if steps == MAX_STEPS_PER_TICK {
                self.elapsed_us = 0;
                break;
            }
            self.elapsed_us = self.elapsed_us - due_us;
            steps += 1;
            let ghost there = self@;
            assert(there.next() == here.next());
            match self.next_frame() {
                Some(next) => {
                    self.frame = next;
                    assert(self@ == here.moved(next));
                    tick.frame_changed = true;
                    if let Some(sound) = self.current_sound() {
                        tick.sound = Some(sound);
                    }
                },
                None => {
                    self.playing = false;
                    tick.finished = true;
                    self.elapsed_us = 0;
                    assert(self@ == here.ended());
                    break;
                },
            }
        }
        tick
    }

    /// Composites the current frame, substituting `mouth` where the frame
    /// provides overlays. `draw` composites a frame of the character.
    pub fn render<D: Fn(&Character, &Frame, Option<MouthShape>) -> Result<RgbaImage, Error>>(
        &self,
        mouth: Option<MouthShape>,
        draw: &D,
    ) -> (r: Option<RgbaImage>)
        requires
            self@.current_frame() matches Some(f) ==> call_requires(
                *draw,
                (&self@.character, &f, mouth),
            ),
        ensures
            match self@.current_frame() {
                Some(f) => exists|d: Result<RgbaImage, Error>|
                    {
                        &&& #[trigger] call_ensures(*draw, (&self@.character, &f, mouth), d)
                        &&& r == (match d {
                            Ok(image) => Some(image),
                            Err(_) => None,
                        })
                    },
                None => r is None,
            },
    {
        match self.current_frame() {
            Some(f) => match draw(&self.character, f, mouth) {
                Ok(image) => Some(image),
                Err(_) => None,
            },
            None => None,
        }
    }

    /// The first frame of an animation, if it has one.
    pub open spec fn first_frame(&self, index: usize) -> Option<Frame> {
        if index < self@.character.animations@.len()
            && self@.character.animations@[index as int].frames@.len() > 0 {
            Some(self@.character.animations@[index as int].frames@[0])
        } else {
            None
        }
    }

    /// Renders a still of the first frame of an animation, for previews.
    pub fn render_first_frame<
        D: Fn(&Character, &Frame, Option<MouthShape>) -> Result<RgbaImage, Error>,
    >(&self, index: usize, draw: &D) -> (r: Option<RgbaImage>)
        requires
            self.first_frame(index) matches Some(f) ==> call_requires(
                *draw,
                (&self@.character, &f, None::<MouthShape>),
            ),
        ensures
            match self.first_frame(index) {
                Some(f) => exists|d: Result<RgbaImage, Error>|
                    {
                        &&& #[trigger] call_ensures(
                            *draw,
                            (&self@.character, &f, None::<MouthShape>),
                            d,
                        )
                        &&& r == (match d {
                            Ok(image) => Some(image),
                            Err(_) => None,
                        })
                    },
                None => r is None,
            },
    {
        if index < self.character.animations.len() {
            let animation = &self.character.animations[index];
            if animation.frames.len() > 0 {
                return match draw(&self.character, &animation.frames[0], None) {
                    Ok(image) => Some(image),
                    Err(_) => None,
                };
            }
        }
        None
    }
}

/// Two ticks in a row as one. A later sound replaces an earlier one.
pub open spec fn both(first: Tick, second: Tick) -> Tick {
    Tick {
        frame_changed: first.frame_changed || second.frame_changed,
        sound: if second.sound is Some {
            second.sound
        } else {
            first.sound
        },
        finished: first.finished || second.finished,
    }
}

/// What has happened before adds to the tick and changes nothing else.
proof fn ticks_add_up(p: Playback, tick: Tick, steps: nat)
    ensures
        p.advanced(tick, steps).0 == p.advanced(quiet(), steps).0,
        p.advanced(tick, steps).1 == both(tick, p.advanced(quiet(), steps).1),
    decreases 65 - steps,
{
    if !p.rests() && steps < 64 {
        if let Some(f) = p.next() {
            let there = p.moved(f);
            let a = Tick {
                frame_changed: true,
                sound: if there.current_sound() is Some {
                    there.current_sound()
                } else {
                    tick.sound
                },
                finished: tick.finished,
            };
            let b = Tick {
                frame_changed: true,
                sound: there.current_sound(),
                finished: false,
            };
            ticks_add_up(there, a, steps + 1);
            ticks_add_up(there, b, steps + 1);
        }
    }
}

/// Away from the limit it does not matter how many steps went before.
proof fn steps_do_not_matter(p: Playback, tick: Tick, more: nat, fewer: nat)
    requires
        fewer <= more <= 64,
        !p.overruns(more),
    ensures
        !p.overruns(fewer),
        p.advanced(tick, fewer) == p.advanced(tick, more),
    decreases 65 - more,
{
    if !p.rests() && more < 64 {
        if let Some(f) = p.next() {
            let there = p.moved(f);
            let t = Tick {
                frame_changed: true,
                sound: if there.current_sound() is Some {
                    there.current_sound()
                } else {
                    tick.sound
                },
                finished: tick.finished,
            };
            steps_do_not_matter(there, t, more + 1, fewer + 1);
        }
    }
}

/// A run with more time on the clock starts with the run with less.
proof fn more_time_goes_on(p: Playback, us: int, tick: Tick, steps: nat)
    requires
        us >= 0,
        p.elapsed_us + us <= u64::MAX,
        steps <= 64,
        p.frame < p.frames().len(),
        p.playing,
        !p.at_time(p.elapsed_us + us).overruns(steps),
    ensures
        !p.overruns(steps),
        ({
            let (mid, t) = p.advanced(tick, steps);
            let whole = p.at_time(p.elapsed_us + us).advanced(tick, steps);
            if mid.playing {
                &&& !mid.at_time(mid.elapsed_us + us).overruns(0)
                &&& mid.frame < mid.frames().len()
                &&& whole == mid.at_time(mid.elapsed_us + us).advanced(t, 0)
            } else {
                whole == (mid, t)
            }
        }),
    decreases 65 - steps,
{
    let later = p.at_time(p.elapsed_us + us);
    if p.rests() {
        steps_do_not_matter(later, tick, steps, 0);
    } else {
        assert(!later.rests());
        assert(later.next() == p.next());
        assert(later.left_over() == p.left_over() + us);
        if let Some(f) = p.next() {
            let there = p.moved(f);
            let t = Tick {
                frame_changed: true,
                sound: if there.current_sound() is Some {
                    there.current_sound()
                } else {
                    tick.sound
                },
                finished: tick.finished,
            };
            assert(later.moved(f) == there.at_time(there.elapsed_us + us));
            assert(there.frames() == p.frames());
            assert(there.frame < there.frames().len());
            more_time_goes_on(there, us, t, steps + 1);
        } else {
            assert(later.ended() == p.ended());
        }
    }
}

/// How the clock is cut into ticks does not matter: advancing twice does what
/// advancing once by the sum does, as long as that one tick stays within the
/// limit on steps.
pub proof fn ticks_can_be_split(p: Playback, first: int, second: int)
    requires
        p.wf(),
        0 <= first,
        0 <= second,
        p.elapsed_us + first + second <= u64::MAX,
        !p.at_time(p.elapsed_us + first + second).overruns(0),
    ensures
        ({
            let (mid, t1) = p.after(first);
            let (end, t2) = mid.after(second);
            p.after(first + second) == (end, both(t1, t2))
        }),
{
    if p.playing && p.frames().len() > 0 {
        let q = p.at_time(p.elapsed_us + first);
        assert(q.at_time(q.elapsed_us + second) == p.at_time(p.elapsed_us + first + second));
        more_time_goes_on(q, second, quiet(), 0);
        let (mid, t1) = q.advanced(quiet(), 0);
        if mid.playing {
            ticks_add_up(mid.at_time(mid.elapsed_us + second), t1, 0);
        }
    }
}

/// While paused, time changes nothing.
pub proof fn pausing_stops_the_clock(p: Playback, us: int)
    requires
        !p.playing,
    ensures
        p.after(us) == (p, quiet()),
{
}

/// A frame stays on screen until its time is up.
pub proof fn a_frame_waits_its_time(p: Playback, us: int)
    requires
        p.wf(),
        p.playing,
        0 <= us,
        p.elapsed_us + us < p.due_us(),
    ensures
        p.after(us) == (p.at_time(p.elapsed_us + us), quiet()),
{
}

/// The probabilities of the first `k` branches, added up.
pub open spec fn share_before(branches: Seq<Branch>, k: nat) -> int
    decreases k,
{
    if k == 0 {
        0
    } else {
        share_before(branches, (k - 1) as nat) + branches[k - 1].probability
    }
}

proof fn roll_takes(branches: Seq<Branch>, n: nat, k: nat, roll: int)
    requires
        n <= k < branches.len(),
        share_before(branches, k) < roll <= share_before(branches, k + 1),
    ensures
        taken(branches, n as int, share_before(branches, n), roll) == Some(k as int),
    decreases k - n,
{
    if n < k {
        shares_grow(branches, n + 1, k);
        roll_takes(branches, n + 1, k, roll);
    }
}

proof fn shares_grow(branches: Seq<Branch>, a: nat, b: nat)
    requires
        a <= b,
    ensures
        share_before(branches, a) <= share_before(branches, b),
    decreases b,
{
    if a < b {
        shares_grow(branches, a, (b - 1) as nat);
    }
}

proof fn roll_misses(branches: Seq<Branch>, n: nat, roll: int)
    requires
        n <= branches.len(),
        share_before(branches, branches.len()) < roll,
    ensures
        taken(branches, n as int, share_before(branches, n), roll) is None,
    decreases branches.len() - n,
{
    if n < branches.len() {
        shares_grow(branches, n + 1, branches.len());
        roll_misses(branches, n + 1, roll);
    }
}

/// A roll is one of 1 to 100.
pub open spec fn roll_of(p: Playback) -> int {
    drawn(stirred(p.rng), 100) + 1
}

/// Every roll lies between 1 and 100, whatever the random state.
pub proof fn rolls_are_percentages(p: Playback)
    ensures
        1 <= roll_of(p) <= 100,
{
    let x = stirred(p.rng).wrapping_mul(0x2545_F491_4F6C_DD1D) >> 33;
    assert(x % 100 < 100);
}

/// A branch is honoured wherever its frame stands, on the last frame too, and
/// whether or not the animation loops: where the roll falls in the share of a
/// branch that leads to a frame there is, that frame comes next. One branch
/// that takes everything is always followed.
pub proof fn branches_are_honoured(p: Playback, f: Frame, k: nat)
    requires
        p.frame < p.frames().len(),
        f == p.frames()[p.frame as int],
        k < f.branches@.len(),
        f.branches@[k as int].frame_index < p.frames().len(),
        (share_before(f.branches@, k) < roll_of(p) <= share_before(f.branches@, k + 1)) || (k == 0
            && f.branches@[0].probability >= 100),
    ensures
        p.next() == Some(f.branches@[k as int].frame_index as usize),
{
    rolls_are_percentages(p);
    if k == 0 && f.branches@[0].probability >= 100 {
        assert(share_before(f.branches@, 0) == 0);
        assert(share_before(f.branches@, 1) == f.branches@[0].probability);
    }
    roll_takes(f.branches@, 0, k, roll_of(p));
    assert(share_before(f.branches@, 0) == 0);
}

/// Where no branch is taken, because there is none, or the roll is past all
/// shares, or the branch leads to no frame, the frame behind comes next; behind
/// the last one it is the first when looping, and otherwise the end.
pub proof fn frames_follow_one_another(p: Playback, f: Frame, k: nat)
    requires
        p.frame < p.frames().len(),
        f == p.frames()[p.frame as int],
        share_before(f.branches@, f.branches@.len()) < roll_of(p) || (k < f.branches@.len()
            && share_before(f.branches@, k) < roll_of(p) <= share_before(f.branches@, k + 1)
            && f.branches@[k as int].frame_index >= p.frames().len()),
    ensures
        p.next() == (if p.frame + 1 < p.frames().len() {
            Some((p.frame + 1) as usize)
        } else if p.looping {
            Some(0usize)
        } else {
            None
        }),
{
    assert(share_before(f.branches@, 0) == 0);
    if share_before(f.branches@, f.branches@.len()) < roll_of(p) {
        roll_misses(f.branches@, 0, roll_of(p));
    } else {
        roll_takes(f.branches@, 0, k, roll_of(p));
    }
}

/// When the time of a frame is up, the next one shows, with the time left over
/// on its clock, and its sound is asked for; where there is none, playback ends
/// on the frame that is on screen. Frames without branches roll no dice.
pub proof fn time_moves_the_animation_on(p: Playback, us: int, f: Frame)
    requires
        p.wf(),
        p.playing,
        f == p.frames()[p.frame as int],
        f.duration > 0,
        us >= 0,
        p.elapsed_us + us <= u64::MAX,
        f.duration * 10_000 <= p.elapsed_us + us,
        p.next() matches Some(n) ==> n < p.frames().len() && p.elapsed_us + us - f.duration * 10_000
            < p.frames()[n as int].duration * 10_000,
    ensures
        ({
            let left = p.elapsed_us + us - f.duration * 10_000;
            let rng = if f.branches@.len() > 0 {
                stirred(p.rng)
            } else {
                p.rng
            };
            p.after(us) == (match p.next() {
                Some(n) => (
                    Playback { frame: n, elapsed_us: left as u64, rng, ..p },
                    Tick {
                        frame_changed: true,
                        sound: match p.frames()[n as int].audio_index {
                            Some(i) => Some(i as usize),
                            None => None,
                        },
                        finished: false,
                    },
                ),
                None => (
                    Playback { playing: false, elapsed_us: 0, rng, ..p },
                    Tick { frame_changed: false, sound: None, finished: true },
                ),
            })
        }),
{
    let q = p.at_time(p.elapsed_us + us);
    assert(q.next() == p.next());
    assert(!q.rests());
    if let Some(n) = p.next() {
        let there = q.moved(n);
        assert(there.rests());
        let t = Tick { frame_changed: true, sound: there.current_sound(), finished: false };
        assert(there.advanced(t, 1) == (there, t));
        assert(q.advanced(quiet(), 0) == there.advanced(t, 1));
    }
}

/// Selecting an animation that the character has rewinds it and plays it;
/// pausing, playing on and looping leave the rest alone.
pub proof fn selecting_rewinds(p: Playback, index: usize)
    ensures
        p.selected(index).animation == Some(index),
        p.selected(index).frame == 0,
        p.selected(index).elapsed_us == 0,
        p.selected(index).character == p.character,
        p.selected(index).looping == p.looping,
        p.selected(index).rng == p.rng,
        p.selected(index).playing == (index < p.character.animations@.len()
            && p.character.animations@[index as int].frames@.len() > 0),
        p.started().playing == (p.playing || p.frames().len() > 0),
        p.started() == (Playback { playing: p.started().playing, ..p }),
        p.looped(true) == (Playback { looping: true, ..p }),
        p.looped(false) == (Playback { looping: false, ..p }),
{
}

/// The random states never run into one another: different states stay
/// different.
pub proof fn stirring_loses_nothing(x: u64, y: u64)
    requires
        stirred(x) == stirred(y),
    ensures
        x == y,
{
    let a = x ^ (x >> 12);
    let b = a ^ (a << 25);
    let c = y ^ (y >> 12);
    let d = c ^ (c << 25);
    assert(b == d) by (bit_vector)
        requires
            b ^ (b >> 27) == d ^ (d >> 27),
    ;
    assert(a == c) by (bit_vector)
        requires
            a ^ (a << 25) == c ^ (c << 25),
    ;
    assert(x == y) by (bit_vector)
        requires
            x ^ (x >> 12) == y ^ (y >> 12),
    ;
}

/// The random numbers are those of xorshift64*: three shifts stir the state,
/// and the high bits of its product with a fixed number, counted by the modulo,
/// are drawn.
pub proof fn random_numbers_are_xorshift(x: u64, a: u64, b: u64, modulo: u32)
    requires
        a == x ^ (x >> 12),
        b == a ^ (a << 25),
        modulo > 0,
    ensures
        stirred(x) == b ^ (b >> 27),
        drawn(x, modulo) == x * 0x2545_F491_4F6C_DD1D % 0x1_0000_0000_0000_0000 / 0x2_0000_0000
            % (modulo as int),
{
    let v = x.wrapping_mul(0x2545_F491_4F6C_DD1D);
    assert(v == x * 0x2545_F491_4F6C_DD1D % 0x1_0000_0000_0000_0000);
    assert(v >> 33 == v / 0x2_0000_0000) by (bit_vector);
    let m = modulo as u64;
    assert(((v >> 33) % m) < m);
}

/// On screen is the frame that has been reached of the animation that is selected,
/// and it asks for its own sound.
pub proof fn the_frame_reached_is_on_screen(p: Playback, i: usize)
    requires
        p.animation == Some(i),
    ensures
        i < p.character.animations@.len() ==> {
            &&& p.current_animation() == Some(p.character.animations@[i as int])
            &&& p.frames() == p.character.animations@[i as int].frames@
            &&& p.frame < p.frames().len() ==> {
                let f = p.character.animations@[i as int].frames@[p.frame as int];
                &&& p.current_frame() == Some(f)
                &&& p.due_us() == f.duration * 10_000
                &&& f.audio_index matches Some(s) ==> p.current_sound() == Some(s as usize)
                &&& f.audio_index is None ==> p.current_sound() is None
            }
        },
        i >= p.character.animations@.len() ==> p.current_animation() is None && p.frames().len()
            == 0 && p.current_frame() is None && p.current_sound() is None,
{
}

/// What happened before is only added to: a sound that a later frame asks for
/// replaces an earlier one, and a frame that changed stays changed.
pub proof fn later_sounds_win(p: Playback, tick: Tick, steps: nat)
    ensures
        p.advanced(tick, steps).0 == p.advanced(quiet(), steps).0,
        p.advanced(tick, steps).1.sound == (match p.advanced(quiet(), steps).1.sound {
            Some(s) => Some(s),
            None => tick.sound,
        }),
        p.advanced(tick, steps).1.frame_changed == (tick.frame_changed || p.advanced(
            quiet(),
            steps,
        ).1.frame_changed),
        p.advanced(tick, steps).1.finished == (tick.finished || p.advanced(
            quiet(),
            steps,
        ).1.finished),
    decreases 65 - steps,
{
    if !p.rests() && steps < 64 {
        if let Some(f) = p.next() {
            let there = p.moved(f);
            let sound = there.current_sound();
            later_sounds_win(
                there,
                Tick {
                    frame_changed: true,
                    sound: if sound is Some {
                        sound
                    } else {
                        tick.sound
                    },
                    finished: tick.finished,
                },
                steps + 1,
            );
            later_sounds_win(there, Tick { frame_changed: true, sound, finished: false }, steps + 1);
        }
    }
}

/// Frames without duration are passed in no time, but no more than 64 of them at
/// once: an animation of such frames that loops is then so many frames further,
/// with its clock at zero, and plays on.
pub proof fn no_tick_lasts_for_ever(p: Playback, us: int)
    requires
        p.wf(),
        p.playing,
        p.looping,
        0 <= us,
        p.elapsed_us + us <= u64::MAX,
        forall|i: int|
            0 <= i < p.frames().len() ==> (#[trigger] p.frames()[i]).duration == 0
                && p.frames()[i].branches@.len() == 0,
    ensures
        ({
            let q = p.after(us).0;
            &&& q.frame == (p.frame + 64) % p.frames().len() as int
            &&& q.elapsed_us == 0
            &&& q.playing
            &&& q.animation == p.animation
            &&& q.rng == p.rng
        }),
{
    no_steps_without_end(p.at_time(p.elapsed_us + us), quiet(), 0);
}

proof fn no_steps_without_end(p: Playback, tick: Tick, steps: nat)
    requires
        p.frame < p.frames().len(),
        p.looping,
        steps <= 64,
        forall|i: int|
            0 <= i < p.frames().len() ==> (#[trigger] p.frames()[i]).duration == 0
                && p.frames()[i].branches@.len() == 0,
    ensures
        ({
            let q = p.advanced(tick, steps).0;
            &&& q.frame == (p.frame + 64 - steps) % p.frames().len() as int
            &&& q.elapsed_us == 0
            &&& q.playing == p.playing
            &&& q.animation == p.animation
            &&& q.rng == p.rng
        }),
    decreases 64 - steps,
{
    let n = p.frames().len() as int;
    assert(p.frames()[p.frame as int].duration == 0);
    if let Some(a) = p.current_animation() {
        assert(a.frames.len() == n);
    }
    if steps < 64 {
        let next: usize = if p.frame + 1 < n {
            (p.frame + 1) as usize
        } else {
            0
        };
        assert(p.next() == Some(next));
        let there = p.moved(next);
        assert(there.frames() == p.frames());
        let sound = if there.current_sound() is Some {
            there.current_sound()
        } else {
            tick.sound
        };
        no_steps_without_end(
            there,
            Tick { frame_changed: true, sound, finished: tick.finished },
            steps + 1,
        );
        let rest = 64 - steps - 1;
        assert((p.frame + 1 + rest) % n == (next + rest) % n) by (nonlinear_arith)
            requires
                n > 0,
                next == p.frame + 1 || (next == 0 && p.frame + 1 == n),
        ;
    } else {
        assert((p.frame as int) % n == p.frame) by (nonlinear_arith)
            requires
                0 <= p.frame < n,
        ;
    }
}

/// A clock reading is a seed as it is, made odd, so that no seed is zero.
pub proof fn seeds_are_odd(n: u64)
    ensures
        seed_of(Some(n)) % 2 == 1,
        seed_of(Some(n)) == n || seed_of(Some(n)) == n + 1,
        seed_of(None) == 0x2545_F491_4F6C_DD1D,
{
    assert((n | 1) % 2 == 1 && ((n | 1) == n || (n | 1) == n + 1)) by (bit_vector);
}

/// A preview shows the first frame of an animation, whatever is playing, and there
/// is none of an animation without frames.
pub proof fn previews_show_the_first_frame(p: Player, index: usize)
    ensures
        ({
            let all = p@.character.animations@;
            &&& index < all.len() && all[index as int].frames@.len() > 0 ==> p.first_frame(index)
                == Some(all[index as int].frames@[0])
            &&& index >= all.len() || all[index as int].frames@.len() == 0 ==> p.first_frame(
                index,
            ) is None
        }),
{
}

/// Pausing leaves everything where it is, stopping goes back to the first frame,
/// and a frame that the animation has can be sought and starts anew; neither
/// selects another animation or touches looping and the random state.
pub proof fn controls_leave_the_rest_alone(p: Playback, frame: usize)
    ensures
        !p.paused().playing && p.paused().frame == p.frame && p.paused().elapsed_us == p.elapsed_us,
        !p.stopped().playing && p.stopped().frame == 0 && p.stopped().elapsed_us == 0,
        frame < p.frames().len() ==> p.sought(frame).frame == frame && p.sought(frame).elapsed_us
            == 0 && p.sought(frame).playing == p.playing,
        frame >= p.frames().len() ==> p.sought(frame) == p,
        forall|q: Playback|
            q == p.paused() || q == p.stopped() || #[trigger] p.sought(frame) == q ==> q.animation
                == p.animation && q.looping == p.looping && q.rng == p.rng && q.character
                == p.character,
{
}

/// An animation is played out from the exit frame that the frame on screen names,
/// where there is such a frame; a negative one stands for none.
pub proof fn the_way_out_is_named_by_the_frame(p: Playback, f: Frame)
    requires
        p.frame < p.frames().len(),
        f == p.frames()[p.frame as int],
    ensures
        f.exit_frame < 0 ==> p.way_out() is None,
        f.exit_frame >= p.frames().len() ==> p.way_out() is None,
        0 <= f.exit_frame < p.frames().len() ==> p.way_out() == Some(f.exit_frame as usize) && ({
            let q = p.sought(f.exit_frame as usize).started();
            q.frame == f.exit_frame && q.playing && q.elapsed_us == 0
        }),
{
}

} // verus!
