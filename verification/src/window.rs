//! What the main window decides: loading, playback, speech and its details.
use vstd::prelude::*;

use crate::player;
use crate::player::{Playback, Player, Tick};
use crate::selection;
use crate::selection::{animation_has_overlays, speaking_animation};
use crate::speech::Speech;
use crate::stage::{balloon_for, Balloon};
use crate::text;
use crate::text::trim;
use crate::types::{MouthShape, VoiceInfo};

verus! {

/// How long the balloon lingers after the audio finishes.
pub const BALLOON_LINGER_MS: u64 = 900;

/// The longest step the animation takes at once, in microseconds.
pub const LONGEST_STEP_US: i64 = 250_000;

/// An utterance on its way.
#[derive(Debug)]
pub struct ActiveSpeech {
    pub speech: Speech,
    pub started_us: i64,
    /// Animation to return to once speaking ends.
    pub restore_animation: Option<usize>,
}

/// The state behind the window.
pub struct State {
    pub path: Option<String>,
    pub player: Option<Player>,
    pub speech: Option<ActiveSpeech>,
    pub last_frame_us: i64,
    pub last_mouth: Option<MouthShape>,
    pub last_visible_chars: usize,
    pub sound_enabled: bool,
    /// The balloon currently on screen, kept so paced reveal can update just
    /// its visible length.
    pub balloon: Option<Balloon>,
}

/// How a player stands, if there is one.
pub open spec fn playback(p: Option<Player>) -> Option<Playback> {
    match p {
        Some(p) => Some(p@),
        None => None,
    }
}

/// A point in an utterance.
#[derive(Debug, Clone, Copy)]
pub struct Moment {
    pub elapsed_ms: u64,
    pub duration_ms: u64,
    /// The characters of the whole text.
    pub total_chars: usize,
}

/// What is to be done after a tick.
#[derive(Debug)]
pub struct Actions {
    /// The picture is to be composited anew.
    pub needs_render: bool,
    /// The sound to play.
    pub sound: Option<usize>,
    /// The playback controls are to be refreshed.
    pub finished: bool,
    /// The balloon is to be drawn anew, or taken away.
    pub balloon_changed: bool,
}

/// Nothing to do.
pub open spec fn idle() -> Actions {
    Actions { needs_render: false, sound: None, finished: false, balloon_changed: false }
}

/// The microseconds that pass for the animation between two readings of the
/// clock: none when the clock runs backwards, and no more than a quarter of a
/// second.
pub open spec fn step_us(last: i64, now: i64) -> int {
    if now - last < 0 {
        0
    } else if now - last > LONGEST_STEP_US {
        LONGEST_STEP_US as int
    } else {
        now - last
    }
}

impl ActiveSpeech {
    /// The milliseconds since the utterance started.
    pub open spec fn elapsed(&self, now: i64) -> int {
        if now - self.started_us < 0 {
            0
        } else {
            (now - self.started_us) / 1000
        }
    }

    /// The utterance is over, and its balloon has lingered.
    pub open spec fn is_over(&self, now: i64) -> bool {
        self.elapsed(now) > self.speech.duration_ms + BALLOON_LINGER_MS
    }

    fn elapsed_ms(&self, now: i64) -> (r: u64)
        requires
            i64::MIN <= now - self.started_us <= i64::MAX,
        ensures
            r == self.elapsed(now),
    {
        let d: i64 = now - self.started_us;
        if d < 0 {
            0
        } else {
            d as u64 / 1000
        }
    }
}

/// Two mouths, or their absence, compared.
fn same_mouth(a: Option<MouthShape>, b: Option<MouthShape>) -> (r: bool)
    ensures
        r == (a == b),
{
    match (a, b) {
        (Some(x), Some(y)) => x == y,
        (None, None) => true,
        _ => false,
    }
}

impl State {
    /// The player can go on.
    pub open spec fn wf(&self) -> bool {
        self.player matches Some(p) ==> p.wf()
    }

    /// The start of the utterance can be subtracted from the clock, and its end
    /// added up.
    pub open spec fn utterance_fits(&self, now: i64) -> bool {
        self.speech matches Some(a) ==> {
            &&& i64::MIN <= now - a.started_us <= i64::MAX
            &&& a.speech.duration_ms + BALLOON_LINGER_MS <= u64::MAX
        }
    }

    /// Once the clock is set, its readings can be subtracted.
    pub open spec fn clock_fits(&self, now: i64) -> bool {
        self.last_frame_us != 0 ==> {
            &&& i64::MIN <= now - self.last_frame_us <= i64::MAX
            &&& self.utterance_fits(now)
        }
    }

    /// Nothing loaded; sounds are on.
    pub fn new() -> (r: State)
        ensures
            r.wf(),
            r.path is None,
            r.player is None,
            r.speech is None,
            r.last_frame_us == 0,
            r.last_mouth is None,
            r.last_visible_chars == 0,
            r.sound_enabled,
            r.balloon is None,
    {
        State {
            path: None,
            player: None,
            speech: None,
            last_frame_us: 0,
            last_mouth: None,
            last_visible_chars: 0,
            sound_enabled: true,
            balloon: None,
        }
    }

    /// Takes over a character that has been loaded.
    pub fn load(&mut self, path: String, player: Player, looping: bool)
        requires
            player.wf(),
        ensures
            final(self).wf(),
            final(self).path == Some(path),
            playback(final(self).player) == Some(player@.looped(looping)),
            final(self).speech is None,
            final(self).last_mouth is None,
            final(self).last_visible_chars == 0,
            final(self).last_frame_us == 0,
            final(self).sound_enabled == old(self).sound_enabled,
            final(self).balloon == old(self).balloon,
    {
        let mut p = player;
        p.set_looping(looping);
        self.path = Some(path);
        self.speech = None;
        self.last_mouth = None;
        self.last_visible_chars = 0;
        self.last_frame_us = 0;
        self.player = Some(p);
    }

    /// The point that the current utterance has reached, if there is one. The
    /// text is revealed by how far it has got.
    pub fn moment(&self, now_us: i64) -> (r: Option<Moment>)
        requires
            self.utterance_fits(now_us),
        ensures
            match self.speech {
                Some(a) => r matches Some(m) && m.elapsed_ms == a.elapsed(now_us) && m.duration_ms
                    == a.speech.duration_ms && m.total_chars == a.speech.text@.len(),
                None => r is None,
            },
    {
        match &self.speech {
            Some(a) => Some(
                Moment {
                    elapsed_ms: a.elapsed_ms(now_us),
                    duration_ms: a.speech.duration_ms,
                    total_chars: text::chars_of(a.speech.text.as_str()).len(),
                },
            ),
            None => None,
        }
    }
}

/// A player, if there is one, and what happens, after some time.
pub open spec fn stepped(p: Option<Playback>, us: int) -> (Option<Playback>, Tick) {
    match p {
        Some(p) => (Some(p.after(us).0), p.after(us).1),
        None => (None, player::quiet()),
    }
}

/// A player, if there is one, back at the animation from before an utterance.
pub open spec fn restored(p: Option<Playback>, animation: Option<usize>, looping: bool) -> Option<
    Playback,
> {
    match (p, animation) {
        (Some(p), Some(i)) => Some(p.selected(i).looped(looping)),
        _ => p,
    }
}

/// A player after the play button was pressed.
pub open spec fn toggled(p: Playback) -> Playback {
    if p.playing {
        p.paused()
    } else {
        p.started()
    }
}

/// A player after an animation was picked from the list, or `None` where nothing
/// happens: while speaking over that very animation.
pub open spec fn picked(p: Playback, speaking: bool, index: usize) -> Option<Playback> {
    if speaking && p.animation == Some(index) {
        None
    } else {
        Some(p.selected(index))
    }
}

/// The balloon with so many characters revealed.
pub open spec fn revealing(b: Balloon, chars: usize) -> Balloon {
    Balloon { visible_chars: chars, ..b }
}

/// How many characters to show: no more than there are.
pub open spec fn shown_chars(a: ActiveSpeech, revealed: usize) -> usize {
    if revealed < a.speech.text@.len() {
        revealed
    } else {
        a.speech.text@.len() as usize
    }
}

impl State {
    fn advance_player(&mut self, dt_us: u64) -> (r: Tick)
        requires
            old(self).wf(),
            dt_us <= LONGEST_STEP_US,
        ensures
            final(self).wf(),
            (playback(final(self).player), r) == stepped(playback(old(self).player), dt_us as int),
            final(self).path == old(self).path,
            final(self).speech == old(self).speech,
            final(self).last_frame_us == old(self).last_frame_us,
            final(self).last_mouth == old(self).last_mouth,
            final(self).last_visible_chars == old(self).last_visible_chars,
            final(self).sound_enabled == old(self).sound_enabled,
            final(self).balloon == old(self).balloon,
    {
        if let Some(p) = &mut self.player {
            return p.advance(dt_us);
        }
        Tick::default()
    }

    /// Ends the current utterance: the balloon goes, and the animation from
    /// before comes back.
    pub fn end_speech(&mut self, loop_active: bool)
        requires
            old(self).wf(),
        ensures
            final(self).wf(),
            playback(final(self).player) == restored(
                playback(old(self).player),
                match old(self).speech {
                    Some(a) => a.restore_animation,
                    None => None,
                },
                loop_active,
            ),
            final(self).speech is None,
            final(self).last_mouth is None,
            final(self).last_visible_chars == 0,
            final(self).balloon is None,
            final(self).path == old(self).path,
            final(self).last_frame_us == old(self).last_frame_us,
            final(self).sound_enabled == old(self).sound_enabled,
    {
        let restore: Option<usize> = match &self.speech {
            Some(a) => a.restore_animation,
            None => None,
        };
        self.speech = None;
        self.last_mouth = None;
        self.last_visible_chars = 0;
        self.balloon = None;
        if let Some(index) = restore {
            if let Some(p) = &mut self.player {
                let _ = p.select(index);
                p.set_looping(loop_active);
            }
        }
    }

    /// Reveals so much of the balloon's text. Only the revealed length changes;
    /// everything else stays as authored.
    pub fn update_balloon_progress(&mut self, visible_chars: usize) -> (r: bool)
        ensures
            r == (old(self).balloon is Some),
            final(self).balloon == (match old(self).balloon {
                Some(b) => Some(revealing(b, visible_chars)),
                None => None,
            }),
            final(self).path == old(self).path,
            final(self).player == old(self).player,
            final(self).speech == old(self).speech,
            final(self).last_frame_us == old(self).last_frame_us,
            final(self).last_mouth == old(self).last_mouth,
            final(self).last_visible_chars == old(self).last_visible_chars,
            final(self).sound_enabled == old(self).sound_enabled,
    {
        if let Some(b) = &mut self.balloon {
            b.visible_chars = visible_chars;
            return true;
        }
        false
    }

    /// What the frame clock's tick leaves of the state, and what is to be done
    /// then.
    pub open spec fn ticked(
        &self,
        after: State,
        r: Actions,
        now: i64,
        revealed: usize,
        loop_active: bool,
    ) -> bool {
        let (p, tick) = stepped(playback(self.player), step_us(self.last_frame_us, now));
        &&& after.path == self.path
        &&& after.sound_enabled == self.sound_enabled
        &&& after.last_frame_us == now
        &&& if self.last_frame_us == 0 {
            // The first tick only sets the clock.
            &&& r == idle()
            &&& after.player == self.player
            &&& after.speech == self.speech
            &&& after.last_mouth == self.last_mouth
            &&& after.last_visible_chars == self.last_visible_chars
            &&& after.balloon == self.balloon
        } else {
            &&& r.finished == tick.finished
            &&& r.sound == (if self.sound_enabled {
                tick.sound
            } else {
                None
            })
            &&& match self.speech {
                None => {
                    &&& playback(after.player) == p
                    &&& after.speech is None
                    &&& after.last_mouth == self.last_mouth
                    &&& after.last_visible_chars == self.last_visible_chars
                    &&& after.balloon == self.balloon
                    &&& r.needs_render == tick.frame_changed
                    &&& !r.balloon_changed
                },
                Some(a) => if a.is_over(now) {
                    &&& playback(after.player) == restored(p, a.restore_animation, loop_active)
                    &&& after.speech is None
                    &&& after.last_mouth is None
                    &&& after.last_visible_chars == 0
                    &&& after.balloon is None
                    &&& r.needs_render
                    &&& r.balloon_changed
                } else {
                    let mouth = Some(a.speech.mouth(a.elapsed(now) as u64));
                    let shown = shown_chars(a, revealed);
                    let changed = shown != self.last_visible_chars;
                    &&& playback(after.player) == p
                    &&& after.speech == self.speech
                    &&& after.last_mouth == mouth
                    &&& after.last_visible_chars == shown
                    &&& after.balloon == (match self.balloon {
                        Some(b) => if changed {
                            Some(revealing(b, shown))
                        } else {
                            Some(b)
                        },
                        None => None,
                    })
                    &&& r.needs_render == (tick.frame_changed || self.last_mouth != mouth)
                    &&& r.balloon_changed == (changed && self.balloon is Some)
                },
            }
        }
    }

    /// Follows the frame clock: moves the animation, the mouth and the balloon
    /// on. `revealed` is how many characters of the text the utterance has
    /// reached.
    pub fn tick(&mut self, now_us: i64, revealed: usize, loop_active: bool) -> (r: Actions)
        requires
            old(self).wf(),
            old(self).clock_fits(now_us),
        ensures
            final(self).wf(),
            old(self).ticked(*final(self), r, now_us, revealed, loop_active),
    {
        let mut actions = Actions {
            needs_render: false,
            sound: None,
            finished: false,
            balloon_changed: false,
        };
        let last = self.last_frame_us;
        self.last_frame_us = now_us;
        if last == 0 {
            return actions;
        }
        let d: i64 = now_us - last;
        let dt_us: u64 = if d < 0 {
            0
        } else if d > LONGEST_STEP_US {
            LONGEST_STEP_US as u64
        } else {
            d as u64
        };
        let tick = self.advance_player(dt_us);
        actions.needs_render = tick.frame_changed;
        actions.finished = tick.finished;
        if self.sound_enabled {
            actions.sound = tick.sound;
        }
        // Drive the mouth and the balloon from the active utterance.
        let (over, mouth, shown) = match &self.speech {
            Some(a) => {
                let elapsed = a.elapsed_ms(now_us);
                let total = text::chars_of(a.speech.text.as_str()).len();
                let shown: usize = if revealed < total {
                    revealed
                } else {
                    total
                };
                (
                    elapsed > a.speech.duration_ms + BALLOON_LINGER_MS,
                    a.speech.mouth_at(elapsed),
                    shown,
                )
            },
            None => return actions,
        };
        if over {
            self.end_speech(loop_active);
            actions.needs_render = true;
            actions.balloon_changed = true;
            return actions;
        }
        if !same_mouth(self.last_mouth, Some(mouth)) {
            self.last_mouth = Some(mouth);
            actions.needs_render = true;
        }
        if shown != self.last_visible_chars {
            self.last_visible_chars = shown;
            actions.balloon_changed = self.update_balloon_progress(shown);
        }
        actions
    }

    /// Selects an animation from the list. While speaking over that very
    /// animation nothing happens, and the answer is `None`; otherwise it is the
    /// sound to play, if sounds are on.
    pub fn select_animation(&mut self, index: usize) -> (r: Option<Option<usize>>)
        requires
            old(self).wf(),
        ensures
            final(self).wf(),
            ({
                let busy = old(self).speech is Some && (playback(old(self).player) matches Some(p)
                    && p.animation == Some(index));
                if busy {
                    &&& r is None
                    &&& final(self).player == old(self).player
                } else {
                    match playback(old(self).player) {
                        Some(p) => {
                            &&& playback(final(self).player) == Some(p.selected(index))
                            &&& r == Some(
                                if old(self).sound_enabled {
                                    p.selected(index).current_sound()
                                } else {
                                    None
                                },
                            )
                        },
                        None => final(self).player is None && r == Some(None::<usize>),
                    }
                }
            }),
            playback(old(self).player) matches Some(p) ==> {
                let after = picked(p, old(self).speech is Some, index);
                &&& after is None <==> r is None
                &&& playback(final(self).player) == (match after {
                    Some(q) => Some(q),
                    None => Some(p),
                })
            },
            final(self).path == old(self).path,
            final(self).speech == old(self).speech,
            final(self).last_frame_us == old(self).last_frame_us,
            final(self).last_mouth == old(self).last_mouth,
            final(self).last_visible_chars == old(self).last_visible_chars,
            final(self).sound_enabled == old(self).sound_enabled,
            final(self).balloon == old(self).balloon,
    {
        let enabled = self.sound_enabled;
        let speaking = self.speech.is_some();
        if let Some(p) = &mut self.player {
            if speaking {
                if let Some(i) = p.animation_index() {
                    if i == index {
                        return None;
                    }
                }
            }
            let sound = p.select(index);
            if enabled {
                return Some(sound);
            }
        }
        Some(None)
    }

    /// Pauses what plays, and plays what is paused.
    pub fn toggle_play(&mut self)
        requires
            old(self).wf(),
        ensures
            final(self).wf(),
            playback(final(self).player) == (match playback(old(self).player) {
                Some(p) => Some(
                    if p.playing {
                        (Playback { playing: false, ..p })
                    } else {
                        p.started()
                    },
                ),
                None => None,
            }),
            playback(old(self).player) matches Some(p) ==> playback(final(self).player) == Some(
                toggled(p),
            ),
            final(self).path == old(self).path,
            final(self).speech == old(self).speech,
            final(self).last_frame_us == old(self).last_frame_us,
            final(self).last_mouth == old(self).last_mouth,
            final(self).last_visible_chars == old(self).last_visible_chars,
            final(self).sound_enabled == old(self).sound_enabled,
            final(self).balloon == old(self).balloon,
    {
        if let Some(p) = &mut self.player {
            if p.is_playing() {
                p.pause();
            } else {
                p.play();
            }
        }
    }

    /// The sound to play for an index, if the character has it.
    pub fn sound(&self, index: Option<usize>) -> (r: Option<&Vec<u8>>)
        ensures
            r == (match (index, playback(self.player)) {
                (Some(i), Some(p)) => if i < p.character.audio@.len() {
                    Some(&p.character.audio@[i as int])
                } else {
                    None
                },
                _ => None,
            }),
    {
        match (index, &self.player) {
            (Some(i), Some(p)) => p.character().audio(i),
            _ => None,
        }
    }

    /// The mouth to composite with: none unless something is being said.
    pub fn shown_mouth(&self) -> (r: Option<MouthShape>)
        ensures
            r == (if self.speech is Some {
                self.last_mouth
            } else {
                None
            }),
    {
        if self.speech.is_some() {
            self.last_mouth
        } else {
            None
        }
    }

    /// The voice to say a text with: `None` when there is nothing to say, or
    /// nobody to say it.
    pub fn voice_for(&self, words: &str) -> (r: Option<Option<VoiceInfo>>)
        ensures
            r == (match playback(self.player) {
                Some(p) => if text::trimmed(words@).len() > 0 {
                    Some(p.character.info.voice)
                } else {
                    None
                },
                None => None,
            }),
    {
        if text::chars_of(trim(words)).len() == 0 {
            return None;
        }
        match &self.player {
            Some(p) => Some(p.character().info.voice),
            None => None,
        }
    }
}

/// The animation an utterance switches to: lip sync needs a frame carrying
/// mouth overlays, so one that has some, when the current one has none.
pub open spec fn switch_to(p: Playback) -> Option<int> {
    if p.animation matches Some(i) && selection::serves(
        p.character.animations@,
        i as int,
        selection::Use::Talking,
    ) {
        None
    } else {
        selection::talking(p.character)
    }
}

/// A player when an utterance begins.
pub open spec fn speaking(p: Playback) -> Playback {
    match switch_to(p) {
        Some(i) => p.selected(i as usize).looped(true).started(),
        None => p.started(),
    }
}

/// An utterance that begins over a player.
pub open spec fn begun(p: Playback, speech: Speech, now: i64) -> ActiveSpeech {
    ActiveSpeech {
        speech,
        started_us: now,
        restore_animation: if switch_to(p) is Some {
            p.animation
        } else {
            None
        },
    }
}

impl State {
    /// Begins an utterance: switches to an animation that can be talked over
    /// when the current one cannot, and puts up the balloon. Nothing happens
    /// without a character, and the answer is whether there is one.
    pub fn begin_speech(&mut self, speech: Speech, now_us: i64) -> (r: bool)
        requires
            old(self).wf(),
        ensures
            final(self).wf(),
            r == (old(self).player is Some),
            final(self).path == old(self).path,
            final(self).last_frame_us == old(self).last_frame_us,
            final(self).sound_enabled == old(self).sound_enabled,
            match playback(old(self).player) {
                Some(p) => {
                    &&& playback(final(self).player) == Some(speaking(p))
                    &&& final(self).last_visible_chars == 0
                    &&& final(self).last_mouth is None
                    &&& final(self).balloon matches Some(b) && b.is_for(
                        p.character.info.balloon,
                        speech.text@,
                    )
                    &&& final(self).speech == Some(
                        ActiveSpeech {
                            speech,
                            started_us: now_us,
                            restore_animation: if switch_to(p) is Some {
                                p.animation
                            } else {
                                None
                            },
                        },
                    )
                },
                None => *final(self) == *old(self),
            },
            playback(old(self).player) matches Some(p) ==> final(self).speech == Some(
                begun(p, speech, now_us),
            ),
    {
        let mut switched_from: Option<usize> = None;
        let ghost before = playback(self.player);
        if let Some(p) = &mut self.player {
            let current = p.animation_index();
            let has_overlays = match current {
                Some(i) => animation_has_overlays(p.character(), i),
                None => false,
            };
            if !has_overlays {
                if let Some(target) = speaking_animation(p.character()) {
                    let _ = p.select(target);
                    p.set_looping(true);
                    switched_from = current;
                }
            }
            p.play();
            let balloon = balloon_for(&p.character().info, speech.text.as_str());
            self.last_visible_chars = 0;
            self.last_mouth = None;
            self.balloon = Some(balloon);
        } else {
            return false;
        }
        self.speech = Some(
            ActiveSpeech { speech, started_us: now_us, restore_animation: switched_from },
        );
        true
    }
}

/// What an utterance switched away from comes back when it ends: right after
/// beginning, ending brings back the animation that was selected and the
/// looping that is set.
pub proof fn ending_undoes_the_switch(p: Playback, i: usize, looping: bool)
    requires
        p.wf(),
        p.animation == Some(i),
        switch_to(p) is Some,
    ensures
        restored(Some(speaking(p)), Some(i), looping) == Some(p.selected(i).looped(looping)),
{
}

/// The animation's time passes as the clock's does, as long as the clock goes
/// forward and by a quarter of a second at most; beyond that it passes by so much,
/// and not at all when the clock goes back.
pub proof fn time_passes_with_the_clock(a: i64, b: i64, c: i64)
    ensures
        0 <= step_us(a, b) <= 250_000,
        a <= b <= c && c - a <= 250_000 ==> step_us(a, b) + step_us(b, c) == step_us(a, c)
            && step_us(a, c) == c - a,
        b - a >= 250_000 ==> step_us(a, b) == 250_000,
        b <= a ==> step_us(a, b) == 0,
{
}

/// An utterance is over as soon as the clock is a full millisecond past the nine
/// tenths of a second for which its balloon lingers, and stays over.
pub proof fn utterances_linger(a: ActiveSpeech, now: i64, later: i64)
    ensures
        a.is_over(now) <==> now - a.started_us >= 1000 * (a.speech.duration_ms + 901),
        now <= later && a.is_over(now) ==> a.is_over(later),
{
}

/// While a text is said, ticks put the mouth where the speech has it at that
/// time, and reveal so much of the text as has been reached. The utterance
/// lasts until it has lingered; then the balloon goes, and the animation from
/// before comes back.
pub proof fn ticks_follow_the_speech(
    s: State,
    after: State,
    r: Actions,
    now: i64,
    revealed: usize,
    looping: bool,
    a: ActiveSpeech,
)
    requires
        s.ticked(after, r, now, revealed, looping),
        s.speech == Some(a),
        s.last_frame_us != 0,
        now >= a.started_us,
    ensures
        now - a.started_us < 1000 * (a.speech.duration_ms + 901) ==> {
            &&& after.speech == s.speech
            &&& after.last_mouth == Some(a.speech.mouth(((now - a.started_us) / 1000) as u64))
            &&& s.last_mouth != after.last_mouth ==> r.needs_render
            &&& after.last_visible_chars <= revealed
            &&& after.last_visible_chars <= a.speech.text@.len()
            &&& after.last_visible_chars == revealed || after.last_visible_chars
                == a.speech.text@.len()
            &&& s.balloon is Some <==> after.balloon is Some
            &&& s.balloon matches Some(b) ==> {
                &&& after.balloon->0.text == b.text
                &&& after.balloon->0.colors == b.colors
                &&& b.visible_chars == s.last_visible_chars ==> after.balloon->0.visible_chars
                    == after.last_visible_chars
                &&& r.balloon_changed <==> after.last_visible_chars != s.last_visible_chars
            }
        },
        now - a.started_us >= 1000 * (a.speech.duration_ms + 901) ==> {
            &&& after.speech is None
            &&& after.balloon is None
            &&& after.last_mouth is None
            &&& after.last_visible_chars == 0
            &&& r.needs_render
            &&& r.balloon_changed
            &&& a.restore_animation matches Some(i) ==> (playback(after.player) matches Some(p)
                ==> p.animation == Some(i) && p.frame == 0 && p.looping == looping)
        },
{
    utterances_linger(a, now, now);
}

/// Ticks move the player on by the clock, tell of new frames, and play the
/// sounds that come up unless sounds are off. The first one only sets the clock.
pub proof fn ticks_move_the_player(
    s: State,
    after: State,
    r: Actions,
    now: i64,
    revealed: usize,
    looping: bool,
    p: Playback,
)
    requires
        s.ticked(after, r, now, revealed, looping),
        playback(s.player) == Some(p),
    ensures
        after.last_frame_us == now,
        after.sound_enabled == s.sound_enabled,
        after.path == s.path,
        s.last_frame_us == 0 ==> after.player == s.player && after.speech == s.speech
            && after.balloon == s.balloon && !r.needs_render && !r.finished && r.sound is None
            && !r.balloon_changed,
        s.last_frame_us != 0 ==> {
            let step = step_us(s.last_frame_us, now);
            &&& p.after(step).1.frame_changed ==> r.needs_render
            &&& r.finished == p.after(step).1.finished
            &&& s.sound_enabled ==> r.sound == p.after(step).1.sound
            &&& !s.sound_enabled ==> r.sound is None
            &&& s.speech is None ==> {
                &&& playback(after.player) == Some(p.after(step).0)
                &&& after.speech is None
                &&& r.needs_render <==> p.after(step).1.frame_changed
                &&& !r.balloon_changed
                &&& after.balloon == s.balloon
            }
            &&& (s.speech matches Some(a) && !a.is_over(now)) ==> playback(after.player) == Some(
                p.after(step).0,
            )
        },
{
}

/// An utterance is said over the animation on screen where that carries mouth
/// overlays, and else over one that does, from its first frame and over and over,
/// where there is one.
pub proof fn speaking_needs_a_mouth(p: Playback, i: int)
    ensures
        ({
            let shown = p.animation matches Some(k) && selection::serves(
                p.character.animations@,
                k as int,
                selection::Use::Talking,
            );
            &&& shown || (forall|k: int|
                !#[trigger] selection::serves(
                    p.character.animations@,
                    k,
                    selection::Use::Talking,
                )) ==> {
                &&& speaking(p).animation == p.animation
                &&& speaking(p).frame == p.frame
                &&& speaking(p).looping == p.looping
            }
            &&& !shown && selection::serves(
                p.character.animations@,
                i,
                selection::Use::Talking,
            ) && p.character.animations@.len() <= usize::MAX ==> {
                &&& speaking(p).animation matches Some(k) && selection::serves(
                    p.character.animations@,
                    k as int,
                    selection::Use::Talking,
                )
                &&& speaking(p).frame == 0
                &&& speaking(p).looping
            }
            &&& p.frames().len() > 0 && shown ==> speaking(p).playing
            &&& p.playing && shown ==> speaking(p).playing
        }),
{
    selection::talking_moves_the_mouth(p.character);
}

/// The button stops what plays and plays what does not, where there is anything to
/// play; pressing it twice leaves everything as it was. Nothing else changes.
pub proof fn the_button_goes_back_and_forth(p: Playback)
    requires
        p.frames().len() > 0,
    ensures
        toggled(p).playing == !p.playing,
        toggled(toggled(p)) == p,
        toggled(p).frame == p.frame && toggled(p).animation == p.animation
            && toggled(p).elapsed_us == p.elapsed_us && toggled(p).looping == p.looping,
{
}

/// Picking an animation from the list rewinds it and plays it, except while that
/// very animation is being talked over.
pub proof fn picking_is_heeded(p: Playback, speaking: bool, index: usize)
    ensures
        picked(p, speaking, index) is None <==> speaking && p.animation == Some(index),
        picked(p, speaking, index) matches Some(q) ==> q.animation == Some(index) && q.frame == 0
            && q.elapsed_us == 0 && q.looping == p.looping,
        picked(p, false, index) is Some,
{
}

/// An utterance counts its time from when it begins. It remembers the animation to
/// come back to exactly where it leaves it, and then ending it comes back there.
pub proof fn utterances_remember_where_they_began(
    p: Playback,
    speech: Speech,
    now: i64,
    looping: bool,
)
    requires
        p.character.animations@.len() <= usize::MAX,
    ensures
        begun(p, speech, now).started_us == now,
        begun(p, speech, now).speech == speech,
        begun(p, speech, now).elapsed(now) == 0,
        begun(p, speech, now).restore_animation is None ==> speaking(p).animation == p.animation
            || p.animation is None,
        begun(p, speech, now).restore_animation matches Some(i) ==> p.animation == Some(i) && !(
        selection::serves(p.character.animations@, i as int, selection::Use::Talking)),
        begun(p, speech, now).restore_animation matches Some(i) ==> (restored(
            Some(speaking(p)),
            Some(i),
            looping,
        ) matches Some(q) && q.animation == p.animation && q.frame == 0 && q.looping == looping),
{
}

} // verus!
