use std::rc::Rc;

use agentview::actor::ActorSource;
use agentview::character::{Artwork, Character};
use agentview::error::Error;
use agentview::player::{Player, Tick};
use agentview::types::{
    Animation, Branch, CharacterInfo, Frame, FrameImage, MouthShape, RgbaImage, Transition,
};

fn info() -> CharacterInfo {
    CharacterInfo {
        major_version: 2,
        minor_version: 0,
        guid: [0; 16],
        width: 1,
        height: 1,
        transparent_index: 0,
        flags: 0,
        voice: None,
        balloon: None,
        palette: Vec::new(),
        states: Vec::new(),
        localized: Vec::new(),
    }
}

fn frame(duration: u16, audio_index: Option<u16>) -> Frame {
    Frame {
        images: vec![FrameImage { image_index: 0, x: 0, y: 0 }],
        audio_index,
        duration,
        exit_frame: -1,
        branches: Vec::new(),
        overlays: Vec::new(),
    }
}

fn animation(name: &str, frames: Vec<Frame>) -> Animation {
    Animation {
        name: name.to_string(),
        transition: Transition::Nothing,
        return_animation: String::new(),
        frames,
    }
}

fn character(animations: Vec<Animation>) -> Rc<Character> {
    Rc::new(Character {
        info: info(),
        animations,
        artwork: Artwork::Indexed(Vec::new()),
        audio: Vec::new(),
    })
}

fn three() -> Rc<Character> {
    let mut last = frame(3, None);
    last.exit_frame = 1;
    character(vec![
        animation("Walk", vec![frame(10, Some(4)), frame(20, Some(5)), last]),
        animation("Empty", Vec::new()),
    ])
}

fn quiet(t: &Tick) -> bool {
    !t.frame_changed && t.sound.is_none() && !t.finished
}

#[test]
fn a_new_player_has_nothing_selected() {
    let mut p = Player::new(three());
    assert_eq!(p.animation_index(), None);
    assert_eq!(p.frame_index(), 0);
    assert!(!p.is_playing());
    assert!(p.is_looping());
    assert_eq!(p.frame_count(), 0);
    assert!(p.current_animation().is_none());
    assert_eq!(p.character().animations.len(), 2);
    p.play();
    assert!(!p.is_playing());
    assert!(quiet(&p.advance(1_000_000)));
}

#[test]
fn selecting_rewinds_and_gives_the_first_sound() {
    let mut p = Player::new(three());
    assert_eq!(p.select(0), Some(4));
    assert!(p.is_playing());
    assert_eq!(p.frame_count(), 3);
    assert_eq!(p.current_animation().unwrap().name, "Walk");
    assert_eq!(p.select(1), None);
    assert!(!p.is_playing());
    assert_eq!(p.select(7), None);
    assert_eq!(p.animation_index(), Some(7));
    assert_eq!(p.frame_count(), 0);
}

#[test]
fn frames_wait_their_time() {
    let mut p = Player::new(three());
    p.select(0);
    assert!(quiet(&p.advance(99_999)));
    let t = p.advance(1);
    assert!(t.frame_changed);
    assert_eq!(t.sound, Some(5));
    assert!(!t.finished);
    assert_eq!(p.frame_index(), 1);
    // 200 ms and 30 ms, then round again; the last sound on the way counts.
    let t = p.advance(230_000);
    assert_eq!(p.frame_index(), 0);
    assert_eq!(t.sound, Some(4));
}

#[test]
fn without_looping_playback_ends() {
    let mut p = Player::new(three());
    p.select(0);
    p.set_looping(false);
    let t = p.advance(1_000_000);
    assert!(t.frame_changed && t.finished);
    assert!(!p.is_playing());
    assert_eq!(p.frame_index(), 2);
    p.play();
    assert!(p.is_playing());
}

#[test]
fn ticks_can_be_split_anywhere() {
    for cut in [0u64, 1, 50_000, 100_000, 250_000, 333_333] {
        let mut once = Player::with_seed(three(), Some(1));
        once.select(0);
        let whole = once.advance(333_333);
        let mut twice = Player::with_seed(three(), Some(1));
        twice.select(0);
        let a = twice.advance(cut);
        let b = twice.advance(333_333 - cut);
        assert_eq!(once.frame_index(), twice.frame_index());
        assert_eq!(whole.frame_changed, a.frame_changed || b.frame_changed);
        assert_eq!(whole.sound, b.sound.or(a.sound));
        // The time left over is the same too.
        assert_eq!(once.advance(6_667).frame_changed, twice.advance(6_667).frame_changed);
    }
}

#[test]
fn pausing_stopping_and_seeking() {
    let mut p = Player::new(three());
    p.select(0);
    p.seek(2);
    assert_eq!(p.frame_index(), 2);
    p.seek(3);
    assert_eq!(p.frame_index(), 2);
    p.pause();
    assert!(quiet(&p.advance(10_000_000)));
    assert_eq!(p.frame_index(), 2);
    p.stop();
    assert_eq!(p.frame_index(), 0);
    assert!(!p.is_playing());
}

#[test]
fn exits_go_to_the_exit_frame() {
    let mut p = Player::new(three());
    assert!(!p.exit());
    p.select(0);
    assert!(!p.exit());
    p.seek(2);
    p.pause();
    assert!(p.exit());
    assert_eq!(p.frame_index(), 1);
    assert!(p.is_playing());
}

#[test]
fn frames_without_duration_do_not_hang() {
    let c = character(vec![animation("Still", vec![frame(0, None), frame(0, None)])]);
    let mut p = Player::new(c);
    p.select(0);
    // After as many steps as one tick takes, it is an even frame again.
    let t = p.advance(5);
    assert!(t.frame_changed && !t.finished);
    assert_eq!(p.frame_index(), 0);
}

#[test]
fn branches_follow_their_probabilities() {
    let mut fork = frame(1, None);
    fork.branches = vec![
        Branch { frame_index: 2, probability: 30 },
        Branch { frame_index: 3, probability: 0 },
        Branch { frame_index: 9, probability: 20 },
    ];
    let c = character(vec![animation(
        "Fork",
        vec![fork, frame(1, None), frame(1, None), frame(1, None)],
    )]);
    let mut p = Player::with_seed(c, Some(12345));
    let mut seen = [0u32; 4];
    for _ in 0..2000 {
        p.select(0);
        p.advance(10_000);
        seen[p.frame_index()] += 1;
    }
    // A branch that leads nowhere falls through to the next frame.
    assert_eq!(seen[0], 0);
    assert_eq!(seen[3], 0);
    assert!(seen[2] > 500 && seen[2] < 700);
    assert_eq!(seen[1] + seen[2], 2000);
}

#[test]
fn a_full_branch_is_always_taken() {
    let mut back = frame(1, None);
    back.branches = vec![Branch { frame_index: 0, probability: 100 }];
    let c = character(vec![animation("Loop", vec![frame(1, None), back, frame(1, None)])]);
    let mut p = Player::with_seed(c, None);
    p.select(0);
    for i in 0..50 {
        p.advance(10_000);
        assert_eq!(p.frame_index(), (i + 1) % 2);
    }
}

#[test]
fn seeded_players_play_alike() {
    let make = || {
        let mut fork = frame(1, None);
        fork.branches = vec![Branch { frame_index: 0, probability: 50 }];
        let c = character(vec![animation("Coin", vec![fork, frame(1, None)])]);
        let mut p = Player::with_seed(c, Some(0));
        p.select(0);
        p
    };
    let mut a = make();
    let mut b = make();
    let mut stayed = 0;
    for _ in 0..100 {
        a.advance(10_000);
        b.advance(10_000);
        assert_eq!(a.frame_index(), b.frame_index());
        if a.frame_index() == 0 {
            stayed += 1;
        }
    }
    assert!(stayed > 10 && stayed < 100);
}

#[test]
fn rendering_asks_for_the_frame_on_screen() {
    let mut p = Player::new(three());
    let draw = |_: &Character, f: &Frame, mouth: Option<MouthShape>| {
        if f.duration == 3 {
            return Err(Error::Parse("no".to_string()));
        }
        let value = if mouth.is_some() { 1 } else { 0 };
        Ok(RgbaImage { width: f.duration as u32, height: 1, data: vec![value] })
    };
    assert!(p.render(None, &draw).is_none());
    p.select(0);
    p.seek(1);
    let image = p.render(Some(MouthShape::Medium), &draw).unwrap();
    assert_eq!((image.width, image.data[0]), (20, 1));
    p.seek(2);
    assert!(p.render(None, &draw).is_none());
    assert_eq!(p.render_first_frame(0, &draw).unwrap().width, 10);
    assert!(p.render_first_frame(1, &draw).is_none());
    assert!(p.render_first_frame(5, &draw).is_none());
}

#[test]
fn durations_add_up() {
    let c = three();
    assert_eq!(c.animations[0].duration_ms(), 330);
    assert_eq!(c.animations[1].duration_ms(), 0);
    assert_eq!(c.animations[0].frames[1].duration_ms(), 200);
    let source = ActorSource {
        data: Vec::new(),
        assets: Vec::new(),
        frames: vec![Vec::new(); 4],
        width: 1,
        height: 1,
    };
    let c = Character::from_actor(info(), Vec::new(), source, Vec::new());
    assert_eq!(c.image_count(), 4);
}
