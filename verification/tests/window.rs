use std::rc::Rc;

use agentview::character::{Artwork, Character};
use agentview::details::{
    character_group, contents_group, frame_label, holds_needle, load_complaint, pick_language,
    play_button, primary_language, row_detail, row_matches, states_group, titles, voice_group,
    Group,
};
use agentview::player::Player;
use agentview::selection::{
    animation_has_overlays, find_animation, pick_initial_animation, speaking_animation,
};
use agentview::speech::Speech;
use agentview::stage::{balloon_for, measure, Backdrop};
use agentview::types::{
    Animation, BalloonInfo, CharacterInfo, Frame, LocalizedInfo, MouthShape, Overlay, Rgb,
    StateInfo, Transition, VoiceInfo,
};
use agentview::window::State;

fn rgb(r: u8, g: u8, b: u8) -> Rgb {
    Rgb { r, g, b }
}

fn info() -> CharacterInfo {
    CharacterInfo {
        major_version: 2,
        minor_version: 1,
        guid: [0; 16],
        width: 128,
        height: 96,
        transparent_index: 0,
        flags: 0,
        voice: Some(VoiceInfo { speed: 150, pitch: 120, gender: Some(2), language_id: None }),
        balloon: Some(BalloonInfo {
            lines: 2,
            chars_per_line: 28,
            font_name: "Arial".to_string(),
            font_height: -16,
            font_weight: 700,
            italic: true,
            foreground: rgb(1, 2, 3),
            background: rgb(4, 5, 6),
            border: rgb(7, 8, 9),
        }),
        palette: vec![rgb(0, 0, 0); 3],
        states: Vec::new(),
        localized: vec![
            LocalizedInfo {
                language_id: 0x0407,
                name: "Zauberer".to_string(),
                description: "Ein Zauberer".to_string(),
                extra: String::new(),
            },
            LocalizedInfo {
                language_id: 0x0409,
                name: "Merlin".to_string(),
                description: "A wizard".to_string(),
                extra: String::new(),
            },
        ],
    }
}

fn frame(overlays: usize) -> Frame {
    Frame {
        images: Vec::new(),
        audio_index: Some(1),
        duration: 10,
        exit_frame: -1,
        branches: Vec::new(),
        overlays: vec![Overlay { mouth: MouthShape::Closed, image_index: 0 }; overlays],
    }
}

fn animation(name: &str, overlays: &[usize]) -> Animation {
    Animation {
        name: name.to_string(),
        transition: Transition::Nothing,
        return_animation: String::new(),
        frames: overlays.iter().map(|&n| frame(n)).collect(),
    }
}

fn character(animations: Vec<Animation>, states: &[(&str, &[&str])]) -> Character {
    let mut info = info();
    info.states = states
        .iter()
        .map(|(name, list)| StateInfo {
            name: name.to_string(),
            animations: list.iter().map(|s| s.to_string()).collect(),
        })
        .collect();
    Character {
        info,
        animations,
        artwork: Artwork::Indexed(Vec::new()),
        audio: vec![vec![1], vec![2, 3]],
    }
}

#[test]
fn opens_with_a_resting_pose() {
    let c = character(vec![animation("Wave", &[0]), animation("RESTPOSE", &[0])], &[]);
    assert_eq!(pick_initial_animation(&c), Some(1));
    // A pose without frames is passed over, and so is one that is not there.
    let c = character(
        vec![animation("Wave", &[0]), animation("RestPose", &[]), animation("Greet", &[0])],
        &[],
    );
    assert_eq!(pick_initial_animation(&c), Some(2));
    let c = character(
        vec![animation("Wave", &[0]), animation("Appear", &[0])],
        &[("Hiding", &["Wave"]), ("SHOWING", &["Gone", "appear"])],
    );
    assert_eq!(pick_initial_animation(&c), Some(1));
    let c = character(vec![animation("A", &[]), animation("B", &[0])], &[]);
    assert_eq!(pick_initial_animation(&c), Some(1));
    assert_eq!(pick_initial_animation(&character(vec![animation("A", &[])], &[])), None);
    assert_eq!(find_animation(&c, "b"), Some(1));
    assert_eq!(find_animation(&c, "bb"), None);
}

#[test]
fn talks_over_frames_with_overlays() {
    let c = character(
        vec![animation("Explain", &[1]), animation("Talk", &[0, 1]), animation("Mute", &[0])],
        &[("speaking", &["Mute", "talk"])],
    );
    assert!(animation_has_overlays(&c, 1));
    assert!(!animation_has_overlays(&c, 2));
    assert!(!animation_has_overlays(&c, 9));
    assert_eq!(speaking_animation(&c), Some(1));
    let c = character(vec![animation("X", &[1]), animation("Explain", &[1])], &[]);
    assert_eq!(speaking_animation(&c), Some(1));
    let c = character(vec![animation("X", &[0]), animation("Y", &[1])], &[]);
    assert_eq!(speaking_animation(&c), Some(1));
    assert_eq!(speaking_animation(&character(vec![animation("X", &[0])], &[])), None);
}

#[test]
fn balloons_follow_the_settings() {
    let mut i = info();
    let mut b = balloon_for(&i, "Hello you");
    assert_eq!(b.text, "Hello you");
    assert_eq!(b.visible_chars, 0);
    assert_eq!(b.colors.unwrap().background, rgb(4, 5, 6));
    assert_eq!(b.font_family, "Arial");
    // 16 units are 12 points.
    assert_eq!(b.font_size_quarters, 48);
    assert!(b.italic && b.bold);
    assert_eq!(b.chars_per_line, 28);
    assert_eq!(b.visible_text(), None);
    b.visible_chars = 6;
    assert_eq!(b.visible_text(), Some("Hello ".to_string()));
    b.visible_chars = 99;
    assert_eq!(b.copy().visible_text(), Some("Hello you".to_string()));
    if let Some(s) = &mut i.balloon {
        s.font_height = i32::MIN;
        s.font_weight = 599;
        s.chars_per_line = 0;
    }
    let b = balloon_for(&i, "x");
    assert_eq!((b.font_size_quarters, b.bold, b.chars_per_line), (80, false, 32));
    i.balloon = None;
    let b = balloon_for(&i, "x");
    assert!(b.colors.is_none() && b.font_family.is_empty());
    assert_eq!((b.font_size_quarters, b.italic, b.bold, b.chars_per_line), (44, false, false, 32));
}

#[test]
fn backdrops_take_turns() {
    let b = Backdrop::default();
    assert_eq!(b, Backdrop::Checker);
    assert_eq!(b.next(), Backdrop::Dark);
    assert_eq!(b.next().icon(), "weather-clear-night-symbolic");
    assert_eq!(b.next().next().icon(), "weather-clear-symbolic");
    assert_eq!(b.next().next().next(), b);
    assert_eq!(b.icon(), "view-reveal-symbolic");
}

#[test]
fn the_stage_measures_its_picture() {
    assert_eq!(measure(None), (48, 160, -1, -1));
    assert_eq!(measure(Some(20)), (48, 48, -1, -1));
    assert_eq!(measure(Some(300)), (48, 300, -1, -1));
}

fn talker() -> State {
    let c = character(vec![animation("Idle", &[0, 0]), animation("Talk", &[1, 1])], &[]);
    let mut s = State::new();
    s.load("m.acs".to_string(), Player::new(Rc::new(c)), false);
    s
}

fn speech(text: &str) -> Speech {
    Speech {
        text: text.to_string(),
        wav: vec![0],
        duration_ms: 90,
        envelope: vec![0.5f32.to_bits(), 0],
    }
}

#[test]
fn selecting_plays_the_first_sound_when_sounds_are_on() {
    let mut s = talker();
    assert_eq!(s.select_animation(0), Some(Some(1)));
    assert_eq!(s.sound(Some(1)), Some(&vec![2, 3]));
    assert_eq!(s.sound(Some(2)), None);
    assert_eq!(s.sound(None), None);
    s.sound_enabled = false;
    assert_eq!(s.select_animation(1), Some(None));
    assert_eq!(State::new().select_animation(0), Some(None));
    assert!(!s.player.as_ref().unwrap().is_looping());
    s.toggle_play();
    assert!(!s.player.as_ref().unwrap().is_playing());
    s.toggle_play();
    assert!(s.player.as_ref().unwrap().is_playing());
}

#[test]
fn an_utterance_switches_and_restores() {
    let mut s = talker();
    s.select_animation(0);
    assert!(s.voice_for("  ").is_none());
    assert_eq!(s.voice_for("hi").unwrap().unwrap().speed, 150);
    assert!(State::new().voice_for("hi").is_none());
    assert!(s.begin_speech(speech("Hello"), 1_000_000));
    assert_eq!(s.player.as_ref().unwrap().animation_index(), Some(1));
    assert!(s.player.as_ref().unwrap().is_looping());
    assert_eq!(s.balloon.as_ref().unwrap().text, "Hello");
    assert_eq!(s.speech.as_ref().unwrap().restore_animation, Some(0));
    // The animation being talked over cannot be selected again.
    assert_eq!(s.select_animation(1), None);

    // The first tick only sets the clock.
    let a = s.tick(1_000_000, 0, false);
    assert!(!a.needs_render && !a.finished && a.sound.is_none() && !a.balloon_changed);

    let m = s.moment(1_010_000).unwrap();
    assert_eq!((m.elapsed_ms, m.duration_ms, m.total_chars), (10, 90, 5));
    let a = s.tick(1_010_000, 1, false);
    assert!(a.needs_render && a.balloon_changed);
    assert_eq!(s.last_mouth, Some(MouthShape::WideOpen1));
    assert_eq!(s.shown_mouth(), Some(MouthShape::WideOpen1));
    assert_eq!(s.balloon.as_ref().unwrap().visible_chars, 1);

    // Nothing new to show.
    let a = s.tick(1_020_000, 1, false);
    assert!(!a.needs_render && !a.balloon_changed);

    // The mouth closes, and no more is shown than there is.
    let a = s.tick(1_060_000, 99, false);
    assert!(a.needs_render && a.balloon_changed);
    assert_eq!(s.last_mouth, Some(MouthShape::Closed));
    assert_eq!(s.last_visible_chars, 5);

    // The balloon lingers 900 ms, and then all is as before.
    s.tick(1_990_000, 5, false);
    assert!(s.speech.is_some());
    let a = s.tick(1_991_000, 5, false);
    assert!(a.needs_render && a.balloon_changed);
    assert!(s.speech.is_none() && s.balloon.is_none() && s.last_mouth.is_none());
    assert_eq!(s.player.as_ref().unwrap().animation_index(), Some(0));
    assert!(!s.player.as_ref().unwrap().is_looping());
}

#[test]
fn an_utterance_stays_where_the_mouth_already_moves() {
    let mut s = talker();
    s.select_animation(1);
    s.player.as_mut().unwrap().pause();
    s.begin_speech(speech("Hello"), 0);
    assert_eq!(s.speech.as_ref().unwrap().restore_animation, None);
    assert!(s.player.as_ref().unwrap().is_playing());
    s.end_speech(true);
    assert_eq!(s.player.as_ref().unwrap().animation_index(), Some(1));
    assert!(!State::new().begin_speech(speech("Hello"), 0));
    assert!(!s.update_balloon_progress(3));
    assert_eq!(s.shown_mouth(), None);
}

#[test]
fn long_pauses_are_cut_short() {
    let mut s = talker();
    s.select_animation(0);
    s.tick(5, 0, true);
    // A whole minute passes as a quarter of a second: two frames of 100 ms.
    let a = s.tick(60_000_005, 0, true);
    assert!(a.needs_render && a.finished);
    let mut s = talker();
    s.select_animation(0);
    s.tick(50, 0, true);
    assert!(!s.tick(20, 0, true).needs_render);
    assert!(!s.tick(99_999, 0, true).needs_render);
    let a = s.tick(100_050, 0, true);
    assert!(a.needs_render);
    assert_eq!(a.sound, Some(1));
}

#[test]
fn loading_starts_over() {
    let mut s = talker();
    s.select_animation(0);
    s.begin_speech(speech("Hello"), 0);
    s.tick(9, 0, true);
    let c = character(Vec::new(), &[]);
    s.load("n.acs".to_string(), Player::new(Rc::new(c)), true);
    assert_eq!(s.path.as_deref(), Some("n.acs"));
    assert!(s.speech.is_none());
    assert_eq!(s.last_frame_us, 0);
    assert!(s.player.as_ref().unwrap().is_looping());
}

#[test]
fn words_on_the_window() {
    let t = titles(Some("Merlin"), "m.acs", 12);
    assert_eq!(t.name, "Merlin");
    assert_eq!(t.subtitle, "m.acs · 12 animations");
    assert_eq!(t.window, "Merlin — Agent Viewer");
    assert_eq!(titles(None, "x", 0).name, "Unnamed character");
    assert_eq!(load_complaint("m.acs", "broken"), "m.acs: broken");
    assert_eq!(row_detail(0, "0.0"), "unreadable");
    assert_eq!(row_detail(7, "1.5"), "7 frames · 1.5s");
    let mut s = talker();
    assert_eq!(play_button(None), ("media-playback-start-symbolic", false));
    assert!(!play_button(s.player.as_ref()).1);
    assert_eq!(frame_label(s.player.as_ref().unwrap()), None);
    s.select_animation(0);
    assert_eq!(play_button(s.player.as_ref()), ("media-playback-pause-symbolic", true));
    assert_eq!(frame_label(s.player.as_ref().unwrap()).unwrap(), "Idle · 2 frames");
}

#[test]
fn searching_ignores_case() {
    assert!(row_matches("", "Wave"));
    assert!(row_matches("AV", "Wave"));
    assert!(row_matches("\u{c4}", "B\u{e4}r"));
    assert!(!row_matches("wv", "Wave"));
    assert!(holds_needle("", "wave"));
    assert!(holds_needle("ve", "wave"));
    assert!(!holds_needle("waves", "wave"));
}

#[test]
fn names_are_picked_by_language() {
    let i = info();
    assert_eq!(i.name_for(Some(9)), Some("Merlin"));
    assert_eq!(i.name_for(Some(7)), Some("Zauberer"));
    assert_eq!(i.name_for(Some(3)), Some("Zauberer"));
    assert_eq!(i.description_for(Some(9)), Some("A wizard"));
    let mut none = info();
    none.localized.clear();
    assert_eq!(none.name_for(None), None);
    let set = |s: &str| Some(s.to_string());
    let settings = vec![set(""), None, set("en_US"), set("de_DE")];
    assert_eq!(pick_language(&settings, &vec![Some(1), Some(2), None, Some(7)]), Some(7));
    assert_eq!(pick_language(&settings, &vec![None, None, Some(9), Some(7)]), Some(9));
    assert_eq!(pick_language(&vec![None], &vec![None]), None);
}

#[test]
fn locales_stand_for_languages() {
    assert_eq!(primary_language("de_DE.UTF-8"), Some(0x07));
    assert_eq!(primary_language("en"), Some(0x09));
    assert_eq!(primary_language("ar@latin"), Some(0x01));
    assert_eq!(primary_language("sl-SI"), Some(0x24));
    assert_eq!(primary_language("cmn.UTF-8"), Some(0x04));
    assert_eq!(primary_language("english"), None);
    assert_eq!(primary_language("DE"), None);
    assert_eq!(primary_language("_DE"), None);
    assert_eq!(primary_language(""), None);
}

fn rows(g: &Group) -> Vec<(String, String)> {
    g.rows.iter().map(|r| (r.title.clone(), r.value.clone())).collect()
}

fn pair(a: &str, b: &str) -> (String, String) {
    (a.to_string(), b.to_string())
}

#[test]
fn the_details_are_complete() {
    let c = character(
        vec![animation("A", &[0])],
        &[("Speaking", &["B", "C"]), ("Hiding", &[]), ("Speaking", &["A"])],
    );
    let g = character_group(&c, Some("Merlin"), Some("A wizard"), Some("/m.acs"));
    assert_eq!(g.title, "Character");
    assert_eq!(
        rows(&g),
        vec![
            pair("Name", "Merlin"),
            pair("Description", "A wizard"),
            pair("Size", "128 × 96 px"),
            pair("Format version", "2.1"),
            pair("Palette", "3 colours"),
            pair("File", "/m.acs"),
        ]
    );
    assert_eq!(rows(&character_group(&c, None, None, None))[0], pair("Name", "—"));
    assert_eq!(character_group(&c, None, None, None).rows.len(), 4);
    let g = contents_group(&c);
    assert_eq!(
        rows(&g),
        vec![
            pair("Animations", "1"),
            pair("Images", "0"),
            pair("Sounds", "2"),
            pair("States", "3"),
            pair("Localisations", "2"),
        ]
    );
    let g = voice_group(&c).unwrap();
    assert_eq!(
        g.description.as_deref(),
        Some("Used as defaults when speaking through espeak-ng")
    );
    assert_eq!(
        rows(&g),
        vec![pair("Speed", "150 wpm"), pair("Pitch", "120"), pair("Gender", "Male")]
    );
    // By name, and states of one name in their order.
    let g = states_group(&c).unwrap();
    assert_eq!(
        rows(&g),
        vec![pair("Hiding", ""), pair("Speaking", "B, C"), pair("Speaking", "A")]
    );
    assert!(states_group(&character(Vec::new(), &[])).is_none());
    let mut mute = character(Vec::new(), &[]);
    mute.info.voice = Some(VoiceInfo { speed: 1, pitch: 2, gender: Some(1), language_id: None });
    assert_eq!(rows(&voice_group(&mute).unwrap())[2], pair("Gender", "Female"));
    mute.info.voice = Some(VoiceInfo { speed: 1, pitch: 2, gender: Some(3), language_id: None });
    assert_eq!(rows(&voice_group(&mute).unwrap())[2], pair("Gender", "Unspecified"));
    mute.info.voice = None;
    assert!(voice_group(&mute).is_none());
}
