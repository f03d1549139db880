use agentview::bytes::{has_tag, padded_word, to_signed};
use agentview::character::{Artwork, Character};
use agentview::cli::{parse_args, Command};
use agentview::dump::{choose_animation, png_request, survey, survey_animation, Tally};
use agentview::png::{adler32, chunk, crc32, encode_png};
use agentview::reader::Cursor;
use agentview::speech::Engine;
use agentview::text::{
    contains, decimal_text, eq_ignore_ascii_case, parse_number, text_ordered, trim,
};
use agentview::types::{
    Animation, Branch, CharacterInfo, Frame, MouthShape, Overlay, RgbaImage, Transition,
};

#[test]
fn checksums_match_their_standards() {
    assert_eq!(crc32(b"123456789"), 0xCBF4_3926);
    assert_eq!(crc32(b""), 0);
    assert_eq!(adler32(b"Wikipedia"), 0x11E6_0398);
    assert_eq!(adler32(b""), 1);
    let mut out = Vec::new();
    chunk(&mut out, b"IEND", &[]);
    assert_eq!(out, vec![0, 0, 0, 0, 0x49, 0x45, 0x4E, 0x44, 0xAE, 0x42, 0x60, 0x82]);
}

/// Takes the stored blocks of a PNG file apart again.
fn raw_bytes(png: &[u8]) -> Vec<u8> {
    assert_eq!(&png[..8], &[0x89, b'P', b'N', b'G', 0x0D, 0x0A, 0x1A, 0x0A]);
    let at = 8 + 12 + 13;
    assert_eq!(&png[at + 4..at + 8], b"IDAT");
    let mut p = at + 8;
    assert_eq!(&png[p..p + 2], &[0x78, 0x01]);
    p += 2;
    let mut out = Vec::new();
    loop {
        let last = png[p];
        let n = u16::from_le_bytes([png[p + 1], png[p + 2]]);
        let inverse = u16::from_le_bytes([png[p + 3], png[p + 4]]);
        assert_eq!(n, !inverse);
        out.extend_from_slice(&png[p + 5..p + 5 + n as usize]);
        p += 5 + n as usize;
        if last == 1 {
            break;
        }
    }
    assert_eq!(&png[p..p + 4], &adler32(&out).to_be_bytes());
    out
}

#[test]
fn pictures_survive_encoding() {
    let image = RgbaImage { width: 2, height: 2, data: (0..16).collect() };
    assert_eq!(image.stride(), 8);
    let png = encode_png(&image);
    assert_eq!(&png[16..24], &[0, 0, 0, 2, 0, 0, 0, 2]);
    assert_eq!(&png[24..29], &[8, 6, 0, 0, 0]);
    let raw = raw_bytes(&png);
    assert_eq!(raw, vec![0, 0, 1, 2, 3, 4, 5, 6, 7, 0, 8, 9, 10, 11, 12, 13, 14, 15]);
    // Large enough for several blocks.
    let data: Vec<u8> = (0..200 * 100 * 4).map(|i| (i * 7) as u8).collect();
    let image = RgbaImage { width: 200, height: 100, data };
    let raw = raw_bytes(&encode_png(&image));
    assert_eq!(raw.len(), 100 * 801);
    for y in 0..100 {
        assert_eq!(raw[y * 801], 0);
        assert_eq!(&raw[y * 801 + 1..(y + 1) * 801], &image.data[y * 800..(y + 1) * 800]);
    }
}

fn args(list: &[&str]) -> Vec<String> {
    list.iter().map(|s| s.to_string()).collect()
}

#[test]
fn arguments_are_read() {
    match parse_args(&args(&[
        "-a", "Wave", "one.acs", "--say", "Hi", "--tts", "kokoro", "--kokoro-voice", "x", "two.act",
    ])) {
        Command::Open(s, file) => {
            assert_eq!(s.animation.as_deref(), Some("Wave"));
            assert_eq!(s.say.as_deref(), Some("Hi"));
            assert_eq!(s.speech_engine, Engine::Kokoro);
            assert_eq!(s.kokoro_voice.as_deref(), Some("x"));
            assert_eq!(file.as_deref(), Some("two.act"));
        }
        _ => panic!("not opened"),
    }
    match parse_args(&args(&["-s", "Hi", "-s"])) {
        Command::Open(s, file) => {
            assert_eq!(s.say, None);
            assert_eq!(s.animation, None);
            assert_eq!(s.speech_engine, Engine::EspeakNg);
            assert_eq!(file, None);
        }
        _ => panic!("not opened"),
    }
    assert!(matches!(parse_args(&args(&["x", "-h", "--tts"])), Command::Help));
    assert!(matches!(parse_args(&args(&["--help"])), Command::Help));
    assert!(matches!(parse_args(&args(&["--tts", "other"])), Command::BadEngine));
    assert!(matches!(parse_args(&args(&["--tts"])), Command::BadEngine));
    assert!(matches!(parse_args(&args(&["--animation", "-h"])), Command::Open(_, None)));
}

fn frame(audio: bool, branches: usize, overlays: usize) -> Frame {
    Frame {
        images: Vec::new(),
        audio_index: if audio { Some(0) } else { None },
        duration: 1,
        exit_frame: -1,
        branches: vec![Branch { frame_index: 0, probability: 1 }; branches],
        overlays: vec![Overlay { mouth: MouthShape::Closed, image_index: 0 }; overlays],
    }
}

fn character() -> Character {
    let animation = |name: &str, frames| Animation {
        name: name.to_string(),
        transition: Transition::Nothing,
        return_animation: String::new(),
        frames,
    };
    Character {
        info: CharacterInfo {
            major_version: 1,
            minor_version: 5,
            guid: [0; 16],
            width: 1,
            height: 1,
            transparent_index: 0,
            flags: 0,
            voice: None,
            balloon: None,
            palette: Vec::new(),
            states: Vec::new(),
            localized: Vec::new(),
        },
        animations: vec![
            animation("Empty", Vec::new()),
            animation("Talk", vec![frame(true, 2, 1), frame(false, 1, 2), frame(true, 0, 0)]),
            animation("Plain", vec![frame(false, 0, 0)]),
        ],
        artwork: Artwork::Indexed(Vec::new()),
        audio: Vec::new(),
    }
}

#[test]
fn the_dump_counts() {
    let c = character();
    let s = survey(&c);
    assert_eq!((s.overlay_animations, s.overlay_frames, s.empty_animations), (1, 2, 1));
    let a = survey_animation(&c.animations[1]);
    assert_eq!((a.sounds, a.branches), (2, 3));
    let mut t = Tally::new();
    t.decoded(3, 4);
    t.decoded(1, 1);
    assert_eq!(t.total_pixels, 13);
    let complained: Vec<bool> = (0..7).map(|_| t.failed()).collect();
    assert_eq!(complained, vec![true, true, true, true, true, false, false]);
    assert_eq!(t.failures, 7);
}

#[test]
fn the_dump_chooses_a_frame() {
    let c = character();
    assert_eq!(choose_animation(&c, "plain"), Some(2));
    assert_eq!(choose_animation(&c, "empty"), Some(0));
    assert_eq!(choose_animation(&c, "other"), Some(1));
    assert!(png_request(&args(&["f.acs"])).is_none());
    let q = png_request(&args(&["f.acs", "--png", "Wave", "12", "o.png", "--mouth", "5"])).unwrap();
    assert_eq!((q.animation.as_str(), q.frame, q.out.as_str()), ("Wave", 12, "o.png"));
    assert_eq!(q.mouth, Some(MouthShape::Medium));
    let q = png_request(&args(&["--mouth", "x", "--png"])).unwrap();
    assert_eq!((q.animation.as_str(), q.frame, q.out.as_str()), ("", 0, "frame.png"));
    assert_eq!(q.mouth, None);
    assert_eq!(MouthShape::from_u8(6), Some(MouthShape::Narrow));
    assert_eq!(MouthShape::from_u8(7), None);
}

#[test]
fn texts_are_handled_by_character() {
    assert_eq!(decimal_text(0), "0");
    assert_eq!(decimal_text(18446744073709551615), "18446744073709551615");
    assert!(eq_ignore_ascii_case("RestPose", "RESTPOSE"));
    assert!(!eq_ignore_ascii_case("\u{e4}", "\u{c4}"));
    assert_eq!(trim(" \u{3000}a b\r\n"), "a b");
    assert_eq!(trim(" \t "), "");
    assert!(text_ordered("a", "ab") && text_ordered("B", "a") && !text_ordered("b", "a"));
    assert!(contains("abcabd", "abd") && !contains("abc", "abcd") && contains("", ""));
    assert_eq!(parse_number("255", 255), Some(255));
    assert_eq!(parse_number("256", 255), None);
    assert_eq!(parse_number("+7", 255), Some(7));
    assert_eq!(parse_number("007", 9), Some(7));
    for bad in ["", "+", "-1", "1x", " 1", "99999999999999999999"] {
        assert_eq!(parse_number(bad, 18446744073709551615), None);
    }
}

#[test]
fn bytes_are_read_in_place() {
    assert!(has_tag(b"xRIFF", 1, b"RIFF"));
    assert!(!has_tag(b"xRIF", 1, b"RIFF"));
    assert_eq!(padded_word(&[1, 2, 3], 1), 0x0302);
    assert_eq!(padded_word(&[1, 2, 3], 2), 0);
    assert_eq!(to_signed(0xFFFF), -1);
    let data = [1u8, 2, 0, 3, 0, 0, 0, 9, 9];
    let mut c = Cursor::new(&data);
    assert_eq!(c.u8().unwrap(), 1);
    assert_eq!(c.u16().unwrap(), 2);
    assert_eq!(c.u32().unwrap(), 3);
    assert_eq!(c.bytes(2).unwrap(), vec![9, 9]);
    assert_eq!(c.u8().unwrap_err().message(), "unexpected end of data");
}
