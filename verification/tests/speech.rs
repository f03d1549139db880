use agentview::audio::{parse_wav, WavFormat};
use agentview::speech::{
    audio_of, envelope_of, espeak_args, espeak_language, espeak_voice, kokoro_args,
    kokoro_file_name, pitch, request, speed_wpm, Engine, Run, Speech, Window,
};
use agentview::types::{MouthShape, VoiceInfo};

#[test]
fn parses_supported_engines() {
    assert!(matches!(Engine::parse("espeak-ng"), Some(Engine::EspeakNg)));
    assert!(matches!(Engine::parse("kokoro"), Some(Engine::Kokoro)));
    assert!(Engine::parse("other").is_none());
}

#[test]
fn the_default_engine_is_espeak() {
    assert_eq!(Engine::default(), Engine::EspeakNg);
    assert_eq!(Engine::EspeakNg.program(), "espeak-ng");
    assert_eq!(Engine::Kokoro.program(), "kokoro-tts");
}

fn wav(declared: u32, samples: &[i16], channels: u16, rate: u32, bits: u16) -> Vec<u8> {
    let mut out = b"RIFF\0\0\0\0WAVEfmt ".to_vec();
    out.extend_from_slice(&16u32.to_le_bytes());
    out.extend_from_slice(&1u16.to_le_bytes());
    out.extend_from_slice(&channels.to_le_bytes());
    out.extend_from_slice(&rate.to_le_bytes());
    out.extend_from_slice(&[0; 6]);
    out.extend_from_slice(&bits.to_le_bytes());
    out.extend_from_slice(b"data");
    out.extend_from_slice(&declared.to_le_bytes());
    for s in samples {
        out.extend_from_slice(&s.to_le_bytes());
    }
    out
}

#[test]
fn finds_the_samples() {
    let data = wav(4, &[1, 2, 3], 1, 8000, 16);
    let (format, pcm) = parse_wav(&data).unwrap();
    assert_eq!(format, WavFormat { tag: 1, channels: 1, sample_rate: 8000, bits: 16 });
    assert_eq!(pcm, &[1, 0, 2, 0]);
    // A placeholder size stands for the rest.
    assert_eq!(parse_wav(&wav(0, &[1, 2, 3], 1, 8000, 16)).unwrap().1.len(), 6);
    assert_eq!(parse_wav(&wav(0xFFFF_FFFF, &[1, 2, 3], 1, 8000, 16)).unwrap().1.len(), 6);
    // No channels and no rate count as one.
    let bare = wav(2, &[1], 0, 0, 8);
    let (f, _) = parse_wav(&bare).unwrap();
    assert_eq!((f.channels, f.sample_rate, f.bits), (1, 1, 8));
}

#[test]
fn odd_chunks_are_padded() {
    let mut data = b"RIFF\0\0\0\0WAVEjunk\x01\0\0\0xx".to_vec();
    data.extend_from_slice(&wav(2, &[5], 2, 9, 16)[12..]);
    let (f, pcm) = parse_wav(&data).unwrap();
    assert_eq!(f.sample_rate, 9);
    assert_eq!(pcm, &[5, 0]);
}

#[test]
fn buffers_without_format_or_samples_are_refused() {
    assert!(parse_wav(b"RIFF").is_none());
    assert!(parse_wav(b"RIFX\0\0\0\0WAVE").is_none());
    assert!(parse_wav(b"RIFF\0\0\0\0WAVEdata\x02\0\0\0ab").is_none());
    let data = wav(2, &[1], 1, 1, 16);
    assert!(parse_wav(&data[..36]).is_none());
    assert!(parse_wav(b"RIFF\0\0\0\0WAVEjunk\xFF\xFF\xFF\xFF").is_none());
}

#[test]
fn loudness_is_measured_in_windows() {
    // 45 ms at 100 samples a second are four samples.
    let data = wav(0, &[3, 4, -3, 0, 10, -32768], 1, 100, 16);
    let (windows, ms) = envelope_of(&data);
    assert_eq!(ms, 60);
    assert_eq!(
        windows,
        vec![
            Window { energy: 34, samples: 4 },
            Window { energy: 100 + 0x4000_0000, samples: 2 },
        ]
    );
    // Of two channels the first counts.
    let (windows, ms) = envelope_of(&wav(0, &[3, 100, 4, 100], 2, 10, 16));
    assert_eq!(ms, 200);
    assert_eq!(
        windows,
        vec![Window { energy: 9, samples: 1 }, Window { energy: 16, samples: 1 }]
    );
    assert_eq!(envelope_of(&wav(0, &[1], 1, 100, 8)), (vec![], 0));
    assert_eq!(envelope_of(b"noise"), (vec![], 0));
}

fn speech(levels: &[f32]) -> Speech {
    Speech {
        text: "Hi".to_string(),
        wav: Vec::new(),
        duration_ms: 100,
        envelope: levels.iter().map(|l| l.to_bits()).collect(),
    }
}

#[test]
fn the_mouth_follows_the_loudness() {
    let s = speech(&[0.0, 0.079, 0.08, 0.2, 0.38, 0.55, 0.7, 0.85, 1.0]);
    let mouths: Vec<MouthShape> = (0..10).map(|i| s.mouth_at(i * 45)).collect();
    assert_eq!(
        mouths,
        vec![
            MouthShape::Closed,
            MouthShape::Closed,
            MouthShape::Narrow,
            MouthShape::Medium,
            MouthShape::WideOpen1,
            MouthShape::WideOpen2,
            MouthShape::WideOpen3,
            MouthShape::WideOpen4,
            MouthShape::WideOpen4,
            MouthShape::Closed,
        ]
    );
    assert_eq!(s.mouth_at(44), MouthShape::Closed);
    assert_eq!(s.mouth_at(134), MouthShape::Narrow);
}

fn voice(speed: u32, pitch: u16, gender: Option<u16>, language_id: Option<u16>) -> VoiceInfo {
    VoiceInfo { speed, pitch, gender, language_id }
}

#[test]
fn voices_are_derived_from_the_settings() {
    assert_eq!(espeak_voice(None), "en+m3");
    assert_eq!(espeak_voice(Some(&voice(0, 0, Some(1), Some(0x0407)))), "de+f3");
    assert_eq!(espeak_voice(Some(&voice(0, 0, Some(2), Some(0x0C0A)))), "es+m3");
    assert_eq!(espeak_voice(Some(&voice(0, 0, Some(7), Some(0x0002)))), "en+m3");
    assert_eq!(espeak_language(0x24), Some("sl"));
    assert_eq!(espeak_language(0x0F), None);
    assert_eq!(speed_wpm(None), 165);
    assert_eq!(speed_wpm(Some(&voice(79, 0, None, None))), 165);
    assert_eq!(speed_wpm(Some(&voice(80, 0, None, None))), 80);
    assert_eq!(speed_wpm(Some(&voice(450, 0, None, None))), 450);
    assert_eq!(speed_wpm(Some(&voice(451, 0, None, None))), 165);
    assert_eq!(pitch(None), 50);
    assert_eq!(pitch(Some(&voice(0, 99, None, None))), 99);
    assert_eq!(pitch(Some(&voice(0, 100, None, None))), 16);
    assert_eq!(pitch(Some(&voice(0, 250, None, None))), 66);
    assert_eq!(pitch(Some(&voice(0, 65535, None, None))), 99);
}

#[test]
fn engines_get_their_arguments() {
    let v = voice(120, 40, Some(2), Some(0x040C));
    assert_eq!(
        espeak_args("--help", Some(&v)),
        vec!["--stdout", "-v", "fr+m3", "-s", "120", "-p", "40", "--", "--help"]
    );
    assert_eq!(
        kokoro_args("Hi", Some(&v), None),
        vec!["--text", "Hi", "--voice", "am_adam"]
    );
    assert_eq!(kokoro_args("Hi", None, None)[3], "af_heart");
    assert_eq!(kokoro_args("Hi", Some(&v), Some("bf_emma"))[3], "bf_emma");
    assert_eq!(kokoro_file_name(12, 3), "agentview-kokoro-12-3.wav");
}

#[test]
fn requests_are_trimmed() {
    let q = request("  Hello\n", None, Engine::Kokoro, None).unwrap();
    assert_eq!(q.text, "Hello");
    assert_eq!(q.args[1], "Hello");
    assert_eq!(request(" Hi", None, Engine::EspeakNg, None).unwrap().args[8], "Hi");
    assert_eq!(request(" \t\u{a0}", None, Engine::EspeakNg, None).unwrap_err(), "nothing to say");
}

#[test]
fn runs_are_judged() {
    let e = Engine::EspeakNg;
    let k = Engine::Kokoro;
    assert_eq!(audio_of(e, Run::Done(vec![1])).unwrap(), vec![1]);
    assert_eq!(audio_of(e, Run::Done(vec![])).unwrap_err(), "espeak-ng produced no audio");
    assert_eq!(
        audio_of(e, Run::NotStarted("gone".to_string())).unwrap_err(),
        "could not run espeak-ng: gone"
    );
    assert_eq!(
        audio_of(k, Run::Failed(b" no \xFFvoice\n".to_vec())).unwrap_err(),
        "kokoro-tts failed: no \u{FFFD}voice"
    );
    assert_eq!(
        audio_of(k, Run::NotCreated("full".to_string())).unwrap_err(),
        "could not create Kokoro output file: full"
    );
    assert_eq!(
        audio_of(k, Run::NotRead("gone".to_string())).unwrap_err(),
        "could not read Kokoro audio: gone"
    );
    assert_eq!(audio_of(k, Run::Done(vec![])).unwrap_err(), "kokoro-tts produced no audio");
}
