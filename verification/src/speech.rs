//! Text-to-speech: what the engines are asked for, what their answers mean,
//! and the amplitude envelope that drives mouth overlays.
//!
//! Microsoft Agent got viseme timings from the SAPI 4 engine. The supported
//! engines do not expose those, so the mouth is driven from the loudness of the
//! rendered audio instead: loud passages open the mouth wide, silence closes
//! it. That tracks speech closely enough to read as lip sync.
//!
//! A loudness level is a non-negative single-precision number. It is kept by
//! its IEEE 754 bit pattern, which orders such numbers as their values do.
use vstd::prelude::*;

use crate::audio;
use crate::audio::{parse_wav, WavFormat};
use crate::bytes;
use crate::bytes::{to_signed, word};
use crate::text;
use crate::text::{decimal_text, from_utf8_lossy, same_text, trim};
use crate::types::{MouthShape, VoiceInfo};

verus! {

/// Envelope resolution. Roughly matches how often Agent changed mouth images.
pub const WINDOW_MS: u64 = 45;

/// The speech engines.
#[derive(Debug, Clone, Copy, PartialEq, Eq, Structural)]
pub enum Engine {
    EspeakNg,
    Kokoro,
}

impl Default for Engine {
    fn default() -> (r: Engine)
        ensures
            r == Engine::EspeakNg,
    {
        Engine::EspeakNg
    }
}

impl Engine {
    /// The engine that a name stands for, if it stands for one.
    pub open spec fn named(value: Seq<char>) -> Option<Engine> {
        if value == "espeak-ng"@ {
            Some(Engine::EspeakNg)
        } else if value == "kokoro"@ {
            Some(Engine::Kokoro)
        } else {
            None
        }
    }

    /// Finds an engine by its name.
    pub fn parse(value: &str) -> (r: Option<Engine>)
        ensures
            r == Engine::named(value@),
    {
        if same_text(value, "espeak-ng") {
            Some(Engine::EspeakNg)
        } else if same_text(value, "kokoro") {
            Some(Engine::Kokoro)
        } else {
            None
        }
    }
}

/// The pattern of the level 0.08, below which the mouth is closed.
pub const LEVEL_NARROW: u32 = 0x3DA3_D70A;

/// The pattern of the level 0.20.
pub const LEVEL_MEDIUM: u32 = 0x3E4C_CCCD;

/// The pattern of the level 0.38.
pub const LEVEL_WIDE1: u32 = 0x3EC2_8F5C;

/// The pattern of the level 0.55.
pub const LEVEL_WIDE2: u32 = 0x3F0C_CCCD;

/// The pattern of the level 0.70.
pub const LEVEL_WIDE3: u32 = 0x3F33_3333;

/// The pattern of the level 0.85.
pub const LEVEL_WIDE4: u32 = 0x3F59_999A;

/// The mouth for a loudness level.
pub open spec fn mouth_of(level: u32) -> MouthShape {
    if level < LEVEL_NARROW {
        MouthShape::Closed
    } else if level < LEVEL_MEDIUM {
        MouthShape::Narrow
    } else if level < LEVEL_WIDE1 {
        MouthShape::Medium
    } else if level < LEVEL_WIDE2 {
        MouthShape::WideOpen1
    } else if level < LEVEL_WIDE3 {
        MouthShape::WideOpen2
    } else if level < LEVEL_WIDE4 {
        MouthShape::WideOpen3
    } else {
        MouthShape::WideOpen4
    }
}

/// How far open a mouth is, from closed up.
pub open spec fn openness(m: MouthShape) -> int {
    match m {
        MouthShape::Closed => 0,
        MouthShape::Narrow => 1,
        MouthShape::Medium => 2,
        MouthShape::WideOpen1 => 3,
        MouthShape::WideOpen2 => 4,
        MouthShape::WideOpen3 => 5,
        MouthShape::WideOpen4 => 6,
    }
}

/// Louder passages open the mouth at least as wide, and silence closes it.
pub proof fn louder_opens_wider(a: u32, b: u32)
    requires
        a <= b,
    ensures
        openness(mouth_of(a)) <= openness(mouth_of(b)),
        mouth_of(0) == MouthShape::Closed,
{
}

/// A rendered utterance.
#[derive(Debug)]
pub struct Speech {
    pub text: String,
    pub wav: Vec<u8>,
    pub duration_ms: u64,
    /// The loudness of each window, relative to the loudest one.
    pub envelope: Vec<u32>,
}

impl Speech {
    /// The mouth at a point in the utterance; past its end, closed.
    pub open spec fn mouth(&self, t_ms: u64) -> MouthShape {
        if t_ms / WINDOW_MS < self.envelope@.len() {
            mouth_of(self.envelope@[(t_ms / WINDOW_MS) as int])
        } else {
            MouthShape::Closed
        }
    }

    /// Mouth shape at a point in the utterance.
    pub fn mouth_at(&self, t_ms: u64) -> (r: MouthShape)
        ensures
            r == self.mouth(t_ms),
    {
        let i: u64 = t_ms / WINDOW_MS;
        if i >= self.envelope.len() as u64 {
            return MouthShape::Closed;
        }
        let level = self.envelope[i as usize];
        if level < LEVEL_NARROW {
            MouthShape::Closed
        } else if level < LEVEL_MEDIUM {
            MouthShape::Narrow
        } else if level < LEVEL_WIDE1 {
            MouthShape::Medium
        } else if level < LEVEL_WIDE2 {
            MouthShape::WideOpen1
        } else if level < LEVEL_WIDE3 {
            MouthShape::WideOpen2
        } else if level < LEVEL_WIDE4 {
            MouthShape::WideOpen3
        } else {
            MouthShape::WideOpen4
        }
    }
}

/// The espeak-ng code of a Windows primary language.
pub open spec fn language_of(primary: u16) -> Option<Seq<char>> {
    match primary {
        0x01 => Some("ar"@),
        0x04 => Some("cmn"@),
        0x05 => Some("cs"@),
        0x06 => Some("da"@),
        0x07 => Some("de"@),
        0x08 => Some("el"@),
        0x09 => Some("en"@),
        0x0A => Some("es"@),
        0x0B => Some("fi"@),
        0x0C => Some("fr"@),
        0x0D => Some("he"@),
        0x0E => Some("hu"@),
        0x10 => Some("it"@),
        0x11 => Some("ja"@),
        0x12 => Some("ko"@),
        0x13 => Some("nl"@),
        0x14 => Some("nb"@),
        0x15 => Some("pl"@),
        0x16 => Some("pt"@),
        0x19 => Some("ru"@),
        0x1A => Some("hr"@),
        0x1B => Some("sk"@),
        0x1D => Some("sv"@),
        0x1E => Some("th"@),
        0x1F => Some("tr"@),
        0x24 => Some("sl"@),
        _ => None,
    }
}

/// Finds the espeak-ng code of a Windows primary language.
pub fn espeak_language(primary: u16) -> (r: Option<&'static str>)
    ensures
        match r {
            Some(s) => language_of(primary) == Some(s@),
            None => language_of(primary) is None,
        },
{
    match primary {
        0x01 => Some("ar"),
        0x04 => Some("cmn"),
        0x05 => Some("cs"),
        0x06 => Some("da"),
        0x07 => Some("de"),
        0x08 => Some("el"),
        0x09 => Some("en"),
        0x0A => Some("es"),
        0x0B => Some("fi"),
        0x0C => Some("fr"),
        0x0D => Some("he"),
        0x0E => Some("hu"),
        0x10 => Some("it"),
        0x11 => Some("ja"),
        0x12 => Some("ko"),
        0x13 => Some("nl"),
        0x14 => Some("nb"),
        0x15 => Some("pl"),
        0x16 => Some("pt"),
        0x19 => Some("ru"),
        0x1A => Some("hr"),
        0x1B => Some("sk"),
        0x1D => Some("sv"),
        0x1E => Some("th"),
        0x1F => Some("tr"),
        0x24 => Some("sl"),
        _ => None,
    }
}

/// The gender in some voice settings. SAPI 4 has 1 for female and 2 for male.
pub open spec fn gender_of(voice: Option<&VoiceInfo>) -> Option<u16> {
    match voice {
        Some(v) => v.gender,
        None => None,
    }
}

/// The espeak-ng voice for some voice settings: language, which English stands
/// in for, and a variant for the gender, which is male unless set female. The
/// low ten bits of a language id are its primary language.
pub open spec fn voice_name(voice: Option<&VoiceInfo>) -> Seq<char> {
    let english = "en"@;
    let language = match voice {
        Some(v) => match v.language_id {
            Some(id) => match language_of((id % 1024) as u16) {
                Some(l) => l,
                None => english,
            },
            None => english,
        },
        None => english,
    };
    language + (if gender_of(voice) == Some(1u16) {
        "+f3"@
    } else {
        "+m3"@
    })
}

/// espeak-ng voice name, e.g. `en+m3`, derived from the character's voice
/// settings.
pub fn espeak_voice(voice: Option<&VoiceInfo>) -> (r: String)
    ensures
        r@ == voice_name(voice),
{
    let mut name = "en".to_owned();
    let mut female = false;
    if let Some(v) = voice {
        if let Some(id) = v.language_id {
            if let Some(l) = espeak_language(id % 1024) {
                name = l.to_owned();
            }
        }
        if let Some(g) = v.gender {
            female = g == 1;
        }
    }
    if female {
        name.append("+f3");
    } else {
        name.append("+m3");
    }
    name
}

/// The speed for some voice settings, where espeak-ng accepts it.
pub open spec fn speed_of(voice: Option<&VoiceInfo>) -> u32 {
    match voice {
        Some(v) => if 80 <= v.speed <= 450 {
            v.speed
        } else {
            165
        },
        None => 165,
    }
}

/// espeak-ng accepts 80-450 words per minute.
pub fn speed_wpm(voice: Option<&VoiceInfo>) -> (r: u32)
    ensures
        r == speed_of(voice),
        80 <= r <= 450,
{
    match voice {
        Some(v) => if 80 <= v.speed && v.speed <= 450 {
            v.speed
        } else {
            165
        },
        None => 165,
    }
}

/// The pitch for some voice settings: as it is up to 99, and counted from 50
/// hertz in steps of three above.
pub open spec fn pitch_of(voice: Option<&VoiceInfo>) -> u32 {
    match voice {
        Some(v) => if v.pitch <= 99 {
            v.pitch as u32
        } else if (v.pitch - 50) / 3 > 99 {
            99
        } else {
            ((v.pitch - 50) / 3) as u32
        },
        None => 50,
    }
}

/// espeak-ng pitch is 0-99. Characters store either that range directly or a
/// SAPI 4 baseline frequency in hertz.
pub fn pitch(voice: Option<&VoiceInfo>) -> (r: u32)
    ensures
        r == pitch_of(voice),
        r <= 99,
{
    match voice {
        Some(v) => {
            let p = v.pitch as u32;
            if p <= 99 {
                p
            } else {
                let steps: u32 = (p - 50) / 3;
                if steps > 99 {
                    99
                } else {
                    steps
                }
            }
        },
        None => 50,
    }
}

/// The arguments espeak-ng is run with. Everything after `--` is data, never
/// options.
pub open spec fn espeak_arguments(text: Seq<char>, voice: Option<&VoiceInfo>) -> Seq<Seq<char>> {
    seq![
        "--stdout"@,
        "-v"@,
        voice_name(voice),
        "-s"@,
        text::decimal(speed_of(voice) as nat),
        "-p"@,
        text::decimal(pitch_of(voice) as nat),
        "--"@,
        text,
    ]
}

/// Whatever is to be said, espeak-ng reads it as data: it is the one argument
/// behind the end of the options.
pub proof fn text_is_never_an_option(text: Seq<char>, voice: Option<&VoiceInfo>)
    ensures
        espeak_arguments(text, voice).len() == 9,
        espeak_arguments(text, voice)[7] == "--"@,
        espeak_arguments(text, voice)[8] == text,
        forall|other: Seq<char>, i: int|
            0 <= i < 8 ==> #[trigger] espeak_arguments(other, voice)[i] == espeak_arguments(
                text,
                voice,
            )[i],
{
}

fn push_text(args: &mut Vec<String>, s: &str)
    ensures
        text::texts(final(args)@) == text::texts(old(args)@).push(s@),
{
    let ghost before = text::texts(args@);
    args.push(s.to_owned());
    assert(text::texts(args@) =~= before.push(s@));
}

/// Lists the arguments to run espeak-ng with.
pub fn espeak_args(text: &str, voice: Option<&VoiceInfo>) -> (r: Vec<String>)
    ensures
        text::texts(r@) == espeak_arguments(text@, voice),
{
    let mut args: Vec<String> = Vec::new();
    assert(text::texts(args@) =~= Seq::empty());
    push_text(&mut args, "--stdout");
    push_text(&mut args, "-v");
    let name = espeak_voice(voice);
    push_text(&mut args, name.as_str());
    push_text(&mut args, "-s");
    let speed = decimal_text(speed_wpm(voice) as u64);
    push_text(&mut args, speed.as_str());
    push_text(&mut args, "-p");
    let p = decimal_text(pitch(voice) as u64);
    push_text(&mut args, p.as_str());
    push_text(&mut args, "--");
    push_text(&mut args, text);
    assert(text::texts(args@) =~= espeak_arguments(text@, voice));
    args
}

/// The Kokoro voice: the configured one, or one that suits the gender.
pub open spec fn kokoro_voice_of(voice: Option<&VoiceInfo>, configured: Option<&str>) -> Seq<char> {
    match configured {
        Some(v) => v@,
        None => if gender_of(voice) == Some(2u16) {
            "am_adam"@
        } else {
            "af_heart"@
        },
    }
}

/// The arguments kokoro-tts is run with, but for the output file that follows
/// them.
pub open spec fn kokoro_arguments(
    text: Seq<char>,
    voice: Option<&VoiceInfo>,
    configured: Option<&str>,
) -> Seq<Seq<char>> {
    seq!["--text"@, text, "--voice"@, kokoro_voice_of(voice, configured)]
}

/// Lists the arguments to run kokoro-tts with, in front of the output file.
pub fn kokoro_args(text: &str, voice: Option<&VoiceInfo>, configured: Option<&str>) -> (r: Vec<
    String,
>)
    ensures
        text::texts(r@) == kokoro_arguments(text@, voice, configured),
{
    let chosen: &str = match configured {
        Some(v) => v,
        None => {
            let male = match voice {
                Some(v) => match v.gender {
                    Some(g) => g == 2,
                    None => false,
                },
                None => false,
            };
            if male {
                "am_adam"
            } else {
                "af_heart"
            }
        },
    };
    let mut args: Vec<String> = Vec::new();
    assert(text::texts(args@) =~= Seq::empty());
    push_text(&mut args, "--text");
    push_text(&mut args, text);
    push_text(&mut args, "--voice");
    push_text(&mut args, chosen);
    assert(text::texts(args@) =~= kokoro_arguments(text@, voice, configured));
    args
}

/// The name of Kokoro's output file number `id` of process `pid`.
pub open spec fn kokoro_file(pid: u32, id: u64) -> Seq<char> {
    "agentview-kokoro-"@ + text::decimal(pid as nat) + "-"@ + text::decimal(id as nat) + ".wav"@
}

/// Names Kokoro's output file number `id` of process `pid`.
pub fn kokoro_file_name(pid: u32, id: u64) -> (r: String)
    ensures
        r@ == kokoro_file(pid, id),
{
    let mut name = "agentview-kokoro-".to_owned();
    let a = decimal_text(pid as u64);
    name.append(a.as_str());
    name.append("-");
    let b = decimal_text(id);
    name.append(b.as_str());
    name.append(".wav");
    name
}

impl Engine {
    /// The program that the engine runs as.
    pub open spec fn program_name(self) -> Seq<char> {
        match self {
            Engine::EspeakNg => "espeak-ng"@,
            Engine::Kokoro => "kokoro-tts"@,
        }
    }

    /// The program that the engine runs as.
    pub fn program(self) -> (r: &'static str)
        ensures
            r@ == self.program_name(),
    {
        match self {
            Engine::EspeakNg => "espeak-ng",
            Engine::Kokoro => "kokoro-tts",
        }
    }
}

/// What an engine is asked for: the text to say, without the white space
/// around it, and the arguments to run the engine's program with. Kokoro's
/// output file follows its arguments.
#[derive(Debug)]
pub struct Request {
    pub text: String,
    pub args: Vec<String>,
}

/// The arguments that an engine is run with.
pub open spec fn arguments(
    text: Seq<char>,
    voice: Option<&VoiceInfo>,
    engine: Engine,
    kokoro_voice: Option<&str>,
) -> Seq<Seq<char>> {
    match engine {
        Engine::EspeakNg => espeak_arguments(text, voice),
        Engine::Kokoro => kokoro_arguments(text, voice, kokoro_voice),
    }
}

/// Works out what to ask an engine for. White space alone is nothing to say.
pub fn request(
    text: &str,
    voice: Option<&VoiceInfo>,
    engine: Engine,
    kokoro_voice: Option<&str>,
) -> (r: Result<Request, String>)
    ensures
        match r {
            Ok(q) => {
                &&& text::trimmed(text@).len() > 0
                &&& q.text@ == text::trimmed(text@)
                &&& text::texts(q.args@) == arguments(q.text@, voice, engine, kokoro_voice)
            },
            Err(e) => text::trimmed(text@).len() == 0 && e@ == "nothing to say"@,
        },
{
    let said = trim(text).to_owned();
    let empty = "".to_owned();
    proof {
        reveal_strlit("");
        assert(said@.len() == 0 ==> said@ =~= empty@);
    }
    if said == empty {
        return Err("nothing to say".to_owned());
    }
    let args = match engine {
        Engine::EspeakNg => espeak_args(said.as_str(), voice),
        Engine::Kokoro => kokoro_args(said.as_str(), voice, kokoro_voice),
    };
    Ok(Request { text: said, args })
}

/// How running an engine came out.
#[derive(Debug)]
pub enum Run {
    /// The file for its output could not be created.
    NotCreated(String),
    /// The program could not be started.
    NotStarted(String),
    /// The program failed, with this on its error stream.
    Failed(Vec<u8>),
    /// Its output could not be read.
    NotRead(String),
    /// The program succeeded, with this output.
    Done(Vec<u8>),
}

/// The audio of a run, or why there is none.
pub open spec fn run_result(engine: Engine, run: Run) -> Result<Seq<u8>, Seq<char>> {
    match run {
        Run::NotCreated(e) => Err("could not create Kokoro output file: "@ + e@),
        Run::NotStarted(e) => Err("could not run "@ + engine.program_name() + ": "@ + e@),
        Run::Failed(stderr) => Err(
            engine.program_name() + " failed: "@ + text::trimmed(text::lossy_utf8(stderr@)),
        ),
        Run::NotRead(e) => Err("could not read Kokoro audio: "@ + e@),
        Run::Done(wav) => if wav@.len() == 0 {
            Err(engine.program_name() + " produced no audio"@)
        } else {
            Ok(wav@)
        },
    }
}

/// Takes the audio of a run, or says why there is none.
pub fn audio_of(engine: Engine, run: Run) -> (r: Result<Vec<u8>, String>)
    ensures
        match r {
            Ok(wav) => run_result(engine, run) == Ok::<Seq<u8>, Seq<char>>(wav@),
            Err(m) => run_result(engine, run) == Err::<Seq<u8>, Seq<char>>(m@),
        },
{
    match run {
        Run::NotCreated(e) => {
            let mut m = "could not create Kokoro output file: ".to_owned();
            m.append(e.as_str());
            Err(m)
        },
        Run::NotStarted(e) => {
            let mut m = "could not run ".to_owned();
            m.append(engine.program());
            m.append(": ");
            m.append(e.as_str());
            Err(m)
        },
        Run::Failed(stderr) => {
            let mut m = engine.program().to_owned();
            m.append(" failed: ");
            let complaint = from_utf8_lossy(stderr.as_slice());
            m.append(trim(complaint.as_str()));
            Err(m)
        },
        Run::NotRead(e) => {
            let mut m = "could not read Kokoro audio: ".to_owned();
            m.append(e.as_str());
            Err(m)
        },
        Run::Done(wav) => if wav.len() == 0 {
            let mut m = engine.program().to_owned();
            m.append(" produced no audio");
            Err(m)
        } else {
            Ok(wav)
        },
    }
}

/// The loudness of a stretch of audio: the squares of its samples added up,
/// and their number. The loudness itself is the root of their quotient.
#[derive(Debug, Clone, Copy, PartialEq, Eq, Structural)]
pub struct Window {
    pub energy: u64,
    pub samples: u64,
}

/// Sample number `f` of the first channel. Speech is near-identical across
/// channels, so the first one stands for all.
pub open spec fn sample(pcm: Seq<u8>, channels: int, f: int) -> int {
    bytes::signed16(bytes::le16(pcm, f * channels * 2)) as int
}

/// The squares of the samples from `from` up to `to`, added up.
pub open spec fn energy(pcm: Seq<u8>, channels: int, from: int, to: int) -> nat
    decreases to - from,
{
    if from >= to {
        0
    } else {
        (energy(pcm, channels, from, to - 1) + sample(pcm, channels, to - 1) * sample(
            pcm,
            channels,
            to - 1,
        )) as nat
    }
}

/// The smaller of two numbers.
pub open spec fn least(a: int, b: int) -> int {
    if a <= b {
        a
    } else {
        b
    }
}

/// Samples per window at this rate, and at least one.
pub open spec fn per_window(rate: u32) -> int {
    if rate * WINDOW_MS / 1000 == 0 {
        1
    } else {
        rate * WINDOW_MS / 1000
    }
}

/// The windows from sample `i` on.
pub open spec fn windows_from(pcm: Seq<u8>, channels: int, frames: int, per: int, i: int) -> Seq<
    Window,
>
    decreases frames - i,
{
    if per <= 0 || i >= frames {
        Seq::empty()
    } else {
        let end = least(i + per, frames);
        seq![
            Window {
                energy: energy(pcm, channels, i, end) as u64,
                samples: (end - i) as u64,
            },
        ] + windows_from(pcm, channels, frames, per, end)
    }
}

/// The whole samples of each channel in some audio.
pub open spec fn frames_in(pcm: Seq<u8>, format: WavFormat) -> int {
    pcm.len() as int / 2 / format.channels as int
}

/// The loudness windows of a WAVE buffer and its duration in milliseconds:
/// nothing unless it holds sixteen-bit samples.
pub open spec fn envelope(wav: Seq<u8>) -> (Seq<Window>, u64) {
    match audio::wave_of(wav) {
        None => (Seq::empty(), 0),
        Some(w) => {
            let pcm = wav.subrange(w.start, w.end);
            if w.format.bits != 16 || pcm.len() == 0 {
                (Seq::empty(), 0)
            } else {
                let frames = frames_in(pcm, w.format);
                (
                    windows_from(
                        pcm,
                        w.format.channels as int,
                        frames,
                        per_window(w.format.sample_rate),
                        0,
                    ),
                    (frames * 1000 / w.format.sample_rate as int) as u64,
                )
            }
        },
    }
}

proof fn energy_bound(pcm: Seq<u8>, channels: int, from: int, to: int)
    requires
        from <= to,
    ensures
        energy(pcm, channels, from, to) <= 0x4000_0000 * (to - from),
    decreases to - from,
{
    if from < to {
        energy_bound(pcm, channels, from, to - 1);
        let s = sample(pcm, channels, to - 1);
        assert(0 <= s * s <= 0x4000_0000) by (nonlinear_arith)
            requires
                -0x8000 <= s <= 0x7FFF,
        ;
    }
}

proof fn samples_in_reach(pcm: Seq<u8>, channels: int, f: int)
    requires
        channels > 0,
        0 <= f < pcm.len() as int / 2 / channels,
    ensures
        0 <= f * channels * 2,
        f * channels * 2 + 2 <= pcm.len(),
{
    let frames = pcm.len() as int / 2 / channels;
    assert(frames * channels <= pcm.len() as int / 2) by (nonlinear_arith)
        requires
            frames == pcm.len() as int / 2 / channels,
            channels > 0,
    ;
    assert((f + 1) * channels <= frames * channels) by (nonlinear_arith)
        requires
            f + 1 <= frames,
            channels > 0,
    ;
    assert((f + 1) * channels == f * channels + channels) by (nonlinear_arith);
    assert(0 <= f * channels) by (nonlinear_arith)
        requires
            0 <= f,
            channels > 0,
    ;
}

/// Adds up the squares of the samples from `from` up to `to`.
fn sum_squares(pcm: &[u8], channels: usize, from: usize, to: usize) -> (r: u64)
    requires
        channels > 0,
        from <= to <= pcm@.len() as int / 2 / channels as int,
        to - from <= 0x1000_0000,
    ensures
        r == energy(pcm@, channels as int, from as int, to as int),
        r <= 0x4000_0000 * (to - from),
{
    let mut sum: u64 = 0;
    let mut f: usize = from;
    while f < to
        invariant
            channels > 0,
            from <= f <= to <= pcm@.len() as int / 2 / channels as int,
            to - from <= 0x1000_0000,
            sum == energy(pcm@, channels as int, from as int, f as int),
            sum <= 0x4000_0000 * (f - from),
        decreases to - f,
    {
        proof {
            samples_in_reach(pcm@, channels as int, f as int);
            energy_bound(pcm@, channels as int, from as int, f + 1);
            assert(pcm.len() == pcm@.len());
        }
        let o: usize = f * channels * 2;
        let s = to_signed(word(pcm, o)) as i64;
        assert(0 <= s * s <= 0x4000_0000) by (nonlinear_arith)
            requires
                -0x8000 <= s <= 0x7FFF,
        ;
        sum = sum + (s * s) as u64;
        f += 1;
    }
    sum
}

/// Measures the loudness of a WAVE buffer in windows, and its duration in
/// milliseconds.
pub fn envelope_of(wav: &[u8]) -> (r: (Vec<Window>, u64))
    requires
        wav@.len() * 500 <= u64::MAX,
    ensures
        (r.0@, r.1) == envelope(wav@),
{
    let mut windows: Vec<Window> = Vec::new();
    let (format, pcm) = match parse_wav(wav) {
        Some(v) => v,
        None => {
            assert(windows@ =~= Seq::empty());
            return (windows, 0);
        },
    };
    if format.bits != 16 || pcm.len() == 0 {
        assert(windows@ =~= Seq::empty());
        return (windows, 0);
    }
    proof {
        format_has_channels(wav@);
    }
    let channels = format.channels as usize;
    let frames: usize = pcm.len() / 2 / channels;
    proof {
        assert(frames <= pcm.len() / 2) by (nonlinear_arith)
            requires
                frames == pcm.len() as int / 2 / channels as int,
                channels > 0,
        ;
    }
    let duration_ms: u64 = frames as u64 * 1000 / (format.sample_rate as u64);
    let whole: u64 = format.sample_rate as u64 * WINDOW_MS / 1000;
    let per: u64 = if whole == 0 {
        1
    } else {
        whole
    };
    let ghost all = windows_from(pcm@, channels as int, frames as int, per as int, 0);
    let mut i: usize = 0;
    assert(windows@ + all =~= all);
    while i < frames
        invariant
            i <= frames,
            channels > 0,
            frames == pcm@.len() as int / 2 / channels as int,
            1 <= per <= 0x1000_0000,
            windows@ + windows_from(
                pcm@,
                channels as int,
                frames as int,
                per as int,
                i as int,
            ) == all,
        decreases frames - i,
    {
        let left: usize = frames - i;
        let step: usize = if left as u64 <= per {
            left
        } else {
            per as usize
        };
        let end: usize = i + step;
        let sum = sum_squares(pcm, channels, i, end);
        let window = Window { energy: sum, samples: step as u64 };
        let ghost before = windows@;
        let ghost rest = windows_from(
            pcm@,
            channels as int,
            frames as int,
            per as int,
            end as int,
        );
        windows.push(window);
        assert(before + (seq![window] + rest) =~= windows@ + rest);
        i = end;
    }
    assert(windows@ =~= all);
    (windows, duration_ms)
}

proof fn chunks_have_channels(data: Seq<u8>, pos: int, format: Option<WavFormat>)
    requires
        format matches Some(f) ==> f.channels > 0 && f.sample_rate > 0,
    ensures
        audio::chunks_from(data, pos, format) matches Some(w) ==> w.format.channels > 0
            && w.format.sample_rate > 0,
    decreases
            if pos <= data.len() {
                data.len() - pos
            } else {
                0
            },
{
    if 0 <= pos && pos + 8 <= data.len() {
        let size = bytes::le32(data, pos + 4) as int;
        let body = pos + 8;
        let next = body + size + size % 2;
        if bytes::tagged(data, pos, audio::fmt_tag()) && body + 16 <= data.len() {
            chunks_have_channels(data, next, Some(audio::format_at(data, body)));
        } else if !bytes::tagged(data, pos, audio::data_tag()) {
            chunks_have_channels(data, next, format);
        }
    }
}

proof fn format_has_channels(wav: Seq<u8>)
    ensures
        audio::wave_of(wav) matches Some(w) ==> w.format.channels > 0 && w.format.sample_rate > 0,
{
    chunks_have_channels(wav, 12, None);
}

/// The windows cover the utterance: laid end to end they hold every sample
/// once, and every window but the last is full.
pub proof fn windows_cover_the_audio(
    pcm: Seq<u8>,
    channels: int,
    frames: int,
    per: int,
    i: int,
)
    requires
        0 <= i <= frames <= u64::MAX,
        0 < per,
    ensures
        samples_held(windows_from(pcm, channels, frames, per, i)) == frames - i,
        forall|k: int|
            0 <= k < windows_from(pcm, channels, frames, per, i).len() - 1 ==> (
            #[trigger] windows_from(pcm, channels, frames, per, i)[k]).samples == per,
    decreases frames - i,
{
    if i < frames {
        let end = least(i + per, frames);
        windows_cover_the_audio(pcm, channels, frames, per, end);
        let all = windows_from(pcm, channels, frames, per, i);
        let rest = windows_from(pcm, channels, frames, per, end);
        assert(all.drop_first() =~= rest);
        assert forall|k: int| 0 <= k < all.len() - 1 implies (#[trigger] all[k]).samples == per by {
            if k > 0 {
                assert(all[k] == rest[k - 1]);
            } else if end == frames {
                assert(rest =~= Seq::empty());
            }
        }
    }
}

/// The samples that some windows hold together.
pub open spec fn samples_held(windows: Seq<Window>) -> int
    decreases windows.len(),
{
    if windows.len() == 0 {
        0
    } else {
        windows[0].samples + samples_held(windows.drop_first())
    }
}

/// The squares of some numbers, added up.
pub open spec fn square_sum(s: Seq<int>) -> int
    decreases s.len(),
{
    if s.len() == 0 {
        0
    } else {
        square_sum(s.drop_last()) + s.last() * s.last()
    }
}

/// Some samples of the first channel, from number `from` on, in audio that
/// starts at byte `start` of a buffer.
pub open spec fn first_channel(wav: Seq<u8>, start: int, channels: int, from: int, n: nat) -> Seq<
    int,
> {
    Seq::new(
        n,
        |i: int| bytes::signed16(bytes::le16(wav, start + (from + i) * channels * 2)) as int,
    )
}

proof fn energy_is_square_sum(
    wav: Seq<u8>,
    start: int,
    end: int,
    channels: int,
    from: int,
    n: nat,
)
    requires
        0 <= start <= end <= wav.len(),
        channels > 0,
        0 <= from,
        from + n <= (end - start) / 2 / channels,
    ensures
        energy(wav.subrange(start, end), channels, from, from + n) == square_sum(
            first_channel(wav, start, channels, from, n),
        ),
    decreases n,
{
    if n > 0 {
        let pcm = wav.subrange(start, end);
        let all = first_channel(wav, start, channels, from, n);
        energy_is_square_sum(wav, start, end, channels, from, (n - 1) as nat);
        assert(all.drop_last() =~= first_channel(wav, start, channels, from, (n - 1) as nat));
        let f = from + n - 1;
        samples_in_reach(pcm, channels, f);
        let o = f * channels * 2;
        assert(pcm[o] == wav[start + o] && pcm[o + 1] == wav[start + o + 1]);
        assert(all.last() == sample(pcm, channels, f));
        assert(all.last() * all.last() >= 0) by (nonlinear_arith);
        square_sum_is_not_negative(all.drop_last());
    }
}

proof fn square_sum_is_not_negative(s: Seq<int>)
    ensures
        square_sum(s) >= 0,
    decreases s.len(),
{
    if s.len() > 0 {
        square_sum_is_not_negative(s.drop_last());
        assert(s.last() * s.last() >= 0) by (nonlinear_arith);
    }
}

proof fn window_number(pcm: Seq<u8>, channels: int, frames: int, per: int, i: int, k: nat)
    requires
        0 <= i <= frames <= u64::MAX,
        0 < per,
        i + k * per < frames,
    ensures
        k < windows_from(pcm, channels, frames, per, i).len(),
        windows_from(pcm, channels, frames, per, i)[k as int] == (Window {
            energy: energy(
                pcm,
                channels,
                i + k * per,
                least(i + k * per + per, frames),
            ) as u64,
            samples: (least(i + k * per + per, frames) - (i + k * per)) as u64,
        }),
    decreases k,
{
    assert(0 <= k * per) by (nonlinear_arith)
        requires
            0 < per,
            0 <= k,
    ;
    if k > 0 {
        assert((k - 1) * per + per == k * per) by (nonlinear_arith);
        assert(0 <= (k - 1) * per) by (nonlinear_arith)
            requires
                0 < per,
                1 <= k,
        ;
        window_number(pcm, channels, frames, per, i + per, (k - 1) as nat);
    } else {
        assert(0 * per == 0);
    }
}

proof fn no_window_past_the_end(pcm: Seq<u8>, channels: int, frames: int, per: int, i: int, n: nat)
    requires
        0 <= i,
        0 < per,
        frames <= i + n * per,
    ensures
        windows_from(pcm, channels, frames, per, i).len() <= n,
    decreases n,
{
    if n > 0 && i < frames {
        assert((n - 1) * per + per == n * per) by (nonlinear_arith);
        let end = least(i + per, frames);
        if end == frames {
            assert(windows_from(pcm, channels, frames, per, end) =~= Seq::empty());
        } else {
            no_window_past_the_end(pcm, channels, frames, per, end, (n - 1) as nat);
        }
    } else if n == 0 {
        assert(0 * per == 0);
    }
}

/// Windows and mouths share one clock of 45 milliseconds. At a rate of at least
/// one sample in that time, window number `k` starts at sample `k` times the
/// samples of 45 milliseconds, holds that many, or what is left at the end, and
/// measures the squares of the first channel's samples there. There is a window
/// for every sample and none without; the duration is that of all samples.
pub proof fn windows_keep_the_time(wav: Seq<u8>, w: audio::Wave, k: nat)
    requires
        audio::wave_of(wav) == Some(w),
        0 <= w.start < w.end <= wav.len(),
        w.format.bits == 16,
        wav.len() * 500 <= u64::MAX,
        w.format.sample_rate * 45 / 1000 >= 1,
    ensures
        ({
            let per = w.format.sample_rate * 45 / 1000;
            let channels = w.format.channels as int;
            let frames = (w.end - w.start) / 2 / channels;
            let windows = envelope(wav).0;
            &&& envelope(wav).1 == frames * 1000 / w.format.sample_rate as int
            &&& k < windows.len() <==> k * per < frames
            &&& k < windows.len() ==> {
                let held = if (k + 1) * per <= frames {
                    per
                } else {
                    frames - k * per
                };
                &&& windows[k as int].samples == held
                &&& windows[k as int].energy == square_sum(
                    first_channel(wav, w.start, channels, k * per, held as nat),
                )
            }
            &&& k + 1 < windows.len() ==> windows[k as int].samples == per
        }),
{
    format_has_channels(wav);
    let per = w.format.sample_rate * 45 / 1000;
    let channels = w.format.channels as int;
    let pcm = wav.subrange(w.start, w.end);
    let frames = frames_in(pcm, w.format);
    assert(0 <= frames <= pcm.len()) by (nonlinear_arith)
        requires
            frames == pcm.len() as int / 2 / channels,
            channels > 0,
    ;
    let windows = windows_from(pcm, channels, frames, per, 0);
    assert(envelope(wav).0 == windows);
    assert(0 <= frames * 1000 / w.format.sample_rate as int <= u64::MAX) by (nonlinear_arith)
        requires
            0 <= frames * 1000 <= u64::MAX,
            w.format.sample_rate >= 1,
    ;
    assert(k * per + per == (k + 1) * per) by (nonlinear_arith);
    assert(0 <= k * per) by (nonlinear_arith)
        requires
            0 <= k,
            per >= 1,
    ;
    if k * per < frames {
        window_number(pcm, channels, frames, per, 0, k);
        let held = if (k + 1) * per <= frames {
            per
        } else {
            frames - k * per
        };
        energy_is_square_sum(wav, w.start, w.end, channels, k * per, held as nat);
        energy_bound(pcm, channels, k * per, k * per + held);
        if (k + 1) * per >= frames {
            no_window_past_the_end(pcm, channels, frames, per, 0, k + 1);
        }
    } else {
        no_window_past_the_end(pcm, channels, frames, per, 0, k);
    }
}

/// The window that a point in time looks up stands where that time is in the
/// audio: it starts no later, and for each window before it lags by less than a
/// sample.
pub proof fn mouths_look_up_their_time(rate: u32, t_ms: u64)
    ensures
        ({
            let k = t_ms / 45;
            let start = k * (rate * 45 / 1000);
            &&& 1000 * start <= t_ms * rate
            &&& 1000 * start >= k * 45 * rate - 1000 * k
            &&& k * 45 <= t_ms < k * 45 + 45
        }),
{
    let k = t_ms / 45;
    let per = rate * 45 / 1000;
    assert(1000 * per <= rate * 45 <= 1000 * per + 999);
    assert(k * (1000 * per) <= k * (rate * 45)) by (nonlinear_arith)
        requires
            1000 * per <= rate * 45,
            k >= 0,
    ;
    assert(k * (rate * 45) <= k * (1000 * per + 1000)) by (nonlinear_arith)
        requires
            rate * 45 <= 1000 * per + 1000,
            k >= 0,
    ;
    assert(k * (1000 * per) == 1000 * (k * per)) by (nonlinear_arith);
    assert(k * (rate * 45) == k * 45 * rate) by (nonlinear_arith);
    assert(k * (1000 * per + 1000) == 1000 * (k * per) + 1000 * k) by (nonlinear_arith);
    assert(k * 45 * rate <= t_ms * rate) by (nonlinear_arith)
        requires
            k * 45 <= t_ms,
            rate >= 0,
    ;
}

/// The mouth at a time is that of the window of 45 milliseconds that holds it,
/// opened by how loud the window is; past the last window it is closed. The
/// levels are patterns of 0.08, 0.20, 0.38, 0.55, 0.70 and 0.85.
pub proof fn mouths_follow_the_windows(s: Speech, t_ms: u64, k: int)
    requires
        0 <= k,
        45 * k <= t_ms < 45 * k + 45,
    ensures
        k >= s.envelope@.len() ==> s.mouth(t_ms) == MouthShape::Closed,
        k < s.envelope@.len() ==> {
            let level = s.envelope@[k];
            let m = s.mouth(t_ms);
            &&& m == MouthShape::Closed <==> level < 0x3DA3_D70A
            &&& m == MouthShape::Narrow <==> 0x3DA3_D70A <= level < 0x3E4C_CCCD
            &&& m == MouthShape::Medium <==> 0x3E4C_CCCD <= level < 0x3EC2_8F5C
            &&& m == MouthShape::WideOpen1 <==> 0x3EC2_8F5C <= level < 0x3F0C_CCCD
            &&& m == MouthShape::WideOpen2 <==> 0x3F0C_CCCD <= level < 0x3F33_3333
            &&& m == MouthShape::WideOpen3 <==> 0x3F33_3333 <= level < 0x3F59_999A
            &&& m == MouthShape::WideOpen4 <==> 0x3F59_999A <= level
        },
{
}

/// The languages that espeak-ng speaks, by their Windows numbers, and no others.
pub proof fn languages_go_by_number(id: u16)
    ensures
        language_of(0x01) == Some("ar"@),
        language_of(0x04) == Some("cmn"@),
        language_of(0x05) == Some("cs"@),
        language_of(0x06) == Some("da"@),
        language_of(0x07) == Some("de"@),
        language_of(0x08) == Some("el"@),
        language_of(0x09) == Some("en"@),
        language_of(0x0A) == Some("es"@),
        language_of(0x0B) == Some("fi"@),
        language_of(0x0C) == Some("fr"@),
        language_of(0x0D) == Some("he"@),
        language_of(0x0E) == Some("hu"@),
        language_of(0x10) == Some("it"@),
        language_of(0x11) == Some("ja"@),
        language_of(0x12) == Some("ko"@),
        language_of(0x13) == Some("nl"@),
        language_of(0x14) == Some("nb"@),
        language_of(0x15) == Some("pl"@),
        language_of(0x16) == Some("pt"@),
        language_of(0x19) == Some("ru"@),
        language_of(0x1A) == Some("hr"@),
        language_of(0x1B) == Some("sk"@),
        language_of(0x1D) == Some("sv"@),
        language_of(0x1E) == Some("th"@),
        language_of(0x1F) == Some("tr"@),
        language_of(0x24) == Some("sl"@),
        id != 0x01 && id != 0x04 && id != 0x05 && id != 0x06 && id != 0x07 && id != 0x08 && id != 0x09 && id != 0x0A && id != 0x0B && id != 0x0C && id != 0x0D && id != 0x0E && id != 0x10 && id != 0x11 && id != 0x12 && id != 0x13 && id != 0x14 && id != 0x15 && id != 0x16 && id != 0x19 && id != 0x1A && id != 0x1B && id != 0x1D && id != 0x1E && id != 0x1F && id != 0x24 ==> language_of(id) is None,
{
}

/// The settings of a voice as espeak-ng takes them: a speed that it accepts
/// stays, any other is 165; a pitch up to 99 stays, and a frequency above is
/// counted from 50 hertz in steps of three, up to 99; without settings they are
/// 165 and 50. The voice is that of the language in the low ten bits, or
/// English, and female only where it is set so.
pub proof fn voices_are_as_set(v: &VoiceInfo)
    ensures
        speed_of(Some(v)) == (if v.speed < 80 || v.speed > 450 {
            165
        } else {
            v.speed
        }),
        speed_of(None) == 165,
        v.pitch <= 99 ==> pitch_of(Some(v)) == v.pitch,
        100 <= v.pitch <= 347 ==> pitch_of(Some(v)) == (v.pitch - 50) / 3,
        v.pitch > 347 ==> pitch_of(Some(v)) == 99,
        pitch_of(None) == 50,
        ({
            let tail = if v.gender == Some(1u16) {
                "+f3"@
            } else {
                "+m3"@
            };
            let language = match v.language_id {
                Some(id) => language_of((id as int % 1024) as u16),
                None => None,
            };
            voice_name(Some(v)) == (match language {
                Some(l) => l,
                None => "en"@,
            }) + tail
        }),
        voice_name(None) == "en"@ + "+m3"@,
{
}

/// What each engine is run with: for espeak-ng the voice, speed and pitch behind
/// their switches, and the text behind the end of the options; for Kokoro the
/// text and the voice, which is the configured one, or a male one where that is
/// set, or else a female one.
pub proof fn engines_are_run_with_their_settings(
    text: Seq<char>,
    voice: Option<&VoiceInfo>,
    configured: Option<&str>,
)
    ensures
        arguments(text, voice, Engine::EspeakNg, configured) == seq![
            "--stdout"@,
            "-v"@,
            voice_name(voice),
            "-s"@,
            text::decimal(speed_of(voice) as nat),
            "-p"@,
            text::decimal(pitch_of(voice) as nat),
            "--"@,
            text,
        ],
        arguments(text, voice, Engine::Kokoro, configured) == seq![
            "--text"@,
            text,
            "--voice"@,
            match (configured, voice) {
                (Some(c), _) => c@,
                (None, Some(v)) => if v.gender == Some(2u16) {
                    "am_adam"@
                } else {
                    "af_heart"@
                },
                (None, None) => "af_heart"@,
            },
        ],
{
}

/// Audio that an engine made comes through as it is, and there is an error
/// exactly where there is none, in words that say what went wrong.
pub proof fn audio_comes_through(engine: Engine, run: Run)
    ensures
        run matches Run::Done(wav) ==> run_result(engine, run) == (if wav@.len() > 0 {
            Ok::<Seq<u8>, Seq<char>>(wav@)
        } else {
            Err::<Seq<u8>, Seq<char>>(
                (match engine {
                    Engine::EspeakNg => "espeak-ng"@,
                    Engine::Kokoro => "kokoro-tts"@,
                }) + " produced no audio"@,
            )
        }),
        !(run is Done) ==> run_result(engine, run) is Err,
        run matches Run::NotStarted(e) ==> run_result(engine, run) == Err::<Seq<u8>, Seq<char>>(
            "could not run "@ + (match engine {
                Engine::EspeakNg => "espeak-ng"@,
                Engine::Kokoro => "kokoro-tts"@,
            }) + ": "@ + e@,
        ),
        run matches Run::Failed(e) ==> run_result(engine, run) == Err::<Seq<u8>, Seq<char>>(
            (match engine {
                Engine::EspeakNg => "espeak-ng"@,
                Engine::Kokoro => "kokoro-tts"@,
            }) + " failed: "@ + text::trimmed(text::lossy_utf8(e@)),
        ),
        run matches Run::NotCreated(e) ==> run_result(engine, run) == Err::<Seq<u8>, Seq<char>>(
            "could not create Kokoro output file: "@ + e@,
        ),
        run matches Run::NotRead(e) ==> run_result(engine, run) == Err::<Seq<u8>, Seq<char>>(
            "could not read Kokoro audio: "@ + e@,
        ),
{
}

/// Audio of fewer than one sample in 45 milliseconds has a window for each
/// sample.
pub proof fn slow_audio_has_a_window_for_each_sample(wav: Seq<u8>, w: audio::Wave, k: nat)
    requires
        audio::wave_of(wav) == Some(w),
        0 <= w.start < w.end <= wav.len(),
        w.format.bits == 16,
        wav.len() * 500 <= u64::MAX,
        w.format.sample_rate * 45 / 1000 == 0,
    ensures
        ({
            let channels = w.format.channels as int;
            let frames = (w.end - w.start) / 2 / channels;
            let windows = envelope(wav).0;
            &&& k < windows.len() <==> k < frames
            &&& k < windows.len() ==> windows[k as int].samples == 1
                && windows[k as int].energy == square_sum(
                first_channel(wav, w.start, channels, k as int, 1),
            )
        }),
{
    format_has_channels(wav);
    let channels = w.format.channels as int;
    let pcm = wav.subrange(w.start, w.end);
    let frames = frames_in(pcm, w.format);
    assert(0 <= frames <= pcm.len()) by (nonlinear_arith)
        requires
            frames == pcm.len() as int / 2 / channels,
            channels > 0,
    ;
    assert(k * 1 == k);
    if k < frames {
        window_number(pcm, channels, frames, 1, 0, k);
        energy_is_square_sum(wav, w.start, w.end, channels, k as int, 1);
        energy_bound(pcm, channels, k as int, k as int + 1);
    } else {
        no_window_past_the_end(pcm, channels, frames, 1, 0, k);
    }
}

/// Only sixteen-bit audio is measured: any other has no windows and no duration.
pub proof fn other_audio_is_silent(wav: Seq<u8>)
    requires
        audio::wave_of(wav) matches Some(w) ==> w.format.bits != 16 || (0 <= w.start == w.end
            <= wav.len()),
    ensures
        envelope(wav).0.len() == 0,
        envelope(wav).1 == 0,
{
}

/// What is said is the text without the white space round it, and white space
/// alone is nothing to say.
pub proof fn texts_are_said_without_white_space(
    before: Seq<char>,
    core: Seq<char>,
    after: Seq<char>,
    text: &str,
    voice: Option<&VoiceInfo>,
    engine: Engine,
    configured: Option<&str>,
    r: Result<Request, String>,
)
    requires
        call_ensures(request, (text, voice, engine, configured), r),
        text@ == before + core + after,
        forall|i: int| 0 <= i < before.len() ==> text::is_white(#[trigger] before[i]),
        forall|i: int| 0 <= i < after.len() ==> text::is_white(#[trigger] after[i]),
        core.len() > 0 ==> !text::is_white(core.first()) && !text::is_white(core.last()),
    ensures
        core.len() == 0 ==> (r matches Err(e) && e@ == "nothing to say"@),
        core.len() > 0 ==> (r matches Ok(q) && q.text@ == core && text::texts(q.args@)
            == arguments(core, voice, engine, configured)),
{
    text::texts_come_out_of_white_space(before, core, after);
}

/// Engines go by their names, written exactly so.
pub proof fn engines_go_by_name(name: Seq<char>)
    ensures
        Engine::named("espeak-ng"@) == Some(Engine::EspeakNg),
        Engine::named("kokoro"@) == Some(Engine::Kokoro),
        name != "espeak-ng"@ && name != "kokoro"@ ==> Engine::named(name) is None,
        Engine::EspeakNg.program_name() == "espeak-ng"@,
        Engine::Kokoro.program_name() == "kokoro-tts"@,
{
    reveal_strlit("espeak-ng");
    reveal_strlit("kokoro");
    assert("espeak-ng"@.len() != "kokoro"@.len());
}

/// Output files of different processes, and of different numbers, have different
/// names.
pub proof fn output_files_are_told_apart(pid: u32, id: u64, pid2: u32, id2: u64)
    requires
        kokoro_file(pid, id) == kokoro_file(pid2, id2),
    ensures
        pid == pid2,
        id == id2,
{
    reveal_strlit("-");
    let head = "agentview-kokoro-"@;
    let tail = ".wav"@;
    let a = text::decimal(pid as nat);
    let b = text::decimal(id as nat);
    let c = text::decimal(pid2 as nat);
    let d = text::decimal(id2 as nat);
    let one = head + a + "-"@ + b + tail;
    let two = head + c + "-"@ + d + tail;
    let n = head.len() as int;
    text::numbers_read_back(pid as nat, u64::MAX as int);
    text::numbers_read_back(id as nat, u64::MAX as int);
    text::numbers_read_back(pid2 as nat, u64::MAX as int);
    text::numbers_read_back(id2 as nat, u64::MAX as int);
    assert(one[n + a.len()] == '-' && two[n + c.len()] == '-');
    if a.len() < c.len() {
        assert(two[n + a.len()] == c[a.len() as int]);
    } else if c.len() < a.len() {
        assert(one[n + c.len()] == a[c.len() as int]);
    }
    assert(one.len() == two.len());
    assert(one.subrange(n, n + a.len()) =~= a);
    assert(two.subrange(n, n + a.len()) =~= c);
    assert(one.subrange(n + a.len() + 1, one.len() - tail.len()) =~= b);
    assert(two.subrange(n + a.len() + 1, two.len() - tail.len()) =~= d);
}

} // verus!
