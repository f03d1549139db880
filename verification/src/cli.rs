//! The command line.
use vstd::prelude::*;

use crate::speech::Engine;
use crate::text;
use crate::text::same_text;

verus! {

/// What to do automatically once a character finishes loading.
#[derive(Debug)]
pub struct Startup {
    pub animation: Option<String>,
    pub say: Option<String>,
    pub speech_engine: Engine,
    pub kokoro_voice: Option<String>,
}

impl Default for Startup {
    fn default() -> (r: Startup)
        ensures
            r.animation is None,
            r.say is None,
            r.speech_engine == Engine::EspeakNg,
            r.kokoro_voice is None,
    {
        Startup {
            animation: None,
            say: None,
            speech_engine: Engine::default(),
            kokoro_voice: None,
        }
    }
}

/// What the arguments ask for.
#[derive(Debug)]
pub enum Command {
    /// To show the help.
    Help,
    /// A speech engine that there is not.
    BadEngine,
    /// To open the viewer, with a character file where one is named.
    Open(Startup, Option<String>),
}

/// Settings and file so far.
#[verifier::ext_equal]
pub struct Settings {
    pub animation: Option<Seq<char>>,
    pub say: Option<Seq<char>>,
    pub speech_engine: Engine,
    pub kokoro_voice: Option<Seq<char>>,
    pub file: Option<Seq<char>>,
}

/// The value of a [`Command`].
#[verifier::ext_equal]
pub enum CommandModel {
    Help,
    BadEngine,
    Open(Settings),
}

/// The text of an optional string.
pub open spec fn text_of(s: Option<String>) -> Option<Seq<char>> {
    match s {
        Some(t) => Some(t@),
        None => None,
    }
}

/// The settings in a startup, with a file.
pub open spec fn settings_of(s: Startup, file: Option<String>) -> Settings {
    Settings {
        animation: text_of(s.animation),
        say: text_of(s.say),
        speech_engine: s.speech_engine,
        kokoro_voice: text_of(s.kokoro_voice),
        file: text_of(file),
    }
}

impl View for Command {
    type V = CommandModel;

    open spec fn view(&self) -> CommandModel {
        match self {
            Command::Help => CommandModel::Help,
            Command::BadEngine => CommandModel::BadEngine,
            Command::Open(s, file) => CommandModel::Open(settings_of(*s, *file)),
        }
    }
}

/// Argument number `i`, if there is one.
pub open spec fn arg(args: Seq<Seq<char>>, i: int) -> Option<Seq<char>> {
    if 0 <= i < args.len() {
        Some(args[i])
    } else {
        None
    }
}

/// What the arguments from `i` on ask for. A later setting replaces an earlier
/// one, and an option at the very end has no value.
pub open spec fn command_from(args: Seq<Seq<char>>, i: int, s: Settings) -> CommandModel
    decreases args.len() + 1 - i,
{
    if i < 0 || i >= args.len() {
        CommandModel::Open(s)
    } else if args[i] == "-h"@ || args[i] == "--help"@ {
        CommandModel::Help
    } else if args[i] == "-a"@ || args[i] == "--animation"@ {
        command_from(args, i + 2, Settings { animation: arg(args, i + 1), ..s })
    } else if args[i] == "-s"@ || args[i] == "--say"@ {
        command_from(args, i + 2, Settings { say: arg(args, i + 1), ..s })
    } else if args[i] == "--tts"@ {
        match arg(args, i + 1) {
            Some(name) => match Engine::named(name) {
                Some(engine) => command_from(args, i + 2, Settings { speech_engine: engine, ..s }),
                None => CommandModel::BadEngine,
            },
            None => CommandModel::BadEngine,
        }
    } else if args[i] == "--kokoro-voice"@ {
        command_from(args, i + 2, Settings { kokoro_voice: arg(args, i + 1), ..s })
    } else {
        command_from(args, i + 1, Settings { file: Some(args[i]), ..s })
    }
}

/// The settings before any argument.
pub open spec fn plain_settings() -> Settings {
    Settings {
        animation: None,
        say: None,
        speech_engine: Engine::EspeakNg,
        kokoro_voice: None,
        file: None,
    }
}

fn arg_at(args: &Vec<String>, i: usize) -> (r: Option<String>)
    ensures
        text_of(r) == arg(text::texts(args@), i as int),
{
    if i < args.len() {
        Some(args[i].as_str().to_owned())
    } else {
        None
    }
}

/// Reads the arguments, without the name of the program.
pub fn parse_args(args: &Vec<String>) -> (r: Command)
    ensures
        r@ == command_from(text::texts(args@), 0, plain_settings()),
{
    let ghost all = text::texts(args@);
    let mut startup = Startup::default();
    let mut file: Option<String> = None;
    let mut i: usize = 0;
    while i < args.len()
        invariant
            all == text::texts(args@),
            command_from(all, i as int, settings_of(startup, file)) == command_from(
                all,
                0,
                plain_settings(),
            ),
        decreases args@.len() - i,
    {
        let a = args[i].as_str();
        assert(a@ == all[i as int]);
        let rest: usize = args.len() - i;
        if same_text(a, "-h") || same_text(a, "--help") {
            return Command::Help;
        } else if same_text(a, "-a") || same_text(a, "--animation") {
            startup.animation = arg_at(args, i + 1);
        } else if same_text(a, "-s") || same_text(a, "--say") {
            startup.say = arg_at(args, i + 1);
        } else if same_text(a, "--tts") {
            if rest < 2 {
                return Command::BadEngine;
            }
            assert(all[i + 1] == args@[i + 1]@);
            match Engine::parse(args[i + 1].as_str()) {
                Some(engine) => {
                    startup.speech_engine = engine;
                },
                None => return Command::BadEngine,
            }
        } else if same_text(a, "--kokoro-voice") {
            startup.kokoro_voice = arg_at(args, i + 1);
        } else {
            file = Some(a.to_owned());
            i += 1;
            continue ;
        }
        if rest < 2 {
            assert(command_from(all, i + 2, settings_of(startup, file)) == CommandModel::Open(
                settings_of(startup, file),
            ));
            return Command::Open(startup, file);
        }
        i += 2;
    }
    Command::Open(startup, file)
}

proof fn rest_stands_alone(front: Seq<Seq<char>>, rest: Seq<Seq<char>>, i: int, s: Settings)
    requires
        0 <= i,
    ensures
        command_from(front + rest, front.len() + i, s) == command_from(rest, i, s),
    decreases rest.len() + 1 - i,
{
    let all = front + rest;
    if i < rest.len() {
        assert(all[front.len() + i] == rest[i]);
        assert(arg(all, front.len() + i + 1) == arg(rest, i + 1));
        rest_stands_alone(front, rest, i + 1, Settings { file: Some(rest[i]), ..s });
        if i + 1 <= rest.len() {
            let next = arg(rest, i + 1);
            rest_stands_alone(front, rest, i + 2, Settings { animation: next, ..s });
            rest_stands_alone(front, rest, i + 2, Settings { say: next, ..s });
            rest_stands_alone(front, rest, i + 2, Settings { kokoro_voice: next, ..s });
            rest_stands_alone(front, rest, i + 2, Settings { speech_engine: Engine::EspeakNg, ..s });
            rest_stands_alone(front, rest, i + 2, Settings { speech_engine: Engine::Kokoro, ..s });
        }
    }
}

proof fn options_differ()
    ensures
        "-h"@ != "-a"@ && "-h"@ != "-s"@ && "-a"@ != "-s"@,
        "--help"@.len() == 6 && "--animation"@.len() == 11 && "--say"@.len() == 5 && "--tts"@.len()
            == 5 && "--kokoro-voice"@.len() == 14,
        "-h"@.len() == 2 && "-a"@.len() == 2 && "-s"@.len() == 2,
        "--say"@ != "--tts"@,
        "espeak-ng"@ != "kokoro"@,
{
    reveal_strlit("-h");
    reveal_strlit("-a");
    reveal_strlit("-s");
    reveal_strlit("--help");
    reveal_strlit("--animation");
    reveal_strlit("--say");
    reveal_strlit("--tts");
    reveal_strlit("--kokoro-voice");
    reveal_strlit("espeak-ng");
    reveal_strlit("kokoro");
    assert("-h"@[1] == 'h' && "-a"@[1] == 'a' && "-s"@[1] == 's');
    assert("--say"@[2] == 's' && "--tts"@[2] == 't');
    assert("espeak-ng"@.len() == 9 && "kokoro"@.len() == 6);
}

/// An option takes the argument behind it as its value, whatever that looks like,
/// and the arguments behind that go on from there.
pub proof fn options_take_their_values(
    name: Seq<char>,
    value: Seq<char>,
    rest: Seq<Seq<char>>,
    s: Settings,
)
    ensures
        ({
            let all = seq![name, value] + rest;
            &&& name == "-a"@ || name == "--animation"@ ==> command_from(all, 0, s) == command_from(
                rest,
                0,
                Settings { animation: Some(value), ..s },
            )
            &&& name == "-s"@ || name == "--say"@ ==> command_from(all, 0, s) == command_from(
                rest,
                0,
                Settings { say: Some(value), ..s },
            )
            &&& name == "--kokoro-voice"@ ==> command_from(all, 0, s) == command_from(
                rest,
                0,
                Settings { kokoro_voice: Some(value), ..s },
            )
            &&& name == "--tts"@ && value == "espeak-ng"@ ==> command_from(all, 0, s)
                == command_from(rest, 0, Settings { speech_engine: Engine::EspeakNg, ..s })
            &&& name == "--tts"@ && value == "kokoro"@ ==> command_from(all, 0, s) == command_from(
                rest,
                0,
                Settings { speech_engine: Engine::Kokoro, ..s },
            )
            &&& name == "--tts"@ && value != "espeak-ng"@ && value != "kokoro"@ ==> command_from(
                all,
                0,
                s,
            ) is BadEngine
        }),
{
    options_differ();
    let front = seq![name, value];
    let all = front + rest;
    assert(all[0] == name && all[1] == value);
    assert(arg(all, 1) == Some(value));
    rest_stands_alone(front, rest, 0, Settings { animation: Some(value), ..s });
    rest_stands_alone(front, rest, 0, Settings { say: Some(value), ..s });
    rest_stands_alone(front, rest, 0, Settings { kokoro_voice: Some(value), ..s });
    rest_stands_alone(front, rest, 0, Settings { speech_engine: Engine::EspeakNg, ..s });
    rest_stands_alone(front, rest, 0, Settings { speech_engine: Engine::Kokoro, ..s });
}

/// Help is given as soon as it is asked for, any argument that is no option names
/// the file, of which the last is opened, and with no argument left the viewer
/// opens with what has been set.
pub proof fn other_arguments_name_the_file(name: Seq<char>, rest: Seq<Seq<char>>, s: Settings)
    ensures
        ({
            let all = seq![name] + rest;
            &&& name == "-h"@ || name == "--help"@ ==> command_from(all, 0, s) is Help
            &&& name != "-h"@ && name != "--help"@ && name != "-a"@ && name != "--animation"@
                && name != "-s"@ && name != "--say"@ && name != "--tts"@ && name
                != "--kokoro-voice"@ ==> command_from(all, 0, s) == command_from(
                rest,
                0,
                Settings { file: Some(name), ..s },
            )
        }),
        command_from(Seq::empty(), 0, s) == CommandModel::Open(s),
        command_from(seq![name], 0, s) == (if name == "-h"@ || name == "--help"@ {
            CommandModel::Help
        } else if name == "--tts"@ {
            CommandModel::BadEngine
        } else if name == "-a"@ || name == "--animation"@ {
            CommandModel::Open(Settings { animation: None, ..s })
        } else if name == "-s"@ || name == "--say"@ {
            CommandModel::Open(Settings { say: None, ..s })
        } else if name == "--kokoro-voice"@ {
            CommandModel::Open(Settings { kokoro_voice: None, ..s })
        } else {
            CommandModel::Open(Settings { file: Some(name), ..s })
        }),
{
    options_differ();
    let all = seq![name] + rest;
    assert(all[0] == name);
    rest_stands_alone(seq![name], rest, 0, Settings { file: Some(name), ..s });
    let one = seq![name];
    assert(one[0] == name && arg(one, 1) is None);
    reveal_with_fuel(command_from, 2);
}

/// Without any setting espeak-ng speaks, and nothing else is set.
pub proof fn arguments_start_from_nothing(args: &Vec<String>, r: Command)
    requires
        call_ensures(parse_args, (args,), r),
        args@.len() == 0,
    ensures
        r matches Command::Open(s, file) && s.animation is None && s.say is None
            && s.kokoro_voice is None && s.speech_engine == Engine::EspeakNg && file is None,
{
}

} // verus!
