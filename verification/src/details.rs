//! The words on the window: titles, list rows and the details dialog.
use vstd::prelude::*;

use crate::character::Character;
use crate::player::Player;
use crate::speech;
use crate::speech::espeak_language;
use crate::text;
use crate::text::{contains, decimal_text, text_ordered, to_lowercase};
use crate::types::StateInfo;

verus! {

/// The name a character goes by.
pub open spec fn display_name(name: Option<&str>) -> Seq<char> {
    match name {
        Some(n) => n@,
        None => "Unnamed character"@,
    }
}

/// The words for a character that has just been loaded.
#[derive(Debug)]
pub struct Titles {
    pub name: String,
    pub subtitle: String,
    pub window: String,
}

/// Words a character that has just been loaded.
pub fn titles(name: Option<&str>, file: &str, animations: usize) -> (r: Titles)
    ensures
        r.name@ == display_name(name),
        r.subtitle@ == file@ + " · "@ + text::decimal(animations as nat) + " animations"@,
        r.window@ == display_name(name) + " — Agent Viewer"@,
{
    let shown = match name {
        Some(n) => n.to_owned(),
        None => "Unnamed character".to_owned(),
    };
    let mut subtitle = file.to_owned();
    subtitle.append(" · ");
    let n = decimal_text(animations as u64);
    subtitle.append(n.as_str());
    subtitle.append(" animations");
    let mut window = shown.as_str().to_owned();
    window.append(" — Agent Viewer");
    Titles { name: shown, subtitle, window }
}

/// Words the complaint about a file that could not be loaded.
pub fn load_complaint(file: &str, error: &str) -> (r: String)
    ensures
        r@ == file@ + ": "@ + error@,
{
    let mut m = file.to_owned();
    m.append(": ");
    m.append(error);
    m
}

/// The second line of an animation in the list. `seconds` is its running time,
/// as shown.
pub fn row_detail(frames: usize, seconds: &str) -> (r: String)
    ensures
        r@ == (if frames == 0 {
            "unreadable"@
        } else {
            text::decimal(frames as nat) + " frames · "@ + seconds@ + "s"@
        }),
{
    if frames == 0 {
        return "unreadable".to_owned();
    }
    let mut m = decimal_text(frames as u64);
    m.append(" frames · ");
    m.append(seconds);
    m.append("s");
    m
}

/// An animation stays in the list: its name holds what is searched for,
/// ignoring case.
pub open spec fn is_listed(search: Seq<char>, name: Seq<char>) -> bool {
    text::lowercase(search).len() == 0 || text::occurs_in(
        text::lowercase(search),
        text::lowercase(name),
    )
}

/// A name holds a needle, both already in lower case. An empty needle is held
/// by every name.
pub open spec fn holds(needle: Seq<char>, name: Seq<char>) -> bool {
    needle.len() == 0 || text::occurs_in(needle, name)
}

/// Whether a name in lower case holds a needle in lower case.
pub fn holds_needle(needle: &str, name: &str) -> (r: bool)
    ensures
        r == holds(needle@, name@),
{
    if text::chars_of(needle).len() == 0 {
        return true;
    }
    contains(name, needle)
}

/// Whether an animation stays in the list while searching.
pub fn row_matches(search: &str, name: &str) -> (r: bool)
    ensures
        r == is_listed(search@, name@),
{
    let needle = to_lowercase(search);
    let lower = to_lowercase(name);
    holds_needle(needle.as_str(), lower.as_str())
}

/// An empty search lists everything, and a name is found by any part of it.
pub proof fn a_name_holds_its_parts(name: Seq<char>, from: int, to: int)
    requires
        0 <= from <= to <= name.len(),
    ensures
        holds(Seq::empty(), name),
        holds(name.subrange(from, to), name),
{
    assert(name.subrange(from, from + name.subrange(from, to).len()) == name.subrange(from, to));
}

/// The label of the animation on screen, if there is one.
pub fn frame_label(player: &Player) -> (r: Option<String>)
    ensures
        match player@.current_animation() {
            Some(a) => r matches Some(s) && s@ == a.name@ + " · "@ + text::decimal(
                a.frames@.len(),
            ) + " frames"@,
            None => r is None,
        },
{
    match player.current_animation() {
        Some(a) => {
            let mut m = a.name.as_str().to_owned();
            m.append(" · ");
            let n = decimal_text(a.frames.len() as u64);
            m.append(n.as_str());
            m.append(" frames");
            Some(m)
        },
        None => None,
    }
}

/// The play button: its icon, and whether it can be pressed.
pub fn play_button(player: Option<&Player>) -> (r: (&'static str, bool))
    ensures
        match player {
            Some(p) => {
                &&& r.0@ == (if p@.playing {
                    "media-playback-pause-symbolic"@
                } else {
                    "media-playback-start-symbolic"@
                })
                &&& r.1 == (p@.frames().len() > 0)
            },
            None => r.0@ == "media-playback-start-symbolic"@ && !r.1,
        },
{
    match player {
        Some(p) => (
            if p.is_playing() {
                "media-playback-pause-symbolic"
            } else {
                "media-playback-start-symbolic"
            },
            p.frame_count() > 0,
        ),
        None => ("media-playback-start-symbolic", false),
    }
}

/// A character that ends the language in the name of a locale.
pub open spec fn ends_language(c: char) -> bool {
    c == '_' || c == '.' || c == '@' || c == '-'
}

/// The language that the name of a locale starts with, such as `de` in
/// `de_DE.UTF-8`.
pub open spec fn locale_code(locale: Seq<char>) -> Seq<char>
    decreases locale.len(),
{
    if locale.len() == 0 || ends_language(locale[0]) {
        Seq::empty()
    } else {
        seq![locale[0]] + locale_code(locale.drop_first())
    }
}

proof fn code_ends_there(locale: Seq<char>, n: int)
    requires
        0 <= n <= locale.len(),
        forall|i: int| 0 <= i < n ==> !ends_language(#[trigger] locale[i]),
        n < locale.len() ==> ends_language(locale[n]),
    ensures
        locale_code(locale) == locale.take(n),
    decreases n,
{
    if n > 0 {
        let rest = locale.drop_first();
        assert(!ends_language(locale[0]));
        assert forall|i: int| 0 <= i < n - 1 implies !ends_language(#[trigger] rest[i]) by {
            assert(rest[i] == locale[i + 1]);
        }
        code_ends_there(rest, n - 1);
        assert(seq![locale[0]] + rest.take(n - 1) =~= locale.take(n));
    } else {
        assert(locale.take(0) =~= Seq::empty());
    }
}

/// Finds the Windows primary language that the name of a locale such as
/// `de_DE.UTF-8` starts with.
pub fn primary_language(locale: &str) -> (r: Option<u16>)
    ensures
        match r {
            Some(id) => {
                &&& speech::language_of(id) == Some(locale_code(locale@))
                &&& forall|j: u16| j < id ==> #[trigger] speech::language_of(j) != Some(
                    locale_code(locale@),
                )
            },
            None => forall|j: u16| #[trigger] speech::language_of(j) != Some(locale_code(locale@)),
        },
{
    let chars = text::chars_of(locale);
    let mut n: usize = 0;
    while n < chars.len() && chars[n] != '_' && chars[n] != '.' && chars[n] != '@' && chars[n]
        != '-'
        invariant
            n <= chars@.len(),
            chars@ == locale@,
            forall|i: int| 0 <= i < n ==> !ends_language(#[trigger] locale@[i]),
        decreases chars@.len() - n,
    {
        n += 1;
    }
    proof {
        code_ends_there(locale@, n as int);
    }
    let code = locale.substring_char(0, n);
    assert(code@ =~= locale@.take(n as int));
    let mut id: u16 = 0;
    while id <= 0x24
        invariant
            id <= 0x25,
            code@ == locale_code(locale@),
            forall|j: u16|
                j < id ==> #[trigger] speech::language_of(j) != Some(locale_code(locale@)),
        decreases 0x25 - id,
    {
        if let Some(l) = espeak_language(id) {
            if text::same_text(l, code) {
                return Some(id);
            }
        }
        id += 1;
    }
    None
}

/// The language to pick names in, from setting `i` on: that of the first
/// setting that is not empty and stands for one.
pub open spec fn language_from(
    settings: Seq<Option<String>>,
    languages: Seq<Option<u16>>,
    i: int,
) -> Option<u16>
    decreases settings.len() - i,
{
    if i < 0 || i >= settings.len() || i >= languages.len() {
        None
    } else if (settings[i] matches Some(s) && s@.len() > 0) && languages[i] is Some {
        languages[i]
    } else {
        language_from(settings, languages, i + 1)
    }
}

/// Picks the language to show names in. `settings` are the values of the
/// locale settings, the strongest first, and `languages` the primary languages
/// that they stand for.
pub fn pick_language(settings: &Vec<Option<String>>, languages: &Vec<Option<u16>>) -> (r: Option<
    u16,
>)
    ensures
        r == language_from(settings@, languages@, 0),
{
    let mut i: usize = 0;
    while i < settings.len() && i < languages.len()
        invariant
            i <= settings@.len(),
            i <= languages@.len(),
            language_from(settings@, languages@, 0) == language_from(
                settings@,
                languages@,
                i as int,
            ),
        decreases settings@.len() - i,
    {
        let set = match &settings[i] {
            Some(s) => text::chars_of(s.as_str()).len() > 0,
            None => false,
        };
        if set && languages[i].is_some() {
            return languages[i];
        }
        i += 1;
    }
    None
}

/// A line of the details dialog.
#[derive(Debug)]
pub struct Row {
    pub title: String,
    pub value: String,
}

/// A group of lines of the details dialog.
#[derive(Debug)]
pub struct Group {
    pub title: String,
    pub description: Option<String>,
    pub rows: Vec<Row>,
}

/// The texts of some lines.
pub open spec fn row_texts(rows: Seq<Row>) -> Seq<(Seq<char>, Seq<char>)> {
    Seq::new(rows.len(), |i: int| (rows[i].title@, rows[i].value@))
}

fn push_row(rows: &mut Vec<Row>, title: &str, value: &str)
    ensures
        row_texts(final(rows)@) == row_texts(old(rows)@).push((title@, value@)),
{
    let ghost before = row_texts(rows@);
    rows.push(Row { title: title.to_owned(), value: value.to_owned() });
    assert(row_texts(rows@) =~= before.push((title@, value@)));
}

fn push_number(rows: &mut Vec<Row>, title: &str, value: usize)
    ensures
        row_texts(final(rows)@) == row_texts(old(rows)@).push(
            (title@, text::decimal(value as nat)),
        ),
{
    let n = decimal_text(value as u64);
    push_row(rows, title, n.as_str());
}

/// One more line, if there is one.
pub open spec fn with_row(
    rows: Seq<(Seq<char>, Seq<char>)>,
    title: Seq<char>,
    value: Option<Seq<char>>,
) -> Seq<(Seq<char>, Seq<char>)> {
    match value {
        Some(v) => rows.push((title, v)),
        None => rows,
    }
}

/// The text of an optional slice.
pub open spec fn slice_text(s: Option<&str>) -> Option<Seq<char>> {
    match s {
        Some(t) => Some(t@),
        None => None,
    }
}

/// The lines about the character itself.
pub open spec fn character_rows(
    c: Character,
    name: Option<&str>,
    description: Option<&str>,
    path: Option<&str>,
) -> Seq<(Seq<char>, Seq<char>)> {
    let info = c.info;
    let named = Seq::empty().push(
        (
            "Name"@,
            match name {
                Some(n) => n@,
                None => "—"@,
            },
        ),
    );
    let described = with_row(named, "Description"@, slice_text(description));
    let measured = described.push(
        (
            "Size"@,
            text::decimal(info.width as nat) + " × "@ + text::decimal(info.height as nat)
                + " px"@,
        ),
    ).push(
        (
            "Format version"@,
            text::decimal(info.major_version as nat) + "."@ + text::decimal(
                info.minor_version as nat,
            ),
        ),
    ).push(("Palette"@, text::decimal(info.palette@.len()) + " colours"@));
    with_row(measured, "File"@, slice_text(path))
}

/// Lists the lines about the character itself.
pub fn character_group(
    character: &Character,
    name: Option<&str>,
    description: Option<&str>,
    path: Option<&str>,
) -> (r: Group)
    ensures
        r.title@ == "Character"@,
        r.description is None,
        row_texts(r.rows@) == character_rows(*character, name, description, path),
{
    let info = &character.info;
    let mut rows: Vec<Row> = Vec::new();
    assert(row_texts(rows@) =~= Seq::empty());
    match name {
        Some(n) => push_row(&mut rows, "Name", n),
        None => push_row(&mut rows, "Name", "—"),
    }
    if let Some(d) = description {
        push_row(&mut rows, "Description", d);
    }
    let mut size = decimal_text(info.width as u64);
    size.append(" × ");
    let height = decimal_text(info.height as u64);
    size.append(height.as_str());
    size.append(" px");
    push_row(&mut rows, "Size", size.as_str());
    let mut version = decimal_text(info.major_version as u64);
    version.append(".");
    let minor = decimal_text(info.minor_version as u64);
    version.append(minor.as_str());
    push_row(&mut rows, "Format version", version.as_str());
    let mut palette = decimal_text(info.palette.len() as u64);
    palette.append(" colours");
    push_row(&mut rows, "Palette", palette.as_str());
    if let Some(p) = path {
        push_row(&mut rows, "File", p);
    }
    Group { title: "Character".to_owned(), description: None, rows }
}

/// The number of pictures of a character.
pub open spec fn picture_count(c: Character) -> nat {
    match c.artwork {
        crate::character::Artwork::Actor(a) => a.frames@.len(),
        crate::character::Artwork::Indexed(i) => i@.len(),
    }
}

/// The lines about what the character holds.
pub open spec fn contents_rows(c: Character) -> Seq<(Seq<char>, Seq<char>)> {
    let locales = c.info.localized@.len();
    let counted = Seq::empty().push(("Animations"@, text::decimal(c.animations@.len()))).push(
        ("Images"@, text::decimal(picture_count(c))),
    ).push(("Sounds"@, text::decimal(c.audio@.len()))).push(
        ("States"@, text::decimal(c.info.states@.len())),
    );
    if locales > 0 {
        counted.push(("Localisations"@, text::decimal(locales)))
    } else {
        counted
    }
}

/// Lists the lines about what the character holds.
pub fn contents_group(character: &Character) -> (r: Group)
    ensures
        r.title@ == "Contents"@,
        r.description is None,
        row_texts(r.rows@) == contents_rows(*character),
{
    let mut rows: Vec<Row> = Vec::new();
    assert(row_texts(rows@) =~= Seq::empty());
    push_number(&mut rows, "Animations", character.animations.len());
    push_number(&mut rows, "Images", character.image_count());
    push_number(&mut rows, "Sounds", character.audio_count());
    push_number(&mut rows, "States", character.info.states.len());
    if character.info.localized.len() > 0 {
        push_number(&mut rows, "Localisations", character.info.localized.len());
    }
    Group { title: "Contents".to_owned(), description: None, rows }
}

/// The word for a gender. SAPI 4 has 1 for female and 2 for male.
pub open spec fn gender_word(gender: u16) -> Seq<char> {
    if gender == 1 {
        "Female"@
    } else if gender == 2 {
        "Male"@
    } else {
        "Unspecified"@
    }
}

/// Lists the lines about the character's voice, if it has one.
pub fn voice_group(character: &Character) -> (r: Option<Group>)
    ensures
        match character.info.voice {
            Some(v) => r matches Some(g) && {
                &&& g.title@ == "Voice"@
                &&& g.description matches Some(d) && d@
                    == "Used as defaults when speaking through espeak-ng"@
                &&& row_texts(g.rows@) == with_row(
                    seq![
                        ("Speed"@, text::decimal(v.speed as nat) + " wpm"@),
                        ("Pitch"@, text::decimal(v.pitch as nat)),
                    ],
                    "Gender"@,
                    match v.gender {
                        Some(g) => Some(gender_word(g)),
                        None => None,
                    },
                )
            },
            None => r is None,
        },
{
    match &character.info.voice {
        Some(v) => {
            let mut rows: Vec<Row> = Vec::new();
            let mut speed = decimal_text(v.speed as u64);
            speed.append(" wpm");
            push_row(&mut rows, "Speed", speed.as_str());
            let pitch = decimal_text(v.pitch as u64);
            push_row(&mut rows, "Pitch", pitch.as_str());
            assert(row_texts(rows@) =~= seq![
                ("Speed"@, text::decimal(v.speed as nat) + " wpm"@),
                ("Pitch"@, text::decimal(v.pitch as nat)),
            ]);
            if let Some(g) = v.gender {
                push_row(
                    &mut rows,
                    "Gender",
                    if g == 1 {
                        "Female"
                    } else if g == 2 {
                        "Male"
                    } else {
                        "Unspecified"
                    },
                );
            }
            Some(
                Group {
                    title: "Voice".to_owned(),
                    description: Some(
                        "Used as defaults when speaking through espeak-ng".to_owned(),
                    ),
                    rows,
                },
            )
        },
        None => None,
    }
}

/// Some texts with commas between them.
pub open spec fn joined(s: Seq<Seq<char>>) -> Seq<char>
    decreases s.len(),
{
    if s.len() == 0 {
        Seq::empty()
    } else if s.len() == 1 {
        s[0]
    } else {
        joined(s.drop_last()) + ", "@ + s.last()
    }
}

fn join(s: &Vec<String>) -> (r: String)
    ensures
        r@ == joined(text::texts(s@)),
{
    let mut out = String::new();
    let ghost all = text::texts(s@);
    let mut i: usize = 0;
    assert(out@ =~= Seq::empty());
    while i < s.len()
        invariant
            i <= s@.len(),
            all == text::texts(s@),
            out@ == joined(all.take(i as int)),
        decreases s@.len() - i,
    {
        let ghost before = all.take(i as int);
        let ghost after = all.take(i + 1);
        assert(after.drop_last() =~= before);
        assert(after.last() == s@[i as int]@);
        if i > 0 {
            out.append(", ");
        }
        out.append(s[i].as_str());
        proof {
            if i == 0 {
                assert(out@ =~= after[0]);
            }
        }
        i += 1;
    }
    assert(all.take(i as int) =~= all);
    out
}

/// A place in the order of states: `order` lists their numbers, by name, and
/// one more goes behind all that come no later.
pub open spec fn place_of(states: Seq<StateInfo>, order: Seq<usize>, k: int) -> int
    decreases order.len(),
{
    if order.len() == 0 {
        0
    } else if text::ordered(states[order.last() as int].name@, states[k].name@) {
        order.len() as int
    } else {
        place_of(states, order.drop_last(), k)
    }
}

/// The numbers of the first `n` states, by name; states of one name stay in
/// their order.
pub open spec fn order_upto(states: Seq<StateInfo>, n: nat) -> Seq<usize>
    decreases n,
{
    if n == 0 {
        Seq::empty()
    } else {
        let order = order_upto(states, (n - 1) as nat);
        order.insert(place_of(states, order, n - 1), (n - 1) as usize)
    }
}

/// The details list every state once, by name, and states of one name in
/// their order.
pub proof fn states_are_in_order(states: Seq<StateInfo>, n: nat)
    requires
        n <= usize::MAX,
    ensures
        order_upto(states, n).len() == n,
        forall|i: int| 0 <= i < n ==> (#[trigger] order_upto(states, n)[i]) < n,
        order_upto(states, n).no_duplicates(),
        forall|i: int, j: int|
            0 <= i < j < n ==> precedes(
                states,
                #[trigger] order_upto(states, n)[i],
                #[trigger] order_upto(states, n)[j],
            ),
    decreases n,
{
    if n > 0 {
        let m = (n - 1) as nat;
        let k = m as usize;
        states_are_in_order(states, m);
        let before = order_upto(states, m);
        let p = place_of(states, before, k as int);
        place_splits(states, before, k as int);
        let after = order_upto(states, n);
        assert(after == before.insert(p, k));
        assert forall|i: int| 0 <= i < n implies (#[trigger] after[i]) < n by {
            if i < p {
                assert(after[i] == before[i]);
            } else if i > p {
                assert(after[i] == before[i - 1]);
            }
        }
        assert forall|i: int, j: int| 0 <= i < j < n implies precedes(
            states,
            #[trigger] after[i],
            #[trigger] after[j],
        ) && after[i] != after[j] by {
            let old_i = if i < p {
                i
            } else {
                i - 1
            };
            let old_j = if j < p {
                j
            } else {
                j - 1
            };
            if i != p {
                assert(after[i] == before[old_i]);
            }
            if j != p {
                assert(after[j] == before[old_j]);
            }
            if i == p {
                let a = states[k as int].name@;
                let b = states[after[j] as int].name@;
                text::code_point_order(a, b, b);
            } else if j == p {
                if i < p - 1 {
                    assert(precedes(states, before[i], before[p - 1]));
                    text::code_point_order(
                        states[before[i] as int].name@,
                        states[before[p - 1] as int].name@,
                        states[k as int].name@,
                    );
                }
            } else {
                assert(precedes(states, before[old_i], before[old_j]));
            }
        }
    }
}

/// State `a` is to be listed in front of state `b`: its name comes first, or
/// the names are one and `a` comes first among the states.
pub open spec fn precedes(states: Seq<StateInfo>, a: usize, b: usize) -> bool {
    &&& text::ordered(states[a as int].name@, states[b as int].name@)
    &&& states[a as int].name@ == states[b as int].name@ ==> a < b
}

proof fn place_splits(states: Seq<StateInfo>, order: Seq<usize>, k: int)
    ensures
        ({
            let p = place_of(states, order, k);
            &&& 0 <= p <= order.len()
            &&& p > 0 ==> text::ordered(states[order[p - 1] as int].name@, states[k].name@)
            &&& forall|i: int|
                p <= i < order.len() ==> !text::ordered(
                    states[#[trigger] order[i] as int].name@,
                    states[k].name@,
                )
        }),
    decreases order.len(),
{
    if order.len() > 0 && !text::ordered(states[order.last() as int].name@, states[k].name@) {
        let part = order.drop_last();
        place_splits(states, part, k);
        let p = place_of(states, part, k);
        assert forall|i: int| p <= i < order.len() implies !text::ordered(
            states[#[trigger] order[i] as int].name@,
            states[k].name@,
        ) by {
            if i < part.len() {
                assert(part[i] == order[i]);
            }
        }
    }
}

fn find_place(states: &Vec<StateInfo>, order: &Vec<usize>, k: usize) -> (r: usize)
    requires
        k < states@.len(),
        forall|i: int| 0 <= i < order@.len() ==> (#[trigger] order@[i]) < states@.len(),
    ensures
        r <= order@.len(),
        r == place_of(states@, order@, k as int),
{
    let mut at: usize = order.len();
    assert(order@.take(at as int) =~= order@);
    while at > 0
        invariant_except_break
            place_of(states@, order@, k as int) == place_of(
                states@,
                order@.take(at as int),
                k as int,
            ),
        invariant
            at <= order@.len(),
            k < states@.len(),
            forall|i: int| 0 <= i < order@.len() ==> (#[trigger] order@[i]) < states@.len(),
        ensures
            at == place_of(states@, order@, k as int),
        decreases at,
    {
        let ghost part = order@.take(at as int);
        assert(part.last() == order@[at - 1]);
        if text_ordered(states[order[at - 1]].name.as_str(), states[k].name.as_str()) {
            break;
        }
        assert(part.drop_last() =~= order@.take(at - 1));
        at -= 1;
    }
    at
}

fn order_states(states: &Vec<StateInfo>) -> (r: Vec<usize>)
    ensures
        r@ == order_upto(states@, states@.len()),
        r@.len() == states@.len(),
        forall|i: int| 0 <= i < r@.len() ==> (#[trigger] r@[i]) < states@.len(),
{
    let mut order: Vec<usize> = Vec::new();
    let mut k: usize = 0;
    assert(order@ =~= Seq::empty());
    while k < states.len()
        invariant
            k <= states@.len(),
            order@.len() == k,
            order@ == order_upto(states@, k as nat),
            forall|i: int| 0 <= i < order@.len() ==> (#[trigger] order@[i]) < k,
        decreases states@.len() - k,
    {
        let at = find_place(states, &order, k);
        order.insert(at, k);
        k += 1;
    }
    order
}

/// The lines about the character's states, by name.
pub open spec fn state_rows(states: Seq<StateInfo>, order: Seq<usize>) -> Seq<
    (Seq<char>, Seq<char>),
> {
    Seq::new(
        order.len(),
        |i: int|
            (
                states[order[i] as int].name@,
                joined(text::texts(states[order[i] as int].animations@)),
            ),
    )
}

/// Lists the character's states by name, if it has any.
pub fn states_group(character: &Character) -> (r: Option<Group>)
    ensures
        ({
            let states = character.info.states@;
            if states.len() > 0 {
                r matches Some(g) && {
                    &&& g.title@ == "States"@
                    &&& g.description is None
                    &&& row_texts(g.rows@) == state_rows(states, order_upto(states, states.len()))
                }
            } else {
                r is None
            }
        }),
{
    let states = &character.info.states;
    if states.len() == 0 {
        return None;
    }
    let order = order_states(states);
    let ghost want = state_rows(states@, order@);
    let mut rows: Vec<Row> = Vec::new();
    let mut i: usize = 0;
    assert(row_texts(rows@) =~= want.take(0));
    while i < order.len()
        invariant
            i <= order@.len(),
            want == state_rows(states@, order@),
            forall|i: int| 0 <= i < order@.len() ==> (#[trigger] order@[i]) < states@.len(),
            row_texts(rows@) == want.take(i as int),
        decreases order@.len() - i,
    {
        let st = &states[order[i]];
        let value = join(&st.animations);
        push_row(&mut rows, st.name.as_str(), value.as_str());
        assert(want.take(i + 1) =~= want.take(i as int).push(want[i as int]));
        i += 1;
    }
    assert(want.take(i as int) =~= want);
    Some(Group { title: "States".to_owned(), description: None, rows })
}

/// The language in the name of a locale is what stands in front of the first
/// underscore, full stop, at sign or hyphen.
pub proof fn locales_start_with_their_language(language: Seq<char>, mark: char, rest: Seq<char>)
    requires
        forall|i: int|
            0 <= i < language.len() ==> !("_.@-"@.contains(#[trigger] language[i])),
        "_.@-"@.contains(mark),
    ensures
        locale_code(language + seq![mark] + rest) == language,
        locale_code(language) == language,
{
    reveal_strlit("_.@-");
    let marks = "_.@-"@;
    assert(marks[0] == '_' && marks[1] == '.' && marks[2] == '@' && marks[3] == '-');
    let all = language + seq![mark] + rest;
    assert forall|i: int| 0 <= i < language.len() implies !ends_language(#[trigger] language[i]) by {
        assert(!marks.contains(language[i]));
    }
    assert forall|i: int| 0 <= i < language.len() implies !ends_language(#[trigger] all[i]) by {
        assert(all[i] == language[i]);
    }
    assert(all[language.len() as int] == mark);
    code_ends_there(all, language.len() as int);
    assert(all.take(language.len() as int) =~= language);
    code_ends_there(language, language.len() as int);
    assert(language.take(language.len() as int) =~= language);
}

/// The strongest setting decides that is not empty and stands for a language.
pub proof fn the_strongest_setting_decides(
    settings: Seq<Option<String>>,
    languages: Seq<Option<u16>>,
    k: int,
)
    requires
        settings.len() == languages.len(),
        0 <= k <= settings.len(),
        forall|i: int|
            #![trigger settings[i]]
            #![trigger languages[i]]
            0 <= i < k ==> languages[i] is None || settings[i] is None || settings[i]->0@
                == Seq::<char>::empty(),
    ensures
        k < settings.len() && languages[k] is Some && settings[k] is Some && settings[k]->0@
            != Seq::<char>::empty() ==> language_from(settings, languages, 0) == languages[k],
        k == settings.len() ==> language_from(settings, languages, 0) is None,
{
    if k < settings.len() && settings[k] is Some && settings[k]->0@.len() == 0 {
        assert(settings[k]->0@ =~= Seq::<char>::empty());
    }
    settings_pass(settings, languages, 0, k);
}

proof fn settings_pass(
    settings: Seq<Option<String>>,
    languages: Seq<Option<u16>>,
    from: int,
    k: int,
)
    requires
        settings.len() == languages.len(),
        0 <= from <= k <= settings.len(),
        forall|i: int|
            #![trigger settings[i]]
            #![trigger languages[i]]
            from <= i < k ==> languages[i] is None || settings[i] is None || settings[i]->0@
                == Seq::<char>::empty(),
    ensures
        language_from(settings, languages, from) == language_from(settings, languages, k),
    decreases k - from,
{
    if from < k {
        assert(languages[from] is None || settings[from] is None || settings[from]->0@
            == Seq::<char>::empty());
        settings_pass(settings, languages, from + 1, k);
    }
}

/// Texts are joined in their order, with a comma and a space between any two and
/// none around them.
pub proof fn lists_have_commas_between(first: Seq<Seq<char>>, one: Seq<char>, more: Seq<Seq<char>>)
    requires
        first.len() > 0,
        more.len() > 0,
    ensures
        joined(Seq::empty()) == Seq::<char>::empty(),
        joined(seq![one]) == one,
        joined(first + more) == joined(first) + seq![',', ' '] + joined(more),
    decreases more.len(),
{
    reveal_strlit(", ");
    assert(", "@ =~= seq![',', ' ']);
    let all = first + more;
    assert(all.last() == more.last());
    if more.len() == 1 {
        assert(all.drop_last() =~= first);
        assert(joined(more) == more[0]);
    } else {
        assert(all.drop_last() =~= first + more.drop_last());
        lists_have_commas_between(first, one, more.drop_last());
        assert(joined(all) =~= joined(first) + seq![',', ' '] + joined(more));
    }
}

/// The details name the character, its size, version, palette and file, in that
/// order; the description is told behind the name where there is one.
pub proof fn characters_are_described(
    c: &Character,
    name: Option<&str>,
    description: Option<&str>,
    path: Option<&str>,
    r: Group,
)
    requires
        call_ensures(character_group, (c, name, description, path), r),
    ensures
        ({
            let skip: int = if description is Some {
                1
            } else {
                0
            };
            let more: int = if path is Some {
                1
            } else {
                0
            };
            let rows = r.rows@;
            &&& r.title@ == "Character"@
            &&& rows.len() == 4 + skip + more
            &&& rows[0].title@ == "Name"@
            &&& name matches Some(n) ==> rows[0].value@ == n@
            &&& name is None ==> rows[0].value@ == "—"@
            &&& description matches Some(d) ==> rows[1].title@ == "Description"@ && rows[1].value@
                == d@
            &&& rows[1 + skip].title@ == "Size"@
            &&& rows[1 + skip].value@ == text::decimal(c.info.width as nat) + " × "@ + text::decimal(
                c.info.height as nat,
            ) + " px"@
            &&& rows[2 + skip].title@ == "Format version"@
            &&& rows[2 + skip].value@ == text::decimal(c.info.major_version as nat) + "."@
                + text::decimal(c.info.minor_version as nat)
            &&& rows[3 + skip].title@ == "Palette"@
            &&& rows[3 + skip].value@ == text::decimal(c.info.palette@.len()) + " colours"@
            &&& path matches Some(p) ==> rows[4 + skip].title@ == "File"@ && rows[4 + skip].value@
                == p@
        }),
{
    let rows = r.rows@;
    let texts = row_texts(rows);
    assert(texts == character_rows(*c, name, description, path));
    assert(texts.len() == rows.len());
    assert forall|i: int| 0 <= i < rows.len() implies texts[i] == (
        (#[trigger] rows[i]).title@,
        rows[i].value@,
    ) by {}
}

/// The details count the animations, pictures, sounds and states, and the
/// languages where there are any.
pub proof fn contents_are_counted(c: &Character, r: Group)
    requires
        call_ensures(contents_group, (c,), r),
    ensures
        ({
            let rows = r.rows@;
            let languages = c.info.localized@.len();
            &&& r.title@ == "Contents"@
            &&& rows.len() == (if languages > 0 {
                5int
            } else {
                4
            })
            &&& rows[0].title@ == "Animations"@ && rows[0].value@ == text::decimal(
                c.animations@.len(),
            )
            &&& rows[1].title@ == "Images"@
            &&& c.artwork matches crate::character::Artwork::Actor(a) ==> rows[1].value@
                == text::decimal(a.frames@.len())
            &&& c.artwork matches crate::character::Artwork::Indexed(i) ==> rows[1].value@
                == text::decimal(i@.len())
            &&& rows[2].title@ == "Sounds"@ && rows[2].value@ == text::decimal(c.audio@.len())
            &&& rows[3].title@ == "States"@ && rows[3].value@ == text::decimal(
                c.info.states@.len(),
            )
            &&& languages > 0 ==> rows[4].title@ == "Localisations"@ && rows[4].value@
                == text::decimal(languages)
        }),
{
    let rows = r.rows@;
    let texts = row_texts(rows);
    assert(texts == contents_rows(*c));
    assert forall|i: int| 0 <= i < rows.len() implies texts[i] == (
        (#[trigger] rows[i]).title@,
        rows[i].value@,
    ) by {}
}

/// The details of a voice are its speed in words a minute and its pitch, and its
/// gender where that is set: 1 is female and 2 is male.
pub proof fn voices_are_described(c: &Character, r: Option<Group>)
    requires
        call_ensures(voice_group, (c,), r),
    ensures
        match c.info.voice {
            Some(v) => r matches Some(g) && {
                let rows = g.rows@;
                &&& g.title@ == "Voice"@
                &&& rows.len() == (if v.gender is Some {
                    3int
                } else {
                    2
                })
                &&& rows[0].title@ == "Speed"@ && rows[0].value@ == text::decimal(v.speed as nat)
                    + " wpm"@
                &&& rows[1].title@ == "Pitch"@ && rows[1].value@ == text::decimal(v.pitch as nat)
                &&& v.gender is Some ==> rows[2].title@ == "Gender"@
                &&& v.gender == Some(1u16) ==> rows[2].value@ == "Female"@
                &&& v.gender == Some(2u16) ==> rows[2].value@ == "Male"@
                &&& v.gender is Some && v.gender != Some(1u16) && v.gender != Some(2u16)
                    ==> rows[2].value@ == "Unspecified"@
            },
            None => r is None,
        },
{
    if let Some(g) = r {
        let rows = g.rows@;
        let texts = row_texts(rows);
        assert(texts.len() == rows.len());
        assert forall|i: int| 0 <= i < rows.len() implies texts[i] == (
            (#[trigger] rows[i]).title@,
            rows[i].value@,
        ) by {}
    }
}

/// The states are listed by name, each with the animations that belong to it.
pub proof fn states_are_described(c: &Character, r: Option<Group>, i: int)
    requires
        call_ensures(states_group, (c,), r),
    ensures
        r is None <==> c.info.states@.len() == 0,
        r matches Some(g) ==> {
            let states = c.info.states@;
            &&& g.title@ == "States"@
            &&& g.rows@.len() == states.len()
            &&& 0 <= i < states.len() ==> exists|k: int|
                0 <= k < states.len() && g.rows@[i].title@ == (#[trigger] states[k]).name@
                    && g.rows@[i].value@ == joined(text::texts(states[k].animations@))
            &&& 0 < i < states.len() ==> text::ordered(g.rows@[i - 1].title@, g.rows@[i].title@)
        },
{
    let states = c.info.states@;
    if let Some(g) = r {
        let order = order_upto(states, states.len());
        assert(c.info.states.len() == states.len());
        states_are_in_order(states, states.len());
        let texts = row_texts(g.rows@);
        assert(texts.len() == g.rows@.len());
        if 0 <= i < states.len() {
            assert(texts[i] == (g.rows@[i].title@, g.rows@[i].value@));
            let k = order[i] as int;
            assert(states[k].name@ == g.rows@[i].title@);
            if i > 0 {
                assert(texts[i - 1] == (g.rows@[i - 1].title@, g.rows@[i - 1].value@));
                assert(precedes(states, order[i - 1], order[i]));
            }
        }
    }
}

/// The words for a character that has just been loaded: its name, or that it has
/// none; its file and how many animations there are; and the name with that of
/// the viewer.
pub proof fn loaded_characters_are_named(
    name: Option<&str>,
    file: &str,
    animations: usize,
    r: Titles,
)
    requires
        call_ensures(titles, (name, file, animations), r),
    ensures
        name matches Some(n) ==> r.name@ == n@,
        name is None ==> r.name@ == "Unnamed character"@,
        r.subtitle@ == file@ + " · "@ + text::decimal(animations as nat) + " animations"@,
        r.window@ == r.name@ + " — Agent Viewer"@,
{
}

/// An animation in the list tells its frames and its time; one without frames
/// could not be read.
pub proof fn rows_tell_frames_and_time(frames: usize, seconds: &str, r: String)
    requires
        call_ensures(row_detail, (frames, seconds), r),
    ensures
        frames == 0 ==> r@ == "unreadable"@,
        frames > 0 ==> r@ == text::decimal(frames as nat) + " frames · "@ + seconds@ + "s"@,
{
}

/// The button pauses what plays, and plays what does not; it can be pressed only
/// where there are frames to play.
pub proof fn the_button_does_the_other_thing(player: Option<&Player>, r: (&'static str, bool))
    requires
        call_ensures(play_button, (player,), r),
    ensures
        player matches Some(p) ==> {
            &&& p@.playing ==> r.0@ == "media-playback-pause-symbolic"@
            &&& !p@.playing ==> r.0@ == "media-playback-start-symbolic"@
            &&& r.1 <==> p@.frames().len() > 0
        },
        player is None ==> r.0@ == "media-playback-start-symbolic"@ && !r.1,
{
}

} // verus!
