//! The character stage: backdrops, and what the word balloon shows.
use vstd::prelude::*;

use crate::text;
use crate::text::{chars_of, trim};
use crate::types::{BalloonInfo, CharacterInfo, Rgb};

verus! {

/// Backdrop drawn behind the character.
#[derive(Debug, Clone, Copy, PartialEq, Eq, Structural)]
pub enum Backdrop {
    /// Alternating grey squares, the usual way to show transparency.
    Checker,
    Dark,
    Light,
}

impl Default for Backdrop {
    fn default() -> (r: Backdrop)
        ensures
            r == Backdrop::Checker,
    {
        Backdrop::Checker
    }
}

impl Backdrop {
    /// The backdrop after this one.
    pub open spec fn following(self) -> Backdrop {
        match self {
            Backdrop::Checker => Backdrop::Dark,
            Backdrop::Dark => Backdrop::Light,
            Backdrop::Light => Backdrop::Checker,
        }
    }

    /// The icon that stands for a backdrop.
    pub open spec fn icon_name(self) -> Seq<char> {
        match self {
            Backdrop::Checker => "view-reveal-symbolic"@,
            Backdrop::Dark => "weather-clear-night-symbolic"@,
            Backdrop::Light => "weather-clear-symbolic"@,
        }
    }

    /// The backdrop after this one.
    pub fn next(self) -> (r: Backdrop)
        ensures
            r == self.following(),
    {
        match self {
            Backdrop::Checker => Backdrop::Dark,
            Backdrop::Dark => Backdrop::Light,
            Backdrop::Light => Backdrop::Checker,
        }
    }

    /// The icon that stands for a backdrop.
    pub fn icon(self) -> (r: &'static str)
        ensures
            r@ == self.icon_name(),
    {
        match self {
            Backdrop::Checker => "view-reveal-symbolic",
            Backdrop::Dark => "weather-clear-night-symbolic",
            Backdrop::Light => "weather-clear-symbolic",
        }
    }
}

/// Switching three times comes back to the same backdrop, and no sooner.
pub proof fn backdrops_go_round(b: Backdrop)
    ensures
        b.following().following().following() == b,
        b.following() != b,
        b.following().following() != b,
{
}

/// Everything needed to draw the word balloon.
#[derive(Debug)]
pub struct Balloon {
    pub text: String,
    /// How much of `text` to reveal, in characters, for paced output.
    pub visible_chars: usize,
    /// The author's colours; without them the viewer's own are used.
    pub colors: Option<BalloonColors>,
    pub font_family: String,
    /// The font size in quarters of a point.
    pub font_size_quarters: u32,
    pub italic: bool,
    pub bold: bool,
    pub chars_per_line: usize,
}

/// The colours of a word balloon.
#[derive(Debug, Clone, Copy, PartialEq, Eq, Structural)]
pub struct BalloonColors {
    pub foreground: Rgb,
    pub background: Rgb,
    pub border: Rgb,
}

/// The size of a font in quarters of a point. Authored font heights are Windows
/// logical units at 96 dpi, three quarters of a point each; the size is kept
/// between 9 and 20 points.
pub open spec fn size_quarters(font_height: i32) -> int {
    let height = if font_height < 0 {
        -font_height
    } else {
        font_height as int
    };
    if 3 * height < 36 {
        36
    } else if 3 * height > 80 {
        80
    } else {
        3 * height
    }
}

fn font_quarters(font_height: i32) -> (r: u32)
    ensures
        r == size_quarters(font_height),
{
    let wide: i64 = font_height as i64;
    let height: i64 = if wide < 0 {
        -wide
    } else {
        wide
    };
    if 3 * height < 36 {
        36
    } else if 3 * height > 80 {
        80
    } else {
        (3 * height) as u32
    }
}

impl Balloon {
    /// The balloon for a text, in the style of the author's settings or else
    /// of the viewer's own, with nothing revealed yet.
    pub open spec fn is_for(&self, balloon: Option<BalloonInfo>, text: Seq<char>) -> bool {
        &&& self.text@ == text
        &&& self.visible_chars == 0
        &&& match balloon {
            Some(b) => {
                &&& self.colors == Some(
                    BalloonColors {
                        foreground: b.foreground,
                        background: b.background,
                        border: b.border,
                    },
                )
                &&& self.font_family@ == b.font_name@
                &&& self.font_size_quarters == size_quarters(b.font_height)
                &&& self.italic == b.italic
                &&& self.bold == (b.font_weight >= 600)
                &&& self.chars_per_line == (if b.chars_per_line > 0 {
                    b.chars_per_line as usize
                } else {
                    32
                })
            },
            None => {
                &&& self.colors is None
                &&& self.font_family@.len() == 0
                &&& self.font_size_quarters == 44
                &&& !self.italic
                &&& !self.bold
                &&& self.chars_per_line == 32
            },
        }
    }

    /// The revealed part of the text.
    pub open spec fn revealed(&self) -> Seq<char> {
        if self.visible_chars < self.text@.len() {
            self.text@.take(self.visible_chars as int)
        } else {
            self.text@
        }
    }

    /// The part of the text to draw: nothing while only white space would show.
    pub fn visible_text(&self) -> (r: Option<String>)
        ensures
            match r {
                Some(s) => text::trimmed(self.revealed()).len() > 0 && s@ == self.revealed(),
                None => text::trimmed(self.revealed()).len() == 0,
            },
    {
        let chars = chars_of(self.text.as_str());
        let n: usize = if self.visible_chars < chars.len() {
            self.visible_chars
        } else {
            chars.len()
        };
        let shown = self.text.as_str().substring_char(0, n);
        assert(shown@ =~= self.revealed());
        let bare = chars_of(trim(shown));
        if bare.len() == 0 {
            None
        } else {
            Some(shown.to_owned())
        }
    }

    /// The same balloon once more.
    pub fn copy(&self) -> (r: Balloon)
        ensures
            r.text@ == self.text@,
            r.visible_chars == self.visible_chars,
            r.colors == self.colors,
            r.font_family@ == self.font_family@,
            r.font_size_quarters == self.font_size_quarters,
            r.italic == self.italic,
            r.bold == self.bold,
            r.chars_per_line == self.chars_per_line,
    {
        Balloon {
            text: self.text.as_str().to_owned(),
            visible_chars: self.visible_chars,
            colors: self.colors,
            font_family: self.font_family.as_str().to_owned(),
            font_size_quarters: self.font_size_quarters,
            italic: self.italic,
            bold: self.bold,
            chars_per_line: self.chars_per_line,
        }
    }
}

/// Styles a balloon for a text.
pub fn balloon_for(info: &CharacterInfo, text: &str) -> (r: Balloon)
    ensures
        r.is_for(info.balloon, text@),
{
    match &info.balloon {
        Some(b) => Balloon {
            text: text.to_owned(),
            visible_chars: 0,
            colors: Some(
                BalloonColors {
                    foreground: b.foreground,
                    background: b.background,
                    border: b.border,
                },
            ),
            font_family: b.font_name.as_str().to_owned(),
            font_size_quarters: font_quarters(b.font_height),
            italic: b.italic,
            bold: b.font_weight >= 600,
            chars_per_line: if b.chars_per_line > 0 {
                b.chars_per_line as usize
            } else {
                32
            },
        },
        None => Balloon {
            text: text.to_owned(),
            visible_chars: 0,
            colors: None,
            font_family: String::new(),
            font_size_quarters: 44,
            italic: false,
            bold: false,
            chars_per_line: 32,
        },
    }
}

/// The room the stage asks for along one side, as minimum, natural size and
/// no baselines: the picture's side, or a default without a picture. The
/// minimum stays small so the window can still be shrunk.
pub fn measure(side: Option<i32>) -> (r: (i32, i32, i32, i32))
    ensures
        r.0 == 48,
        r.1 == (match side {
            Some(n) => if n > 48 {
                n
            } else {
                48
            },
            None => 160,
        }),
        r.2 == -1,
        r.3 == -1,
{
    let natural: i32 = match side {
        Some(n) => n,
        None => 160,
    };
    (
        48,
        if natural > 48 {
            natural
        } else {
            48
        },
        -1,
        -1,
    )
}

/// Fonts are between nine and twenty points high; in between they are as high as
/// authored, at 96 units to the 72 points of an inch, whatever the sign. A taller
/// font never comes out smaller.
pub proof fn fonts_are_readable(a: i32, b: i32)
    ensures
        4 * 9 <= size_quarters(a) <= 4 * 20,
        a > i32::MIN ==> size_quarters(a) == size_quarters((-a) as i32),
        12 <= a <= 26 ==> 96 * size_quarters(a) == 4 * (72 * a),
        0 <= a <= 12 ==> size_quarters(a) == 4 * 9,
        a >= 27 ==> size_quarters(a) == 4 * 20,
        0 <= a <= b ==> size_quarters(a) <= size_quarters(b),
{
}

/// A balloon says its text in the author's colours and font: bold from a weight
/// of 600 on, and with 32 characters to a line where no number is given. Without
/// the author's settings it is in eleven points, upright and of plain weight.
pub proof fn balloons_follow_the_author(info: &CharacterInfo, text: &str, r: Balloon)
    requires
        call_ensures(balloon_for, (info, text), r),
    ensures
        r.text@ == text@,
        r.visible_chars == 0,
        match info.balloon {
            Some(b) => {
                &&& r.colors matches Some(c) && c.foreground == b.foreground && c.background
                    == b.background && c.border == b.border
                &&& r.font_family@ == b.font_name@
                &&& r.font_size_quarters == size_quarters(b.font_height)
                &&& r.italic == b.italic
                &&& r.bold <==> b.font_weight >= 600
                &&& b.chars_per_line > 0 ==> r.chars_per_line == b.chars_per_line
                &&& b.chars_per_line <= 0 ==> r.chars_per_line == 32
            },
            None => {
                &&& r.colors is None
                &&& r.font_family@ == Seq::<char>::empty()
                &&& r.font_size_quarters == 4 * 11
                &&& !r.italic
                &&& !r.bold
                &&& r.chars_per_line == 32
            },
        },
{
    assert(info.balloon is None ==> r.font_family@ =~= Seq::<char>::empty());
}

/// A balloon shows the beginning of its text, as much of it as is revealed, and
/// nothing at all while that is white space alone.
pub proof fn balloons_show_a_beginning(b: &Balloon, r: Option<String>)
    requires
        call_ensures(Balloon::visible_text, (b,), r),
    ensures
        match r {
            Some(s) => {
                &&& s@.is_prefix_of(b.text@)
                &&& s@.len() <= b.visible_chars
                &&& s@.len() < b.visible_chars ==> s@ == b.text@
                &&& text::trimmed(s@).len() > 0
            },
            None => forall|s: Seq<char>|
                #![trigger text::trimmed(s)]
                s.is_prefix_of(b.text@) && (s.len() == b.visible_chars || s == b.text@ && s.len()
                    <= b.visible_chars) ==> text::trimmed(s).len() == 0,
        },
{
    if let None = r {
        assert forall|s: Seq<char>|
            #![trigger text::trimmed(s)]
            s.is_prefix_of(b.text@) && (s.len() == b.visible_chars || s == b.text@ && s.len()
                <= b.visible_chars) implies text::trimmed(s).len() == 0 by {
            assert(s =~= b.revealed());
        }
    }
}

/// The stage asks for the picture's side but no less than 48, which it can be
/// shrunk to, and for 160 without a picture.
pub proof fn the_stage_has_room(side: Option<i32>, r: (i32, i32, i32, i32))
    requires
        call_ensures(measure, (side,), r),
    ensures
        r.0 == 48,
        r.0 <= r.1,
        side is None ==> r.1 == 160,
        side matches Some(n) ==> r.1 >= n && (r.1 == n || r.1 == 48),
        r.2 == -1 && r.3 == -1,
{
}

/// The backdrops come one after another: the checks, the dark one and the light
/// one, each with its own icon.
pub proof fn backdrops_in_turn()
    ensures
        Backdrop::Checker.following() == Backdrop::Dark,
        Backdrop::Dark.following() == Backdrop::Light,
        Backdrop::Light.following() == Backdrop::Checker,
        Backdrop::Checker.icon_name() == "view-reveal-symbolic"@,
        Backdrop::Dark.icon_name() == "weather-clear-night-symbolic"@,
        Backdrop::Light.icon_name() == "weather-clear-symbolic"@,
{
}

} // verus!
