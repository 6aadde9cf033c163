//! The running state of a distribution, and the colours of the interface.
use vstd::prelude::*;

use crate::text::{ascii_lowercase, from_chars, same_text, to_chars, to_lowercase_chars};

verus! {

/// An opaque colour.
#[derive(Debug, Clone, Copy, PartialEq, Eq, Structural)]
pub struct Rgb {
    pub r: u8,
    pub g: u8,
    pub b: u8,
}

/// A colour with premultiplied alpha.
#[derive(Debug, Clone, Copy, PartialEq, Eq, Structural)]
pub struct Rgba {
    pub r: u8,
    pub g: u8,
    pub b: u8,
    pub a: u8,
}

impl Rgb {
    /// The colour with the given channels.
    pub open spec fn of(r: u8, g: u8, b: u8) -> Rgb {
        Rgb { r, g, b }
    }

    /// The colour with the given channels.
    pub fn new(r: u8, g: u8, b: u8) -> (c: Rgb)
        ensures
            c == Rgb::of(r, g, b),
    {
        Rgb { r, g, b }
    }

    /// The channels of the colour beside the given alpha.
    pub open spec fn tinted(self, a: u8) -> Rgba {
        Rgba { r: self.r, g: self.g, b: self.b, a }
    }

    /// The channels of the colour beside the given alpha.
    pub fn tint(self, a: u8) -> (c: Rgba)
        ensures
            c == self.tinted(a),
    {
        Rgba { r: self.r, g: self.g, b: self.b, a }
    }
}

/// Whether a distribution runs.
#[derive(Debug, Clone, Copy, PartialEq, Eq, Structural)]
pub enum WslState {
    Running,
    Stopped,
    Unknown,
}

/// What the state column of a listing says, whatever the ASCII case.
pub open spec fn state_of(value: Seq<char>) -> WslState {
    let word = ascii_lowercase(value);
    if word == "running"@ {
        WslState::Running
    } else if word == "stopped"@ {
        WslState::Stopped
    } else {
        WslState::Unknown
    }
}

impl WslState {
    /// The name of the state in the interface.
    pub open spec fn label_text(self) -> Seq<char> {
        match self {
            WslState::Running => "运行中"@,
            WslState::Stopped => "已停止"@,
            WslState::Unknown => "未知"@,
        }
    }

    /// The colour of the state in the interface.
    pub open spec fn color_value(self) -> Rgb {
        match self {
            WslState::Running => Rgb::of(63, 185, 132),
            WslState::Stopped => Rgb::of(166, 172, 185),
            WslState::Unknown => Rgb::of(216, 170, 78),
        }
    }

    /// Reads the state column of a listing.
    pub fn from_wsl(value: &str) -> (state: WslState)
        ensures
            state == state_of(value@),
    {
        let chars = to_chars(value);
        let low = to_lowercase_chars(chars.as_slice());
        let word = from_chars(low.as_slice());
        if same_text(word.as_str(), "running") {
            WslState::Running
        } else if same_text(word.as_str(), "stopped") {
            WslState::Stopped
        } else {
            WslState::Unknown
        }
    }

    /// The name of the state in the interface.
    pub fn label(self) -> (text: &'static str)
        ensures
            text@ == self.label_text(),
    {
        match self {
            WslState::Running => "运行中",
            WslState::Stopped => "已停止",
            WslState::Unknown => "未知",
        }
    }

    /// The colour of the state in the interface.
    pub fn color(self) -> (c: Rgb)
        ensures
            c == self.color_value(),
    {
        match self {
            WslState::Running => Rgb::new(63, 185, 132),
            WslState::Stopped => Rgb::new(166, 172, 185),
            WslState::Unknown => Rgb::new(216, 170, 78),
        }
    }
}

/// The case of ASCII letters does not matter to a state, and no word but the two
/// that are known gives one.
pub proof fn law_states_are_read_in_any_case(a: Seq<char>, b: Seq<char>)
    ensures
        ascii_lowercase(a) == ascii_lowercase(b) ==> state_of(a) == state_of(b),
        state_of(a) == WslState::Running <==> ascii_lowercase(a) == "running"@,
        state_of(a) == WslState::Stopped <==> ascii_lowercase(a) == "stopped"@,
{
    reveal_strlit("running");
    reveal_strlit("stopped");
    assert("running"@[0] == 'r' && "stopped"@[0] == 's');
}

/// States are told apart by their labels, and by their colours.
pub proof fn law_states_are_told_apart(s: WslState, t: WslState)
    ensures
        s.label_text() == t.label_text() ==> s == t,
        s.color_value() == t.color_value() ==> s == t,
{
    reveal_strlit("运行中");
    reveal_strlit("已停止");
    reveal_strlit("未知");
    assert("运行中"@[0] == '运' && "已停止"@[0] == '已' && "未知"@[0] == '未');
}

/// A tint has the channels of its colour, and the alpha that was asked for.
pub proof fn law_tint(c: Rgb, a: u8)
    ensures
        c.tinted(a).r == c.r,
        c.tinted(a).g == c.g,
        c.tinted(a).b == c.b,
        c.tinted(a).a == a,
{
}

} // verus!
