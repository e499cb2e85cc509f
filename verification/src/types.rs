//! The command list a script parses to, and the mutable playback state.

use vstd::prelude::*;

verus! {

/// A nonnegative decimal number in fixed point, held as millionths.
///
/// `micros == 1_500_000` stands for the value `1.5`. Directive values that
/// the script format writes as decimals (speeds and waits in seconds, the
/// jitter fraction) are held this way so that the playback arithmetic is
/// exact. Values beyond `u64::MAX` millionths saturate.
#[derive(Debug, Clone, Copy, PartialEq, Eq, Structural)]
pub struct Decimal {
    pub micros: u64,
}

/// One instruction of a script, in execution order.
#[derive(Debug, Clone, PartialEq)]
pub enum Command {
    /// Base inter-keystroke delay, in seconds.
    SetSpeed(Decimal),
    /// Randomization fraction of the base delay; `0.0..=1.0` expected but
    /// not clamped.
    SetJitter(Decimal),
    /// A pause of the given number of seconds, with no keystroke.
    Wait(Decimal),
    /// Shell to spawn; meaningful only before playback starts.
    SetShell(String),
    /// Terminal columns and rows; meaningful only before the terminal is
    /// created.
    SetSize(u16, u16),
    /// Fully resolved literal text, already containing the raw control and
    /// escape bytes of any special keys used.
    Type(String),
}

/// The mathematical value of a [`Command`]: decimals as their count of
/// millionths, strings as character sequences.
pub ghost enum CommandV {
    SetSpeed { micros: int },
    SetJitter { micros: int },
    Wait { micros: int },
    SetShell { path: Seq<char> },
    SetSize { cols: u16, rows: u16 },
    Type { text: Seq<char> },
}

impl View for Command {
    type V = CommandV;

    open spec fn view(&self) -> CommandV {
        match self {
            Command::SetSpeed(d) => CommandV::SetSpeed { micros: d.micros as int },
            Command::SetJitter(d) => CommandV::SetJitter { micros: d.micros as int },
            Command::Wait(d) => CommandV::Wait { micros: d.micros as int },
            Command::SetShell(s) => CommandV::SetShell { path: s@ },
            Command::SetSize(c, r) => CommandV::SetSize { cols: *c, rows: *r },
            Command::Type(t) => CommandV::Type { text: t@ },
        }
    }
}

impl DeepView for Command {
    type V = CommandV;

    open spec fn deep_view(&self) -> CommandV {
        self.view()
    }
}

/// An ordered command list; order is execution order, preserved exactly from
/// source line order.
#[derive(Debug, Clone, PartialEq)]
pub struct Script {
    pub commands: Vec<Command>,
}

impl View for Script {
    type V = Seq<CommandV>;

    open spec fn view(&self) -> Seq<CommandV> {
        self.commands.deep_view()
    }
}

/// Mutable pacing state, read before every delay computation and mutated
/// only by `SetSpeed` and `SetJitter` commands during playback.
#[derive(Debug, Clone, Copy, PartialEq, Eq, Structural)]
pub struct PlaybackConfig {
    /// Base time between keystrokes, in seconds.
    pub speed: Decimal,
    /// Jitter as a fraction of the base delay.
    pub jitter: Decimal,
}

impl Default for PlaybackConfig {
    /// 100 ms per keystroke, no jitter.
    fn default() -> (r: Self)
        ensures
            r.speed.micros == 100_000,
            r.jitter.micros == 0,
    {
        PlaybackConfig { speed: Decimal { micros: 100_000 }, jitter: Decimal { micros: 0 } }
    }
}

} // verus!
