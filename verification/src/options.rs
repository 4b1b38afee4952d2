//! Command-line choices and the text the alert service knows them by.

use vstd::prelude::*;

verus! {

/// A notification channel a trigger can fire.
#[derive(Clone, Copy, Debug, PartialEq, Eq, Structural)]
pub enum Action {
    Url,
    App,
    Threema,
    Telnet,
}

/// A transmission mode a trigger can be limited to.
#[derive(Clone, Copy, Debug, PartialEq, Eq, Structural)]
pub enum Mode {
    CW,
    FT8,
    SSB,
}

/// How several callsigns are written into one condition string.
#[derive(Clone, Copy, Debug, PartialEq, Eq, Structural)]
pub enum CallsignFormat {
    /// Comma and space: `N0CALL, K0TEST, W0XYZ`.
    Default,
    /// Comma only: `N0CALL,K0TEST,W0XYZ`.
    Compact,
    /// One callsign per line.
    OnePerLine,
}

impl Action {
    /// The service's name for the channel.
    pub open spec fn name(self) -> Seq<char> {
        match self {
            Action::Url => "url"@,
            Action::App => "app"@,
            Action::Threema => "threema"@,
            Action::Telnet => "telnet"@,
        }
    }

    /// The service's name for the channel.
    pub fn as_str(&self) -> (text: &'static str)
        ensures
            text@ == self.name(),
    {
        match self {
            Action::Url => "url",
            Action::App => "app",
            Action::Threema => "threema",
            Action::Telnet => "telnet",
        }
    }
}

impl Mode {
    /// The service's name for the mode.
    pub open spec fn name(self) -> Seq<char> {
        match self {
            Mode::CW => "cw"@,
            Mode::FT8 => "ft8"@,
            Mode::SSB => "ssb"@,
        }
    }

    /// The service's name for the mode.
    pub fn as_str(&self) -> (text: &'static str)
        ensures
            text@ == self.name(),
    {
        match self {
            Mode::CW => "cw",
            Mode::FT8 => "ft8",
            Mode::SSB => "ssb",
        }
    }
}

impl CallsignFormat {
    /// The text written between two callsigns.
    pub open spec fn separator_text(self) -> Seq<char> {
        match self {
            CallsignFormat::Default => ", "@,
            CallsignFormat::Compact => ","@,
            CallsignFormat::OnePerLine => "\n"@,
        }
    }

    /// The format the two flags select; `compact` wins over `one_per_line`.
    pub open spec fn of_flags(compact: bool, one_per_line: bool) -> CallsignFormat {
        if compact {
            CallsignFormat::Compact
        } else if one_per_line {
            CallsignFormat::OnePerLine
        } else {
            CallsignFormat::Default
        }
    }

    /// The text written between two callsigns.
    pub fn separator(&self) -> (text: &'static str)
        ensures
            text@ == self.separator_text(),
    {
        match self {
            CallsignFormat::Default => ", ",
            CallsignFormat::Compact => ",",
            CallsignFormat::OnePerLine => "\n",
        }
    }

    /// The format that the two flags of the command line select; `compact`
    /// wins where both are set.
    pub fn from_flags(compact: bool, one_per_line: bool) -> (format: CallsignFormat)
        ensures
            format == Self::of_flags(compact, one_per_line),
    {
        match (compact, one_per_line) {
            (true, _) => CallsignFormat::Compact,
            (_, true) => CallsignFormat::OnePerLine,
            _ => CallsignFormat::Default,
        }
    }
}

impl Default for CallsignFormat {
    fn default() -> (format: CallsignFormat)
        ensures
            format == CallsignFormat::Default,
    {
        CallsignFormat::Default
    }
}

} // verus!
