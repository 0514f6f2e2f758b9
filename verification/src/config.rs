//! The settings of the overlay, as they are once the configuration file has
//! been taken apart: which level of the log is kept, which keys show and hide
//! the overlay, and which indicators it starts with.

use tracing_subscriber::filter::LevelFilter;
use vstd::prelude::*;
use vstd::string::StringExecFns;

verus! {

/// How much of the log is kept: nothing, or everything up to a level.
#[derive(Clone, Copy, Debug, PartialEq, Eq, Structural)]
pub enum LogLevel {
    Off,
    Error,
    Warn,
    Info,
    Debug,
    Trace,
}

/// What `tracing_subscriber::filter::LevelFilter::from_str` makes of `value`:
/// the level that it names, or the text of the error.
pub uninterp spec fn level_filter_of(value: Seq<char>) -> Result<LogLevel, Seq<char>>;

/// Parses the name of a level with `LevelFilter::from_str` of the crate
/// `tracing_subscriber`. The result is a function of `value` alone; which
/// names and numbers are levels is for that crate to say. On an error the
/// text is the one that the crate's error displays.
#[verifier::external_body]
fn parse_level_filter(value: &str) -> (parsed: Result<LogLevel, String>)
    ensures
        text_of(parsed) == level_filter_of(value@),
{
    match <LevelFilter as std::str::FromStr>::from_str(value) {
        Ok(LevelFilter::OFF) => Ok(LogLevel::Off),
        Ok(LevelFilter::ERROR) => Ok(LogLevel::Error),
        Ok(LevelFilter::WARN) => Ok(LogLevel::Warn),
        Ok(LevelFilter::INFO) => Ok(LogLevel::Info),
        Ok(LevelFilter::DEBUG) => Ok(LogLevel::Debug),
        Ok(_) => Ok(LogLevel::Trace),
        Err(error) => Err(format!("{}", error)),
    }
}

/// A result with the text of its error as a sequence.
pub open spec fn text_of<T>(result: Result<T, String>) -> Result<T, Seq<char>> {
    match result {
        Ok(value) => Ok(value),
        Err(text) => Err(text@),
    }
}

/// The level of the log that the configuration asks for.
#[derive(Clone, Copy, Debug)]
pub struct LevelFilterSerde(pub LogLevel);

impl LevelFilterSerde {
    /// The level.
    pub fn inner(&self) -> (level: LogLevel)
        ensures
            level == self.0,
    {
        self.0
    }

    /// What becomes of a parsed level: the level itself, or the error with
    /// what failed put before it.
    pub open spec fn checked(parsed: Result<LogLevel, Seq<char>>) -> Result<
        LevelFilterSerde,
        Seq<char>,
    > {
        match parsed {
            Ok(level) => Ok(LevelFilterSerde(level)),
            Err(text) => Err("Couldn't parse log level filter: "@ + text),
        }
    }

    /// The level or the error, from what the parser made of the text.
    pub fn from_parsed(parsed: Result<LogLevel, String>) -> (checked: Result<
        LevelFilterSerde,
        String,
    >)
        ensures
            text_of(checked) == Self::checked(text_of(parsed)),
    {
        match parsed {
            Ok(level) => Ok(LevelFilterSerde(level)),
            Err(text) => Err(
                String::from_str("Couldn't parse log level filter: ").concat(text.as_str()),
            ),
        }
    }

    /// The level that `value` names.
    pub fn try_from(value: String) -> (checked: Result<LevelFilterSerde, String>)
        ensures
            text_of(checked) == Self::checked(level_filter_of(value@)),
    {
        Self::from_parsed(parse_level_filter(value.as_str()))
    }
}

/// What the overlay can show beside the game.
#[derive(Clone, Copy, Debug, PartialEq, Eq, Structural)]
pub enum IndicatorType {
    Igt,
    Position,
    PositionChange,
    GameVersion,
    ImguiDebug,
    Fps,
    FrameCount,
    Animation,
}

impl IndicatorType {
    /// The indicator that the configuration calls `name`.
    pub open spec fn named(name: Seq<char>) -> Option<IndicatorType> {
        if name == "igt"@ {
            Some(IndicatorType::Igt)
        } else if name == "position"@ {
            Some(IndicatorType::Position)
        } else if name == "position_change"@ {
            Some(IndicatorType::PositionChange)
        } else if name == "game_version"@ {
            Some(IndicatorType::GameVersion)
        } else if name == "imgui_debug"@ {
            Some(IndicatorType::ImguiDebug)
        } else if name == "fps"@ {
            Some(IndicatorType::Fps)
        } else if name == "framecount"@ {
            Some(IndicatorType::FrameCount)
        } else if name == "animation"@ {
            Some(IndicatorType::Animation)
        } else {
            None
        }
    }

    /// The words under which the overlay lists the indicator.
    pub open spec fn spec_label(self) -> Seq<char> {
        match self {
            IndicatorType::GameVersion => "Game Version"@,
            IndicatorType::Position => "Player Position"@,
            IndicatorType::PositionChange => "Player Velocity"@,
            IndicatorType::Igt => "IGT Timer"@,
            IndicatorType::Fps => "FPS"@,
            IndicatorType::FrameCount => "Frame Counter"@,
            IndicatorType::ImguiDebug => "ImGui Debug Info"@,
            IndicatorType::Animation => "Animation"@,
        }
    }

    /// The words under which the overlay lists the indicator.
    pub fn label(self) -> (label: &'static str)
        ensures
            label@ == self.spec_label(),
    {
        match self {
            IndicatorType::GameVersion => "Game Version",
            IndicatorType::Position => "Player Position",
            IndicatorType::PositionChange => "Player Velocity",
            IndicatorType::Igt => "IGT Timer",
            IndicatorType::Fps => "FPS",
            IndicatorType::FrameCount => "Frame Counter",
            IndicatorType::ImguiDebug => "ImGui Debug Info",
            IndicatorType::Animation => "Animation",
        }
    }
}

/// An indicator as the configuration file names it.
#[derive(Clone, Debug)]
pub struct IndicatorConfig {
    pub indicator: String,
    pub enabled: bool,
}

/// An indicator, and whether it is shown.
#[derive(Clone, Copy, Debug, PartialEq, Eq, Structural)]
pub struct Indicator {
    pub indicator: IndicatorType,
    pub enabled: bool,
}

/// Whether `value` is the text `text`.
fn is_text(value: &String, text: &str) -> (same: bool)
    ensures
        same == (value@ == text@),
{
    *value == String::from_str(text)
}

impl Indicator {
    /// The indicators that the overlay starts with where the configuration
    /// names none: the version of the game and the time played are shown,
    /// the others are not.
    pub open spec fn spec_default_set() -> Seq<Indicator> {
        seq![
            Indicator { indicator: IndicatorType::GameVersion, enabled: true },
            Indicator { indicator: IndicatorType::Igt, enabled: true },
            Indicator { indicator: IndicatorType::Position, enabled: false },
            Indicator { indicator: IndicatorType::PositionChange, enabled: false },
            Indicator { indicator: IndicatorType::Animation, enabled: false },
            Indicator { indicator: IndicatorType::Fps, enabled: false },
            Indicator { indicator: IndicatorType::FrameCount, enabled: false },
            Indicator { indicator: IndicatorType::ImguiDebug, enabled: false },
        ]
    }

    /// The indicators that the overlay starts with where the configuration
    /// names none.
    pub fn default_set() -> (set: Vec<Indicator>)
        ensures
            set@ == Self::spec_default_set(),
    {
        let mut set: Vec<Indicator> = Vec::new();
        set.push(Indicator { indicator: IndicatorType::GameVersion, enabled: true });
        set.push(Indicator { indicator: IndicatorType::Igt, enabled: true });
        set.push(Indicator { indicator: IndicatorType::Position, enabled: false });
        set.push(Indicator { indicator: IndicatorType::PositionChange, enabled: false });
        set.push(Indicator { indicator: IndicatorType::Animation, enabled: false });
        set.push(Indicator { indicator: IndicatorType::Fps, enabled: false });
        set.push(Indicator { indicator: IndicatorType::FrameCount, enabled: false });
        set.push(Indicator { indicator: IndicatorType::ImguiDebug, enabled: false });
        set
    }

    /// The indicator that `indicator` names, shown or not as it says. A name
    /// that the overlay does not know is an error that quotes the name.
    pub fn try_from(indicator: IndicatorConfig) -> (made: Result<Indicator, String>)
        ensures
            match IndicatorType::named(indicator.indicator@) {
                Some(kind) => made == Ok::<Indicator, String>(
                    Indicator { indicator: kind, enabled: indicator.enabled },
                ),
                None => made matches Err(text) && text@ == "Unrecognized indicator: "@
                    + indicator.indicator@,
            },
    {
        let name = &indicator.indicator;
        let enabled = indicator.enabled;
        if is_text(name, "igt") {
            Ok(Indicator { indicator: IndicatorType::Igt, enabled })
        } else if is_text(name, "position") {
            Ok(Indicator { indicator: IndicatorType::Position, enabled })
        } else if is_text(name, "position_change") {
            Ok(Indicator { indicator: IndicatorType::PositionChange, enabled })
        } else if is_text(name, "game_version") {
            Ok(Indicator { indicator: IndicatorType::GameVersion, enabled })
        } else if is_text(name, "imgui_debug") {
            Ok(Indicator { indicator: IndicatorType::ImguiDebug, enabled })
        } else if is_text(name, "fps") {
            Ok(Indicator { indicator: IndicatorType::Fps, enabled })
        } else if is_text(name, "framecount") {
            Ok(Indicator { indicator: IndicatorType::FrameCount, enabled })
        } else if is_text(name, "animation") {
            Ok(Indicator { indicator: IndicatorType::Animation, enabled })
        } else {
            Err(String::from_str("Unrecognized indicator: ").concat(name.as_str()))
        }
    }
}

/// The settings of the overlay. A key is held as the configuration writes
/// it.
#[derive(Clone, Debug)]
pub struct Settings {
    pub log_level: LevelFilterSerde,
    pub display: String,
    pub hide: Option<String>,
    pub show_console: bool,
    pub indicators: Vec<Indicator>,
}

/// The configuration of the overlay.
#[derive(Clone, Debug)]
pub struct Config {
    pub settings: Settings,
}

impl Config {
    /// The configuration that is used where none can be read: the log is
    /// kept up to the level of debugging, `0` shows the overlay and the right
    /// shift key with `0` hides it, no console is shown, and the indicators
    /// are those of [`Indicator::default_set`].
    pub fn default() -> (config: Config)
        ensures
            config.settings.log_level.0 == LogLevel::Debug,
            config.settings.display@ == "0"@,
            config.settings.hide matches Some(hide) && hide@ == "rshift+0"@,
            !config.settings.show_console,
            config.settings.indicators@ == Indicator::spec_default_set(),
    {
        Config {
            settings: Settings {
                log_level: LevelFilterSerde(LogLevel::Debug),
                display: "0".to_owned(),
                hide: Some("rshift+0".to_owned()),
                show_console: false,
                indicators: Indicator::default_set(),
            },
        }
    }
}

} // verus!
