//! The settings that the reader's front end and back end share.

use vstd::prelude::*;
use vstd::string::StringExecFns;

verus! {

/// The colour scheme of the reader.
#[derive(Debug, Clone, Copy, PartialEq, Eq, Structural)]
pub enum Theme {
    /// As the system says.
    Auto,
    Dark,
    Light,
}

impl Theme {
    /// The name of the theme as it is written in settings.
    pub open spec fn spec_name(self) -> Seq<char> {
        match self {
            Theme::Auto => "Auto"@,
            Theme::Dark => "Dark"@,
            Theme::Light => "Light"@,
        }
    }

    /// The name of the theme as it is written in settings.
    pub fn name(self) -> (name: &'static str)
        ensures
            name@ == self.spec_name(),
    {
        match self {
            Theme::Auto => "Auto",
            Theme::Dark => "Dark",
            Theme::Light => "Light",
        }
    }

    /// What `parse` answers for the text `s`.
    pub open spec fn spec_parse(s: Seq<char>) -> Result<Theme, Seq<char>> {
        if s == "Auto"@ {
            Ok(Theme::Auto)
        } else if s == "Dark"@ {
            Ok(Theme::Dark)
        } else if s == "Light"@ {
            Ok(Theme::Light)
        } else {
            Err("invalid theme "@ + s)
        }
    }

    /// The theme whose name is `s`; any other text is refused with a message
    /// that repeats it.
    pub fn parse(s: &str) -> (parsed: Result<Theme, String>)
        ensures
            match parsed {
                Ok(theme) => Theme::spec_parse(s@) == Ok::<Theme, Seq<char>>(theme),
                Err(message) => Theme::spec_parse(s@) == Err::<Theme, Seq<char>>(message@),
            },
    {
        let text = s.to_owned();
        if text == "Auto".to_owned() {
            Ok(Theme::Auto)
        } else if text == "Dark".to_owned() {
            Ok(Theme::Dark)
        } else if text == "Light".to_owned() {
            Ok(Theme::Light)
        } else {
            Err(String::from_str("invalid theme ").concat(s))
        }
    }
}

/// What `dark_mode` answers.
pub open spec fn spec_dark_mode(theme: Option<Theme>, system_prefers_dark: Option<bool>) -> bool {
    match theme {
        None => false,
        Some(Theme::Auto) => system_prefers_dark == Some(true),
        Some(Theme::Dark) => true,
        Some(Theme::Light) => false,
    }
}

/// Whether the reader is shown dark. `theme` is the theme of the settings,
/// or `None` while they are not loaded; `system_prefers_dark` is what the
/// system says of its own colour scheme, if it says anything. Without
/// settings the reader is light; the dark and the light theme decide alone;
/// the automatic theme follows the system, and is light where it is silent.
pub fn dark_mode(theme: Option<Theme>, system_prefers_dark: Option<bool>) -> (dark: bool)
    ensures
        dark == spec_dark_mode(theme, system_prefers_dark),
{
    match theme {
        None => false,
        Some(Theme::Auto) => match system_prefers_dark {
            Some(prefers) => prefers,
            None => false,
        },
        Some(Theme::Dark) => true,
        Some(Theme::Light) => false,
    }
}

impl Default for Theme {
    fn default() -> (theme: Theme)
        ensures
            theme == Theme::Auto,
    {
        Theme::Auto
    }
}

impl std::str::FromStr for Theme {
    type Err = String;

    /// The theme whose name is `s`, as `parse` gives it.
    fn from_str(s: &str) -> (parsed: Result<Theme, String>)
        ensures
            match parsed {
                Ok(theme) => Theme::spec_parse(s@) == Ok::<Theme, Seq<char>>(theme),
                Err(message) => Theme::spec_parse(s@) == Err::<Theme, Seq<char>>(message@),
            },
    {
        Theme::parse(s)
    }
}

/// The settings of the front end.
#[derive(Debug, Clone)]
pub struct AppSettings {
    pub display_font_style: String,
    pub display_font_size: usize,
    pub textarea_font_style: String,
    pub textarea_font_size: usize,
    pub jump_back_chunks: usize,
    pub jump_forward_chunks: usize,
    pub theme: Theme,
}

impl Default for AppSettings {
    fn default() -> (settings: AppSettings)
        ensures
            settings.display_font_style@ == "Monospace"@,
            settings.display_font_size == 35,
            settings.textarea_font_style@ == "Monospace"@,
            settings.textarea_font_size == 12,
            settings.jump_back_chunks == 5,
            settings.jump_forward_chunks == 5,
            settings.theme == Theme::Auto,
    {
        AppSettings {
            display_font_style: String::from_str("Monospace"),
            display_font_size: 35,
            textarea_font_style: String::from_str("Monospace"),
            textarea_font_size: 12,
            jump_back_chunks: 5,
            jump_forward_chunks: 5,
            theme: Theme::Auto,
        }
    }
}

} // verus!
