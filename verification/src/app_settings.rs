//! The settings that the back end keeps on disk, and the rules that a window
//! style and a window theme read from there have to meet.

use vstd::prelude::*;
use vstd::string::StringExecFns;

verus! {

/// Whether `style` names a window style other than the automatic one.
pub open spec fn is_window_style(style: Seq<char>) -> bool {
    style == "Windows Mica"@ || style == "MacOS Monterey"@ || style == "Linux Breeze"@
}

/// Whether `theme` names a window theme other than the automatic one.
pub open spec fn is_window_theme(theme: Seq<char>) -> bool {
    theme == "Dark"@ || theme == "Light"@
}

/// `style` if it names a window style, else the automatic style.
pub open spec fn valid_style(style: Seq<char>) -> Seq<char> {
    if is_window_style(style) {
        style
    } else {
        "Auto"@
    }
}

/// `theme` if it names a window theme, else the automatic theme.
pub open spec fn valid_theme(theme: Seq<char>) -> Seq<char> {
    if is_window_theme(theme) {
        theme
    } else {
        "Auto"@
    }
}

/// Keeps a known window style and puts the automatic one for anything else.
pub fn validate_style(style: String) -> (valid: String)
    ensures
        valid@ == valid_style(style@),
{
    if style == "Windows Mica".to_owned() || style == "MacOS Monterey".to_owned() || style
        == "Linux Breeze".to_owned() {
        style
    } else {
        String::from_str("Auto")
    }
}

/// Keeps a known window theme and puts the automatic one for anything else.
pub fn validate_theme(theme: String) -> (valid: String)
    ensures
        valid@ == valid_theme(theme@),
{
    if theme == "Dark".to_owned() || theme == "Light".to_owned() {
        theme
    } else {
        String::from_str("Auto")
    }
}

/// The fonts of the two text areas.
#[derive(Debug, Clone)]
pub struct SettingsFonts {
    pub display_font_style: String,
    pub display_font_size: u8,
    pub textarea_font_style: String,
    pub textarea_font_size: u8,
}

impl Default for SettingsFonts {
    fn default() -> (fonts: SettingsFonts)
        ensures
            fonts.display_font_style@ == "Monospace"@,
            fonts.display_font_size == 35,
            fonts.textarea_font_style@ == "Monospace"@,
            fonts.textarea_font_size == 12,
    {
        SettingsFonts {
            display_font_style: String::from_str("Monospace"),
            display_font_size: 35,
            textarea_font_style: String::from_str("Monospace"),
            textarea_font_size: 12,
        }
    }
}

/// The size and the look of the window. Style and theme are always valid
/// names: whatever else is offered becomes the automatic one.
#[derive(Debug)]
pub struct SettingsWindow {
    width: u32,
    height: u32,
    style: String,
    theme: String,
}

/// A `SettingsWindow` as a mathematical value.
pub struct WindowView {
    pub width: nat,
    pub height: nat,
    pub style: Seq<char>,
    pub theme: Seq<char>,
}

impl WindowView {
    /// Style and theme are the automatic one or a known name.
    pub open spec fn valid(self) -> bool {
        &&& valid_style(self.style) == self.style
        &&& valid_theme(self.theme) == self.theme
    }
}

impl View for SettingsWindow {
    type V = WindowView;

    closed spec fn view(&self) -> WindowView {
        WindowView {
            width: self.width as nat,
            height: self.height as nat,
            style: self.style@,
            theme: self.theme@,
        }
    }
}

impl SettingsWindow {
    #[verifier::type_invariant]
    spec fn holds_valid_names(self) -> bool {
        self@.valid()
    }

    /// A window of the given size, with `style` and `theme` if they are known
    /// names and the automatic ones where they are not.
    pub fn new(width: u32, height: u32, style: String, theme: String) -> (window: SettingsWindow)
        ensures
            window@ == (WindowView {
                width: width as nat,
                height: height as nat,
                style: valid_style(style@),
                theme: valid_theme(theme@),
            }),
            window@.valid(),
    {
        SettingsWindow {
            width,
            height,
            style: validate_style(style),
            theme: validate_theme(theme),
        }
    }

    /// The width of the window.
    pub fn width(&self) -> (width: u32)
        ensures
            width == self@.width,
    {
        self.width
    }

    /// The height of the window.
    pub fn height(&self) -> (height: u32)
        ensures
            height == self@.height,
    {
        self.height
    }

    /// The window style: the automatic one or a known name.
    pub fn style(&self) -> (style: &str)
        ensures
            style@ == self@.style,
            valid_style(style@) == style@,
    {
        proof {
            use_type_invariant(self);
        }
        self.style.as_str()
    }

    /// The window theme: the automatic one or a known name.
    pub fn theme(&self) -> (theme: &str)
        ensures
            theme@ == self@.theme,
            valid_theme(theme@) == theme@,
    {
        proof {
            use_type_invariant(self);
        }
        self.theme.as_str()
    }
}

impl Clone for SettingsWindow {
    fn clone(&self) -> (copy: SettingsWindow)
        ensures
            copy@ == self@,
    {
        proof {
            use_type_invariant(self);
        }
        SettingsWindow {
            width: self.width,
            height: self.height,
            style: self.style.clone(),
            theme: self.theme.clone(),
        }
    }
}

impl Default for SettingsWindow {
    fn default() -> (window: SettingsWindow)
        ensures
            window@ == (WindowView { width: 680, height: 560, style: "Auto"@, theme: "Auto"@ }),
            window@.valid(),
    {
        SettingsWindow {
            width: 680,
            height: 560,
            style: String::from_str("Auto"),
            theme: String::from_str("Auto"),
        }
    }
}

/// How far the jump keys go, in chunks.
#[derive(Debug, Clone)]
pub struct SettingsPlayback {
    pub jump_back_chunks: u16,
    pub jump_forward_chunks: u16,
}

impl Default for SettingsPlayback {
    fn default() -> (playback: SettingsPlayback)
        ensures
            playback.jump_back_chunks == 10,
            playback.jump_forward_chunks == 10,
    {
        SettingsPlayback { jump_back_chunks: 10, jump_forward_chunks: 10 }
    }
}

/// All the settings that the back end keeps.
#[derive(Debug, Clone)]
pub struct AppSettings {
    pub fonts: SettingsFonts,
    pub window: SettingsWindow,
    pub playback: SettingsPlayback,
}

impl Default for AppSettings {
    fn default() -> (settings: AppSettings)
        ensures
            settings.fonts.display_font_style@ == "Monospace"@,
            settings.fonts.display_font_size == 35,
            settings.fonts.textarea_font_style@ == "Monospace"@,
            settings.fonts.textarea_font_size == 12,
            settings.window@ == (WindowView {
                width: 680,
                height: 560,
                style: "Auto"@,
                theme: "Auto"@,
            }),
            settings.playback.jump_back_chunks == 10,
            settings.playback.jump_forward_chunks == 10,
    {
        AppSettings {
            fonts: SettingsFonts::default(),
            window: SettingsWindow::default(),
            playback: SettingsPlayback::default(),
        }
    }
}

} // verus!
