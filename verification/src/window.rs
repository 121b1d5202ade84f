//! The window-command layer: what the two UI toggles decide, separated from
//! the native calls that carry a decision out. Each toggle is planned here as
//! an explicit action; the caller owning the native handle performs it. When
//! no native handle exists the plan is a distinguishable no-effect result,
//! never an error.

use vstd::prelude::*;

verus! {

/// Whether the window title is shown in the titlebar.
#[derive(PartialEq, Eq, Structural, Clone, Copy, Debug)]
pub enum TitleVisibility {
    Visible,
    Hidden,
}

/// The titlebar configuration a toggle asks the native window to take on.
#[derive(PartialEq, Eq, Structural, Clone, Copy, Debug)]
pub struct TitlebarSettings {
    /// The titlebar is always drawn transparent; only the title text toggles.
    pub transparent: bool,
    pub visibility: TitleVisibility,
}

/// What a fullscreen toggle asks of the caller that owns the native handle.
#[derive(PartialEq, Eq, Structural, Clone, Copy, Debug)]
pub enum FullscreenAction {
    /// Ask the OS to toggle native fullscreen on the main window.
    ToggleNative,
    /// No native handle: do nothing, silently.
    NoEffect,
}

/// What a titlebar toggle asks of the caller that owns the native handle.
#[derive(PartialEq, Eq, Structural, Clone, Copy, Debug)]
pub enum TitlebarAction {
    /// Apply these settings to the native window.
    Apply(TitlebarSettings),
    /// No native handle: do nothing, silently.
    NoEffect,
}

/// The settings a titlebar toggle applies: transparent either way, the title
/// text visible exactly when `show` asks for it.
pub open spec fn spec_titlebar_settings(show: bool) -> TitlebarSettings {
    TitlebarSettings {
        transparent: true,
        visibility: if show {
            TitleVisibility::Visible
        } else {
            TitleVisibility::Hidden
        },
    }
}

/// The cosmetic adjustments asked of the native window once during setup:
/// a translucent background effect, a transparent titlebar, content
/// extended into the titlebar area, and position/size restoration. The
/// caller that owns the window applies them and treats failure as fatal.
#[derive(PartialEq, Eq, Structural, Clone, Copy, Debug)]
pub struct StartupAppearance {
    pub translucent_background: bool,
    pub titlebar_transparent: bool,
    pub full_size_content: bool,
    pub restorable: bool,
}

/// The one startup appearance this shell asks for.
pub open spec fn spec_startup_appearance() -> StartupAppearance {
    StartupAppearance {
        translucent_background: true,
        titlebar_transparent: true,
        full_size_content: true,
        restorable: true,
    }
}

/// Plans the one-time cosmetic setup of the main window.
pub fn startup_appearance() -> (r: StartupAppearance)
    ensures
        r == spec_startup_appearance(),
{
    StartupAppearance {
        translucent_background: true,
        titlebar_transparent: true,
        full_size_content: true,
        restorable: true,
    }
}

/// The plan of a fullscreen toggle, as a function of whether a native window
/// handle is present.
pub open spec fn spec_toggle_fullscreen(handle_present: bool) -> FullscreenAction {
    if handle_present {
        FullscreenAction::ToggleNative
    } else {
        FullscreenAction::NoEffect
    }
}

/// The plan of a titlebar toggle, as a function of whether a native window
/// handle is present and of the requested visibility.
pub open spec fn spec_toggle_titlebar(handle_present: bool, show: bool) -> TitlebarAction {
    if handle_present {
        TitlebarAction::Apply(spec_titlebar_settings(show))
    } else {
        TitlebarAction::NoEffect
    }
}

/// Plans a fullscreen toggle. With no native handle the result is a silent
/// no-effect, not an error.
pub fn toggle_fullscreen(handle_present: bool) -> (r: FullscreenAction)
    ensures
        r == spec_toggle_fullscreen(handle_present),
{
    if handle_present {
        FullscreenAction::ToggleNative
    } else {
        FullscreenAction::NoEffect
    }
}

/// Plans a titlebar toggle. With no native handle the result is a silent
/// no-effect, not an error; with one, the titlebar stays transparent and the
/// title text is shown exactly when `show` asks for it.
pub fn toggle_titlebar(handle_present: bool, show: bool) -> (r: TitlebarAction)
    ensures
        r == spec_toggle_titlebar(handle_present, show),
{
    if handle_present {
        TitlebarAction::Apply(TitlebarSettings {
            transparent: true,
            visibility: if show {
                TitleVisibility::Visible
            } else {
                TitleVisibility::Hidden
            },
        })
    } else {
        TitlebarAction::NoEffect
    }
}

/// Law: any sequence of two titlebar toggles made before a window exists —
/// such as a show followed by a hide — plans no effect at all, both times;
/// neither call can fail.
pub proof fn lemma_toggle_titlebar_without_window(first_show: bool, second_show: bool)
    ensures
        spec_toggle_titlebar(false, first_show) == TitlebarAction::NoEffect,
        spec_toggle_titlebar(false, second_show) == TitlebarAction::NoEffect,
{
}

} // verus!
