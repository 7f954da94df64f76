//! The colours of the workbench: a near-black background, the "alive" neon
//! green and a rust-orange accent.

use vstd::prelude::*;

verus! {

/// A colour by its red, green and blue parts.
#[derive(Debug, Clone, Copy, PartialEq, Eq, Structural)]
pub struct Rgb {
    pub r: u8,
    pub g: u8,
    pub b: u8,
}

pub open spec fn bg() -> Rgb {
    Rgb { r: 13, g: 15, b: 11 }
}

pub open spec fn panel() -> Rgb {
    Rgb { r: 20, g: 24, b: 18 }
}

pub open spec fn green() -> Rgb {
    Rgb { r: 57, g: 255, b: 20 }
}

pub open spec fn green_dim() -> Rgb {
    Rgb { r: 30, g: 140, b: 20 }
}

pub open spec fn rust() -> Rgb {
    Rgb { r: 193, g: 68, b: 14 }
}

pub open spec fn text() -> Rgb {
    Rgb { r: 214, g: 222, b: 209 }
}

/// Which colour goes where.
#[derive(Debug, Clone, Copy, PartialEq, Eq, Structural)]
pub struct Theme {
    pub panel_fill: Rgb,
    pub window_fill: Rgb,
    pub extreme_bg: Rgb,
    pub text: Rgb,
    pub inactive_fill: Rgb,
    pub hovered_fill: Rgb,
    pub active_fill: Rgb,
    pub noninteractive_stroke: Rgb,
    pub selection_fill: Rgb,
    pub hyperlink: Rgb,
    pub warning: Rgb,
    pub accent: Rgb,
}

/// The theme of the workbench.
pub fn theme() -> (theme: Theme)
    ensures
        theme == (Theme {
            panel_fill: bg(),
            window_fill: panel(),
            extreme_bg: panel(),
            text: text(),
            inactive_fill: panel(),
            hovered_fill: green_dim(),
            active_fill: green_dim(),
            noninteractive_stroke: text(),
            selection_fill: green_dim(),
            hyperlink: green(),
            warning: rust(),
            accent: green(),
        }),
{
    let bg: Rgb = Rgb { r: 13, g: 15, b: 11 };
    let panel: Rgb = Rgb { r: 20, g: 24, b: 18 };
    let green: Rgb = Rgb { r: 57, g: 255, b: 20 };
    let green_dim: Rgb = Rgb { r: 30, g: 140, b: 20 };
    let rust: Rgb = Rgb { r: 193, g: 68, b: 14 };
    let text: Rgb = Rgb { r: 214, g: 222, b: 209 };
    Theme {
        panel_fill: bg,
        window_fill: panel,
        extreme_bg: panel,
        text,
        inactive_fill: panel,
        hovered_fill: green_dim,
        active_fill: green_dim,
        noninteractive_stroke: text,
        selection_fill: green_dim,
        hyperlink: green,
        warning: rust,
        accent: green,
    }
}

/// The colours are one dark background and one panel shade, light text on both,
/// greens for what is alive and rust for warnings.
pub proof fn law_theme_colours(colours: Theme)
    requires
        call_ensures(theme, (), colours),
    ensures
        colours.panel_fill == (Rgb { r: 13, g: 15, b: 11 }),
        colours.window_fill == (Rgb { r: 20, g: 24, b: 18 }),
        colours.extreme_bg == colours.window_fill,
        colours.inactive_fill == colours.window_fill,
        colours.text == (Rgb { r: 214, g: 222, b: 209 }),
        colours.noninteractive_stroke == colours.text,
        colours.hovered_fill == (Rgb { r: 30, g: 140, b: 20 }),
        colours.active_fill == colours.hovered_fill,
        colours.selection_fill == colours.hovered_fill,
        colours.hyperlink == (Rgb { r: 57, g: 255, b: 20 }),
        colours.accent == colours.hyperlink,
        colours.warning == (Rgb { r: 193, g: 68, b: 14 }),
{
}

} // verus!
