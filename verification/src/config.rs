//! The configuration file's data: a display theme of eight colors,
//! each a hex string. The theme only affects rendering; it has no
//! effect on the catalog or on filtering.

use vstd::prelude::*;

verus! {

/// The theme colors as `#rrggbb` hex strings: normal, orphan, foreign
/// and selected rows, foreground and background each.
pub struct ConfigTheme {
    pub fg: String,
    pub bg: String,
    pub orphan_fg: String,
    pub orphan_bg: String,
    pub foreign_fg: String,
    pub foreign_bg: String,
    pub selected_fg: String,
    pub selected_bg: String,
}

/// Relies on catppuccin::PALETTE: the `hex` field of a palette color
/// displays as its six-digit lowercase hex string with a leading hash;
/// the mocha flavor's text, base, crust, red, yellow and rosewater
/// colors are the constants stated here.
#[verifier::external_body]
fn mocha_hex_colors() -> (r: (String, String, String, String, String, String))
    ensures
        r.0@ == "#cdd6f4"@,
        r.1@ == "#1e1e2e"@,
        r.2@ == "#11111b"@,
        r.3@ == "#f38ba8"@,
        r.4@ == "#f9e2af"@,
        r.5@ == "#f5e0dc"@,
{
    let c = &catppuccin::PALETTE.mocha.colors;
    (
        c.text.hex.to_string(),
        c.base.hex.to_string(),
        c.crust.hex.to_string(),
        c.red.hex.to_string(),
        c.yellow.hex.to_string(),
        c.rosewater.hex.to_string(),
    )
}

impl Default for ConfigTheme {
    /// The hardcoded fallback theme: the catppuccin mocha palette,
    /// text on base for normal rows and crust on red, yellow and
    /// rosewater for orphan, foreign and selected rows.
    fn default() -> (r: Self)
        ensures
            r.fg@ == "#cdd6f4"@,
            r.bg@ == "#1e1e2e"@,
            r.orphan_fg@ == "#11111b"@,
            r.orphan_bg@ == "#f38ba8"@,
            r.foreign_fg@ == "#11111b"@,
            r.foreign_bg@ == "#f9e2af"@,
            r.selected_fg@ == "#11111b"@,
            r.selected_bg@ == "#f5e0dc"@,
    {
        let (text, base, crust, red, yellow, rosewater) = mocha_hex_colors();
        ConfigTheme {
            fg: text,
            bg: base,
            orphan_fg: crust.clone(),
            orphan_bg: red,
            foreign_fg: crust.clone(),
            foreign_bg: yellow,
            selected_fg: crust,
            selected_bg: rosewater,
        }
    }
}

/// The content of the configuration file: the display theme.
pub struct ConfigFile {
    pub theme: ConfigTheme,
}

impl Default for ConfigFile {
    /// The fallback configuration: the default theme.
    fn default() -> (r: Self)
        ensures
            r.theme.fg@ == "#cdd6f4"@,
            r.theme.bg@ == "#1e1e2e"@,
            r.theme.orphan_fg@ == "#11111b"@,
            r.theme.orphan_bg@ == "#f38ba8"@,
            r.theme.foreign_fg@ == "#11111b"@,
            r.theme.foreign_bg@ == "#f9e2af"@,
            r.theme.selected_fg@ == "#11111b"@,
            r.theme.selected_bg@ == "#f5e0dc"@,
    {
        ConfigFile { theme: ConfigTheme::default() }
    }
}

} // verus!
