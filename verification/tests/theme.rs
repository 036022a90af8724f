use pacmanman::config::{ConfigFile, ConfigTheme};

#[test]
fn default_theme_is_the_mocha_palette() {
    let theme = ConfigTheme::default();
    assert_eq!(theme.fg, "#cdd6f4");
    assert_eq!(theme.bg, "#1e1e2e");
    assert_eq!(theme.orphan_fg, "#11111b");
    assert_eq!(theme.orphan_bg, "#f38ba8");
    assert_eq!(theme.foreign_fg, "#11111b");
    assert_eq!(theme.foreign_bg, "#f9e2af");
    assert_eq!(theme.selected_fg, "#11111b");
    assert_eq!(theme.selected_bg, "#f5e0dc");
}

#[test]
fn default_config_carries_the_default_theme() {
    let config = ConfigFile::default();
    assert_eq!(config.theme.fg, "#cdd6f4");
    assert_eq!(config.theme.selected_bg, "#f5e0dc");
}
