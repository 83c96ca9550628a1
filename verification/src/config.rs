//! Configuration: themes, where the files are, and what a reload changes.
use vstd::prelude::*;
use vstd::string::*;

use crate::bindings::{default_keybindings, default_pairs, Bindings};
use crate::color::{hex_color, hex_digit, law_channels_stand_in_order, Rgba, Shade};
use crate::text::{join_path, joined_path, opt_text, owned};
use crate::text_map::table_of;

verus! {

/// Name of the directory that holds the configuration.
pub const DEFAULT_CONFIG_DIR: &'static str = "optix";

/// Theme as it appears in the configuration file, its colors as texts.
#[derive(Debug, Clone, PartialEq, Eq)]
pub struct Theme {
    pub background: String,
    pub foreground: String,
    pub cursor: String,
    pub cursor_text: Option<String>,
    pub selection_background: String,
    pub selection_foreground: Option<String>,
    pub normal: [String; 8],
    pub bright: [String; 8],
    pub dim: Option<[String; 8]>,
    pub split_border: String,
    pub split_active: String,
    pub search_background: String,
    pub search_foreground: String,
    pub search_match_background: String,
    pub search_match_foreground: Option<String>,
    /// Vertical gradient behind the terminal (used when no image is set).
    pub background_gradient: Option<Gradient>,
    /// Color the window flashes when the bell rings.
    pub bell: String,
}

/// Two colors that a background fades between.
#[derive(Debug, Clone, PartialEq, Eq)]
pub struct Gradient {
    pub top: String,
    pub bottom: String,
}

/// The texts of a theme.
#[verifier::ext_equal]
pub struct ThemeView {
    pub background: Seq<char>,
    pub foreground: Seq<char>,
    pub cursor: Seq<char>,
    pub cursor_text: Option<Seq<char>>,
    pub selection_background: Seq<char>,
    pub selection_foreground: Option<Seq<char>>,
    pub normal: Seq<Seq<char>>,
    pub bright: Seq<Seq<char>>,
    pub dim: Option<Seq<Seq<char>>>,
    pub split_border: Seq<char>,
    pub split_active: Seq<char>,
    pub search_background: Seq<char>,
    pub search_foreground: Seq<char>,
    pub search_match_background: Seq<char>,
    pub search_match_foreground: Option<Seq<char>>,
    pub background_gradient: Option<(Seq<char>, Seq<char>)>,
    pub bell: Seq<char>,
}

/// The texts of eight strings.
pub open spec fn eight(a: [String; 8]) -> Seq<Seq<char>> {
    Seq::new(8, |i: int| a@[i]@)
}

impl View for Theme {
    type V = ThemeView;

    open spec fn view(&self) -> ThemeView {
        ThemeView {
            background: self.background@,
            foreground: self.foreground@,
            cursor: self.cursor@,
            cursor_text: opt_text(self.cursor_text),
            selection_background: self.selection_background@,
            selection_foreground: opt_text(self.selection_foreground),
            normal: eight(self.normal),
            bright: eight(self.bright),
            dim: match self.dim {
                Some(dim) => Some(eight(dim)),
                None => None,
            },
            split_border: self.split_border@,
            split_active: self.split_active@,
            search_background: self.search_background@,
            search_foreground: self.search_foreground@,
            search_match_background: self.search_match_background@,
            search_match_foreground: opt_text(self.search_match_foreground),
            background_gradient: match self.background_gradient {
                Some(g) => Some((g.top@, g.bottom@)),
                None => None,
            },
            bell: self.bell@,
        }
    }
}

/// The theme of a configuration that sets none: Catppuccin Mocha.
pub open spec fn default_theme() -> ThemeView {
    ThemeView {
        background: "#1e1e2e"@,
        foreground: "#cdd6f4"@,
        cursor: "#f5e0dc"@,
        cursor_text: Some("#1e1e2e"@),
        selection_background: "#585b70"@,
        selection_foreground: None,
        normal: seq![
            "#45475a"@,
            "#f38ba8"@,
            "#a6e3a1"@,
            "#f9e2af"@,
            "#89b4fa"@,
            "#f5c2e7"@,
            "#94e2d5"@,
            "#bac2de"@,
        ],
        bright: seq![
            "#585b70"@,
            "#f38ba8"@,
            "#a6e3a1"@,
            "#f9e2af"@,
            "#89b4fa"@,
            "#f5c2e7"@,
            "#94e2d5"@,
            "#a6adc8"@,
        ],
        dim: None,
        split_border: "#45475a"@,
        split_active: "#89b4fa"@,
        search_background: "#313244"@,
        search_foreground: "#cdd6f4"@,
        search_match_background: "#89b4fa"@,
        search_match_foreground: Some("#1e1e2e"@),
        background_gradient: Some(("#2b2b40"@, "#16161d"@)),
        bell: "#f9e2af"@,
    }
}

impl Default for Theme {
    fn default() -> (r: Theme)
        ensures
            r@ == default_theme(),
    {
        let r = Theme {
            background: owned("#1e1e2e"),
            foreground: owned("#cdd6f4"),
            cursor: owned("#f5e0dc"),
            cursor_text: Some(owned("#1e1e2e")),
            selection_background: owned("#585b70"),
            selection_foreground: None,
            normal: [
                owned("#45475a"),
                owned("#f38ba8"),
                owned("#a6e3a1"),
                owned("#f9e2af"),
                owned("#89b4fa"),
                owned("#f5c2e7"),
                owned("#94e2d5"),
                owned("#bac2de"),
            ],
            bright: [
                owned("#585b70"),
                owned("#f38ba8"),
                owned("#a6e3a1"),
                owned("#f9e2af"),
                owned("#89b4fa"),
                owned("#f5c2e7"),
                owned("#94e2d5"),
                owned("#a6adc8"),
            ],
            dim: None,
            split_border: owned("#45475a"),
            split_active: owned("#89b4fa"),
            search_background: owned("#313244"),
            search_foreground: owned("#cdd6f4"),
            search_match_background: owned("#89b4fa"),
            search_match_foreground: Some(owned("#1e1e2e")),
            background_gradient: Some(Gradient { top: owned("#2b2b40"), bottom: owned("#16161d") }),
            bell: owned("#f9e2af"),
        };
        assert(r@.normal =~= default_theme().normal);
        assert(r@.bright =~= default_theme().bright);
        r
    }
}

/// Theme with its colors resolved.
#[derive(Debug, Clone, PartialEq, Eq)]
pub struct ParsedTheme {
    pub background: Shade,
    pub foreground: Shade,
    pub cursor: Shade,
    pub cursor_text: Option<Rgba>,
    pub selection_background: Shade,
    pub selection_foreground: Option<Rgba>,
    pub normal: [Shade; 8],
    pub bright: [Shade; 8],
    pub dim: [Shade; 8],
    pub split_border: Shade,
    pub split_active: Shade,
    pub search_background: Shade,
    pub search_foreground: Shade,
    pub search_match_background: Shade,
    pub search_match_foreground: Option<Rgba>,
    pub background_gradient: Option<(Shade, Shade)>,
    pub bell: Shade,
}

/// The shade that a text writes down, or another one where it is no color.
pub open spec fn shade_or(text: Seq<char>, fallback: Shade) -> Shade {
    match hex_color(text) {
        Some(color) => Shade::Exact(color),
        None => fallback,
    }
}

/// The color that an optional text writes down.
pub open spec fn opt_color(text: Option<Seq<char>>) -> Option<Rgba> {
    match text {
        Some(text) => hex_color(text),
        None => None,
    }
}

/// The dim color that goes with a normal one: the same color with less
/// brightness, black where it is no color.
pub open spec fn dimmed(normal: Seq<char>) -> Shade {
    match hex_color(normal) {
        Some(color) => Shade::Dimmed(color),
        None => Shade::Dimmed(Rgba { r: 0, g: 0, b: 0, a: 255 }),
    }
}

/// The dim color of an index: the one that the theme gives, or else one made
/// from the normal color.
pub open spec fn dim_shade(raw: ThemeView, i: int) -> Shade {
    match raw.dim {
        Some(dim) => shade_or(dim[i], dimmed(raw.normal[i])),
        None => dimmed(raw.normal[i]),
    }
}

/// Whether a theme comes out of resolving the colors of another. A text that is
/// no color gives way to a fixed color of its place.
pub open spec fn parses(raw: ThemeView, p: ParsedTheme) -> bool {
    &&& p.background == shade_or(
        raw.background,
        Shade::Exact(Rgba { r: 30, g: 30, b: 46, a: 255 }),
    )
    &&& p.foreground == shade_or(
        raw.foreground,
        Shade::Exact(Rgba { r: 205, g: 214, b: 244, a: 255 }),
    )
    &&& p.cursor == shade_or(raw.cursor, Shade::Exact(Rgba { r: 245, g: 224, b: 220, a: 255 }))
    &&& p.cursor_text == opt_color(raw.cursor_text)
    &&& p.selection_background == shade_or(
        raw.selection_background,
        Shade::Exact(Rgba { r: 88, g: 91, b: 112, a: 255 }),
    )
    &&& p.selection_foreground == opt_color(raw.selection_foreground)
    &&& forall|i: int|
        0 <= i < 8 ==> #[trigger] p.normal@[i] == shade_or(
            raw.normal[i],
            Shade::Permille(200, 200, 200),
        )
    &&& forall|i: int|
        0 <= i < 8 ==> #[trigger] p.bright@[i] == shade_or(
            raw.bright[i],
            Shade::Permille(800, 800, 800),
        )
    &&& forall|i: int| 0 <= i < 8 ==> #[trigger] p.dim@[i] == dim_shade(raw, i)
    &&& p.split_border == shade_or(raw.split_border, Shade::Permille(270, 290, 350))
    &&& p.split_active == shade_or(raw.split_active, Shade::Permille(540, 710, 980))
    &&& p.search_background == shade_or(raw.search_background, Shade::Permille(190, 200, 270))
    &&& p.search_foreground == shade_or(raw.search_foreground, Shade::Permille(800, 840, 960))
    &&& p.search_match_background == shade_or(
        raw.search_match_background,
        Shade::Permille(540, 710, 980),
    )
    &&& p.search_match_foreground == opt_color(raw.search_match_foreground)
    &&& p.background_gradient == (match raw.background_gradient {
        Some((top, bottom)) => Some(
            (
                shade_or(top, Shade::Permille(170, 170, 250)),
                shade_or(bottom, Shade::Permille(86, 86, 110)),
            ),
        ),
        None => None,
    })
    &&& p.bell == shade_or(raw.bell, Shade::Permille(980, 850, 690))
}

/// The shade that a text writes down, or another one where it is no color.
fn parse_hex(s: &str, fallback: Shade) -> (r: Shade)
    ensures
        r == shade_or(s@, fallback),
{
    match Rgba::from_hex(s) {
        Ok(color) => Shade::Exact(color),
        Err(_) => fallback,
    }
}

/// The color that an optional text writes down.
fn parse_optional(s: &Option<String>) -> (r: Option<Rgba>)
    ensures
        r == opt_color(opt_text(*s)),
{
    match s {
        Some(s) => match Rgba::from_hex(s.as_str()) {
            Ok(color) => Some(color),
            Err(_) => None,
        },
        None => None,
    }
}

/// The dim color that goes with a normal one.
fn dim_default(normal: &str) -> (r: Shade)
    ensures
        r == dimmed(normal@),
{
    match Rgba::from_hex(normal) {
        Ok(color) => Shade::Dimmed(color),
        Err(_) => Shade::Dimmed(Rgba::from_u8(0, 0, 0, 255)),
    }
}

/// The dim color of an index.
fn dim_at(raw: &Theme, i: usize) -> (r: Shade)
    requires
        i < 8,
    ensures
        r == dim_shade(raw@, i as int),
{
    let fallback = dim_default(raw.normal[i].as_str());
    match &raw.dim {
        Some(dim) => parse_hex(dim[i].as_str(), fallback),
        None => fallback,
    }
}

/// Eight shades from eight texts.
fn parse_eight(texts: &[String; 8], fallback: Shade) -> (r: [Shade; 8])
    ensures
        forall|i: int| 0 <= i < 8 ==> #[trigger] r@[i] == shade_or(texts@[i]@, fallback),
{
    [
        parse_hex(texts[0].as_str(), fallback),
        parse_hex(texts[1].as_str(), fallback),
        parse_hex(texts[2].as_str(), fallback),
        parse_hex(texts[3].as_str(), fallback),
        parse_hex(texts[4].as_str(), fallback),
        parse_hex(texts[5].as_str(), fallback),
        parse_hex(texts[6].as_str(), fallback),
        parse_hex(texts[7].as_str(), fallback),
    ]
}

impl ParsedTheme {
    /// Resolve the colors of a theme.
    pub fn from_raw(raw: &Theme) -> (r: ParsedTheme)
        ensures
            parses(raw@, r),
    {
        let dim = [
            dim_at(raw, 0),
            dim_at(raw, 1),
            dim_at(raw, 2),
            dim_at(raw, 3),
            dim_at(raw, 4),
            dim_at(raw, 5),
            dim_at(raw, 6),
            dim_at(raw, 7),
        ];
        let background_gradient = match &raw.background_gradient {
            Some(g) => Some(
                (
                    parse_hex(g.top.as_str(), Shade::Permille(170, 170, 250)),
                    parse_hex(g.bottom.as_str(), Shade::Permille(86, 86, 110)),
                ),
            ),
            None => None,
        };
        ParsedTheme {
            background: parse_hex(
                raw.background.as_str(),
                Shade::Exact(Rgba::from_u8(30, 30, 46, 255)),
            ),
            foreground: parse_hex(
                raw.foreground.as_str(),
                Shade::Exact(Rgba::from_u8(205, 214, 244, 255)),
            ),
            cursor: parse_hex(
                raw.cursor.as_str(),
                Shade::Exact(Rgba::from_u8(245, 224, 220, 255)),
            ),
            cursor_text: parse_optional(&raw.cursor_text),
            selection_background: parse_hex(
                raw.selection_background.as_str(),
                Shade::Exact(Rgba::from_u8(88, 91, 112, 255)),
            ),
            selection_foreground: parse_optional(&raw.selection_foreground),
            normal: parse_eight(&raw.normal, Shade::Permille(200, 200, 200)),
            bright: parse_eight(&raw.bright, Shade::Permille(800, 800, 800)),
            dim,
            split_border: parse_hex(raw.split_border.as_str(), Shade::Permille(270, 290, 350)),
            split_active: parse_hex(raw.split_active.as_str(), Shade::Permille(540, 710, 980)),
            search_background: parse_hex(
                raw.search_background.as_str(),
                Shade::Permille(190, 200, 270),
            ),
            search_foreground: parse_hex(
                raw.search_foreground.as_str(),
                Shade::Permille(800, 840, 960),
            ),
            search_match_background: parse_hex(
                raw.search_match_background.as_str(),
                Shade::Permille(540, 710, 980),
            ),
            search_match_foreground: parse_optional(&raw.search_match_foreground),
            background_gradient,
            bell: parse_hex(raw.bell.as_str(), Shade::Permille(980, 850, 690)),
        }
    }
}

// ---------------------------------------------------------------------------
// Files
// ---------------------------------------------------------------------------

/// The directory that holds the configuration: `optix` in the user's
/// configuration directory, or in `.config` of the home directory.
pub open spec fn dir_at(xdg_config_home: Option<Seq<char>>, home: Option<Seq<char>>) -> Seq<
    char,
> {
    let base = match xdg_config_home {
        Some(dir) => dir,
        None => match home {
            Some(home) => joined_path(home, ".config"@),
            None => seq![],
        },
    };
    joined_path(base, DEFAULT_CONFIG_DIR@)
}

/// The directory that holds the configuration.
pub fn config_dir(xdg_config_home: &Option<String>, home: &Option<String>) -> (r: String)
    ensures
        r@ == dir_at(opt_text(*xdg_config_home), opt_text(*home)),
{
    let base = match xdg_config_home {
        Some(dir) => owned(dir.as_str()),
        None => match home {
            Some(home) => join_path(home.as_str(), ".config"),
            None => String::new(),
        },
    };
    proof {
        if xdg_config_home is None && home is None {
            assert(base@ =~= seq![]);
        }
    }
    join_path(base.as_str(), DEFAULT_CONFIG_DIR)
}

/// The path of the configuration file.
pub fn config_path(xdg_config_home: &Option<String>, home: &Option<String>) -> (r: String)
    ensures
        r@ == joined_path(dir_at(opt_text(*xdg_config_home), opt_text(*home)), "config.toml"@),
{
    let dir = config_dir(xdg_config_home, home);
    join_path(dir.as_str(), "config.toml")
}

/// The key bindings in force: the default ones, with those of the user in their
/// place where both bind a combination.
pub fn merged_keybindings(user: &Bindings) -> (r: Bindings)
    ensures
        r@ == table_of(default_pairs()).union_prefer_right(user@),
{
    let mut bindings = default_keybindings();
    bindings.extend(user);
    bindings
}

/// Every key binding of the user counts, and every default one that the user
/// leaves alone.
pub proof fn law_user_bindings_win(user: Map<Seq<char>, Seq<char>>, combination: Seq<char>)
    ensures
        ({
            let all = table_of(default_pairs()).union_prefer_right(user);
            &&& user.contains_key(combination) ==> all.contains_key(combination)
                && all[combination] == user[combination]
            &&& !user.contains_key(combination) && table_of(default_pairs()).contains_key(
                combination,
            ) ==> all.contains_key(combination) && all[combination] == table_of(
                default_pairs(),
            )[combination]
        }),
{
}

// ---------------------------------------------------------------------------
// Live reload
// ---------------------------------------------------------------------------

/// When the configuration file was last seen to have changed, in nanoseconds.
#[derive(Clone, Copy, PartialEq, Eq, Debug, Structural)]
pub struct ConfigWatch {
    pub last: Option<u128>,
}

impl ConfigWatch {
    /// Whether the file should be read again. Nothing is read before there is a
    /// window, or while the time of the file is the one last seen; a file
    /// without a time is always tried.
    pub fn check(&mut self, has_window: bool, modified: Option<u128>) -> (r: bool)
        ensures
            r == (has_window && (modified is None || modified != old(self).last)),
            final(self).last == (if r {
                modified
            } else {
                old(self).last
            }),
    {
        if !has_window {
            return false;
        }
        if let Some(now) = modified {
            if let Some(last) = self.last {
                if now == last {
                    return false;
                }
            }
        }
        self.last = modified;
        true
    }
}

/// How a configuration differs from the one it replaces.
#[derive(Clone, Copy, PartialEq, Eq, Debug, Structural)]
pub struct Changes {
    pub font_family: bool,
    pub font_size: bool,
    pub padding: bool,
    pub corner_radius: bool,
    pub background_image: bool,
    /// The new configuration has a background image.
    pub has_background_image: bool,
    pub title: bool,
    /// The window still shows the title of the old configuration.
    pub shows_old_title: bool,
    pub window_size: bool,
    pub transparent: bool,
}

/// What to do to a running terminal for a new configuration.
#[derive(Clone, Copy, PartialEq, Eq, Debug, Structural)]
pub struct ReloadPlan {
    /// Load the fonts again.
    pub rebuild_fonts: bool,
    /// Take the font size of the configuration; otherwise the size that the
    /// user zoomed to stays.
    pub adopt_font_size: bool,
    /// Fit the panes to the new cell size or padding.
    pub resize_panes: bool,
    pub set_corner_radius: bool,
    pub load_image: bool,
    pub clear_image: bool,
    pub adopt_title: bool,
    pub set_window_title: bool,
    pub resize_window: bool,
    /// Say that a change takes effect only after a restart.
    pub warn_restart: bool,
}

/// Decide what to do to a running terminal for a new configuration.
pub fn reload_plan(changes: Changes, has_renderer: bool) -> (r: ReloadPlan)
    ensures
        r.rebuild_fonts == (changes.font_family || changes.font_size),
        r.adopt_font_size == changes.font_size,
        r.resize_panes == (changes.font_family || changes.font_size || changes.padding),
        r.set_corner_radius == (has_renderer && changes.corner_radius),
        r.load_image == (has_renderer && changes.background_image && changes.has_background_image),
        r.clear_image == (has_renderer && changes.background_image
            && !changes.has_background_image),
        r.adopt_title == changes.title,
        r.set_window_title == (changes.title && changes.shows_old_title),
        r.resize_window == changes.window_size,
        r.warn_restart == changes.transparent,
{
    let font = changes.font_family || changes.font_size;
    let image = has_renderer && changes.background_image;
    ReloadPlan {
        rebuild_fonts: font,
        adopt_font_size: changes.font_size,
        resize_panes: font || changes.padding,
        set_corner_radius: has_renderer && changes.corner_radius,
        load_image: image && changes.has_background_image,
        clear_image: image && !changes.has_background_image,
        adopt_title: changes.title,
        set_window_title: changes.title && changes.shows_old_title,
        resize_window: changes.window_size,
        warn_restart: changes.transparent,
    }
}

/// The commented configuration written on the first launch.
pub const EXAMPLE_CONFIG: &'static str = r##"# Optix configuration.
# This file is regenerated on first launch; all fields are optional.

[font]
family = "JetBrainsMono NF"   # any fontconfig family
size = 12.0
padding_x = 12.0
padding_y = 10.0

[window]
opacity = 0.8                 # 0.0 ..= 1.0
transparent = false           # true = ARGB window so picom shows the wallpaper through
                              # (needs a compositor running; combine with opacity < 1.0)
# background_image = "/path/to/image.png"
corner_radius = 12.0
glow = true
width = 1080
height = 680
title = "Optix"

[theme]
background = "#1e1e2e"
foreground = "#cdd6f4"
cursor = "#f5e0dc"
# cursor_text = "#1e1e2e"
selection_background = "#585b70"
# selection_foreground = "#cdd6f4"

# ANSI 16 palette
normal = ["#45475a", "#f38ba8", "#a6e3a1", "#f9e2af", "#89b4fa", "#f5c2e7", "#94e2d5", "#bac2de"]
bright = ["#585b70", "#f38ba8", "#a6e3a1", "#f9e2af", "#89b4fa", "#f5c2e7", "#94e2d5", "#a6adc8"]
# dim = ["#313244", "#e78284", "#a6d189", "#e5c890", "#8caaee", "#f4b8e4", "#81c8be", "#a5adce"]

split_border = "#45475a"
split_active = "#89b4fa"

search_background = "#313244"
search_foreground = "#cdd6f4"
search_match_background = "#89b4fa"
# search_match_foreground = "#1e1e2e"
bell = "#f9e2af"

# Vertical gradient painted behind the terminal when no image is set.
# Remove this section for a flat background.
[theme.background_gradient]
top = "#2b2b40"
bottom = "#16161d"

# Keybindings: "mods+key" = "action"
# mods: ctrl, shift, alt, super (any order, separated by +)
# Actions:
#   split_right split_below close_pane next_pane prev_pane
#   focus_pane_up focus_pane_down focus_pane_left focus_pane_right
#   scroll_up scroll_down page_up page_down scroll_top scroll_bottom
#   search search_next search_prev
#   copy paste
#   font_increase font_decrease font_reset
#   quit
[keybindings]
"ctrl+shift+e" = "split_right"
"ctrl+shift+o" = "split_below"
"ctrl+shift+x" = "close_pane"
"ctrl+shift+]" = "next_pane"
"ctrl+shift+[" = "prev_pane"
"ctrl+alt+up" = "focus_pane_up"
"ctrl+alt+down" = "focus_pane_down"
"ctrl+alt+left" = "focus_pane_left"
"ctrl+alt+right" = "focus_pane_right"
"ctrl+shift+f" = "search"
"ctrl+shift+enter" = "search_next"
"ctrl+shift+up" = "scroll_up"
"ctrl+shift+down" = "scroll_down"
"ctrl+shift+pageup" = "page_up"
"ctrl+shift+pagedown" = "page_down"
"ctrl+shift+home" = "scroll_top"
"ctrl+shift+end" = "scroll_bottom"
"ctrl+shift+c" = "copy"
"ctrl+shift+v" = "paste"
"ctrl+plus" = "font_increase"
"ctrl+minus" = "font_decrease"
"ctrl+0" = "font_reset"
"ctrl+shift+q" = "quit"
"##;

// ---------------------------------------------------------------------------
// Laws
// ---------------------------------------------------------------------------

/// Every color of a theme that is written down right is taken as it is, in its
/// own place.
pub proof fn law_written_colors_are_taken(raw: ThemeView, p: ParsedTheme, color: Rgba, i: int)
    requires
        parses(raw, p),
        0 <= i < 8,
    ensures
        hex_color(raw.background) == Some(color) ==> p.background == Shade::Exact(color),
        hex_color(raw.foreground) == Some(color) ==> p.foreground == Shade::Exact(color),
        hex_color(raw.cursor) == Some(color) ==> p.cursor == Shade::Exact(color),
        hex_color(raw.selection_background) == Some(color) ==> p.selection_background
            == Shade::Exact(color),
        hex_color(raw.normal[i]) == Some(color) ==> p.normal@[i] == Shade::Exact(color),
        hex_color(raw.bright[i]) == Some(color) ==> p.bright@[i] == Shade::Exact(color),
        hex_color(raw.split_border) == Some(color) ==> p.split_border == Shade::Exact(color),
        hex_color(raw.split_active) == Some(color) ==> p.split_active == Shade::Exact(color),
        hex_color(raw.search_background) == Some(color) ==> p.search_background == Shade::Exact(
            color,
        ),
        hex_color(raw.search_foreground) == Some(color) ==> p.search_foreground == Shade::Exact(
            color,
        ),
        hex_color(raw.search_match_background) == Some(color) ==> p.search_match_background
            == Shade::Exact(color),
        hex_color(raw.bell) == Some(color) ==> p.bell == Shade::Exact(color),
        raw.background_gradient matches Some(ends) && hex_color(ends.0) == Some(color) ==> (
        p.background_gradient matches Some(shades) && shades.0 == Shade::Exact(color)),
        raw.background_gradient matches Some(ends) && hex_color(ends.1) == Some(color) ==> (
        p.background_gradient matches Some(shades) && shades.1 == Shade::Exact(color)),
        raw.background_gradient is None <==> p.background_gradient is None,
        raw.cursor_text matches Some(text) ==> p.cursor_text == hex_color(text),
        raw.cursor_text is None ==> p.cursor_text is None,
        raw.selection_foreground matches Some(text) ==> p.selection_foreground == hex_color(text),
        raw.selection_foreground is None ==> p.selection_foreground is None,
        raw.search_match_foreground matches Some(text) ==> p.search_match_foreground == hex_color(
            text,
        ),
        raw.search_match_foreground is None ==> p.search_match_foreground is None,
{
}

/// A dim color is the one that the theme gives, or else the normal color with
/// less brightness; black where that is no color either.
pub proof fn law_dim_colors(raw: ThemeView, p: ParsedTheme, color: Rgba, i: int)
    requires
        parses(raw, p),
        0 <= i < 8,
    ensures
        raw.dim matches Some(dim) && hex_color(dim[i]) == Some(color) ==> p.dim@[i]
            == Shade::Exact(color),
        (raw.dim is None || (raw.dim matches Some(dim) && hex_color(dim[i]) is None)) && hex_color(
            raw.normal[i],
        ) == Some(color) ==> p.dim@[i] == Shade::Dimmed(color),
        (raw.dim is None || (raw.dim matches Some(dim) && hex_color(dim[i]) is None)) && hex_color(
            raw.normal[i],
        ) is None ==> p.dim@[i] == Shade::Dimmed(Rgba { r: 0, g: 0, b: 0, a: 255 }),
{
}

/// A color that is written down wrong gives way to a fixed color of its place.
pub proof fn law_wrong_colors_give_way(raw: ThemeView, p: ParsedTheme, i: int)
    requires
        parses(raw, p),
        0 <= i < 8,
    ensures
        hex_color(raw.background) is None ==> p.background == Shade::Exact(
            Rgba { r: 0x1e, g: 0x1e, b: 0x2e, a: 255 },
        ),
        hex_color(raw.foreground) is None ==> p.foreground == Shade::Exact(
            Rgba { r: 0xcd, g: 0xd6, b: 0xf4, a: 255 },
        ),
        hex_color(raw.cursor) is None ==> p.cursor == Shade::Exact(
            Rgba { r: 0xf5, g: 0xe0, b: 0xdc, a: 255 },
        ),
        hex_color(raw.selection_background) is None ==> p.selection_background == Shade::Exact(
            Rgba { r: 0x58, g: 0x5b, b: 0x70, a: 255 },
        ),
        hex_color(raw.normal[i]) is None ==> p.normal@[i] == Shade::Permille(200, 200, 200),
        hex_color(raw.bright[i]) is None ==> p.bright@[i] == Shade::Permille(800, 800, 800),
        hex_color(raw.split_border) is None ==> p.split_border == Shade::Permille(270, 290, 350),
        hex_color(raw.split_active) is None ==> p.split_active == Shade::Permille(540, 710, 980),
        hex_color(raw.search_background) is None ==> p.search_background == Shade::Permille(
            190,
            200,
            270,
        ),
        hex_color(raw.search_foreground) is None ==> p.search_foreground == Shade::Permille(
            800,
            840,
            960,
        ),
        hex_color(raw.search_match_background) is None ==> p.search_match_background
            == Shade::Permille(540, 710, 980),
        hex_color(raw.bell) is None ==> p.bell == Shade::Permille(980, 850, 690),
        raw.background_gradient matches Some(ends) && hex_color(ends.0) is None ==> (
        p.background_gradient matches Some(shades) && shades.0 == Shade::Permille(170, 170, 250)),
        raw.background_gradient matches Some(ends) && hex_color(ends.1) is None ==> (
        p.background_gradient matches Some(shades) && shades.1 == Shade::Permille(86, 86, 110)),
{
}

/// A text of a number sign and six digits is the color that they write down.
proof fn lemma_written_color(text: Seq<char>, r: (u8, u8), g: (u8, u8), b: (u8, u8))
    requires
        text.len() == 7,
        text[0] == '#',
        hex_digit(text[1]) == Some(r.0) && r.0 < 16,
        hex_digit(text[2]) == Some(r.1) && r.1 < 16,
        hex_digit(text[3]) == Some(g.0) && g.0 < 16,
        hex_digit(text[4]) == Some(g.1) && g.1 < 16,
        hex_digit(text[5]) == Some(b.0) && b.0 < 16,
        hex_digit(text[6]) == Some(b.1) && b.1 < 16,
    ensures
        hex_color(text) == Some(
            Rgba {
                r: (r.0 * 16 + r.1) as u8,
                g: (g.0 * 16 + g.1) as u8,
                b: (b.0 * 16 + b.1) as u8,
                a: 255,
            },
        ),
{
    let d = text.drop_first();
    let v = seq![r.0, r.1, g.0, g.1, b.0, b.1];
    assert(seq!['#'] + d =~= text);
    assert forall|i: int| 0 <= i < d.len() implies hex_digit(#[trigger] d[i]) == Some(v[i]) && v[i]
        < 16 by {
        assert(d[i] == text[i + 1]);
    }
    law_channels_stand_in_order(d, v);
}

/// A theme whose background, foreground, cursor or selection color is written
/// down wrong shows that color as the default theme does.
pub proof fn law_wrong_colors_are_the_default_ones(
    raw: ThemeView,
    p: ParsedTheme,
    default: ParsedTheme,
)
    requires
        parses(raw, p),
        parses(default_theme(), default),
    ensures
        hex_color(raw.background) is None ==> p.background == default.background,
        hex_color(raw.foreground) is None ==> p.foreground == default.foreground,
        hex_color(raw.cursor) is None ==> p.cursor == default.cursor,
        hex_color(raw.selection_background) is None ==> p.selection_background
            == default.selection_background,
{
    lemma_default_colors();
}

/// The first colors of the default theme.
proof fn lemma_default_colors()
    ensures
        hex_color("#1e1e2e"@) == Some(Rgba { r: 30, g: 30, b: 46, a: 255 }),
        hex_color("#cdd6f4"@) == Some(Rgba { r: 205, g: 214, b: 244, a: 255 }),
        hex_color("#f5e0dc"@) == Some(Rgba { r: 245, g: 224, b: 220, a: 255 }),
        hex_color("#585b70"@) == Some(Rgba { r: 88, g: 91, b: 112, a: 255 }),
{
    assert(hex_color("#1e1e2e"@) == Some(Rgba { r: 30, g: 30, b: 46, a: 255 })) by {
        reveal_strlit("#1e1e2e");
        lemma_written_color("#1e1e2e"@, (1, 14), (1, 14), (2, 14));
    }
    assert(hex_color("#cdd6f4"@) == Some(Rgba { r: 205, g: 214, b: 244, a: 255 })) by {
        reveal_strlit("#cdd6f4");
        lemma_written_color("#cdd6f4"@, (12, 13), (13, 6), (15, 4));
    }
    assert(hex_color("#f5e0dc"@) == Some(Rgba { r: 245, g: 224, b: 220, a: 255 })) by {
        reveal_strlit("#f5e0dc");
        lemma_written_color("#f5e0dc"@, (15, 5), (14, 0), (13, 12));
    }
    assert(hex_color("#585b70"@) == Some(Rgba { r: 88, g: 91, b: 112, a: 255 })) by {
        reveal_strlit("#585b70");
        lemma_written_color("#585b70"@, (5, 8), (5, 11), (7, 0));
    }
}

/// A theme is seen as its texts are, each in its own place.
pub proof fn law_theme_seen_as_it_is(theme: Theme, i: int)
    requires
        0 <= i < 8,
    ensures
        theme@.background == theme.background@,
        theme@.foreground == theme.foreground@,
        theme@.cursor == theme.cursor@,
        theme.cursor_text matches Some(text) ==> theme@.cursor_text == Some(text@),
        theme@.selection_background == theme.selection_background@,
        theme.selection_foreground matches Some(text) ==> theme@.selection_foreground == Some(text@),
        theme@.normal.len() == 8 && theme@.normal[i] == theme.normal@[i]@,
        theme@.bright.len() == 8 && theme@.bright[i] == theme.bright@[i]@,
        theme.dim matches Some(dim) ==> (theme@.dim matches Some(texts) && texts[i] == dim@[i]@),
        theme.dim is None <==> theme@.dim is None,
        theme@.split_border == theme.split_border@,
        theme@.split_active == theme.split_active@,
        theme@.search_background == theme.search_background@,
        theme@.search_foreground == theme.search_foreground@,
        theme@.search_match_background == theme.search_match_background@,
        theme.search_match_foreground matches Some(text) ==> theme@.search_match_foreground == Some(
            text@,
        ),
        theme.background_gradient matches Some(g) ==> theme@.background_gradient == Some(
            (g.top@, g.bottom@),
        ),
        theme.background_gradient is None <==> theme@.background_gradient is None,
        theme@.bell == theme.bell@,
{
}

/// The configuration is in `optix` of the configuration directory of the user
/// where one is set, whatever the home directory is, and in `.config/optix` of
/// the home directory otherwise.
pub proof fn law_config_directory(dir: Seq<char>, home: Option<Seq<char>>)
    requires
        dir.len() > 0,
        dir.last() != '/',
    ensures
        dir_at(Some(dir), home) == dir + "/optix"@,
        dir_at(None, Some(dir)) == dir + "/.config/optix"@,
        dir_at(None, None) == "optix"@,
{
    reveal_strlit("/optix");
    reveal_strlit("optix");
    reveal_strlit(".config");
    reveal_strlit("/.config/optix");
    assert(joined_path(dir, "optix"@) =~= dir + "/optix"@);
    let base = joined_path(dir, ".config"@);
    assert(base.last() == 'g');
    assert(joined_path(base, "optix"@) =~= dir + "/.config/optix"@);
    assert(joined_path(seq![], "optix"@) =~= "optix"@);
}

} // verus!
