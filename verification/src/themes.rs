//! Theme presets that can be selected at runtime, and how user themes go with
//! them.
use vstd::prelude::*;
use vstd::string::*;

use crate::config::{default_theme, parses, Gradient, ParsedTheme, Theme, ThemeView};
use crate::text::{
    ascii_lower, ascii_lower_text, join_path, joined_path, lemma_trimmed_again, list_has,
    lower_ascii, owned, same, texts, trim, trimmed,
};

verus! {

/// The colors of the theme `catppuccin`, in the order of [`preset_theme`].
pub const CATPPUCCIN: [&'static str; 29] = [
    "#1e1e2e",
    "#cdd6f4",
    "#f5e0dc",
    "#1e1e2e",
    "#585b70",
    "#45475a",
    "#f38ba8",
    "#a6e3a1",
    "#f9e2af",
    "#89b4fa",
    "#f5c2e7",
    "#94e2d5",
    "#bac2de",
    "#585b70",
    "#f38ba8",
    "#a6e3a1",
    "#f9e2af",
    "#89b4fa",
    "#f5c2e7",
    "#94e2d5",
    "#a6adc8",
    "#45475a",
    "#89b4fa",
    "#313244",
    "#cdd6f4",
    "#89b4fa",
    "#f9e2af",
    "#2b2b40",
    "#16161d",
];

/// The colors of the theme `gruvbox`, in the order of [`preset_theme`].
pub const GRUVBOX: [&'static str; 29] = [
    "#282828",
    "#ebdbb2",
    "#ebdbb2",
    "#282828",
    "#504945",
    "#282828",
    "#cc241d",
    "#98971a",
    "#d79921",
    "#458588",
    "#b16286",
    "#689d6a",
    "#a89984",
    "#928374",
    "#fb4934",
    "#b8bb26",
    "#fabd2f",
    "#83a598",
    "#d3869b",
    "#8ec07c",
    "#ebdbb2",
    "#3c3836",
    "#83a598",
    "#3c3836",
    "#ebdbb2",
    "#fabd2f",
    "#d79921",
    "#32302f",
    "#1d2021",
];

/// The colors of the theme `dracula`, in the order of [`preset_theme`].
pub const DRACULA: [&'static str; 29] = [
    "#282a36",
    "#f8f8f2",
    "#f8f8f2",
    "#282a36",
    "#44475a",
    "#21222c",
    "#ff5555",
    "#50fa7b",
    "#f1fa8c",
    "#bd93f9",
    "#ff79c6",
    "#8be9fd",
    "#f8f8f2",
    "#6272a4",
    "#ff6e6e",
    "#69ff94",
    "#ffffa5",
    "#d6acff",
    "#ff92df",
    "#a4ffff",
    "#ffffff",
    "#44475a",
    "#bd93f9",
    "#44475a",
    "#f8f8f2",
    "#bd93f9",
    "#f1fa8c",
    "#2d2f3d",
    "#21222c",
];

/// The colors of the theme `nord`, in the order of [`preset_theme`].
pub const NORD: [&'static str; 29] = [
    "#2e3440",
    "#d8dee9",
    "#d8dee9",
    "#2e3440",
    "#434c5e",
    "#3b4252",
    "#bf616a",
    "#a3be8c",
    "#ebcb8b",
    "#81a1c1",
    "#b48ead",
    "#88c0d0",
    "#e5e9f0",
    "#4c566a",
    "#bf616a",
    "#a3be8c",
    "#ebcb8b",
    "#81a1c1",
    "#b48ead",
    "#8fbcbb",
    "#eceff4",
    "#3b4252",
    "#88c0d0",
    "#3b4252",
    "#d8dee9",
    "#81a1c1",
    "#ebcb8b",
    "#353b4a",
    "#242933",
];

/// The colors of the theme `solarized`, in the order of [`preset_theme`].
pub const SOLARIZED: [&'static str; 29] = [
    "#002b36",
    "#839496",
    "#93a1a1",
    "#002b36",
    "#073642",
    "#073642",
    "#dc322f",
    "#859900",
    "#b58900",
    "#268bd2",
    "#d33682",
    "#2aa198",
    "#eee8d5",
    "#586e75",
    "#cb4b16",
    "#93a1a1",
    "#657b83",
    "#6c71c4",
    "#d33682",
    "#2aa198",
    "#fdf6e3",
    "#073642",
    "#268bd2",
    "#073642",
    "#93a1a1",
    "#b58900",
    "#b58900",
    "#003442",
    "#00202b",
];

/// The colors of the theme `tokyonight`, in the order of [`preset_theme`].
pub const TOKYONIGHT: [&'static str; 29] = [
    "#1a1b26",
    "#c0caf5",
    "#c0caf5",
    "#1a1b26",
    "#283457",
    "#15161e",
    "#f7768e",
    "#9ece6a",
    "#e0af68",
    "#7aa2f7",
    "#bb9af7",
    "#7dcfff",
    "#a9b1d6",
    "#414868",
    "#f7768e",
    "#9ece6a",
    "#e0af68",
    "#7aa2f7",
    "#bb9af7",
    "#7dcfff",
    "#c0caf5",
    "#1f2335",
    "#7aa2f7",
    "#1f2335",
    "#c0caf5",
    "#7aa2f7",
    "#e0af68",
    "#1f2335",
    "#14151f",
];

/// Built-in theme names, in listing order.
pub const BUILTIN_NAMES: [&'static str; 6] = [
    "catppuccin",
    "gruvbox",
    "dracula",
    "nord",
    "solarized",
    "tokyonight",
];

/// The theme that a table of colors stands for. It has no dim colors and no
/// color for selected text of its own.
pub open spec fn preset_theme(table: Seq<&'static str>) -> ThemeView {
    ThemeView {
        background: table[0]@,
        foreground: table[1]@,
        cursor: table[2]@,
        cursor_text: Some(table[3]@),
        selection_background: table[4]@,
        selection_foreground: None,
        normal: Seq::new(8, |i: int| table[5 + i]@),
        bright: Seq::new(8, |i: int| table[13 + i]@),
        dim: None,
        split_border: table[21]@,
        split_active: table[22]@,
        search_background: table[23]@,
        search_foreground: table[24]@,
        search_match_background: table[25]@,
        search_match_foreground: Some("#1e1e2e"@),
        background_gradient: Some((table[27]@, table[28]@)),
        bell: table[26]@,
    }
}

/// The colors of a built-in theme.
pub open spec fn preset_table(name: Seq<char>) -> Option<Seq<&'static str>> {
    if name == "catppuccin"@ {
        Some(CATPPUCCIN@)
    } else if name == "gruvbox"@ {
        Some(GRUVBOX@)
    } else if name == "dracula"@ {
        Some(DRACULA@)
    } else if name == "nord"@ {
        Some(NORD@)
    } else if name == "solarized"@ {
        Some(SOLARIZED@)
    } else if name == "tokyonight"@ {
        Some(TOKYONIGHT@)
    } else {
        None
    }
}

/// The theme that a table of colors stands for.
fn preset(table: &[&'static str; 29]) -> (r: Theme)
    ensures
        r@ == preset_theme(table@),
{
    let r = Theme {
        background: owned(table[0]),
        foreground: owned(table[1]),
        cursor: owned(table[2]),
        cursor_text: Some(owned(table[3])),
        selection_background: owned(table[4]),
        selection_foreground: None,
        normal: [
            owned(table[5]),
            owned(table[6]),
            owned(table[7]),
            owned(table[8]),
            owned(table[9]),
            owned(table[10]),
            owned(table[11]),
            owned(table[12]),
        ],
        bright: [
            owned(table[13]),
            owned(table[14]),
            owned(table[15]),
            owned(table[16]),
            owned(table[17]),
            owned(table[18]),
            owned(table[19]),
            owned(table[20]),
        ],
        dim: None,
        split_border: owned(table[21]),
        split_active: owned(table[22]),
        search_background: owned(table[23]),
        search_foreground: owned(table[24]),
        search_match_background: owned(table[25]),
        search_match_foreground: Some(owned("#1e1e2e")),
        background_gradient: Some(
            Gradient { top: owned(table[27]), bottom: owned(table[28]) },
        ),
        bell: owned(table[26]),
    };
    assert(r@.normal =~= preset_theme(table@).normal);
    assert(r@.bright =~= preset_theme(table@).bright);
    r
}

/// A built-in theme by its exact name.
pub fn builtin(name: &str) -> (r: Option<ParsedTheme>)
    ensures
        match preset_table(name@) {
            Some(table) => r matches Some(theme) && parses(preset_theme(table), theme),
            None => r is None,
        },
{
    let raw = if same(name, "catppuccin") {
        preset(&CATPPUCCIN)
    } else if same(name, "gruvbox") {
        preset(&GRUVBOX)
    } else if same(name, "dracula") {
        preset(&DRACULA)
    } else if same(name, "nord") {
        preset(&NORD)
    } else if same(name, "solarized") {
        preset(&SOLARIZED)
    } else if same(name, "tokyonight") {
        preset(&TOKYONIGHT)
    } else {
        return None;
    };
    Some(ParsedTheme::from_raw(&raw))
}

/// The name under which a theme is looked up: in lowercase, without white space
/// around it.
pub open spec fn lookup_name(name: Seq<char>) -> Seq<char> {
    ascii_lower_text(trimmed(name))
}

/// The name under which a theme is looked up.
fn normalized(name: &str) -> (r: String)
    ensures
        r@ == lookup_name(name@),
{
    let name = trim(name);
    lower_ascii(name.as_str())
}

/// The file that a user theme would be in.
pub fn theme_file(config_dir: &str, name: &str) -> (r: String)
    ensures
        r@ == joined_path(
            joined_path(config_dir@, "themes"@),
            lookup_name(name@) + ".toml"@,
        ),
{
    let dir = join_path(config_dir, "themes");
    let mut file = normalized(name);
    file.append(".toml");
    join_path(dir.as_str(), file.as_str())
}

/// Look up a theme: the user theme with the name, where there is one that could
/// be read, and the preset otherwise.
pub fn by_name(name: &str, user: Option<ParsedTheme>) -> (r: Option<ParsedTheme>)
    ensures
        user is Some ==> r == user,
        user is None ==> match preset_table(lookup_name(name@)) {
            Some(table) => r matches Some(theme) && parses(preset_theme(table), theme),
            None => r is None,
        },
{
    match user {
        Some(theme) => Some(theme),
        None => {
            let name = normalized(name);
            builtin(name.as_str())
        },
    }
}

/// The texts of the built-in names.
pub open spec fn builtin_names() -> Seq<Seq<char>> {
    Seq::new(6, |i: int| BUILTIN_NAMES@[i]@)
}

/// A list of names, extended by others that are not in it yet.
pub open spec fn extended(names: Seq<Seq<char>>, more: Seq<Seq<char>>) -> Seq<Seq<char>>
    decreases more.len(),
{
    if more.len() == 0 {
        names
    } else {
        let before = extended(names, more.drop_last());
        if before.contains(more.last()) {
            before
        } else {
            before.push(more.last())
        }
    }
}

/// All theme names: the built-in ones, then those of the user's files, each
/// once.
pub fn names(stems: &Vec<String>) -> (r: Vec<String>)
    ensures
        texts(r@) == extended(builtin_names(), texts(stems@)),
{
    let mut out: Vec<String> = Vec::new();
    let mut k: usize = 0;
    assert(texts(out@) =~= builtin_names().take(0));
    while k < 6
        invariant
            k <= 6,
            texts(out@) == builtin_names().take(k as int),
        decreases 6 - k,
    {
        let ghost before = texts(out@);
        out.push(owned(BUILTIN_NAMES[k]));
        k += 1;
        assert(texts(out@) =~= before.push(BUILTIN_NAMES@[k - 1]@));
        assert(texts(out@) =~= builtin_names().take(k as int));
    }
    assert(builtin_names().take(6) =~= builtin_names());
    let ghost all = texts(stems@);
    let mut i: usize = 0;
    assert(all.take(0) =~= Seq::empty());
    while i < stems.len()
        invariant
            i <= stems@.len(),
            all == texts(stems@),
            texts(out@) == extended(builtin_names(), all.take(i as int)),
        decreases stems@.len() - i,
    {
        let ghost before = texts(out@);
        proof {
            assert(all.take(i + 1).drop_last() =~= all.take(i as int));
            assert(all.take(i + 1).last() == stems@[i as int]@);
        }
        if !list_has(&out, stems[i].as_str()) {
            out.push(owned(stems[i].as_str()));
            assert(texts(out@) =~= before.push(stems@[i as int]@));
        }
        i += 1;
    }
    assert(all.take(i as int) =~= all);
    out
}

/// Every built-in name that is listed can be looked up.
pub proof fn law_builtin_names_are_known(i: int)
    requires
        0 <= i < 6,
    ensures
        preset_table(builtin_names()[i]) is Some,
{
}

/// The list of names has every built-in one and every one of the user's, and
/// none twice.
pub proof fn law_names_are_complete(stems: Seq<Seq<char>>)
    ensures
        extended(builtin_names(), stems).no_duplicates(),
        forall|n: Seq<char>| #[trigger]
            extended(builtin_names(), stems).contains(n) <==> builtin_names().contains(n)
                || stems.contains(n),
{
    reveal_strlit("catppuccin");
    reveal_strlit("gruvbox");
    reveal_strlit("dracula");
    reveal_strlit("nord");
    reveal_strlit("solarized");
    reveal_strlit("tokyonight");
    let all = builtin_names();
    assert(all[0].len() == 10 && all[0][0] == 'c');
    assert(all[1].len() == 7 && all[1][0] == 'g');
    assert(all[2].len() == 7 && all[2][0] == 'd');
    assert(all[3].len() == 4);
    assert(all[4].len() == 9);
    assert(all[5].len() == 10 && all[5][0] == 't');
    assert(all.no_duplicates());
    lemma_extended(all, stems);
}

/// A list that is extended by names has all of its own and all of them, and none
/// twice.
proof fn lemma_extended(names: Seq<Seq<char>>, more: Seq<Seq<char>>)
    requires
        names.no_duplicates(),
    ensures
        extended(names, more).no_duplicates(),
        forall|n: Seq<char>| #[trigger]
            extended(names, more).contains(n) <==> names.contains(n) || more.contains(n),
    decreases more.len(),
{
    if more.len() > 0 {
        let front = more.drop_last();
        lemma_extended(names, front);
        let before = extended(names, front);
        let all = extended(names, more);
        let last = more.last();
        assert(more[more.len() - 1] == last);
        assert forall|n: Seq<char>| #[trigger] all.contains(n) <==> names.contains(n)
            || more.contains(n) by {
            assert(more.contains(n) <==> front.contains(n) || n == last) by {
                if more.contains(n) {
                    let i = choose|i: int| 0 <= i < more.len() && more[i] == n;
                    if i < front.len() {
                        assert(front[i] == n);
                    }
                }
                if front.contains(n) {
                    let i = choose|i: int| 0 <= i < front.len() && front[i] == n;
                    assert(more[i] == n);
                }
            }
            assert(before.contains(n) <==> names.contains(n) || front.contains(n));
            if !before.contains(last) {
                assert(all == before.push(last));
                if before.contains(n) {
                    let i = choose|i: int| 0 <= i < before.len() && before[i] == n;
                    assert(all[i] == n);
                }
                if n == last {
                    assert(all[before.len() as int] == n);
                }
                if all.contains(n) {
                    let i = choose|i: int| 0 <= i < all.len() && all[i] == n;
                    if i < before.len() {
                        assert(before[i] == n);
                    }
                }
            }
        }
    } else {
        assert forall|n: Seq<char>| #[trigger] extended(names, more).contains(n)
            <==> names.contains(n) || more.contains(n) by {}
    }
}

// ---------------------------------------------------------------------------
// Laws
// ---------------------------------------------------------------------------

/// There are six built-in themes, by these names, listed in this order.
pub proof fn law_builtin_theme_names(name: Seq<char>)
    ensures
        preset_table(name) is Some <==> name == "catppuccin"@ || name == "gruvbox"@ || name
            == "dracula"@ || name == "nord"@ || name == "solarized"@ || name == "tokyonight"@,
        builtin_names() == seq![
            "catppuccin"@,
            "gruvbox"@,
            "dracula"@,
            "nord"@,
            "solarized"@,
            "tokyonight"@,
        ],
{
    assert(builtin_names() =~= seq![
        "catppuccin"@,
        "gruvbox"@,
        "dracula"@,
        "nord"@,
        "solarized"@,
        "tokyonight"@,
    ]);
}

/// A name stands for its own table.
proof fn lemma_preset_tables()
    ensures
        preset_table("catppuccin"@) == Some(CATPPUCCIN@),
        preset_table("gruvbox"@) == Some(GRUVBOX@),
        preset_table("dracula"@) == Some(DRACULA@),
        preset_table("nord"@) == Some(NORD@),
        preset_table("solarized"@) == Some(SOLARIZED@),
        preset_table("tokyonight"@) == Some(TOKYONIGHT@),
{
    reveal_strlit("catppuccin");
    reveal_strlit("gruvbox");
    reveal_strlit("dracula");
    reveal_strlit("nord");
    reveal_strlit("solarized");
    reveal_strlit("tokyonight");
    assert("catppuccin"@.len() == 10 && "catppuccin"@[0] == 'c');
    assert("gruvbox"@.len() == 7 && "gruvbox"@[0] == 'g');
    assert("dracula"@.len() == 7 && "dracula"@[0] == 'd');
    assert("nord"@.len() == 4);
    assert("solarized"@.len() == 9);
    assert("tokyonight"@.len() == 10 && "tokyonight"@[0] == 't');
}

/// The colors of `catppuccin`.
pub proof fn law_catppuccin_colors()
    ensures
        preset_table("catppuccin"@) matches Some(table) && {
            let theme = preset_theme(table);
            &&& theme.background == "#1e1e2e"@
            &&& theme.foreground == "#cdd6f4"@
            &&& theme.cursor == "#f5e0dc"@
            &&& theme.cursor_text == Some("#1e1e2e"@)
            &&& theme.selection_background == "#585b70"@
            &&& theme.selection_foreground is None
            &&& theme.normal == seq![
                "#45475a"@,
                "#f38ba8"@,
                "#a6e3a1"@,
                "#f9e2af"@,
                "#89b4fa"@,
                "#f5c2e7"@,
                "#94e2d5"@,
                "#bac2de"@,
            ]
            &&& theme.bright == seq![
                "#585b70"@,
                "#f38ba8"@,
                "#a6e3a1"@,
                "#f9e2af"@,
                "#89b4fa"@,
                "#f5c2e7"@,
                "#94e2d5"@,
                "#a6adc8"@,
            ]
            &&& theme.dim is None
            &&& theme.split_border == "#45475a"@
            &&& theme.split_active == "#89b4fa"@
            &&& theme.search_background == "#313244"@
            &&& theme.search_foreground == "#cdd6f4"@
            &&& theme.search_match_background == "#89b4fa"@
            &&& theme.search_match_foreground == Some("#1e1e2e"@)
            &&& theme.background_gradient == Some(("#2b2b40"@, "#16161d"@))
            &&& theme.bell == "#f9e2af"@
        },
{
    lemma_preset_tables();
    let theme = preset_theme(CATPPUCCIN@);
    assert(theme.normal =~= seq![
        "#45475a"@,
        "#f38ba8"@,
        "#a6e3a1"@,
        "#f9e2af"@,
        "#89b4fa"@,
        "#f5c2e7"@,
        "#94e2d5"@,
        "#bac2de"@,
    ]);
    assert(theme.bright =~= seq![
        "#585b70"@,
        "#f38ba8"@,
        "#a6e3a1"@,
        "#f9e2af"@,
        "#89b4fa"@,
        "#f5c2e7"@,
        "#94e2d5"@,
        "#a6adc8"@,
    ]);
}

/// The colors of `gruvbox`.
pub proof fn law_gruvbox_colors()
    ensures
        preset_table("gruvbox"@) matches Some(table) && {
            let theme = preset_theme(table);
            &&& theme.background == "#282828"@
            &&& theme.foreground == "#ebdbb2"@
            &&& theme.cursor == "#ebdbb2"@
            &&& theme.cursor_text == Some("#282828"@)
            &&& theme.selection_background == "#504945"@
            &&& theme.selection_foreground is None
            &&& theme.normal == seq![
                "#282828"@,
                "#cc241d"@,
                "#98971a"@,
                "#d79921"@,
                "#458588"@,
                "#b16286"@,
                "#689d6a"@,
                "#a89984"@,
            ]
            &&& theme.bright == seq![
                "#928374"@,
                "#fb4934"@,
                "#b8bb26"@,
                "#fabd2f"@,
                "#83a598"@,
                "#d3869b"@,
                "#8ec07c"@,
                "#ebdbb2"@,
            ]
            &&& theme.dim is None
            &&& theme.split_border == "#3c3836"@
            &&& theme.split_active == "#83a598"@
            &&& theme.search_background == "#3c3836"@
            &&& theme.search_foreground == "#ebdbb2"@
            &&& theme.search_match_background == "#fabd2f"@
            &&& theme.search_match_foreground == Some("#1e1e2e"@)
            &&& theme.background_gradient == Some(("#32302f"@, "#1d2021"@))
            &&& theme.bell == "#d79921"@
        },
{
    lemma_preset_tables();
    let theme = preset_theme(GRUVBOX@);
    assert(theme.normal =~= seq![
        "#282828"@,
        "#cc241d"@,
        "#98971a"@,
        "#d79921"@,
        "#458588"@,
        "#b16286"@,
        "#689d6a"@,
        "#a89984"@,
    ]);
    assert(theme.bright =~= seq![
        "#928374"@,
        "#fb4934"@,
        "#b8bb26"@,
        "#fabd2f"@,
        "#83a598"@,
        "#d3869b"@,
        "#8ec07c"@,
        "#ebdbb2"@,
    ]);
}

/// The colors of `dracula`.
pub proof fn law_dracula_colors()
    ensures
        preset_table("dracula"@) matches Some(table) && {
            let theme = preset_theme(table);
            &&& theme.background == "#282a36"@
            &&& theme.foreground == "#f8f8f2"@
            &&& theme.cursor == "#f8f8f2"@
            &&& theme.cursor_text == Some("#282a36"@)
            &&& theme.selection_background == "#44475a"@
            &&& theme.selection_foreground is None
            &&& theme.normal == seq![
                "#21222c"@,
                "#ff5555"@,
                "#50fa7b"@,
                "#f1fa8c"@,
                "#bd93f9"@,
                "#ff79c6"@,
                "#8be9fd"@,
                "#f8f8f2"@,
            ]
            &&& theme.bright == seq![
                "#6272a4"@,
                "#ff6e6e"@,
                "#69ff94"@,
                "#ffffa5"@,
                "#d6acff"@,
                "#ff92df"@,
                "#a4ffff"@,
                "#ffffff"@,
            ]
            &&& theme.dim is None
            &&& theme.split_border == "#44475a"@
            &&& theme.split_active == "#bd93f9"@
            &&& theme.search_background == "#44475a"@
            &&& theme.search_foreground == "#f8f8f2"@
            &&& theme.search_match_background == "#bd93f9"@
            &&& theme.search_match_foreground == Some("#1e1e2e"@)
            &&& theme.background_gradient == Some(("#2d2f3d"@, "#21222c"@))
            &&& theme.bell == "#f1fa8c"@
        },
{
    lemma_preset_tables();
    let theme = preset_theme(DRACULA@);
    assert(theme.normal =~= seq![
        "#21222c"@,
        "#ff5555"@,
        "#50fa7b"@,
        "#f1fa8c"@,
        "#bd93f9"@,
        "#ff79c6"@,
        "#8be9fd"@,
        "#f8f8f2"@,
    ]);
    assert(theme.bright =~= seq![
        "#6272a4"@,
        "#ff6e6e"@,
        "#69ff94"@,
        "#ffffa5"@,
        "#d6acff"@,
        "#ff92df"@,
        "#a4ffff"@,
        "#ffffff"@,
    ]);
}

/// The colors of `nord`.
pub proof fn law_nord_colors()
    ensures
        preset_table("nord"@) matches Some(table) && {
            let theme = preset_theme(table);
            &&& theme.background == "#2e3440"@
            &&& theme.foreground == "#d8dee9"@
            &&& theme.cursor == "#d8dee9"@
            &&& theme.cursor_text == Some("#2e3440"@)
            &&& theme.selection_background == "#434c5e"@
            &&& theme.selection_foreground is None
            &&& theme.normal == seq![
                "#3b4252"@,
                "#bf616a"@,
                "#a3be8c"@,
                "#ebcb8b"@,
                "#81a1c1"@,
                "#b48ead"@,
                "#88c0d0"@,
                "#e5e9f0"@,
            ]
            &&& theme.bright == seq![
                "#4c566a"@,
                "#bf616a"@,
                "#a3be8c"@,
                "#ebcb8b"@,
                "#81a1c1"@,
                "#b48ead"@,
                "#8fbcbb"@,
                "#eceff4"@,
            ]
            &&& theme.dim is None
            &&& theme.split_border == "#3b4252"@
            &&& theme.split_active == "#88c0d0"@
            &&& theme.search_background == "#3b4252"@
            &&& theme.search_foreground == "#d8dee9"@
            &&& theme.search_match_background == "#81a1c1"@
            &&& theme.search_match_foreground == Some("#1e1e2e"@)
            &&& theme.background_gradient == Some(("#353b4a"@, "#242933"@))
            &&& theme.bell == "#ebcb8b"@
        },
{
    lemma_preset_tables();
    let theme = preset_theme(NORD@);
    assert(theme.normal =~= seq![
        "#3b4252"@,
        "#bf616a"@,
        "#a3be8c"@,
        "#ebcb8b"@,
        "#81a1c1"@,
        "#b48ead"@,
        "#88c0d0"@,
        "#e5e9f0"@,
    ]);
    assert(theme.bright =~= seq![
        "#4c566a"@,
        "#bf616a"@,
        "#a3be8c"@,
        "#ebcb8b"@,
        "#81a1c1"@,
        "#b48ead"@,
        "#8fbcbb"@,
        "#eceff4"@,
    ]);
}

/// The colors of `solarized`.
pub proof fn law_solarized_colors()
    ensures
        preset_table("solarized"@) matches Some(table) && {
            let theme = preset_theme(table);
            &&& theme.background == "#002b36"@
            &&& theme.foreground == "#839496"@
            &&& theme.cursor == "#93a1a1"@
            &&& theme.cursor_text == Some("#002b36"@)
            &&& theme.selection_background == "#073642"@
            &&& theme.selection_foreground is None
            &&& theme.normal == seq![
                "#073642"@,
                "#dc322f"@,
                "#859900"@,
                "#b58900"@,
                "#268bd2"@,
                "#d33682"@,
                "#2aa198"@,
                "#eee8d5"@,
            ]
            &&& theme.bright == seq![
                "#586e75"@,
                "#cb4b16"@,
                "#93a1a1"@,
                "#657b83"@,
                "#6c71c4"@,
                "#d33682"@,
                "#2aa198"@,
                "#fdf6e3"@,
            ]
            &&& theme.dim is None
            &&& theme.split_border == "#073642"@
            &&& theme.split_active == "#268bd2"@
            &&& theme.search_background == "#073642"@
            &&& theme.search_foreground == "#93a1a1"@
            &&& theme.search_match_background == "#b58900"@
            &&& theme.search_match_foreground == Some("#1e1e2e"@)
            &&& theme.background_gradient == Some(("#003442"@, "#00202b"@))
            &&& theme.bell == "#b58900"@
        },
{
    lemma_preset_tables();
    let theme = preset_theme(SOLARIZED@);
    assert(theme.normal =~= seq![
        "#073642"@,
        "#dc322f"@,
        "#859900"@,
        "#b58900"@,
        "#268bd2"@,
        "#d33682"@,
        "#2aa198"@,
        "#eee8d5"@,
    ]);
    assert(theme.bright =~= seq![
        "#586e75"@,
        "#cb4b16"@,
        "#93a1a1"@,
        "#657b83"@,
        "#6c71c4"@,
        "#d33682"@,
        "#2aa198"@,
        "#fdf6e3"@,
    ]);
}

/// The colors of `tokyonight`.
pub proof fn law_tokyonight_colors()
    ensures
        preset_table("tokyonight"@) matches Some(table) && {
            let theme = preset_theme(table);
            &&& theme.background == "#1a1b26"@
            &&& theme.foreground == "#c0caf5"@
            &&& theme.cursor == "#c0caf5"@
            &&& theme.cursor_text == Some("#1a1b26"@)
            &&& theme.selection_background == "#283457"@
            &&& theme.selection_foreground is None
            &&& theme.normal == seq![
                "#15161e"@,
                "#f7768e"@,
                "#9ece6a"@,
                "#e0af68"@,
                "#7aa2f7"@,
                "#bb9af7"@,
                "#7dcfff"@,
                "#a9b1d6"@,
            ]
            &&& theme.bright == seq![
                "#414868"@,
                "#f7768e"@,
                "#9ece6a"@,
                "#e0af68"@,
                "#7aa2f7"@,
                "#bb9af7"@,
                "#7dcfff"@,
                "#c0caf5"@,
            ]
            &&& theme.dim is None
            &&& theme.split_border == "#1f2335"@
            &&& theme.split_active == "#7aa2f7"@
            &&& theme.search_background == "#1f2335"@
            &&& theme.search_foreground == "#c0caf5"@
            &&& theme.search_match_background == "#7aa2f7"@
            &&& theme.search_match_foreground == Some("#1e1e2e"@)
            &&& theme.background_gradient == Some(("#1f2335"@, "#14151f"@))
            &&& theme.bell == "#e0af68"@
        },
{
    lemma_preset_tables();
    let theme = preset_theme(TOKYONIGHT@);
    assert(theme.normal =~= seq![
        "#15161e"@,
        "#f7768e"@,
        "#9ece6a"@,
        "#e0af68"@,
        "#7aa2f7"@,
        "#bb9af7"@,
        "#7dcfff"@,
        "#a9b1d6"@,
    ]);
    assert(theme.bright =~= seq![
        "#414868"@,
        "#f7768e"@,
        "#9ece6a"@,
        "#e0af68"@,
        "#7aa2f7"@,
        "#bb9af7"@,
        "#7dcfff"@,
        "#c0caf5"@,
    ]);
}

/// The default theme is the built-in one that is listed first.
pub proof fn law_default_theme_is_the_first()
    ensures
        preset_table(builtin_names()[0]) matches Some(table) && preset_theme(table)
            == default_theme(),
{
    lemma_preset_tables();
    assert(preset_theme(CATPPUCCIN@).normal =~= default_theme().normal);
    assert(preset_theme(CATPPUCCIN@).bright =~= default_theme().bright);
    assert(preset_theme(CATPPUCCIN@) =~= default_theme());
}

/// A theme is looked up in any case and with white space around its name.
pub proof fn law_lookup_ignores_case_and_space(name: Seq<char>, other: Seq<char>)
    ensures
        lookup_name(trimmed(name)) == lookup_name(name),
        ascii_lower_text(trimmed(name)) == ascii_lower_text(trimmed(other)) ==> lookup_name(name)
            == lookup_name(other),
        lookup_name(name).len() == trimmed(name).len(),
        forall|i: int|
            0 <= i < trimmed(name).len() ==> #[trigger] lookup_name(name)[i] == ascii_lower(
                trimmed(name)[i],
            ),
{
    lemma_trimmed_again(name);
}

/// The names of the user come behind the built-in ones, in the order of their
/// files, and one that is listed already is not listed again.
pub proof fn law_user_themes_are_listed_last(
    names: Seq<Seq<char>>,
    more: Seq<Seq<char>>,
    last: Seq<char>,
)
    ensures
        extended(names, seq![]) == names,
        extended(names, more).contains(last) ==> extended(names, more.push(last)) == extended(
            names,
            more,
        ),
        !extended(names, more).contains(last) ==> extended(names, more.push(last)) == extended(
            names,
            more,
        ).push(last),
        names.is_prefix_of(extended(names, more)),
    decreases more.len(),
{
    assert(more.push(last).drop_last() =~= more);
    if more.len() > 0 {
        law_user_themes_are_listed_last(names, more.drop_last(), last);
    }
}

} // verus!
