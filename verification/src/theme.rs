//! The named themes: each one's cast, the syntax theme it pairs with, and the anchor colors
//! its palette is computed from. Names match herdr's, so a value copied from a herdr config
//! resolves to the same theme here.

use vstd::prelude::*;

verus! {

/// A theme's intrinsic cast, which sets the direction its surfaces step in.
#[derive(Debug, Clone, Copy, PartialEq, Eq, Structural)]
pub enum Appearance {
    Dark,
    Light,
}

/// A vendored `.tmTheme` a theme pairs with, for the syntax themes `two-face` does not carry.
#[derive(Debug, Clone, Copy, PartialEq, Eq, Structural)]
pub enum Asset {
    VsDarkPlus,
    CatppuccinMocha,
    TokyoNight,
    TokyoNightDay,
    RosePine,
    RosePineDawn,
}

/// A syntax theme of the `two-face` set.
#[derive(Debug, Clone, Copy, PartialEq, Eq, Structural)]
pub enum Embedded {
    CatppuccinLatte,
    CatppuccinFrappe,
    CatppuccinMacchiato,
    Dracula,
    Nord,
    GruvboxDark,
    GruvboxLight,
    TwoDark,
    OneHalfLight,
    SolarizedDark,
    SolarizedLight,
    Github,
    MonokaiExtended,
}

/// Where a theme's syntax colors come from.
#[derive(Debug, Clone, Copy, PartialEq, Eq, Structural)]
pub enum SyntaxChoice {
    Bundled(Asset),
    Embedded(Embedded),
}

/// The anchor colors a theme lists, each `0xRRGGBB`; the rest of its palette is computed
/// from these.
#[derive(Debug, Clone, Copy, PartialEq, Eq, Structural)]
pub struct Anchors {
    pub base: u32,
    pub text: u32,
    pub code: u32,
    pub strong: u32,
    pub heading: u32,
    pub link: u32,
}

/// A named theme: its cast, its syntax theme, and its anchors.
#[derive(Debug, Clone, Copy)]
pub struct ThemeSpec {
    pub name: &'static str,
    pub appearance: Appearance,
    pub syntax: SyntaxChoice,
    pub anchors: Anchors,
}

/// A theme as the contracts see it.
pub type ThemeView = (Seq<char>, Appearance, SyntaxChoice, Anchors);

impl View for ThemeSpec {
    type V = ThemeView;

    open spec fn view(&self) -> ThemeView {
        (self.name@, self.appearance, self.syntax, self.anchors)
    }
}

pub open spec fn anchors(base: u32, text: u32, code: u32, strong: u32, heading: u32, link: u32) -> Anchors {
    Anchors { base, text, code, strong, heading, link }
}

/// Every theme the picker ships, in the order they are offered.
pub open spec fn names_spec() -> Seq<Seq<char>> {
    seq![
        "vs-dark-plus"@,
        "catppuccin"@,
        "catppuccin-latte"@,
        "catppuccin-frappe"@,
        "catppuccin-macchiato"@,
        "dracula"@,
        "nord"@,
        "gruvbox"@,
        "gruvbox-light"@,
        "one-dark"@,
        "one-light"@,
        "solarized"@,
        "solarized-light"@,
        "github-light"@,
        "monokai"@,
        "tokyo-night"@,
        "tokyo-night-day"@,
        "rose-pine"@,
        "rose-pine-dawn"@,
    ]
}

/// The theme named `name`, or none when it is not one the picker carries. Anchors, in slot
/// order: base, text, code, strong, heading, link. The four accents sit in one narrow
/// blue-violet band on purpose — a wide spread of hues fights the prose.
pub open spec fn resolve_spec(name: Seq<char>) -> Option<ThemeView> {
    if name == "vs-dark-plus"@ {
        // VS Code's "Visual Studio Dark+": its chrome anchors are the terminal's own palette.
        Some(("vs-dark-plus"@, Appearance::Dark, SyntaxChoice::Bundled(Asset::VsDarkPlus),
            anchors(0x0d1117, 0xc1c1c1, 0x9cb4e8, 0xa8d8f0, 0xc586c0, 0x6ea8fe)))
    } else if name == "catppuccin"@ {
        // herdr's spelling of Catppuccin Mocha.
        Some(("catppuccin"@, Appearance::Dark, SyntaxChoice::Bundled(Asset::CatppuccinMocha),
            anchors(0x1e1e2e, 0xcdd6f4, 0xb4befe, 0x89dceb, 0xcba6f7, 0x89b4fa)))
    } else if name == "catppuccin-latte"@ {
        Some(("catppuccin-latte"@, Appearance::Light, SyntaxChoice::Embedded(Embedded::CatppuccinLatte),
            anchors(0xeff1f5, 0x4c4f69, 0x7287fd, 0x04a5e5, 0x8839ef, 0x1e66f5)))
    } else if name == "catppuccin-frappe"@ {
        Some(("catppuccin-frappe"@, Appearance::Dark, SyntaxChoice::Embedded(Embedded::CatppuccinFrappe),
            anchors(0x303446, 0xc6d0f5, 0xbabbf1, 0x99d1db, 0xca9ee6, 0x8caaee)))
    } else if name == "catppuccin-macchiato"@ {
        Some(("catppuccin-macchiato"@, Appearance::Dark, SyntaxChoice::Embedded(Embedded::CatppuccinMacchiato),
            anchors(0x24273a, 0xcad3f5, 0xb7bdf8, 0x91d7e3, 0xc6a0f6, 0x8aadf4)))
    } else if name == "dracula"@ {
        Some(("dracula"@, Appearance::Dark, SyntaxChoice::Embedded(Embedded::Dracula),
            anchors(0x282a36, 0xf8f8f2, 0xbd93f9, 0x8be9fd, 0xff79c6, 0x8fa8ff)))
    } else if name == "nord"@ {
        Some(("nord"@, Appearance::Dark, SyntaxChoice::Embedded(Embedded::Nord),
            anchors(0x2e3440, 0xd8dee9, 0xb48ead, 0x8fbcbb, 0xc9a7d6, 0x81a1c1)))
    } else if name == "gruvbox"@ {
        Some(("gruvbox"@, Appearance::Dark, SyntaxChoice::Embedded(Embedded::GruvboxDark),
            anchors(0x282828, 0xebdbb2, 0xd3869b, 0x8ec07c, 0xe6a3bd, 0x83a598)))
    } else if name == "gruvbox-light"@ {
        Some(("gruvbox-light"@, Appearance::Light, SyntaxChoice::Embedded(Embedded::GruvboxLight),
            anchors(0xfbf1c7, 0x3c3836, 0x8f3f71, 0x427b58, 0xb1608f, 0x076678)))
    } else if name == "one-dark"@ {
        Some(("one-dark"@, Appearance::Dark, SyntaxChoice::Embedded(Embedded::TwoDark),
            anchors(0x282c34, 0xabb2bf, 0xc678dd, 0x56b6c2, 0xe08fe8, 0x61afef)))
    } else if name == "one-light"@ {
        Some(("one-light"@, Appearance::Light, SyntaxChoice::Embedded(Embedded::OneHalfLight),
            anchors(0xfafafa, 0x383a42, 0xa626a4, 0x0184bc, 0xc04ec0, 0x4078f2)))
    } else if name == "solarized"@ {
        Some(("solarized"@, Appearance::Dark, SyntaxChoice::Embedded(Embedded::SolarizedDark),
            anchors(0x002b36, 0x93a1a1, 0x6c71c4, 0x2aa198, 0xd33682, 0x268bd2)))
    } else if name == "solarized-light"@ {
        Some(("solarized-light"@, Appearance::Light, SyntaxChoice::Embedded(Embedded::SolarizedLight),
            anchors(0xfdf6e3, 0x586e75, 0x6c71c4, 0x2aa198, 0xd33682, 0x268bd2)))
    } else if name == "github-light"@ {
        Some(("github-light"@, Appearance::Light, SyntaxChoice::Embedded(Embedded::Github),
            anchors(0xffffff, 0x1f2328, 0x8250df, 0x1b7c83, 0xa475f9, 0x0969da)))
    } else if name == "monokai"@ {
        Some(("monokai"@, Appearance::Dark, SyntaxChoice::Embedded(Embedded::MonokaiExtended),
            anchors(0x272822, 0xf8f8f2, 0xae81ff, 0x66d9ef, 0xf92672, 0x8fa8ff)))
    } else if name == "tokyo-night"@ {
        // herdr names whose syntax `two-face` lacks, paired with a vendored `.tmTheme`.
        Some(("tokyo-night"@, Appearance::Dark, SyntaxChoice::Bundled(Asset::TokyoNight),
            anchors(0x1a1b26, 0xc0caf5, 0xbb9af7, 0x7dcfff, 0xc0a0ff, 0x7aa2f7)))
    } else if name == "tokyo-night-day"@ {
        Some(("tokyo-night-day"@, Appearance::Light, SyntaxChoice::Bundled(Asset::TokyoNightDay),
            anchors(0xe1e2e7, 0x3760bf, 0x9854f1, 0x007197, 0xb45cf1, 0x2e7de9)))
    } else if name == "rose-pine"@ {
        Some(("rose-pine"@, Appearance::Dark, SyntaxChoice::Bundled(Asset::RosePine),
            anchors(0x191724, 0xe0def4, 0xc4a7e7, 0x9ccfd8, 0xebbcba, 0x31748f)))
    } else if name == "rose-pine-dawn"@ {
        Some(("rose-pine-dawn"@, Appearance::Light, SyntaxChoice::Bundled(Asset::RosePineDawn),
            anchors(0xfaf4ed, 0x575279, 0x907aa9, 0x56949f, 0xd7827e, 0x286983)))
    } else {
        None
    }
}


fn anchors_of(base: u32, text: u32, code: u32, strong: u32, heading: u32, link: u32) -> (a: Anchors)
    ensures
        a == anchors(base, text, code, strong, heading, link),
{
    Anchors { base, text, code, strong, heading, link }
}

/// The theme named `name`, or `None` when it is not one the picker carries.
pub fn resolve(name: &str) -> (r: Option<ThemeSpec>)
    ensures
        match resolve_spec(name@) {
            Some(v) => r is Some && r.unwrap()@ == v,
            None => r is None,
        },
{
    let name = name.to_owned();
    if name == "vs-dark-plus".to_owned() {
        Some(ThemeSpec {
            name: "vs-dark-plus",
            appearance: Appearance::Dark,
            syntax: SyntaxChoice::Bundled(Asset::VsDarkPlus),
            anchors: anchors_of(0x0d1117, 0xc1c1c1, 0x9cb4e8, 0xa8d8f0, 0xc586c0, 0x6ea8fe),
        })
    } else if name == "catppuccin".to_owned() {
        Some(ThemeSpec {
            name: "catppuccin",
            appearance: Appearance::Dark,
            syntax: SyntaxChoice::Bundled(Asset::CatppuccinMocha),
            anchors: anchors_of(0x1e1e2e, 0xcdd6f4, 0xb4befe, 0x89dceb, 0xcba6f7, 0x89b4fa),
        })
    } else if name == "catppuccin-latte".to_owned() {
        Some(ThemeSpec {
            name: "catppuccin-latte",
            appearance: Appearance::Light,
            syntax: SyntaxChoice::Embedded(Embedded::CatppuccinLatte),
            anchors: anchors_of(0xeff1f5, 0x4c4f69, 0x7287fd, 0x04a5e5, 0x8839ef, 0x1e66f5),
        })
    } else if name == "catppuccin-frappe".to_owned() {
        Some(ThemeSpec {
            name: "catppuccin-frappe",
            appearance: Appearance::Dark,
            syntax: SyntaxChoice::Embedded(Embedded::CatppuccinFrappe),
            anchors: anchors_of(0x303446, 0xc6d0f5, 0xbabbf1, 0x99d1db, 0xca9ee6, 0x8caaee),
        })
    } else if name == "catppuccin-macchiato".to_owned() {
        Some(ThemeSpec {
            name: "catppuccin-macchiato",
            appearance: Appearance::Dark,
            syntax: SyntaxChoice::Embedded(Embedded::CatppuccinMacchiato),
            anchors: anchors_of(0x24273a, 0xcad3f5, 0xb7bdf8, 0x91d7e3, 0xc6a0f6, 0x8aadf4),
        })
    } else if name == "dracula".to_owned() {
        Some(ThemeSpec {
            name: "dracula",
            appearance: Appearance::Dark,
            syntax: SyntaxChoice::Embedded(Embedded::Dracula),
            anchors: anchors_of(0x282a36, 0xf8f8f2, 0xbd93f9, 0x8be9fd, 0xff79c6, 0x8fa8ff),
        })
    } else if name == "nord".to_owned() {
        Some(ThemeSpec {
            name: "nord",
            appearance: Appearance::Dark,
            syntax: SyntaxChoice::Embedded(Embedded::Nord),
            anchors: anchors_of(0x2e3440, 0xd8dee9, 0xb48ead, 0x8fbcbb, 0xc9a7d6, 0x81a1c1),
        })
    } else if name == "gruvbox".to_owned() {
        Some(ThemeSpec {
            name: "gruvbox",
            appearance: Appearance::Dark,
            syntax: SyntaxChoice::Embedded(Embedded::GruvboxDark),
            anchors: anchors_of(0x282828, 0xebdbb2, 0xd3869b, 0x8ec07c, 0xe6a3bd, 0x83a598),
        })
    } else if name == "gruvbox-light".to_owned() {
        Some(ThemeSpec {
            name: "gruvbox-light",
            appearance: Appearance::Light,
            syntax: SyntaxChoice::Embedded(Embedded::GruvboxLight),
            anchors: anchors_of(0xfbf1c7, 0x3c3836, 0x8f3f71, 0x427b58, 0xb1608f, 0x076678),
        })
    } else if name == "one-dark".to_owned() {
        Some(ThemeSpec {
            name: "one-dark",
            appearance: Appearance::Dark,
            syntax: SyntaxChoice::Embedded(Embedded::TwoDark),
            anchors: anchors_of(0x282c34, 0xabb2bf, 0xc678dd, 0x56b6c2, 0xe08fe8, 0x61afef),
        })
    } else if name == "one-light".to_owned() {
        Some(ThemeSpec {
            name: "one-light",
            appearance: Appearance::Light,
            syntax: SyntaxChoice::Embedded(Embedded::OneHalfLight),
            anchors: anchors_of(0xfafafa, 0x383a42, 0xa626a4, 0x0184bc, 0xc04ec0, 0x4078f2),
        })
    } else if name == "solarized".to_owned() {
        Some(ThemeSpec {
            name: "solarized",
            appearance: Appearance::Dark,
            syntax: SyntaxChoice::Embedded(Embedded::SolarizedDark),
            anchors: anchors_of(0x002b36, 0x93a1a1, 0x6c71c4, 0x2aa198, 0xd33682, 0x268bd2),
        })
    } else if name == "solarized-light".to_owned() {
        Some(ThemeSpec {
            name: "solarized-light",
            appearance: Appearance::Light,
            syntax: SyntaxChoice::Embedded(Embedded::SolarizedLight),
            anchors: anchors_of(0xfdf6e3, 0x586e75, 0x6c71c4, 0x2aa198, 0xd33682, 0x268bd2),
        })
    } else if name == "github-light".to_owned() {
        Some(ThemeSpec {
            name: "github-light",
            appearance: Appearance::Light,
            syntax: SyntaxChoice::Embedded(Embedded::Github),
            anchors: anchors_of(0xffffff, 0x1f2328, 0x8250df, 0x1b7c83, 0xa475f9, 0x0969da),
        })
    } else if name == "monokai".to_owned() {
        Some(ThemeSpec {
            name: "monokai",
            appearance: Appearance::Dark,
            syntax: SyntaxChoice::Embedded(Embedded::MonokaiExtended),
            anchors: anchors_of(0x272822, 0xf8f8f2, 0xae81ff, 0x66d9ef, 0xf92672, 0x8fa8ff),
        })
    } else if name == "tokyo-night".to_owned() {
        Some(ThemeSpec {
            name: "tokyo-night",
            appearance: Appearance::Dark,
            syntax: SyntaxChoice::Bundled(Asset::TokyoNight),
            anchors: anchors_of(0x1a1b26, 0xc0caf5, 0xbb9af7, 0x7dcfff, 0xc0a0ff, 0x7aa2f7),
        })
    } else if name == "tokyo-night-day".to_owned() {
        Some(ThemeSpec {
            name: "tokyo-night-day",
            appearance: Appearance::Light,
            syntax: SyntaxChoice::Bundled(Asset::TokyoNightDay),
            anchors: anchors_of(0xe1e2e7, 0x3760bf, 0x9854f1, 0x007197, 0xb45cf1, 0x2e7de9),
        })
    } else if name == "rose-pine".to_owned() {
        Some(ThemeSpec {
            name: "rose-pine",
            appearance: Appearance::Dark,
            syntax: SyntaxChoice::Bundled(Asset::RosePine),
            anchors: anchors_of(0x191724, 0xe0def4, 0xc4a7e7, 0x9ccfd8, 0xebbcba, 0x31748f),
        })
    } else if name == "rose-pine-dawn".to_owned() {
        Some(ThemeSpec {
            name: "rose-pine-dawn",
            appearance: Appearance::Light,
            syntax: SyntaxChoice::Bundled(Asset::RosePineDawn),
            anchors: anchors_of(0xfaf4ed, 0x575279, 0x907aa9, 0x56949f, 0xd7827e, 0x286983),
        })
    } else {
        None
    }
}

/// Every theme the picker ships, in the order they are offered.
pub fn names() -> (out: Vec<&'static str>)
    ensures
        out@.map_values(|n: &str| n@) == names_spec(),
{
    let out = vec![
        "vs-dark-plus",
        "catppuccin",
        "catppuccin-latte",
        "catppuccin-frappe",
        "catppuccin-macchiato",
        "dracula",
        "nord",
        "gruvbox",
        "gruvbox-light",
        "one-dark",
        "one-light",
        "solarized",
        "solarized-light",
        "github-light",
        "monokai",
        "tokyo-night",
        "tokyo-night-day",
        "rose-pine",
        "rose-pine-dawn",
    ];
    assert(out@.map_values(|n: &str| n@) =~= names_spec());
    out
}

/// The theme an unset name stands for: the one the picker ships tuned to.
pub fn default_theme() -> (t: ThemeSpec)
    ensures
        resolve_spec(t@.0) == Some(t@),
        t@.0 == "vs-dark-plus"@,
{
    ThemeSpec {
        name: "vs-dark-plus",
        appearance: Appearance::Dark,
        syntax: SyntaxChoice::Bundled(Asset::VsDarkPlus),
        anchors: anchors_of(0x0d1117, 0xc1c1c1, 0x9cb4e8, 0xa8d8f0, 0xc586c0, 0x6ea8fe),
    }
}

/// Every name the picker offers resolves, and to the theme of that very name — so a name
/// listed in an error message can be pasted back into the config.
pub proof fn law_every_name_resolves_to_itself()
    ensures
        forall|i: int|
            0 <= i < names_spec().len() ==> (resolve_spec(#[trigger] names_spec()[i]) matches Some(t) && t.0 == names_spec()[i]),
{
    reveal_strlit("vs-dark-plus");
    reveal_strlit("catppuccin");
    reveal_strlit("catppuccin-latte");
    reveal_strlit("catppuccin-frappe");
    reveal_strlit("catppuccin-macchiato");
    reveal_strlit("dracula");
    reveal_strlit("nord");
    reveal_strlit("gruvbox");
    reveal_strlit("gruvbox-light");
    reveal_strlit("one-dark");
    reveal_strlit("one-light");
    reveal_strlit("solarized");
    reveal_strlit("solarized-light");
    reveal_strlit("github-light");
    reveal_strlit("monokai");
    reveal_strlit("tokyo-night");
    reveal_strlit("tokyo-night-day");
    reveal_strlit("rose-pine");
    reveal_strlit("rose-pine-dawn");
    assert(resolve_spec(names_spec()[0]) matches Some(t) && t.0 == names_spec()[0]);
    assert(resolve_spec(names_spec()[1]) matches Some(t) && t.0 == names_spec()[1]);
    assert(resolve_spec(names_spec()[2]) matches Some(t) && t.0 == names_spec()[2]);
    assert(resolve_spec(names_spec()[3]) matches Some(t) && t.0 == names_spec()[3]);
    assert(resolve_spec(names_spec()[4]) matches Some(t) && t.0 == names_spec()[4]);
    assert(resolve_spec(names_spec()[5]) matches Some(t) && t.0 == names_spec()[5]);
    assert(resolve_spec(names_spec()[6]) matches Some(t) && t.0 == names_spec()[6]);
    assert(resolve_spec(names_spec()[7]) matches Some(t) && t.0 == names_spec()[7]);
    assert(resolve_spec(names_spec()[8]) matches Some(t) && t.0 == names_spec()[8]);
    assert(resolve_spec(names_spec()[9]) matches Some(t) && t.0 == names_spec()[9]);
    assert(resolve_spec(names_spec()[10]) matches Some(t) && t.0 == names_spec()[10]);
    assert(resolve_spec(names_spec()[11]) matches Some(t) && t.0 == names_spec()[11]);
    assert(resolve_spec(names_spec()[12]) matches Some(t) && t.0 == names_spec()[12]);
    assert(resolve_spec(names_spec()[13]) matches Some(t) && t.0 == names_spec()[13]);
    assert(resolve_spec(names_spec()[14]) matches Some(t) && t.0 == names_spec()[14]);
    assert(resolve_spec(names_spec()[15]) matches Some(t) && t.0 == names_spec()[15]);
    assert(resolve_spec(names_spec()[16]) matches Some(t) && t.0 == names_spec()[16]);
    assert(resolve_spec(names_spec()[17]) matches Some(t) && t.0 == names_spec()[17]);
    assert(resolve_spec(names_spec()[18]) matches Some(t) && t.0 == names_spec()[18]);
}

/// Whether a theme's four accents — code, bold, headings, links — are four different colors.
pub open spec fn accents_apart(a: Anchors) -> bool {
    &&& a.code != a.strong
    &&& a.code != a.heading
    &&& a.code != a.link
    &&& a.strong != a.heading
    &&& a.strong != a.link
    &&& a.heading != a.link
}

/// Four accents, four jobs: in every theme the picker offers, inline code, bold text,
/// headings and links each get a color of their own, so no two constructs read alike.
pub proof fn law_every_accent_is_a_hue_of_its_own()
    ensures
        forall|i: int|
            0 <= i < names_spec().len() ==> (resolve_spec(#[trigger] names_spec()[i]) matches Some(t) && accents_apart(t.3)),
{
    reveal_strlit("vs-dark-plus");
    reveal_strlit("catppuccin");
    reveal_strlit("catppuccin-latte");
    reveal_strlit("catppuccin-frappe");
    reveal_strlit("catppuccin-macchiato");
    reveal_strlit("dracula");
    reveal_strlit("nord");
    reveal_strlit("gruvbox");
    reveal_strlit("gruvbox-light");
    reveal_strlit("one-dark");
    reveal_strlit("one-light");
    reveal_strlit("solarized");
    reveal_strlit("solarized-light");
    reveal_strlit("github-light");
    reveal_strlit("monokai");
    reveal_strlit("tokyo-night");
    reveal_strlit("tokyo-night-day");
    reveal_strlit("rose-pine");
    reveal_strlit("rose-pine-dawn");
    assert(resolve_spec(names_spec()[0]) is Some && accents_apart(resolve_spec(names_spec()[0]).unwrap().3));
    assert(resolve_spec(names_spec()[1]) is Some && accents_apart(resolve_spec(names_spec()[1]).unwrap().3));
    assert(resolve_spec(names_spec()[2]) is Some && accents_apart(resolve_spec(names_spec()[2]).unwrap().3));
    assert(resolve_spec(names_spec()[3]) is Some && accents_apart(resolve_spec(names_spec()[3]).unwrap().3));
    assert(resolve_spec(names_spec()[4]) is Some && accents_apart(resolve_spec(names_spec()[4]).unwrap().3));
    assert(resolve_spec(names_spec()[5]) is Some && accents_apart(resolve_spec(names_spec()[5]).unwrap().3));
    assert(resolve_spec(names_spec()[6]) is Some && accents_apart(resolve_spec(names_spec()[6]).unwrap().3));
    assert(resolve_spec(names_spec()[7]) is Some && accents_apart(resolve_spec(names_spec()[7]).unwrap().3));
    assert(resolve_spec(names_spec()[8]) is Some && accents_apart(resolve_spec(names_spec()[8]).unwrap().3));
    assert(resolve_spec(names_spec()[9]) is Some && accents_apart(resolve_spec(names_spec()[9]).unwrap().3));
    assert(resolve_spec(names_spec()[10]) is Some && accents_apart(resolve_spec(names_spec()[10]).unwrap().3));
    assert(resolve_spec(names_spec()[11]) is Some && accents_apart(resolve_spec(names_spec()[11]).unwrap().3));
    assert(resolve_spec(names_spec()[12]) is Some && accents_apart(resolve_spec(names_spec()[12]).unwrap().3));
    assert(resolve_spec(names_spec()[13]) is Some && accents_apart(resolve_spec(names_spec()[13]).unwrap().3));
    assert(resolve_spec(names_spec()[14]) is Some && accents_apart(resolve_spec(names_spec()[14]).unwrap().3));
    assert(resolve_spec(names_spec()[15]) is Some && accents_apart(resolve_spec(names_spec()[15]).unwrap().3));
    assert(resolve_spec(names_spec()[16]) is Some && accents_apart(resolve_spec(names_spec()[16]).unwrap().3));
    assert(resolve_spec(names_spec()[17]) is Some && accents_apart(resolve_spec(names_spec()[17]).unwrap().3));
    assert(resolve_spec(names_spec()[18]) is Some && accents_apart(resolve_spec(names_spec()[18]).unwrap().3));
}

} // verus!
