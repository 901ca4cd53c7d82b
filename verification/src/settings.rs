//! User settings: colour theme, Greek font, interface language and the
//! answer-checking and display switches.
use vstd::prelude::*;

verus! {

/// Colour theme of the interface.
#[derive(Debug, Clone, Copy, PartialEq, Eq, Hash, Structural)]
pub enum Theme {
    GruvboxLight,
    GruvboxDark,
    DraculaLight,
    DraculaDark,
    NordLight,
    NordDark,
    Base16Darkmoss,
    Base16Everforest,
    Base16RosePine,
    Base16TokyoNight,
    Base16Kanagawa,
    PinkPastelLight,
    PinkPastelDark,
    SeriousBlueLight,
    SeriousBlueDark,
}

pub open spec fn theme_data_attr(x: Theme) -> Seq<char> {
    match x {
        Theme::GruvboxLight => "gruvbox-light"@,
        Theme::GruvboxDark => "gruvbox-dark"@,
        Theme::DraculaLight => "dracula-light"@,
        Theme::DraculaDark => "dracula-dark"@,
        Theme::NordLight => "nord-light"@,
        Theme::NordDark => "nord-dark"@,
        Theme::Base16Darkmoss => "base16-darkmoss"@,
        Theme::Base16Everforest => "base16-everforest"@,
        Theme::Base16RosePine => "base16-rose-pine"@,
        Theme::Base16TokyoNight => "base16-tokyo-night"@,
        Theme::Base16Kanagawa => "base16-kanagawa"@,
        Theme::PinkPastelLight => "catppuccin-latte"@,
        Theme::PinkPastelDark => "catppuccin-mocha"@,
        Theme::SeriousBlueLight => "solarized-light"@,
        Theme::SeriousBlueDark => "solarized-dark"@,
    }
}

pub open spec fn theme_label(x: Theme) -> Seq<char> {
    match x {
        Theme::GruvboxLight => "Gruvbox Light"@,
        Theme::GruvboxDark => "Gruvbox Dark"@,
        Theme::DraculaLight => "Dracula Light"@,
        Theme::DraculaDark => "Dracula Dark"@,
        Theme::NordLight => "Nord Light"@,
        Theme::NordDark => "Nord Dark"@,
        Theme::Base16Darkmoss => "Darkmoss"@,
        Theme::Base16Everforest => "Everforest Dark"@,
        Theme::Base16RosePine => "Rosé Pine"@,
        Theme::Base16TokyoNight => "Tokyo Night"@,
        Theme::Base16Kanagawa => "Kanagawa"@,
        Theme::PinkPastelLight => "Catppuccin Latte"@,
        Theme::PinkPastelDark => "Catppuccin Mocha"@,
        Theme::SeriousBlueLight => "Solarized Light"@,
        Theme::SeriousBlueDark => "Solarized Dark"@,
    }
}

pub open spec fn theme_all() -> Seq<Theme> {
    seq![Theme::GruvboxLight, Theme::GruvboxDark, Theme::DraculaLight, Theme::DraculaDark, Theme::NordLight, Theme::NordDark, Theme::Base16Darkmoss, Theme::Base16Everforest, Theme::Base16RosePine, Theme::Base16TokyoNight, Theme::Base16Kanagawa, Theme::PinkPastelLight, Theme::PinkPastelDark, Theme::SeriousBlueLight, Theme::SeriousBlueDark]
}

/// The position of a theme in the list of all themes.
pub open spec fn theme_index(t: Theme) -> int {
    match t {
        Theme::GruvboxLight => 0,
        Theme::GruvboxDark => 1,
        Theme::DraculaLight => 2,
        Theme::DraculaDark => 3,
        Theme::NordLight => 4,
        Theme::NordDark => 5,
        Theme::Base16Darkmoss => 6,
        Theme::Base16Everforest => 7,
        Theme::Base16RosePine => 8,
        Theme::Base16TokyoNight => 9,
        Theme::Base16Kanagawa => 10,
        Theme::PinkPastelLight => 11,
        Theme::PinkPastelDark => 12,
        Theme::SeriousBlueLight => 13,
        Theme::SeriousBlueDark => 14,
    }
}

fn theme_position(t: &Theme) -> (r: usize)
    ensures
        r == theme_index(*t),
{
    match t {
        Theme::GruvboxLight => 0,
        Theme::GruvboxDark => 1,
        Theme::DraculaLight => 2,
        Theme::DraculaDark => 3,
        Theme::NordLight => 4,
        Theme::NordDark => 5,
        Theme::Base16Darkmoss => 6,
        Theme::Base16Everforest => 7,
        Theme::Base16RosePine => 8,
        Theme::Base16TokyoNight => 9,
        Theme::Base16Kanagawa => 10,
        Theme::PinkPastelLight => 11,
        Theme::PinkPastelDark => 12,
        Theme::SeriousBlueLight => 13,
        Theme::SeriousBlueDark => 14,
    }
}

/// The theme after `t` in the list, the first after the last.
pub open spec fn theme_after(t: Theme) -> Theme {
    theme_all()[(theme_index(t) + 1) % 15]
}

/// The theme before `t` in the list, the last before the first.
pub open spec fn theme_before(t: Theme) -> Theme {
    theme_all()[if theme_index(t) == 0 {
        14
    } else {
        theme_index(t) - 1
    }]
}

proof fn lemma_theme_list()
    ensures
        theme_all().len() == 15,
        forall|k: int| 0 <= k < 15 ==> theme_index(#[trigger] theme_all()[k]) == k,
        forall|t: Theme| theme_all()[#[trigger] theme_index(t)] == t,
        forall|t: Theme| 0 <= #[trigger] theme_index(t) < 15,
{
    assert(theme_all()[0] == Theme::GruvboxLight);
    assert(theme_all()[1] == Theme::GruvboxDark);
    assert(theme_all()[2] == Theme::DraculaLight);
    assert(theme_all()[3] == Theme::DraculaDark);
    assert(theme_all()[4] == Theme::NordLight);
    assert(theme_all()[5] == Theme::NordDark);
    assert(theme_all()[6] == Theme::Base16Darkmoss);
    assert(theme_all()[7] == Theme::Base16Everforest);
    assert(theme_all()[8] == Theme::Base16RosePine);
    assert(theme_all()[9] == Theme::Base16TokyoNight);
    assert(theme_all()[10] == Theme::Base16Kanagawa);
    assert(theme_all()[11] == Theme::PinkPastelLight);
    assert(theme_all()[12] == Theme::PinkPastelDark);
    assert(theme_all()[13] == Theme::SeriousBlueLight);
    assert(theme_all()[14] == Theme::SeriousBlueDark);
}

impl Theme {
    /// The next theme of the theme switcher.
    pub fn next(&self) -> (r: Theme)
        ensures
            r == theme_after(*self),
    {
        proof {
            lemma_theme_list();
        }
        let all = Theme::all();
        let i = theme_position(self);
        all[(i + 1) % all.len()]
    }

    /// The previous theme of the theme switcher.
    pub fn prev(&self) -> (r: Theme)
        ensures
            r == theme_before(*self),
    {
        proof {
            lemma_theme_list();
        }
        let all = Theme::all();
        let i = theme_position(self);
        let p = if i == 0 {
            all.len() - 1
        } else {
            i - 1
        };
        all[p]
    }
}

/// Stepping the theme switcher forward and then back, or back and then
/// forward, returns to the theme one started from; every step stays in the
/// list of themes.
pub proof fn lemma_theme_cycle(t: Theme)
    ensures
        theme_before(theme_after(t)) == t,
        theme_after(theme_before(t)) == t,
        theme_all().contains(theme_after(t)),
        theme_all().contains(theme_before(t)),
{
    lemma_theme_list();
    let i = theme_index(t);
    let a = (i + 1) % 15;
    let b = if i == 0 {
        14
    } else {
        i - 1
    };
    assert(theme_index(theme_all()[a]) == a);
    assert(theme_index(theme_all()[b]) == b);
}

impl Theme {
    pub fn data_attr(&self) -> (r: &'static str)
        ensures
            r@ == theme_data_attr(*self),
    {
        match self {
            Theme::GruvboxLight => "gruvbox-light",
            Theme::GruvboxDark => "gruvbox-dark",
            Theme::DraculaLight => "dracula-light",
            Theme::DraculaDark => "dracula-dark",
            Theme::NordLight => "nord-light",
            Theme::NordDark => "nord-dark",
            Theme::Base16Darkmoss => "base16-darkmoss",
            Theme::Base16Everforest => "base16-everforest",
            Theme::Base16RosePine => "base16-rose-pine",
            Theme::Base16TokyoNight => "base16-tokyo-night",
            Theme::Base16Kanagawa => "base16-kanagawa",
            Theme::PinkPastelLight => "catppuccin-latte",
            Theme::PinkPastelDark => "catppuccin-mocha",
            Theme::SeriousBlueLight => "solarized-light",
            Theme::SeriousBlueDark => "solarized-dark",
        }
    }

    pub fn label(&self) -> (r: &'static str)
        ensures
            r@ == theme_label(*self),
    {
        match self {
            Theme::GruvboxLight => "Gruvbox Light",
            Theme::GruvboxDark => "Gruvbox Dark",
            Theme::DraculaLight => "Dracula Light",
            Theme::DraculaDark => "Dracula Dark",
            Theme::NordLight => "Nord Light",
            Theme::NordDark => "Nord Dark",
            Theme::Base16Darkmoss => "Darkmoss",
            Theme::Base16Everforest => "Everforest Dark",
            Theme::Base16RosePine => "Rosé Pine",
            Theme::Base16TokyoNight => "Tokyo Night",
            Theme::Base16Kanagawa => "Kanagawa",
            Theme::PinkPastelLight => "Catppuccin Latte",
            Theme::PinkPastelDark => "Catppuccin Mocha",
            Theme::SeriousBlueLight => "Solarized Light",
            Theme::SeriousBlueDark => "Solarized Dark",
        }
    }

    pub fn all() -> (r: &'static [Theme])
        ensures
            r@ == theme_all(),
    {
        &[Theme::GruvboxLight, Theme::GruvboxDark, Theme::DraculaLight, Theme::DraculaDark, Theme::NordLight, Theme::NordDark, Theme::Base16Darkmoss, Theme::Base16Everforest, Theme::Base16RosePine, Theme::Base16TokyoNight, Theme::Base16Kanagawa, Theme::PinkPastelLight, Theme::PinkPastelDark, Theme::SeriousBlueLight, Theme::SeriousBlueDark]
    }
}

impl Default for Theme {
    fn default() -> (r: Theme)
        ensures
            r == Theme::GruvboxLight,
    {
        Theme::GruvboxLight
    }
}

/// Font used for Greek text.
#[derive(Debug, Clone, Copy, PartialEq, Eq, Hash, Structural)]
pub enum GreekFont {
    GfsDidot,
    GfsNeohellenic,
    NotoSerifGreek,
    Cardo,
    GentiumPlus,
}

pub open spec fn greek_font_css_family(x: GreekFont) -> Seq<char> {
    match x {
        GreekFont::GfsDidot => "'Noto Serif', serif"@,
        GreekFont::GfsNeohellenic => "'Noto Sans', sans-serif"@,
        GreekFont::NotoSerifGreek => "'Literata', serif"@,
        GreekFont::Cardo => "'Lora', serif"@,
        GreekFont::GentiumPlus => "'Crimson Pro', serif"@,
    }
}

pub open spec fn greek_font_label(x: GreekFont) -> Seq<char> {
    match x {
        GreekFont::GfsDidot => "Noto Serif"@,
        GreekFont::GfsNeohellenic => "Noto Sans"@,
        GreekFont::NotoSerifGreek => "Literata"@,
        GreekFont::Cardo => "Lora"@,
        GreekFont::GentiumPlus => "Crimson Pro"@,
    }
}

pub open spec fn greek_font_all() -> Seq<GreekFont> {
    seq![GreekFont::GfsDidot, GreekFont::GfsNeohellenic, GreekFont::NotoSerifGreek, GreekFont::Cardo, GreekFont::GentiumPlus]
}

impl GreekFont {
    pub fn css_family(&self) -> (r: &'static str)
        ensures
            r@ == greek_font_css_family(*self),
    {
        match self {
            GreekFont::GfsDidot => "'Noto Serif', serif",
            GreekFont::GfsNeohellenic => "'Noto Sans', sans-serif",
            GreekFont::NotoSerifGreek => "'Literata', serif",
            GreekFont::Cardo => "'Lora', serif",
            GreekFont::GentiumPlus => "'Crimson Pro', serif",
        }
    }

    pub fn label(&self) -> (r: &'static str)
        ensures
            r@ == greek_font_label(*self),
    {
        match self {
            GreekFont::GfsDidot => "Noto Serif",
            GreekFont::GfsNeohellenic => "Noto Sans",
            GreekFont::NotoSerifGreek => "Literata",
            GreekFont::Cardo => "Lora",
            GreekFont::GentiumPlus => "Crimson Pro",
        }
    }

    pub fn all() -> (r: &'static [GreekFont])
        ensures
            r@ == greek_font_all(),
    {
        &[GreekFont::GfsDidot, GreekFont::GfsNeohellenic, GreekFont::NotoSerifGreek, GreekFont::Cardo, GreekFont::GentiumPlus]
    }
}

impl Default for GreekFont {
    fn default() -> (r: GreekFont)
        ensures
            r == GreekFont::GfsDidot,
    {
        GreekFont::GfsDidot
    }
}

/// Interface language.
#[derive(Debug, Clone, Copy, PartialEq, Eq, Hash, Structural)]
pub enum UiLanguage {
    Ru,
    En,
}

impl Default for UiLanguage {
    fn default() -> (r: UiLanguage)
        ensures
            r == UiLanguage::Ru,
    {
        UiLanguage::Ru
    }
}

/// Persistent user settings.
#[derive(Debug, Clone, Copy, PartialEq, Eq, Structural)]
pub struct Settings {
    pub theme: Theme,
    pub greek_font: GreekFont,
    pub language: UiLanguage,
    pub ignore_diacritics: bool,
    pub has_diacritic_keyboard: bool,
    pub show_transliteration: bool,
    pub show_translation: bool,
    pub include_dual: bool,
    /// First launch done (onboarding seen).
    pub onboarding_done: bool,
}

/// The settings of a first launch.
pub open spec fn default_settings() -> Settings {
    Settings {
        theme: Theme::GruvboxLight,
        greek_font: GreekFont::GfsDidot,
        language: UiLanguage::Ru,
        ignore_diacritics: false,
        has_diacritic_keyboard: false,
        show_transliteration: false,
        show_translation: true,
        include_dual: false,
        onboarding_done: false,
    }
}

impl Default for Settings {
    fn default() -> (r: Settings)
        ensures
            r == default_settings(),
    {
        Settings {
            theme: Theme::GruvboxLight,
            greek_font: GreekFont::GfsDidot,
            language: UiLanguage::Ru,
            ignore_diacritics: false,
            has_diacritic_keyboard: false,
            show_transliteration: false,
            show_translation: true,
            include_dual: false,
            onboarding_done: false,
        }
    }
}

/// Which side panels are open.
#[derive(Debug, Clone, Copy, PartialEq, Eq, Structural)]
pub struct SidePanels {
    pub filters_open: bool,
    pub settings_open: bool,
}

impl SidePanels {
    /// Both panels closed.
    pub fn closed() -> (r: SidePanels)
        ensures
            !r.filters_open,
            !r.settings_open,
    {
        SidePanels { filters_open: false, settings_open: false }
    }

    /// Open or close the filter panel; when it opens over the page (narrow
    /// layout) the settings panel closes.
    pub fn toggle_filters(&mut self, overlay: bool)
        ensures
            final(self).filters_open == !old(self).filters_open,
            final(self).settings_open == (old(self).settings_open && !(final(self).filters_open
                && overlay)),
    {
        self.filters_open = !self.filters_open;
        if self.filters_open && overlay {
            self.settings_open = false;
        }
    }

    /// Open or close the settings panel; when it opens over the page the
    /// filter panel closes.
    pub fn toggle_settings(&mut self, overlay: bool)
        ensures
            final(self).settings_open == !old(self).settings_open,
            final(self).filters_open == (old(self).filters_open && !(final(self).settings_open
                && overlay)),
    {
        self.settings_open = !self.settings_open;
        if self.settings_open && overlay {
            self.filters_open = false;
        }
    }
}

/// In the narrow layout, after either toggle at most one panel is open.
pub proof fn lemma_overlay_one_panel(p: SidePanels, filters: bool)
    ensures
        ({
            let q = if filters {
                SidePanels {
                    filters_open: !p.filters_open,
                    settings_open: p.settings_open && p.filters_open,
                }
            } else {
                SidePanels {
                    filters_open: p.filters_open && p.settings_open,
                    settings_open: !p.settings_open,
                }
            };
            !(q.filters_open && q.settings_open)
        }),
{
}

} // verus!
