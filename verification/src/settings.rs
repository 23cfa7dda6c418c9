//! User preferences: theme, where the properties panel sits, how pages are
//! aligned and scrolled, and the unit of the coordinate fields.
use vstd::prelude::*;

verus! {

/// The colour theme.
#[derive(Debug, Clone, Copy, PartialEq, Eq, Structural)]
pub enum Theme {
    Light,
    DarkClassic,
    DarkCalm,
}

impl Theme {
    /// Every theme, in menu order.
    pub fn all() -> (r: [Theme; 3])
        ensures
            r@ == seq![Theme::Light, Theme::DarkClassic, Theme::DarkCalm],
    {
        let r = [Theme::Light, Theme::DarkClassic, Theme::DarkCalm];
        assert(r@ =~= seq![Theme::Light, Theme::DarkClassic, Theme::DarkCalm]);
        r
    }
}

impl Default for Theme {
    fn default() -> (t: Self)
        ensures
            t == Theme::Light,
    {
        Theme::Light
    }
}

/// Where the properties panel is docked.
#[derive(Debug, Clone, Copy, PartialEq, Eq, Structural)]
pub enum PanelSide {
    Right,
    Left,
    Bottom,
}

impl PanelSide {
    /// Every side, in menu order.
    pub fn all() -> (r: [PanelSide; 3])
        ensures
            r@ == seq![PanelSide::Right, PanelSide::Left, PanelSide::Bottom],
    {
        let r = [PanelSide::Right, PanelSide::Left, PanelSide::Bottom];
        assert(r@ =~= seq![PanelSide::Right, PanelSide::Left, PanelSide::Bottom]);
        r
    }
}

/// How the paper is placed horizontally in the canvas.
#[derive(Debug, Clone, Copy, PartialEq, Eq, Structural)]
pub enum PageAlign {
    Left,
    Center,
    Right,
}

/// Whether scrolling past a page's edge moves to the next page.
#[derive(Debug, Clone, Copy, PartialEq, Eq, Structural)]
pub enum ScrollMode {
    Continuous,
    PageByPage,
}

/// The unit of the coordinate fields.
#[derive(Debug, Clone, Copy, PartialEq, Eq, Structural)]
pub enum Units {
    Cm,
    Mm,
    Pt,
    Inch,
}

impl Units {
    /// Every unit, in menu order.
    pub fn all() -> (r: [Units; 4])
        ensures
            r@ == seq![Units::Cm, Units::Mm, Units::Pt, Units::Inch],
    {
        let r = [Units::Cm, Units::Mm, Units::Pt, Units::Inch];
        assert(r@ =~= seq![Units::Cm, Units::Mm, Units::Pt, Units::Inch]);
        r
    }
}

/// The stored preferences.
#[derive(Debug, Clone, Copy, PartialEq, Eq, Structural)]
pub struct Settings {
    pub theme: Theme,
    pub panel_side: PanelSide,
    pub page_align: PageAlign,
    pub scroll_mode: ScrollMode,
    pub units: Units,
}

impl Settings {
    /// The preferences before anything was stored.
    pub open spec fn is_default(self) -> bool {
        &&& self.theme == Theme::Light
        &&& self.panel_side == PanelSide::Right
        &&& self.page_align == PageAlign::Center
        &&& self.scroll_mode == ScrollMode::Continuous
        &&& self.units == Units::Cm
    }
}

impl Default for Settings {
    fn default() -> (s: Self)
        ensures
            s.is_default(),
    {
        Settings {
            theme: Theme::Light,
            panel_side: PanelSide::Right,
            page_align: PageAlign::Center,
            scroll_mode: ScrollMode::Continuous,
            units: Units::Cm,
        }
    }
}

/// The preferences to start with: the stored ones, except that on a
/// mobile device a panel on the right moves to the bottom.
pub fn load_or_detect(loaded: Settings, mobile: bool) -> (s: Settings)
    ensures
        s.theme == loaded.theme,
        s.page_align == loaded.page_align,
        s.scroll_mode == loaded.scroll_mode,
        s.units == loaded.units,
        s.panel_side == (if mobile && loaded.panel_side == PanelSide::Right {
            PanelSide::Bottom
        } else {
            loaded.panel_side
        }),
{
    let mut s = loaded;
    if mobile && s.panel_side == PanelSide::Right {
        s.panel_side = PanelSide::Bottom;
    }
    s
}

} // verus!
