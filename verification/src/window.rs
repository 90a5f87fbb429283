//! The window: its two modes, where each of them stands, and maximizing.

use vstd::prelude::*;

use crate::text;

verus! {

/// While the window is dragged, its place is written down this often, in
/// nanoseconds.
pub const SAVE_EVERY_NS: u64 = 2_000_000_000;

/// How the window is shown: as the full panel, or as a small floating one.
#[derive(Clone, Copy, Debug, PartialEq, Eq, Structural)]
pub enum Mode {
    Full,
    Float,
}

impl Mode {
    pub open spec fn name(self) -> Seq<char> {
        match self {
            Mode::Full => "full"@,
            Mode::Float => "float"@,
        }
    }

    pub fn as_str(self) -> (s: &'static str)
        ensures
            s@ == self.name(),
    {
        match self {
            Mode::Full => "full",
            Mode::Float => "float",
        }
    }

    /// The mode that a text names; every other text means the full panel.
    pub open spec fn named(s: Seq<char>) -> Mode {
        if text::trimmed(s) == "float"@ {
            Mode::Float
        } else {
            Mode::Full
        }
    }

    pub fn parse(s: &str) -> (m: Mode)
        ensures
            m == Mode::named(s@),
    {
        let t: String = text::trim(s);
        if text::same(t.as_str(), "float") {
            Mode::Float
        } else {
            Mode::Full
        }
    }

    /// The other mode.
    pub open spec fn other(self) -> Mode {
        match self {
            Mode::Full => Mode::Float,
            Mode::Float => Mode::Full,
        }
    }

    pub fn toggled(self) -> (m: Mode)
        ensures
            m == self.other(),
    {
        match self {
            Mode::Full => Mode::Float,
            Mode::Float => Mode::Full,
        }
    }
}

/// What the floating window looks like.
#[derive(Clone, Copy, Debug, PartialEq, Eq, Structural)]
pub enum FloatStyle {
    Gauge,
    Pill,
    Pet,
}

impl FloatStyle {
    pub open spec fn name(self) -> Seq<char> {
        match self {
            FloatStyle::Gauge => "gauge"@,
            FloatStyle::Pill => "pill"@,
            FloatStyle::Pet => "pet"@,
        }
    }

    pub fn as_str(self) -> (s: &'static str)
        ensures
            s@ == self.name(),
    {
        match self {
            FloatStyle::Gauge => "gauge",
            FloatStyle::Pill => "pill",
            FloatStyle::Pet => "pet",
        }
    }

    /// The style that a text names; every other text means the gauge.
    pub open spec fn named(s: Seq<char>) -> FloatStyle {
        if text::trimmed(s) == "pill"@ {
            FloatStyle::Pill
        } else if text::trimmed(s) == "pet"@ {
            FloatStyle::Pet
        } else {
            FloatStyle::Gauge
        }
    }

    pub fn parse(s: &str) -> (f: FloatStyle)
        ensures
            f == FloatStyle::named(s@),
    {
        let t: String = text::trim(s);
        if text::same(t.as_str(), "pill") {
            FloatStyle::Pill
        } else if text::same(t.as_str(), "pet") {
            FloatStyle::Pet
        } else {
            FloatStyle::Gauge
        }
    }
}

/// What is remembered of the window from run to run.
#[derive(Debug)]
pub struct Persisted {
    pub mode: String,
    pub style: String,
    /// Where the full panel stood last, in physical pixels.
    pub full_pos: Option<(i32, i32)>,
    /// Where the floating window stood last, in physical pixels.
    pub float_pos: Option<(i32, i32)>,
}

impl Persisted {
    /// Nothing is remembered but a mode.
    pub open spec fn only_mode(self, mode: Seq<char>) -> bool {
        self.mode@ == mode && self.style@ == ""@ && self.full_pos is None && self.float_pos is None
    }
}

/// What is remembered, by the text of the file and by what it was read as. A text
/// that could not be read is the name of a mode and nothing else.
pub fn load_persisted(raw: Option<String>, parsed: Option<Persisted>) -> (p: Persisted)
    ensures
        raw is Some && parsed is Some ==> p == parsed->0,
        raw is Some && parsed is None ==> p.only_mode(raw->0@),
        raw is None ==> p.only_mode(""@),
{
    match raw {
        Some(s) => match parsed {
            Some(p) => p,
            None => Persisted { mode: s, style: "".to_owned(), full_pos: None, float_pos: None },
        },
        None => Persisted {
            mode: "".to_owned(),
            style: "".to_owned(),
            full_pos: None,
            float_pos: None,
        },
    }
}

/// A rectangle in physical pixels.
#[derive(Clone, Copy, Debug, PartialEq, Eq, Structural)]
pub struct Rect {
    pub x: i32,
    pub y: i32,
    pub w: u32,
    pub h: u32,
}

/// The nearest value of 32 bits.
pub open spec fn to_i32(n: int) -> i32 {
    if n > i32::MAX {
        i32::MAX
    } else if n < i32::MIN {
        i32::MIN
    } else {
        n as i32
    }
}

fn clamp_i32(n: i64) -> (r: i32)
    ensures
        r == to_i32(n as int),
{
    if n > i32::MAX as i64 {
        i32::MAX
    } else if n < i32::MIN as i64 {
        i32::MIN
    } else {
        n as i32
    }
}

/// The place nearest to `at` from which `len` pixels do not reach beyond the
/// screen, which is `size` long from `start` on. What is longer than the screen
/// begins where the screen does.
pub open spec fn held_in(at: int, len: int, start: int, size: int) -> int {
    let last = if start + size - len > start {
        start + size - len
    } else {
        start
    };
    if at < start {
        start
    } else if at > last {
        last
    } else {
        at
    }
}

fn hold(at: i32, len: u32, start: i32, size: u32) -> (r: i32)
    ensures
        r == held_in(at as int, len as int, start as int, size as int),
{
    let room: i64 = start as i64 + size as i64 - len as i64;
    let last: i64 = if room > start as i64 {
        room
    } else {
        start as i64
    };
    if at < start {
        start
    } else if at as i64 > last {
        last as i32
    } else {
        at
    }
}

/// Where a window of `w` by `h` pixels that is to stand at `x`, `y` is put so that
/// it is seen whole. Without a known screen it stays.
pub open spec fn on_screen(screen: Option<Rect>, x: i32, y: i32, w: u32, h: u32) -> (int, int) {
    match screen {
        Some(m) => (
            held_in(x as int, w as int, m.x as int, m.w as int),
            held_in(y as int, h as int, m.y as int, m.h as int),
        ),
        None => (x as int, y as int),
    }
}

pub fn clamp_to_screen(screen: Option<Rect>, x: i32, y: i32, w: u32, h: u32) -> (r: (i32, i32))
    ensures
        (r.0 as int, r.1 as int) == on_screen(screen, x, y, w, h),
{
    match screen {
        Some(m) => (hold(x, w, m.x, m.w), hold(y, h, m.y, m.h)),
        None => (x, y),
    }
}

/// The size of the window in logical pixels.
#[derive(Clone, Copy, Debug, PartialEq, Eq, Structural)]
pub enum WindowSize {
    Fixed { w: u32, h: u32 },
    /// The side that was chosen for the pet.
    Pet,
}

/// How a window of some mode is set up.
#[derive(Clone, Copy, Debug, PartialEq, Eq)]
pub struct WindowPlan {
    pub min_size: Option<(u32, u32)>,
    pub size: WindowSize,
    pub resizable: bool,
    pub always_on_top: bool,
    pub skip_taskbar: bool,
    pub shadow: bool,
}

/// The full panel can be resized and stands in the task bar; the floating window
/// stays on top, out of the task bar, and casts no shadow.
pub open spec fn planned(mode: Mode, style: FloatStyle) -> WindowPlan {
    match mode {
        Mode::Full => WindowPlan {
            min_size: Some((720, 520)),
            size: WindowSize::Fixed { w: 1000, h: 700 },
            resizable: true,
            always_on_top: false,
            skip_taskbar: false,
            shadow: true,
        },
        Mode::Float => WindowPlan {
            min_size: None,
            size: match style {
                FloatStyle::Gauge => WindowSize::Fixed { w: 116, h: 116 },
                FloatStyle::Pill => WindowSize::Fixed { w: 224, h: 78 },
                FloatStyle::Pet => WindowSize::Pet,
            },
            resizable: false,
            always_on_top: true,
            skip_taskbar: true,
            shadow: false,
        },
    }
}

pub fn plan(mode: Mode, style: FloatStyle) -> (p: WindowPlan)
    ensures
        p == planned(mode, style),
{
    match mode {
        Mode::Full => WindowPlan {
            min_size: Some((720, 520)),
            size: WindowSize::Fixed { w: 1000, h: 700 },
            resizable: true,
            always_on_top: false,
            skip_taskbar: false,
            shadow: true,
        },
        Mode::Float => WindowPlan {
            min_size: None,
            size: match style {
                FloatStyle::Gauge => WindowSize::Fixed { w: 116, h: 116 },
                FloatStyle::Pill => WindowSize::Fixed { w: 224, h: 78 },
                FloatStyle::Pet => WindowSize::Pet,
            },
            resizable: false,
            always_on_top: true,
            skip_taskbar: true,
            shadow: false,
        },
    }
}

/// Where a window of `w` by `h` pixels stands when it is centred on another.
pub open spec fn centred_on(r: Rect, w: u32, h: u32) -> (i32, i32) {
    (
        to_i32(r.x + (r.w / 2) as int - (w / 2) as int),
        to_i32(r.y + (r.h / 2) as int - (h / 2) as int),
    )
}

/// The middle of a rectangle.
pub open spec fn middle(r: Rect) -> (i32, i32) {
    (to_i32(r.x + (r.w / 2) as int), to_i32(r.y + (r.h / 2) as int))
}

pub fn centre(r: &Rect) -> (c: (i32, i32))
    ensures
        c == middle(*r),
{
    (clamp_i32(r.x as i64 + (r.w / 2) as i64), clamp_i32(r.y as i64 + (r.h / 2) as i64))
}

/// What is to be done with the window when it is maximized or restored.
#[derive(Clone, Copy, Debug, PartialEq, Eq, Structural)]
pub enum MaximizeAction {
    /// Put it back.
    Restore { to: Rect },
    /// Fill the screen.
    Fill { to: Rect },
    /// Let the system maximize it, or restore it.
    System,
}

/// The state of the window.
#[derive(Clone, Copy, Debug, PartialEq, Eq)]
pub struct WindowState {
    pub mode: Mode,
    pub style: FloatStyle,
    pub full_pos: Option<(i32, i32)>,
    pub float_pos: Option<(i32, i32)>,
    /// Where the window stood before it was maximized.
    pub saved_max: Option<Rect>,
    /// When its place was last written down while it was dragged.
    pub last_pos_save: Option<u64>,
    /// Whether the hint on where to find the program is still to be given.
    pub hint_pending: bool,
}

impl WindowState {
    /// A window that was never shown. The hint is given on macOS only.
    pub fn new(macos: bool) -> (s: Self)
        ensures
            s == (WindowState {
                mode: Mode::Full,
                style: FloatStyle::Gauge,
                full_pos: None,
                float_pos: None,
                saved_max: None,
                last_pos_save: None,
                hint_pending: macos,
            }),
    {
        WindowState {
            mode: Mode::Full,
            style: FloatStyle::Gauge,
            full_pos: None,
            float_pos: None,
            saved_max: None,
            last_pos_save: None,
            hint_pending: macos,
        }
    }

    /// Takes over what was remembered.
    pub fn restore(&mut self, p: &Persisted)
        ensures
            *final(self) == (WindowState {
                mode: Mode::named(p.mode@),
                style: FloatStyle::named(p.style@),
                full_pos: p.full_pos,
                float_pos: p.float_pos,
                ..*old(self)
            }),
    {
        self.mode = Mode::parse(p.mode.as_str());
        self.style = FloatStyle::parse(p.style.as_str());
        self.full_pos = p.full_pos;
        self.float_pos = p.float_pos;
    }

    /// The state with a place remembered for its mode.
    pub open spec fn standing(self, pos: (i32, i32)) -> WindowState {
        match self.mode {
            Mode::Full => WindowState { full_pos: Some(pos), ..self },
            Mode::Float => WindowState { float_pos: Some(pos), ..self },
        }
    }

    fn remember(&mut self, pos: (i32, i32))
        ensures
            *final(self) == old(self).standing(pos),
    {
        match self.mode {
            Mode::Full => {
                self.full_pos = Some(pos);
            },
            Mode::Float => {
                self.float_pos = Some(pos);
            },
        }
    }

    /// The state after a switch to a mode, with the window at `pos` before.
    pub open spec fn switched(self, mode: Mode, pos: Option<(i32, i32)>) -> WindowState {
        let kept = match pos {
            Some(at) => self.standing(at),
            None => self,
        };
        WindowState {
            mode,
            saved_max: if mode == Mode::Float {
                None
            } else {
                self.saved_max
            },
            ..kept
        }
    }

    /// Switches to a mode. Where the window stood is remembered for the mode it
    /// leaves; a floating window is never restored from being maximized.
    pub fn switch_mode(&mut self, mode: Mode, pos: Option<(i32, i32)>)
        ensures
            *final(self) == old(self).switched(mode, pos),
    {
        if mode == Mode::Float {
            self.saved_max = None;
        }
        if let Some(at) = pos {
            self.remember(at);
        }
        self.mode = mode;
    }

    /// Whether closing the window turns it into the floating one. A floating
    /// window is brought to the front instead.
    pub fn collapse_switches(&self) -> (r: bool)
        ensures
            r == (self.mode == Mode::Full),
    {
        self.mode == Mode::Full
    }

    /// Where the window wants to stand: where it stood last in its mode. A
    /// floating window that never stood anywhere is centred on the present one, a
    /// full panel stays.
    pub open spec fn target(self, current: Rect, w: u32, h: u32) -> Option<(i32, i32)> {
        match self.mode {
            Mode::Full => self.full_pos,
            Mode::Float => match self.float_pos {
                Some(pos) => Some(pos),
                None => Some(centred_on(current, w, h)),
            },
        }
    }

    pub fn wanted_position(&self, current: &Rect, w: u32, h: u32) -> (r: Option<(i32, i32)>)
        ensures
            r == self.target(*current, w, h),
    {
        match self.mode {
            Mode::Full => self.full_pos,
            Mode::Float => match self.float_pos {
                Some(pos) => Some(pos),
                None => Some(
                    (
                        clamp_i32(current.x as i64 + (current.w / 2) as i64 - (w / 2) as i64),
                        clamp_i32(current.y as i64 + (current.h / 2) as i64 - (h / 2) as i64),
                    ),
                ),
            },
        }
    }

    /// Takes over a style and tells whether it changes the window now.
    pub fn set_float_style(&mut self, style: FloatStyle) -> (r: bool)
        ensures
            *final(self) == (WindowState { style, ..*old(self) }),
            r == (old(self).mode == Mode::Float),
    {
        self.style = style;
        self.mode == Mode::Float
    }

    /// Whether a new side of the pet changes the window now.
    pub fn pet_is_shown(&self) -> (r: bool)
        ensures
            r == (self.mode == Mode::Float && self.style == FloatStyle::Pet),
    {
        self.mode == Mode::Float && self.style == FloatStyle::Pet
    }

    /// Whether the place of the window is to be written down at `now_ns` while it
    /// is dragged.
    pub open spec fn wants_save(self, now_ns: u64) -> bool {
        match self.last_pos_save {
            Some(t) => now_ns - t > SAVE_EVERY_NS,
            None => true,
        }
    }

    /// Takes in that the window was moved, and tells whether to write down its
    /// place.
    pub fn on_window_moved(&mut self, pos: (i32, i32), now_ns: u64) -> (save: bool)
        ensures
            save == old(self).wants_save(now_ns),
            *final(self) == (WindowState {
                last_pos_save: if save {
                    Some(now_ns)
                } else {
                    old(self).last_pos_save
                },
                ..old(self).standing(pos)
            }),
    {
        self.remember(pos);
        let due: bool = match self.last_pos_save {
            Some(t) => now_ns.saturating_sub(t) > SAVE_EVERY_NS,
            None => true,
        };
        if due {
            self.last_pos_save = Some(now_ns);
        }
        due
    }

    /// Gives the hint on where to find the program, once.
    pub fn tray_hint_once(&mut self) -> (r: bool)
        ensures
            r == old(self).hint_pending,
            *final(self) == (WindowState { hint_pending: false, ..*old(self) }),
    {
        let pending: bool = self.hint_pending;
        self.hint_pending = false;
        pending
    }

    /// The screen below its menu bar.
    pub open spec fn below_menu(screen: Rect, top_margin: u32) -> Rect {
        Rect {
            x: screen.x,
            y: to_i32(screen.y + top_margin),
            w: screen.w,
            h: if screen.h > top_margin {
                (screen.h - top_margin) as u32
            } else {
                0
            },
        }
    }

    /// What a request to maximize or restore means on macOS, and what is
    /// remembered for the way back.
    pub open spec fn toggled_max(self, current: Rect, screen: Option<Rect>, top_margin: u32) -> (
        WindowState,
        MaximizeAction,
    ) {
        match self.saved_max {
            Some(to) => (WindowState { saved_max: None, ..self }, MaximizeAction::Restore { to }),
            None => (
                WindowState { saved_max: Some(current), ..self },
                match screen {
                    Some(m) => MaximizeAction::Fill { to: Self::below_menu(m, top_margin) },
                    None => MaximizeAction::System,
                },
            ),
        }
    }

    /// Maximizes or restores the window. On macOS it fills the screen it is on,
    /// below the menu bar, so that it does not jump to another; elsewhere the
    /// system does it.
    pub fn toggle_maximize_safe(
        &mut self,
        macos: bool,
        current: Rect,
        screen: Option<Rect>,
        top_margin: u32,
    ) -> (a: MaximizeAction)
        ensures
            (*final(self), a) == (if macos {
                old(self).toggled_max(current, screen, top_margin)
            } else {
                (*old(self), MaximizeAction::System)
            }),
    {
        if !macos {
            return MaximizeAction::System;
        }
        match self.saved_max {
            Some(to) => {
                self.saved_max = None;
                MaximizeAction::Restore { to }
            },
            None => {
                self.saved_max = Some(current);
                match screen {
                    Some(m) => {
                        let to: Rect = Rect {
                            x: m.x,
                            y: clamp_i32(m.y as i64 + top_margin as i64),
                            w: m.w,
                            h: m.h.saturating_sub(top_margin),
                        };
                        MaximizeAction::Fill { to }
                    },
                    None => MaximizeAction::System,
                }
            },
        }
    }
}

/// Whether a click on the tray hides the window: it is there to be seen.
pub fn click_hides(visible: bool, minimized: bool) -> (r: bool)
    ensures
        r == (visible && !minimized),
{
    visible && !minimized
}

/// Every mode is read back from its name.
pub proof fn mode_is_read_back(m: Mode)
    ensures
        Mode::named(m.name()) == m,
{
    reveal_strlit("full");
    reveal_strlit("float");
    text::lemma_trimmed_plain("full"@);
    text::lemma_trimmed_plain("float"@);
}

/// Every style is read back from its name.
pub proof fn style_is_read_back(f: FloatStyle)
    ensures
        FloatStyle::named(f.name()) == f,
{
    reveal_strlit("gauge");
    reveal_strlit("pill");
    reveal_strlit("pet");
    text::lemma_trimmed_plain("gauge"@);
    text::lemma_trimmed_plain("pill"@);
    text::lemma_trimmed_plain("pet"@);
}

/// A window that fits the screen is put where all of it is seen.
pub proof fn window_is_seen_whole(m: Rect, x: i32, y: i32, w: u32, h: u32)
    requires
        w <= m.w,
        h <= m.h,
    ensures
        ({
            let (px, py) = on_screen(Some(m), x, y, w, h);
            m.x <= px && px + w <= m.x + m.w && m.y <= py && py + h <= m.y + m.h
        }),
{
}

/// A window that is seen whole stays, so that putting it twice changes nothing.
pub proof fn seen_window_stays(m: Rect, x: i32, y: i32, w: u32, h: u32)
    ensures
        m.x <= x && x + w <= m.x + m.w && m.y <= y && y + h <= m.y + m.h ==> on_screen(Some(m), x, y, w, h)
            == (x as int, y as int),
        ({
            let (px, py) = on_screen(Some(m), x, y, w, h);
            on_screen(Some(m), px as i32, py as i32, w, h) == (px, py)
        }),
{
}

/// A window that is maximized and restored stands where it stood.
pub proof fn maximizing_is_undone(s: WindowState, at: Rect, now: Rect, m: Option<Rect>, n: Option<Rect>, top: u32)
    requires
        s.saved_max is None,
    ensures
        s.toggled_max(at, m, top).0.toggled_max(now, n, top) == (s, MaximizeAction::Restore { to: at }),
{
}

/// The places of the two modes do not touch each other: a switch away and back
/// finds the first window where it was, wherever the other one stood meanwhile.
pub proof fn modes_keep_their_own_places(
    s: WindowState,
    at: (i32, i32),
    there: (i32, i32),
    current: Rect,
    w: u32,
    h: u32,
)
    ensures
        s.switched(s.mode.other(), Some(at)).switched(s.mode, Some(there)).target(current, w, h) == Some(at),
{
}

/// A floating window has nothing to be restored to.
pub proof fn floating_forgets_maximizing(s: WindowState, pos: Option<(i32, i32)>)
    ensures
        s.switched(Mode::Float, pos).saved_max is None,
{
}

} // verus!
