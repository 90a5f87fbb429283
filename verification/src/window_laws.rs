//! Where the window is put, and what is remembered of it.

use vstd::prelude::*;

use crate::text;
use crate::text_laws;
use crate::window;
use crate::window::{FloatStyle, MaximizeAction, Mode, Rect, WindowSize, WindowState};

verus! {

/// A distance, either way.
pub open spec fn distance(a: int, b: int) -> int {
    if a >= b {
        a - b
    } else {
        b - a
    }
}

/// No place from which the window is seen whole is nearer to where it was to stand
/// than the one it is given.
pub proof fn window_moves_as_little_as_it_can(m: Rect, x: i32, y: i32, w: u32, h: u32, p: int, q: int)
    requires
        m.x <= p && p + w <= m.x + m.w,
        m.y <= q && q + h <= m.y + m.h,
    ensures
        ({
            let (a, b) = window::on_screen(Some(m), x, y, w, h);
            &&& m.x <= a && a + w <= m.x + m.w
            &&& m.y <= b && b + h <= m.y + m.h
            &&& distance(a, x as int) <= distance(p, x as int)
            &&& distance(b, y as int) <= distance(q, y as int)
        }),
{
}

/// A window that is larger than the screen begins where the screen does, in each
/// direction by itself. Without a screen, every window stays.
pub proof fn larger_window_begins_with_the_screen(m: Rect, x: i32, y: i32, w: u32, h: u32)
    ensures
        w >= m.w ==> window::on_screen(Some(m), x, y, w, h).0 == m.x,
        h >= m.h ==> window::on_screen(Some(m), x, y, w, h).1 == m.y,
        window::on_screen(None, x, y, w, h) == (x as int, y as int),
{
}

/// A window that is centred on another has the same middle.
pub proof fn centred_window_shares_the_middle(r: Rect, w: u32, h: u32)
    requires
        i32::MIN <= r.x + (r.w / 2) as int - (w / 2) as int <= i32::MAX,
        i32::MIN <= r.y + (r.h / 2) as int - (h / 2) as int <= i32::MAX,
    ensures
        ({
            let (x, y) = window::centred_on(r, w, h);
            window::middle(Rect { x, y, w, h }) == window::middle(r)
        }),
{
}

/// The middle of a rectangle is as far from its left as from its right, and as far from
/// its top as from its bottom, to the pixel.
pub proof fn middle_is_halfway(r: Rect)
    requires
        r.x + r.w <= i32::MAX,
        r.y + r.h <= i32::MAX,
    ensures
        ({
            let (x, y) = window::middle(r);
            &&& 0 <= (r.x + r.w - x) - (x - r.x) <= 1
            &&& 0 <= (r.y + r.h - y) - (y - r.y) <= 1
        }),
{
}

/// The full panel does not depend on the style: it can be resized down to its least
/// size and stands in the task bar. No floating window does; each stays on top and has
/// the size of its style.
pub proof fn plans_follow_the_mode(style: FloatStyle)
    ensures
        ({
            let (full, float) = (window::planned(Mode::Full, style), window::planned(Mode::Float, style));
            &&& full.min_size == Some((720u32, 520u32)) && full.size == (WindowSize::Fixed { w: 1000, h: 700 })
            &&& full.resizable && full.shadow && !full.always_on_top && !full.skip_taskbar
            &&& float.min_size is None && !float.resizable && !float.shadow
            &&& float.always_on_top && float.skip_taskbar
            &&& style == FloatStyle::Gauge ==> float.size == (WindowSize::Fixed { w: 116, h: 116 })
            &&& style == FloatStyle::Pill ==> float.size == (WindowSize::Fixed { w: 224, h: 78 })
            &&& style == FloatStyle::Pet ==> float.size == WindowSize::Pet
        }),
{
}

/// A name is read whatever white space stands around it, and a text that is no name
/// means the full panel, or the gauge.
pub proof fn names_are_read_from_padding(left: Seq<char>, s: Seq<char>, right: Seq<char>)
    requires
        forall|k: int| 0 <= k < left.len() ==> text::white_space(#[trigger] left[k]),
        forall|k: int| 0 <= k < right.len() ==> text::white_space(#[trigger] right[k]),
        s.len() > 0 ==> !text::white_space(s.first()) && !text::white_space(s.last()),
    ensures
        Mode::named(left + s + right) == Mode::Float <==> s == "float"@,
        FloatStyle::named(left + s + right) == FloatStyle::Pill <==> s == "pill"@,
        FloatStyle::named(left + s + right) == FloatStyle::Pet <==> s == "pet"@,
{
    text_laws::padding_is_trimmed(left, s, right);
    reveal_strlit("pill");
    reveal_strlit("pet");
    assert("pill"@.len() != "pet"@.len());
}

/// A place is remembered for the mode that the window is in, and for that alone.
pub proof fn place_is_remembered_for_its_mode(s: WindowState, pos: (i32, i32))
    ensures
        ({
            let t = s.standing(pos);
            &&& s.mode == Mode::Full ==> t.full_pos == Some(pos) && t.float_pos == s.float_pos
            &&& s.mode == Mode::Float ==> t.float_pos == Some(pos) && t.full_pos == s.full_pos
            &&& t == (WindowState { full_pos: t.full_pos, float_pos: t.float_pos, ..s })
        }),
{
}

/// A switch changes the mode. The place is remembered for the mode that is left, where
/// it is told, and the way back from maximizing is kept only for the full panel.
pub proof fn switch_remembers_where_it_left(s: WindowState, mode: Mode, pos: Option<(i32, i32)>)
    ensures
        ({
            let t = s.switched(mode, pos);
            &&& t.mode == mode && t.style == s.style
            &&& t.hint_pending == s.hint_pending && t.last_pos_save == s.last_pos_save
            &&& mode == Mode::Full ==> t.saved_max == s.saved_max
            &&& mode == Mode::Float ==> t.saved_max is None
            &&& pos is None ==> t.full_pos == s.full_pos && t.float_pos == s.float_pos
            &&& pos is Some && s.mode == Mode::Full ==> t.full_pos == pos && t.float_pos == s.float_pos
            &&& pos is Some && s.mode == Mode::Float ==> t.float_pos == pos && t.full_pos == s.full_pos
        }),
{
}

/// A window wants to stand where it stood last in its mode. Where it never stood, a
/// floating one wants the middle of the present one, and a full one nothing.
pub proof fn window_goes_back_to_its_place(s: WindowState, current: Rect, w: u32, h: u32)
    requires
        i32::MIN <= current.x + (current.w / 2) as int - (w / 2) as int <= i32::MAX,
        i32::MIN <= current.y + (current.h / 2) as int - (h / 2) as int <= i32::MAX,
    ensures
        s.mode == Mode::Full ==> s.target(current, w, h) == s.full_pos,
        s.mode == Mode::Float && s.float_pos is Some ==> s.target(current, w, h) == s.float_pos,
        s.mode == Mode::Float && s.float_pos is None ==> {
            &&& s.target(current, w, h) matches Some((x, y))
            &&& window::middle(Rect { x, y, w, h }) == window::middle(current)
        },
{
}

/// While the window is dragged, its place is written down at once and then every two
/// seconds.
pub proof fn place_is_written_every_two_seconds(s: WindowState, now_ns: u64)
    ensures
        s.last_pos_save is None ==> s.wants_save(now_ns),
        s.last_pos_save matches Some(t) ==> (s.wants_save(now_ns) <==> now_ns > t + 2_000_000_000),
{
}

/// A maximized window fills the screen from the menu bar down to its bottom.
pub proof fn maximized_window_reaches_the_bottom(
    s: WindowState,
    current: Rect,
    screen: Rect,
    top_margin: u32,
)
    requires
        s.saved_max is None,
        screen.y + top_margin <= i32::MAX,
    ensures
        s.toggled_max(current, Some(screen), top_margin).1 matches MaximizeAction::Fill { to } && {
            &&& to.x == screen.x && to.w == screen.w
            &&& to.y == screen.y + top_margin
            &&& top_margin <= screen.h ==> to.y + to.h == screen.y + screen.h
            &&& top_margin > screen.h ==> to.h == 0
        },
        s.toggled_max(current, Some(screen), top_margin).0.saved_max == Some(current),
        s.toggled_max(current, None, top_margin).1 == MaximizeAction::System,
{
}

/// Where nothing but a mode is remembered, neither a style nor a place is.
pub proof fn mode_alone_remembers_no_place(p: window::Persisted, mode: Seq<char>)
    requires
        p.only_mode(mode),
    ensures
        p.mode@ == mode,
        p.style@.len() == 0,
        p.full_pos is None,
        p.float_pos is None,
{
    reveal_strlit("");
}

/// Each mode and each style is known by its own name.
pub proof fn modes_and_styles_are_known_by_their_names(m: Mode, f: FloatStyle)
    ensures
        m.name() == "full"@ <==> m == Mode::Full,
        m.name() == "float"@ <==> m == Mode::Float,
        f.name() == "gauge"@ <==> f == FloatStyle::Gauge,
        f.name() == "pill"@ <==> f == FloatStyle::Pill,
        f.name() == "pet"@ <==> f == FloatStyle::Pet,
{
    reveal_strlit("full");
    reveal_strlit("float");
    reveal_strlit("gauge");
    reveal_strlit("pill");
    reveal_strlit("pet");
    assert("full"@.len() != "float"@.len());
    assert("gauge"@.len() != "pill"@.len());
    assert("gauge"@.len() != "pet"@.len());
    assert("pill"@.len() != "pet"@.len());
}

} // verus!
