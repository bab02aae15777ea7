//! Where the controls of the windows lie. Lengths are pixels of a screen with 96 dots per inch.
use vstd::prelude::*;

verus! {

/// The dots per inch that lengths are given for.
pub const BASE_DPI: i32 = 96;

/// The least size of the main window, and of the editor.
pub const MAIN_MIN: (i32, i32) = (610, 360);

pub const EDITOR_MIN: (i32, i32) = (620, 570);

/// The size that the main window and the editor open with.
pub const MAIN_SIZE: (i32, i32) = (760, 530);

pub const EDITOR_SIZE: (i32, i32) = (760, 690);

/// A rectangle.
#[derive(Clone, Copy, PartialEq, Eq, Structural, Debug)]
pub struct Rect {
    pub x: i32,
    pub y: i32,
    pub w: i32,
    pub h: i32,
}

/// A quotient without its fraction.
pub open spec fn quotient(a: int, b: int) -> int
    recommends
        b > 0,
{
    if a >= 0 {
        a / b
    } else {
        -((-a) / b)
    }
}

/// The dots per inch that a screen counts as.
pub open spec fn effective_dpi(dpi: i32) -> int {
    if dpi < BASE_DPI {
        BASE_DPI as int
    } else {
        dpi as int
    }
}

/// A length on a screen.
pub open spec fn scaled(n: int, dpi: i32) -> int {
    quotient(n * effective_dpi(dpi), 96)
}

fn divide(a: i64, b: i64) -> (r: i64)
    requires
        b > 0,
        a > i64::MIN,
    ensures
        r == quotient(a as int, b as int),
{
    if a >= 0 {
        a / b
    } else {
        -((-a) / b)
    }
}

fn dots(dpi: i32) -> (r: i64)
    ensures
        r == effective_dpi(dpi),
{
    if dpi < BASE_DPI {
        BASE_DPI as i64
    } else {
        dpi as i64
    }
}

/// Whether a number is one of 32 bits with sign.
pub open spec fn fits(n: int) -> bool {
    i32::MIN <= n <= i32::MAX
}

/// A length on a screen.
pub fn scale(n: i32, dpi: i32) -> (r: i32)
    requires
        fits(n * effective_dpi(dpi)),
    ensures
        r == scaled(n as int, dpi),
{
    let d = dots(dpi);
    proof {
        lemma_quotient_small(n * effective_dpi(dpi), 96);
    }
    divide(n as i64 * d, 96) as i32
}

/// The size of a window that has so many dots.
pub fn dimensions(right: i32, bottom: i32, dpi: i32) -> (r: (i32, i32))
    requires
        fits(right * 96),
        fits(bottom * 96),
    ensures
        r.0 == quotient(right * 96, effective_dpi(dpi)),
        r.1 == quotient(bottom * 96, effective_dpi(dpi)),
{
    let d = dots(dpi);
    proof {
        lemma_quotient_small(right * 96, effective_dpi(dpi));
        lemma_quotient_small(bottom * 96, effective_dpi(dpi));
    }
    (divide(right as i64 * 96, d) as i32, divide(bottom as i64 * 96, d) as i32)
}

proof fn lemma_quotient_small(a: int, b: int)
    requires
        b >= 1,
    ensures
        a >= 0 ==> 0 <= quotient(a, b) <= a,
        a <= 0 ==> a <= quotient(a, b) <= 0,
{
    let m = if a >= 0 {
        a
    } else {
        -a
    };
    assert(0 <= m / b <= m) by (nonlinear_arith)
        requires
            m >= 0,
            b >= 1,
    ;
}

/// A rectangle on a screen; no side is shorter than one pixel.
pub open spec fn placed(r: Rect, dpi: i32) -> (int, int, int, int) {
    (
        scaled(r.x as int, dpi),
        scaled(r.y as int, dpi),
        scaled(
            if r.w < 1 {
                1
            } else {
                r.w as int
            },
            dpi,
        ),
        scaled(
            if r.h < 1 {
                1
            } else {
                r.h as int
            },
            dpi,
        ),
    )
}

fn at_least_one(n: i32) -> (r: i32)
    ensures
        r == if n < 1 {
            1
        } else {
            n
        },
{
    if n < 1 {
        1
    } else {
        n
    }
}

/// A rectangle on a screen.
pub fn place(r: Rect, dpi: i32) -> (p: Rect)
    requires
        fits(r.x * effective_dpi(dpi)),
        fits(r.y * effective_dpi(dpi)),
        r.w >= 1 ==> fits(r.w * effective_dpi(dpi)),
        r.h >= 1 ==> fits(r.h * effective_dpi(dpi)),
    ensures
        (p.x as int, p.y as int, p.w as int, p.h as int) == placed(r, dpi),
{
    Rect {
        x: scale(r.x, dpi),
        y: scale(r.y, dpi),
        w: scale(at_least_one(r.w), dpi),
        h: scale(at_least_one(r.h), dpi),
    }
}

// ---------------------------------------------------------------- main window

/// Where the controls of the main window lie.
#[derive(Clone, Copy, PartialEq, Eq, Structural, Debug)]
pub struct MainLayout {
    pub combo: Rect,
    pub status: Rect,
    pub detail: Rect,
    pub connect: Rect,
    pub disconnect: Rect,
    pub reconnect: Rect,
    pub new: Rect,
    pub import: Rect,
    pub edit: Rect,
    pub view: Rect,
    pub log_label: Rect,
    pub clear: Rect,
    pub log: Rect,
    pub path: Rect,
}

/// The controls of a main window of a size.
pub open spec fn main_controls(w: i32, h: i32) -> MainLayout {
    MainLayout {
        combo: Rect { x: 12, y: 12, w: (w - 148) as i32, h: 250 },
        status: Rect { x: 14, y: 49, w: (w - 150) as i32, h: 23 },
        detail: Rect { x: 14, y: 78, w: (w - 150) as i32, h: 23 },
        connect: Rect { x: (w - 124) as i32, y: 12, w: 112, h: 27 },
        disconnect: Rect { x: (w - 124) as i32, y: 45, w: 112, h: 27 },
        reconnect: Rect { x: (w - 124) as i32, y: 78, w: 112, h: 27 },
        new: Rect { x: 12, y: 114, w: 102, h: 28 },
        import: Rect { x: 122, y: 114, w: 106, h: 28 },
        edit: Rect { x: 236, y: 114, w: 106, h: 28 },
        view: Rect { x: 350, y: 114, w: 122, h: 28 },
        log_label: Rect { x: 14, y: 157, w: 160, h: 24 },
        clear: Rect { x: (w - 112) as i32, y: 151, w: 100, h: 27 },
        log: Rect { x: 12, y: 184, w: (w - 24) as i32, h: (h - 219) as i32 },
        path: Rect { x: 14, y: (h - 27) as i32, w: (w - 28) as i32, h: 20 },
    }
}

/// Lays out the main window.
pub fn main_layout(w: i32, h: i32) -> (r: MainLayout)
    requires
        fits(w - 150),
        fits(h - 219),
    ensures
        r == main_controls(w, h),
{
    MainLayout {
        combo: Rect { x: 12, y: 12, w: w - 148, h: 250 },
        status: Rect { x: 14, y: 49, w: w - 150, h: 23 },
        detail: Rect { x: 14, y: 78, w: w - 150, h: 23 },
        connect: Rect { x: w - 124, y: 12, w: 112, h: 27 },
        disconnect: Rect { x: w - 124, y: 45, w: 112, h: 27 },
        reconnect: Rect { x: w - 124, y: 78, w: 112, h: 27 },
        new: Rect { x: 12, y: 114, w: 102, h: 28 },
        import: Rect { x: 122, y: 114, w: 106, h: 28 },
        edit: Rect { x: 236, y: 114, w: 106, h: 28 },
        view: Rect { x: 350, y: 114, w: 122, h: 28 },
        log_label: Rect { x: 14, y: 157, w: 160, h: 24 },
        clear: Rect { x: w - 112, y: 151, w: 100, h: 27 },
        log: Rect { x: 12, y: 184, w: w - 24, h: h - 219 },
        path: Rect { x: 14, y: h - 27, w: w - 28, h: 20 },
    }
}

// ---------------------------------------------------------------- editor

/// Where the controls of the editor lie.
#[derive(Clone, Copy, PartialEq, Eq, Structural, Debug)]
pub struct EditorLayout {
    pub name_label: Rect,
    pub name: Rect,
    pub tunnel_label: Rect,
    pub tunnel: Rect,
    pub wg_label: Rect,
    pub import: Rect,
    pub wg: Rect,
    pub hint: Rect,
    pub save: Rect,
    pub cancel: Rect,
}

/// The height of each of the two texts.
pub open spec fn half_height(h: int) -> int {
    quotient(h - 170, 2)
}

/// The controls of an editor of a size.
pub open spec fn editor_controls(w: i32, h: i32) -> EditorLayout {
    let half = half_height(h as int);
    EditorLayout {
        name_label: Rect { x: 12, y: 15, w: 72, h: 24 },
        name: Rect { x: 88, y: 12, w: (w - 100) as i32, h: 27 },
        tunnel_label: Rect { x: 12, y: 51, w: (w - 24) as i32, h: 22 },
        tunnel: Rect { x: 12, y: 76, w: (w - 24) as i32, h: half as i32 },
        wg_label: Rect { x: 12, y: (87 + half) as i32, w: (w - 164) as i32, h: 25 },
        import: Rect { x: (w - 150) as i32, y: (83 + half) as i32, w: 138, h: 27 },
        wg: Rect { x: 12, y: (115 + half) as i32, w: (w - 24) as i32, h: half as i32 },
        hint: Rect { x: 12, y: (h - 42) as i32, w: (w - 238) as i32, h: 30 },
        save: Rect { x: (w - 220) as i32, y: (h - 42) as i32, w: 112, h: 29 },
        cancel: Rect { x: (w - 100) as i32, y: (h - 42) as i32, w: 88, h: 29 },
    }
}

/// Lays out the editor.
pub fn editor_layout(w: i32, h: i32) -> (r: EditorLayout)
    requires
        fits(w - 238),
        fits(h - 170),
    ensures
        r == editor_controls(w, h),
{
    proof {
        lemma_quotient_small(h - 170, 2);
    }
    let half: i32 = divide(h as i64 - 170, 2) as i32;
    EditorLayout {
        name_label: Rect { x: 12, y: 15, w: 72, h: 24 },
        name: Rect { x: 88, y: 12, w: w - 100, h: 27 },
        tunnel_label: Rect { x: 12, y: 51, w: w - 24, h: 22 },
        tunnel: Rect { x: 12, y: 76, w: w - 24, h: half },
        wg_label: Rect { x: 12, y: 87 + half, w: w - 164, h: 25 },
        import: Rect { x: w - 150, y: 83 + half, w: 138, h: 27 },
        wg: Rect { x: 12, y: 115 + half, w: w - 24, h: half },
        hint: Rect { x: 12, y: h - 42, w: w - 238, h: 30 },
        save: Rect { x: w - 220, y: h - 42, w: 112, h: 29 },
        cancel: Rect { x: w - 100, y: h - 42, w: 88, h: 29 },
    }
}

// ---------------------------------------------------------------- laws

/// Whether two rectangles share no point.
pub open spec fn apart(a: Rect, b: Rect) -> bool {
    a.x + a.w <= b.x || b.x + b.w <= a.x || a.y + a.h <= b.y || b.y + b.h <= a.y
}

/// Whether a rectangle lies in a window of a size.
pub open spec fn inside(a: Rect, w: int, h: int) -> bool {
    0 <= a.x && 0 < a.w && a.x + a.w <= w && 0 <= a.y && 0 < a.h && a.y + a.h <= h
}

/// Whether the rectangles of a list share no point with each other.
pub open spec fn all_apart(s: Seq<Rect>) -> bool {
    forall|i: int, j: int| 0 <= i < j < s.len() ==> apart(#[trigger] s[i], #[trigger] s[j])
}

/// In a main window that is not smaller than allowed every control is visible and none covers
/// another. (The list that drops down from the profiles is not counted.)
pub proof fn main_controls_fit(w: i32, h: i32)
    requires
        MAIN_MIN.0 - 30 <= w,
        MAIN_MIN.1 - 70 <= h,
    ensures
        ({
            let m = main_controls(w, h);
            let all = seq![
                m.status,
                m.detail,
                m.connect,
                m.disconnect,
                m.reconnect,
                m.new,
                m.import,
                m.edit,
                m.view,
                m.log_label,
                m.clear,
                m.log,
                m.path,
            ];
            &&& all_apart(all)
            &&& forall|i: int| 0 <= i < all.len() ==> inside(#[trigger] all[i], w as int, h as int)
        }),
{
}

/// In an editor that is not smaller than allowed every control is visible and none covers another.
pub proof fn editor_controls_fit(w: i32, h: i32)
    requires
        EDITOR_MIN.0 - 30 <= w,
        EDITOR_MIN.1 - 70 <= h,
    ensures
        ({
            let m = editor_controls(w, h);
            let all = seq![
                m.name_label,
                m.name,
                m.tunnel_label,
                m.tunnel,
                m.wg_label,
                m.import,
                m.wg,
                m.hint,
                m.save,
                m.cancel,
            ];
            &&& all_apart(all)
            &&& forall|i: int| 0 <= i < all.len() ==> inside(#[trigger] all[i], w as int, h as int)
        }),
{
}

/// A screen with 96 dots per inch or fewer shows lengths as they are.
pub proof fn base_screens_do_not_scale(n: int, dpi: i32)
    requires
        dpi <= BASE_DPI,
    ensures
        scaled(n, dpi) == n,
{
    assert(n * 96 / 96 == n);
    assert((-n) * 96 / 96 == -n);
    assert(-(n * 96) == (-n) * 96);
}

/// A length grows with the dots of a screen, without its fraction.
pub proof fn lengths_grow_with_the_dots(n: int, dpi: i32)
    requires
        n >= 0,
        dpi >= 96,
    ensures
        96 * scaled(n, dpi) <= n * dpi < 96 * (scaled(n, dpi) + 1),
        scaled(-n, dpi) == -scaled(n, dpi),
{
    assert(n * dpi >= 0) by (nonlinear_arith)
        requires
            n >= 0,
            dpi >= 96,
    ;
    assert((-n) * dpi == -(n * dpi)) by (nonlinear_arith);
}

/// No control vanishes: a side that would be shorter than one pixel has the length of one.
pub proof fn controls_do_not_vanish(r: Rect, dpi: i32)
    ensures
        placed(r, dpi).0 == scaled(r.x as int, dpi),
        placed(r, dpi).1 == scaled(r.y as int, dpi),
        r.w >= 1 ==> placed(r, dpi).2 == scaled(r.w as int, dpi),
        r.h >= 1 ==> placed(r, dpi).3 == scaled(r.h as int, dpi),
        r.w < 1 ==> placed(r, dpi).2 == scaled(1, dpi),
        r.h < 1 ==> placed(r, dpi).3 == scaled(1, dpi),
        dpi < 96 ==> scaled(r.x as int, dpi) == scaled(r.x as int, 96),
{
}

/// Where the controls of the main window lie. The actions on the connection and the button that
/// clears the log keep their distance to the right edge, the path its distance to the lower one; the
/// list, the state and the log take the room that is left.
pub proof fn main_controls_keep_their_place(w: i32, h: i32)
    requires
        fits(w - 150),
        fits(h - 219),
    ensures
        ({
            let m = main_controls(w, h);
            &&& m.combo == (Rect { x: 12, y: 12, w: (w - 148) as i32, h: 250 })
            &&& m.status == (Rect { x: 14, y: 49, w: (w - 150) as i32, h: 23 })
            &&& m.detail == (Rect { x: 14, y: 78, w: (w - 150) as i32, h: 23 })
            &&& w - m.connect.x == 124 && w - m.disconnect.x == 124 && w - m.reconnect.x == 124
            &&& (m.connect.y, m.disconnect.y, m.reconnect.y) == (12i32, 45i32, 78i32)
            &&& (m.connect.w, m.disconnect.w, m.reconnect.w) == (112i32, 112i32, 112i32)
            &&& (m.connect.h, m.disconnect.h, m.reconnect.h) == (27i32, 27i32, 27i32)
            &&& m.new == (Rect { x: 12, y: 114, w: 102, h: 28 })
            &&& m.import == (Rect { x: 122, y: 114, w: 106, h: 28 })
            &&& m.edit == (Rect { x: 236, y: 114, w: 106, h: 28 })
            &&& m.view == (Rect { x: 350, y: 114, w: 122, h: 28 })
            &&& m.log_label == (Rect { x: 14, y: 157, w: 160, h: 24 })
            &&& w - m.clear.x == 112 && (m.clear.y, m.clear.w, m.clear.h) == (151i32, 100i32, 27i32)
            &&& (m.log.x, m.log.y) == (12i32, 184i32)
            &&& m.log.x + m.log.w == w - 12 && m.log.y + m.log.h == h - 35
            &&& m.path.x == 14 && m.path.x + m.path.w == w - 14
            &&& h - m.path.y == 27 && m.path.h == 20
        }),
{
}

/// Where the controls of the editor lie. Its two texts are of one height and share what is left
/// between the name and the buttons, which keep their distance to the lower right corner.
pub proof fn editor_controls_keep_their_place(w: i32, h: i32)
    requires
        fits(w - 238),
        170 <= h,
    ensures
        ({
            let m = editor_controls(w, h);
            &&& m.name_label == (Rect { x: 12, y: 15, w: 72, h: 24 })
            &&& m.name == (Rect { x: 88, y: 12, w: (w - 100) as i32, h: 27 })
            &&& m.tunnel_label == (Rect { x: 12, y: 51, w: (w - 24) as i32, h: 22 })
            &&& m.tunnel.h == m.wg.h && 2 * m.tunnel.h <= h - 170 <= 2 * m.tunnel.h + 1
            &&& (m.tunnel.x, m.tunnel.y, m.tunnel.w) == (12i32, 76i32, (w - 24) as i32)
            &&& m.wg_label.y == m.tunnel.y + m.tunnel.h + 11
            &&& (m.wg_label.x, m.wg_label.w, m.wg_label.h) == (12i32, (w - 164) as i32, 25i32)
            &&& m.import.y == m.tunnel.y + m.tunnel.h + 7
            &&& (m.import.x, m.import.w, m.import.h) == ((w - 150) as i32, 138i32, 27i32)
            &&& m.wg.y == m.tunnel.y + m.tunnel.h + 39
            &&& (m.wg.x, m.wg.w) == (12i32, (w - 24) as i32)
            &&& (m.hint.x, m.hint.w, m.hint.h) == (12i32, (w - 238) as i32, 30i32)
            &&& h - m.hint.y == 42 && h - m.save.y == 42 && h - m.cancel.y == 42
            &&& w - m.save.x == 220 && (m.save.w, m.save.h) == (112i32, 29i32)
            &&& w - m.cancel.x == 100 && (m.cancel.w, m.cancel.h) == (88i32, 29i32)
        }),
{
}

/// The sizes of the two windows.
pub proof fn sizes_of_the_windows()
    ensures
        MAIN_MIN == (610i32, 360i32),
        MAIN_SIZE == (760i32, 530i32),
        EDITOR_MIN == (620i32, 570i32),
        EDITOR_SIZE == (760i32, 690i32),
        BASE_DPI == 96,
{
}

} // verus!
