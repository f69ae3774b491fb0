//! A tiny windowing desktop: windows that can be dragged, resized, focused
//! and closed, a taskbar and an app launcher.
//!
//! The desktop keeps the window geometry and decides what each event does.
//! The programs shown inside the windows live with the caller, one per
//! window id: [`DeskAction`] tells the caller when to hand an event to one,
//! start one, or drop one.
pub mod draw;

use vstd::prelude::*;
use crate::color::Color;
use crate::event::{Event, Key, KeyCode, Mouse, MouseKind};
use crate::layout::{max_int, min_int, mk_rect, sat_add, sat_sub, Rect};
use crate::apps::clock::{hms, hms_spec};
use std::time::{Duration, SystemTime, UNIX_EPOCH};

verus! {

#[verifier::external_type_specification]
#[verifier::external_body]
pub struct ExSystemTime(std::time::SystemTime);

/// `SystemTime::now`: the current reading of the system clock. Nothing is
/// stated of it.
#[verifier::external_body]
fn clock_now() -> (t: SystemTime) {
    SystemTime::now()
}

/// `SystemTime::duration_since` from the Unix epoch to `t`: `None` when `t`
/// lies before the epoch. Nothing is stated of the time span.
#[verifier::external_body]
fn since_epoch(t: &SystemTime) -> (d: Option<Duration>) {
    t.duration_since(UNIX_EPOCH).ok()
}

/// `Duration::as_secs`: the whole seconds of `d`. Nothing is stated of it.
#[verifier::external_body]
fn whole_secs(d: &Duration) -> (s: u64) {
    d.as_secs()
}

/// `HH:MM:SS` from the system clock (the time of day at Greenwich; 00:00:00
/// when the clock reads before 1970).
pub fn now_hms() -> (s: String)
    ensures
        exists|secs: u64| s@ == hms_spec(secs as nat),
{
    let now = clock_now();
    let secs: u64 = match since_epoch(&now) {
        Some(d) => whole_secs(&d),
        None => 0,
    };
    hms(secs)
}

/// Height of a window's title bar.
pub const TITLE_H: u16 = 1;

/// Height of the taskbar.
pub const TASK_H: u16 = 1;

/// Width of one taskbar button.
pub const TASK_BTN_W: u16 = 18;

/// A window on the desktop; the program it shows is kept by the caller under `id`.
#[derive(Clone, Copy, Debug, PartialEq, Eq, Structural)]
pub struct Window {
    pub id: u32,
    pub rect: Rect,
    /// Stacking order: a window with a larger `z` is drawn above.
    pub z: u32,
    /// The smallest width and height the hosted program accepts.
    pub min_w: u16,
    pub min_h: u16,
}

/// What the caller does after the desktop handled an event.
#[derive(Clone, Copy, Debug, PartialEq, Eq, Structural)]
pub enum DeskAction {
    /// Nothing more.
    Nothing,
    /// Hand the event to the program of window `id`, whose body is `area`.
    Deliver { id: u32, area: Rect },
    /// Start launcher item `index` and [`Desktop::open`] a window for it.
    Launch(usize),
    /// Window `id` was closed: its program can be dropped.
    Closed(u32),
}

/// The state of a [`Desktop`].
pub ghost struct DeskView {
    pub windows: Seq<Window>,
    pub next_id: u32,
    pub focused: usize,
    /// The window being dragged, and where it was grabbed relative to its corner.
    pub drag: Option<(u32, i32, i32)>,
    /// The window being resized, and its size when the resize started.
    pub resize: Option<(u32, u16, u16)>,
    pub bg: Color,
    pub show_taskbar: bool,
    pub launcher_open: bool,
    pub launcher_sel: usize,
    /// The names of the launcher items.
    pub items: Seq<Seq<char>>,
    pub screen: Rect,
}

/// The largest `z` of `ws`, or 0.
pub open spec fn max_z(ws: Seq<Window>) -> u32
    decreases ws.len(),
{
    if ws.len() == 0 {
        0
    } else {
        let m = max_z(ws.drop_last());
        if ws.last().z > m {
            ws.last().z
        } else {
            m
        }
    }
}

/// `ws` with window `i` raised above all others.
pub open spec fn raised(ws: Seq<Window>, i: int) -> Seq<Window> {
    ws.update(i, Window { z: (max_z(ws) + 1) as u32, ..ws[i] })
}

/// Window `i` is the topmost of `ws` at `(x, y)`: it contains the point, and
/// every other window there is below it (on a tie, the later one wins).
pub open spec fn is_top(ws: Seq<Window>, x: int, y: int, i: int) -> bool {
    &&& 0 <= i < ws.len()
    &&& ws[i].rect.contains_spec(x, y)
    &&& forall|j: int|
        0 <= j < ws.len() && #[trigger] ws[j].rect.contains_spec(x, y) ==> ws[j].z < ws[i].z || (
        ws[j].z == ws[i].z && j <= i)
}

/// The topmost window at `(x, y)`, if any.
pub open spec fn top_at(ws: Seq<Window>, x: int, y: int) -> Option<int> {
    if exists|i: int| is_top(ws, x, y, i) {
        Some(choose|i: int| is_top(ws, x, y, i))
    } else {
        None
    }
}

/// The first window of `ws` with id `id`, if any.
pub open spec fn find_id(ws: Seq<Window>, id: u32) -> Option<int> {
    if exists|j: int| 0 <= j < ws.len() && ws[j].id == id {
        Some(choose|j: int| 0 <= j < ws.len() && ws[j].id == id && forall|k: int| 0 <= k < j ==> ws[k].id != id)
    } else {
        None
    }
}

/// The rect of a `w`×`h` window centered on `screen`, above the taskbar.
pub open spec fn center_on(screen: Rect, w: int, h: int) -> Rect {
    let w = min_int(w, screen.w as int);
    let h = min_int(h, sat_sub(screen.h as int, 1));
    mk_rect(screen.x + (screen.w - w) / 2, screen.y + (screen.h - h) / 2, w, h)
}

impl DeskView {
    /// The invariant the desktop keeps.
    pub open spec fn wf(self) -> bool {
        &&& forall|i: int| 0 <= i < self.windows.len() ==> #[trigger] self.windows[i].id < self.next_id
        &&& forall|i: int, j: int|
            0 <= i < self.windows.len() && 0 <= j < self.windows.len() && i != j ==> #[trigger] self.windows[i].id
                != #[trigger] self.windows[j].id
        &&& forall|i: int| 0 <= i < self.windows.len() ==> #[trigger] self.windows[i].min_h <= 65533
        &&& self.windows.len() > 0 ==> self.focused < self.windows.len()
        &&& (self.drag matches Some((_, ox, oy)) ==> 0 <= ox <= 65535 && 0 <= oy <= 65535)
        &&& 0 < self.items.len() <= 65531
        &&& self.launcher_sel < self.items.len()
    }

    /// There is room for another window id and another raise.
    pub open spec fn room(self) -> bool {
        max_z(self.windows) < u32::MAX && self.next_id < u32::MAX
    }

    /// Centering a box on the screen, and the launcher rows, stay on the `u16` grid.
    pub open spec fn screen_fits(self) -> bool {
        &&& self.screen.x + self.screen.w / 2 <= 65535
        &&& self.screen.y + self.screen.h / 2 + 2 <= 65535
    }

    /// Window `i` focused and raised; nothing happens for an index out of range.
    pub open spec fn focus_on(self, i: int) -> DeskView {
        if 0 <= i < self.windows.len() {
            DeskView { focused: i as usize, windows: raised(self.windows, i), ..self }
        } else {
            self
        }
    }

    /// Window `i` removed; the focus stays on the same index where it can,
    /// else moves to the last window, which is raised.
    pub open spec fn closing(self, i: int) -> DeskView {
        if 0 <= i < self.windows.len() {
            let ws = self.windows.remove(i);
            if ws.len() == 0 {
                DeskView { windows: ws, focused: 0, ..self }
            } else {
                let f = min_int(self.focused as int, ws.len() - 1);
                DeskView { windows: raised(ws, f), focused: f as usize, ..self }
            }
        } else {
            self
        }
    }

    /// A window for a program of the given minimum size added on top, centered
    /// on the screen and cascaded by its id, and focused.
    pub open spec fn opening(self, min_w: u16, min_h: u16) -> DeskView {
        let r = center_on(self.screen, max_int(min_w as int, 28), max_int(min_h as int, 10) + 2);
        let id = self.next_id;
        let step = (id as u16) % 6;
        let rect = Rect { x: sat_add(r.x as int, step * 2) as u16, y: sat_add(r.y as int, step as int) as u16, ..r };
        let ws = self.windows.push(Window { id, rect, z: id, min_w, min_h });
        DeskView {
            windows: raised(ws, self.windows.len() as int),
            next_id: (id + 1) as u32,
            focused: self.windows.len() as usize,
            ..self
        }
    }

    /// Where the launcher is drawn.
    pub open spec fn launcher_rect_spec(self) -> Rect {
        self.screen.centered_spec(30, self.items.len() + 4 as int)
    }

    /// The launcher closed, and the selected item started.
    pub open spec fn launching(self) -> (DeskView, DeskAction) {
        (
            DeskView { launcher_open: false, ..self },
            if self.launcher_sel < self.items.len() {
                DeskAction::Launch(self.launcher_sel)
            } else {
                DeskAction::Nothing
            },
        )
    }

    /// The drag in progress, if any, moved to the pointer at `(x, y)`, kept on `area`.
    pub open spec fn dragged(self, x: int, y: int, area: Rect) -> DeskView {
        match self.drag {
            Some((id, ox, oy)) => match find_id(self.windows, id) {
                Some(j) => {
                    let w = self.windows[j];
                    let nx = max_int(x - ox, 0);
                    let ny = max_int(y - oy, 0);
                    let rect = Rect {
                        x: min_int(nx, sat_sub(area.w as int, 3)) as u16,
                        y: min_int(ny, sat_sub(sat_sub(area.h as int, 1), 1)) as u16,
                        ..w.rect
                    };
                    DeskView { windows: self.windows.update(j, Window { rect, ..w }), ..self }
                },
                None => self,
            },
            None => self,
        }
    }

    /// The resize in progress, if any, follows the pointer at `(x, y)`: the
    /// corner goes under the pointer, no smaller than the program accepts and
    /// no larger than `area` above the taskbar.
    pub open spec fn resized(self, x: int, y: int, area: Rect) -> DeskView {
        match self.resize {
            Some((id, _, _)) => match find_id(self.windows, id) {
                Some(j) => {
                    let w = self.windows[j];
                    let nw = max_int(sat_sub(x, w.rect.x as int) + 1, w.min_w as int);
                    let nh = max_int(sat_sub(y, w.rect.y as int) + 1, w.min_h + 2);
                    let rect = Rect {
                        w: min_int(nw, sat_sub(area.w as int, w.rect.x as int)) as u16,
                        h: min_int(nh, sat_sub(sat_sub(area.h as int, 1), w.rect.y as int)) as u16,
                        ..w.rect
                    };
                    DeskView { windows: self.windows.update(j, Window { rect, ..w }), ..self }
                },
                None => self,
            },
            None => self,
        }
    }

    /// The new corner of a resize at `(x, y)` stays on the `u16` grid.
    pub open spec fn resize_fits(self, x: int, y: int, area: Rect) -> bool {
        let d = self.dragged(x, y, area);
        match d.resize {
            Some((id, _, _)) => match find_id(d.windows, id) {
                Some(j) => sat_sub(x, d.windows[j].rect.x as int) + 1 <= 65535 && sat_sub(
                    y,
                    d.windows[j].rect.y as int,
                ) + 1 <= 65535,
                None => true,
            },
            None => true,
        }
    }

    /// A press on the open launcher at `(x, y)`: `None` when it misses the
    /// launcher, else the state and action; a press on an item row starts it.
    pub open spec fn launcher_press(self, x: int, y: int) -> Option<(DeskView, DeskAction)> {
        let r = self.launcher_rect_spec();
        if !r.contains_spec(x, y) {
            None
        } else {
            let row = sat_sub(y, r.y + 2);
            if row < self.items.len() {
                Some(DeskView { launcher_sel: row as usize, ..self }.launching())
            } else {
                Some((self, DeskAction::Nothing))
            }
        }
    }

    /// A mouse event at `(m.x, m.y)` on a screen of `area` with the taskbar at `taskbar`.
    pub open spec fn after_mouse(self, m: Mouse, area: Rect, taskbar: Rect) -> (DeskView, DeskAction) {
        let x = m.x as int;
        let y = m.y as int;
        match m.kind {
            MouseKind::Press => if self.show_taskbar && taskbar.contains_spec(x, y) {
                (self.focus_on(x / 18), DeskAction::Nothing)
            } else if self.launcher_open && self.launcher_press(x, y) is Some {
                self.launcher_press(x, y).unwrap()
            } else {
                match top_at(self.windows, x, y) {
                    Some(i) => {
                        let w = self.windows[i];
                        let r = w.rect;
                        if y == r.y && sat_sub(r.right_spec(), 2) <= x <= sat_sub(r.right_spec(), 1) {
                            (self.closing(i), DeskAction::Closed(w.id))
                        } else if y == r.y {
                            (
                                DeskView { drag: Some((w.id, (x - r.x) as i32, (y - r.y) as i32)), ..self }.focus_on(i),
                                DeskAction::Nothing,
                            )
                        } else if x == sat_sub(r.right_spec(), 1) && y == sat_sub(r.bottom_spec(), 1) {
                            (
                                DeskView { resize: Some((w.id, r.w, r.h)), ..self }.focus_on(i),
                                DeskAction::Nothing,
                            )
                        } else {
                            (self.focus_on(i), DeskAction::Deliver { id: w.id, area: r.inset_spec(1, 1) })
                        }
                    },
                    None => (DeskView { launcher_open: false, ..self }, DeskAction::Nothing),
                }
            },
            MouseKind::Motion => (self.dragged(x, y, area).resized(x, y, area), DeskAction::Nothing),
            MouseKind::Release => (DeskView { drag: None, resize: None, ..self }, DeskAction::Nothing),
        }
    }

    /// A key press.
    pub open spec fn after_key(self, k: Key) -> (DeskView, DeskAction) {
        let n = self.windows.len();
        if k.ctrl && k.code == KeyCode::Char('c') {
            (self, DeskAction::Nothing)
        } else if self.launcher_open {
            match k.code {
                KeyCode::Up => (DeskView { launcher_sel: sat_sub(self.launcher_sel as int, 1) as usize, ..self }, DeskAction::Nothing),
                KeyCode::Down => (
                    DeskView { launcher_sel: min_int(self.launcher_sel + 1, self.items.len() - 1) as usize, ..self },
                    DeskAction::Nothing,
                ),
                KeyCode::Enter | KeyCode::Char(' ') => self.launching(),
                KeyCode::Esc => (DeskView { launcher_open: false, ..self }, DeskAction::Nothing),
                _ => (self, DeskAction::Nothing),
            }
        } else if k.code == KeyCode::Tab {
            (
                if n > 0 {
                    self.focus_on((self.focused + 1) % n as int)
                } else {
                    self
                },
                DeskAction::Nothing,
            )
        } else if k.code == KeyCode::F(2) {
            (DeskView { launcher_open: true, ..self }, DeskAction::Nothing)
        } else if n == 0 {
            (self, DeskAction::Nothing)
        } else if k.code == KeyCode::Char('q') && k.ctrl {
            (self.closing(self.focused as int), DeskAction::Closed(self.windows[self.focused as int].id))
        } else {
            let w = self.windows[self.focused as int];
            (self, DeskAction::Deliver { id: w.id, area: w.rect.inset_spec(1, 1) })
        }
    }

    /// The taskbar along the bottom of `area`, or an empty rect below it when hidden.
    pub open spec fn taskbar_on(self, area: Rect) -> Rect {
        if self.show_taskbar {
            Rect { x: 0, y: sat_sub(area.bottom_spec(), 1) as u16, w: area.w, h: 1 }
        } else {
            Rect { x: 0, y: area.bottom_spec() as u16, w: 0, h: 0 }
        }
    }

    /// An event on a screen of `area`: the screen is taken over, then a mouse
    /// or key event is handled; other events change nothing more.
    pub open spec fn after_event(self, ev: Event, area: Rect) -> (DeskView, DeskAction) {
        let d = DeskView { screen: area, ..self };
        match ev {
            Event::Mouse(m) => d.after_mouse(m, area, d.taskbar_on(area)),
            Event::Key(k) => d.after_key(k),
            _ => (d, DeskAction::Nothing),
        }
    }

    /// The key raises a window: Tab cycling the focus, or Ctrl-Q closing the
    /// focused window (which raises the one focused next).
    pub open spec fn key_raises(self, k: Key) -> bool {
        &&& !(k.ctrl && k.code == KeyCode::Char('c'))
        &&& !self.launcher_open
        &&& self.windows.len() > 0
        &&& (k.code == KeyCode::Tab || (k.code == KeyCode::Char('q') && k.ctrl))
    }

    /// `ev` can be handled on a screen of `area` without leaving the `u16`
    /// grid: a press (which may raise a window) or a raising key leaves room
    /// above the top window, a press on the open launcher finds it on the
    /// grid, and a motion keeps a resized corner on it. Releases and other
    /// events can always be handled.
    pub open spec fn accepts(self, ev: Event, area: Rect) -> bool {
        let d = DeskView { screen: area, ..self };
        match ev {
            Event::Mouse(m) => match m.kind {
                MouseKind::Press => max_z(self.windows) < u32::MAX && (self.launcher_open ==> d.screen_fits()),
                MouseKind::Motion => d.resize_fits(m.x as int, m.y as int, area),
                MouseKind::Release => true,
            },
            Event::Key(k) => self.key_raises(k) ==> max_z(self.windows) < u32::MAX,
            _ => true,
        }
    }
}

/// The window manager.
pub struct Desktop {
    windows: Vec<Window>,
    next_id: u32,
    focused: usize,
    drag: Option<(u32, i32, i32)>,
    resize: Option<(u32, u16, u16)>,
    bg: Color,
    show_taskbar: bool,
    launcher_open: bool,
    launcher_sel: usize,
    launcher_items: Vec<String>,
    screen: Rect,
}

impl View for Desktop {
    type V = DeskView;

    closed spec fn view(&self) -> DeskView {
        DeskView {
            windows: self.windows@,
            next_id: self.next_id,
            focused: self.focused,
            drag: self.drag,
            resize: self.resize,
            bg: self.bg,
            show_taskbar: self.show_taskbar,
            launcher_open: self.launcher_open,
            launcher_sel: self.launcher_sel,
            items: self.launcher_items@.map_values(|s: String| s@),
            screen: self.screen,
        }
    }
}

proof fn lemma_max_z(ws: Seq<Window>)
    ensures
        forall|i: int| 0 <= i < ws.len() ==> #[trigger] ws[i].z <= max_z(ws),
        ws.len() > 0 ==> exists|i: int| 0 <= i < ws.len() && ws[i].z == max_z(ws),
    decreases ws.len(),
{
    if ws.len() > 0 {
        lemma_max_z(ws.drop_last());
        assert forall|i: int| 0 <= i < ws.len() implies #[trigger] ws[i].z <= max_z(ws) by {
            if i < ws.len() - 1 {
                assert(ws[i] == ws.drop_last()[i]);
            }
        }
        if ws.len() > 1 && ws.last().z <= max_z(ws.drop_last()) {
            let k = choose|i: int| 0 <= i < ws.len() - 1 && ws.drop_last()[i].z == max_z(ws.drop_last());
            assert(ws[k] == ws.drop_last()[k]);
            assert(ws[k].z == max_z(ws));
        } else {
            assert(ws[ws.len() - 1].z == max_z(ws));
        }
    }
}

proof fn lemma_top_unique(ws: Seq<Window>, x: int, y: int, i: int, j: int)
    requires
        is_top(ws, x, y, i),
        is_top(ws, x, y, j),
    ensures
        i == j,
{
    assert(ws[j].rect.contains_spec(x, y));
    assert(ws[i].rect.contains_spec(x, y));
}

proof fn lemma_max_z_remove(ws: Seq<Window>, i: int)
    requires
        0 <= i < ws.len(),
    ensures
        max_z(ws.remove(i)) <= max_z(ws),
{
    let r = ws.remove(i);
    lemma_max_z(ws);
    lemma_max_z(r);
    if r.len() > 0 {
        let k = choose|k: int| 0 <= k < r.len() && r[k].z == max_z(r);
        if k < i {
            assert(r[k] == ws[k]);
        } else {
            assert(r[k] == ws[k + 1]);
        }
    }
}

proof fn lemma_max_z_push(ws: Seq<Window>, w: Window)
    ensures
        max_z(ws.push(w)) == if w.z > max_z(ws) { w.z } else { max_z(ws) },
{
    assert(ws.push(w).drop_last() =~= ws);
}

/// Changing only the geometry or stacking of the windows keeps the invariant.
proof fn lemma_wf_windows(v: DeskView, ws: Seq<Window>)
    requires
        v.wf(),
        ws.len() == v.windows.len(),
        forall|i: int| 0 <= i < ws.len() ==> (#[trigger] ws[i]).id == v.windows[i].id && ws[i].min_h == v.windows[i].min_h,
    ensures
        (DeskView { windows: ws, ..v }).wf(),
{
    let n = DeskView { windows: ws, ..v };
    assert forall|i: int, j: int|
        0 <= i < ws.len() && 0 <= j < ws.len() && i != j implies #[trigger] ws[i].id != #[trigger] ws[j].id by {
        assert(v.windows[i].id != v.windows[j].id);
    }
    assert forall|i: int| 0 <= i < ws.len() implies #[trigger] ws[i].id < n.next_id by {
        assert(v.windows[i].id < v.next_id);
    }
    assert forall|i: int| 0 <= i < ws.len() implies #[trigger] ws[i].min_h <= 65533 by {
        assert(v.windows[i].min_h <= 65533);
    }
}

proof fn lemma_focus_wf(v: DeskView, i: int)
    requires
        v.wf(),
    ensures
        v.focus_on(i).wf(),
{
    if 0 <= i < v.windows.len() {
        let ws = raised(v.windows, i);
        lemma_wf_windows(v, ws);
        assert(v.focus_on(i) == DeskView { focused: i as usize, ..DeskView { windows: ws, ..v } });
    }
}

proof fn lemma_close_wf(v: DeskView, i: int)
    requires
        v.wf(),
    ensures
        v.closing(i).wf(),
{
    if 0 <= i < v.windows.len() {
        let ws = v.windows.remove(i);
        let r = DeskView { windows: ws, ..v };
        assert forall|a: int, b: int|
            0 <= a < ws.len() && 0 <= b < ws.len() && a != b implies #[trigger] ws[a].id != #[trigger] ws[b].id by {
            let a2 = if a < i { a } else { a + 1 };
            let b2 = if b < i { b } else { b + 1 };
            assert(ws[a] == v.windows[a2]);
            assert(ws[b] == v.windows[b2]);
            assert(v.windows[a2].id != v.windows[b2].id);
        }
        assert forall|a: int| 0 <= a < ws.len() implies #[trigger] ws[a].id < r.next_id && ws[a].min_h <= 65533 by {
            let a2 = if a < i { a } else { a + 1 };
            assert(ws[a] == v.windows[a2]);
            assert(v.windows[a2].id < v.next_id);
            assert(v.windows[a2].min_h <= 65533);
        }
        assert(DeskView { windows: ws, focused: 0, ..v }.wf());
        if ws.len() > 0 {
            let f = min_int(v.focused as int, ws.len() - 1);
            let rf = DeskView { windows: ws, focused: f as usize, ..v };
            assert(rf.wf());
            lemma_wf_windows(rf, raised(ws, f));
            assert(v.closing(i) == DeskView { windows: raised(ws, f), ..rf });
        }
    }
}

proof fn lemma_motion_wf(v: DeskView, x: int, y: int, area: Rect)
    requires
        v.wf(),
    ensures
        v.dragged(x, y, area).wf(),
        v.dragged(x, y, area).resized(x, y, area).wf(),
{
    let d = v.dragged(x, y, area);
    if let Some((id, ox, oy)) = v.drag {
        if let Some(j) = find_id(v.windows, id) {
            let w = v.windows[j];
            let nx = max_int(x - ox, 0);
            let ny = max_int(y - oy, 0);
            let rect = Rect {
                x: min_int(nx, sat_sub(area.w as int, 3)) as u16,
                y: min_int(ny, sat_sub(sat_sub(area.h as int, 1), 1)) as u16,
                ..w.rect
            };
            lemma_wf_windows(v, v.windows.update(j, Window { rect, ..w }));
        }
    }
    if let Some((id, _, _)) = d.resize {
        if let Some(j) = find_id(d.windows, id) {
            let w = d.windows[j];
            let nw = max_int(sat_sub(x, w.rect.x as int) + 1, w.min_w as int);
            let nh = max_int(sat_sub(y, w.rect.y as int) + 1, w.min_h + 2);
            let rect = Rect {
                w: min_int(nw, sat_sub(area.w as int, w.rect.x as int)) as u16,
                h: min_int(nh, sat_sub(sat_sub(area.h as int, 1), w.rect.y as int)) as u16,
                ..w.rect
            };
            lemma_wf_windows(d, d.windows.update(j, Window { rect, ..w }));
        }
    }
}

proof fn lemma_mouse_wf(v: DeskView, m: Mouse, area: Rect, taskbar: Rect)
    requires
        v.wf(),
    ensures
        v.after_mouse(m, area, taskbar).0.wf(),
{
    let x = m.x as int;
    let y = m.y as int;
    match m.kind {
        MouseKind::Press => {
            lemma_focus_wf(v, x / 18);
            if let Some(i) = top_at(v.windows, x, y) {
                assert(is_top(v.windows, x, y, i));
                let w = v.windows[i];
                let r = w.rect;
                lemma_close_wf(v, i);
                let dv = DeskView { drag: Some((w.id, (x - r.x) as i32, (y - r.y) as i32)), ..v };
                assert(dv.wf());
                lemma_focus_wf(dv, i);
                lemma_focus_wf(DeskView { resize: Some((w.id, r.w, r.h)), ..v }, i);
                lemma_focus_wf(v, i);
            }
        },
        MouseKind::Motion => {
            lemma_motion_wf(v, x, y, area);
        },
        MouseKind::Release => {},
    }
}

proof fn lemma_key_wf(v: DeskView, k: Key)
    requires
        v.wf(),
    ensures
        v.after_key(k).0.wf(),
{
    let n = v.windows.len();
    if n > 0 {
        lemma_focus_wf(v, (v.focused + 1) % n as int);
        lemma_close_wf(v, v.focused as int);
    }
}

impl Desktop {
    /// A desktop with no windows, the taskbar shown and the launcher open on
    /// its default items.
    pub fn new() -> (d: Desktop)
        ensures
            d@.wf(),
            d@.windows == Seq::<Window>::empty(),
            d@.next_id == 1,
            d@.focused == 0,
            d@.drag is None,
            d@.resize is None,
            d@.bg == Color::Rgb(18, 18, 28),
            d@.show_taskbar,
            d@.launcher_open,
            d@.launcher_sel == 0,
            d@.items == seq!["Clock"@, "Terminal"@, "Snake"@, "Settings"@],
            d@.screen == (Rect { x: 0, y: 0, w: 80, h: 24 }),
    {
        let items = vec![
            "Clock".to_string(),
            "Terminal".to_string(),
            "Snake".to_string(),
            "Settings".to_string(),
        ];
        let d = Desktop {
            windows: Vec::new(),
            next_id: 1,
            focused: 0,
            drag: None,
            resize: None,
            bg: Color::rgb(18, 18, 28),
            show_taskbar: true,
            launcher_open: true,
            launcher_sel: 0,
            launcher_items: items,
            screen: Rect::new(0, 0, 80, 24),
        };
        assert(d@.items =~= seq!["Clock"@, "Terminal"@, "Snake"@, "Settings"@]);
        d
    }

    /// The largest `z` of any window, or 0.
    fn top_z(&self) -> (m: u32)
        ensures
            m == max_z(self@.windows),
    {
        let mut m: u32 = 0;
        let mut i: usize = 0;
        while i < self.windows.len()
            invariant
                i <= self.windows.len(),
                m == max_z(self@.windows.subrange(0, i as int)),
            decreases self.windows.len() - i,
        {
            proof {
                let s = self@.windows.subrange(0, i as int + 1);
                assert(s.drop_last() =~= self@.windows.subrange(0, i as int));
            }
            if self.windows[i].z > m {
                m = self.windows[i].z;
            }
            i = i + 1;
        }
        assert(self@.windows.subrange(0, i as int) =~= self@.windows);
        m
    }

    /// Raise window `i` above all others.
    fn bring_front(&mut self, i: usize)
        requires
            i < old(self)@.windows.len(),
            max_z(old(self)@.windows) < u32::MAX,
        ensures
            final(self)@ == (DeskView { windows: raised(old(self)@.windows, i as int), ..old(self)@ }),
    {
        let maxz = self.top_z() + 1;
        let mut w = self.windows[i];
        w.z = maxz;
        self.windows.set(i, w);
        assert(self@.windows =~= raised(old(self)@.windows, i as int));
    }
    /// Focus window `i` and raise it; an index out of range changes nothing.
    fn focus(&mut self, i: usize)
        requires
            max_z(old(self)@.windows) < u32::MAX,
        ensures
            final(self)@ == old(self)@.focus_on(i as int),
    {
        if i < self.windows.len() {
            self.focused = i;
            self.bring_front(i);
        }
    }

    /// Close window `i`; an index out of range changes nothing.
    fn close(&mut self, i: usize)
        requires
            max_z(old(self)@.windows) < u32::MAX,
        ensures
            final(self)@ == old(self)@.closing(i as int),
    {
        if i < self.windows.len() {
            proof {
                lemma_max_z_remove(self@.windows, i as int);
            }
            self.windows.remove(i);
            if self.windows.len() == 0 {
                self.focused = 0;
            } else {
                let last = self.windows.len() - 1;
                self.focused = if self.focused < last {
                    self.focused
                } else {
                    last
                };
                self.bring_front(self.focused);
            }
        }
    }

    /// The rect of a `w`×`h` window centered on the screen, above the taskbar.
    fn center_rect(&self, w: u16, h: u16) -> (r: Rect)
        requires
            self@.screen_fits(),
        ensures
            r == center_on(self@.screen, w as int, h as int),
    {
        let sw = self.screen.w;
        let w = if w < sw {
            w
        } else {
            sw
        };
        let room = self.screen.h.saturating_sub(TASK_H);
        let h = if h < room {
            h
        } else {
            room
        };
        Rect::new(self.screen.x + (sw - w) / 2, self.screen.y + (self.screen.h - h) / 2, w, h)
    }

    /// Open a window for a program with the given minimum size, on top of the
    /// others and focused. Returns the new window's id.
    pub fn open(&mut self, min_w: u16, min_h: u16) -> (id: u32)
        requires
            old(self)@.wf(),
            old(self)@.room(),
            old(self)@.screen_fits(),
            min_h <= 65533,
        ensures
            id == old(self)@.next_id,
            final(self)@ == old(self)@.opening(min_w, min_h),
            final(self)@.wf(),
    {
        let w = if min_w > 28 {
            min_w
        } else {
            28
        };
        let h = (if min_h > 10 {
            min_h
        } else {
            10
        }) + TITLE_H + 1;
        let r = self.center_rect(w, h);
        let id = self.next_id;
        self.next_id = self.next_id + 1;
        let step = (id as u16) % 6;
        let rect = Rect { x: r.x.saturating_add(step * 2), y: r.y.saturating_add(step), w: r.w, h: r.h };
        let win = Window { id, rect, z: id, min_w, min_h };
        proof {
            lemma_max_z_push(self@.windows, win);
        }
        self.windows.push(win);
        self.focused = self.windows.len() - 1;
        self.bring_front(self.focused);
        id
    }

    /// The topmost window at `(x, y)`, if any.
    fn top_window_at(&self, x: u16, y: u16) -> (r: Option<usize>)
        ensures
            match r {
                Some(i) => top_at(self@.windows, x as int, y as int) == Some(i as int),
                None => top_at(self@.windows, x as int, y as int) is None,
            },
    {
        let ghost ws = self@.windows;
        let mut best: Option<usize> = None;
        let mut k: usize = 0;
        while k < self.windows.len()
            invariant
                k <= ws.len(),
                ws == self@.windows,
                match best {
                    Some(b) => b < k && ws[b as int].rect.contains_spec(x as int, y as int) && forall|j: int|
                        0 <= j < k && #[trigger] ws[j].rect.contains_spec(x as int, y as int) ==> ws[j].z
                            < ws[b as int].z || (ws[j].z == ws[b as int].z && j <= b),
                    None => forall|j: int| 0 <= j < k ==> !#[trigger] ws[j].rect.contains_spec(x as int, y as int),
                },
            decreases ws.len() - k,
        {
            let w = self.windows[k];
            if w.rect.contains(x, y) {
                match best {
                    Some(b) => {
                        if w.z >= self.windows[b].z {
                            best = Some(k);
                        }
                    },
                    None => {
                        best = Some(k);
                    },
                }
            }
            k = k + 1;
        }
        match best {
            Some(b) => {
                assert(is_top(ws, x as int, y as int, b as int));
                proof {
                    let c = choose|i: int| is_top(ws, x as int, y as int, i);
                    lemma_top_unique(ws, x as int, y as int, b as int, c);
                }
            },
            None => {
                assert(!exists|i: int| is_top(ws, x as int, y as int, i));
            },
        }
        best
    }

    /// The first window with id `id`, if any.
    fn find_window(&self, id: u32) -> (r: Option<usize>)
        ensures
            match r {
                Some(j) => find_id(self@.windows, id) == Some(j as int),
                None => find_id(self@.windows, id) is None,
            },
    {
        let ghost ws = self@.windows;
        let mut k: usize = 0;
        while k < self.windows.len()
            invariant
                k <= ws.len(),
                ws == self@.windows,
                forall|j: int| 0 <= j < k ==> ws[j].id != id,
            decreases ws.len() - k,
        {
            if self.windows[k].id == id {
                proof {
                    let c = choose|j: int| 0 <= j < ws.len() && ws[j].id == id && forall|i: int| 0 <= i < j ==> ws[i].id != id;
                    assert(ws[k as int].id == id);
                    if c < k {
                        assert(ws[c].id != id);
                    } else if c > k {
                        assert(ws[k as int].id != id);
                    }
                }
                return Some(k);
            }
            k = k + 1;
        }
        None
    }

    /// Where the launcher is drawn.
    fn launcher_rect(&self) -> (r: Rect)
        requires
            self@.wf(),
            self@.screen_fits(),
        ensures
            r == self@.launcher_rect_spec(),
    {
        let h = (self.launcher_items.len() as u16) + 4;
        self.screen.centered(30, h)
    }

    /// Close the launcher and start the selected item.
    fn launch_selected(&mut self) -> (a: DeskAction)
        ensures
            (final(self)@, a) == old(self)@.launching(),
    {
        let a = if self.launcher_sel < self.launcher_items.len() {
            DeskAction::Launch(self.launcher_sel)
        } else {
            DeskAction::Nothing
        };
        self.launcher_open = false;
        a
    }

    /// A press on the launcher: `None` when `(x, y)` is outside it.
    fn launcher_hit(&mut self, x: u16, y: u16) -> (r: Option<DeskAction>)
        requires
            old(self)@.wf(),
            old(self)@.screen_fits(),
        ensures
            match old(self)@.launcher_press(x as int, y as int) {
                Some((v, a)) => r == Some(a) && final(self)@ == v,
                None => r is None && final(self)@ == old(self)@,
            },
    {
        let r = self.launcher_rect();
        if !r.contains(x, y) {
            return None;
        }
        let row = y.saturating_sub(r.y + 2);
        if row < self.launcher_items.len() as u16 {
            self.launcher_sel = row as usize;
            let a = self.launch_selected();
            Some(a)
        } else {
            Some(DeskAction::Nothing)
        }
    }
    fn on_mouse(&mut self, m: Mouse, area: Rect, taskbar: Rect) -> (a: DeskAction)
        requires
            old(self)@.wf(),
            m.kind == MouseKind::Press ==> max_z(old(self)@.windows) < u32::MAX,
            m.kind == MouseKind::Press && old(self)@.launcher_open ==> old(self)@.screen_fits(),
            m.kind == MouseKind::Motion ==> old(self)@.resize_fits(m.x as int, m.y as int, area),
        ensures
            (final(self)@, a) == old(self)@.after_mouse(m, area, taskbar),
    {
        let x = m.x;
        let y = m.y;
        match m.kind {
            MouseKind::Press => {
                if self.show_taskbar && taskbar.contains(x, y) {
                    let idx = (x / TASK_BTN_W) as usize;
                    self.focus(idx);
                    return DeskAction::Nothing;
                }
                if self.launcher_open {
                    if let Some(a) = self.launcher_hit(x, y) {
                        return a;
                    }
                }
                match self.top_window_at(x, y) {
                    Some(i) => {
                        let w = self.windows[i];
                        let r = w.rect;
                        let right = r.right();
                        if y == r.y && x >= right.saturating_sub(2) && x <= right.saturating_sub(1) {
                            self.close(i);
                            return DeskAction::Closed(w.id);
                        }
                        if y == r.y {
                            self.drag = Some((w.id, x as i32 - r.x as i32, y as i32 - r.y as i32));
                            self.focus(i);
                            return DeskAction::Nothing;
                        }
                        if x == right.saturating_sub(1) && y == r.bottom().saturating_sub(1) {
                            self.resize = Some((w.id, r.w, r.h));
                            self.focus(i);
                            return DeskAction::Nothing;
                        }
                        self.focus(i);
                        DeskAction::Deliver { id: w.id, area: r.inner() }
                    },
                    None => {
                        self.launcher_open = false;
                        DeskAction::Nothing
                    },
                }
            },
            MouseKind::Motion => {
                if let Some((id, ox, oy)) = self.drag {
                    if let Some(j) = self.find_window(id) {
                        let mut w = self.windows[j];
                        let dx = x as i32 - ox;
                        let dy = y as i32 - oy;
                        let nx: u16 = if dx > 0 {
                            dx as u16
                        } else {
                            0
                        };
                        let ny: u16 = if dy > 0 {
                            dy as u16
                        } else {
                            0
                        };
                        let lim_x = area.w.saturating_sub(3);
                        let lim_y = area.h.saturating_sub(TASK_H).saturating_sub(1);
                        w.rect.x = if nx < lim_x {
                            nx
                        } else {
                            lim_x
                        };
                        w.rect.y = if ny < lim_y {
                            ny
                        } else {
                            lim_y
                        };
                        self.windows.set(j, w);
                    }
                }
                let ghost mid = self@;
                assert(mid == old(self)@.dragged(x as int, y as int, area));
                if let Some((id, _sw, _sh)) = self.resize {
                    if let Some(j) = self.find_window(id) {
                        let mut w = self.windows[j];
                        let gw = x.saturating_sub(w.rect.x) + 1;
                        let gh = y.saturating_sub(w.rect.y) + 1;
                        let floor_h = w.min_h + TITLE_H + 1;
                        let nw = if gw > w.min_w {
                            gw
                        } else {
                            w.min_w
                        };
                        let nh = if gh > floor_h {
                            gh
                        } else {
                            floor_h
                        };
                        let lim_w = area.w.saturating_sub(w.rect.x);
                        let lim_h = area.h.saturating_sub(TASK_H).saturating_sub(w.rect.y);
                        w.rect.w = if nw < lim_w {
                            nw
                        } else {
                            lim_w
                        };
                        w.rect.h = if nh < lim_h {
                            nh
                        } else {
                            lim_h
                        };
                        self.windows.set(j, w);
                    }
                }
                DeskAction::Nothing
            },
            MouseKind::Release => {
                self.drag = None;
                self.resize = None;
                DeskAction::Nothing
            },
        }
    }
    fn on_key(&mut self, k: Key) -> (a: DeskAction)
        requires
            old(self)@.wf(),
            old(self)@.key_raises(k) ==> max_z(old(self)@.windows) < u32::MAX,
        ensures
            (final(self)@, a) == old(self)@.after_key(k),
    {
        if k.is_ctrl('c') {
            return DeskAction::Nothing;
        }
        if self.launcher_open {
            match k.code {
                KeyCode::Up => {
                    self.launcher_sel = self.launcher_sel.saturating_sub(1);
                    DeskAction::Nothing
                },
                KeyCode::Down => {
                    let last = self.launcher_items.len() - 1;
                    let next = self.launcher_sel + 1;
                    self.launcher_sel = if next < last {
                        next
                    } else {
                        last
                    };
                    DeskAction::Nothing
                },
                KeyCode::Enter | KeyCode::Char(' ') => self.launch_selected(),
                KeyCode::Esc => {
                    self.launcher_open = false;
                    DeskAction::Nothing
                },
                _ => DeskAction::Nothing,
            }
        } else if k.is(KeyCode::Tab) {
            if self.windows.len() > 0 {
                let f = (self.focused + 1) % self.windows.len();
                self.focus(f);
            }
            DeskAction::Nothing
        } else if k.is(KeyCode::F(2)) {
            self.launcher_open = true;
            DeskAction::Nothing
        } else if self.windows.len() == 0 {
            DeskAction::Nothing
        } else if k.is_char('q') && k.ctrl {
            let i = self.focused;
            let id = self.windows[i].id;
            self.close(i);
            DeskAction::Closed(id)
        } else {
            let w = self.windows[self.focused];
            DeskAction::Deliver { id: w.id, area: w.rect.inner() }
        }
    }

    /// Handle one event on a screen of `area` (the frame's area). The caller
    /// then does what the returned action says.
    pub fn handle(&mut self, ev: &Event, area: Rect) -> (a: DeskAction)
        requires
            old(self)@.wf(),
            old(self)@.accepts(*ev, area),
        ensures
            (final(self)@, a) == old(self)@.after_event(*ev, area),
            final(self)@.wf(),
    {
        self.screen = area;
        let taskbar = if self.show_taskbar {
            Rect::new(0, area.bottom().saturating_sub(TASK_H), area.w, TASK_H)
        } else {
            Rect::new(0, area.bottom(), 0, 0)
        };
        let ghost d = self@;
        match ev {
            Event::Mouse(m) => {
                proof {
                    lemma_mouse_wf(d, *m, area, taskbar);
                }
                self.on_mouse(*m, area, taskbar)
            },
            Event::Key(k) => {
                proof {
                    lemma_key_wf(d, *k);
                }
                self.on_key(*k)
            },
            _ => DeskAction::Nothing,
        }
    }
    /// Whether [`Desktop::handle`] can take `ev` on a screen of `area`.
    pub fn can_handle(&self, ev: &Event, area: Rect) -> (b: bool)
        requires
            self@.wf(),
        ensures
            b == self@.accepts(*ev, area),
    {
        let fits = area.x as u32 + area.w as u32 / 2 <= 65535 && area.y as u32 + area.h as u32 / 2 + 2 <= 65535;
        match ev {
            Event::Mouse(m) => match m.kind {
                MouseKind::Press => self.top_z() < u32::MAX && (!self.launcher_open || fits),
                MouseKind::Motion => self.resize_fits(m.x, m.y, area),
                MouseKind::Release => true,
            },
            Event::Key(k) => {
                let raises = !k.is_ctrl('c') && !self.launcher_open && self.windows.len() > 0 && (k.is(
                    KeyCode::Tab,
                ) || (k.is_char('q') && k.ctrl));
                !raises || self.top_z() < u32::MAX
            },
            _ => true,
        }
    }

    /// Whether [`Desktop::open`] can add a window now: there is room for
    /// another id and another raise, and the screen last handled keeps a
    /// centered window on the `u16` grid.
    pub fn can_open(&self) -> (b: bool)
        requires
            self@.wf(),
        ensures
            b == (self@.room() && self@.screen_fits()),
    {
        self.top_z() < u32::MAX && self.next_id < u32::MAX && self.screen.x as u32 + self.screen.w as u32 / 2
            <= 65535 && self.screen.y as u32 + self.screen.h as u32 / 2 + 2 <= 65535
    }

    /// Whether a resize in progress keeps its corner on the `u16` grid when
    /// the pointer is at `(x, y)`.
    fn resize_fits(&self, x: u16, y: u16, area: Rect) -> (b: bool)
        requires
            self@.wf(),
        ensures
            b == self@.resize_fits(x as int, y as int, area),
    {
        let ghost d = self@.dragged(x as int, y as int, area);
        match self.resize {
            Some((id, _, _)) => match self.find_window(id) {
                Some(j) => {
                    let w = self.windows[j];
                    let mut rx = w.rect.x;
                    let mut ry = w.rect.y;
                    if let Some((did, ox, oy)) = self.drag {
                        if did == id {
                            let dx = x as i32 - ox;
                            let dy = y as i32 - oy;
                            let nx: u16 = if dx > 0 {
                                dx as u16
                            } else {
                                0
                            };
                            let ny: u16 = if dy > 0 {
                                dy as u16
                            } else {
                                0
                            };
                            let lim_x = area.w.saturating_sub(3);
                            let lim_y = area.h.saturating_sub(TASK_H).saturating_sub(1);
                            rx = if nx < lim_x {
                                nx
                            } else {
                                lim_x
                            };
                            ry = if ny < lim_y {
                                ny
                            } else {
                                lim_y
                            };
                        }
                    }
                    proof {
                        assert(find_id(d.windows, id) == Some(j as int)) by {
                            let c = choose|c: int| 0 <= c < d.windows.len() && d.windows[c].id == id && forall|k: int| 0 <= k < c ==> d.windows[k].id != id;
                            assert(d.windows.len() == self@.windows.len());
                            assert(forall|k: int| 0 <= k < d.windows.len() ==> #[trigger] d.windows[k].id == self@.windows[k].id);
                            assert(d.windows[j as int].id == id);
                            if c != j {
                                assert(self@.windows[c].id == id);
                            }
                        }
                    }
                    proof {
                        let ws = self@.windows;
                        if let Some((did, ox, oy)) = self.drag {
                            if let Some(k) = find_id(ws, did) {
                                assert(ws[k].id == did);
                                if did != id {
                                    assert(k != j);
                                    assert(d.windows[j as int] == ws[j as int]);
                                }
                            }
                        }
                        assert(d.windows[j as int].rect.x == rx);
                        assert(d.windows[j as int].rect.y == ry);
                    }
                    let okx = x < rx || x - rx < 65535;
                    let oky = y < ry || y - ry < 65535;
                    okx && oky
                },
                None => true,
            },
            None => true,
        }
    }
    /// The windows, in the order they were opened.
    pub fn windows(&self) -> (w: &Vec<Window>)
        ensures
            w@ == self@.windows,
    {
        &self.windows
    }

    /// The index of the focused window.
    pub fn focused(&self) -> (i: usize)
        ensures
            i == self@.focused,
    {
        self.focused
    }

    /// Whether the launcher is shown.
    pub fn launcher_open(&self) -> (b: bool)
        ensures
            b == self@.launcher_open,
    {
        self.launcher_open
    }

    /// The selected launcher item.
    pub fn launcher_sel(&self) -> (i: usize)
        ensures
            i == self@.launcher_sel,
    {
        self.launcher_sel
    }

    /// Whether the taskbar is shown.
    pub fn show_taskbar(&self) -> (b: bool)
        ensures
            b == self@.show_taskbar,
    {
        self.show_taskbar
    }

    /// The desktop's background color.
    pub fn bg(&self) -> (c: Color)
        ensures
            c == self@.bg,
    {
        self.bg
    }

    /// The names of the launcher items.
    pub fn launcher_items(&self) -> (v: &Vec<String>)
        ensures
            v@.map_values(|s: String| s@) == self@.items,
    {
        &self.launcher_items
    }
}

/// Focusing a window puts it above every other window: it is the one shown
/// at each of its cells.
pub proof fn law_focus_on_top(v: DeskView, i: int, x: int, y: int)
    requires
        v.wf(),
        max_z(v.windows) < u32::MAX,
        0 <= i < v.windows.len(),
        v.windows[i].rect.contains_spec(x, y),
    ensures
        v.focus_on(i).focused == i as usize,
        forall|j: int| 0 <= j < v.windows.len() && j != i ==> #[trigger] v.focus_on(i).windows[j].z < v.focus_on(i).windows[i].z,
        top_at(v.focus_on(i).windows, x, y) == Some(i),
{
    let ws = v.focus_on(i).windows;
    lemma_max_z(v.windows);
    assert(is_top(ws, x, y, i));
    let c = choose|k: int| is_top(ws, x, y, k);
    lemma_top_unique(ws, x, y, i, c);
}

/// Closing a window removes exactly that window; the others keep their
/// order, ids and places.
pub proof fn law_close_removes(v: DeskView, i: int)
    requires
        v.wf(),
        max_z(v.windows) < u32::MAX,
        0 <= i < v.windows.len(),
    ensures
        v.closing(i).windows.len() == v.windows.len() - 1,
        forall|j: int|
            0 <= j < v.windows.len() - 1 ==> (#[trigger] v.closing(i).windows[j]).id == v.windows.remove(i)[j].id
                && v.closing(i).windows[j].rect == v.windows.remove(i)[j].rect,
        forall|j: int| 0 <= j < v.closing(i).windows.len() ==> (#[trigger] v.closing(i).windows[j]).id != v.windows[i].id,
{
    let ws = v.windows.remove(i);
    assert forall|j: int| 0 <= j < v.closing(i).windows.len() implies (#[trigger] v.closing(i).windows[j]).id
        != v.windows[i].id by {
        let j2 = if j < i { j } else { j + 1 };
        assert(ws[j] == v.windows[j2]);
        assert(v.windows[j2].id != v.windows[i].id);
    }
}

/// Releasing the mouse ends any drag or resize, and moving it afterwards
/// leaves every window where it is.
pub proof fn law_release_ends_gestures(v: DeskView, m: Mouse, n: Mouse, area: Rect, taskbar: Rect)
    requires
        m.kind == MouseKind::Release,
        n.kind == MouseKind::Motion,
    ensures
        v.after_mouse(m, area, taskbar).0.drag is None,
        v.after_mouse(m, area, taskbar).0.resize is None,
        v.after_mouse(m, area, taskbar).0.after_mouse(n, area, taskbar).0 == v.after_mouse(m, area, taskbar).0,
{
}

} // verus!
