//! A playable snake game for a desktop window.
use vstd::prelude::*;
use crate::ansi::{dec, push_dec};
use crate::buffer::Cell;
use crate::canvas::{drawn, lemma_drawn_compose, point_shape, Shape};
use crate::color::Color;
use crate::event::{Event, KeyCode};
use crate::frame::Frame;
use crate::layout::{Align, Rect};
use crate::style::Style;
use crate::paint::{fg_style, layer_ops, lemma_drawn_paints, lemma_paints_compose, lemma_rows_paint, paints, rows_ops, Op};
use crate::widgets::text::{rows_at, rows_shown, text_rows, Text};

verus! {

/// The state of a snake game.
pub ghost struct SnakeView {
    /// The cells of the snake, head first, relative to the playing field.
    pub body: Seq<(u16, u16)>,
    /// The direction the head moves in.
    pub dir: (i16, i16),
    pub food: (u16, u16),
    /// Ticks seen so far.
    pub acc: u64,
    pub dead: bool,
    pub score: u32,
}

/// A snake game.
pub struct SnakeApp {
    body: Vec<(u16, u16)>,
    dir: (i16, i16),
    food: (u16, u16),
    acc: u64,
    dead: bool,
    score: u32,
}

impl View for SnakeApp {
    type V = SnakeView;

    closed spec fn view(&self) -> SnakeView {
        SnakeView { body: self.body@, dir: self.dir, food: self.food, acc: self.acc, dead: self.dead, score: self.score }
    }
}

/// `p` is a cell of `body`.
pub open spec fn occupied(body: Seq<(u16, u16)>, p: (u16, u16)) -> bool {
    exists|i: int| 0 <= i < body.len() && body[i] == p
}

impl SnakeView {
    /// The snake always has a head, and moves along one axis by one cell.
    pub open spec fn wf(self) -> bool {
        &&& self.body.len() > 0
        &&& (self.dir == (1i16, 0i16) || self.dir == (-1i16, 0i16) || self.dir == (0i16, 1i16) || self.dir == (0i16, -1i16))
    }

    /// Where the head goes next, in signed coordinates.
    pub open spec fn next_head(self) -> (int, int) {
        let (hx, hy) = self.body[0];
        ((hx as i16) + self.dir.0, (hy as i16) + self.dir.1)
    }

    /// The next move of a live snake in the playing field inside `area`'s
    /// border lands on the food.
    pub open spec fn eats(self, area: Rect) -> bool {
        let p = area.inset_spec(1, 1);
        let (nx, ny) = self.next_head();
        &&& !self.dead
        &&& !(nx < 0 || ny < 0 || nx >= (p.w as i16) || ny >= (p.h as i16))
        &&& !occupied(self.body, (nx as u16, ny as u16))
        &&& (nx as u16, ny as u16) == self.food
    }

    /// The next move can be made without overflow: a live snake's next head
    /// stays within `i16`, and eating leaves room in the score.
    pub open spec fn step_fits(self, area: Rect) -> bool {
        let (nx, ny) = self.next_head();
        self.dead || {
            &&& i16::MIN <= nx <= i16::MAX
            &&& i16::MIN <= ny <= i16::MAX
            &&& (self.eats(area) ==> self.score < u32::MAX)
        }
    }

    /// One move of the snake in the playing field inside `area`'s border:
    /// it dies on hitting an edge or itself; eating the food grows it by a
    /// cell, scores, and places new food from the tick count; otherwise it
    /// moves, keeping its length.
    pub open spec fn stepped(self, area: Rect) -> SnakeView {
        let p = area.inset_spec(1, 1);
        let (nx, ny) = self.next_head();
        if self.dead {
            self
        } else if nx < 0 || ny < 0 || nx >= (p.w as i16) || ny >= (p.h as i16) {
            SnakeView { dead: true, ..self }
        } else if occupied(self.body, (nx as u16, ny as u16)) {
            SnakeView { dead: true, ..self }
        } else if (nx as u16, ny as u16) == self.food {
            let fw = if p.w > 1 { p.w } else { 1u16 };
            let fh = if p.h > 1 { p.h } else { 1u16 };
            SnakeView {
                score: (self.score + 1) as u32,
                body: seq![(nx as u16, ny as u16)] + self.body,
                food: (((self.acc as u16) % fw) as u16, (((self.acc / 7) as u16) % fh) as u16),
                ..self
            }
        } else {
            SnakeView { body: (seq![(nx as u16, ny as u16)] + self.body).drop_last(), ..self }
        }
    }

    /// An event: an arrow key turns the snake unless it would reverse; every
    /// fourth tick it moves.
    pub open spec fn after_event(self, ev: Event, area: Rect) -> SnakeView {
        match ev {
            Event::Key(k) => match k.code {
                KeyCode::Up => if self.dir.1 == 0 { SnakeView { dir: (0i16, -1i16), ..self } } else { self },
                KeyCode::Down => if self.dir.1 == 0 { SnakeView { dir: (0i16, 1i16), ..self } } else { self },
                KeyCode::Left => if self.dir.0 == 0 { SnakeView { dir: (-1i16, 0i16), ..self } } else { self },
                KeyCode::Right => if self.dir.0 == 0 { SnakeView { dir: (1i16, 0i16), ..self } } else { self },
                _ => self,
            },
            Event::Tick => {
                let t = SnakeView { acc: (self.acc + 1) as u64, ..self };
                if t.acc % 4 == 0 {
                    t.stepped(area)
                } else {
                    t
                }
            },
            _ => self,
        }
    }

    /// `ev` can be handled without overflow.
    pub open spec fn accepts(self, ev: Event, area: Rect) -> bool {
        ev is Tick ==> self.acc < u64::MAX && ((self.acc + 1) % 4 == 0 ==> SnakeView { acc: (self.acc + 1) as u64, ..self }.step_fits(area))
    }
}

/// The layers of the snake's cells `body` in the playing field `p`.
pub open spec fn body_layers(p: Rect, body: Seq<(u16, u16)>) -> Seq<(Shape, Cell)>
    decreases body.len(),
{
    if body.len() == 0 {
        seq![]
    } else {
        body_layers(p, body.drop_last()).push(
            (
                point_shape(p.x + body.last().0, p.y + body.last().1),
                Cell { ch: '█', style: fg_style(Color::BrightGreen) },
            ),
        )
    }
}

/// The score line.
pub open spec fn score_text(score: u32) -> Seq<char> {
    "score: "@ + dec(score as nat) + "  (arrows to move)"@
}

/// The operations of `Text` showing `t` in `r` in `st`.
pub open spec fn text_ops(r: Rect, t: Seq<char>, st: crate::style::Style) -> Seq<Op> {
    let rows = text_rows(t, false, r.w as int);
    rows_ops(rows, rows_at(r, Align::Left, rows), st, rows_shown(r, rows))
}

impl SnakeView {
    /// What the game shows in a window body `area`: the food and the snake in
    /// the playing field inside the border, the score on its top line, and
    /// GAME OVER in its middle once the snake is dead.
    pub open spec fn draw_ops(self, buf_area: Rect, area: Rect) -> Seq<Op> {
        let p = area.inset_spec(1, 1);
        let layers = seq![
            (point_shape(p.x + self.food.0, p.y + self.food.1), Cell { ch: '★', style: fg_style(Color::Yellow) }),
        ] + body_layers(p, self.body);
        layer_ops(layers, buf_area.intersect_spec(p)) + text_ops(
            Rect { h: 1, ..p },
            score_text(self.score),
            fg_style(Color::BrightBlack),
        ) + if self.dead {
            text_ops(p.centered_spec(12, 1), "GAME OVER"@, fg_style(Color::Red))
        } else {
            seq![]
        }
    }
}

impl SnakeApp {
    /// A three-cell snake heading right, with food ahead.
    pub fn new() -> (s: SnakeApp)
        ensures
            s@ == (SnakeView {
                body: seq![(5u16, 5u16), (4u16, 5u16), (3u16, 5u16)],
                dir: (1i16, 0i16),
                food: (10u16, 8u16),
                acc: 0,
                dead: false,
                score: 0,
            }),
            s@.wf(),
    {
        let s = SnakeApp { body: vec![(5, 5), (4, 5), (3, 5)], dir: (1, 0), food: (10, 8), acc: 0, dead: false, score: 0 };
        assert(s@.body =~= seq![(5u16, 5u16), (4u16, 5u16), (3u16, 5u16)]);
        s
    }

    /// The window title.
    pub fn title(&self) -> (t: String)
        ensures
            t@ == "Snake"@,
    {
        "Snake".to_string()
    }

    /// The smallest window the game fits in.
    pub fn min_size(&self) -> (r: (u16, u16))
        ensures
            r == (30u16, 16u16),
    {
        (30, 16)
    }

    /// The cells of the snake, head first.
    pub fn body(&self) -> (b: &Vec<(u16, u16)>)
        ensures
            b@ == self@.body,
    {
        &self.body
    }

    pub fn food(&self) -> (f: (u16, u16))
        ensures
            f == self@.food,
    {
        self.food
    }

    pub fn score(&self) -> (s: u32)
        ensures
            s == self@.score,
    {
        self.score
    }

    pub fn is_dead(&self) -> (d: bool)
        ensures
            d == self@.dead,
    {
        self.dead
    }

    /// Whether the next move in `area` can be made without overflow.
    fn step_fits(&self, area: Rect) -> (b: bool)
        requires
            self@.wf(),
        ensures
            b == self@.step_fits(area),
    {
        if self.dead {
            return true;
        }
        let p = area.inner();
        let (hx, hy) = self.body[0];
        let wx: i32 = hx as i16 as i32 + self.dir.0 as i32;
        let wy: i32 = hy as i16 as i32 + self.dir.1 as i32;
        if wx < -32768 || wx > 32767 || wy < -32768 || wy > 32767 {
            return false;
        }
        let nx = wx as i16;
        let ny = wy as i16;
        if nx < 0 || ny < 0 || nx >= p.w as i16 || ny >= p.h as i16 {
            return true;
        }
        let (ux, uy) = (nx as u16, ny as u16);
        if self.hits_body(ux, uy) {
            return true;
        }
        if ux == self.food.0 && uy == self.food.1 {
            return self.score < u32::MAX;
        }
        true
    }

    /// Whether [`SnakeApp::handle`] can take `ev` in a window whose body is
    /// `area` (the tick counter and the score have room to grow).
    pub fn can_handle(&self, ev: &Event, area: Rect) -> (b: bool)
        requires
            self@.wf(),
        ensures
            b == self@.accepts(*ev, area),
    {
        match ev {
            Event::Tick => {
                if self.acc == u64::MAX {
                    return false;
                }
                if (self.acc + 1) % 4 != 0 {
                    return true;
                }
                let b = self.step_fits(area);
                assert(SnakeView { acc: (self@.acc + 1) as u64, ..self@ }.step_fits(area) == self@.step_fits(area));
                b
            },
            _ => true,
        }
    }

    fn hits_body(&self, nx: u16, ny: u16) -> (b: bool)
        ensures
            b == occupied(self@.body, (nx, ny)),
    {
        let mut i: usize = 0;
        while i < self.body.len()
            invariant
                i <= self.body.len(),
                forall|j: int| 0 <= j < i ==> self@.body[j] != (nx, ny),
            decreases self.body.len() - i,
        {
            let (x, y) = self.body[i];
            if x == nx && y == ny {
                assert(self@.body[i as int] == (nx, ny));
                return true;
            }
            i = i + 1;
        }
        false
    }

    /// Move the snake one cell in the playing field inside `area`'s border.
    fn step(&mut self, area: Rect)
        requires
            old(self)@.wf(),
            old(self)@.step_fits(area),
        ensures
            final(self)@ == old(self)@.stepped(area),
            final(self)@.wf(),
    {
        if self.dead {
            return ;
        }
        let p = area.inner();
        let (hx, hy) = self.body[0];
        let nx = hx as i16 + self.dir.0;
        let ny = hy as i16 + self.dir.1;
        if nx < 0 || ny < 0 || nx >= p.w as i16 || ny >= p.h as i16 {
            self.dead = true;
            return ;
        }
        let (nx, ny) = (nx as u16, ny as u16);
        if self.hits_body(nx, ny) {
            self.dead = true;
            return ;
        }
        let ghost old_body = self@.body;
        if nx == self.food.0 && ny == self.food.1 {
            self.score = self.score + 1;
            self.body.insert(0, (nx, ny));
            let fw = if p.w > 1 {
                p.w
            } else {
                1
            };
            let fh = if p.h > 1 {
                p.h
            } else {
                1
            };
            self.food = ((self.acc as u16) % fw, ((self.acc / 7) as u16) % fh);
            assert(self@.body =~= seq![(nx, ny)] + old_body);
        } else {
            self.body.insert(0, (nx, ny));
            self.body.pop();
            assert(self@.body =~= (seq![(nx, ny)] + old_body).drop_last());
        }
    }

    /// React to an event in a window whose body is `area`.
    pub fn handle(&mut self, ev: &Event, area: Rect)
        requires
            old(self)@.wf(),
            old(self)@.accepts(*ev, area),
        ensures
            final(self)@ == old(self)@.after_event(*ev, area),
            final(self)@.wf(),
    {
        match ev {
            Event::Key(k) => match k.code {
                KeyCode::Up => {
                    if self.dir.1 == 0 {
                        self.dir = (0, -1);
                    }
                },
                KeyCode::Down => {
                    if self.dir.1 == 0 {
                        self.dir = (0, 1);
                    }
                },
                KeyCode::Left => {
                    if self.dir.0 == 0 {
                        self.dir = (-1, 0);
                    }
                },
                KeyCode::Right => {
                    if self.dir.0 == 0 {
                        self.dir = (1, 0);
                    }
                },
                _ => {},
            },
            Event::Tick => {
                self.acc = self.acc + 1;
                if self.acc % 4 == 0 {
                    self.step(area);
                }
            },
            _ => {},
        }
    }

    /// Draw the game into the window body `area`.
    pub fn draw(&self, frame: &mut Frame, area: Rect)
        requires
            old(frame).target().wf(),
            self@.dead ==> area.inset_spec(1, 1).x + area.inset_spec(1, 1).w / 2 <= 65535,
            self@.dead ==> area.inset_spec(1, 1).y + area.inset_spec(1, 1).h / 2 <= 65535,
        ensures
            paints(*old(frame).target(), *final(frame).target(), self@.draw_ops(old(frame).target().area, area)),
            *final(final(frame).target()) == *final(old(frame).target()),
            final(frame).same_state(old(frame)),
    {
        let ghost b0 = *frame.target();
        let p = area.inner();
        let ghost clip = b0.area.intersect_spec(p);
        let ghost food_layer = seq![
            (point_shape(p.x + self.food.0, p.y + self.food.1), Cell { ch: '★', style: fg_style(Color::Yellow) }),
        ];
        {
            let c = frame.canvas();
            let ghost cfin = *final(c.target());
            let mut c = c.clip(p);
            c.dot(p.x as i32 + self.food.0 as i32, p.y as i32 + self.food.1 as i32, '★', Style::new().fg(Color::Yellow));
            let mut i: usize = 0;
            while i < self.body.len()
                invariant
                    i <= self.body.len(),
                    c.clip_rect() == clip,
                    *final(c.target()) == cfin,
                    drawn(b0, *c.target(), clip, food_layer + body_layers(p, self@.body.take(i as int))),
                decreases self.body.len() - i,
            {
                let (x, y) = self.body[i];
                let ghost mid = *c.target();
                c.dot(p.x as i32 + x as i32, p.y as i32 + y as i32, '█', Style::new().fg(Color::BrightGreen));
                proof {
                    let l = seq![(point_shape(p.x + x, p.y + y), Cell { ch: '█', style: fg_style(Color::BrightGreen) })];
                    lemma_drawn_compose(b0, mid, *c.target(), clip, food_layer + body_layers(p, self@.body.take(i as int)), l);
                    assert(self@.body.take(i + 1).drop_last() =~= self@.body.take(i as int));
                    assert(food_layer + body_layers(p, self@.body.take(i as int)) + l =~= food_layer + body_layers(
                        p,
                        self@.body.take(i + 1),
                    ));
                }
                i = i + 1;
            }
            proof {
                assert(self@.body.take(i as int) =~= self@.body);
                lemma_drawn_paints(b0, *c.target(), clip, food_layer + body_layers(p, self@.body));
            }
            assert(*c.target() == cfin);
        }
        let ghost b1 = *frame.target();
        let ghost o1 = layer_ops(food_layer + body_layers(p, self@.body), clip);
        let mut line = String::new();
        line.append("score: ");
        push_dec(&mut line, self.score);
        line.append("  (arrows to move)");
        let r = Rect::new(p.x, p.y, p.w, 1);
        {
            let buf = frame.buffer();
            Text::new(buf, r).fg(Color::BrightBlack).draw(line.as_str());
        }
        let ghost b2 = *frame.target();
        let ghost o2 = text_ops(r, score_text(self.score), fg_style(Color::BrightBlack));
        proof {
            let rows = text_rows(line@, false, r.w as int);
            lemma_rows_paint(b1, b2, rows, rows_at(r, Align::Left, rows), fg_style(Color::BrightBlack), rows_shown(r, rows));
            lemma_paints_compose(b0, b1, b2, o1, o2);
        }
        if self.dead {
            let g = p.centered(12, 1);
            {
                let buf = frame.buffer();
                Text::new(buf, g).fg(Color::Red).draw("GAME OVER");
            }
            proof {
                let rows = text_rows("GAME OVER"@, false, g.w as int);
                lemma_rows_paint(b2, *frame.target(), rows, rows_at(g, Align::Left, rows), fg_style(Color::Red), rows_shown(g, rows));
                lemma_paints_compose(b0, b2, *frame.target(), o1 + o2, text_ops(g, "GAME OVER"@, fg_style(Color::Red)));
            }
        } else {
            proof {
                assert(o1 + o2 + seq![] =~= o1 + o2);
            }
        }
    }
}

/// Eating grows the snake by one cell; any other live move keeps its length.
pub proof fn law_snake_length(s: SnakeView, area: Rect)
    requires
        s.wf(),
        s.score < u32::MAX,
    ensures
        ({
            let t = s.stepped(area);
            &&& t.score == s.score + 1 ==> t.body.len() == s.body.len() + 1
            &&& t.score == s.score ==> t.body.len() == s.body.len()
            &&& t.body.len() > 0
        }),
{
}

/// A dead snake stays where it is.
pub proof fn law_dead_snake_rests(s: SnakeView, area: Rect)
    requires
        s.dead,
    ensures
        s.stepped(area) == s,
{
}

} // verus!
