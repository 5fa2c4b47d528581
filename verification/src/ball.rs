//! The bouncing ball: a disc that moves by its velocity every tick and
//! turns back at the walls, swapping its colour with the background's
//! whenever it does.

use vstd::prelude::*;
use crate::buffer::{fill, on_grid, pixel, set_pixel, FRAME_BYTES, HEIGHT, WIDTH};
use crate::color::{black, white, Color};

verus! {

/// A disc on the grid.
#[derive(Copy, Clone, Debug, PartialEq, Eq)]
pub struct Ball {
    pub position: (isize, isize),
    pub velocity: (isize, isize),
    pub radius: isize,
}

/// The ball with the colour it is drawn in and the colour of the background.
#[derive(Copy, Clone, Debug, PartialEq, Eq)]
pub struct Scene {
    pub ball: Ball,
    pub ball_color: Color,
    pub bg_color: Color,
}

/// A ball of radius `radius` centred at `p` on an axis of length `extent`
/// reaches a wall with its leading or its trailing edge.
pub open spec fn axis_hit(p: int, radius: int, extent: int) -> bool {
    p - radius <= 0 || p + radius >= extent
}

/// Position and velocity on one axis after a tick: the ball moves by `v`,
/// and where that reaches a wall the velocity is reversed and applied once
/// more.
pub open spec fn bounce(p: int, v: int, radius: int, extent: int) -> (int, int) {
    if axis_hit(p + v, radius, extent) {
        (p + v - v, -v)
    } else {
        (p + v, v)
    }
}

/// The moves of one tick on this axis stay within `isize`.
pub open spec fn axis_fits(p: int, v: int, radius: int) -> bool {
    isize::MIN <= p + v - radius && p + v + radius <= isize::MAX && isize::MIN < v
}

/// `w` is the square root of `n`, rounded to the nearest integer.
pub open spec fn is_rounded_root(n: int, w: int) -> bool {
    0 <= w && n <= w * w + w && (w == 0 || w * w - w < n)
}

/// The offset `(dx, dy)` from the centre belongs to the disc of radius
/// `radius` as it is drawn: `dy` is one of the rows `-radius .. radius`, and
/// `dx` lies in `-w .. w` for `w` the rounded square root of
/// `radius^2 - dy^2`, which is to say that `dx^2 + dx + dy^2 < radius^2`.
pub open spec fn in_disc(dx: int, dy: int, radius: int) -> bool {
    -radius <= dy < radius && dx * dx + dx + dy * dy < radius * radius
}

/// On the row `dy` of a disc, the offsets that `in_disc` holds of are
/// those from `-w` up to `w`, where `w` is the rounded square root of
/// `radius^2 - dy^2`.
pub proof fn lemma_row_span(radius: int, dy: int, w: int)
    requires
        -radius <= dy < radius,
        is_rounded_root(radius * radius - dy * dy, w),
    ensures
        forall|dx: int| #[trigger] in_disc(dx, dy, radius) <==> -w <= dx < w,
{
    let n = radius * radius - dy * dy;
    assert forall|dx: int| #[trigger] in_disc(dx, dy, radius) <==> -w <= dx < w by {
        if dx >= w {
            assert(dx * dx + dx >= w * w + w) by (nonlinear_arith)
                requires
                    dx >= w,
                    w >= 0,
            ;
        } else if dx >= 0 {
            assert(dx * dx + dx <= w * w - w) by (nonlinear_arith)
                requires
                    0 <= dx <= w - 1,
            ;
        } else if dx >= -w {
            assert(dx * dx + dx <= w * w - w) by (nonlinear_arith)
                requires
                    -w <= dx < 0,
            ;
        } else {
            assert(dx * dx + dx >= w * w + w) by (nonlinear_arith)
                requires
                    dx <= -w - 1,
                    w >= 0,
            ;
        }
    }
}

/// The square root of `n`, rounded to the nearest integer.
pub fn rounded_sqrt(n: u32) -> (w: u32)
    ensures
        is_rounded_root(n as int, w as int),
        w <= 65536,
{
    let mut w: u64 = 0;
    let mut t: u64 = 0;
    while t < n as u64
        invariant
            t == w * (w + 1),
            w <= 65536,
            w == 0 || t - 2 * w < n,
        decreases 65536 - w,
    {
        assert(w < 65536) by (nonlinear_arith)
            requires
                t == w * (w + 1),
                t < 0x1_0000_0000,
                w >= 0,
        ;
        assert((w + 1) * (w + 2) == w * (w + 1) + 2 * (w + 1)) by (nonlinear_arith);
        t = t + 2 * (w + 1);
        w = w + 1;
    }
    assert(w * w + w == w * (w + 1)) by (nonlinear_arith);
    assert(w * w - w == w * (w + 1) - 2 * w) by (nonlinear_arith);
    w as u32
}

impl Ball {
    /// The ball lies within the walls on both axes.
    pub open spec fn inside(self) -> bool {
        &&& self.radius <= self.position.0 <= WIDTH - self.radius
        &&& self.radius <= self.position.1 <= HEIGHT - self.radius
    }

    /// Pixel `(x, y)` is drawn as part of the ball.
    pub open spec fn covers(self, x: int, y: int) -> bool {
        in_disc(x - self.position.0, y - self.position.1, self.radius as int)
    }

    /// The ball has a radius and every pixel of it is on the grid.
    pub open spec fn drawable(self) -> bool {
        &&& 0 <= self.radius
        &&& forall|x: int, y: int| #[trigger] self.covers(x, y) ==> on_grid(x, y)
    }

    /// One tick can be computed in `isize` on both axes.
    pub open spec fn can_update(self) -> bool {
        &&& 0 <= self.radius
        &&& axis_fits(self.position.0 as int, self.velocity.0 as int, self.radius as int)
        &&& axis_fits(self.position.1 as int, self.velocity.1 as int, self.radius as int)
    }

    /// The ball reaches a wall in the coming tick.
    pub open spec fn hits(self) -> bool {
        ||| axis_hit(self.position.0 + self.velocity.0, self.radius as int, WIDTH as int)
        ||| axis_hit(self.position.1 + self.velocity.1, self.radius as int, HEIGHT as int)
    }

    /// The ball after one tick.
    pub open spec fn moved(self) -> Ball {
        let x = bounce(
            self.position.0 as int,
            self.velocity.0 as int,
            self.radius as int,
            WIDTH as int,
        );
        let y = bounce(
            self.position.1 as int,
            self.velocity.1 as int,
            self.radius as int,
            HEIGHT as int,
        );
        Ball {
            position: (x.0 as isize, y.0 as isize),
            velocity: (x.1 as isize, y.1 as isize),
            radius: self.radius,
        }
    }

    /// A ball within the walls is drawn on the grid only.
    pub proof fn lemma_inside_is_drawable(self)
        requires
            0 <= self.radius,
            self.inside(),
        ensures
            self.drawable(),
    {
        let r = self.radius as int;
        assert forall|x: int, y: int| #[trigger] self.covers(x, y) implies on_grid(x, y) by {
            let dx = x - self.position.0;
            let dy = y - self.position.1;
            if dx >= r {
                assert(dx * dx + dx + dy * dy >= r * r) by (nonlinear_arith)
                    requires
                        dx >= r,
                        r >= 0,
                ;
            }
            if dx < -r {
                assert(dx * dx + dx + dy * dy >= r * r) by (nonlinear_arith)
                    requires
                        dx <= -r - 1,
                        r >= 0,
                ;
            }
        }
    }

    /// A ball within the walls is within them after any tick: it is either
    /// clear of the walls at its new place, or back where it was.
    pub proof fn lemma_moved_stays_inside(self)
        requires
            self.inside(),
            self.can_update(),
        ensures
            self.moved().inside(),
            self.moved().radius == self.radius,
    {
    }

    /// Whether the ball lies within the walls on both axes.
    pub fn is_inside(&self) -> (ok: bool)
        ensures
            ok == (0 <= self.radius && self.inside()),
    {
        0 <= self.radius && self.radius <= 256 && self.radius <= self.position.0
            && self.position.0 <= 256 - self.radius && self.radius <= self.position.1
            && self.position.1 <= 256 - self.radius
    }

    /// Whether one tick can be computed in `isize` on both axes.
    pub fn fits_update(&self) -> (ok: bool)
        ensures
            ok == self.can_update(),
    {
        if self.radius < 0 {
            return false;
        }
        let x = self.position.0.checked_add(self.velocity.0);
        let y = self.position.1.checked_add(self.velocity.1);
        match (x, y) {
            (Some(x), Some(y)) => x.checked_sub(self.radius).is_some() && x.checked_add(
                self.radius,
            ).is_some() && y.checked_sub(self.radius).is_some() && y.checked_add(
                self.radius,
            ).is_some() && self.velocity.0 > isize::MIN && self.velocity.1 > isize::MIN,
            _ => false,
        }
    }

    /// Draws the ball in `color`: a filled disc, row by row.
    pub fn draw(&self, buf: &mut [u8], color: Color)
        requires
            old(buf)@.len() == FRAME_BYTES,
            self.drawable(),
        ensures
            final(buf)@.len() == FRAME_BYTES,
            forall|x: int, y: int|
                on_grid(x, y) ==> #[trigger] pixel(final(buf)@, x, y) == if self.covers(x, y) {
                    color
                } else {
                    pixel(old(buf)@, x, y)
                },
    {
        let r = self.radius;
        if r == 0 {
            return ;
        }
        let px = self.position.0;
        let py = self.position.1;
        proof {
            assert(in_disc(-r as int, 0, r as int)) by (nonlinear_arith)
                requires
                    r >= 1,
            ;
            assert(self.covers(px - r, py as int));
            assert(in_disc(r - 1, 0, r as int)) by (nonlinear_arith)
                requires
                    r >= 1,
            ;
            assert(self.covers(px + r - 1, py as int));
        }
        let mut dy: isize = -r;
        while dy < r
            invariant
                r == self.radius,
                px == self.position.0,
                py == self.position.1,
                1 <= r <= 128,
                0 <= px < 256,
                0 <= py < 256,
                -r <= dy <= r,
                self.drawable(),
                buf@.len() == FRAME_BYTES,
                forall|x: int, y: int|
                    on_grid(x, y) ==> #[trigger] pixel(buf@, x, y) == if y - py < dy
                        && self.covers(x, y) {
                        color
                    } else {
                        pixel(old(buf)@, x, y)
                    },
            decreases r - dy,
        {
            assert(0 <= dy * dy <= r * r <= 128 * 128) by (nonlinear_arith)
                requires
                    -r <= dy < r,
                    1 <= r <= 128,
            ;
            let n: isize = r * r - dy * dy;
            let width: isize = rounded_sqrt(n as u32) as isize;
            proof {
                lemma_row_span(r as int, dy as int, width as int);
                assert(width <= r) by (nonlinear_arith)
                    requires
                        width * width - width < r * r - dy * dy || width == 0,
                        r >= 1,
                        width >= 0,
                ;
            }
            let mut dx: isize = -width;
            while dx < width
                invariant
                    r == self.radius,
                    px == self.position.0,
                    py == self.position.1,
                    1 <= r <= 128,
                    0 <= px < 256,
                    0 <= py < 256,
                    -r <= dy < r,
                    0 <= width <= r,
                    -width <= dx <= width,
                    self.drawable(),
                    forall|d: int| #[trigger] in_disc(d, dy as int, r as int) <==> -width <= d < width,
                    buf@.len() == FRAME_BYTES,
                    forall|x: int, y: int|
                        on_grid(x, y) ==> #[trigger] pixel(buf@, x, y) == if (y - py < dy || (y - py
                            == dy && x - px < dx)) && self.covers(x, y) {
                            color
                        } else {
                            pixel(old(buf)@, x, y)
                        },
                decreases width - dx,
            {
                let x = px + dx;
                let y = py + dy;
                assert(self.covers(x as int, y as int)) by {
                    assert(in_disc(dx as int, dy as int, r as int));
                }
                set_pixel(buf, x as usize, y as usize, color);
                dx += 1;
            }
            dy += 1;
        }
    }

    /// Moves the ball by its velocity and turns it back at the walls. On
    /// each axis where an edge of the ball has reached a wall, the velocity
    /// is reversed and applied once, which takes the ball back to where it
    /// was. Says whether a wall was reached.
    pub fn update(&mut self) -> (hit: bool)
        requires
            old(self).can_update(),
        ensures
            *final(self) == old(self).moved(),
            hit == old(self).hits(),
            old(self).inside() ==> final(self).inside(),
    {
        self.position = (self.position.0 + self.velocity.0, self.position.1 + self.velocity.1);
        let mut hit = false;
        if self.position.0 - self.radius <= 0 || self.position.0 + self.radius >= WIDTH as isize {
            self.velocity = (-self.velocity.0, self.velocity.1);
            self.position = (self.position.0 + self.velocity.0, self.position.1);
            hit = true;
        }
        if self.position.1 - self.radius <= 0 || self.position.1 + self.radius >= HEIGHT as isize {
            self.velocity = (self.velocity.0, -self.velocity.1);
            self.position = (self.position.0, self.position.1 + self.velocity.1);
            hit = true;
        }
        hit
    }
}

impl Scene {
    /// The ball and the background are black and white, one each.
    pub open spec fn complementary(self) -> bool {
        ||| self.ball_color == black() && self.bg_color == white()
        ||| self.ball_color == white() && self.bg_color == black()
    }

    /// The scene after one tick: the ball has moved, and the two colours
    /// have changed places if and only if it reached a wall.
    pub open spec fn advanced(self) -> Scene {
        Scene {
            ball: self.ball.moved(),
            ball_color: if self.ball.hits() { self.bg_color } else { self.ball_color },
            bg_color: if self.ball.hits() { self.ball_color } else { self.bg_color },
        }
    }

    /// The scene in which every run starts: a black ball of radius 10 at
    /// (111, 37), moving by (5, 3), on white.
    pub fn new() -> (s: Scene)
        ensures
            s == (Scene {
                ball: Ball { position: (111, 37), velocity: (5, 3), radius: 10 },
                ball_color: black(),
                bg_color: white(),
            }),
            s.complementary(),
            s.ball.inside(),
            s.ball.can_update(),
    {
        Scene {
            ball: Ball { position: (111, 37), velocity: (5, 3), radius: 10 },
            ball_color: Color::black(),
            bg_color: Color::white(),
        }
    }

    /// The colours stay a complementary pair, and a ball within the walls
    /// stays within them, over every tick.
    pub proof fn lemma_advanced_keeps_invariants(self)
        requires
            self.ball.can_update(),
        ensures
            self.complementary() ==> self.advanced().complementary(),
            self.ball.inside() ==> self.advanced().ball.inside(),
    {
    }
}

/// One tick into `frame_buffer`, which holds `WIDTH * HEIGHT` pixels of four
/// bytes: the background is painted, the ball moves, and it is drawn where
/// it now is. The picture is in the colours that the call began with; when
/// the ball has reached a wall, the two change places for the frames to come.
pub fn frame(scene: &mut Scene, frame_buffer: &mut [u8])
    requires
        old(frame_buffer)@.len() == FRAME_BYTES,
        old(scene).ball.can_update(),
        old(scene).ball.moved().drawable(),
    ensures
        *final(scene) == old(scene).advanced(),
        old(scene).complementary() ==> final(scene).complementary(),
        old(scene).ball.inside() ==> final(scene).ball.inside(),
        final(frame_buffer)@.len() == FRAME_BYTES,
        forall|x: int, y: int|
            on_grid(x, y) ==> #[trigger] pixel(final(frame_buffer)@, x, y) == if old(
                scene,
            ).ball.moved().covers(x, y) {
                old(scene).ball_color
            } else {
                old(scene).bg_color
            },
{
    fill(frame_buffer, scene.bg_color);
    let hit = scene.ball.update();
    scene.ball.draw(frame_buffer, scene.ball_color);
    if hit {
        let c = scene.ball_color;
        scene.ball_color = scene.bg_color;
        scene.bg_color = c;
    }
}

} // verus!
