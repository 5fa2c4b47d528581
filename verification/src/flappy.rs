//! The side-scrolling game: a bird under gravity flies through gaps in
//! pillars that scroll in from the right.

use vstd::prelude::*;
use crate::buffer::{fill, on_grid, pixel, set_pixel, FRAME_BYTES};
use crate::color::{rgb_color, Color};

verus! {

pub const BIRD_HEIGHT: u32 = 7;

pub const BIRD_WIDTH: u32 = 10;

pub const BIRD_X: u32 = 10;

pub const WIDTH: u32 = 256;

pub const HEIGHT: u32 = 256;

/// Fixed-point scale of the bird's vertical position: the bird is drawn at
/// row `bird / DAMPEN`.
pub const DAMPEN: u32 = 8;

/// Upward speed that a flap gives, in fixed-point units per tick.
pub const INCREASE_VELOCITY: i32 = 20;

pub const NOBSTACLE: usize = 2;

pub const OBSTACLE_WIDTH: u32 = 20;

pub const OBSTACLE_SPEED: u32 = 2;

/// The bird lives while its fixed-point position is below this bound.
pub const BIRD_LIMIT: u32 = (HEIGHT - BIRD_HEIGHT) * DAMPEN;

/// Fixed-point position of the bird at the start of a game.
pub const BIRD_START: u32 = (HEIGHT / 4) * DAMPEN;

/// A pillar with a gap. `pos` is its left edge; the gap spans the rows
/// `gap_pos .. gap_pos + gap_width`. The other fields of an inactive
/// obstacle mean nothing.
#[derive(Copy, Clone, Debug, PartialEq, Eq, Structural)]
pub struct Obstacle {
    pub pos: u32,
    pub gap_width: u32,
    pub gap_pos: u32,
    pub active: bool,
}

/// The gap that the next spawned obstacle gets.
#[derive(Copy, Clone, Debug, PartialEq, Eq, Structural)]
pub struct Gap {
    pub width: u32,
    pub pos: u32,
}

/// The whole game state.
#[derive(Copy, Clone, Debug, PartialEq, Eq)]
pub struct State {
    pub time: u32,
    pub dead: bool,
    pub bird: u32,
    pub velocity: i32,
    pub obstacles: [Obstacle; 2],
}

/// What a `State` holds, with the obstacle slots as a sequence.
pub struct StateView {
    pub time: u32,
    pub dead: bool,
    pub bird: u32,
    pub velocity: i32,
    pub obstacles: Seq<Obstacle>,
}

impl View for State {
    type V = StateView;

    open spec fn view(&self) -> StateView {
        StateView {
            time: self.time,
            dead: self.dead,
            bird: self.bird,
            velocity: self.velocity,
            obstacles: self.obstacles@,
        }
    }
}

/// An unused obstacle slot.
pub open spec fn idle() -> Obstacle {
    Obstacle { pos: 0, gap_width: 0, gap_pos: 0, active: false }
}

/// The state in which every game starts.
pub open spec fn initial() -> StateView {
    StateView {
        time: 0,
        dead: false,
        bird: BIRD_START,
        velocity: 0,
        obstacles: Seq::new(NOBSTACLE as nat, |i: int| idle()),
    }
}

/// An active obstacle lies on the grid and its gap ends above the bottom row.
pub open spec fn obstacle_ok(o: Obstacle) -> bool {
    o.active ==> o.pos <= WIDTH && o.gap_pos + o.gap_width <= HEIGHT
}

/// The two closed ranges `a1..=b1` and `a2..=b2` share a point: the start of
/// one lies inside the other.
pub open spec fn ranges_intersect(a1: int, b1: int, a2: int, b2: int) -> bool {
    (a2 <= a1 <= b2) || (a1 <= a2 <= b1)
}

/// Two boxes, each given by its corner and its extent, intersect on both axes.
pub open spec fn boxes_intersect(
    x1: int,
    y1: int,
    w1: int,
    h1: int,
    x2: int,
    y2: int,
    w2: int,
    h2: int,
) -> bool {
    ranges_intersect(x1, x1 + w1, x2, x2 + w2) && ranges_intersect(y1, y1 + h1, y2, y2 + h2)
}

/// The bird drawn at row `y` touches the solid part of `o`, above or below
/// its gap.
pub open spec fn strikes(y: int, o: Obstacle) -> bool {
    o.active && (boxes_intersect(
        BIRD_X as int,
        y,
        BIRD_WIDTH as int,
        BIRD_HEIGHT as int,
        o.pos as int,
        0,
        OBSTACLE_WIDTH as int,
        o.gap_pos as int,
    ) || boxes_intersect(
        BIRD_X as int,
        y,
        BIRD_WIDTH as int,
        BIRD_HEIGHT as int,
        o.pos as int,
        o.gap_pos + o.gap_width,
        OBSTACLE_WIDTH as int,
        HEIGHT - o.gap_pos - o.gap_width,
    ))
}

/// One of the first `n` obstacles of `s` is struck by the bird at row `y`.
pub open spec fn any_strike(y: int, s: Seq<Obstacle>, n: int) -> bool {
    exists|i: int| 0 <= i < n && #[trigger] strikes(y, s[i])
}

/// An obstacle after one tick of scrolling: it moves left by
/// `OBSTACLE_SPEED`, or leaves the game where that would take it past the
/// left edge.
pub open spec fn scrolled(o: Obstacle) -> Obstacle {
    if !o.active {
        o
    } else if o.pos < OBSTACLE_SPEED {
        Obstacle { active: false, ..o }
    } else {
        Obstacle { pos: (o.pos - OBSTACLE_SPEED) as u32, ..o }
    }
}

/// Every obstacle of `s` scrolled.
pub open spec fn scroll_all(s: Seq<Obstacle>) -> Seq<Obstacle> {
    Seq::new(s.len(), |i: int| scrolled(s[i]))
}

/// `o` is active and still within `WIDTH / NOBSTACLE` of the right edge.
pub open spec fn near_right_edge(o: Obstacle) -> bool {
    o.active && WIDTH - o.pos < WIDTH / (NOBSTACLE as u32)
}

/// One of the first `n` obstacles of `s` is near the right edge: the
/// rightmost active one is, then.
pub open spec fn edge_taken(s: Seq<Obstacle>, n: int) -> bool {
    exists|i: int| 0 <= i < n && #[trigger] near_right_edge(s[i])
}

/// One of the first `n` obstacles of `s` is active.
pub open spec fn any_active(s: Seq<Obstacle>, n: int) -> bool {
    exists|i: int| 0 <= i < n && (#[trigger] s[i]).active
}

/// The spawn rule asks for an obstacle: the rightmost active one is within
/// `WIDTH / NOBSTACLE` of the right edge, or none is active.
pub open spec fn spawn_wanted(s: Seq<Obstacle>) -> bool {
    edge_taken(s, s.len() as int) || !any_active(s, s.len() as int)
}

/// The index of the first inactive slot of `s` at or after `from`, or
/// `s.len()` where there is none.
pub open spec fn first_free(s: Seq<Obstacle>, from: int) -> int
    decreases s.len() - from,
{
    if from < 0 || from >= s.len() {
        s.len() as int
    } else if !s[from].active {
        from
    } else {
        first_free(s, from + 1)
    }
}

/// The obstacle that enters at the right edge with gap `gap`.
pub open spec fn entering(gap: Gap) -> Obstacle {
    Obstacle { pos: WIDTH, gap_width: gap.width, gap_pos: gap.pos, active: true }
}

/// The slots `s` after the spawn rule: where an obstacle is wanted and a
/// slot is inactive, the first inactive slot gets the entering obstacle.
pub open spec fn spawned(s: Seq<Obstacle>, gap: Gap) -> Seq<Obstacle> {
    let slot = first_free(s, 0);
    if spawn_wanted(s) && slot < s.len() {
        s.update(slot, entering(gap))
    } else {
        s
    }
}

/// The bird's fixed-point position can take the step of its velocity.
pub open spec fn bird_survives(m: StateView) -> bool {
    0 <= m.bird + m.velocity < BIRD_LIMIT
}

/// The state after the physics step: the bird moves by its velocity or dies
/// where that leaves the playing field, the obstacles scroll, and one may
/// enter.
pub open spec fn stepped(m: StateView, gap: Gap) -> StateView {
    StateView {
        bird: if bird_survives(m) { (m.bird + m.velocity) as u32 } else { m.bird },
        dead: m.dead || !bird_survives(m),
        obstacles: spawned(scroll_all(m.obstacles), gap),
        ..m
    }
}

/// The state after collision detection: a living bird dies where it strikes
/// an obstacle.
pub open spec fn collided(m: StateView) -> StateView {
    StateView {
        dead: m.dead || any_strike(m.bird as int / DAMPEN as int, m.obstacles, m.obstacles.len() as int),
        ..m
    }
}

/// The state as the physics step finds it: gravity has added one to the
/// velocity, or a flap has set it.
pub open spec fn primed(m: StateView, key_down: bool) -> StateView {
    if key_down {
        StateView { velocity: (-INCREASE_VELOCITY) as i32, ..m }
    } else {
        StateView { velocity: (m.velocity + 1) as i32, ..m }
    }
}

/// The state after the part of a tick that follows the input: the physics
/// step, collision detection, and one more on the clock.
pub open spec fn played(m: StateView, gap: Gap) -> StateView {
    let c = collided(stepped(m, gap));
    StateView { time: (c.time + 1) as u32, ..c }
}

/// The state after one tick. A dead game stays as it is until a key is
/// down, and is then put back to the initial state; a living one is played.
pub open spec fn ticked(m: StateView, key_down: bool, gap: Gap) -> StateView {
    if !m.dead {
        played(primed(m, key_down), gap)
    } else if key_down {
        initial()
    } else {
        m
    }
}

/// The coming tick lets an obstacle enter, and so makes use of the gap that
/// it is given.
pub open spec fn spawn_due(m: StateView) -> bool {
    let s = scroll_all(m.obstacles);
    !m.dead && spawn_wanted(s) && first_free(s, 0) < s.len()
}

/// The tick from `m` overflows neither the clock nor the velocity.
pub open spec fn can_tick(m: StateView, key_down: bool) -> bool {
    m.dead || (m.time < u32::MAX && (!key_down ==> m.velocity < i32::MAX))
}

impl Gap {
    /// The gap is one that the spawn rule allows: between 30 and 49 rows
    /// wide, with at least 20 rows of pillar above it and more than 20 below.
    pub open spec fn in_range(self) -> bool {
        30 <= self.width < 50 && 20 <= self.pos < 20 + (HEIGHT - self.width - 40)
    }

    /// The number of values that the second roll of `from_rolls` may take
    /// after `width_roll`.
    pub open spec fn span(width_roll: int) -> int {
        HEIGHT - (30 + width_roll) - 40
    }

    /// The number of positions open to a gap whose width roll is
    /// `width_roll`, or `None` where that roll is 20 or more.
    pub fn pos_span(width_roll: u32) -> (n: Option<u32>)
        ensures
            n == if width_roll < 20 {
                Some(Self::span(width_roll as int) as u32)
            } else {
                None
            },
    {
        if width_roll < 20 {
            Some(HEIGHT - (30 + width_roll) - 40)
        } else {
            None
        }
    }

    /// The gap for two uniform rolls, the first below 20 and the second below
    /// `span` of the first; `None` for any other pair.
    pub fn from_rolls(width_roll: u32, pos_roll: u32) -> (gap: Option<Gap>)
        ensures
            gap == if width_roll < 20 && pos_roll < Self::span(width_roll as int) {
                Some(Gap { width: (30 + width_roll) as u32, pos: (20 + pos_roll) as u32 })
            } else {
                None
            },
            gap is Some ==> gap->0.in_range(),
    {
        if width_roll < 20 && pos_roll < HEIGHT - (30 + width_roll) - 40 {
            Some(Gap { width: 30 + width_roll, pos: 20 + pos_roll })
        } else {
            None
        }
    }
}

/// Whether the closed ranges `a1..=b1` and `a2..=b2` intersect.
pub fn intersects_range(a1: u32, b1: u32, a2: u32, b2: u32) -> (hit: bool)
    requires
        a1 <= b1,
        a2 <= b2,
    ensures
        hit == ranges_intersect(a1 as int, b1 as int, a2 as int, b2 as int),
        hit == (a1 <= b2 && a2 <= b1),
{
    (a2 <= a1 && a1 <= b2) || (a1 <= a2 && a2 <= b1)
}

/// Whether two boxes, each given by its corner and its extent, intersect.
pub fn intersects(x1: u32, y1: u32, w1: u32, h1: u32, x2: u32, y2: u32, w2: u32, h2: u32) -> (hit:
    bool)
    requires
        x1 + w1 <= u32::MAX,
        y1 + h1 <= u32::MAX,
        x2 + w2 <= u32::MAX,
        y2 + h2 <= u32::MAX,
    ensures
        hit == boxes_intersect(
            x1 as int,
            y1 as int,
            w1 as int,
            h1 as int,
            x2 as int,
            y2 as int,
            w2 as int,
            h2 as int,
        ),
{
    intersects_range(x1, x1 + w1, x2, x2 + w2) && intersects_range(y1, y1 + h1, y2, y2 + h2)
}

/// The bird's bitmap, row by row, ten `0xRRGGBB` values per row.
pub open spec fn sprite() -> Seq<u32> {
    seq![
        0xffffff, 0xffffff, 0xffffff, 0x99b274, 0xb2b455, 0x8d8f64, 0xa6a7a6, 0xffffff, 0xffffff, 0xffffff,
        0xffffff, 0xffffff, 0x929139, 0xf4ec50, 0xe7e04c, 0xcac7be, 0xfffffe, 0xbeb9b9, 0xffffff, 0xffffff,
        0x9db492, 0xd0cac7, 0xcac8c0, 0xded780, 0xd4c843, 0xc7c3c7, 0xfdfffd, 0xd0ced0, 0xa5aea4, 0xffffff,
        0xa5a77e, 0xffffe5, 0xffffef, 0xbebe9a, 0xe0d949, 0xd9d26d, 0xbfb5b8, 0xcbc0be, 0x94827e, 0xffffff,
        0xffffff, 0xbfbd67, 0xd1cf76, 0xceb94b, 0xeada55, 0xbd9c49, 0xa83129, 0xab4a2e, 0xb34841, 0x8e7656,
        0xffffff, 0x637146, 0xb38032, 0xf5c550, 0xf1c450, 0xbf844e, 0xb05051, 0xb65750, 0xa3424b, 0xffffff,
        0xffffff, 0xffffff, 0xffffff, 0xa4884b, 0xb18d4a, 0xa38a4a, 0x6f8252, 0xffffff, 0xffffff, 0xffffff,
    ]
}

/// The colour of the bitmap at column `xi` of row `yi`.
pub open spec fn texel(xi: int, yi: int) -> Color {
    rgb_color(sprite()[yi * 10 + xi])
}

/// The bitmap's sentinel: a texel whose red, green and blue channels are all
/// `0xff` is not drawn.
pub open spec fn transparent(c: Color) -> bool {
    c.r == 0xff && c.g == 0xff && c.b == 0xff
}

/// The background: a red wash once the bird is dead, green while it lives.
pub open spec fn backdrop(dead: bool) -> Color {
    if dead {
        Color { r: 0xff, g: 0xbe, b: 0xbe, a: 255 }
    } else {
        Color { r: 0x80, g: 0xe2, b: 0x7e, a: 255 }
    }
}

/// What the bird, drawn at row `bird_y`, puts at pixel `(x, y)`, if anything.
pub open spec fn sprite_at(bird_y: int, x: int, y: int) -> Option<Color> {
    let xi = x - BIRD_X;
    let yi = y - bird_y;
    if 0 <= xi < BIRD_WIDTH && 0 <= yi < BIRD_HEIGHT && !transparent(texel(xi, yi)) {
        Some(texel(xi, yi))
    } else {
        None
    }
}

/// Pixel `(x, y)` belongs to the solid part of the active obstacle `o`: the
/// rows down to the gap's first, and those from the gap's end on.
pub open spec fn pillar_covers(o: Obstacle, x: int, y: int) -> bool {
    o.active && o.pos <= x < o.pos + OBSTACLE_WIDTH && (y <= o.gap_pos || y >= o.gap_width
        + o.gap_pos)
}

/// The texture of a pillar: grey on its left and right edges, on every
/// eighth row, and in the middle column of every other band of eight rows;
/// red elsewhere.
pub open spec fn pillar_color(o: Obstacle, x: int, y: int) -> Color {
    if x == o.pos || y % 8 == 0 || x == o.pos + OBSTACLE_WIDTH - 1 || ((y / 8) % 2 == 0 && x
        == o.pos + OBSTACLE_WIDTH / 2) {
        Color { r: 0x88, g: 0x88, b: 0x88, a: 255 }
    } else {
        Color { r: 0xbd, g: 0x16, b: 0x16, a: 255 }
    }
}

/// The colour at `(x, y)` once the first `n` obstacles of `s` are drawn, in
/// order, over a pixel of colour `under`.
pub open spec fn pillars_over(s: Seq<Obstacle>, n: int, x: int, y: int, under: Color) -> Color
    decreases n,
{
    if n <= 0 {
        under
    } else if pillar_covers(s[n - 1], x, y) {
        pillar_color(s[n - 1], x, y)
    } else {
        pillars_over(s, n - 1, x, y, under)
    }
}

/// The colour at `(x, y)` of the bird on its background.
pub open spec fn bird_layer(m: StateView, x: int, y: int) -> Color {
    match sprite_at(m.bird as int / DAMPEN as int, x, y) {
        Some(c) => c,
        None => backdrop(m.dead),
    }
}

/// The colour at `(x, y)` of the picture of `m`: background, then the bird,
/// then the obstacles in slot order.
pub open spec fn scene(m: StateView, x: int, y: int) -> Color {
    pillars_over(m.obstacles, m.obstacles.len() as int, x, y, bird_layer(m, x, y))
}

/// The colour of the bird's bitmap at column `xi` of row `yi`.
pub fn bird_texel(xi: u32, yi: u32) -> (c: Color)
    requires
        xi < BIRD_WIDTH,
        yi < BIRD_HEIGHT,
    ensures
        c == texel(xi as int, yi as int),
{
    let table: [u32; 70] = [
        0xffffff, 0xffffff, 0xffffff, 0x99b274, 0xb2b455, 0x8d8f64, 0xa6a7a6, 0xffffff, 0xffffff, 0xffffff,
        0xffffff, 0xffffff, 0x929139, 0xf4ec50, 0xe7e04c, 0xcac7be, 0xfffffe, 0xbeb9b9, 0xffffff, 0xffffff,
        0x9db492, 0xd0cac7, 0xcac8c0, 0xded780, 0xd4c843, 0xc7c3c7, 0xfdfffd, 0xd0ced0, 0xa5aea4, 0xffffff,
        0xa5a77e, 0xffffe5, 0xffffef, 0xbebe9a, 0xe0d949, 0xd9d26d, 0xbfb5b8, 0xcbc0be, 0x94827e, 0xffffff,
        0xffffff, 0xbfbd67, 0xd1cf76, 0xceb94b, 0xeada55, 0xbd9c49, 0xa83129, 0xab4a2e, 0xb34841, 0x8e7656,
        0xffffff, 0x637146, 0xb38032, 0xf5c550, 0xf1c450, 0xbf844e, 0xb05051, 0xb65750, 0xa3424b, 0xffffff,
        0xffffff, 0xffffff, 0xffffff, 0xa4884b, 0xb18d4a, 0xa38a4a, 0x6f8252, 0xffffff, 0xffffff, 0xffffff,
    ];
    assert(table@ =~= sprite());
    let i: usize = (yi * BIRD_WIDTH + xi) as usize;
    Color::from_rgb(table[i])
}

/// Draws the bird with its top row at `bird_y`, leaving the bitmap's
/// transparent texels and whatever falls off the grid undrawn.
pub fn draw_sprite(buf: &mut [u8], bird_y: u32)
    requires
        old(buf)@.len() == FRAME_BYTES,
        bird_y + BIRD_HEIGHT <= u32::MAX,
    ensures
        final(buf)@.len() == FRAME_BYTES,
        forall|x: int, y: int|
            on_grid(x, y) ==> #[trigger] pixel(final(buf)@, x, y) == match sprite_at(
                bird_y as int,
                x,
                y,
            ) {
                Some(c) => c,
                None => pixel(old(buf)@, x, y),
            },
{
    let mut xi: u32 = 0;
    while xi < BIRD_WIDTH
        invariant
            xi <= BIRD_WIDTH,
            bird_y + BIRD_HEIGHT <= u32::MAX,
            buf@.len() == FRAME_BYTES,
            forall|x: int, y: int|
                on_grid(x, y) ==> #[trigger] pixel(buf@, x, y) == if x - BIRD_X < xi && sprite_at(
                    bird_y as int,
                    x,
                    y,
                ) is Some {
                    sprite_at(bird_y as int, x, y)->0
                } else {
                    pixel(old(buf)@, x, y)
                },
        decreases BIRD_WIDTH - xi,
    {
        let mut yi: u32 = 0;
        while yi < BIRD_HEIGHT
            invariant
                xi < BIRD_WIDTH,
                yi <= BIRD_HEIGHT,
                bird_y + BIRD_HEIGHT <= u32::MAX,
                buf@.len() == FRAME_BYTES,
                forall|x: int, y: int|
                    on_grid(x, y) ==> #[trigger] pixel(buf@, x, y) == if (x - BIRD_X < xi || (x
                        - BIRD_X == xi && y - bird_y < yi)) && sprite_at(bird_y as int, x, y)
                        is Some {
                        sprite_at(bird_y as int, x, y)->0
                    } else {
                        pixel(old(buf)@, x, y)
                    },
            decreases BIRD_HEIGHT - yi,
        {
            let x = BIRD_X + xi;
            let y = bird_y + yi;
            if x < WIDTH && y < HEIGHT {
                let color = bird_texel(xi, yi);
                if color.r != 0xff || color.g != 0xff || color.b != 0xff {
                    set_pixel(buf, x as usize, y as usize, color);
                }
            }
            yi += 1;
        }
        xi += 1;
    }
}

/// Draws the solid part of `o` with its texture, as far as it lies on the
/// grid; an inactive obstacle is not drawn.
pub fn draw_pillar(buf: &mut [u8], o: Obstacle)
    requires
        old(buf)@.len() == FRAME_BYTES,
        obstacle_ok(o),
    ensures
        final(buf)@.len() == FRAME_BYTES,
        forall|x: int, y: int|
            on_grid(x, y) ==> #[trigger] pixel(final(buf)@, x, y) == if pillar_covers(o, x, y) {
                pillar_color(o, x, y)
            } else {
                pixel(old(buf)@, x, y)
            },
{
    if !o.active {
        return ;
    }
    let mut dx: u32 = 0;
    while dx < OBSTACLE_WIDTH
        invariant
            dx <= OBSTACLE_WIDTH,
            o.active,
            obstacle_ok(o),
            buf@.len() == FRAME_BYTES,
            forall|x: int, y: int|
                on_grid(x, y) ==> #[trigger] pixel(buf@, x, y) == if x < o.pos + dx
                    && pillar_covers(o, x, y) {
                    pillar_color(o, x, y)
                } else {
                    pixel(old(buf)@, x, y)
                },
        decreases OBSTACLE_WIDTH - dx,
    {
        let x = dx + o.pos;
        if x < WIDTH {
            let mut y: u32 = 0;
            while y < HEIGHT
                invariant
                    y <= HEIGHT,
                    dx < OBSTACLE_WIDTH,
                    x == dx + o.pos,
                    x < WIDTH,
                    o.active,
                    obstacle_ok(o),
                    buf@.len() == FRAME_BYTES,
                    forall|i: int, j: int|
                        on_grid(i, j) ==> #[trigger] pixel(buf@, i, j) == if (i < x || (i == x && j
                            < y)) && pillar_covers(o, i, j) {
                            pillar_color(o, i, j)
                        } else {
                            pixel(old(buf)@, i, j)
                        },
                decreases HEIGHT - y,
            {
                if y <= o.gap_pos || y >= o.gap_width + o.gap_pos {
                    if x == o.pos || y % 8 == 0 || x == o.pos + OBSTACLE_WIDTH - 1 || ((y / 8 % 2
                        == 0) && x == o.pos + OBSTACLE_WIDTH / 2) {
                        set_pixel(buf, x as usize, y as usize, Color::new(0x88, 0x88, 0x88));
                    } else {
                        set_pixel(buf, x as usize, y as usize, Color::new(0xbd, 0x16, 0x16));
                    }
                }
                y += 1;
            }
        }
        dx += 1;
    }
}

impl State {
    /// The bird is on the playing field and every obstacle is well placed.
    pub open spec fn wf(&self) -> bool {
        &&& self.bird < BIRD_LIMIT
        &&& forall|i: int| 0 <= i < NOBSTACLE ==> obstacle_ok(#[trigger] self.obstacles@[i])
    }

    /// The state in which every game starts.
    pub fn init() -> (s: State)
        ensures
            s@ == initial(),
            s.wf(),
    {
        let slot = Obstacle { pos: 0, gap_width: 0, gap_pos: 0, active: false };
        let s = State { time: 0, dead: false, bird: BIRD_START, velocity: 0, obstacles: [slot, slot] };
        assert(s.obstacles@ =~= initial().obstacles);
        s
    }

    /// Whether `wf` holds.
    pub fn is_wf(&self) -> (ok: bool)
        ensures
            ok == self.wf(),
    {
        let mut i: usize = 0;
        while i < NOBSTACLE
            invariant
                i <= NOBSTACLE,
                forall|j: int| 0 <= j < i ==> obstacle_ok(#[trigger] self.obstacles@[j]),
            decreases NOBSTACLE - i,
        {
            let o = self.obstacles[i];
            if o.active && (o.pos > WIDTH || o.gap_pos > HEIGHT || o.gap_width > HEIGHT
                - o.gap_pos) {
                assert(!obstacle_ok(self.obstacles@[i as int]));
                return false;
            }
            i += 1;
        }
        self.bird < BIRD_LIMIT
    }

    /// Whether the tick from this state overflows neither the clock nor the
    /// velocity.
    pub fn can_tick(&self, key_down: bool) -> (ok: bool)
        ensures
            ok == can_tick(self@, key_down),
    {
        self.dead || (self.time < u32::MAX && (key_down || self.velocity < i32::MAX))
    }

    /// Whether the coming tick lets an obstacle enter. Where it does not,
    /// the gap handed to the tick is not looked at.
    pub fn spawn_due(&self) -> (due: bool)
        requires
            self.wf(),
        ensures
            due == spawn_due(self@),
    {
        if self.dead {
            return false;
        }
        let ghost s = scroll_all(self.obstacles@);
        proof {
            lemma_first_free(s, 0);
        }
        let mut near = false;
        let mut active = false;
        let mut free = false;
        let mut i: usize = 0;
        while i < NOBSTACLE
            invariant
                i <= NOBSTACLE,
                self.wf(),
                s == scroll_all(self.obstacles@),
                near == edge_taken(s, i as int),
                active == any_active(s, i as int),
                free == (first_free(s, 0) < i),
                !free ==> first_free(s, 0) == first_free(s, i as int),
            decreases NOBSTACLE - i,
        {
            let o = self.obstacles[i];
            assert(obstacle_ok(self.obstacles@[i as int]));
            let stays = o.active && o.pos >= OBSTACLE_SPEED;
            assert(stays == s[i as int].active);
            if stays && WIDTH - (o.pos - OBSTACLE_SPEED) < WIDTH / (NOBSTACLE as u32) {
                assert(near_right_edge(s[i as int]));
                near = true;
            }
            proof {
                lemma_first_free(s, 0);
                lemma_first_free(s, i as int);
            }
            if stays {
                active = true;
            } else {
                free = true;
            }
            i += 1;
        }
        (near || !active) && free
    }

    /// The row at which the bird is drawn.
    pub fn bird_y(&self) -> (y: u32)
        ensures
            y == self.bird / DAMPEN,
    {
        self.bird / DAMPEN
    }

    /// The physics step: moves the bird, scrolls the obstacles and lets one
    /// enter with gap `gap` where the spawn rule asks for it.
    pub fn step(&mut self, gap: Gap)
        requires
            old(self).wf(),
            gap.in_range(),
        ensures
            final(self)@ == stepped(old(self)@, gap),
            final(self).wf(),
    {
        let next: i64 = self.bird as i64 + self.velocity as i64;
        if 0 <= next && next < BIRD_LIMIT as i64 {
            self.bird = next as u32;
        } else {
            self.dead = true;
        }
        let ghost before = self.obstacles@;
        let mut obs = self.obstacles;
        let mut i: usize = 0;
        while i < NOBSTACLE
            invariant
                i <= NOBSTACLE,
                before.len() == NOBSTACLE,
                forall|j: int| 0 <= j < NOBSTACLE ==> obstacle_ok(#[trigger] before[j]),
                forall|j: int| 0 <= j < i ==> obs@[j] == scrolled(before[j]),
                forall|j: int| i <= j < NOBSTACLE ==> obs@[j] == before[j],
            decreases NOBSTACLE - i,
        {
            let o = obs[i];
            if o.active {
                if o.pos < OBSTACLE_SPEED {
                    obs[i] = Obstacle { active: false, ..o };
                } else {
                    obs[i] = Obstacle { pos: o.pos - OBSTACLE_SPEED, ..o };
                }
            }
            i += 1;
        }
        assert(obs@ =~= scroll_all(before));
        let ghost moved = obs@;
        let mut near = false;
        let mut active = false;
        let mut k: usize = 0;
        while k < NOBSTACLE
            invariant
                k <= NOBSTACLE,
                obs@ == moved,
                moved.len() == NOBSTACLE,
                forall|j: int| 0 <= j < NOBSTACLE ==> obstacle_ok(#[trigger] moved[j]),
                near == edge_taken(moved, k as int),
                active == any_active(moved, k as int),
            decreases NOBSTACLE - k,
        {
            let o = obs[k];
            if o.active {
                active = true;
                if WIDTH - o.pos < WIDTH / (NOBSTACLE as u32) {
                    assert(near_right_edge(moved[k as int]));
                    near = true;
                }
            }
            k += 1;
        }
        if near || !active {
            let mut slot: usize = 0;
            while slot < NOBSTACLE && obs[slot].active
                invariant
                    slot <= NOBSTACLE,
                    obs@ == moved,
                    moved.len() == NOBSTACLE,
                    first_free(moved, 0) == first_free(moved, slot as int),
                decreases NOBSTACLE - slot,
            {
                slot += 1;
            }
            if slot < NOBSTACLE {
                obs[slot] = Obstacle {
                    pos: WIDTH,
                    gap_width: gap.width,
                    gap_pos: gap.pos,
                    active: true,
                };
            }
        }
        assert(obs@ =~= spawned(moved, gap));
        self.obstacles = obs;
    }

    /// Collision detection: a living bird that strikes an obstacle dies.
    pub fn collide(&mut self)
        requires
            old(self).wf(),
        ensures
            final(self)@ == collided(old(self)@),
            final(self).wf(),
    {
        let x = BIRD_X;
        let y = self.bird_y();
        let ghost s = self.obstacles@;
        let ghost was_dead = self.dead;
        let mut i: usize = 0;
        while i < NOBSTACLE
            invariant
                i <= NOBSTACLE,
                x == BIRD_X,
                y == self.bird / DAMPEN,
                self.bird < BIRD_LIMIT,
                self.obstacles@ == s,
                self.bird == old(self).bird,
                self.time == old(self).time,
                self.velocity == old(self).velocity,
                forall|j: int| 0 <= j < NOBSTACLE ==> obstacle_ok(#[trigger] s[j]),
                self.dead == (was_dead || any_strike(y as int, s, i as int)),
            decreases NOBSTACLE - i,
        {
            let o = self.obstacles[i];
            if o.active && !self.dead {
                assert(obstacle_ok(s[i as int]));
                let collides_top = intersects(
                    x,
                    y,
                    BIRD_WIDTH,
                    BIRD_HEIGHT,
                    o.pos,
                    0,
                    OBSTACLE_WIDTH,
                    o.gap_pos,
                );
                let collides_bot = intersects(
                    x,
                    y,
                    BIRD_WIDTH,
                    BIRD_HEIGHT,
                    o.pos,
                    o.gap_pos + o.gap_width,
                    OBSTACLE_WIDTH,
                    HEIGHT - o.gap_pos - o.gap_width,
                );
                self.dead = collides_top || collides_bot;
                assert(self.dead == strikes(y as int, s[i as int]));
            }
            proof {
                if strikes(y as int, s[i as int]) {
                    assert(any_strike(y as int, s, i + 1));
                }
            }
            i += 1;
        }
    }

    /// Redraws the whole frame: the background, the bird over it, and the
    /// active obstacles over both.
    pub fn draw_bird(&self, buf: &mut [u8])
        requires
            old(buf)@.len() == FRAME_BYTES,
            self.wf(),
        ensures
            final(buf)@.len() == FRAME_BYTES,
            forall|x: int, y: int|
                on_grid(x, y) ==> #[trigger] pixel(final(buf)@, x, y) == scene(self@, x, y),
    {
        if self.dead {
            fill(buf, Color::new(0xff, 0xbe, 0xbe));
        } else {
            fill(buf, Color::new(0x80, 0xe2, 0x7e));
        }
        draw_sprite(buf, self.bird_y());
        let ghost s = self.obstacles@;
        let mut k: usize = 0;
        while k < NOBSTACLE
            invariant
                k <= NOBSTACLE,
                self.wf(),
                s == self.obstacles@,
                buf@.len() == FRAME_BYTES,
                forall|x: int, y: int|
                    on_grid(x, y) ==> #[trigger] pixel(buf@, x, y) == pillars_over(
                        s,
                        k as int,
                        x,
                        y,
                        bird_layer(self@, x, y),
                    ),
            decreases NOBSTACLE - k,
        {
            assert(obstacle_ok(self.obstacles@[k as int]));
            draw_pillar(buf, self.obstacles[k]);
            k += 1;
        }
    }

    /// One tick. A living game takes the input, then steps, collides,
    /// is redrawn and counts the tick. A dead game with a key down is put
    /// back to the initial state and redrawn; without one it is left as it
    /// is, and so is the frame.
    pub fn frame(&mut self, buf: &mut [u8], key_down: bool, gap: Gap)
        requires
            old(buf)@.len() == FRAME_BYTES,
            old(self).wf(),
            can_tick(old(self)@, key_down),
            gap.in_range(),
        ensures
            final(self)@ == ticked(old(self)@, key_down, gap),
            final(self).wf(),
            final(buf)@.len() == FRAME_BYTES,
            old(self).dead && !key_down ==> final(buf)@ == old(buf)@,
            !(old(self).dead && !key_down) ==> forall|x: int, y: int|
                on_grid(x, y) ==> #[trigger] pixel(final(buf)@, x, y) == scene(final(self)@, x, y),
            old(self).dead && key_down ==> final(self)@ == initial(),
            !old(self).dead && !key_down ==> final(self).velocity == old(self).velocity + 1,
            !old(self).dead && key_down ==> final(self).velocity == -INCREASE_VELOCITY,
    {
        if self.dead {
            if key_down {
                *self = State::init();
                self.draw_bird(buf);
            }
            return ;
        }
        if key_down {
            self.velocity = -INCREASE_VELOCITY;
        } else {
            self.velocity += 1;
        }
        self.step(gap);
        self.collide();
        self.draw_bird(buf);
        self.time += 1;
    }
}

/// Advances `state` by one tick and redraws `frame_buffer`, which holds
/// `WIDTH * HEIGHT` pixels of four bytes.
pub fn frame(state: &mut State, frame_buffer: &mut [u8], key_down: bool, gap: Gap)
    requires
        old(frame_buffer)@.len() == FRAME_BYTES,
        old(state).wf(),
        can_tick(old(state)@, key_down),
        gap.in_range(),
    ensures
        final(state)@ == ticked(old(state)@, key_down, gap),
        final(state).wf(),
        old(state).dead && key_down ==> final(state)@ == initial(),
        final(frame_buffer)@.len() == FRAME_BYTES,
        old(state).dead && !key_down ==> final(frame_buffer)@ == old(frame_buffer)@,
        !(old(state).dead && !key_down) ==> forall|x: int, y: int|
            on_grid(x, y) ==> #[trigger] pixel(final(frame_buffer)@, x, y) == scene(
                final(state)@,
                x,
                y,
            ),
{
    state.frame(frame_buffer, key_down, gap);
}

/// The first free slot is a slot that is inactive, or there is none.
pub proof fn lemma_first_free(s: Seq<Obstacle>, from: int)
    requires
        0 <= from,
    ensures
        from <= first_free(s, from) || first_free(s, from) == s.len(),
        first_free(s, from) < s.len() ==> !s[first_free(s, from)].active,
        first_free(s, from) <= s.len() || from > s.len(),
    decreases s.len() - from,
{
    if from < s.len() && s[from].active {
        lemma_first_free(s, from + 1);
    }
}

/// Where slot `i` is inactive and every slot from `from` up to it is
/// active, it is the first free slot from `from` on.
pub proof fn lemma_first_free_is(s: Seq<Obstacle>, from: int, i: int)
    requires
        0 <= from <= i < s.len(),
        !s[i].active,
        forall|j: int| from <= j < i ==> (#[trigger] s[j]).active,
    ensures
        first_free(s, from) == i,
    decreases i - from,
{
    if from < i {
        lemma_first_free_is(s, from + 1, i);
    }
}

/// The spawn rule, slot by slot. Once the obstacles have scrolled, an
/// obstacle enters if and only if one of them is active within
/// `WIDTH / NOBSTACLE` of the right edge, or none is active, and a slot is
/// inactive. It enters at `WIDTH` with the gap given, into the first
/// inactive slot, and every other slot is left as scrolling left it.
pub proof fn lemma_spawn_rule(m: StateView, gap: Gap, i: int)
    requires
        0 <= i < m.obstacles.len(),
        !scrolled(m.obstacles[i]).active,
        forall|j: int| 0 <= j < i ==> scrolled(#[trigger] m.obstacles[j]).active,
    ensures
        spawn_wanted(scroll_all(m.obstacles)) ==> stepped(m, gap).obstacles == scroll_all(
            m.obstacles,
        ).update(i, entering(gap)),
        !spawn_wanted(scroll_all(m.obstacles)) ==> stepped(m, gap).obstacles == scroll_all(
            m.obstacles,
        ),
        spawn_wanted(scroll_all(m.obstacles)) <==> (exists|j: int|
            0 <= j < m.obstacles.len() && near_right_edge(scrolled(#[trigger] m.obstacles[j])))
            || (forall|j: int|
            0 <= j < m.obstacles.len() ==> !scrolled(#[trigger] m.obstacles[j]).active),
{
    let s = scroll_all(m.obstacles);
    let n = s.len() as int;
    assert forall|j: int| 0 <= j < i implies (#[trigger] s[j]).active by {
        assert(scrolled(m.obstacles[j]).active);
    }
    lemma_first_free_is(s, 0, i);
    if edge_taken(s, n) {
        let j = choose|j: int| 0 <= j < n && #[trigger] near_right_edge(s[j]);
        assert(near_right_edge(scrolled(m.obstacles[j])));
    }
    if exists|j: int|
        0 <= j < m.obstacles.len() && near_right_edge(scrolled(#[trigger] m.obstacles[j])) {
        let j = choose|j: int|
            0 <= j < m.obstacles.len() && near_right_edge(scrolled(#[trigger] m.obstacles[j]));
        assert(near_right_edge(s[j]));
    }
    if any_active(s, n) {
        let j = choose|j: int| 0 <= j < n && (#[trigger] s[j]).active;
        assert(scrolled(m.obstacles[j]).active);
    }
    if !any_active(s, n) {
        assert forall|j: int| 0 <= j < m.obstacles.len() implies !scrolled(
            #[trigger] m.obstacles[j],
        ).active by {
            assert(!s[j].active);
        }
    }
}

/// Where every slot is still active once the obstacles have scrolled,
/// nothing enters.
pub proof fn lemma_no_room(m: StateView, gap: Gap)
    requires
        forall|j: int| 0 <= j < m.obstacles.len() ==> scrolled(#[trigger] m.obstacles[j]).active,
    ensures
        stepped(m, gap).obstacles == scroll_all(m.obstacles),
{
    let s = scroll_all(m.obstacles);
    lemma_first_free(s, 0);
    if first_free(s, 0) < s.len() {
        assert(scrolled(m.obstacles[first_free(s, 0)]).active);
    }
}

/// A tick without input adds one to the velocity of a living bird, and a
/// tick with input sets it to the flap's, whatever it was.
pub proof fn lemma_tick_velocity(m: StateView, gap: Gap)
    requires
        !m.dead,
        m.velocity < i32::MAX,
    ensures
        ticked(m, false, gap).velocity == m.velocity + 1,
        ticked(m, true, gap).velocity == -INCREASE_VELOCITY,
{
}

/// A tick with input takes every dead state to the initial state, whatever
/// else the state held and whatever gap the tick was given: the clock reads
/// nought, the bird lives and rests at its starting place, and every slot
/// is idle.
pub proof fn lemma_restart(m: StateView, gap: Gap)
    requires
        m.dead,
    ensures
        ticked(m, true, gap) == initial(),
        ticked(m, true, gap) == (StateView {
            time: 0,
            dead: false,
            bird: BIRD_START,
            velocity: 0,
            obstacles: seq![idle(), idle()],
        }),
{
    assert(initial().obstacles =~= seq![idle(), idle()]);
}

/// The number of slots never changes, so that no more than `NOBSTACLE`
/// obstacles are ever active. An obstacle that can take the step of
/// `OBSTACLE_SPEED` stays active and moves left by that much; one that cannot
/// leaves, and its slot is then free, or taken at once by the entering
/// obstacle.
pub proof fn lemma_step_obstacle(m: StateView, gap: Gap, i: int)
    requires
        0 <= i < m.obstacles.len(),
        m.obstacles[i].active,
    ensures
        stepped(m, gap).obstacles.len() == m.obstacles.len(),
        m.obstacles[i].pos >= OBSTACLE_SPEED ==> stepped(m, gap).obstacles[i] == (Obstacle {
            pos: (m.obstacles[i].pos - OBSTACLE_SPEED) as u32,
            ..m.obstacles[i]
        }),
        m.obstacles[i].pos < OBSTACLE_SPEED ==> !stepped(m, gap).obstacles[i].active || stepped(
            m,
            gap,
        ).obstacles[i] == entering(gap),
{
    let s = scroll_all(m.obstacles);
    lemma_first_free(s, 0);
}

/// A step changes the slots in no other way than by scrolling, but for the
/// first slot that scrolling leaves inactive: so at most one obstacle enters
/// in a step, and only into a slot that was inactive or has just been left.
pub proof fn lemma_step_enters_at_most_one(m: StateView, gap: Gap, i: int)
    requires
        0 <= i < m.obstacles.len(),
    ensures
        i != first_free(scroll_all(m.obstacles), 0) ==> stepped(m, gap).obstacles[i] == scrolled(
            m.obstacles[i],
        ),
        stepped(m, gap).obstacles[i] == scrolled(m.obstacles[i]) || (!scrolled(
            m.obstacles[i],
        ).active && stepped(m, gap).obstacles[i] == entering(gap)),
{
    let s = scroll_all(m.obstacles);
    lemma_first_free(s, 0);
}

/// What holds of the bird in every state that play reaches from the initial
/// one: while it lives it is on the playing field, it rises no faster than a
/// flap makes it, and it has fallen at least as far as its downward speed
/// took ticks to build up.
pub open spec fn settled(m: StateView) -> bool {
    !m.dead ==> {
        &&& m.bird < BIRD_LIMIT
        &&& -INCREASE_VELOCITY <= m.velocity
        &&& (m.velocity > 0 ==> m.velocity * (m.velocity + 1) <= 2 * m.bird)
    }
}

/// The initial state is settled, a tick takes a settled state to a settled
/// state, and the velocity of a settled state never overflows: only the
/// clock can keep a tick from being taken.
pub proof fn lemma_settled(m: StateView, key_down: bool, gap: Gap)
    requires
        settled(m),
        m.time < u32::MAX,
    ensures
        settled(initial()),
        can_tick(m, key_down),
        settled(ticked(m, key_down, gap)),
        !m.dead ==> m.velocity <= 62,
{
    let v = m.velocity as int;
    if !m.dead {
        if v > 62 {
            assert(v * (v + 1) >= 63 * 64) by (nonlinear_arith)
                requires
                    v >= 63,
            ;
        }
        assert((v + 1) * (v + 2) == v * (v + 1) + 2 * (v + 1)) by (nonlinear_arith);
    }
}

/// A tick in which no obstacle enters comes out the same whatever gap it
/// is given.
pub proof fn lemma_gap_unused(m: StateView, key_down: bool, g1: Gap, g2: Gap)
    requires
        !spawn_due(m),
    ensures
        ticked(m, key_down, g1) == ticked(m, key_down, g2),
{
}

/// Whether the bird dies of a collision depends on nothing but the row it
/// is drawn at, the obstacles, and whether it was dead before.
pub proof fn lemma_collision_is_a_function(a: StateView, b: StateView)
    requires
        a.bird / DAMPEN == b.bird / DAMPEN,
        a.obstacles == b.obstacles,
        a.dead == b.dead,
    ensures
        collided(a).dead == collided(b).dead,
{
}

/// While no active obstacle has come as far left as the bird's column, no
/// collision kills the bird.
pub proof fn lemma_no_strike_at_a_distance(m: StateView)
    requires
        forall|i: int|
            0 <= i < m.obstacles.len() && (#[trigger] m.obstacles[i]).active ==> m.obstacles[i].pos
                > BIRD_X + BIRD_WIDTH,
    ensures
        collided(m).dead == m.dead,
{
    let y = m.bird as int / DAMPEN as int;
    assert forall|i: int| 0 <= i < m.obstacles.len() implies !#[trigger] strikes(
        y,
        m.obstacles[i],
    ) by {}
}

} // verus!
