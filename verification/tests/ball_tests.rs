use pixel_games::ball::{frame, rounded_sqrt, Ball, Scene};
use pixel_games::buffer::{fill, get_pixel, set_pixel, FRAME_BYTES, HEIGHT, WIDTH};
use pixel_games::color::Color;

fn blank() -> Vec<u8> {
    vec![0u8; FRAME_BYTES]
}

#[test]
fn frame_bytes_is_width_by_height_by_four() {
    assert_eq!(FRAME_BYTES, WIDTH * HEIGHT * 4);
    assert_eq!(WIDTH, 256);
    assert_eq!(HEIGHT, 256);
}

#[test]
fn named_colors() {
    assert_eq!(Color::black(), Color { r: 0, g: 0, b: 0, a: 255 });
    assert_eq!(Color::white(), Color { r: 255, g: 255, b: 255, a: 255 });
    assert_eq!(Color::new(1, 2, 3), Color { r: 1, g: 2, b: 3, a: 255 });
    assert_eq!(Color::from_rgb(0x99b274), Color { r: 0x99, g: 0xb2, b: 0x74, a: 255 });
    assert_eq!(Color::from_rgb(0xab123456), Color { r: 0x12, g: 0x34, b: 0x56, a: 255 });
}

#[test]
fn set_pixel_writes_four_bytes_at_row_major_offset() {
    let mut buf = blank();
    let c = Color { r: 1, g: 2, b: 3, a: 4 };
    set_pixel(&mut buf, 3, 2, c);
    let o = 3 * 4 + 2 * 256 * 4;
    assert_eq!(&buf[o..o + 4], &[1, 2, 3, 4]);
    assert_eq!(buf.iter().filter(|b| **b != 0).count(), 4);
    assert_eq!(get_pixel(&buf, 3, 2), c);
    assert_eq!(get_pixel(&buf, 2, 3), Color { r: 0, g: 0, b: 0, a: 0 });
}

#[test]
fn set_pixel_reaches_the_last_pixel() {
    let mut buf = blank();
    let c = Color { r: 9, g: 8, b: 7, a: 6 };
    set_pixel(&mut buf, 255, 255, c);
    assert_eq!(&buf[FRAME_BYTES - 4..], &[9, 8, 7, 6]);
    set_pixel(&mut buf, 0, 0, c);
    assert_eq!(&buf[..4], &[9, 8, 7, 6]);
}

#[test]
fn fill_paints_every_pixel() {
    let mut buf = blank();
    let c = Color { r: 10, g: 20, b: 30, a: 40 };
    fill(&mut buf, c);
    for chunk in buf.chunks(4) {
        assert_eq!(chunk, &[10, 20, 30, 40]);
    }
}

#[test]
fn rounded_sqrt_small_values() {
    assert_eq!(rounded_sqrt(0), 0);
    assert_eq!(rounded_sqrt(1), 1);
    assert_eq!(rounded_sqrt(2), 1);
    assert_eq!(rounded_sqrt(3), 2);
    assert_eq!(rounded_sqrt(6), 2);
    assert_eq!(rounded_sqrt(7), 3);
    assert_eq!(rounded_sqrt(19), 4);
    assert_eq!(rounded_sqrt(75), 9);
    assert_eq!(rounded_sqrt(100), 10);
}

#[test]
fn rounded_sqrt_agrees_with_rounded_float_root() {
    for n in 0u32..20000 {
        assert_eq!(rounded_sqrt(n), (n as f64).sqrt().round() as u32, "n = {}", n);
    }
    assert_eq!(rounded_sqrt(u32::MAX), 65536);
}

#[test]
fn update_moves_by_velocity() {
    let mut b = Ball { position: (111, 37), velocity: (5, 3), radius: 10 };
    assert!(b.fits_update());
    assert!(!b.update());
    assert_eq!(b, Ball { position: (116, 40), velocity: (5, 3), radius: 10 });
}

#[test]
fn update_reflects_at_right_wall() {
    let mut b = Ball { position: (241, 100), velocity: (5, 3), radius: 10 };
    assert!(b.update());
    assert_eq!(b, Ball { position: (241, 103), velocity: (-5, 3), radius: 10 });
}

#[test]
fn update_reflects_at_left_and_top_walls_together() {
    let mut b = Ball { position: (12, 13), velocity: (-2, -3), radius: 10 };
    assert!(b.update());
    assert_eq!(b, Ball { position: (12, 13), velocity: (2, 3), radius: 10 });
}

#[test]
fn update_without_hit_just_short_of_wall() {
    let mut b = Ball { position: (240, 100), velocity: (5, 0), radius: 10 };
    assert!(!b.update());
    assert_eq!(b.position, (245, 100));
    assert!(b.update());
    assert_eq!(b.position, (245, 100));
    assert_eq!(b.velocity, (-5, 0));
}

#[test]
fn fits_update_rejects_overflow() {
    let b = Ball { position: (100, 100), velocity: (isize::MAX, 0), radius: 10 };
    assert!(!b.fits_update());
    let b = Ball { position: (100, 100), velocity: (isize::MIN, 0), radius: 10 };
    assert!(!b.fits_update());
    let b = Ball { position: (100, 100), velocity: (1, 1), radius: -1 };
    assert!(!b.fits_update());
}

#[test]
fn ball_stays_inside_for_many_ticks() {
    let mut b = Ball { position: (111, 37), velocity: (5, 3), radius: 10 };
    assert!(b.is_inside());
    for _ in 0..10000 {
        assert!(b.fits_update());
        b.update();
        assert!(b.is_inside());
        assert!(10 <= b.position.0 && b.position.0 <= 246);
        assert!(10 <= b.position.1 && b.position.1 <= 246);
    }
}

#[test]
fn is_inside_at_the_edges() {
    assert!(Ball { position: (10, 246), velocity: (0, 0), radius: 10 }.is_inside());
    assert!(!Ball { position: (9, 100), velocity: (0, 0), radius: 10 }.is_inside());
    assert!(!Ball { position: (100, 247), velocity: (0, 0), radius: 10 }.is_inside());
    assert!(!Ball { position: (100, 100), velocity: (0, 0), radius: -1 }.is_inside());
}

#[test]
fn draw_matches_rounded_half_chords() {
    let ball = Ball { position: (111, 37), velocity: (5, 3), radius: 10 };
    let mut buf = blank();
    fill(&mut buf, Color::white());
    ball.draw(&mut buf, Color::black());
    for y in 0..256isize {
        for x in 0..256isize {
            let dy = y - 37;
            let dx = x - 111;
            let mut inside = false;
            if -10 <= dy && dy < 10 {
                let w = ((100.0f64) - (dy as f64 * dy as f64)).sqrt().round() as isize;
                inside = -w <= dx && dx < w;
            }
            let want = if inside { Color::black() } else { Color::white() };
            assert_eq!(get_pixel(&buf, x as usize, y as usize), want, "at ({}, {})", x, y);
        }
    }
}

#[test]
fn draw_row_widths() {
    let ball = Ball { position: (100, 100), velocity: (0, 0), radius: 10 };
    let mut buf = blank();
    ball.draw(&mut buf, Color::white());
    let lit = |y: usize| (0..256).filter(|x| get_pixel(&buf, *x, y) == Color::white()).count();
    assert_eq!(lit(90), 0);
    assert_eq!(lit(91), 8);
    assert_eq!(lit(100), 20);
    assert_eq!(lit(105), 18);
    assert_eq!(lit(109), 8);
    assert_eq!(lit(110), 0);
    assert_eq!(get_pixel(&buf, 90, 100), Color::white());
    assert_eq!(get_pixel(&buf, 110, 100), Color { r: 0, g: 0, b: 0, a: 0 });
}

#[test]
fn draw_radius_zero_draws_nothing() {
    let ball = Ball { position: (5, 5), velocity: (0, 0), radius: 0 };
    let mut buf = blank();
    ball.draw(&mut buf, Color::white());
    assert!(buf.iter().all(|b| *b == 0));
}

#[test]
fn draw_touching_the_walls() {
    let ball = Ball { position: (10, 246), velocity: (0, 0), radius: 10 };
    let mut buf = blank();
    ball.draw(&mut buf, Color::white());
    assert_eq!(get_pixel(&buf, 0, 246), Color::white());
    assert_eq!(get_pixel(&buf, 10, 255), Color::white());
    assert_eq!(get_pixel(&buf, 20, 246), Color { r: 0, g: 0, b: 0, a: 0 });
}

#[test]
fn scene_starts_black_on_white() {
    let s = Scene::new();
    assert_eq!(s.ball, Ball { position: (111, 37), velocity: (5, 3), radius: 10 });
    assert_eq!(s.ball_color, Color::black());
    assert_eq!(s.bg_color, Color::white());
}

#[test]
fn frame_moves_then_draws() {
    let mut s = Scene::new();
    let mut buf = blank();
    frame(&mut s, &mut buf);
    assert_eq!(s.ball.position, (116, 40));
    assert_eq!(s.ball_color, Color::black());
    assert_eq!(get_pixel(&buf, 116, 40), Color::black());
    assert_eq!(get_pixel(&buf, 125, 40), Color::black());
    assert_eq!(get_pixel(&buf, 126, 40), Color::white());
    assert_eq!(get_pixel(&buf, 106, 40), Color::black());
    assert_eq!(get_pixel(&buf, 105, 40), Color::white());
    assert_eq!(get_pixel(&buf, 101, 37), Color::white());
    assert_eq!(get_pixel(&buf, 0, 0), Color::white());
    let o = 4 * 125 + 1024 * 40;
    assert_eq!(&buf[o..o + 4], &[0, 0, 0, 255]);
}

#[test]
fn frame_on_a_hit_draws_in_the_colors_it_began_with() {
    let mut s = Scene {
        ball: Ball { position: (241, 100), velocity: (5, 0), radius: 10 },
        ball_color: Color::black(),
        bg_color: Color::white(),
    };
    let mut buf = blank();
    frame(&mut s, &mut buf);
    assert_eq!(s.ball, Ball { position: (241, 100), velocity: (-5, 0), radius: 10 });
    assert_eq!(s.ball_color, Color::white());
    assert_eq!(s.bg_color, Color::black());
    assert_eq!(get_pixel(&buf, 241, 100), Color::black());
    assert_eq!(get_pixel(&buf, 250, 100), Color::black());
    assert_eq!(get_pixel(&buf, 251, 100), Color::white());
    assert_eq!(get_pixel(&buf, 0, 0), Color::white());
}

#[test]
fn first_bounce_flips_horizontal_velocity_and_swaps_colors_once() {
    let mut s = Scene::new();
    let mut buf = blank();
    let mut swaps = 0;
    let mut ticks = 0;
    loop {
        let before = s;
        let reaches = before.ball.position.0 + before.ball.velocity.0 + before.ball.radius >= 256;
        frame(&mut s, &mut buf);
        ticks += 1;
        if s.ball_color != before.ball_color {
            swaps += 1;
            assert_eq!(s.ball_color, before.bg_color);
            assert_eq!(s.bg_color, before.ball_color);
        } else {
            assert_eq!(s.bg_color, before.bg_color);
        }
        if reaches {
            assert_eq!(s.ball.velocity, (-5, 3));
            assert_eq!(s.ball.position.0, before.ball.position.0);
            break;
        }
        assert_eq!(swaps, 0);
        assert_eq!(s.ball.velocity, (5, 3));
    }
    assert_eq!(ticks, 27);
    assert_eq!(swaps, 1);
    assert_eq!(s.ball.position, (241, 37 + 27 * 3));
    assert_eq!(s.ball_color, Color::white());
    assert_eq!(s.bg_color, Color::black());
}

#[test]
fn colors_stay_complementary_and_swap_only_on_hits() {
    let mut s = Scene::new();
    let mut buf = blank();
    for _ in 0..2000 {
        let before = s;
        let mut probe = before.ball;
        let hit = probe.update();
        frame(&mut s, &mut buf);
        assert_eq!(s.ball, probe);
        if hit {
            assert_eq!((s.ball_color, s.bg_color), (before.bg_color, before.ball_color));
        } else {
            assert_eq!((s.ball_color, s.bg_color), (before.ball_color, before.bg_color));
        }
        let pair = (s.ball_color, s.bg_color);
        assert!(
            pair == (Color::black(), Color::white()) || pair == (Color::white(), Color::black())
        );
    }
}
