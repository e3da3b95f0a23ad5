use cryolock::config::{rgb_to_argb8888, Config, Settings};
use cryolock::font::{fc_match_path, FontSearch, FontStep};
use cryolock::pixels::{blit_glyph, rgba_to_argb8888};
use cryolock::render::{
    draw_text, parse_color, text_extent, visible_dots, Glyph, InputState, Renderer, Rgb,
};
use tiny_skia::Pixmap;

fn default_config() -> Config {
    Config::from_settings(Settings {
        dpms_timeout_seconds: None,
        background_color: None,
        text_color: None,
        ring_idle_color: None,
        ring_typing_color: None,
        ring_wrong_color: None,
        font_family: None,
        font_size: None,
        show_clock: None,
        clock_format: None,
    })
}

const BACKGROUND: Rgb = Rgb { r: 0x1a, g: 0x1b, b: 0x26 };
const TEXT: Rgb = Rgb { r: 0xc0, g: 0xca, b: 0xf5 };
const IDLE: Rgb = Rgb { r: 0x56, g: 0x5f, b: 0x89 };
const TYPING: Rgb = Rgb { r: 0x7a, g: 0xa2, b: 0xf7 };
const WRONG: Rgb = Rgb { r: 0xf7, g: 0x76, b: 0x8e };

#[test]
fn rgba_to_argb8888_swaps_correctly() {
    let src = [0xAA, 0xBB, 0xCC, 0xFF]; // R=AA G=BB B=CC A=FF
    let mut dst = [0u8; 4];
    rgba_to_argb8888(&src, &mut dst);
    assert_eq!(dst, [0xCC, 0xBB, 0xAA, 0xFF]); // B=CC G=BB R=AA A=FF
}

#[test]
fn parse_color_valid() {
    let c = parse_color("#1a1b26");
    assert!(c.is_some());
}

#[test]
fn parsed_colors_are_opaque() {
    let c = parse_color("1a1b26").unwrap();
    assert_eq!(c.red(), 0x1a as f32 / 255.0);
    assert_eq!(c.green(), 0x1b as f32 / 255.0);
    assert_eq!(c.blue(), 0x26 as f32 / 255.0);
    assert_eq!(c.alpha(), 1.0);
    assert!(c == BACKGROUND.to_color());
    assert!(parse_color("#fff").is_none());
}

#[test]
fn swapping_twice_gives_the_pixels_back() {
    let src: Vec<u8> = (0..40).collect();
    let mut once = vec![0u8; 40];
    let mut twice = vec![0u8; 40];
    rgba_to_argb8888(&src, &mut once);
    rgba_to_argb8888(&once, &mut twice);
    assert_ne!(once, src);
    assert_eq!(twice, src);
}

#[test]
fn swapping_leaves_a_partial_pixel() {
    let src = [1u8, 2, 3, 4, 5, 6];
    let mut dst = [9u8; 6];
    rgba_to_argb8888(&src, &mut dst);
    assert_eq!(dst, [3, 2, 1, 4, 9, 9]);
    rgba_to_argb8888(&[], &mut []);
}

#[test]
fn both_conversions_agree_on_opaque_pixels() {
    let mut dst = [0u8; 4];
    rgba_to_argb8888(&[0x1a, 0x1b, 0x26, 0xFF], &mut dst);
    assert_eq!(dst, rgb_to_argb8888(0x1a, 0x1b, 0x26));
}

#[test]
fn frame_starts_with_the_background() {
    let renderer: Renderer<()> = Renderer::new(None);
    let config = default_config();
    let frame = renderer.render_frame(3, 2, &config, InputState::Idle, 0).unwrap();
    assert_eq!((frame.pixmap.width(), frame.pixmap.height()), (3, 2));
    assert_eq!(frame.pixmap.data(), [0x1a, 0x1b, 0x26, 0xff].repeat(6));
    let mut canvas = vec![0u8; 24];
    frame.present(&mut canvas);
    assert_eq!(canvas, [0x26, 0x1b, 0x1a, 0xff].repeat(6));
}

#[test]
fn presented_text_is_opaque() {
    let renderer: Renderer<()> = Renderer::new(None);
    let mut frame =
        renderer.render_frame(16, 16, &default_config(), InputState::Idle, 0).unwrap();
    let bitmap: Vec<u8> = (0..=255).collect();
    let glyphs = vec![Glyph { bitmap, width: 16, height: 16, xmin: 0, ymin: 0 }];
    for alpha in [0, 1, 77, 128, 254, 255] {
        draw_text(&mut frame.pixmap, &glyphs, &vec![1], 14, TEXT, alpha);
    }
    let mut canvas = vec![0u8; 1024];
    frame.present(&mut canvas);
    assert!(canvas.chunks(4).all(|pixel| pixel[3] == 255));
    assert!(canvas.chunks(4).any(|pixel| pixel[0] != 0x26));
}

#[test]
fn every_background_is_laid_exactly() {
    let renderer: Renderer<()> = Renderer::new(None);
    let mut config = default_config();
    for n in 0..=255u8 {
        config.background_color = format!("#{:02x}{:02x}{:02x}", n, 255 - n, n / 2);
        let frame = renderer.render_frame(1, 1, &config, InputState::Idle, 0).unwrap();
        assert_eq!(frame.pixmap.data(), [n, 255 - n, n / 2, 255]);
    }
}

#[test]
fn no_frame_without_a_size() {
    let renderer: Renderer<()> = Renderer::new(None);
    let config = default_config();
    assert!(renderer.render_frame(0, 5, &config, InputState::Idle, 0).is_none());
    assert!(renderer.render_frame(5, 0, &config, InputState::Idle, 0).is_none());
    assert!(renderer.render_frame(0x2000_0000, 1, &config, InputState::Idle, 0).is_none());
}

#[test]
fn frame_without_a_font_has_no_text() {
    let renderer: Renderer<()> = Renderer::new(None);
    let config = default_config();
    for state in [
        InputState::Idle,
        InputState::Typing,
        InputState::Verifying,
        InputState::Wrong,
    ] {
        let frame = renderer.render_frame(1, 1, &config, state, 0).unwrap();
        assert!(frame.clock.is_none());
        assert!(frame.status.is_none());
        assert!(frame.dots.is_none());
    }
}

#[test]
fn frame_follows_the_state() {
    let renderer = Renderer::new(Some("a font"));
    let config = default_config();
    let frame = |state, len| renderer.render_frame(1, 1, &config, state, len).unwrap();

    let idle = frame(InputState::Idle, 0);
    assert_eq!(idle.ring, IDLE);
    assert!(idle.dots.is_none());
    assert!(idle.status.is_none());
    let clock = idle.clock.unwrap();
    assert_eq!((clock.format.as_str(), clock.size, clock.color), ("%H:%M", 64, TEXT));

    let typing = frame(InputState::Typing, 5);
    assert_eq!(typing.ring, TYPING);
    let dots = typing.dots.unwrap();
    assert_eq!((dots.count, dots.color), (5, TEXT));
    assert!(typing.status.is_none());

    let verifying = frame(InputState::Verifying, 0);
    assert_eq!(verifying.ring, TYPING);
    let status = verifying.status.unwrap();
    assert_eq!(status.text, "verifying\u{2026}");
    assert_eq!((status.clock_size, status.color), (64, TEXT));

    let wrong = frame(InputState::Wrong, 5);
    assert_eq!(wrong.ring, WRONG);
    assert!(wrong.dots.is_none());
    let status = wrong.status.unwrap();
    assert_eq!(status.text, "authentication failed");
    assert_eq!(status.color, WRONG);
}

#[test]
fn malformed_colors_fall_back() {
    let renderer = Renderer::new(Some(()));
    let mut config = default_config();
    config.background_color = "nope".to_string();
    config.text_color = "nope".to_string();
    config.ring_wrong_color = "nope".to_string();
    config.show_clock = false;
    let frame = renderer.render_frame(1, 1, &config, InputState::Wrong, 1).unwrap();
    assert_eq!(frame.pixmap.data(), [0x1a, 0x1b, 0x26, 0xff]);
    assert_eq!(frame.ring, IDLE);
    assert_eq!(frame.status.unwrap().color, IDLE);
    assert!(frame.clock.is_none());
    let frame = renderer.render_frame(1, 1, &config, InputState::Typing, 1).unwrap();
    assert_eq!(frame.dots.unwrap().color, TEXT);
}

#[test]
fn blending_follows_coverage() {
    let mut pixmap = Pixmap::new(3, 1).unwrap();
    pixmap.data_mut().copy_from_slice(&[100, 50, 200, 255, 100, 50, 200, 255, 100, 50, 200, 255]);
    blit_glyph(&mut pixmap, &[0, 128, 255], 3, 1, 0, 0, 10, 20, 30, 255);
    assert_eq!(
        pixmap.data(),
        [
            100, 50, 200, 255, // not covered
            54, 34, 114, 255, // 100 * 127 / 255 + 10 * 128 / 255, and so on
            10, 20, 30, 255 // fully covered
        ]
    );
}

#[test]
fn blending_scales_with_alpha() {
    let mut pixmap = Pixmap::new(1, 1).unwrap();
    blit_glyph(&mut pixmap, &[255], 1, 1, 0, 0, 200, 100, 50, 128);
    assert_eq!(pixmap.data(), [100, 50, 25, 128]);
}

#[test]
fn blending_is_clipped() {
    let mut pixmap = Pixmap::new(2, 2).unwrap();
    // Only the glyph's lower right corner reaches the pixmap.
    blit_glyph(&mut pixmap, &[255; 9], 3, 3, -2, -2, 1, 2, 3, 255);
    assert_eq!(pixmap.data(), [1, 2, 3, 255, 0, 0, 0, 0, 0, 0, 0, 0, 0, 0, 0, 0]);
    let before = pixmap.data().to_vec();
    blit_glyph(&mut pixmap, &[255; 9], 3, 3, 2, 0, 9, 9, 9, 255);
    blit_glyph(&mut pixmap, &[255; 9], 3, 3, 0, i32::MAX, 9, 9, 9, 255);
    blit_glyph(&mut pixmap, &[255; 9], 3, 3, i32::MIN, 0, 9, 9, 9, 255);
    blit_glyph(&mut pixmap, &[], 0, 0, 0, 0, 9, 9, 9, 255);
    assert_eq!(pixmap.data(), before);
}

#[test]
fn blending_keeps_pixels_premultiplied() {
    let mut pixmap = Pixmap::new(16, 16).unwrap();
    let bitmap: Vec<u8> = (0..=255).collect();
    for (i, alpha) in [255u8, 17, 130, 254, 1].into_iter().enumerate() {
        blit_glyph(&mut pixmap, &bitmap, 16, 16, i as i32, 0, 255, 128, 3, alpha);
    }
    for p in pixmap.data().chunks(4) {
        assert!(p[0] <= p[3] && p[1] <= p[3] && p[2] <= p[3]);
    }
}

fn glyph(width: usize, height: usize, xmin: i32, ymin: i32) -> Glyph {
    Glyph { bitmap: vec![255; width * height], width, height, xmin, ymin }
}

#[test]
fn text_extent_spans_the_glyphs() {
    assert_eq!(text_extent(&vec![]), (0, 0));
    assert_eq!(text_extent(&vec![glyph(3, 0, 0, 50)]), (0, 0));
    assert_eq!(text_extent(&vec![glyph(1, 5, 0, 2)]), (7, 2));
    let text = vec![glyph(1, 5, 0, -3), glyph(1, 0, 0, -90), glyph(1, 9, 0, 0)];
    assert_eq!(text_extent(&text), (9, -3));
    // Neither the width nor a glyph without height counts.
    let wide = Glyph { bitmap: vec![], width: usize::MAX, height: 2, xmin: 0, ymin: -1 };
    assert_eq!(text_extent(&vec![wide, glyph(1, 0, 0, i32::MAX)]), (1, -1));
    assert_eq!(text_extent(&vec![glyph(1, 2, 0, -8), glyph(1, 1, 0, -5)]), (-4, -8));
}

#[test]
fn text_is_drawn_glyph_by_glyph() {
    let mut pixmap = Pixmap::new(4, 3).unwrap();
    let ink = Rgb { r: 1, g: 2, b: 3 };
    // One pixel above the baseline, nothing, and one below it to the right.
    let glyphs = vec![glyph(1, 1, 0, 0), glyph(0, 0, 0, 0), glyph(1, 1, 1, -1)];
    draw_text(&mut pixmap, &glyphs, &vec![0, 1, 2], 2, ink, 255);
    let mut expected = vec![0u8; 48];
    expected[16..20].copy_from_slice(&[1, 2, 3, 255]); // column 0, row 1
    expected[44..48].copy_from_slice(&[1, 2, 3, 255]); // column 3, row 2
    assert_eq!(pixmap.data(), expected);
}

#[test]
fn dots_stop_where_the_room_ends() {
    assert_eq!(visible_dots(3, 8), 3);
    assert_eq!(visible_dots(8, 8), 8);
    assert_eq!(visible_dots(20, 8), 8);
}

fn describe(step: FontStep) -> String {
    match step {
        FontStep::Query(p) => format!("query {}", p),
        FontStep::Probe(p) => format!("probe {}", p),
        FontStep::Load(p) => format!("load {}", p),
        FontStep::GiveUp => "give up".to_string(),
    }
}

#[test]
fn font_search_goes_through_all_places() {
    let mut search = FontSearch::new("Hack");
    let mut steps = Vec::new();
    for _ in 0..11 {
        steps.push(describe(search.step()));
        search.report(None, false);
    }
    assert_eq!(
        steps,
        vec![
            "query Hack",
            "query monospace",
            "query sans-serif",
            "probe /usr/share/fonts/TTF/DejaVuSansMono.ttf",
            "probe /usr/share/fonts/truetype/dejavu/DejaVuSansMono.ttf",
            "probe /usr/share/fonts/dejavu-sans-mono-fonts/DejaVuSansMono.ttf",
            "probe /usr/share/fonts/TTF/Hack-Regular.ttf",
            "probe /usr/share/fonts/noto/NotoSansMono-Regular.ttf",
            "probe /usr/share/fonts/truetype/liberation/LiberationMono-Regular.ttf",
            "give up",
            "give up",
        ]
    );
}

#[test]
fn font_search_takes_the_first_file() {
    let mut search = FontSearch::new("Hack");
    search.report(Some("/missing.ttf".to_string()), false);
    search.report(None, true);
    assert_eq!(describe(search.step()), "query sans-serif");
    search.report(Some("/a.ttf".to_string()), true);
    assert_eq!(describe(search.step()), "load /a.ttf");
    search.report(Some("/b.ttf".to_string()), true);
    assert_eq!(describe(search.step()), "load /a.ttf");

    let mut search = FontSearch::new("Hack");
    for _ in 0..4 {
        search.report(None, false);
    }
    search.report(None, true);
    assert_eq!(
        describe(search.step()),
        "load /usr/share/fonts/truetype/dejavu/DejaVuSansMono.ttf"
    );
}

#[test]
fn fontconfig_answers() {
    assert_eq!(fc_match_path(" /usr/share/a b.ttf\n"), Some("/usr/share/a b.ttf".to_string()));
    assert_eq!(fc_match_path(" \n"), None);
    assert_eq!(fc_match_path(""), None);
}
