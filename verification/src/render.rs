//! The lock screen's picture: what a frame shows in which state, and the
//! drawing of text out of rasterised glyphs.
//!
//! A [`Frame`] holds the pixels with the background laid and says what else is
//! to be drawn: the ring, the password dots, the clock and the status line.

use tiny_skia::Color;
use tiny_skia::Pixmap;
use vstd::prelude::*;

use crate::config;
use crate::config::Config;
use crate::pixels;

verus! {

/// The current visual state of the lock screen input indicator.
#[derive(Debug, Clone, Copy, PartialEq, Eq, Structural)]
pub enum InputState {
    /// No input: the ring shows the idle colour.
    Idle,
    /// The user is typing: the ring shows the typing colour.
    Typing,
    /// A password was submitted and is being verified.
    Verifying,
    /// Authentication failed: the ring shows the wrong colour.
    Wrong,
}

/// An opaque colour.
#[derive(Debug, Clone, Copy, PartialEq, Eq, Structural)]
pub struct Rgb {
    pub r: u8,
    pub g: u8,
    pub b: u8,
}

/// The background where the configured one is malformed.
pub open spec fn fallback_background() -> Rgb {
    Rgb { r: 0x1a, g: 0x1b, b: 0x26 }
}

/// The ring's colour where the configured one is malformed.
pub open spec fn fallback_ring() -> Rgb {
    Rgb { r: 0x56, g: 0x5f, b: 0x89 }
}

/// The text's colour where the configured one is malformed.
pub open spec fn fallback_text() -> Rgb {
    Rgb { r: 0xc0, g: 0xca, b: 0xf5 }
}

/// The colour that `hex` spells, or else the fallback.
pub open spec fn color_or(hex: Seq<char>, fallback: Rgb) -> Rgb {
    match config::hex_color(hex) {
        Some((r, g, b)) => Rgb { r, g, b },
        None => fallback,
    }
}

/// The background's colour.
pub open spec fn background_color(config: Config) -> Rgb {
    color_or(config.background_color@, fallback_background())
}

/// The colour of the clock and the dots.
pub open spec fn text_color(config: Config) -> Rgb {
    color_or(config.text_color@, fallback_text())
}

/// The ring's colour in a state.
pub open spec fn ring_color(config: Config, state: InputState) -> Rgb {
    color_or(
        match state {
            InputState::Idle => config.ring_idle_color@,
            InputState::Typing => config.ring_typing_color@,
            InputState::Verifying => config.ring_typing_color@,
            InputState::Wrong => config.ring_wrong_color@,
        },
        fallback_ring(),
    )
}

/// The status line's text in a state; empty where there is none.
pub open spec fn status_text(state: InputState) -> Seq<char> {
    match state {
        InputState::Idle => Seq::empty(),
        InputState::Typing => Seq::empty(),
        InputState::Verifying => "verifying\u{2026}"@,
        InputState::Wrong => "authentication failed"@,
    }
}

/// The status line's colour in a state.
pub open spec fn status_color(config: Config, state: InputState) -> Rgb {
    if state == InputState::Wrong {
        ring_color(config, state)
    } else {
        text_color(config)
    }
}

/// Password dots: one for each byte of the password, as far as there is room.
pub struct Dots {
    pub count: usize,
    pub color: Rgb,
}

/// The clock above the ring.
pub struct Clock {
    /// strftime-style format of the time.
    pub format: String,
    /// Size of the text in pixels.
    pub size: u32,
    pub color: Rgb,
}

/// The status line below the ring.
pub struct Status {
    pub text: String,
    /// Size of the clock's text in pixels, which the status line's follows.
    pub clock_size: u32,
    pub color: Rgb,
}

/// A frame: its pixels so far, and what is to be drawn on them, in this order.
pub struct Frame {
    pub pixmap: Pixmap,
    pub ring: Rgb,
    pub dots: Option<Dots>,
    pub clock: Option<Clock>,
    pub status: Option<Status>,
}

impl Frame {
    /// The password dots of a frame in `state` for a password of
    /// `password_len` bytes.
    pub open spec fn shows_dots(
        self,
        config: Config,
        state: InputState,
        password_len: usize,
    ) -> bool {
        if password_len > 0 && state != InputState::Wrong {
            self.dots == Some(Dots { count: password_len, color: text_color(config) })
        } else {
            self.dots is None
        }
    }

    /// The clock of a frame, drawn where it is wanted and there is a font.
    pub open spec fn shows_clock(self, config: Config, has_font: bool) -> bool {
        if config.show_clock && has_font {
            &&& self.clock matches Some(c)
            &&& c.format@ == config.clock_format@
            &&& c.size == config.font_size
            &&& c.color == text_color(config)
        } else {
            self.clock is None
        }
    }

    /// The status line of a frame, drawn where there is something to say and a
    /// font to say it in.
    pub open spec fn shows_status(self, config: Config, state: InputState, has_font: bool) -> bool {
        if (state == InputState::Verifying || state == InputState::Wrong) && has_font {
            &&& self.status matches Some(s)
            &&& s.text@ == status_text(state)
            &&& s.clock_size == config.font_size
            &&& s.color == status_color(config, state)
        } else {
            self.status is None
        }
    }

    /// Whether nothing but a background of the given size and colour is drawn.
    pub open spec fn is_blank(self, width: u32, height: u32, color: Rgb) -> bool {
        &&& pixels::pixmap_width(self.pixmap) == width
        &&& pixels::pixmap_height(self.pixmap) == height
        &&& pixels::pixmap_bytes(self.pixmap) == Seq::new(
            (4 * (width * height)) as nat,
            |k: int| pixels::channel(color.r, color.g, color.b, 255, k % 4),
        )
    }

    /// Hand the finished frame to a Wayland buffer of the same size.
    pub fn present(&self, canvas: &mut [u8])
        requires
            pixels::is_whole(self.pixmap),
            old(canvas)@.len() == 4 * (pixels::pixmap_width(self.pixmap) * pixels::pixmap_height(
                self.pixmap,
            )),
        ensures
            final(canvas)@ == pixels::argb_bytes(
                pixels::pixmap_bytes(self.pixmap),
                old(canvas)@,
            ),
    {
        pixels::rgba_to_argb8888(self.pixmap.data(), canvas)
    }
}

impl Rgb {
    /// The colour for `tiny_skia` to draw with.
    pub fn to_color(self) -> (c: Color)
        ensures
            c == pixels::rgba8_color(self.r, self.g, self.b, 255),
    {
        Color::from_rgba8(self.r, self.g, self.b, 255)
    }
}

/// Parse a hex colour string into a tiny-skia `Color`.
pub fn parse_color(hex: &str) -> (c: Option<Color>)
    ensures
        c == match config::hex_color(hex@) {
            Some((r, g, b)) => Some(pixels::rgba8_color(r, g, b, 255)),
            None => None,
        },
{
    match config::parse_hex_color(hex) {
        Some((r, g, b)) => Some(Color::from_rgba8(r, g, b, 255)),
        None => None,
    }
}

fn parse_rgb_or(hex: &str, fallback: Rgb) -> (c: Rgb)
    ensures
        c == color_or(hex@, fallback),
{
    match config::parse_hex_color(hex) {
        Some((r, g, b)) => Rgb { r, g, b },
        None => fallback,
    }
}

/// Composes frames; holds the font that text is drawn in, if there is one.
pub struct Renderer<F> {
    pub font: Option<F>,
}

impl<F> Renderer<F> {
    /// A renderer with a font, or with none, which draws no text.
    pub fn new(font: Option<F>) -> (renderer: Self)
        ensures
            renderer.font == font,
    {
        Renderer { font }
    }

    /// Compose a lock screen frame: the pixels with the background laid, and
    /// what is to be drawn on them. There is no frame where a side is zero or
    /// too long for a pixmap.
    pub fn render_frame(
        &self,
        width: u32,
        height: u32,
        config: &Config,
        state: InputState,
        password_len: usize,
    ) -> (frame: Option<Frame>)
        requires
            pixels::pixmap_size_allowed(width, height),
        ensures
            frame is Some <==> pixels::pixmap_size_fits(width, height),
            frame matches Some(f) ==> {
                &&& pixels::is_whole(f.pixmap)
                &&& f.is_blank(width, height, background_color(*config))
                &&& f.ring == ring_color(*config, state)
                &&& f.shows_dots(*config, state, password_len)
                &&& f.shows_clock(*config, self.font is Some)
                &&& f.shows_status(*config, state, self.font is Some)
            },
    {
        let mut pixmap: Pixmap = match Pixmap::new(width, height) {
            Some(p) => p,
            None => {
                return None;
            },
        };

        // Background.
        let bg: Rgb = parse_rgb_or(
            config.background_color.as_str(),
            Rgb { r: 0x1a, g: 0x1b, b: 0x26 },
        );
        pixels::fill_opaque(&mut pixmap, bg.r, bg.g, bg.b);

        // Ring.
        let ring_hex: &str = match state {
            InputState::Idle => config.ring_idle_color.as_str(),
            InputState::Typing => config.ring_typing_color.as_str(),
            InputState::Verifying => config.ring_typing_color.as_str(),
            InputState::Wrong => config.ring_wrong_color.as_str(),
        };
        let ring: Rgb = parse_rgb_or(ring_hex, Rgb { r: 0x56, g: 0x5f, b: 0x89 });

        // Password dots.
        let ink: Rgb = parse_rgb_or(config.text_color.as_str(), Rgb { r: 0xc0, g: 0xca, b: 0xf5 });
        let dots: Option<Dots> = if password_len > 0 && state != InputState::Wrong {
            Some(Dots { count: password_len, color: ink })
        } else {
            None
        };

        // Clock.
        let has_font: bool = self.font.is_some();
        let clock: Option<Clock> = if config.show_clock && has_font {
            Some(
                Clock {
                    format: config.clock_format.clone(),
                    size: config.font_size,
                    color: ink,
                },
            )
        } else {
            None
        };

        // Status line.
        let status: Option<Status> = if !has_font {
            None
        } else {
            match state {
                InputState::Idle => None,
                InputState::Typing => None,
                InputState::Verifying => Some(
                    Status {
                        text: "verifying\u{2026}".to_string(),
                        clock_size: config.font_size,
                        color: ink,
                    },
                ),
                InputState::Wrong => Some(
                    Status {
                        text: "authentication failed".to_string(),
                        clock_size: config.font_size,
                        color: ring,
                    },
                ),
            }
        };

        Some(Frame { pixmap, ring, dots, clock, status })
    }
}

// ---------------------------------------------------------------------------
// Text
// ---------------------------------------------------------------------------

/// A rasterised glyph: its coverage bitmap, row by row from the top, and where
/// the bitmap lies relative to the pen on the baseline (y upwards).
pub struct Glyph {
    pub bitmap: Vec<u8>,
    pub width: usize,
    pub height: usize,
    /// Column of the bitmap's left edge.
    pub xmin: i32,
    /// Height of the bitmap's bottom edge above the baseline.
    pub ymin: i32,
}

impl Glyph {
    /// The height of the bitmap's top edge above the baseline.
    pub open spec fn top(self) -> int {
        self.ymin + self.height
    }

    /// Whether the height of the bitmap, if it has any, and its top edge are
    /// within `i32`.
    pub open spec fn is_measurable(self) -> bool {
        self.height > 0 ==> self.height <= i32::MAX && self.top() <= i32::MAX
    }
}

/// Whether `m` is the highest top edge of the glyphs that have any height; zero
/// where there is none.
pub open spec fn is_ascent(glyphs: Seq<Glyph>, m: int) -> bool {
    &&& forall|i: int|
        0 <= i < glyphs.len() && (#[trigger] glyphs[i]).height > 0 ==> glyphs[i].top() <= m
    &&& if has_height(glyphs) {
        exists|i: int|
            0 <= i < glyphs.len() && (#[trigger] glyphs[i]).height > 0 && glyphs[i].top() == m
    } else {
        m == 0
    }
}

/// Whether `m` is the lowest bottom edge of the glyphs that have any height;
/// zero where there is none.
pub open spec fn is_descent(glyphs: Seq<Glyph>, m: int) -> bool {
    &&& forall|i: int|
        0 <= i < glyphs.len() && (#[trigger] glyphs[i]).height > 0 ==> m <= glyphs[i].ymin
    &&& if has_height(glyphs) {
        exists|i: int|
            0 <= i < glyphs.len() && (#[trigger] glyphs[i]).height > 0 && glyphs[i].ymin == m
    } else {
        m == 0
    }
}

/// Whether any of the glyphs has a height.
pub open spec fn has_height(glyphs: Seq<Glyph>) -> bool {
    exists|i: int| 0 <= i < glyphs.len() && (#[trigger] glyphs[i]).height > 0
}

/// The vertical bounding box of a text relative to its baseline: how far it
/// reaches above (ascent) and where it ends below (descent).
pub fn text_extent(glyphs: &Vec<Glyph>) -> (r: (i32, i32))
    requires
        forall|i: int| 0 <= i < glyphs@.len() ==> (#[trigger] glyphs@[i]).is_measurable(),
    ensures
        is_ascent(glyphs@, r.0 as int),
        is_descent(glyphs@, r.1 as int),
{
    let mut ascent: i32 = 0;
    let mut descent: i32 = 0;
    let mut found: bool = false;
    let mut i: usize = 0;
    while i < glyphs.len()
        invariant
            i <= glyphs@.len(),
            forall|j: int| 0 <= j < glyphs@.len() ==> (#[trigger] glyphs@[j]).is_measurable(),
            found <==> has_height(glyphs@.take(i as int)),
            is_ascent(glyphs@.take(i as int), ascent as int),
            is_descent(glyphs@.take(i as int), descent as int),
        decreases glyphs@.len() - i,
    {
        let ghost past = glyphs@.take(i as int);
        let ghost now = glyphs@.take(i + 1);
        let height: usize = glyphs[i].height;
        let ymin: i32 = glyphs[i].ymin;
        assert(glyphs@[i as int].is_measurable());
        assert(now[i as int] == glyphs@[i as int]);
        assert(forall|j: int| 0 <= j < i ==> now[j] == #[trigger] past[j]);
        assert(forall|j: int| 0 <= j < i ==> #[trigger] now[j] == past[j]);
        if height > 0 {
            let top: i32 = ymin + height as i32;
            if !found || ascent < top {
                ascent = top;
            }
            if !found || ymin < descent {
                descent = ymin;
            }
            found = true;
        }
        i += 1;
    }
    assert(glyphs@.take(i as int) == glyphs@);
    (ascent, descent)
}

/// Whether a glyph can be drawn at a pen position on a pixmap of the given
/// size: its corner is within `i32`, and its bitmap has a cell for every pixel
/// that it reaches.
pub open spec fn is_drawable(
    glyph: Glyph,
    pen: i32,
    baseline: i32,
    width: u32,
    height: u32,
) -> bool {
    glyph.width > 0 && glyph.height > 0 ==> {
        &&& glyph.width <= i32::MAX
        &&& glyph.height <= i32::MAX
        &&& i32::MIN <= pen + glyph.xmin <= i32::MAX
        &&& i32::MIN <= baseline - glyph.ymin <= i32::MAX
        &&& i32::MIN <= baseline - glyph.top()
        &&& pixels::bitmap_suffices(
            width,
            height,
            glyph.bitmap@,
            glyph.width,
            glyph.height,
            pen + glyph.xmin,
            baseline - glyph.top(),
        )
    }
}

/// The bytes of a pixmap after glyphs were drawn on it, one after the other,
/// each with its pen position on the baseline.
pub open spec fn drawn(
    data: Seq<u8>,
    width: u32,
    glyphs: Seq<Glyph>,
    pens: Seq<i32>,
    baseline: i32,
    ink: Rgb,
    alpha: u8,
) -> Seq<u8>
    decreases glyphs.len(),
{
    if glyphs.len() == 0 {
        data
    } else {
        let glyph = glyphs.last();
        pixels::blitted(
            drawn(data, width, glyphs.drop_last(), pens.drop_last(), baseline, ink, alpha),
            width,
            glyph.bitmap@,
            glyph.width,
            glyph.height,
            pens.last() + glyph.xmin,
            baseline - glyph.top(),
            ink.r,
            ink.g,
            ink.b,
            alpha,
        )
    }
}

/// Draw a text whose glyphs are rasterised and whose pen positions are known.
/// `baseline` is the row of the baseline.
pub fn draw_text(
    pixmap: &mut Pixmap,
    glyphs: &Vec<Glyph>,
    pens: &Vec<i32>,
    baseline: i32,
    ink: Rgb,
    alpha: u8,
)
    requires
        pixels::is_whole(*old(pixmap)),
        pixels::pixmap_height(*old(pixmap)) <= i32::MAX,
        glyphs@.len() == pens@.len(),
        forall|i: int|
            0 <= i < glyphs@.len() ==> is_drawable(
                #[trigger] glyphs@[i],
                pens@[i],
                baseline,
                pixels::pixmap_width(*old(pixmap)),
                pixels::pixmap_height(*old(pixmap)),
            ),
    ensures
        pixels::is_whole(*final(pixmap)),
        pixels::pixmap_width(*final(pixmap)) == pixels::pixmap_width(*old(pixmap)),
        pixels::pixmap_height(*final(pixmap)) == pixels::pixmap_height(*old(pixmap)),
        pixels::pixmap_bytes(*final(pixmap)) == drawn(
            pixels::pixmap_bytes(*old(pixmap)),
            pixels::pixmap_width(*old(pixmap)),
            glyphs@,
            pens@,
            baseline,
            ink,
            alpha,
        ),
{
    let ghost before = *pixmap;
    let mut i: usize = 0;
    while i < glyphs.len()
        invariant
            i <= glyphs@.len(),
            glyphs@.len() == pens@.len(),
            pixels::is_whole(*pixmap),
            pixels::pixmap_height(before) <= i32::MAX,
            forall|j: int|
                0 <= j < glyphs@.len() ==> is_drawable(
                    #[trigger] glyphs@[j],
                    pens@[j],
                    baseline,
                    pixels::pixmap_width(before),
                    pixels::pixmap_height(before),
                ),
            pixels::pixmap_width(*pixmap) == pixels::pixmap_width(before),
            pixels::pixmap_height(*pixmap) == pixels::pixmap_height(before),
            pixels::pixmap_bytes(*pixmap) == drawn(
                pixels::pixmap_bytes(before),
                pixels::pixmap_width(before),
                glyphs@.take(i as int),
                pens@.take(i as int),
                baseline,
                ink,
                alpha,
            ),
        decreases glyphs@.len() - i,
    {
        let ghost so_far = pixels::pixmap_bytes(*pixmap);
        let glyph: &Glyph = &glyphs[i];
        assert(is_drawable(
            glyphs@[i as int],
            pens@[i as int],
            baseline,
            pixels::pixmap_width(before),
            pixels::pixmap_height(before),
        ));
        assert(glyphs@.take(i + 1).drop_last() == glyphs@.take(i as int));
        assert(pens@.take(i + 1).drop_last() == pens@.take(i as int));
        if glyph.width > 0 && glyph.height > 0 {
            let gx: i32 = pens[i] + glyph.xmin;
            let gy: i32 = baseline - glyph.ymin - glyph.height as i32;
            pixels::blit_glyph(
                pixmap,
                glyph.bitmap.as_slice(),
                glyph.width,
                glyph.height,
                gx,
                gy,
                ink.r,
                ink.g,
                ink.b,
                alpha,
            );
        } else {
            assert(pixels::blitted(
                so_far,
                pixels::pixmap_width(before),
                glyph.bitmap@,
                glyph.width,
                glyph.height,
                pens@[i as int] + glyph.xmin,
                baseline - glyph.top(),
                ink.r,
                ink.g,
                ink.b,
                alpha,
            ) =~= so_far);
        }
        i += 1;
    }
    assert(glyphs@.take(i as int) == glyphs@);
    assert(pens@.take(i as int) == pens@);
}

/// How many password dots are drawn where there is room for `room` of them.
pub fn visible_dots(count: usize, room: usize) -> (r: usize)
    ensures
        r == if count <= room { count } else { room },
{
    if count <= room {
        count
    } else {
        room
    }
}

/// Drawing a text keeps the pixels premultiplied.
pub proof fn lemma_text_keeps_premultiplied(
    data: Seq<u8>,
    width: u32,
    glyphs: Seq<Glyph>,
    pens: Seq<i32>,
    baseline: i32,
    ink: Rgb,
    alpha: u8,
)
    requires
        data.len() % 4 == 0,
        pixels::premultiplied(data),
    ensures
        pixels::premultiplied(drawn(data, width, glyphs, pens, baseline, ink, alpha)),
        drawn(data, width, glyphs, pens, baseline, ink, alpha).len() == data.len(),
    decreases glyphs.len(),
{
    if glyphs.len() > 0 {
        let glyph = glyphs.last();
        let past = drawn(data, width, glyphs.drop_last(), pens.drop_last(), baseline, ink, alpha);
        lemma_text_keeps_premultiplied(
            data,
            width,
            glyphs.drop_last(),
            pens.drop_last(),
            baseline,
            ink,
            alpha,
        );
        pixels::lemma_blitting_keeps_premultiplied(
            past,
            width,
            glyph.bitmap@,
            glyph.width,
            glyph.height,
            pens.last() + glyph.xmin,
            baseline - glyph.top(),
            ink.r,
            ink.g,
            ink.b,
            alpha,
        );
    }
}

/// Drawing a text keeps opaque pixels opaque.
pub proof fn lemma_text_keeps_opaque(
    data: Seq<u8>,
    width: u32,
    glyphs: Seq<Glyph>,
    pens: Seq<i32>,
    baseline: i32,
    ink: Rgb,
    alpha: u8,
)
    requires
        pixels::opaque_pixels(data),
    ensures
        pixels::opaque_pixels(drawn(data, width, glyphs, pens, baseline, ink, alpha)),
    decreases glyphs.len(),
{
    if glyphs.len() > 0 {
        let glyph = glyphs.last();
        let past = drawn(data, width, glyphs.drop_last(), pens.drop_last(), baseline, ink, alpha);
        lemma_text_keeps_opaque(
            data,
            width,
            glyphs.drop_last(),
            pens.drop_last(),
            baseline,
            ink,
            alpha,
        );
        pixels::lemma_blitting_keeps_opaque(
            past,
            width,
            glyph.bitmap@,
            glyph.width,
            glyph.height,
            pens.last() + glyph.xmin,
            baseline - glyph.top(),
            ink.r,
            ink.g,
            ink.b,
            alpha,
        );
    }
}

/// What is presented hides what lies behind it: a blank frame with a text drawn
/// on it fills the buffer with opaque pixels.
pub proof fn lemma_presented_text_is_opaque(
    frame: Frame,
    width: u32,
    height: u32,
    color: Rgb,
    glyphs: Seq<Glyph>,
    pens: Seq<i32>,
    baseline: i32,
    ink: Rgb,
    alpha: u8,
    canvas: Seq<u8>,
)
    requires
        frame.is_blank(width, height, color),
        canvas.len() == 4 * (width * height),
    ensures
        pixels::opaque_pixels(
            pixels::argb_bytes(
                drawn(
                    pixels::pixmap_bytes(frame.pixmap),
                    width,
                    glyphs,
                    pens,
                    baseline,
                    ink,
                    alpha,
                ),
                canvas,
            ),
        ),
{
    let blank = pixels::pixmap_bytes(frame.pixmap);
    lemma_blank_frame_is_premultiplied(frame, width, height, color);
    lemma_text_keeps_premultiplied(blank, width, glyphs, pens, baseline, ink, alpha);
    lemma_text_keeps_opaque(blank, width, glyphs, pens, baseline, ink, alpha);
    pixels::lemma_argb_keeps_opaque(
        drawn(blank, width, glyphs, pens, baseline, ink, alpha),
        canvas,
    );
}

/// A blank frame is premultiplied: drawing text on it keeps it a valid pixmap.
pub proof fn lemma_blank_frame_is_premultiplied(frame: Frame, width: u32, height: u32, color: Rgb)
    requires
        frame.is_blank(width, height, color),
    ensures
        pixels::premultiplied(pixels::pixmap_bytes(frame.pixmap)),
        pixels::pixmap_bytes(frame.pixmap).len() % 4 == 0,
{
    let data = pixels::pixmap_bytes(frame.pixmap);
    assert(width * height >= 0) by (nonlinear_arith)
        requires
            width >= 0,
            height >= 0,
    ;
    assert forall|k: int| 0 <= k < data.len() implies #[trigger] data[k] <= data[pixels::alpha_byte(
        k,
    )] by {
        assert(pixels::alpha_byte(k) < data.len());
    }
}

/// Presenting a blank frame fills the buffer with the background's pixel, as
/// [`crate::config::rgb_to_argb8888`] gives it.
pub proof fn lemma_blank_frame_presents_background(
    frame: Frame,
    width: u32,
    height: u32,
    color: Rgb,
    canvas: Seq<u8>,
    k: int,
)
    requires
        frame.is_blank(width, height, color),
        canvas.len() == 4 * (width * height),
        0 <= k < canvas.len(),
    ensures
        pixels::argb_bytes(pixels::pixmap_bytes(frame.pixmap), canvas)[k] == seq![
            color.b,
            color.g,
            color.r,
            0xFFu8,
        ][k % 4],
{
    assert(0 <= pixels::swapped_byte(k) < canvas.len());
}

/// A configured colour is used where it is well-formed, and its own fallback
/// where it is not: 1a1b26 for the background, c0caf5 for text, 565f89 for the
/// ring in any state.
pub proof fn lemma_colors_of_a_frame(config: Config)
    ensures
        config::hex_color(config.background_color@) matches Some((r, g, b)) ==> background_color(
            config,
        ) == (Rgb { r, g, b }),
        config::hex_color(config.background_color@) is None ==> background_color(config) == (Rgb {
            r: 0x1a,
            g: 0x1b,
            b: 0x26,
        }),
        config::hex_color(config.text_color@) matches Some((r, g, b)) ==> text_color(config) == (
        Rgb { r, g, b }),
        config::hex_color(config.text_color@) is None ==> text_color(config) == (Rgb {
            r: 0xc0,
            g: 0xca,
            b: 0xf5,
        }),
        config::hex_color(config.ring_idle_color@) matches Some((r, g, b)) ==> ring_color(
            config,
            InputState::Idle,
        ) == (Rgb { r, g, b }),
        config::hex_color(config.ring_idle_color@) is None ==> ring_color(config, InputState::Idle)
            == (Rgb { r: 0x56, g: 0x5f, b: 0x89 }),
        config::hex_color(config.ring_typing_color@) matches Some((r, g, b)) ==> ring_color(
            config,
            InputState::Typing,
        ) == (Rgb { r, g, b }),
        config::hex_color(config.ring_typing_color@) is None ==> ring_color(
            config,
            InputState::Typing,
        ) == (Rgb { r: 0x56, g: 0x5f, b: 0x89 }),
        ring_color(config, InputState::Verifying) == ring_color(config, InputState::Typing),
        config::hex_color(config.ring_wrong_color@) matches Some((r, g, b)) ==> ring_color(
            config,
            InputState::Wrong,
        ) == (Rgb { r, g, b }),
        config::hex_color(config.ring_wrong_color@) is None ==> ring_color(
            config,
            InputState::Wrong,
        ) == (Rgb { r: 0x56, g: 0x5f, b: 0x89 }),
{
}

/// There is a dot for every byte of the password, in the text's colour, unless
/// there is none or the password was wrong.
pub proof fn lemma_dots_of_a_frame(
    frame: Frame,
    config: Config,
    state: InputState,
    password_len: usize,
)
    requires
        frame.shows_dots(config, state, password_len),
    ensures
        frame.dots is Some <==> password_len > 0 && !(state is Wrong),
        frame.dots matches Some(dots) ==> dots.count == password_len && dots.color == text_color(
            config,
        ),
{
}

/// The clock is shown exactly where it is wanted and there is a font, in the
/// configured format and size and in the text's colour.
pub proof fn lemma_clock_of_a_frame(frame: Frame, config: Config, has_font: bool)
    requires
        frame.shows_clock(config, has_font),
    ensures
        frame.clock is Some <==> config.show_clock && has_font,
        frame.clock matches Some(clock) ==> clock.format@ == config.clock_format@ && clock.size
            == config.font_size && clock.color == text_color(config),
{
}

/// The status line is shown exactly while a password is verified and after it
/// failed, where there is a font: `verifying` and an ellipsis in the text's
/// colour, `authentication failed` in the ring's.
pub proof fn lemma_status_of_a_frame(
    frame: Frame,
    config: Config,
    state: InputState,
    has_font: bool,
)
    requires
        frame.shows_status(config, state, has_font),
    ensures
        frame.status is Some <==> has_font && (state is Verifying || state is Wrong),
        frame.status matches Some(status) ==> {
            &&& status.clock_size == config.font_size
            &&& state is Verifying ==> status.text@ == "verifying\u{2026}"@ && status.color
                == text_color(config)
            &&& state is Wrong ==> status.text@ == "authentication failed"@ && status.color
                == ring_color(config, InputState::Wrong)
        },
{
}

/// A blank frame has the background in every pixel, opaque, and no byte more.
pub proof fn lemma_pixels_of_a_blank_frame(
    frame: Frame,
    width: u32,
    height: u32,
    color: Rgb,
    x: int,
    y: int,
)
    requires
        frame.is_blank(width, height, color),
        0 <= x < width,
        0 <= y < height,
    ensures
        ({
            let data = pixels::pixmap_bytes(frame.pixmap);
            let p = (y * width + x) * 4;
            &&& pixels::pixmap_width(frame.pixmap) == width
            &&& pixels::pixmap_height(frame.pixmap) == height
            &&& data.len() == 4 * (width * height)
            &&& 0 <= p && p + 4 <= data.len()
            &&& data[p] == color.r
            &&& data[p + 1] == color.g
            &&& data[p + 2] == color.b
            &&& data[p + 3] == 255
        }),
{
    assert(0 <= y * width && (y + 1) * width <= width * height) by (nonlinear_arith)
        requires
            0 <= y,
            y + 1 <= height,
            0 <= width,
    ;
    assert((y + 1) * width == y * width + width) by (nonlinear_arith);
}

proof fn lemma_drawn_keeps_length(
    data: Seq<u8>,
    width: u32,
    glyphs: Seq<Glyph>,
    pens: Seq<i32>,
    baseline: i32,
    ink: Rgb,
    alpha: u8,
)
    ensures
        drawn(data, width, glyphs, pens, baseline, ink, alpha).len() == data.len(),
    decreases glyphs.len(),
{
    if glyphs.len() > 0 {
        lemma_drawn_keeps_length(
            data,
            width,
            glyphs.drop_last(),
            pens.drop_last(),
            baseline,
            ink,
            alpha,
        );
    }
}

/// A text is drawn glyph by glyph, each over what is there. The cell in row
/// `row` (from the top) and column `col` of a glyph's bitmap lies over the
/// pixel in column `pen + xmin + col` and in row
/// `baseline - (ymin + height) + row`: opaque ink fills that pixel where the
/// cell is full, and leaves it where the cell is empty.
pub proof fn lemma_next_glyph_is_drawn_in_its_place(
    data: Seq<u8>,
    width: u32,
    height: u32,
    glyphs: Seq<Glyph>,
    pens: Seq<i32>,
    baseline: i32,
    ink: Rgb,
    alpha: u8,
    glyph: Glyph,
    pen: i32,
    row: int,
    col: int,
)
    requires
        data.len() == 4 * (width * height),
        glyphs.len() == pens.len(),
        0 <= row < glyph.height,
        0 <= col < glyph.width,
        0 <= pen + glyph.xmin + col < width,
        0 <= baseline - (glyph.ymin + glyph.height) + row < height,
    ensures
        ({
            let before = drawn(data, width, glyphs, pens, baseline, ink, alpha);
            let after = drawn(
                data,
                width,
                glyphs.push(glyph),
                pens.push(pen),
                baseline,
                ink,
                alpha,
            );
            let x = pen + glyph.xmin + col;
            let y = baseline - (glyph.ymin + glyph.height) + row;
            let p = (y * width + x) * 4;
            let coverage = glyph.bitmap@[row * glyph.width + col];
            let share = alpha as int * coverage as int / 255;
            &&& after.len() == data.len()
            &&& 0 <= p && p + 4 <= data.len()
            &&& alpha == 255 && coverage == 255 ==> after[p] == ink.r && after[p + 1] == ink.g
                && after[p + 2] == ink.b && after[p + 3] == 255
            &&& coverage == 0 ==> after.subrange(p, p + 4) == before.subrange(p, p + 4)
            &&& after[p] == before[p] as int * (255 - share) / 255 + ink.r as int * share / 255
            &&& after[p + 1] == before[p + 1] as int * (255 - share) / 255 + ink.g as int * share
                / 255
            &&& after[p + 2] == before[p + 2] as int * (255 - share) / 255 + ink.b as int * share
                / 255
            &&& after[p + 3] == before[p + 3] as int * (255 - share) / 255 + share
        }),
{
    let before = drawn(data, width, glyphs, pens, baseline, ink, alpha);
    lemma_drawn_keeps_length(data, width, glyphs, pens, baseline, ink, alpha);
    assert(glyphs.push(glyph).drop_last() =~= glyphs);
    assert(pens.push(pen).drop_last() =~= pens);
    pixels::lemma_cell_inks_its_own_pixel(
        before,
        width,
        height,
        glyph.bitmap@,
        glyph.width,
        glyph.height,
        pen + glyph.xmin,
        baseline - glyph.top(),
        ink.r,
        ink.g,
        ink.b,
        alpha,
        row,
        col,
    );
}

/// A glyph touches no pixel beside its own bitmap, and no glyphs draw nothing.
pub proof fn lemma_next_glyph_keeps_the_rest(
    data: Seq<u8>,
    width: u32,
    height: u32,
    glyphs: Seq<Glyph>,
    pens: Seq<i32>,
    baseline: i32,
    ink: Rgb,
    alpha: u8,
    glyph: Glyph,
    pen: i32,
    x: int,
    y: int,
)
    requires
        data.len() == 4 * (width * height),
        glyphs.len() == pens.len(),
        0 <= x < width,
        0 <= y < height,
        x < pen + glyph.xmin || x >= pen + glyph.xmin + glyph.width || y < baseline - (glyph.ymin
            + glyph.height) || y >= baseline - glyph.ymin,
    ensures
        ({
            let before = drawn(data, width, glyphs, pens, baseline, ink, alpha);
            let after = drawn(
                data,
                width,
                glyphs.push(glyph),
                pens.push(pen),
                baseline,
                ink,
                alpha,
            );
            let p = (y * width + x) * 4;
            after.subrange(p, p + 4) == before.subrange(p, p + 4)
        }),
        drawn(data, width, Seq::empty(), Seq::empty(), baseline, ink, alpha) == data,
{
    let before = drawn(data, width, glyphs, pens, baseline, ink, alpha);
    lemma_drawn_keeps_length(data, width, glyphs, pens, baseline, ink, alpha);
    assert(glyphs.push(glyph).drop_last() =~= glyphs);
    assert(pens.push(pen).drop_last() =~= pens);
    pixels::lemma_pixel_beside_the_glyph_is_kept(
        before,
        width,
        height,
        glyph.bitmap@,
        glyph.width,
        glyph.height,
        pen + glyph.xmin,
        baseline - glyph.top(),
        ink.r,
        ink.g,
        ink.b,
        alpha,
        x,
        y,
    );
}

/// The extent of a text is the highest top edge, `ymin + height`, and the lowest
/// bottom edge, `ymin`, of the glyphs that have any height: none of them
/// reaches further, and some glyph reaches as far.
pub proof fn lemma_extent_of_a_text(glyphs: Seq<Glyph>, ascent: int, descent: int, i: int)
    requires
        is_ascent(glyphs, ascent),
        is_descent(glyphs, descent),
        0 <= i < glyphs.len(),
        glyphs[i].height > 0,
    ensures
        glyphs[i].ymin + glyphs[i].height <= ascent,
        descent <= glyphs[i].ymin,
        exists|j: int|
            0 <= j < glyphs.len() && (#[trigger] glyphs[j]).height > 0 && glyphs[j].ymin
                + glyphs[j].height == ascent,
        exists|j: int|
            0 <= j < glyphs.len() && (#[trigger] glyphs[j]).height > 0 && glyphs[j].ymin == descent,
{
    assert(has_height(glyphs));
}

/// A text without any height extends nowhere.
pub proof fn lemma_flat_text_extends_nowhere(glyphs: Seq<Glyph>, ascent: int, descent: int)
    requires
        is_ascent(glyphs, ascent),
        is_descent(glyphs, descent),
        forall|i: int| 0 <= i < glyphs.len() ==> (#[trigger] glyphs[i]).height == 0,
    ensures
        ascent == 0,
        descent == 0,
{
}

/// A glyph with a bitmap of all its cells can be drawn wherever its edges are
/// within `i32`, and measured where its top edge is.
pub proof fn lemma_complete_glyph_is_drawable(
    glyph: Glyph,
    pen: i32,
    baseline: i32,
    width: u32,
    height: u32,
)
    requires
        glyph.bitmap@.len() == glyph.width * glyph.height,
        glyph.width <= i32::MAX,
        glyph.height <= i32::MAX,
        i32::MIN <= pen + glyph.xmin <= i32::MAX,
        i32::MIN <= baseline - glyph.ymin <= i32::MAX,
        i32::MIN <= baseline - (glyph.ymin + glyph.height),
    ensures
        is_drawable(glyph, pen, baseline, width, height),
        glyph.ymin + glyph.height <= i32::MAX ==> glyph.is_measurable(),
{
    pixels::lemma_complete_bitmap_suffices(
        width,
        height,
        glyph.bitmap@,
        glyph.width,
        glyph.height,
        pen + glyph.xmin,
        baseline - glyph.top(),
    );
}

} // verus!
