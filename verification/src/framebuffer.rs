use crate::color::Srgb8;
use crate::text::{append_decimal, decimal};
use vstd::prelude::*;
use vstd::string::*;

verus! {

/// The four bytes that an opaque pixel of `color` occupies: red, green, blue, alpha.
pub open spec fn opaque_pixel(color: Srgb8) -> Seq<u8> {
    color.spec_channels().push(0xffu8)
}

/// Where the pixel at column `x` and row `y` starts in a row-major RGBA buffer.
pub open spec fn pixel_offset(width: int, x: int, y: int) -> int {
    (y * width + x) * 4
}

/// `pixel_count` opaque pixels of one color, back to back.
pub open spec fn filled_pixels(color: Srgb8, pixel_count: int) -> Seq<u8> {
    Seq::new((pixel_count * 4) as nat, |i: int| opaque_pixel(color)[i % 4])
}

/// `pixels` with the four bytes at `offset` replaced by an opaque pixel of `color`.
pub open spec fn with_pixel(pixels: Seq<u8>, offset: int, color: Srgb8) -> Seq<u8> {
    Seq::new(
        pixels.len(),
        |i: int|
            if offset <= i < offset + 4 {
                opaque_pixel(color)[i - offset]
            } else {
                pixels[i]
            },
    )
}

/// Whether a `width` by `height` RGBA frame has more bytes than memory can address.
pub open spec fn frame_exceeds_memory(width: u32, height: u32) -> bool {
    width * height * 4 > usize::MAX
}

proof fn lemma_pixel_in_frame(width: int, height: int, x: int, y: int)
    requires
        0 <= x < width,
        0 <= y < height,
    ensures
        0 <= y * width + x < width * height,
        0 <= pixel_offset(width, x, y),
        pixel_offset(width, x, y) + 4 <= width * height * 4,
{
    assert(y * width + x < width * height) by (nonlinear_arith)
        requires
            0 <= x < width,
            0 <= y < height,
    ;
    assert(0 <= y * width) by (nonlinear_arith)
        requires
            0 <= y,
            0 <= width,
    ;
}

/// An RGBA frame with eight bits per channel, stored row by row from the top-left corner.
#[derive(Debug, PartialEq, Eq)]
pub struct Framebuffer {
    width: u32,
    height: u32,
    pixels: Vec<u8>,
}

/// Why a frame could not be allocated.
#[derive(Debug, Clone, Copy, PartialEq, Eq, Structural)]
pub enum RenderError {
    EmptyFrame { width: u32, height: u32 },
    FrameTooLarge { width: u32, height: u32 },
}

/// What a refused frame reports: the complaint and the dimensions asked for.
pub open spec fn render_error_message(error: RenderError) -> Seq<char> {
    match error {
        RenderError::EmptyFrame { width, height } => "frame dimensions must be non-zero, got "@
            + decimal(width as nat) + "x"@ + decimal(height as nat),
        RenderError::FrameTooLarge { width, height } => "frame dimensions are too large, got "@
            + decimal(width as nat) + "x"@ + decimal(height as nat),
    }
}

impl RenderError {
    pub fn to_string(&self) -> (message: String)
        ensures
            message@ == render_error_message(*self),
    {
        let (mut message, width, height) = match self {
            RenderError::EmptyFrame { width, height } => (
                String::from_str("frame dimensions must be non-zero, got "),
                *width,
                *height,
            ),
            RenderError::FrameTooLarge { width, height } => (
                String::from_str("frame dimensions are too large, got "),
                *width,
                *height,
            ),
        };
        append_decimal(&mut message, width as u64);
        message.append("x");
        append_decimal(&mut message, height as u64);
        message
    }
}

/// Whether every pixel of an RGBA buffer is opaque: each fourth byte, the alpha channel, is
/// `0xff`.
pub open spec fn all_opaque(pixels: Seq<u8>) -> bool {
    forall|i: int| 0 <= i < pixels.len() && i % 4 == 3 ==> #[trigger] pixels[i] == 0xff
}

/// What every frame is: non-empty, four bytes for each of its pixels, and every pixel opaque.
pub open spec fn frame_layout(width: u32, height: u32, pixels: Seq<u8>) -> bool {
    &&& width > 0
    &&& height > 0
    &&& pixels.len() == width * height * 4
    &&& all_opaque(pixels)
}

proof fn lemma_opaque_pixel_bytes(color: Srgb8)
    ensures
        opaque_pixel(color).len() == 4,
        opaque_pixel(color)[3] == 0xff,
{
    color.lemma_three_channels();
}

proof fn lemma_painting_keeps_opacity(pixels: Seq<u8>, offset: int, color: Srgb8)
    requires
        all_opaque(pixels),
        offset % 4 == 0,
    ensures
        all_opaque(with_pixel(pixels, offset, color)),
        with_pixel(pixels, offset, color).len() == pixels.len(),
{
    lemma_opaque_pixel_bytes(color);
    let painted = with_pixel(pixels, offset, color);
    assert forall|i: int| 0 <= i < painted.len() && i % 4 == 3 implies #[trigger] painted[i]
        == 0xff by {
        if offset <= i < offset + 4 {
            assert(i - offset == 3);
        } else {
            assert(pixels[i] == 0xff);
        }
    }
}

proof fn lemma_filled_pixels_opaque(color: Srgb8, pixel_count: int)
    requires
        pixel_count >= 0,
    ensures
        all_opaque(filled_pixels(color, pixel_count)),
        filled_pixels(color, pixel_count).len() == pixel_count * 4,
{
    lemma_opaque_pixel_bytes(color);
}

proof fn lemma_offset_aligned(width: int, x: int, y: int)
    ensures
        pixel_offset(width, x, y) % 4 == 0,
{
    let n = y * width + x;
    assert((n * 4) % 4 == 0) by (nonlinear_arith);
}

impl Framebuffer {
    pub closed spec fn spec_width(&self) -> u32 {
        self.width
    }

    pub closed spec fn spec_height(&self) -> u32 {
        self.height
    }

    pub closed spec fn spec_pixels(&self) -> Seq<u8> {
        self.pixels@
    }

    /// The four bytes of the pixel at column `x` and row `y`.
    pub open spec fn pixel_at(&self, x: int, y: int) -> Seq<u8> {
        let offset = pixel_offset(self.spec_width() as int, x, y);
        self.spec_pixels().subrange(offset, offset + 4)
    }

    /// Every frame, however it was reached, has the layout of `frame_layout`.
    #[verifier::type_invariant]
    spec fn well_formed(self) -> bool {
        frame_layout(self.width, self.height, self.pixels@)
    }

    pub fn width(&self) -> (width: u32)
        ensures
            width == self.spec_width(),
            width > 0,
    {
        proof {
            use_type_invariant(self);
        }
        self.width
    }

    pub fn height(&self) -> (height: u32)
        ensures
            height == self.spec_height(),
            height > 0,
    {
        proof {
            use_type_invariant(self);
        }
        self.height
    }

    /// Every pixel's red, green, blue and alpha bytes, row by row.
    pub fn pixels(&self) -> (pixels: &[u8])
        ensures
            pixels@ == self.spec_pixels(),
            frame_layout(self.spec_width(), self.spec_height(), pixels@),
    {
        proof {
            use_type_invariant(self);
        }
        self.pixels.as_slice()
    }

    /// A frame of the given size with every pixel an opaque `background`.
    pub fn new(width: u32, height: u32, background: Srgb8) -> (frame: Result<Self, RenderError>)
        ensures
            width == 0 || height == 0 ==> frame == Err::<Self, RenderError>(
                RenderError::EmptyFrame { width, height },
            ),
            width > 0 && height > 0 && frame_exceeds_memory(width, height) ==> frame == Err::<
                Self,
                RenderError,
            >(RenderError::FrameTooLarge { width, height }),
            width > 0 && height > 0 && !frame_exceeds_memory(width, height) ==> (frame matches Ok(f)
                && f.spec_width() == width && f.spec_height() == height && f.spec_pixels()
                == filled_pixels(background, width * height)),
    {
        if width == 0 || height == 0 {
            return Err(RenderError::EmptyFrame { width, height });
        }
        let pixel_count = match (width as usize).checked_mul(height as usize) {
            Some(count) => count,
            None => {
                assert(width * height * 4 > usize::MAX) by (nonlinear_arith)
                    requires
                        width * height > usize::MAX,
                ;
                return Err(RenderError::FrameTooLarge { width, height });
            },
        };
        let byte_count = match pixel_count.checked_mul(4) {
            Some(count) => count,
            None => {
                return Err(RenderError::FrameTooLarge { width, height });
            },
        };
        let pixels = Self::filled(pixel_count, background);
        proof {
            lemma_filled_pixels_opaque(background, pixel_count as int);
        }
        Ok(Self { width, height, pixels })
    }

    /// `pixel_count` opaque pixels of `color`.
    fn filled(pixel_count: usize, color: Srgb8) -> (pixels: Vec<u8>)
        requires
            pixel_count * 4 <= usize::MAX,
        ensures
            pixels@ == filled_pixels(color, pixel_count as int),
    {
        let ghost target = filled_pixels(color, pixel_count as int);
        let channels = color.channels();
        let mut pixels: Vec<u8> = Vec::new();
        let mut index: usize = 0;
        proof {
            lemma_opaque_pixel_bytes(color);
        }
        while index < pixel_count
            invariant
                pixel_count * 4 <= usize::MAX,
                target == filled_pixels(color, pixel_count as int),
                channels@ == color.spec_channels(),
                index <= pixel_count,
                pixels@.len() == index * 4,
                forall|i: int| 0 <= i < index * 4 ==> pixels@[i] == target[i],
            decreases pixel_count - index,
        {
            let ghost before = pixels@;
            pixels.push(channels[0]);
            pixels.push(channels[1]);
            pixels.push(channels[2]);
            pixels.push(0xff);
            assert forall|i: int| 0 <= i < (index + 1) * 4 implies pixels@[i] == target[i] by {
                if i >= index * 4 {
                    assert(i % 4 == i - index * 4);
                } else {
                    assert(pixels@[i] == before[i]);
                }
            }
            index += 1;
        }
        assert(pixels@ =~= target);
        pixels
    }

    /// Paints the pixel at column `x` and row `y` an opaque `color`.
    pub fn set_pixel(&mut self, x: u32, y: u32, color: Srgb8)
        requires
            x < old(self).spec_width(),
            y < old(self).spec_height(),
        ensures
            final(self).spec_width() == old(self).spec_width(),
            final(self).spec_height() == old(self).spec_height(),
            final(self).spec_pixels() == with_pixel(
                old(self).spec_pixels(),
                pixel_offset(old(self).spec_width() as int, x as int, y as int),
                color,
            ),
            repaints(*old(self), *final(self), (x, y, color)),
    {
        proof {
            use_type_invariant(&*self);
            lemma_pixel_in_frame(self.width as int, self.height as int, x as int, y as int);
            lemma_offset_aligned(self.width as int, x as int, y as int);
            lemma_painting_keeps_opacity(
                self.pixels@,
                pixel_offset(self.width as int, x as int, y as int),
                color,
            );
        }
        let length = self.pixels.len();
        assert(length == self.width * self.height * 4);
        let offset = ((y as usize * self.width as usize) + x as usize) * 4;
        let channels = color.channels();
        Self::write_opaque_pixel(&mut self.pixels, offset, channels[0], channels[1], channels[2]);
        proof {
            lemma_opaque_pixel_bytes(color);
            assert(self.pixels@ =~= with_pixel(old(self).pixels@, offset as int, color));
        }
    }

    fn write_opaque_pixel(pixels: &mut Vec<u8>, offset: usize, red: u8, green: u8, blue: u8)
        requires
            offset + 4 <= old(pixels)@.len(),
        ensures
            final(pixels)@ == old(pixels)@.update(offset as int, red).update(
                offset + 1,
                green,
            ).update(offset + 2, blue).update(offset + 3, 0xffu8),
        no_unwind
    {
        let length = pixels.len();
        assert(offset + 4 <= length);
        pixels[offset] = red;
        pixels[offset + 1] = green;
        pixels[offset + 2] = blue;
        pixels[offset + 3] = 0xff;
    }
}

impl Clone for Framebuffer {
    fn clone(&self) -> (copy: Self)
        ensures
            copy.spec_width() == self.spec_width(),
            copy.spec_height() == self.spec_height(),
            copy.spec_pixels() == self.spec_pixels(),
    {
        proof {
            use_type_invariant(self);
        }
        let pixels = self.pixels.clone();
        assert(pixels@ =~= self.pixels@);
        Self { width: self.width, height: self.height, pixels }
    }
}

proof fn lemma_distinct_pixels_do_not_overlap(width: int, height: int, x: int, y: int, other_x: int, other_y: int)
    requires
        0 <= x < width,
        0 <= y < height,
        0 <= other_x < width,
        0 <= other_y < height,
        x != other_x || y != other_y,
    ensures
        pixel_offset(width, x, y) + 4 <= pixel_offset(width, other_x, other_y)
            || pixel_offset(width, other_x, other_y) + 4 <= pixel_offset(width, x, y),
{
    if y == other_y {
        assert(y * width + x != other_y * width + other_x);
    } else if y < other_y {
        assert(y * width + x < other_y * width + other_x) by (nonlinear_arith)
            requires
                y < other_y,
                0 <= x < width,
                0 <= other_x,
        ;
    } else {
        assert(other_y * width + other_x < y * width + x) by (nonlinear_arith)
            requires
                other_y < y,
                0 <= other_x < width,
                0 <= x,
        ;
    }
}

/// Painting a pixel gives it the new color and leaves every other pixel as it was.
pub proof fn law_painting_changes_only_the_painted_pixel(
    pixels: Seq<u8>,
    width: u32,
    height: u32,
    x: u32,
    y: u32,
    color: Srgb8,
    other_x: u32,
    other_y: u32,
)
    requires
        pixels.len() == width * height * 4,
        x < width,
        y < height,
        other_x < width,
        other_y < height,
    ensures
        ({
            let painted = with_pixel(pixels, pixel_offset(width as int, x as int, y as int), color);
            let offset = pixel_offset(width as int, x as int, y as int);
            let other = pixel_offset(width as int, other_x as int, other_y as int);
            &&& painted.subrange(offset, offset + 4) == opaque_pixel(color)
            &&& (other_x != x || other_y != y) ==> painted.subrange(other, other + 4)
                == pixels.subrange(other, other + 4)
        }),
{
    let offset = pixel_offset(width as int, x as int, y as int);
    let other = pixel_offset(width as int, other_x as int, other_y as int);
    let painted = with_pixel(pixels, offset, color);
    color.lemma_three_channels();
    lemma_pixel_in_frame(width as int, height as int, x as int, y as int);
    lemma_pixel_in_frame(width as int, height as int, other_x as int, other_y as int);
    assert(painted.subrange(offset, offset + 4) =~= opaque_pixel(color));
    if other_x != x || other_y != y {
        lemma_distinct_pixels_do_not_overlap(
            width as int,
            height as int,
            x as int,
            y as int,
            other_x as int,
            other_y as int,
        );
        assert(painted.subrange(other, other + 4) =~= pixels.subrange(other, other + 4));
    }
}

/// Every pixel of a newly filled frame is the opaque fill color.
pub proof fn law_filled_frame_pixels(color: Srgb8, width: u32, height: u32, x: u32, y: u32)
    requires
        x < width,
        y < height,
    ensures
        ({
            let offset = pixel_offset(width as int, x as int, y as int);
            filled_pixels(color, width * height).subrange(offset, offset + 4) == opaque_pixel(color)
        }),
{
    let offset = pixel_offset(width as int, x as int, y as int);
    lemma_pixel_in_frame(width as int, height as int, x as int, y as int);
    let filled = filled_pixels(color, width * height);
    color.lemma_three_channels();
    assert forall|i: int| 0 <= i < 4 implies filled.subrange(offset, offset + 4)[i] == opaque_pixel(
        color,
    )[i] by {
        assert((offset + i) % 4 == i) by (nonlinear_arith)
            requires
                offset == (y * width + x) * 4,
                0 <= i < 4,
        ;
    }
    assert(filled.subrange(offset, offset + 4) =~= opaque_pixel(color));
}

/// The pixels of a frame `width` pixels wide after painting each `(x, y, color)` of
/// `paints` in turn, as `Framebuffer::set_pixel` does.
pub open spec fn paint_all(pixels: Seq<u8>, width: u32, paints: Seq<(u32, u32, Srgb8)>) -> Seq<u8>
    decreases paints.len(),
{
    if paints.len() == 0 {
        pixels
    } else {
        let (x, y, color) = paints.last();
        with_pixel(
            paint_all(pixels, width, paints.drop_last()),
            pixel_offset(width as int, x as int, y as int),
            color,
        )
    }
}

/// A frame made by `Framebuffer::new` keeps its size and stays opaque, however many pixels
/// are painted on it afterwards.
pub proof fn law_painted_frames_keep_their_layout(
    width: u32,
    height: u32,
    background: Srgb8,
    paints: Seq<(u32, u32, Srgb8)>,
)
    requires
        width > 0,
        height > 0,
        forall|i: int| 0 <= i < paints.len() ==> #[trigger] paints[i].0 < width && paints[i].1 < height,
    ensures
        frame_layout(width, height, paint_all(filled_pixels(background, width * height), width, paints)),
    decreases paints.len(),
{
    if paints.len() == 0 {
        lemma_filled_pixels_opaque(background, width * height);
    } else {
        let earlier = paints.drop_last();
        assert forall|i: int| 0 <= i < earlier.len() implies #[trigger] earlier[i].0 < width
            && earlier[i].1 < height by {
            assert(earlier[i] == paints[i]);
        }
        law_painted_frames_keep_their_layout(width, height, background, earlier);
        let (x, y, color) = paints.last();
        assert(paints[paints.len() - 1].0 < width);
        lemma_offset_aligned(width as int, x as int, y as int);
        lemma_painting_keeps_opacity(
            paint_all(filled_pixels(background, width * height), width, earlier),
            pixel_offset(width as int, x as int, y as int),
            color,
        );
    }
}

/// Whether `after` is `before` with one pixel painted: `paint` gives its column, row and color.
pub open spec fn repaints(before: Framebuffer, after: Framebuffer, paint: (u32, u32, Srgb8)) -> bool {
    &&& after.spec_width() == before.spec_width()
    &&& after.spec_height() == before.spec_height()
    &&& after.spec_pixels() == with_pixel(
        before.spec_pixels(),
        pixel_offset(before.spec_width() as int, paint.0 as int, paint.1 as int),
        paint.2,
    )
}

/// Through any run of `set_pixel` calls, each frame `frames[i + 1]` being `frames[i]` with
/// `paints[i]` painted, a frame keeps the width and height it was made with, and its pixels
/// are those of the first frame with all the paints applied in turn.
pub proof fn law_frame_size_is_fixed(frames: Seq<Framebuffer>, paints: Seq<(u32, u32, Srgb8)>)
    requires
        frames.len() == paints.len() + 1,
        forall|i: int|
            0 <= i < paints.len() ==> repaints(#[trigger] frames[i], frames[i + 1], paints[i]),
    ensures
        forall|i: int|
            0 <= i < frames.len() ==> #[trigger] frames[i].spec_width() == frames[0].spec_width()
                && frames[i].spec_height() == frames[0].spec_height(),
        frames.last().spec_pixels() == paint_all(
            frames[0].spec_pixels(),
            frames[0].spec_width(),
            paints,
        ),
    decreases paints.len(),
{
    if paints.len() > 0 {
        let earlier_frames = frames.drop_last();
        let earlier_paints = paints.drop_last();
        assert forall|i: int| 0 <= i < earlier_paints.len() implies repaints(
            #[trigger] earlier_frames[i],
            earlier_frames[i + 1],
            earlier_paints[i],
        ) by {
            assert(repaints(frames[i], frames[i + 1], paints[i]));
        }
        law_frame_size_is_fixed(earlier_frames, earlier_paints);
        let last = paints.len() - 1;
        assert(repaints(frames[last], frames[last + 1], paints[last]));
        assert(earlier_frames.last() == frames[last]);
        assert(earlier_frames[0] == frames[0]);
        assert forall|i: int| 0 <= i < frames.len() implies #[trigger] frames[i].spec_width()
            == frames[0].spec_width() && frames[i].spec_height() == frames[0].spec_height() by {
            if i < frames.len() - 1 {
                assert(earlier_frames[i] == frames[i]);
            }
        }
    }
}

} // verus!
