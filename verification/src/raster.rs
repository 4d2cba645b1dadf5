//! Decoded images as plain values, and the conversions that the `image`
//! crate performs on them.
use vstd::prelude::*;
use image::DynamicImage::{ImageLuma16, ImageLuma8, ImageRgb16, ImageRgb8};
use image::{imageops::FilterType, ImageBuffer};

verus! {

/// The pixel formats of a decoded image.
#[derive(Clone, Copy, Debug, PartialEq, Eq, Structural)]
pub enum PixelFormat {
    Luma8,
    Rgb8,
    Luma16,
    Rgb16,
}

impl PixelFormat {
    /// The number of samples per pixel.
    pub open spec fn channels(self) -> nat {
        match self {
            PixelFormat::Luma8 | PixelFormat::Luma16 => 1,
            PixelFormat::Rgb8 | PixelFormat::Rgb16 => 3,
        }
    }

    /// The number of bits per sample.
    pub open spec fn depth(self) -> nat {
        match self {
            PixelFormat::Luma8 | PixelFormat::Rgb8 => 8,
            PixelFormat::Luma16 | PixelFormat::Rgb16 => 16,
        }
    }

    /// The largest value of a sample.
    pub open spec fn max_sample(self) -> nat {
        match self {
            PixelFormat::Luma8 | PixelFormat::Rgb8 => 255,
            PixelFormat::Luma16 | PixelFormat::Rgb16 => 65535,
        }
    }

    /// The number of samples per pixel.
    pub fn channel_count(self) -> (n: usize)
        ensures
            n == self.channels(),
    {
        match self {
            PixelFormat::Luma8 | PixelFormat::Luma16 => 1,
            PixelFormat::Rgb8 | PixelFormat::Rgb16 => 3,
        }
    }

    /// The largest value of a sample.
    pub fn sample_limit(self) -> (m: u16)
        ensures
            m == self.max_sample(),
    {
        match self {
            PixelFormat::Luma8 | PixelFormat::Rgb8 => 255,
            PixelFormat::Luma16 | PixelFormat::Rgb16 => 65535,
        }
    }
}

/// What an image is: its dimensions, its format and its samples, row by row
/// and, within a pixel, channel by channel.
pub struct ImageView {
    pub width: nat,
    pub height: nat,
    pub format: PixelFormat,
    pub samples: Seq<u16>,
}

impl ImageView {
    /// The samples fill the dimensions, none exceeds what the format can
    /// hold, and the image is small enough to be converted and resampled in
    /// memory.
    pub open spec fn valid(self) -> bool {
        &&& self.width <= u32::MAX
        &&& self.height <= u32::MAX
        &&& self.samples.len() == self.width * self.height * self.format.channels()
        &&& forall|k: int| 0 <= k < self.samples.len() ==> #[trigger] self.samples[k] <= self.format.max_sample()
        &&& 4 * (self.width * self.height) <= usize::MAX
        &&& 128 * self.width <= usize::MAX
    }

    /// The grey levels of the image after it was made grey and resampled to
    /// `nwidth` by `nheight` with the Lanczos filter.
    pub open spec fn lanczos_luma8(self, nwidth: nat, nheight: nat) -> Seq<u8> {
        grey_lanczos(
            self.format.channels(),
            self.format.depth(),
            self.width,
            self.height,
            self.samples,
            nwidth,
            nheight,
        )
    }

    /// The 16-bit luma of each pixel.
    pub open spec fn luma16(self) -> Seq<u16> {
        luma16_samples(self.format.channels(), self.format.depth(), self.width, self.height, self.samples)
    }

    /// The 16-bit luma of the image resampled to `nwidth` by `nheight` with
    /// the triangle filter.
    pub open spec fn triangle_luma16(self, nwidth: nat, nheight: nat) -> Seq<u16> {
        luma16_triangle(
            self.format.channels(),
            self.format.depth(),
            self.width,
            self.height,
            self.samples,
            nwidth,
            nheight,
        )
    }
}

/// A decoded image.
pub struct Image {
    width: u32,
    height: u32,
    format: PixelFormat,
    samples: Vec<u16>,
}

impl View for Image {
    type V = ImageView;

    closed spec fn view(&self) -> ImageView {
        ImageView {
            width: self.width as nat,
            height: self.height as nat,
            format: self.format,
            samples: self.samples@,
        }
    }
}

/// What `DynamicImage::grayscale`, `resize_exact` with `FilterType::Lanczos3`
/// and `into_luma8` make, in that order, of an image of the given channel
/// count, bit depth, dimensions and samples.
pub uninterp spec fn grey_lanczos(
    channels: nat,
    depth: nat,
    width: nat,
    height: nat,
    samples: Seq<u16>,
    nwidth: nat,
    nheight: nat,
) -> Seq<u8>;

/// What `DynamicImage::to_luma16` makes of such an image.
pub uninterp spec fn luma16_samples(channels: nat, depth: nat, width: nat, height: nat, samples: Seq<u16>) -> Seq<u16>;

/// What `DynamicImage::resize_exact` with `FilterType::Triangle`, followed by
/// `to_luma16`, makes of such an image.
pub uninterp spec fn luma16_triangle(
    channels: nat,
    depth: nat,
    width: nat,
    height: nat,
    samples: Seq<u16>,
    nwidth: nat,
    nheight: nat,
) -> Seq<u16>;

impl Image {
    /// Every image is valid.
    #[verifier::type_invariant]
    pub open spec fn wf(&self) -> bool {
        self@.valid()
    }

    /// An image of the given dimensions, format and samples, if the samples
    /// fill the dimensions, none exceeds what the format can hold and the
    /// image is small enough for this machine.
    pub fn new(width: u32, height: u32, format: PixelFormat, samples: Vec<u16>) -> (r: Option<Image>)
        ensures
            r.is_some() <==> (ImageView { width: width as nat, height: height as nat, format, samples: samples@ }).valid(),
            r.is_some() ==> r.unwrap()@ == (ImageView {
                width: width as nat,
                height: height as nat,
                format,
                samples: samples@,
            }),
    {
        let channels = format.channel_count();
        assert(width * height <= 0xFFFF_FFFF * 0xFFFF_FFFF) by (nonlinear_arith)
            requires
                width <= 0xFFFF_FFFF,
                height <= 0xFFFF_FFFF,
        ;
        let pixels: u128 = (width as u128) * (height as u128);
        assert(pixels * channels <= 3 * pixels) by (nonlinear_arith)
            requires
                channels <= 3,
        ;
        let need: u128 = pixels * (channels as u128);
        if 4 * pixels > usize::MAX as u128 || 128 * (width as u128) > usize::MAX as u128 {
            return None;
        }
        if samples.len() as u128 != need {
            return None;
        }
        let limit = format.sample_limit();
        let mut k: usize = 0;
        while k < samples.len()
            invariant
                k <= samples.len(),
                limit == format.max_sample(),
                samples@.len() == width * height * format.channels(),
                4 * (width * height) <= usize::MAX,
                128 * width <= usize::MAX,
                forall|m: int| 0 <= m < k ==> #[trigger] samples@[m] <= limit,
            decreases samples.len() - k,
        {
            if samples[k] > limit {
                assert(samples@[k as int] > format.max_sample());
                return None;
            }
            k += 1;
        }
        Some(Image { width, height, format, samples })
    }

    /// The width in pixels.
    pub fn width(&self) -> (w: u32)
        ensures
            w == self@.width,
            self@.valid(),
    {
        proof {
            use_type_invariant(self);
        }
        self.width
    }

    /// The height in pixels.
    pub fn height(&self) -> (h: u32)
        ensures
            h == self@.height,
            self@.valid(),
    {
        proof {
            use_type_invariant(self);
        }
        self.height
    }

    /// The pixel format.
    pub fn format(&self) -> (f: PixelFormat)
        ensures
            f == self@.format,
            self@.valid(),
    {
        proof {
            use_type_invariant(self);
        }
        self.format
    }

    /// The samples, row by row.
    pub fn samples(&self) -> (s: &Vec<u16>)
        ensures
            s@ == self@.samples,
            self@.valid(),
    {
        proof {
            use_type_invariant(self);
        }
        &self.samples
    }

    /// Whether two images have the same pixel format.
    pub fn same_format(&self, other: &Image) -> (same: bool)
        ensures
            same == (self@.format == other@.format),
    {
        self.format == other.format
    }

    /// Whether two images have the same width and the same height, as the
    /// metrics ask of the images they compare.
    pub fn same_size(&self, other: &Image) -> (same: bool)
        ensures
            same == (self@.width == other@.width && self@.height == other@.height),
    {
        self.width == other.width && self.height == other.height
    }

    /// The image made grey and resampled to `nwidth` by `nheight` with the
    /// Lanczos filter, as 8-bit grey levels, row by row.
    ///
    /// Calls `DynamicImage::grayscale`, `DynamicImage::resize_exact` and
    /// `DynamicImage::into_luma8` of the `image` crate. Believed of them: the
    /// result depends on the image and the dimensions alone, and holds one
    /// sample for each pixel of the new dimensions.
    #[verifier::external_body]
    pub(crate) fn lanczos_luma8(&self, nwidth: u32, nheight: u32) -> (out: Vec<u8>)
        requires
            self.wf(),
            0 < nwidth <= 32,
            0 < nheight <= 32,
        ensures
            out@ == grey_lanczos(self@.format.channels(), self@.format.depth(), self@.width, self@.height, self@.samples, nwidth as nat, nheight as nat),
            out@.len() == nwidth * nheight,
    {
        let (w, h, s) = (self.width, self.height, self.samples.clone());
        let b: Vec<u8> = s.iter().map(|&v| v as u8).collect();
        let d = match self.format {
            PixelFormat::Luma8 => ImageLuma8(ImageBuffer::from_raw(w, h, b).unwrap()),
            PixelFormat::Rgb8 => ImageRgb8(ImageBuffer::from_raw(w, h, b).unwrap()),
            PixelFormat::Luma16 => ImageLuma16(ImageBuffer::from_raw(w, h, s).unwrap()),
            PixelFormat::Rgb16 => ImageRgb16(ImageBuffer::from_raw(w, h, s).unwrap()),
        };
        d.grayscale().resize_exact(nwidth, nheight, FilterType::Lanczos3).into_luma8().into_raw()
    }

    /// The 16-bit luma of each pixel, row by row.
    ///
    /// Calls `DynamicImage::to_luma16` of the `image` crate. Believed of it:
    /// the result depends on the image alone and holds one sample per pixel.
    #[verifier::external_body]
    pub(crate) fn luma16(&self) -> (out: Vec<u16>)
        requires
            self.wf(),
        ensures
            out@ == luma16_samples(self@.format.channels(), self@.format.depth(), self@.width, self@.height, self@.samples),
            out@.len() == self@.width * self@.height,
    {
        let (w, h, s) = (self.width, self.height, self.samples.clone());
        let b: Vec<u8> = s.iter().map(|&v| v as u8).collect();
        let d = match self.format {
            PixelFormat::Luma8 => ImageLuma8(ImageBuffer::from_raw(w, h, b).unwrap()),
            PixelFormat::Rgb8 => ImageRgb8(ImageBuffer::from_raw(w, h, b).unwrap()),
            PixelFormat::Luma16 => ImageLuma16(ImageBuffer::from_raw(w, h, s).unwrap()),
            PixelFormat::Rgb16 => ImageRgb16(ImageBuffer::from_raw(w, h, s).unwrap()),
        };
        d.to_luma16().into_raw()
    }

    /// The 16-bit luma of the image resampled to `nwidth` by `nheight` with
    /// the triangle filter, row by row.
    ///
    /// Calls `DynamicImage::resize_exact` and `DynamicImage::to_luma16` of the
    /// `image` crate. Believed of them: the result depends on the image and
    /// the dimensions alone, and holds one sample for each pixel of the new
    /// dimensions.
    #[verifier::external_body]
    pub(crate) fn triangle_luma16(&self, nwidth: u32, nheight: u32) -> (out: Vec<u16>)
        requires
            self.wf(),
            0 < nwidth <= self@.width,
            0 < nheight <= self@.height,
        ensures
            out@ == luma16_triangle(self@.format.channels(), self@.format.depth(), self@.width, self@.height, self@.samples, nwidth as nat, nheight as nat),
            out@.len() == nwidth * nheight,
    {
        let (w, h, s) = (self.width, self.height, self.samples.clone());
        let b: Vec<u8> = s.iter().map(|&v| v as u8).collect();
        let d = match self.format {
            PixelFormat::Luma8 => ImageLuma8(ImageBuffer::from_raw(w, h, b).unwrap()),
            PixelFormat::Rgb8 => ImageRgb8(ImageBuffer::from_raw(w, h, b).unwrap()),
            PixelFormat::Luma16 => ImageLuma16(ImageBuffer::from_raw(w, h, s).unwrap()),
            PixelFormat::Rgb16 => ImageRgb16(ImageBuffer::from_raw(w, h, s).unwrap()),
        };
        d.resize_exact(nwidth, nheight, FilterType::Triangle).to_luma16().into_raw()
    }
}

} // verus!
