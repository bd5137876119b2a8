use vstd::prelude::*;

verus! {

/// A format of the `image` crate. Nothing of its inside is visible here.
#[verifier::external_type_specification]
#[verifier::external_body]
pub struct ExImageFormat(image::ImageFormat);

/// The format that a file is read as. The two that the pipeline meets on
/// its way are told apart; any other is carried along as the `image` crate
/// names it.
#[derive(Clone, Copy, Debug, PartialEq, Eq)]
pub enum Format {
    Jpeg,
    Png,
    Other(image::ImageFormat),
}

/// The format that `image::ImageFormat::from_path` finds for a path by its
/// extension, or `None` where it finds none.
pub uninterp spec fn path_format(path: Seq<char>) -> Option<Format>;

/// An image as the `image` crate holds it after decoding. Nothing of its
/// inside is visible here.
#[verifier::external_type_specification]
#[verifier::external_body]
pub struct ExDynamicImage(image::DynamicImage);

/// The error of the `image` crate. It is only told apart from success.
#[verifier::external_type_specification]
#[verifier::external_body]
pub struct ExImageError(image::ImageError);

/// The image that `image::load` decodes from a file's bytes read as the
/// given format, or `None` where it reports an error.
pub uninterp spec fn decoded_image(bytes: Seq<u8>, format: Format) -> Option<image::DynamicImage>;

/// Width and height of a decoded image, in pixels.
pub uninterp spec fn image_extent(image: image::DynamicImage) -> (u32, u32);

/// The pixels of a decoded image as 8-bit RGBA, row by row, as
/// `DynamicImage::to_rgba8` lays them out.
pub uninterp spec fn image_rgba(image: image::DynamicImage) -> Seq<u8>;

/// `image::ImageFormat::from_path` on a path held as text. The contract only
/// gives the result its name; which format a given path stands for is not
/// stated.
#[verifier::external_body]
pub(crate) fn format_of(path: &str) -> (format: Option<Format>)
    ensures
        format == path_format(path@),
{
    match image::ImageFormat::from_path(path) {
        Ok(image::ImageFormat::Jpeg) => Some(Format::Jpeg),
        Ok(image::ImageFormat::Png) => Some(Format::Png),
        Ok(other) => Some(Format::Other(other)),
        Err(_) => None,
    }
}

/// `image::load` on the bytes of a file, with the format fixed beforehand.
/// The contract only gives the result its name: nothing is claimed of the
/// image but that equal bytes read as the same format decode alike.
#[verifier::external_body]
pub(crate) fn decode(bytes: &[u8], format: Format) -> (decoded: Result<
    image::DynamicImage,
    image::ImageError,
>)
    ensures
        decoded_image(bytes@, format) == match decoded {
            Ok(image) => Some(image),
            Err(_) => None,
        },
{
    let format = match format {
        Format::Jpeg => image::ImageFormat::Jpeg,
        Format::Png => image::ImageFormat::Png,
        Format::Other(other) => other,
    };
    image::load(std::io::Cursor::new(bytes), format)
}

/// `GenericImageView::dimensions` of a decoded image. The contract only
/// gives the result its name.
#[verifier::external_body]
pub(crate) fn extent(image: &image::DynamicImage) -> (size: (u32, u32))
    ensures
        size == image_extent(*image),
{
    image::GenericImageView::dimensions(image)
}

/// `DynamicImage::to_rgba8`, handed out as the buffer's bytes by
/// `ImageBuffer::into_vec`. The contract gives the bytes their name and
/// claims that there are at least four for each pixel: an image buffer never
/// holds fewer samples than its size asks for. The conversion allocates that
/// many bytes, which must be a length a vector can have.
#[verifier::external_body]
pub(crate) fn rgba_bytes(image: &image::DynamicImage) -> (rgba: Vec<u8>)
    requires
        4 * (image_extent(*image).0 * image_extent(*image).1) <= isize::MAX,
    ensures
        rgba@ == image_rgba(*image),
        rgba@.len() >= 4 * (image_extent(*image).0 * image_extent(*image).1),
{
    image.to_rgba8().into_vec()
}

/// What a decoded image is in contracts.
pub struct PixelsModel {
    pub width: u32,
    pub height: u32,
    pub rgba: Seq<u8>,
}

/// The pixel budget of a buffer: four bytes for each pixel.
pub open spec fn rgba_len(width: u32, height: u32) -> int {
    4 * (width * height)
}

/// What is kept of an image that `image::load` decoded: its size, and four
/// bytes for each of its pixels.
pub open spec fn image_pixels(image: image::DynamicImage) -> PixelsModel {
    PixelsModel {
        width: image_extent(image).0,
        height: image_extent(image).1,
        rgba: image_rgba(image).take(rgba_len(image_extent(image).0, image_extent(image).1)),
    }
}

/// A decoded image: its size and its pixels as 8-bit RGBA, row by row. The
/// buffer always holds exactly four bytes per pixel.
#[derive(Debug)]
pub struct DecodedImage {
    width: u32,
    height: u32,
    rgba: Vec<u8>,
}

impl View for DecodedImage {
    type V = PixelsModel;

    closed spec fn view(&self) -> PixelsModel {
        PixelsModel { width: self.width, height: self.height, rgba: self.rgba@ }
    }
}

impl DecodedImage {
    #[verifier::type_invariant]
    spec fn well_formed(self) -> bool {
        self.rgba@.len() == rgba_len(self.width, self.height)
    }

    /// An image over a buffer, if the buffer has the length that the size
    /// asks for.
    pub fn new(width: u32, height: u32, rgba: Vec<u8>) -> (made: Option<DecodedImage>)
        ensures
            made is Some <==> rgba@.len() == rgba_len(width, height),
            made matches Some(image) ==> image@ == (PixelsModel { width, height, rgba: rgba@ }),
    {
        assert(width * height <= 0xffff_ffff * 0xffff_ffff) by (nonlinear_arith)
            requires
                width <= 0xffff_ffff,
                height <= 0xffff_ffff,
        ;
        let pixels: u64 = (width as u64) * (height as u64);
        let wanted: u128 = 4 * (pixels as u128);
        if rgba.len() as u128 == wanted {
            Some(DecodedImage { width, height, rgba })
        } else {
            None
        }
    }

    /// The pixels of a decoded image whose size is already known, converted
    /// to RGBA.
    pub(crate) fn of_image(image: &image::DynamicImage, width: u32, height: u32) -> (pixels:
        DecodedImage)
        requires
            (width, height) == image_extent(*image),
            rgba_len(width, height) <= isize::MAX,
        ensures
            pixels@ == image_pixels(*image),
    {
        assert(width * height <= 0xffff_ffff * 0xffff_ffff) by (nonlinear_arith)
            requires
                width <= 0xffff_ffff,
                height <= 0xffff_ffff,
        ;
        let wanted: u64 = 4 * ((width as u64) * (height as u64));
        let mut rgba = rgba_bytes(image);
        rgba.truncate(wanted as usize);
        DecodedImage { width, height, rgba }
    }

    /// The width in pixels.
    pub fn width(&self) -> (width: u32)
        ensures
            width == self@.width,
    {
        self.width
    }

    /// The height in pixels.
    pub fn height(&self) -> (height: u32)
        ensures
            height == self@.height,
    {
        self.height
    }

    /// The pixels, four bytes each.
    pub fn rgba(&self) -> (rgba: &[u8])
        ensures
            rgba@ == self@.rgba,
            rgba@.len() == rgba_len(self@.width, self@.height),
    {
        proof {
            use_type_invariant(self);
        }
        self.rgba.as_slice()
    }
}

} // verus!
