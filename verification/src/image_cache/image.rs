//! One cached image: where it lives, what kind it is, when it was made, and
//! the bytes that were last read for it.
//!
//! Reading a file and encoding the compressed derivative happen outside this
//! module. What is decided here is what a record holds after each of those
//! steps, how a decoded picture is turned upright, and when a record counts as
//! fresh.

use vstd::prelude::*;
use vstd::string::*;

verus! {

/// `imghdr::Type`, the image types that the detection tells apart. Its
/// variants are read from the crate itself.
#[verifier::external_type_specification]
pub struct ExType(imghdr::Type);

/// `image::DynamicImage`, a decoded picture. What is inside is spoken of
/// through `image_width`, `image_height` and `image_pixels` alone.
#[verifier::external_type_specification]
#[verifier::external_body]
pub struct ExDynamicImage(image::DynamicImage);

/// `image::ImageError`, why a picture could not be decoded. It is carried,
/// never read.
#[verifier::external_type_specification]
#[verifier::external_body]
pub struct ExImageError(image::ImageError);

/// `exif::Exif`, a parsed EXIF block. It is carried from the reader to the
/// lookup of a field.
#[verifier::external_type_specification]
#[verifier::external_body]
pub struct ExExif(exif::Exif);

/// `exif::Error`, why no EXIF block could be read. It is carried, never
/// read.
#[verifier::external_type_specification]
#[verifier::external_body]
pub struct ExExifError(exif::Error);

/// `exif::Field`, one field of an EXIF block. It is carried from the lookup
/// to the reading of its value.
#[verifier::external_type_specification]
#[verifier::external_body]
pub struct ExField(exif::Field);

/// How many leading bytes of a file the format detection looks at.
pub const HEADER_LEN: usize = 12;

/// Why a record could not be created or resolved.
#[derive(Clone, Copy, Debug, PartialEq, Eq, Structural)]
pub enum RecordError {
    /// The file, or a fact about it, could not be read.
    IOError,
    /// The leading bytes belong to no known image format.
    UnsupportedFormat,
    /// The bytes do not decode as an image.
    DecodeError,
    /// The upright picture could not be encoded.
    EncodeError,
}

/// What was found out about a path before it is offered to the cache. Each
/// optional part is `None` when the file system refused to tell.
#[derive(Clone, Debug)]
pub struct FileProbe {
    /// The path as it was reported.
    pub path: String,
    /// Its absolute, symlink-free form.
    pub canonical: Option<String>,
    /// Whether it names a regular file.
    pub is_file: Option<bool>,
    /// The leading bytes of the file.
    pub head: Option<Vec<u8>>,
    /// When the file was created, in milliseconds since the epoch.
    pub created: Option<i64>,
}

/// A decoded picture, turned upright, together with the bytes it came from.
pub struct Staged {
    pub data: Vec<u8>,
    pub upright: image::DynamicImage,
}

/// The two byte strings that a successful resolve stores.
#[derive(Clone, Debug)]
pub struct Resolved {
    pub data: Vec<u8>,
    pub compressed_data: Vec<u8>,
}

/// The image type that `imghdr::from_bytes` finds in the given leading bytes.
pub uninterp spec fn detected_type(head: Seq<u8>) -> Option<imghdr::Type>;

/// The picture that `image::load_from_memory` decodes from the given bytes,
/// or `None` where it reports an error.
pub uninterp spec fn decoded_image(data: Seq<u8>) -> Option<image::DynamicImage>;

/// The EXIF block that `exif::Reader::read_from_container` finds in the given
/// bytes, or `None` where it reports an error.
pub uninterp spec fn exif_block(data: Seq<u8>) -> Option<exif::Exif>;

/// The field that `exif::Exif::get_field` finds for the orientation of the
/// primary image.
pub uninterp spec fn primary_orientation(block: exif::Exif) -> Option<exif::Field>;

/// What `exif::Value::get_uint` reads at position 0 of the field's value.
pub uninterp spec fn first_uint(field: exif::Field) -> Option<u32>;

/// What `image::DynamicImage::width` reports: the number of pixel columns.
pub uninterp spec fn image_width(img: image::DynamicImage) -> nat;

/// What `image::DynamicImage::height` reports: the number of pixel rows.
pub uninterp spec fn image_height(img: image::DynamicImage) -> nat;

/// What `image::GenericImageView::get_pixel` reports of a picture for each
/// column and row: red, green, blue and alpha.
pub uninterp spec fn image_pixels(img: image::DynamicImage) -> Map<(int, int), (u8, u8, u8, u8)>;

/// The orientation tag of the picture in the given bytes: the first unsigned
/// value of the orientation field of the primary image, where the bytes hold
/// an EXIF block with such a field and value.
pub open spec fn orientation_tag(data: Seq<u8>) -> Option<u32> {
    match exif_block(data) {
        None => None,
        Some(block) => match primary_orientation(block) {
            None => None,
            Some(field) => first_uint(field),
        },
    }
}

/// `chrono::Utc::now`, as milliseconds since the epoch. Nothing is claimed of
/// the value.
#[verifier::external_body]
pub(crate) fn now_millis() -> i64 {
    chrono::Utc::now().timestamp_millis()
}

/// `imghdr::from_bytes`. It slices the first twelve bytes without a length
/// test, so shorter input is excluded; its answer is named `detected_type`.
#[verifier::external_body]
fn detect_type(head: &[u8]) -> (r: Option<imghdr::Type>)
    requires
        head@.len() >= HEADER_LEN,
    ensures
        r == detected_type(head@),
{
    imghdr::from_bytes(head)
}

/// `image::load_from_memory`. Its answer is named `decoded_image`; the error
/// is handed on as it is.
#[verifier::external_body]
fn decode(data: &[u8]) -> (r: Result<image::DynamicImage, image::ImageError>)
    ensures
        match r {
            Ok(img) => decoded_image(data@) == Some(img),
            Err(_) => decoded_image(data@) is None,
        },
{
    image::load_from_memory(data)
}

/// `exif::Reader::read_from_container` on a reader with default settings.
/// Its answer is named `exif_block`; the error is handed on as it is.
#[verifier::external_body]
fn read_exif(data: &[u8]) -> (r: Result<exif::Exif, exif::Error>)
    ensures
        match r {
            Ok(block) => exif_block(data@) == Some(block),
            Err(_) => exif_block(data@) is None,
        },
{
    exif::Reader::new().read_from_container(&mut std::io::Cursor::new(data))
}

/// `exif::Exif::get_field` for the orientation tag of the primary image. Its
/// answer is named `primary_orientation`.
#[verifier::external_body]
fn orientation_field(block: &exif::Exif) -> (r: Option<&exif::Field>)
    ensures
        match r {
            Some(field) => primary_orientation(*block) == Some(*field),
            None => primary_orientation(*block) is None,
        },
{
    block.get_field(exif::Tag::Orientation, exif::In::PRIMARY)
}

/// `exif::Value::get_uint` at position 0 of the field's value. Its answer is
/// named `first_uint`.
#[verifier::external_body]
fn field_uint(field: &exif::Field) -> (r: Option<u32>)
    ensures
        r == first_uint(*field),
{
    field.value.get_uint(0)
}

/// `image::DynamicImage::width`.
#[verifier::external_body]
fn width_of(img: &image::DynamicImage) -> (r: u32)
    ensures
        r == image_width(*img),
{
    img.width()
}

/// `image::DynamicImage::height`.
#[verifier::external_body]
fn height_of(img: &image::DynamicImage) -> (r: u32)
    ensures
        r == image_height(*img),
{
    img.height()
}

/// The picture can be flipped and turned: its pixels, at four bytes each,
/// fit a buffer.
pub open spec fn can_turn(img: image::DynamicImage) -> bool {
    4 * image_width(img) * image_height(img) <= usize::MAX
}

/// `image::imageops::flip_horizontal`: same size, each row reversed. The
/// result is an RGBA picture in a new buffer; where its length in bytes
/// does not fit `usize` the function panics, so such pictures are excluded.
#[verifier::external_body]
fn flip_horizontal(img: &image::DynamicImage) -> (r: image::DynamicImage)
    requires
        can_turn(*img),
    ensures
        image_width(r) == image_width(*img),
        image_height(r) == image_height(*img),
        forall|x: int, y: int|
            0 <= x < image_width(r) && 0 <= y < image_height(r) ==> #[trigger] image_pixels(
                r,
            )[(x, y)] == image_pixels(*img)[(image_width(*img) - 1 - x, y)],
{
    image::DynamicImage::ImageRgba8(image::imageops::flip_horizontal(img))
}

/// `image::imageops::flip_vertical`: same size, each column reversed. The
/// result is an RGBA picture in a new buffer, under the same limit.
#[verifier::external_body]
fn flip_vertical(img: &image::DynamicImage) -> (r: image::DynamicImage)
    requires
        can_turn(*img),
    ensures
        image_width(r) == image_width(*img),
        image_height(r) == image_height(*img),
        forall|x: int, y: int|
            0 <= x < image_width(r) && 0 <= y < image_height(r) ==> #[trigger] image_pixels(
                r,
            )[(x, y)] == image_pixels(*img)[(x, image_height(*img) - 1 - y)],
{
    image::DynamicImage::ImageRgba8(image::imageops::flip_vertical(img))
}

/// `image::imageops::rotate90`: a quarter turn clockwise, width and height
/// exchanged. The result is an RGBA picture in a new buffer, under the same
/// limit.
#[verifier::external_body]
fn rotate90(img: &image::DynamicImage) -> (r: image::DynamicImage)
    requires
        can_turn(*img),
    ensures
        image_width(r) == image_height(*img),
        image_height(r) == image_width(*img),
        forall|x: int, y: int|
            0 <= x < image_width(r) && 0 <= y < image_height(r) ==> #[trigger] image_pixels(
                r,
            )[(x, y)] == image_pixels(*img)[(y, image_height(*img) - 1 - x)],
{
    image::DynamicImage::ImageRgba8(image::imageops::rotate90(img))
}

/// `image::imageops::rotate180`: a half turn, same size. The result is an
/// RGBA picture in a new buffer, under the same limit.
#[verifier::external_body]
fn rotate180(img: &image::DynamicImage) -> (r: image::DynamicImage)
    requires
        can_turn(*img),
    ensures
        image_width(r) == image_width(*img),
        image_height(r) == image_height(*img),
        forall|x: int, y: int|
            0 <= x < image_width(r) && 0 <= y < image_height(r) ==> #[trigger] image_pixels(
                r,
            )[(x, y)] == image_pixels(*img)[(image_width(*img) - 1 - x, image_height(*img) - 1 - y)],
{
    image::DynamicImage::ImageRgba8(image::imageops::rotate180(img))
}

/// `image::imageops::rotate270`: three quarter turns clockwise, width and
/// height exchanged. The result is an RGBA picture in a new buffer, under
/// the same limit.
#[verifier::external_body]
fn rotate270(img: &image::DynamicImage) -> (r: image::DynamicImage)
    requires
        can_turn(*img),
    ensures
        image_width(r) == image_height(*img),
        image_height(r) == image_width(*img),
        forall|x: int, y: int|
            0 <= x < image_width(r) && 0 <= y < image_height(r) ==> #[trigger] image_pixels(
                r,
            )[(x, y)] == image_pixels(*img)[(image_width(*img) - 1 - y, x)],
{
    image::DynamicImage::ImageRgba8(image::imageops::rotate270(img))
}

/// The eight ways to lay a rectangular picture onto itself or its transpose.
#[derive(Clone, Copy, Debug, PartialEq, Eq, Structural)]
pub enum Turn {
    Identity,
    FlipHorizontal,
    Rotate180,
    FlipVertical,
    Transpose,
    Rotate90,
    Transverse,
    Rotate270,
}

impl Turn {
    /// Whether the result is as wide as the source was high.
    pub open spec fn swaps_sides(self) -> bool {
        self == Turn::Transpose || self == Turn::Rotate90 || self == Turn::Transverse || self
            == Turn::Rotate270
    }

    /// The source position of the pixel that ends up at column `x`, row `y`,
    /// for a source of `w` columns and `h` rows.
    pub open spec fn source(self, w: int, h: int, x: int, y: int) -> (int, int) {
        match self {
            Turn::Identity => (x, y),
            Turn::FlipHorizontal => (w - 1 - x, y),
            Turn::Rotate180 => (w - 1 - x, h - 1 - y),
            Turn::FlipVertical => (x, h - 1 - y),
            Turn::Transpose => (y, x),
            Turn::Rotate90 => (y, h - 1 - x),
            Turn::Transverse => (w - 1 - y, h - 1 - x),
            Turn::Rotate270 => (w - 1 - y, x),
        }
    }

    /// The turn that an EXIF orientation value asks for. Values outside 1 to
    /// 8 ask for none.
    pub open spec fn of_orientation(orientation: u32) -> Turn {
        if orientation == 2 {
            Turn::FlipHorizontal
        } else if orientation == 3 {
            Turn::Rotate180
        } else if orientation == 4 {
            Turn::FlipVertical
        } else if orientation == 5 {
            Turn::Transpose
        } else if orientation == 6 {
            Turn::Rotate90
        } else if orientation == 7 {
            Turn::Transverse
        } else if orientation == 8 {
            Turn::Rotate270
        } else {
            Turn::Identity
        }
    }
}

/// `out` shows `src` after `turn`: the sides are kept or exchanged, and every
/// pixel of `out` is the pixel of `src` at its source position.
pub open spec fn is_transformed(
    src: image::DynamicImage,
    turn: Turn,
    out: image::DynamicImage,
) -> bool {
    let w = image_width(src) as int;
    let h = image_height(src) as int;
    &&& image_width(out) == (if turn.swaps_sides() { h } else { w })
    &&& image_height(out) == (if turn.swaps_sides() { w } else { h })
    &&& forall|x: int, y: int|
        0 <= x < image_width(out) && 0 <= y < image_height(out) ==> #[trigger] image_pixels(
            out,
        )[(x, y)] == image_pixels(src)[turn.source(w, h, x, y)]
}

/// The orientation that is applied when the tag reads `tag`: the tag's value,
/// or 1 where there is none.
pub open spec fn effective_orientation(tag: Option<u32>) -> u32 {
    match tag {
        Some(o) => o,
        None => 1,
    }
}

/// Milliseconds from `since` to `now`, kept within the range of `i64`.
pub open spec fn elapsed(since: i64, now: i64) -> int {
    if now - since > i64::MAX {
        i64::MAX as int
    } else if now - since < i64::MIN {
        i64::MIN as int
    } else {
        now - since
    }
}

/// The MIME type that stands for an image type.
pub open spec fn mime_of(t: imghdr::Type) -> Seq<char> {
    match t {
        imghdr::Type::Gif => "image/gif"@,
        imghdr::Type::Tiff => "image/tiff"@,
        imghdr::Type::Jpeg => "image/jpeg"@,
        imghdr::Type::Bmp => "image/bmp"@,
        imghdr::Type::Png => "image/png"@,
        imghdr::Type::Webp => "image/webp"@,
        imghdr::Type::Exr => "image/exr"@,
        imghdr::Type::Ico => "image/vnd.microsoft.icon"@,
        _ => "application/octet-stream"@,
    }
}

/// One tracked image.
#[derive(Debug)]
pub struct Image {
    /// Canonical path of the file.
    pub path: String,
    /// The file's bytes as last read; empty while unresolved or cleared.
    pub data: Vec<u8>,
    /// The compressed derivative of `data`; empty under the same rule.
    pub compressed_data: Vec<u8>,
    /// When the file was created, in milliseconds since the epoch.
    pub image_age: i64,
    pub(crate) cache_time: i64,
    pub(crate) image_type: imghdr::Type,
}

/// What an `Image` stands for in contracts.
pub struct ImageView {
    pub path: Seq<char>,
    pub data: Seq<u8>,
    pub compressed_data: Seq<u8>,
    pub image_age: i64,
    pub cache_time: i64,
    pub image_type: imghdr::Type,
}

impl View for Image {
    type V = ImageView;

    open(crate) spec fn view(&self) -> ImageView {
        ImageView {
            path: self.path@,
            data: self.data@,
            compressed_data: self.compressed_data@,
            image_age: self.image_age,
            cache_time: self.cache_time,
            image_type: self.image_type,
        }
    }
}

impl ImageView {
    /// The record with both byte strings emptied.
    pub open spec fn cleared(self) -> ImageView {
        ImageView { data: Seq::empty(), compressed_data: Seq::empty(), ..self }
    }

    /// The record after a resolve that ended at `now` with `outcome`.
    pub open spec fn resolved(
        self,
        outcome: Result<(Seq<u8>, Seq<u8>), RecordError>,
        now: i64,
    ) -> ImageView {
        match outcome {
            Ok(bytes) => ImageView {
                data: bytes.0,
                compressed_data: bytes.1,
                cache_time: now,
                ..self
            },
            Err(_) => self,
        }
    }

    /// Bytes are present and were resolved less than `max_age` before `now`.
    pub open spec fn is_fresh(self, now: i64, max_age: i64) -> bool {
        elapsed(self.cache_time, now) < max_age && self.data.len() > 0
    }

    /// Bytes are present and were resolved more than `max_age` before `now`.
    pub open spec fn is_expired(self, now: i64, max_age: i64) -> bool {
        elapsed(self.cache_time, now) > max_age && self.data.len() > 0
    }
}

/// The record that a probe yields when it is taken at `now`, or the reason
/// why it yields none.
pub open spec fn probed(probe: FileProbe, now: i64) -> Result<ImageView, RecordError> {
    if probe.canonical is None {
        Err(RecordError::IOError)
    } else if probe.head is None || probe.head->0@.len() < HEADER_LEN {
        Err(RecordError::IOError)
    } else if detected_type(probe.head->0@) is None {
        Err(RecordError::UnsupportedFormat)
    } else if probe.created is None {
        Err(RecordError::IOError)
    } else {
        Ok(
            ImageView {
                path: probe.canonical->0@,
                data: Seq::empty(),
                compressed_data: Seq::empty(),
                image_age: probe.created->0,
                cache_time: now,
                image_type: detected_type(probe.head->0@)->0,
            },
        )
    }
}

/// The turn that the picture in the given bytes asks for.
pub open spec fn turn_of(data: Seq<u8>) -> Turn {
    Turn::of_orientation(effective_orientation(orientation_tag(data)))
}

/// What loading yields for the bytes that were read, with the picture left
/// aside: the bytes themselves, or the reason for the failure. Bytes that
/// were not read are an `IOError`; bytes that do not decode are a
/// `DecodeError`; a picture that asks for a turn and is too large for one is
/// an `EncodeError`.
pub open spec fn staged(read: Option<Seq<u8>>) -> Result<Seq<u8>, RecordError> {
    match read {
        None => Err(RecordError::IOError),
        Some(bytes) => match decoded_image(bytes) {
            None => Err(RecordError::DecodeError),
            Some(img) => if turn_of(bytes) != Turn::Identity && !can_turn(img) {
                Err(RecordError::EncodeError)
            } else {
                Ok(bytes)
            },
        },
    }
}

impl Resolved {
    /// The two byte strings as a pair of sequences.
    pub open spec fn bytes(self) -> (Seq<u8>, Seq<u8>) {
        (self.data@, self.compressed_data@)
    }
}

/// An outcome of a resolve over sequences.
pub open spec fn outcome_bytes(outcome: Result<Resolved, RecordError>) -> Result<
    (Seq<u8>, Seq<u8>),
    RecordError,
> {
    match outcome {
        Ok(resolved) => Ok(resolved.bytes()),
        Err(e) => Err(e),
    }
}

impl Staged {
    /// Joins the bytes that were read with what the encoder made of the
    /// upright picture. An encoder that gave nothing is an `EncodeError`.
    pub fn finish(self, encoded: Option<Vec<u8>>) -> (r: Result<Resolved, RecordError>)
        ensures
            encoded is None ==> r == Err::<Resolved, RecordError>(RecordError::EncodeError),
            encoded is Some ==> r is Ok && r->Ok_0.bytes() == (self.data@, encoded->0@),
    {
        match encoded {
            None => Err(RecordError::EncodeError),
            Some(compressed_data) => Ok(Resolved { data: self.data, compressed_data }),
        }
    }
}

impl Clone for Image {
    fn clone(&self) -> (r: Self)
        ensures
            r@ == self@,
    {
        Image {
            path: self.path.clone(),
            data: self.data.clone(),
            compressed_data: self.compressed_data.clone(),
            image_age: self.image_age,
            cache_time: self.cache_time,
            image_type: self.image_type,
        }
    }
}

impl Image {
    /// Lays a decoded picture out as the EXIF orientation value asks. Values
    /// 2 to 8 are the seven flips and turns; any other value leaves the picture
    /// as it is.
    pub fn apply_exif_orientation(img: image::DynamicImage, orientation: u32) -> (r:
        image::DynamicImage)
        requires
            Turn::of_orientation(orientation) != Turn::Identity ==> can_turn(img),
        ensures
            is_transformed(img, Turn::of_orientation(orientation), r),
            Turn::of_orientation(orientation) == Turn::Identity ==> r == img,
    {
        if orientation == 2 {
            flip_horizontal(&img)
        } else if orientation == 3 {
            rotate180(&img)
        } else if orientation == 4 {
            flip_vertical(&img)
        } else if orientation == 5 {
            let turned = rotate90(&img);
            proof {
                lemma_sides(image_width(img), image_height(img));
            }
            flip_horizontal(&turned)
        } else if orientation == 6 {
            rotate90(&img)
        } else if orientation == 7 {
            let turned = rotate270(&img);
            proof {
                lemma_sides(image_width(img), image_height(img));
            }
            flip_horizontal(&turned)
        } else if orientation == 8 {
            rotate270(&img)
        } else {
            img
        }
    }

    /// Whether the picture is small enough to be flipped and turned.
    pub fn fits(img: &image::DynamicImage) -> (r: bool)
        ensures
            r == can_turn(*img),
    {
        let w = width_of(img) as u128;
        let h = height_of(img) as u128;
        assert(4 * w * h <= 4 * 0xffff_ffff * 0xffff_ffff) by (nonlinear_arith)
            requires
                0 <= w <= 0xffff_ffff,
                0 <= h <= 0xffff_ffff,
        ;
        4 * w * h <= usize::MAX as u128
    }

    /// Lays a decoded picture out as the EXIF orientation value asks, where
    /// that can be done: a picture that needs no turn is handed back as it
    /// is, one that needs a turn is turned if it is small enough, and nothing
    /// is handed back for one that is too large.
    pub fn turn_upright(img: image::DynamicImage, orientation: u32) -> (r: Option<
        image::DynamicImage,
    >)
        ensures
            r is Some <==> Turn::of_orientation(orientation) == Turn::Identity || can_turn(img),
            r matches Some(out) ==> is_transformed(img, Turn::of_orientation(orientation), out),
            r matches Some(out) ==> (Turn::of_orientation(orientation) == Turn::Identity ==> out
                == img),
    {
        if orientation < 2 || orientation > 8 || Self::fits(&img) {
            Some(Self::apply_exif_orientation(img, orientation))
        } else {
            None
        }
    }

    /// The orientation to apply to the picture in `data`: what its EXIF block
    /// says, or 1 where there is no block, no orientation field in it, or no
    /// unsigned value in the field.
    pub fn get_exif_orientation(data: &[u8]) -> (r: u32)
        ensures
            r == effective_orientation(orientation_tag(data@)),
    {
        match read_exif(data) {
            Err(_) => 1,
            Ok(block) => match orientation_field(&block) {
                None => 1,
                Some(field) => match field_uint(field) {
                    None => 1,
                    Some(orientation) => orientation,
                },
            },
        }
    }

    /// Decodes the bytes that were read from a file and turns the picture
    /// upright. `None` stands for a file that could not be read.
    pub fn load(read: Option<Vec<u8>>) -> (r: Result<Staged, RecordError>)
        ensures
            match r {
                Ok(s) => read is Some && s.data@ == read->0@ && staged(Some(s.data@)) == Ok::<
                    Seq<u8>,
                    RecordError,
                >(s.data@) && is_transformed(
                    decoded_image(s.data@)->0,
                    turn_of(s.data@),
                    s.upright,
                ),
                Err(e) => staged(
                    match read {
                        Some(bytes) => Some(bytes@),
                        None => None,
                    },
                ) == Err::<Seq<u8>, RecordError>(e),
            },
    {
        match read {
            None => Err(RecordError::IOError),
            Some(data) => match decode(data.as_slice()) {
                Err(_) => Err(RecordError::DecodeError),
                Ok(img) => {
                    let orientation = Self::get_exif_orientation(data.as_slice());
                    match Self::turn_upright(img, orientation) {
                        None => Err(RecordError::EncodeError),
                        Some(upright) => Ok(Staged { data, upright }),
                    }
                },
            },
        }
    }

    /// Builds the unresolved record for a probed file, stamped with `now`.
    pub fn from_probe_at(probe: &FileProbe, now: i64) -> (r: Result<Image, RecordError>)
        ensures
            match r {
                Ok(image) => probed(*probe, now) == Ok::<ImageView, RecordError>(image@),
                Err(e) => probed(*probe, now) == Err::<ImageView, RecordError>(e),
            },
    {
        let path = match &probe.canonical {
            None => { return Err(RecordError::IOError); },
            Some(path) => path.clone(),
        };
        let image_type = match &probe.head {
            None => { return Err(RecordError::IOError); },
            Some(head) => {
                if head.len() < HEADER_LEN {
                    return Err(RecordError::IOError);
                }
                match detect_type(head.as_slice()) {
                    None => { return Err(RecordError::UnsupportedFormat); },
                    Some(t) => t,
                }
            },
        };
        let image_age = match probe.created {
            None => { return Err(RecordError::IOError); },
            Some(created) => created,
        };
        Ok(
            Image {
                path,
                data: Vec::new(),
                compressed_data: Vec::new(),
                image_age,
                cache_time: now,
                image_type,
            },
        )
    }

    /// Builds the unresolved record for a probed file, stamped with the
    /// current time.
    pub fn from_probe(probe: &FileProbe) -> (r: Result<Image, RecordError>)
        ensures
            match r {
                Ok(image) => exists|now: i64|
                    probed(*probe, now) == Ok::<ImageView, RecordError>(image@),
                Err(e) => probed(*probe, 0) == Err::<ImageView, RecordError>(e),
            },
    {
        let now = now_millis();
        Self::from_probe_at(probe, now)
    }

    /// Milliseconds between the last resolve and `now`.
    pub fn cache_age_at(&self, now: i64) -> (r: i64)
        ensures
            r == elapsed(self@.cache_time, now),
    {
        let span: i128 = now as i128 - self.cache_time as i128;
        if span > i64::MAX as i128 {
            i64::MAX
        } else if span < i64::MIN as i128 {
            i64::MIN
        } else {
            span as i64
        }
    }

    /// Milliseconds since the last resolve.
    pub fn cache_age(&self) -> (r: i64)
        ensures
            exists|now: i64| r == elapsed(self@.cache_time, now),
    {
        let now = now_millis();
        let age = self.cache_age_at(now);
        assert(age == elapsed(self@.cache_time, now));
        age
    }

    /// Takes in the outcome of a resolve that ended at `now`. Success stores
    /// both byte strings and stamps the record; a failure is handed back and
    /// leaves the record as it was.
    pub fn resolve_at(&mut self, outcome: Result<Resolved, RecordError>, now: i64) -> (r: Result<
        (),
        RecordError,
    >)
        ensures
            final(self)@ == old(self)@.resolved(outcome_bytes(outcome), now),
            match outcome {
                Ok(_) => r is Ok,
                Err(e) => r == Err::<(), RecordError>(e),
            },
    {
        match outcome {
            Ok(resolved) => {
                self.compressed_data = resolved.compressed_data;
                self.data = resolved.data;
                self.cache_time = now;
                Ok(())
            },
            Err(e) => Err(e),
        }
    }

    /// Takes in the outcome of a resolve that ended just now.
    pub fn resolve(&mut self, outcome: Result<Resolved, RecordError>) -> (r: Result<
        (),
        RecordError,
    >)
        ensures
            exists|now: i64| final(self)@ == old(self)@.resolved(outcome_bytes(outcome), now),
            match outcome {
                Ok(_) => r is Ok,
                Err(e) => r == Err::<(), RecordError>(e),
            },
    {
        let now = now_millis();
        let r = self.resolve_at(outcome, now);
        assert(self@ == old(self)@.resolved(outcome_bytes(outcome), now));
        r
    }

    /// Whether the record holds no file bytes.
    pub fn is_empty(&self) -> (r: bool)
        ensures
            r == (self@.data.len() == 0),
    {
        self.data.is_empty()
    }

    /// Whether the record holds no compressed bytes.
    pub fn compressed_is_empty(&self) -> (r: bool)
        ensures
            r == (self@.compressed_data.len() == 0),
    {
        self.compressed_data.is_empty()
    }

    /// Drops both byte strings and keeps everything else.
    pub fn clear(&mut self)
        ensures
            final(self)@ == old(self)@.cleared(),
    {
        self.data.clear();
        self.compressed_data.clear();
    }

    /// The MIME type of the file.
    pub fn content_type(&self) -> (r: String)
        ensures
            r@ == mime_of(self@.image_type),
    {
        match self.image_type {
            imghdr::Type::Gif => String::from_str("image/gif"),
            imghdr::Type::Tiff => String::from_str("image/tiff"),
            imghdr::Type::Jpeg => String::from_str("image/jpeg"),
            imghdr::Type::Bmp => String::from_str("image/bmp"),
            imghdr::Type::Png => String::from_str("image/png"),
            imghdr::Type::Webp => String::from_str("image/webp"),
            imghdr::Type::Exr => String::from_str("image/exr"),
            imghdr::Type::Ico => String::from_str("image/vnd.microsoft.icon"),
            _ => String::from_str("application/octet-stream"),
        }
    }

    /// What a request for the image is answered with: the MIME type and the
    /// bytes of the file, or, where the compressed derivative is asked for,
    /// `image/webp` and its bytes.
    pub fn body(&self, compressed: bool) -> (r: (String, Vec<u8>))
        ensures
            compressed ==> r.0@ == "image/webp"@ && r.1@ == self@.compressed_data,
            !compressed ==> r.0@ == mime_of(self@.image_type) && r.1@ == self@.data,
    {
        if compressed {
            (String::from_str("image/webp"), self.compressed_data.clone())
        } else {
            (self.content_type(), self.data.clone())
        }
    }

    /// The image type that was detected when the record was made.
    pub fn image_type(&self) -> (r: imghdr::Type)
        ensures
            r == self@.image_type,
    {
        self.image_type
    }

    /// Whether bytes are present and younger than `max_age` at `now`.
    pub fn is_fresh_at(&self, now: i64, max_age: i64) -> (r: bool)
        ensures
            r == self@.is_fresh(now, max_age),
    {
        self.cache_age_at(now) < max_age && !self.is_empty()
    }

    /// Whether bytes are present and older than `max_age` at `now`.
    pub fn is_expired_at(&self, now: i64, max_age: i64) -> (r: bool)
        ensures
            r == self@.is_expired(now, max_age),
    {
        self.cache_age_at(now) > max_age && !self.is_empty()
    }
}

/// A picture and its transpose take the same room.
proof fn lemma_sides(w: nat, h: nat)
    ensures
        4 * w * h == 4 * h * w,
{
    assert(4 * w * h == 4 * h * w) by (nonlinear_arith);
}

} // verus!
