//! The MNIST files: a gzip stream around a short big-endian header and raw bytes.

use crate::error::Error;
use vstd::prelude::*;
use vstd::slice::{slice_subrange, slice_to_vec};

verus! {

/// Where the dataset is fetched from unless the caller says otherwise.
pub const BASE_URL: &'static str = "https://ossci-datasets.s3.amazonaws.com/mnist/";

pub const TRAIN_DATA_FILENAME: &'static str = "train-images-idx3-ubyte.gz";

pub const TEST_DATA_FILENAME: &'static str = "t10k-images-idx3-ubyte.gz";

pub const TRAIN_LABEL_FILENAME: &'static str = "train-labels-idx1-ubyte.gz";

pub const TEST_LABEL_FILENAME: &'static str = "t10k-labels-idx1-ubyte.gz";

pub const IMAGES_MAGIC_NUMBER: u32 = 2051;

pub const LABELS_MAGIC_NUMBER: u32 = 2049;

pub const NUM_TRAIN_IMAGES: u32 = 60_000;

pub const NUM_TEST_IMAGES: u32 = 10_000;

pub const IMAGE_ROWS: u32 = 28;

pub const IMAGE_COLUMNS: u32 = 28;

/// The length of the header of an image file.
pub const IMAGES_HEADER_LEN: usize = 16;

/// The length of the header of a label file.
pub const LABELS_HEADER_LEN: usize = 8;

/// Something about a file that is not as the format promises, yet does not stop
/// the file from being read. The caller decides whether to report it.
#[allow(inconsistent_fields)]
#[derive(Clone, Copy, Debug, PartialEq, Eq, Structural)]
pub enum Warning {
    /// The file starts with another magic number than its kind has.
    MagicNumber { expected: u32, found: u32 },
    /// The header announces another number of images than the file holds.
    ImageCount { expected: u32, found: usize },
    /// The images do not have the usual size.
    ImageSize { rows: u32, cols: u32 },
    /// The header announces another number of labels than the file holds.
    LabelCount { expected: u32, found: usize },
    /// A set has another number of labels than of images.
    Unpaired { images: usize, labels: usize },
    /// The training set does not have its usual number of images.
    TrainImages { expected: u32, found: usize },
    /// The test set does not have its usual number of images.
    TestImages { expected: u32, found: usize },
}

/// The big-endian number in the four bytes from `at` on.
pub open spec fn be_u32(bytes: Seq<u8>, at: int) -> int {
    bytes[at] * 0x100_0000 + bytes[at + 1] * 0x1_0000 + bytes[at + 2] * 0x100 + bytes[at + 3]
}

/// What each vector of `rows` holds.
pub open spec fn contents(rows: Seq<Vec<u8>>) -> Seq<Seq<u8>> {
    rows.map_values(|row: Vec<u8>| row@)
}

/// A count as it compares with a 32-bit header field: its low 32 bits.
pub open spec fn low_32(count: int) -> int {
    count % 0x1_0000_0000
}

/// The number of pixels that the header of an image file gives each image.
pub open spec fn pixels_per_image(bytes: Seq<u8>) -> int {
    be_u32(bytes, 8) * be_u32(bytes, 12)
}

/// The number of whole images behind the header of an image file.
pub open spec fn image_count(bytes: Seq<u8>) -> int {
    (bytes.len() - 16) / pixels_per_image(bytes)
}

/// The pixels of image `i` of an image file.
pub open spec fn image_at(bytes: Seq<u8>, i: int) -> Seq<u8> {
    bytes.subrange(16 + i * pixels_per_image(bytes), 16 + (i + 1) * pixels_per_image(bytes))
}

/// The images of an image file, in order; bytes behind the last whole image are
/// dropped.
pub open spec fn images_of(bytes: Seq<u8>) -> Seq<Seq<u8>> {
    Seq::new(image_count(bytes) as nat, |i: int| image_at(bytes, i))
}

/// Why an image file cannot be read, if it cannot.
pub open spec fn images_error(bytes: Seq<u8>) -> Option<Error> {
    if bytes.len() < 16 {
        Some(Error::TryFromSliceError)
    } else if pixels_per_image(bytes) == 0 || pixels_per_image(bytes) > u32::MAX {
        Some(Error::InvalidImageSize)
    } else {
        None
    }
}

/// The warnings that an image file gives, in the order magic number, count, size.
pub open spec fn images_warnings(bytes: Seq<u8>) -> Seq<Warning> {
    let magic = be_u32(bytes, 0);
    let announced = be_u32(bytes, 4);
    let rows = be_u32(bytes, 8);
    let cols = be_u32(bytes, 12);
    let found = image_count(bytes);
    (if magic != IMAGES_MAGIC_NUMBER {
        seq![Warning::MagicNumber { expected: IMAGES_MAGIC_NUMBER, found: magic as u32 }]
    } else {
        seq![]
    }) + (if announced != low_32(found) {
        seq![Warning::ImageCount { expected: announced as u32, found: found as usize }]
    } else {
        seq![]
    }) + (if cols != IMAGE_COLUMNS || rows != IMAGE_ROWS {
        seq![Warning::ImageSize { rows: rows as u32, cols: cols as u32 }]
    } else {
        seq![]
    })
}

/// Why a label file cannot be read, if it cannot.
pub open spec fn labels_error(bytes: Seq<u8>) -> Option<Error> {
    if bytes.len() < 8 {
        Some(Error::TryFromSliceError)
    } else {
        None
    }
}

/// The labels of a label file: every byte behind the header.
pub open spec fn labels_of(bytes: Seq<u8>) -> Seq<u8> {
    bytes.subrange(8, bytes.len() as int)
}

/// The warnings that a label file gives, in the order magic number, count.
pub open spec fn labels_warnings(bytes: Seq<u8>) -> Seq<Warning> {
    let magic = be_u32(bytes, 0);
    let announced = be_u32(bytes, 4);
    let found = bytes.len() - 8;
    (if magic != LABELS_MAGIC_NUMBER {
        seq![Warning::MagicNumber { expected: LABELS_MAGIC_NUMBER, found: magic as u32 }]
    } else {
        seq![]
    }) + (if announced != low_32(found) {
        seq![Warning::LabelCount { expected: announced as u32, found: found as usize }]
    } else {
        seq![]
    })
}

/// Reads the big-endian number in the four bytes from `at` on.
pub fn read_be_u32(bytes: &[u8], at: usize) -> (r: u32)
    requires
        at + 4 <= bytes.len(),
    ensures
        r == be_u32(bytes@, at as int),
{
    let b0: u32 = bytes[at] as u32;
    let b1: u32 = bytes[at + 1] as u32;
    let b2: u32 = bytes[at + 2] as u32;
    let b3: u32 = bytes[at + 3] as u32;
    b0 * 0x100_0000 + b1 * 0x1_0000 + b2 * 0x100 + b3
}

/// The low 32 bits of `count`.
fn low_32_of(count: usize) -> (r: u32)
    ensures
        r == low_32(count as int),
{
    let wide: u64 = count as u64;
    (wide % 0x1_0000_0000) as u32
}

/// The images of one file: each a vector of pixels, row after row.
pub struct MnistImages {
    pub num_cols: u32,
    pub images: Vec<Vec<u8>>,
}

impl MnistImages {
    /// Reads an image file that is already decompressed.
    ///
    /// A file shorter than its header is refused, and so is one whose images
    /// would have no pixels or more than a 32-bit count of them. Anything else
    /// is read, and what is odd about it comes back as warnings.
    pub fn from_bytes(bytes: &[u8]) -> (r: Result<(MnistImages, Vec<Warning>), Error>)
        ensures
            match r {
                Ok((parsed, warnings)) => {
                    &&& images_error(bytes@).is_none()
                    &&& parsed.num_cols == be_u32(bytes@, 12)
                    &&& contents(parsed.images@) == images_of(bytes@)
                    &&& warnings@ == images_warnings(bytes@)
                },
                Err(e) => images_error(bytes@) == Some(e),
            },
    {
        if bytes.len() < IMAGES_HEADER_LEN {
            return Err(Error::TryFromSliceError);
        }
        let magic_number = read_be_u32(bytes, 0);
        let num_images = read_be_u32(bytes, 4);
        let num_rows = read_be_u32(bytes, 8);
        let num_cols = read_be_u32(bytes, 12);
        assert(num_rows * num_cols <= u64::MAX) by (nonlinear_arith)
            requires
                num_rows <= u32::MAX,
                num_cols <= u32::MAX,
        ;
        let wide: u64 = (num_rows as u64) * (num_cols as u64);
        if wide == 0 || wide > u32::MAX as u64 {
            return Err(Error::InvalidImageSize);
        }
        let num_pixels: usize = wide as usize;
        let count: usize = (bytes.len() - IMAGES_HEADER_LEN) / num_pixels;
        let mut images: Vec<Vec<u8>> = Vec::new();
        let mut i: usize = 0;
        while i < count
            invariant
                i <= count,
                num_pixels > 0,
                num_pixels == pixels_per_image(bytes@),
                count == image_count(bytes@),
                bytes.len() >= 16,
                images.len() == i,
                forall|k: int| 0 <= k < i ==> (#[trigger] images[k])@ == image_at(bytes@, k),
            decreases count - i,
        {
            proof {
                lemma_image_in_file(bytes.len() as int, num_pixels as int, i as int);
            }
            let chunk = slice_subrange(
                bytes,
                IMAGES_HEADER_LEN + i * num_pixels,
                IMAGES_HEADER_LEN + (i + 1) * num_pixels,
            );
            images.push(slice_to_vec(chunk));
            i += 1;
        }
        assert(contents(images@) =~= images_of(bytes@));
        let mut warnings: Vec<Warning> = Vec::new();
        if magic_number != IMAGES_MAGIC_NUMBER {
            warnings.push(Warning::MagicNumber { expected: IMAGES_MAGIC_NUMBER, found: magic_number });
        }
        if num_images != low_32_of(images.len()) {
            warnings.push(Warning::ImageCount { expected: num_images, found: images.len() });
        }
        if num_cols != IMAGE_COLUMNS || num_rows != IMAGE_ROWS {
            warnings.push(Warning::ImageSize { rows: num_rows, cols: num_cols });
        }
        assert(warnings@ =~= images_warnings(bytes@));
        Ok((MnistImages { num_cols, images }, warnings))
    }
}

/// The sign that stands for a pixel in a picture: `_` for a pixel that is off,
/// `#` for any other.
pub open spec fn sign_of(pixel: u8) -> u8 {
    if pixel == 0 {
        95u8
    } else {
        35u8
    }
}

/// A row of pixels as text: the sign of each pixel twice, then a line feed.
pub open spec fn picture_of_row(row: Seq<u8>) -> Seq<u8>
    decreases row.len(),
{
    if row.len() == 0 {
        seq![10u8]
    } else {
        seq![sign_of(row[0]), sign_of(row[0])] + picture_of_row(row.skip(1))
    }
}

/// Pixels as text, `cols` of them to the row; the last row may be shorter.
pub open spec fn picture_of(pixels: Seq<u8>, cols: int) -> Seq<u8>
    decreases pixels.len(),
{
    if pixels.len() == 0 || cols <= 0 {
        seq![]
    } else if pixels.len() <= cols {
        picture_of_row(pixels)
    } else {
        picture_of_row(pixels.take(cols)) + picture_of(pixels.skip(cols), cols)
    }
}

impl MnistImages {
    /// The picture of image `index` as text; `None` where there is no such
    /// image or the images have no columns.
    pub fn picture(&self, index: usize) -> (r: Option<Vec<u8>>)
        ensures
            r is Some <==> index < self.images@.len() && self.num_cols > 0,
            r matches Some(text) ==> text@ == picture_of(
                self.images@[index as int]@,
                self.num_cols as int,
            ),
    {
        if index >= self.images.len() || self.num_cols == 0 {
            return None;
        }
        let pixels = &self.images[index];
        let cols = self.num_cols as usize;
        let total = pixels.len();
        let mut text: Vec<u8> = Vec::new();
        let mut start: usize = 0;
        proof {
            assert(pixels@.skip(0) =~= pixels@);
            assert(text@ + picture_of(pixels@, cols as int) =~= picture_of(pixels@, cols as int));
        }
        while start < total
            invariant
                total == pixels@.len(),
                start <= total,
                cols > 0,
                cols == self.num_cols,
                text@ + picture_of(pixels@.skip(start as int), cols as int) == picture_of(
                    pixels@,
                    cols as int,
                ),
            decreases total - start,
        {
            let left = total - start;
            let width = if left <= cols {
                left
            } else {
                cols
            };
            let ghost rest = pixels@.skip(start as int);
            let ghost row = rest.take(width as int);
            let ghost before = text@;
            let mut k: usize = 0;
            proof {
                assert(row.skip(0) =~= row);
            }
            while k < width
                invariant
                    k <= width,
                    total == pixels@.len(),
                    start + width <= total,
                    row == pixels@.skip(start as int).take(width as int),
                    text@ + picture_of_row(row.skip(k as int)) == before + picture_of_row(row),
                decreases width - k,
            {
                let sign: u8 = if pixels[start + k] == 0 {
                    95
                } else {
                    35
                };
                proof {
                    let tail = row.skip(k as int);
                    assert(tail[0] == pixels@[start + k]);
                    assert(tail.skip(1) =~= row.skip(k as int + 1));
                    assert(text@.push(sign).push(sign) + picture_of_row(tail.skip(1)) =~= text@ + (
                    seq![sign, sign] + picture_of_row(tail.skip(1))));
                }
                text.push(sign);
                text.push(sign);
                k += 1;
            }
            proof {
                assert(row.skip(width as int).len() == 0);
                assert(picture_of_row(row.skip(width as int)) =~= seq![10u8]);
                assert(text@.push(10u8) =~= before + picture_of_row(row));
                if left <= cols {
                    assert(row =~= rest);
                    assert(pixels@.skip(start + width).len() == 0);
                    assert(picture_of(pixels@.skip(start + width), cols as int) =~= Seq::<
                        u8,
                    >::empty());
                } else {
                    assert(rest.skip(cols as int) =~= pixels@.skip(start + width));
                }
                assert(before + picture_of_row(row) + picture_of(
                    pixels@.skip(start + width),
                    cols as int,
                ) =~= before + picture_of(rest, cols as int));
            }
            text.push(10);
            start += width;
        }
        proof {
            assert(picture_of(pixels@.skip(start as int), cols as int) =~= Seq::<u8>::empty());
            assert(text@ =~= text@ + Seq::<u8>::empty());
        }
        Some(text)
    }
}

/// Image `i` of a file of `len` bytes, with `pixels` bytes to the image, lies
/// inside the file.
proof fn lemma_image_in_file(len: int, pixels: int, i: int)
    requires
        len >= 16,
        pixels > 0,
        0 <= i < (len - 16) / pixels,
    ensures
        0 <= i * pixels,
        i * pixels <= (i + 1) * pixels,
        16 + (i + 1) * pixels <= len,
{
    let count = (len - 16) / pixels;
    assert(i * pixels >= 0) by (nonlinear_arith)
        requires
            i >= 0,
            pixels > 0,
    ;
    assert((i + 1) * pixels == i * pixels + pixels) by (nonlinear_arith);
    assert((i + 1) * pixels <= count * pixels) by (nonlinear_arith)
        requires
            i + 1 <= count,
            pixels > 0,
    ;
    assert(count * pixels <= len - 16) by (nonlinear_arith)
        requires
            count == (len - 16) / pixels,
            pixels > 0,
            len - 16 >= 0,
    ;
}

/// The labels of one file.
pub struct MnistLabels(pub Vec<u8>);

impl MnistLabels {
    /// Reads a label file that is already decompressed.
    ///
    /// A file shorter than its header is refused. Anything else is read, and
    /// what is odd about it comes back as warnings.
    pub fn from_bytes(bytes: &[u8]) -> (r: Result<(MnistLabels, Vec<Warning>), Error>)
        ensures
            match r {
                Ok((parsed, warnings)) => {
                    &&& labels_error(bytes@).is_none()
                    &&& parsed.0@ == labels_of(bytes@)
                    &&& warnings@ == labels_warnings(bytes@)
                },
                Err(e) => labels_error(bytes@) == Some(e),
            },
    {
        if bytes.len() < LABELS_HEADER_LEN {
            return Err(Error::TryFromSliceError);
        }
        let magic_number = read_be_u32(bytes, 0);
        let num_labels = read_be_u32(bytes, 4);
        let labels = slice_to_vec(slice_subrange(bytes, LABELS_HEADER_LEN, bytes.len()));
        let mut warnings: Vec<Warning> = Vec::new();
        if magic_number != LABELS_MAGIC_NUMBER {
            warnings.push(Warning::MagicNumber { expected: LABELS_MAGIC_NUMBER, found: magic_number });
        }
        if num_labels != low_32_of(labels.len()) {
            warnings.push(Warning::LabelCount { expected: num_labels, found: labels.len() });
        }
        assert(warnings@ =~= labels_warnings(bytes@));
        Ok((MnistLabels(labels), warnings))
    }
}


/// The warning that a set gives when its labels and images differ in number.
pub open spec fn pairing_warnings(images: int, labels: int) -> Seq<Warning> {
    if images != labels {
        seq![Warning::Unpaired { images: images as usize, labels: labels as usize }]
    } else {
        seq![]
    }
}

/// The warnings that reading a set from an image file and a label file gives:
/// those of the images, those of the labels, then the pairing.
pub open spec fn set_warnings(images: Seq<u8>, labels: Seq<u8>) -> Seq<Warning> {
    images_warnings(images) + labels_warnings(labels) + pairing_warnings(
        image_count(images),
        labels.len() - 8,
    )
}

/// Why a set cannot be read from an image file and a label file, if it cannot.
/// The images are looked at first.
pub open spec fn set_error(images: Seq<u8>, labels: Seq<u8>) -> Option<Error> {
    if images_error(images).is_some() {
        images_error(images)
    } else {
        labels_error(labels)
    }
}

/// `e` is the error that reading a set from two compressed files ends in. The
/// image file is decompressed and read before the label file is touched.
pub open spec fn compressed_set_fails_with(images: Seq<u8>, labels: Seq<u8>, e: Error) -> bool {
    match gz_decoded(images) {
        None => e is IoError,
        Some(image_bytes) => if images_error(image_bytes).is_some() {
            images_error(image_bytes) == Some(e)
        } else {
            match gz_decoded(labels) {
                None => e is IoError,
                Some(label_bytes) => labels_error(label_bytes) == Some(e),
            }
        },
    }
}

/// Two compressed files can be read as a set.
pub open spec fn compressed_set_readable(images: Seq<u8>, labels: Seq<u8>) -> bool {
    &&& gz_decoded(images) matches Some(image_bytes)
    &&& gz_decoded(labels) matches Some(label_bytes)
    &&& set_error(image_bytes, label_bytes).is_none()
}

/// One set: images and, place by place, their labels.
pub struct MnistSubDataset {
    pub images: MnistImages,
    pub labels: MnistLabels,
}

impl MnistSubDataset {
    /// The set holds exactly what the two decompressed files hold.
    pub open spec fn holds(&self, images: Seq<u8>, labels: Seq<u8>) -> bool {
        &&& self.images.num_cols == be_u32(images, 12)
        &&& contents(self.images.images@) == images_of(images)
        &&& self.labels.0@ == labels_of(labels)
    }

    /// The label of image `index` and the picture of the image as text; `None`
    /// where the set has no such label or no such picture.
    pub fn labelled_picture(&self, index: usize) -> (r: Option<(u8, Vec<u8>)>)
        ensures
            r is Some <==> index < self.labels.0@.len() && index < self.images.images@.len()
                && self.images.num_cols > 0,
            r matches Some(pair) ==> pair.0 == self.labels.0@[index as int] && pair.1@
                == picture_of(self.images.images@[index as int]@, self.images.num_cols as int),
    {
        if index >= self.labels.0.len() {
            return None;
        }
        match self.images.picture(index) {
            Some(text) => Some((self.labels.0[index], text)),
            None => None,
        }
    }

    /// Pairs images with labels. A difference in number is no error: it comes
    /// back as a warning.
    pub fn from_parts(images: MnistImages, labels: MnistLabels) -> (r: (
        MnistSubDataset,
        Vec<Warning>,
    ))
        ensures
            r.0.images == images,
            r.0.labels == labels,
            r.1@ == pairing_warnings(images.images.len() as int, labels.0.len() as int),
    {
        let mut warnings: Vec<Warning> = Vec::new();
        if images.images.len() != labels.0.len() {
            warnings.push(
                Warning::Unpaired { images: images.images.len(), labels: labels.0.len() },
            );
        }
        (MnistSubDataset { images, labels }, warnings)
    }

    /// Reads a set from an image file and a label file, both decompressed.
    pub fn from_bytes(images: &[u8], labels: &[u8]) -> (r: Result<
        (MnistSubDataset, Vec<Warning>),
        Error,
    >)
        ensures
            match r {
                Ok((set, warnings)) => {
                    &&& set_error(images@, labels@).is_none()
                    &&& set.holds(images@, labels@)
                    &&& warnings@ == set_warnings(images@, labels@)
                },
                Err(e) => set_error(images@, labels@) == Some(e),
            },
    {
        let (parsed_images, mut warnings) = match MnistImages::from_bytes(images) {
            Ok(pair) => pair,
            Err(e) => { return Err(e); },
        };
        let (parsed_labels, mut label_warnings) = match MnistLabels::from_bytes(labels) {
            Ok(pair) => pair,
            Err(e) => { return Err(e); },
        };
        proof {
            lemma_contents_len(parsed_images.images@);
        }
        let (set, mut pairing) = MnistSubDataset::from_parts(parsed_images, parsed_labels);
        warnings.append(&mut label_warnings);
        warnings.append(&mut pairing);
        Ok((set, warnings))
    }

    /// Reads a set from an image file and a label file as they were downloaded.
    pub fn from_compressed(images: &[u8], labels: &[u8]) -> (r: Result<
        (MnistSubDataset, Vec<Warning>),
        Error,
    >)
        ensures
            match r {
                Ok((set, warnings)) => {
                    &&& compressed_set_readable(images@, labels@)
                    &&& set.holds(gz_decoded(images@).unwrap(), gz_decoded(labels@).unwrap())
                    &&& warnings@ == set_warnings(
                        gz_decoded(images@).unwrap(),
                        gz_decoded(labels@).unwrap(),
                    )
                },
                Err(e) => compressed_set_fails_with(images@, labels@, e),
            },
    {
        let image_bytes = match decode_bytes(images) {
            Ok(bytes) => bytes,
            Err(e) => { return Err(e); },
        };
        let (parsed_images, mut warnings) = match MnistImages::from_bytes(image_bytes.as_slice()) {
            Ok(pair) => pair,
            Err(e) => { return Err(e); },
        };
        let label_bytes = match decode_bytes(labels) {
            Ok(bytes) => bytes,
            Err(e) => { return Err(e); },
        };
        let (parsed_labels, mut label_warnings) = match MnistLabels::from_bytes(
            label_bytes.as_slice(),
        ) {
            Ok(pair) => pair,
            Err(e) => { return Err(e); },
        };
        proof {
            lemma_contents_len(parsed_images.images@);
        }
        let (set, mut pairing) = MnistSubDataset::from_parts(parsed_images, parsed_labels);
        warnings.append(&mut label_warnings);
        warnings.append(&mut pairing);
        Ok((set, warnings))
    }
}

/// `contents` keeps the number of rows.
proof fn lemma_contents_len(rows: Seq<Vec<u8>>)
    ensures
        contents(rows).len() == rows.len(),
{
}

/// The warning that a training set of `found` images gives, if any.
pub open spec fn train_count_warnings(found: int) -> Seq<Warning> {
    if found != NUM_TRAIN_IMAGES {
        seq![Warning::TrainImages { expected: NUM_TRAIN_IMAGES, found: found as usize }]
    } else {
        seq![]
    }
}

/// The warning that a test set of `found` images gives, if any.
pub open spec fn test_count_warnings(found: int) -> Seq<Warning> {
    if found != NUM_TEST_IMAGES {
        seq![Warning::TestImages { expected: NUM_TEST_IMAGES, found: found as usize }]
    } else {
        seq![]
    }
}

/// The four files of the dataset, as they were downloaded.
pub struct MnistFiles {
    pub train_images: Vec<u8>,
    pub train_labels: Vec<u8>,
    pub test_images: Vec<u8>,
    pub test_labels: Vec<u8>,
}

/// Where the four files of the dataset are found.
pub struct MnistUrls {
    pub train_images: String,
    pub train_labels: String,
    pub test_images: String,
    pub test_labels: String,
}

/// The whole dataset: a set to train on and a set to test with.
pub struct MnistDataset {
    pub train: MnistSubDataset,
    pub test: MnistSubDataset,
}

impl MnistDataset {
    /// The addresses of the four files below `base_url`.
    pub fn urls(base_url: &str) -> (r: MnistUrls)
        ensures
            r.train_images@ == base_url@ + TRAIN_DATA_FILENAME@,
            r.train_labels@ == base_url@ + TRAIN_LABEL_FILENAME@,
            r.test_images@ == base_url@ + TEST_DATA_FILENAME@,
            r.test_labels@ == base_url@ + TEST_LABEL_FILENAME@,
    {
        MnistUrls {
            train_images: joined(base_url, TRAIN_DATA_FILENAME),
            train_labels: joined(base_url, TRAIN_LABEL_FILENAME),
            test_images: joined(base_url, TEST_DATA_FILENAME),
            test_labels: joined(base_url, TEST_LABEL_FILENAME),
        }
    }

    /// The warning that a training set of `found` images gives, if any.
    pub fn check_train(found: usize) -> (r: Vec<Warning>)
        ensures
            r@ == train_count_warnings(found as int),
    {
        let mut warnings: Vec<Warning> = Vec::new();
        if found != NUM_TRAIN_IMAGES as usize {
            warnings.push(Warning::TrainImages { expected: NUM_TRAIN_IMAGES, found });
        }
        warnings
    }

    /// The warning that a test set of `found` images gives, if any.
    pub fn check_test(found: usize) -> (r: Vec<Warning>)
        ensures
            r@ == test_count_warnings(found as int),
    {
        let mut warnings: Vec<Warning> = Vec::new();
        if found != NUM_TEST_IMAGES as usize {
            warnings.push(Warning::TestImages { expected: NUM_TEST_IMAGES, found });
        }
        warnings
    }

    /// Puts the training set and the test set together. A set of an unusual size
    /// is no error: it comes back as a warning, the training set's first.
    pub fn from_parts(train: MnistSubDataset, test: MnistSubDataset) -> (r: (
        MnistDataset,
        Vec<Warning>,
    ))
        ensures
            r.0.train == train,
            r.0.test == test,
            r.1@ == train_count_warnings(train.images.images.len() as int) + test_count_warnings(
                test.images.images.len() as int,
            ),
    {
        let mut warnings = MnistDataset::check_train(train.images.images.len());
        let mut test_count = MnistDataset::check_test(test.images.images.len());
        warnings.append(&mut test_count);
        (MnistDataset { train, test }, warnings)
    }

    /// Reads the dataset from its four files as they were downloaded: the
    /// training set first, and of each set the images first. The first file
    /// that cannot be read ends the call with its error.
    pub fn from_compressed(files: &MnistFiles) -> (r: Result<(MnistDataset, Vec<Warning>), Error>)
        ensures
            match r {
                Ok((dataset, warnings)) => {
                    let train_images = gz_decoded(files.train_images@).unwrap();
                    let train_labels = gz_decoded(files.train_labels@).unwrap();
                    let test_images = gz_decoded(files.test_images@).unwrap();
                    let test_labels = gz_decoded(files.test_labels@).unwrap();
                    &&& compressed_set_readable(files.train_images@, files.train_labels@)
                    &&& compressed_set_readable(files.test_images@, files.test_labels@)
                    &&& dataset.train.holds(train_images, train_labels)
                    &&& dataset.test.holds(test_images, test_labels)
                    &&& warnings@ == set_warnings(train_images, train_labels)
                        + train_count_warnings(image_count(train_images)) + set_warnings(
                        test_images,
                        test_labels,
                    ) + test_count_warnings(image_count(test_images))
                },
                Err(e) => if compressed_set_readable(files.train_images@, files.train_labels@) {
                    compressed_set_fails_with(files.test_images@, files.test_labels@, e)
                } else {
                    compressed_set_fails_with(files.train_images@, files.train_labels@, e)
                },
            },
    {
        let (train, mut warnings) = match MnistSubDataset::from_compressed(
            files.train_images.as_slice(),
            files.train_labels.as_slice(),
        ) {
            Ok(pair) => pair,
            Err(e) => { return Err(e); },
        };
        let (test, mut test_warnings) = match MnistSubDataset::from_compressed(
            files.test_images.as_slice(),
            files.test_labels.as_slice(),
        ) {
            Ok(pair) => pair,
            Err(e) => { return Err(e); },
        };
        proof {
            lemma_contents_len(train.images.images@);
            lemma_contents_len(test.images.images@);
        }
        let mut train_count = MnistDataset::check_train(train.images.images.len());
        let mut test_count = MnistDataset::check_test(test.images.images.len());
        warnings.append(&mut train_count);
        warnings.append(&mut test_warnings);
        warnings.append(&mut test_count);
        Ok((MnistDataset { train, test }, warnings))
    }
}

/// Joins two strings with `<[&str]>::concat` of std: the characters of the
/// first, then those of the second.
#[verifier::external_body]
fn joined(head: &str, tail: &str) -> (r: String)
    ensures
        r@ == head@ + tail@,
{
    [head, tail].concat()
}

/// What `flate2::read::GzDecoder` reads from a stream of these bytes: the bytes
/// that the stream encodes, or `None` where the decoder fails.
pub uninterp spec fn gz_decoded(data: Seq<u8>) -> Option<Seq<u8>>;

/// Runs `flate2::read::GzDecoder` over `data` and reads it to its end. What comes
/// out depends on `data` alone, so the contract only gives it a name.
#[verifier::external_body]
fn gz_decode(data: &[u8]) -> (r: std::result::Result<Vec<u8>, std::io::Error>)
    ensures
        match r {
            Ok(bytes) => gz_decoded(data@) == Some(bytes@),
            Err(_) => gz_decoded(data@).is_none(),
        },
{
    let mut buffer = Vec::new();
    let mut decoder = flate2::read::GzDecoder::new(data);
    std::io::Read::read_to_end(&mut decoder, &mut buffer)?;
    Ok(buffer)
}

/// Decompresses a file as it was downloaded.
pub fn decode_bytes(data: &[u8]) -> (r: Result<Vec<u8>, Error>)
    ensures
        match r {
            Ok(bytes) => gz_decoded(data@) == Some(bytes@),
            Err(e) => gz_decoded(data@).is_none() && e is IoError,
        },
{
    match gz_decode(data) {
        Ok(bytes) => Ok(bytes),
        Err(e) => Err(Error::IoError(e)),
    }
}

} // verus!
