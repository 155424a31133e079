use flate2::write::GzEncoder;
use flate2::Compression;
use neural_network::dataset::mnist::{
    decode_bytes, read_be_u32, MnistDataset, MnistFiles, MnistImages, MnistLabels,
    MnistSubDataset, Warning, BASE_URL,
};
use neural_network::error::Error;
use std::io::Write;

fn gzip(bytes: &[u8]) -> Vec<u8> {
    let mut encoder = GzEncoder::new(Vec::new(), Compression::default());
    encoder.write_all(bytes).unwrap();
    encoder.finish().unwrap()
}

fn image_file(magic: u32, count: u32, rows: u32, cols: u32, pixels: &[u8]) -> Vec<u8> {
    let mut bytes = Vec::new();
    bytes.extend_from_slice(&magic.to_be_bytes());
    bytes.extend_from_slice(&count.to_be_bytes());
    bytes.extend_from_slice(&rows.to_be_bytes());
    bytes.extend_from_slice(&cols.to_be_bytes());
    bytes.extend_from_slice(pixels);
    bytes
}

fn label_file(magic: u32, count: u32, labels: &[u8]) -> Vec<u8> {
    let mut bytes = Vec::new();
    bytes.extend_from_slice(&magic.to_be_bytes());
    bytes.extend_from_slice(&count.to_be_bytes());
    bytes.extend_from_slice(labels);
    bytes
}

fn usual_images(count: usize) -> Vec<u8> {
    let pixels: Vec<u8> = (0..count * 784).map(|k| (k % 251) as u8).collect();
    image_file(2051, count as u32, 28, 28, &pixels)
}

fn usual_labels(count: usize) -> Vec<u8> {
    let labels: Vec<u8> = (0..count).map(|k| (k % 10) as u8).collect();
    label_file(2049, count as u32, &labels)
}

#[test]
fn big_endian_numbers_are_read() {
    let bytes = [0x00, 0x00, 0x08, 0x03, 0xff, 0xff, 0xff, 0xff, 0x01];
    assert_eq!(read_be_u32(&bytes, 0), 2051);
    assert_eq!(read_be_u32(&bytes, 4), u32::MAX);
    assert_eq!(read_be_u32(&bytes, 5), 0xffff_ff01);
}

#[test]
fn images_are_cut_where_the_header_says() {
    let bytes = image_file(2051, 2, 2, 3, &[1, 2, 3, 4, 5, 6, 7, 8, 9, 10, 11, 12]);
    let (images, warnings) = MnistImages::from_bytes(&bytes).unwrap();
    assert_eq!(images.num_cols, 3);
    assert_eq!(images.images, vec![vec![1, 2, 3, 4, 5, 6], vec![7, 8, 9, 10, 11, 12]]);
    assert_eq!(warnings, vec![Warning::ImageSize { rows: 2, cols: 3 }]);
}

#[test]
fn usual_images_give_no_warning() {
    let (images, warnings) = MnistImages::from_bytes(&usual_images(3)).unwrap();
    assert_eq!(images.num_cols, 28);
    assert_eq!(images.images.len(), 3);
    assert_eq!(images.images[1][0], (784 % 251) as u8);
    assert!(warnings.is_empty());
}

#[test]
fn images_behind_the_last_whole_one_are_dropped() {
    let bytes = image_file(2051, 2, 1, 2, &[1, 2, 3, 4, 5]);
    let (images, warnings) = MnistImages::from_bytes(&bytes).unwrap();
    assert_eq!(images.images, vec![vec![1, 2], vec![3, 4]]);
    assert_eq!(warnings, vec![Warning::ImageSize { rows: 1, cols: 2 }]);
}

#[test]
fn image_warnings_come_in_order() {
    let bytes = image_file(7, 5, 1, 1, &[9, 8]);
    let (images, warnings) = MnistImages::from_bytes(&bytes).unwrap();
    assert_eq!(images.images, vec![vec![9], vec![8]]);
    assert_eq!(
        warnings,
        vec![
            Warning::MagicNumber { expected: 2051, found: 7 },
            Warning::ImageCount { expected: 5, found: 2 },
            Warning::ImageSize { rows: 1, cols: 1 },
        ]
    );
}

#[test]
fn image_file_without_images() {
    let bytes = image_file(2051, 0, 28, 28, &[]);
    let (images, warnings) = MnistImages::from_bytes(&bytes).unwrap();
    assert!(images.images.is_empty());
    assert!(warnings.is_empty());
}

#[test]
fn short_image_file_is_refused() {
    assert!(matches!(MnistImages::from_bytes(&[]), Err(Error::TryFromSliceError)));
    let bytes = image_file(2051, 0, 28, 28, &[]);
    assert!(matches!(MnistImages::from_bytes(&bytes[..15]), Err(Error::TryFromSliceError)));
}

#[test]
fn images_without_pixels_are_refused() {
    let bytes = image_file(2051, 1, 0, 28, &[1, 2, 3]);
    assert!(matches!(MnistImages::from_bytes(&bytes), Err(Error::InvalidImageSize)));
    let bytes = image_file(2051, 1, 28, 0, &[1, 2, 3]);
    assert!(matches!(MnistImages::from_bytes(&bytes), Err(Error::InvalidImageSize)));
}

#[test]
fn images_of_too_many_pixels_are_refused() {
    let bytes = image_file(2051, 1, 65536, 65536, &[1, 2, 3]);
    assert!(matches!(MnistImages::from_bytes(&bytes), Err(Error::InvalidImageSize)));
    let bytes = image_file(2051, 1, 65535, 65537, &[1, 2, 3]);
    let (images, _) = MnistImages::from_bytes(&bytes).unwrap();
    assert!(images.images.is_empty());
}

#[test]
fn labels_are_everything_behind_the_header() {
    let (labels, warnings) = MnistLabels::from_bytes(&label_file(2049, 3, &[7, 0, 9])).unwrap();
    assert_eq!(labels.0, vec![7, 0, 9]);
    assert!(warnings.is_empty());
    let (labels, warnings) = MnistLabels::from_bytes(&label_file(2049, 0, &[])).unwrap();
    assert!(labels.0.is_empty());
    assert!(warnings.is_empty());
}

#[test]
fn label_warnings_come_in_order() {
    let (labels, warnings) = MnistLabels::from_bytes(&label_file(2051, 4, &[7, 0, 9])).unwrap();
    assert_eq!(labels.0, vec![7, 0, 9]);
    assert_eq!(
        warnings,
        vec![
            Warning::MagicNumber { expected: 2049, found: 2051 },
            Warning::LabelCount { expected: 4, found: 3 },
        ]
    );
}

#[test]
fn short_label_file_is_refused() {
    assert!(matches!(MnistLabels::from_bytes(&[0, 0, 8, 1, 0, 0, 0]), Err(Error::TryFromSliceError)));
}

#[test]
fn compressed_bytes_are_decoded() {
    let plain = b"the quick brown fox jumps over the lazy dog".to_vec();
    let packed = gzip(&plain);
    assert_ne!(packed, plain);
    assert_eq!(decode_bytes(&packed).unwrap(), plain);
    assert_eq!(decode_bytes(&gzip(&[])).unwrap(), Vec::<u8>::new());
}

#[test]
fn broken_stream_is_refused() {
    assert!(matches!(decode_bytes(b"not a gzip stream"), Err(Error::IoError(_))));
    let mut packed = gzip(b"some bytes that are long enough to be cut");
    packed.truncate(packed.len() - 6);
    assert!(matches!(decode_bytes(&packed), Err(Error::IoError(_))));
}

#[test]
fn set_pairs_images_with_labels() {
    let (set, warnings) =
        MnistSubDataset::from_bytes(&usual_images(2), &usual_labels(2)).unwrap();
    assert_eq!(set.images.images.len(), 2);
    assert_eq!(set.labels.0, vec![0, 1]);
    assert!(warnings.is_empty());
}

#[test]
fn set_warns_of_unpaired_labels() {
    let (set, warnings) =
        MnistSubDataset::from_bytes(&usual_images(2), &usual_labels(3)).unwrap();
    assert_eq!(set.images.images.len(), 2);
    assert_eq!(set.labels.0.len(), 3);
    assert_eq!(warnings, vec![Warning::Unpaired { images: 2, labels: 3 }]);
}

#[test]
fn set_looks_at_the_images_first() {
    let r = MnistSubDataset::from_bytes(&image_file(2051, 1, 0, 0, &[1]), &[]);
    assert!(matches!(r, Err(Error::InvalidImageSize)));
    let r = MnistSubDataset::from_bytes(&usual_images(1), &[]);
    assert!(matches!(r, Err(Error::TryFromSliceError)));
}

#[test]
fn set_is_read_from_compressed_files() {
    let images = gzip(&image_file(2050, 2, 1, 2, &[1, 2, 3, 4]));
    let labels = gzip(&label_file(2049, 1, &[5, 6, 7]));
    let (set, warnings) = MnistSubDataset::from_compressed(&images, &labels).unwrap();
    assert_eq!(set.images.images, vec![vec![1, 2], vec![3, 4]]);
    assert_eq!(set.labels.0, vec![5, 6, 7]);
    assert_eq!(
        warnings,
        vec![
            Warning::MagicNumber { expected: 2051, found: 2050 },
            Warning::ImageSize { rows: 1, cols: 2 },
            Warning::LabelCount { expected: 1, found: 3 },
            Warning::Unpaired { images: 2, labels: 3 },
        ]
    );
}

#[test]
fn set_from_broken_files_is_refused() {
    let images = gzip(&usual_images(1));
    let labels = gzip(&usual_labels(1));
    assert!(matches!(MnistSubDataset::from_compressed(b"x", &labels), Err(Error::IoError(_))));
    assert!(matches!(MnistSubDataset::from_compressed(&images, b"x"), Err(Error::IoError(_))));
    let short = gzip(&[1, 2, 3]);
    assert!(matches!(
        MnistSubDataset::from_compressed(&short, b"x"),
        Err(Error::TryFromSliceError)
    ));
    assert!(matches!(
        MnistSubDataset::from_compressed(&images, &short),
        Err(Error::TryFromSliceError)
    ));
}

#[test]
fn dataset_is_read_from_its_four_files() {
    let files = MnistFiles {
        train_images: gzip(&usual_images(3)),
        train_labels: gzip(&usual_labels(3)),
        test_images: gzip(&usual_images(2)),
        test_labels: gzip(&usual_labels(1)),
    };
    let (dataset, warnings) = MnistDataset::from_compressed(&files).unwrap();
    assert_eq!(dataset.train.images.images.len(), 3);
    assert_eq!(dataset.train.labels.0, vec![0, 1, 2]);
    assert_eq!(dataset.test.images.images.len(), 2);
    assert_eq!(dataset.test.labels.0, vec![0]);
    assert_eq!(
        warnings,
        vec![
            Warning::TrainImages { expected: 60000, found: 3 },
            Warning::Unpaired { images: 2, labels: 1 },
            Warning::TestImages { expected: 10000, found: 2 },
        ]
    );
}

#[test]
fn dataset_with_a_broken_file_is_refused() {
    let files = MnistFiles {
        train_images: gzip(&usual_images(1)),
        train_labels: gzip(&usual_labels(1)),
        test_images: gzip(&[0; 4]),
        test_labels: b"broken".to_vec(),
    };
    assert!(matches!(MnistDataset::from_compressed(&files), Err(Error::TryFromSliceError)));
    let files = MnistFiles {
        train_images: b"broken".to_vec(),
        train_labels: gzip(&usual_labels(1)),
        test_images: gzip(&[0; 4]),
        test_labels: gzip(&usual_labels(1)),
    };
    assert!(matches!(MnistDataset::from_compressed(&files), Err(Error::IoError(_))));
}

#[test]
fn dataset_of_parts_warns_of_unusual_sizes() {
    let (train, _) = MnistSubDataset::from_bytes(&usual_images(1), &usual_labels(1)).unwrap();
    let (test, _) = MnistSubDataset::from_bytes(&usual_images(2), &usual_labels(2)).unwrap();
    let (dataset, warnings) = MnistDataset::from_parts(train, test);
    assert_eq!(dataset.train.labels.0, vec![0]);
    assert_eq!(dataset.test.labels.0, vec![0, 1]);
    assert_eq!(
        warnings,
        vec![
            Warning::TrainImages { expected: 60000, found: 1 },
            Warning::TestImages { expected: 10000, found: 2 },
        ]
    );
}

#[test]
fn addresses_are_base_and_file_name() {
    let urls = MnistDataset::urls("http://example.org/data/");
    assert_eq!(urls.train_images, "http://example.org/data/train-images-idx3-ubyte.gz");
    assert_eq!(urls.train_labels, "http://example.org/data/train-labels-idx1-ubyte.gz");
    assert_eq!(urls.test_images, "http://example.org/data/t10k-images-idx3-ubyte.gz");
    assert_eq!(urls.test_labels, "http://example.org/data/t10k-labels-idx1-ubyte.gz");
    let urls = MnistDataset::urls(BASE_URL);
    assert_eq!(
        urls.test_labels,
        "https://ossci-datasets.s3.amazonaws.com/mnist/t10k-labels-idx1-ubyte.gz"
    );
}

#[test]
fn picture_shows_pixels_as_signs() {
    let images = MnistImages { num_cols: 2, images: vec![vec![0, 5, 255, 0], vec![1, 0, 0]] };
    assert_eq!(images.picture(0).unwrap(), b"__##\n##__\n".to_vec());
    assert_eq!(images.picture(1).unwrap(), b"##__\n__\n".to_vec());
    assert_eq!(images.picture(2), None);
    let wide = MnistImages { num_cols: 5, images: vec![vec![0, 1], vec![]] };
    assert_eq!(wide.picture(0).unwrap(), b"__##\n".to_vec());
    assert_eq!(wide.picture(1).unwrap(), Vec::<u8>::new());
    let flat = MnistImages { num_cols: 0, images: vec![vec![0, 1]] };
    assert_eq!(flat.picture(0), None);
}

#[test]
fn picture_comes_with_its_label() {
    let set = MnistSubDataset {
        images: MnistImages { num_cols: 1, images: vec![vec![0], vec![9]] },
        labels: MnistLabels(vec![4]),
    };
    assert_eq!(set.labelled_picture(0), Some((4, b"__\n".to_vec())));
    assert_eq!(set.labelled_picture(1), None);
    assert_eq!(set.labelled_picture(2), None);
}

#[test]
fn usual_sizes_give_no_warning() {
    assert!(MnistDataset::check_train(60000).is_empty());
    assert!(MnistDataset::check_test(10000).is_empty());
    assert_eq!(
        MnistDataset::check_train(10000),
        vec![Warning::TrainImages { expected: 60000, found: 10000 }]
    );
    assert_eq!(
        MnistDataset::check_test(0),
        vec![Warning::TestImages { expected: 10000, found: 0 }]
    );
}
