use std::io::Write;

use odyssey::api_objects::{FileMetadata, PrintUploadDirectory, PrintUserMetadata, ThumbnailSize};
use odyssey::error::ErrorType;
use odyssey::sl1::{PrintConfig, Sl1};

fn encode_png(width: u32, height: u32, data: &[u8]) -> Vec<u8> {
    let mut out: Vec<u8> = Vec::new();
    {
        let mut encoder = png::Encoder::new(std::io::Cursor::new(&mut out), width, height);
        encoder.set_color(png::ColorType::Grayscale);
        encoder.set_depth(png::BitDepth::Eight);
        let mut writer = encoder.write_header().expect("png header");
        writer.write_image_data(data).expect("png data");
    }
    out
}

fn config_ini(exp_time: &str, exp_time_first: &str, num_fade: &str, layer_height: &str) -> String {
    let mut s = String::new();
    s.push_str("action = print\n");
    s.push_str(&format!("expTime = {}\n", exp_time));
    s.push_str(&format!("expTimeFirst = {}\n", exp_time_first));
    s.push_str("expUserProfile = 0\n");
    s.push_str("fileCreationTimestamp = 2024-01-01 at 00:00:00 UTC\n");
    s.push_str("hollow = 0\n");
    s.push_str("jobDir = job\n");
    s.push_str(&format!("layerHeight = {}\n", layer_height));
    s.push_str("materialName = Generic Resin\n");
    s.push_str(&format!("numFade = {}\n", num_fade));
    s.push_str("numFast = 0\n");
    s.push_str("numSlow = 0\n");
    s.push_str("printProfile = default\n");
    s.push_str("printTime = 1234.5\n");
    s.push_str("printerModel = TestPrinter\n");
    s.push_str("printerProfile = default\n");
    s.push_str("printerVariant = default\n");
    s.push_str("prusaSlicerVersion = 2.7.0\n");
    s.push_str("usedMaterial = 1.5\n");
    s
}

fn build_archive(ini: &str, layers: &[(&str, Vec<u8>)], thumbnails: bool) -> Vec<u8> {
    let mut cursor = std::io::Cursor::new(Vec::new());
    {
        let mut writer = zip::ZipWriter::new(&mut cursor);
        let options = zip::write::SimpleFileOptions::default()
            .compression_method(zip::CompressionMethod::Stored);
        writer.start_file("config.ini", options).expect("start config");
        writer.write_all(ini.as_bytes()).expect("write config");
        for (name, data) in layers {
            writer.start_file(*name, options).expect("start layer");
            writer.write_all(data).expect("write layer");
        }
        if thumbnails {
            writer
                .start_file("thumbnail/thumbnail400x400.png", options)
                .expect("start small thumb");
            writer.write_all(b"small-thumb").expect("write small thumb");
            writer
                .start_file("thumbnail/thumbnail800x480.png", options)
                .expect("start large thumb");
            writer.write_all(b"large-thumb").expect("write large thumb");
        }
        writer.finish().expect("finish zip");
    }
    cursor.into_inner()
}

fn file_metadata() -> FileMetadata {
    let dir = PrintUploadDirectory { label: b"local".to_vec(), path: b"/prints".to_vec() };
    FileMetadata::from_path(b"job.sl1".to_vec(), &dir, false, 0, None).expect("metadata")
}

fn user_metadata() -> PrintUserMetadata {
    PrintUserMetadata { print_count: 0, favorite: false, rating: None }
}

#[test]
fn open_reads_config_and_sorts_layers() {
    let png1 = encode_png(2, 2, &[1, 2, 3, 4]);
    let png2 = encode_png(2, 2, &[5, 6, 7, 8]);
    let png3 = encode_png(2, 2, &[9, 10, 11, 12]);
    // Written out of order: the reader must sort by name.
    let archive = build_archive(
        &config_ini("2.0", "10.0", "0", "0.05"),
        &[
            ("00002.png", png2.clone()),
            ("00001.png", png1.clone()),
            ("00003.png", png3.clone()),
        ],
        true,
    );
    let mut sl1 = Sl1::open(file_metadata(), archive, user_metadata()).expect("open");
    assert_eq!(sl1.get_layer_count(), 3);
    assert_eq!(sl1.get_layer_height(), 50);
    let meta = sl1.get_metadata();
    assert_eq!(meta.layer_count, 3);
    assert_eq!(meta.layer_height_microns, 50);
    assert_eq!(meta.print_time_ms, 1_234_500);
    assert_eq!(meta.used_material_milli, 1500);

    let layer0 = sl1.get_layer_data(0).expect("layer 0");
    assert_eq!(layer0.file_name, b"00001.png".to_vec());
    assert_eq!(layer0.data, png1);
    let layer2 = sl1.get_layer_data(2).expect("layer 2");
    assert_eq!(layer2.file_name, b"00003.png".to_vec());
    assert_eq!(layer2.data, png3);
    assert!(sl1.get_layer_data(3).is_none());

    // Fetching out of order works: the reader is restartable.
    let layer1 = sl1.get_layer_data(1).expect("layer 1");
    assert_eq!(layer1.file_name, b"00002.png".to_vec());
    assert_eq!(layer1.data, png2);
}

#[test]
fn thumbnails_come_back_by_size() {
    let archive = build_archive(&config_ini("2.0", "10.0", "0", "0.05"), &[], true);
    let mut sl1 = Sl1::open(file_metadata(), archive, user_metadata()).expect("open");
    let small = sl1.get_thumbnail(ThumbnailSize::Small).expect("small");
    assert_eq!(small.name, b"thumbnail.png".to_vec());
    assert_eq!(small.data, b"small-thumb".to_vec());
    let large = sl1.get_thumbnail(ThumbnailSize::Large).expect("large");
    assert_eq!(large.data, b"large-thumb".to_vec());
}

#[test]
fn missing_thumbnail_is_a_file_error() {
    let archive = build_archive(&config_ini("2.0", "10.0", "0", "0.05"), &[], false);
    let mut sl1 = Sl1::open(file_metadata(), archive, user_metadata()).expect("open");
    let err = sl1.get_thumbnail(ThumbnailSize::Small).unwrap_err();
    assert!(matches!(err.error_type, ErrorType::FileError));
}

#[test]
fn malformed_archive_is_a_file_error() {
    let err = match Sl1::open(file_metadata(), b"not a zip".to_vec(), user_metadata()) {
        Ok(_) => panic!("garbage must not open"),
        Err(e) => e,
    };
    assert!(matches!(err.error_type, ErrorType::FileError));
}

#[test]
fn missing_config_key_is_a_configuration_error() {
    let mut ini = config_ini("2.0", "10.0", "0", "0.05");
    ini = ini.replace("expTime = 2.0\n", "");
    let archive = build_archive(&ini, &[], false);
    let err = match Sl1::open(file_metadata(), archive, user_metadata()) {
        Ok(_) => panic!("missing key must not open"),
        Err(e) => e,
    };
    assert!(matches!(err.error_type, ErrorType::ConfigurationError));
}

#[test]
fn unparseable_number_is_a_configuration_error() {
    let ini = config_ini("fast", "10.0", "0", "0.05");
    let archive = build_archive(&ini, &[], false);
    let err = match Sl1::open(file_metadata(), archive, user_metadata()) {
        Ok(_) => panic!("bad number must not open"),
        Err(e) => e,
    };
    assert!(matches!(err.error_type, ErrorType::ConfigurationError));
}

#[test]
fn exposure_fade_ramps_to_nominal() {
    // exp_time_first 10.0 s, exp_time 2.0 s, num_fade 4: 10, 8, 6, 4, 2 s.
    let archive = build_archive(&config_ini("2.0", "10.0", "4", "0.05"), &[], false);
    let sl1 = Sl1::open(file_metadata(), archive, user_metadata()).expect("open");
    let expected: [u64; 5] = [10_000, 8_000, 6_000, 4_000, 2_000];
    for (i, want) in expected.iter().enumerate() {
        assert_eq!(sl1.config.exposure_time(i), *want, "layer {}", i);
    }
    assert_eq!(sl1.config.exposure_time(9), 2_000);
}

#[test]
fn exposure_without_fade_is_flat() {
    let config = PrintConfig {
        action: b"print".to_vec(),
        exp_time_ms: 2_000,
        exp_time_first_ms: 10_000,
        exp_user_profile: 0,
        file_creation_timestamp: Vec::new(),
        hollow: 0,
        job_dir: Vec::new(),
        layer_height_microns: 50,
        material_name: Vec::new(),
        num_fade: 0,
        num_fast: 0,
        num_slow: 0,
        print_profile: Vec::new(),
        print_time_ms: 0,
        printer_model: Vec::new(),
        printer_profile: Vec::new(),
        printer_variant: Vec::new(),
        prusa_slicer_version: Vec::new(),
        used_material_milli: 0,
    };
    assert_eq!(config.exposure_time(0), 2_000);
    assert_eq!(config.exposure_time(5), 2_000);
}

#[test]
fn nested_pngs_are_not_layers() {
    let png1 = encode_png(1, 1, &[0xFF]);
    let archive = build_archive(
        &config_ini("2.0", "10.0", "0", "0.05"),
        &[("00001.png", png1.clone())],
        true,
    );
    // The thumbnails live under thumbnail/ and must not count as layers.
    let sl1 = Sl1::open(file_metadata(), archive, user_metadata()).expect("open");
    assert_eq!(sl1.get_layer_count(), 1);
}

#[test]
fn archive_without_layers_has_no_layer_data() {
    let archive = build_archive(&config_ini("2.0", "10.0", "0", "0.05"), &[], false);
    let mut sl1 = Sl1::open(file_metadata(), archive, user_metadata()).expect("open");
    assert_eq!(sl1.get_layer_count(), 0);
    assert!(sl1.get_layer_data(0).is_none());
}
