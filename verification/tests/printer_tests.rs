use std::io::Write;

use odyssey::api_objects::{
    FileMetadata, PhysicalState, PrintUploadDirectory, PrintUserMetadata, PrinterStatus,
};
use odyssey::configuration::PrinterConfig;
use odyssey::error::OdysseyError;
use odyssey::printer::{
    Effect, LayerStep, MotionParameters, Operation, Printer, PrinterState,
};
use odyssey::sl1::Sl1;
use odyssey::text::contains_bytes;

fn printer_config() -> PrinterConfig {
    PrinterConfig {
        serial: b"/dev/ttyUSB0".to_vec(),
        baudrate: 115_200,
        max_z_microns: 200_000,
        default_lift_microns: 5_000,
        default_up_speed: 2_000,
        default_down_speed: 1_000,
        default_wait_before_exposure_ms: 100,
        default_wait_after_exposure_ms: 50,
        pause_lift_microns: 10_000,
    }
}

fn encode_png(width: u32, height: u32, data: &[u8]) -> Vec<u8> {
    let mut out: Vec<u8> = Vec::new();
    {
        let mut encoder = png::Encoder::new(std::io::Cursor::new(&mut out), width, height);
        encoder.set_color(png::ColorType::Grayscale);
        encoder.set_depth(png::BitDepth::Eight);
        let mut writer = encoder.write_header().expect("png header");
        writer.write_image_data(data).expect("png data");
    }
    out
}

fn build_archive(layer_count: usize) -> Vec<u8> {
    let mut ini = String::new();
    ini.push_str("action = print\n");
    ini.push_str("expTime = 2.0\n");
    ini.push_str("expTimeFirst = 2.0\n");
    ini.push_str("expUserProfile = 0\n");
    ini.push_str("fileCreationTimestamp = now\n");
    ini.push_str("hollow = 0\n");
    ini.push_str("jobDir = job\n");
    ini.push_str("layerHeight = 0.05\n");
    ini.push_str("materialName = Resin\n");
    ini.push_str("numFade = 0\n");
    ini.push_str("numFast = 0\n");
    ini.push_str("numSlow = 0\n");
    ini.push_str("printProfile = default\n");
    ini.push_str("printTime = 60.0\n");
    ini.push_str("printerModel = Test\n");
    ini.push_str("printerProfile = default\n");
    ini.push_str("printerVariant = default\n");
    ini.push_str("prusaSlicerVersion = 2.7.0\n");
    ini.push_str("usedMaterial = 1.0\n");
    let mut cursor = std::io::Cursor::new(Vec::new());
    {
        let mut writer = zip::ZipWriter::new(&mut cursor);
        let options = zip::write::SimpleFileOptions::default()
            .compression_method(zip::CompressionMethod::Stored);
        writer.start_file("config.ini", options).expect("start config");
        writer.write_all(ini.as_bytes()).expect("write config");
        let png = encode_png(2, 2, &[0xFF, 0xFF, 0xFF, 0xFF]);
        for i in 0..layer_count {
            writer
                .start_file(format!("{:05}.png", i + 1), options)
                .expect("start layer");
            writer.write_all(&png).expect("write layer");
        }
        writer.finish().expect("finish zip");
    }
    cursor.into_inner()
}

fn open_archive(layer_count: usize) -> Sl1 {
    let dir = PrintUploadDirectory { label: b"local".to_vec(), path: b"/prints".to_vec() };
    let fm = FileMetadata::from_path(b"job.sl1".to_vec(), &dir, false, 0, None).expect("meta");
    let user = PrintUserMetadata { print_count: 0, favorite: false, rating: None };
    Sl1::open(fm, build_archive(layer_count), user).expect("open")
}

/// The mock transport: every awaited request is answered with a line
/// holding the move-sync substring.
fn mock_transport_reply(expect: &[u8]) -> bool {
    contains_bytes(b"ok Z_move_comp\n", expect)
}

/// Records a snapshot whenever a step asks for one published.
fn record(effects: &[Effect], printer: &Printer, log: &mut Vec<(PrinterStatus, usize, bool)>) {
    for e in effects {
        if matches!(e, Effect::PublishStatus) {
            log.push((printer.status(), printer.get_layer(), printer.is_paused()));
        }
    }
}

/// Runs one non-paused layer iteration: plan, execute against the mock
/// transport, and finish the layer.
fn run_layer(
    printer: &mut Printer,
    sl1: &mut Sl1,
    log: &mut Vec<(PrinterStatus, usize, bool)>,
) {
    let layer = printer.get_layer();
    let frame_layer = sl1.get_layer_data(layer).expect("layer data");
    assert_eq!(frame_layer.exposure_time_ms, 2_000);
    let params = MotionParameters::resolve(&printer_config(), None, None, None, None, None);
    let plan = Printer::plan_layer(layer, sl1.get_layer_height(), params, 2_000);
    let mut cured_for: Option<u64> = None;
    let mut cure_on = false;
    for step in plan {
        match step {
            LayerStep::MoveTo { z_microns, .. } => {
                assert!(mock_transport_reply(b"Z_move_comp"));
                let effects = printer.apply_motion_result(Ok(PhysicalState {
                    z_microns,
                    curing: cure_on,
                }));
                record(&effects, printer, log);
            }
            LayerStep::StartCure => cure_on = true,
            LayerStep::StopCure => cure_on = false,
            LayerStep::Wait { ms } => {
                if cure_on {
                    cured_for = Some(ms);
                }
            }
            _ => {}
        }
    }
    // Exposure conservation: the cure-on interval is the layer's time.
    assert_eq!(cured_for, Some(2_000));
    let has_next = layer + 1 < sl1.get_layer_count();
    let effects = printer.finish_layer(has_next);
    record(&effects, printer, log);
}

#[test]
fn print_lifecycle_publishes_every_layer() {
    let mut sl1 = open_archive(3);
    let mut printer = Printer::new(printer_config());
    let mut log: Vec<(PrinterStatus, usize, bool)> = Vec::new();

    let effects = printer.boot(Ok(PhysicalState { z_microns: 0, curing: false }));
    record(&effects, &printer, &mut log);
    assert!(matches!(printer.status(), PrinterStatus::Idle));

    let effects = printer.start_print(sl1.get_metadata().clone());
    record(&effects, &printer, &mut log);
    assert!(matches!(printer.status(), PrinterStatus::Printing));

    let mut guard = 0;
    while matches!(printer.status(), PrinterStatus::Printing) {
        run_layer(&mut printer, &mut sl1, &mut log);
        guard += 1;
        assert!(guard <= 10, "print must terminate");
    }
    assert!(matches!(printer.status(), PrinterStatus::Idle));

    // Published layer indices of printing snapshots are non-decreasing
    // and cover 0, 1, 2; the final snapshot is Idle.
    let printing_layers: Vec<usize> = log
        .iter()
        .filter(|(s, _, _)| matches!(s, PrinterStatus::Printing))
        .map(|(_, l, _)| *l)
        .collect();
    assert!(printing_layers.windows(2).all(|w| w[0] <= w[1]));
    assert!(printing_layers.contains(&0));
    assert!(printing_layers.contains(&1));
    assert!(printing_layers.contains(&2));
    assert_eq!(*printing_layers.last().unwrap(), 2);
    assert!(matches!(log.last().unwrap().0, PrinterStatus::Idle));
}

#[test]
fn pause_mid_print_stops_advancement() {
    let mut sl1 = open_archive(5);
    let mut printer = Printer::new(printer_config());
    let mut log: Vec<(PrinterStatus, usize, bool)> = Vec::new();

    printer.boot(Ok(PhysicalState { z_microns: 0, curing: false }));
    printer.start_print(sl1.get_metadata().clone());

    // Print layers 0 and 1, arriving at layer 2.
    run_layer(&mut printer, &mut sl1, &mut log);
    run_layer(&mut printer, &mut sl1, &mut log);
    assert_eq!(printer.get_layer(), 2);

    // Pause during layer 2; iterations observe the flag and do nothing.
    printer.handle_operation(Operation::PausePrint);
    assert!(printer.is_paused());
    for _ in 0..20 {
        if printer.is_paused() {
            continue;
        }
        run_layer(&mut printer, &mut sl1, &mut log);
    }
    assert_eq!(printer.get_layer(), 2, "a paused print does not advance");

    // Pausing again changes nothing.
    printer.handle_operation(Operation::PausePrint);
    assert!(printer.is_paused());
    assert_eq!(printer.get_layer(), 2);

    // Resume: the print advances through layer 4 and ends idle.
    printer.handle_operation(Operation::ResumePrint);
    assert!(!printer.is_paused());
    let mut guard = 0;
    while matches!(printer.status(), PrinterStatus::Printing) {
        run_layer(&mut printer, &mut sl1, &mut log);
        guard += 1;
        assert!(guard <= 10, "print must terminate");
    }
    assert!(matches!(printer.status(), PrinterStatus::Idle));
    let printing_layers: Vec<usize> = log
        .iter()
        .filter(|(s, _, _)| matches!(s, PrinterStatus::Printing))
        .map(|(_, l, _)| *l)
        .collect();
    assert_eq!(*printing_layers.last().unwrap(), 4);
}

#[test]
fn shutdown_wins_from_every_state() {
    let mut printer = Printer::new(printer_config());
    // From Shutdown.
    printer.handle_operation(Operation::Shutdown);
    assert!(matches!(printer.status(), PrinterStatus::Shutdown));
    // From Idle.
    printer.boot(Ok(PhysicalState { z_microns: 0, curing: false }));
    assert!(matches!(printer.status(), PrinterStatus::Idle));
    printer.handle_operation(Operation::Shutdown);
    assert!(matches!(printer.status(), PrinterStatus::Shutdown));
    // From Printing.
    let sl1 = open_archive(1);
    printer.boot(Ok(PhysicalState { z_microns: 0, curing: false }));
    printer.start_print(sl1.get_metadata().clone());
    assert!(matches!(printer.status(), PrinterStatus::Printing));
    let effects = printer.handle_operation(Operation::Shutdown);
    assert!(matches!(printer.status(), PrinterStatus::Shutdown));
    assert!(effects.iter().any(|e| matches!(e, Effect::RunShutdown)));
}

#[test]
fn motion_failure_shuts_the_machine_down() {
    let mut printer = Printer::new(printer_config());
    printer.boot(Ok(PhysicalState { z_microns: 0, curing: false }));
    let effects = printer.apply_motion_result(Err(OdysseyError::hardware_error(Vec::new(), 500)));
    assert!(matches!(printer.status(), PrinterStatus::Shutdown));
    assert!(effects.iter().any(|e| matches!(e, Effect::RunShutdown)));
}

#[test]
fn layer_plan_encloses_the_exposure() {
    let params = MotionParameters {
        lift_microns: 5_000,
        up_speed: 2_000,
        down_speed: 1_000,
        wait_before_exposure_ms: 100,
        wait_after_exposure_ms: 50,
    };
    let plan = Printer::plan_layer(1, 50, params, 2_000);
    assert_eq!(plan.len(), 10);
    // Lift clear of the vat, then settle at the layer height.
    assert!(matches!(plan[2], LayerStep::MoveTo { z_microns: 5_100, speed: 2_000 }));
    assert!(matches!(plan[3], LayerStep::MoveTo { z_microns: 100, speed: 1_000 }));
    // The only cure-on and cure-off commands enclose the full exposure.
    assert!(matches!(plan[6], LayerStep::StartCure));
    assert!(matches!(plan[7], LayerStep::Wait { ms: 2_000 }));
    assert!(matches!(plan[8], LayerStep::StopCure));
    for (i, step) in plan.iter().enumerate() {
        assert_eq!(matches!(step, LayerStep::StartCure), i == 6);
        assert_eq!(matches!(step, LayerStep::StopCure), i == 8);
    }
}

#[test]
fn idle_accepts_manual_operations_and_drops_print_controls() {
    let mut printer = Printer::new(printer_config());
    printer.boot(Ok(PhysicalState { z_microns: 0, curing: false }));
    let effects = printer.handle_operation(Operation::ManualMove { z: 1_000 });
    assert_eq!(effects.len(), 1);
    assert!(matches!(printer.status(), PrinterStatus::Idle));
    let effects = printer.handle_operation(Operation::PausePrint);
    assert!(effects.is_empty());
    let effects = printer.handle_operation(Operation::QueryState);
    assert!(matches!(effects[0], Effect::PublishStatus));
}

#[test]
fn start_print_is_ignored_outside_idle() {
    let sl1 = open_archive(2);
    let mut printer = Printer::new(printer_config());
    // Shut down: the metadata is ignored.
    let effects = printer.start_print(sl1.get_metadata().clone());
    assert!(effects.is_empty());
    assert!(matches!(printer.status(), PrinterStatus::Shutdown));
    // Printing: a second start is logged and ignored.
    printer.boot(Ok(PhysicalState { z_microns: 0, curing: false }));
    printer.start_print(sl1.get_metadata().clone());
    let effects = printer.start_print(sl1.get_metadata().clone());
    assert!(effects.is_empty());
    assert_eq!(printer.get_layer(), 0);
}

#[test]
fn stop_print_keeps_the_pose() {
    let sl1 = open_archive(2);
    let mut printer = Printer::new(printer_config());
    printer.boot(Ok(PhysicalState { z_microns: 0, curing: false }));
    printer.start_print(sl1.get_metadata().clone());
    printer.apply_motion_result(Ok(PhysicalState { z_microns: 77, curing: false }));
    printer.handle_operation(Operation::StopPrint);
    match printer.status() {
        PrinterStatus::Idle => {}
        _ => panic!("stop returns to idle"),
    }
    assert_eq!(printer.get_physical_state().z_microns, 77);
}

#[test]
fn empty_archive_does_not_enter_printing() {
    let mut printer = Printer::new(printer_config());
    printer.boot(Ok(PhysicalState { z_microns: 0, curing: false }));
    let sl1 = open_archive(1);
    let mut meta = sl1.get_metadata().clone();
    meta.layer_count = 0;
    let effects = printer.start_print(meta);
    assert!(effects.is_empty());
    assert!(matches!(printer.status(), PrinterStatus::Idle));
}

#[test]
fn shutdown_state_only_answers_queries() {
    let mut printer = Printer::new(printer_config());
    assert!(printer.handle_operation(Operation::PausePrint).is_empty());
    assert!(printer.handle_operation(Operation::ManualHome).is_empty());
    let effects = printer.handle_operation(Operation::QueryState);
    assert!(matches!(effects[0], Effect::PublishStatus));
    // The pose of a shut-down printer is the unmistakable maximum.
    assert_eq!(printer.get_physical_state().z_microns, u32::MAX);
}

#[test]
fn printer_state_is_published_as_a_value() {
    let printer = Printer::new(printer_config());
    assert!(matches!(printer.state, PrinterState::Shutdown));
}
