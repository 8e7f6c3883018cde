use odyssey::error::ErrorType;
use odyssey::gcode::{Gcode, GcodeConfig, SerialRequest, substitute};
use odyssey::text::{contains_bytes, dec_bytes, mm_bytes, parse_milli, parse_u64};
use odyssey::vars::VarMap;

fn gcode_config() -> GcodeConfig {
    GcodeConfig {
        boot: b"G90".to_vec(),
        shutdown: b"M84".to_vec(),
        home_command: b"G28".to_vec(),
        move_command: b"G1 Z{z} F{speed}".to_vec(),
        manual_move_command: None,
        print_start: b"START".to_vec(),
        print_end: b"END".to_vec(),
        layer_start: b"LAYER".to_vec(),
        cure_start: b"M106 S255".to_vec(),
        cure_end: b"M106 S0".to_vec(),
        move_sync: b"Z_move_comp".to_vec(),
        move_timeout: 10,
        status_check: b"M119".to_vec(),
        status_desired: b"ready".to_vec(),
    }
}

#[test]
fn substitution_replaces_bound_tokens() {
    let mut vars = VarMap::new();
    vars.insert(b"z".to_vec(), b"1.5".to_vec());
    vars.insert(b"speed".to_vec(), b"300".to_vec());
    let out = substitute(b"G1 Z{z} F{speed}", &vars).expect("substitute");
    assert_eq!(out, b"G1 Z1.5 F300".to_vec());
}

#[test]
fn substitution_leaves_unmatched_braces() {
    let vars = VarMap::new();
    let out = substitute(b"a { b } c", &vars).expect("substitute");
    assert_eq!(out, b"a { b } c".to_vec());
}

#[test]
fn unbound_token_is_a_configuration_error() {
    let vars = VarMap::new();
    let err = substitute(b"G1 Z{z}", &vars).unwrap_err();
    assert!(matches!(err.error_type, ErrorType::ConfigurationError));
    assert_eq!(err.error_code, 500);
}

#[test]
fn rebinding_a_variable_replaces_it() {
    let mut vars = VarMap::new();
    vars.insert(b"layer".to_vec(), b"1".to_vec());
    vars.insert(b"layer".to_vec(), b"2".to_vec());
    let out = substitute(b"{layer}", &vars).expect("substitute");
    assert_eq!(out, b"2".to_vec());
    vars.remove(b"layer");
    assert!(substitute(b"{layer}", &vars).is_err());
}

#[test]
fn move_z_builds_the_wire_line_and_mirrors_the_pose() {
    let mut gcode = Gcode::new(gcode_config());
    let step = gcode.move_z(50, 1000, false).expect("move");
    // 50 microns is 0.05 mm; 1000 um/s is 60 mm/min.
    match step.request {
        SerialRequest::SendAndAwait { line, expect, timeout_seconds } => {
            assert_eq!(line, b"G1 Z0.05 F60\r\n".to_vec());
            assert_eq!(expect, b"Z_move_comp".to_vec());
            assert_eq!(timeout_seconds, 10);
        }
        _ => panic!("move must await the sync reply"),
    }
    assert_eq!(step.state.z_microns, 50);
    assert!(!step.state.curing);
    // The speed binding lives only for the move: it is unbound again.
    assert!(substitute(b"{speed}", &gcode.gcode_substitutions).is_err());
    assert_eq!(
        substitute(b"{z}", &gcode.gcode_substitutions).expect("pose stays bound"),
        b"0.05".to_vec()
    );
}

#[test]
fn curing_commands_flip_the_mirror() {
    let mut gcode = Gcode::new(gcode_config());
    let on = gcode.start_curing().expect("cure on");
    assert!(on.state.curing);
    match on.request {
        SerialRequest::Send { line } => assert_eq!(line, b"M106 S255\r\n".to_vec()),
        _ => panic!("cure start is fire-and-forget"),
    }
    let off = gcode.stop_curing().expect("cure off");
    assert!(!off.state.curing);
}

#[test]
fn curing_state_reaches_substitutions() {
    let mut gcode = Gcode::new(gcode_config());
    gcode.start_curing().expect("cure on");
    let line = gcode.manual_command(b"REPORT {curing} {z}".to_vec()).expect("manual");
    match line.request {
        SerialRequest::Send { line } => assert_eq!(line, b"REPORT true 0\r\n".to_vec()),
        _ => panic!("manual commands are fire-and-forget"),
    }
}

#[test]
fn is_ready_checks_for_the_desired_status() {
    let mut gcode = Gcode::new(gcode_config());
    match gcode.is_ready().expect("ready request") {
        SerialRequest::SendAndCheck { line, expect } => {
            assert_eq!(line, b"M119\r\n".to_vec());
            assert_eq!(expect, b"ready".to_vec());
        }
        _ => panic!("readiness is send-and-check"),
    }
    // The transport-side test a reply goes through:
    assert!(contains_bytes(b"ok ready\n", b"ready"));
    assert!(!contains_bytes(b"busy\n", b"ready"));
}

#[test]
fn mm_rendering_is_dot_decimal() {
    assert_eq!(mm_bytes(0), b"0".to_vec());
    assert_eq!(mm_bytes(50), b"0.05".to_vec());
    assert_eq!(mm_bytes(1500), b"1.5".to_vec());
    assert_eq!(mm_bytes(2000), b"2".to_vec());
    assert_eq!(mm_bytes(12345), b"12.345".to_vec());
    assert_eq!(dec_bytes(907), b"907".to_vec());
}

#[test]
fn numeric_parsing_matches_the_grammar() {
    assert_eq!(parse_u64(b"42"), Some(42));
    assert_eq!(parse_u64(b""), None);
    assert_eq!(parse_u64(b"4x2"), None);
    assert_eq!(parse_milli(b"10.5"), Some(10_500));
    assert_eq!(parse_milli(b"10"), Some(10_000));
    assert_eq!(parse_milli(b"0.0555"), Some(55));
    assert_eq!(parse_milli(b"."), None);
    assert_eq!(parse_milli(b"1.2.3"), None);
}

#[test]
fn empty_template_substitutes_to_nothing() {
    let vars = VarMap::new();
    assert_eq!(substitute(b"", &vars).expect("empty"), Vec::<u8>::new());
}

#[test]
fn substitution_handles_adjacent_tokens() {
    let mut vars = VarMap::new();
    vars.insert(b"a".to_vec(), b"1".to_vec());
    vars.insert(b"b".to_vec(), b"2".to_vec());
    assert_eq!(substitute(b"{a}{b}", &vars).expect("adjacent"), b"12".to_vec());
}
