use finn_guidance::motor_firmware::{
    command_from_line, format_status, parse_steer_command, pwm_duties, CommandLineBuffer,
    MotorState,
};
use finn_guidance::protocol::{format_steer_command, nmea_checksum};
use finn_guidance::sensor_firmware::{
    calibration_levels, euler_raw, format_heartbeat, format_was_sentence, was_millivolts,
    GpsLineForwarder, SensorSchedule,
};

#[test]
fn steer_command_parses_back_clamped() {
    assert_eq!(parse_steer_command(&format_steer_command(120)), Some(120));
    assert_eq!(parse_steer_command(&format_steer_command(-3000)), Some(-255));
    assert_eq!(parse_steer_command(&format_steer_command(300)), Some(255));
    assert_eq!(parse_steer_command(&format_steer_command(0)), Some(0));
}

#[test]
fn steer_command_rejects_bad_input() {
    assert_eq!(parse_steer_command("$FINNSTEER,100*00"), None);
    assert_eq!(parse_steer_command("FINNSTEER,100*00"), None);
    assert_eq!(parse_steer_command("$FINNCFG,INVERT,1*00"), None);
    let body = "FINNSTEER,abc";
    assert_eq!(parse_steer_command(&format!("${}*{:02X}", body, nmea_checksum(body))), None);
}

#[test]
fn line_buffer_assembles_commands() {
    let mut b = CommandLineBuffer::new();
    let text = format_steer_command(-42);
    let mut got = None;
    for byte in text.bytes() {
        if let Some(line) = b.push_byte(byte) {
            got = command_from_line(&line);
        }
    }
    assert_eq!(got, Some(-42));
    assert!(b.push_byte(b'\n').is_none());
}

#[test]
fn line_buffer_drops_bytes_beyond_capacity() {
    let mut b = CommandLineBuffer::new();
    for _ in 0..200 {
        assert!(b.push_byte(b'x').is_none());
    }
    let line = b.push_byte(b'\n').unwrap();
    assert_eq!(line.len(), 128);
}

#[test]
fn watchdog_stops_the_motor() {
    let mut m = MotorState::new(1000);
    assert!(!m.check_watchdog(5000));
    assert!(m.on_command(100, 5000));
    assert!(!m.on_command(90, 5100));
    assert!(!m.check_watchdog(5600));
    assert!(m.check_watchdog(5601));
    assert_eq!(m.current_pwm, 0);
    assert!(!m.motor_enabled);
}

#[test]
fn watchdog_survives_uptime_wrap() {
    let mut m = MotorState::new(0);
    m.on_command(10, u32::MAX - 100);
    assert!(!m.check_watchdog(300));
    assert!(m.check_watchdog(500));
}

#[test]
fn status_reports_every_200ms() {
    let mut m = MotorState::new(0);
    let r = m.status_report(200).unwrap();
    assert_eq!(r, format!("$FINNMTR,0,0,200*{:02X}", nmea_checksum("FINNMTR,0,0,200")));
    assert!(m.status_report(399).is_none());
    assert!(m.status_report(400).is_some());
}

#[test]
fn status_sentence_text() {
    let s = format_status(-120, true, 12345);
    assert_eq!(s, format!("$FINNMTR,-120,1,12345*{:02X}", nmea_checksum("FINNMTR,-120,1,12345")));
}

#[test]
fn h_bridge_duties() {
    assert_eq!(pwm_duties(100), (100, 0));
    assert_eq!(pwm_duties(-100), (0, 100));
    assert_eq!(pwm_duties(0), (0, 0));
    assert_eq!(pwm_duties(-32768), (0, 255));
    assert_eq!(pwm_duties(400), (255, 0));
}

#[test]
fn was_sentence_text() {
    assert_eq!(was_millivolts(4095), 3300);
    assert_eq!(was_millivolts(2048), 1650);
    assert_eq!(was_millivolts(0), 0);
    let s = format_was_sentence(2048);
    assert_eq!(s, format!("$FINNWAS,2048,1650*{:02X}", nmea_checksum("FINNWAS,2048,1650")));
}

#[test]
fn heartbeat_text() {
    let s = format_heartbeat(2000);
    assert_eq!(s, format!("$FINNHB,2000*{:02X}", nmea_checksum("FINNHB,2000")));
}

#[test]
fn sensor_schedule_intervals() {
    let mut s = SensorSchedule::new();
    assert_eq!(s.tick(10), (false, false));
    assert_eq!(s.tick(50), (true, false));
    assert_eq!(s.tick(99), (false, false));
    assert_eq!(s.tick(2000), (true, true));
    assert_eq!(s.tick(2049), (false, false));
    assert_eq!(s.last_heartbeat_ms, 2000);
}

#[test]
fn imu_register_decoding() {
    assert_eq!(calibration_levels(0b11_10_01_00), (3, 2, 1, 0));
    assert_eq!(calibration_levels(0xFF), (3, 3, 3, 3));
    assert_eq!(euler_raw(0x10, 0x00), 16);
    assert_eq!(euler_raw(0xF0, 0xFF), -16);
    assert_eq!(euler_raw(0x00, 0x80), i16::MIN);
    assert_eq!(euler_raw(0xFF, 0x7F), i16::MAX);
}

#[test]
fn gps_forwarder_passes_sentences() {
    let mut f = GpsLineForwarder::new();
    let mut out = Vec::new();
    for b in "$GNGGA,1*00\r\r\nnoise\n\n$GNVTG\n".bytes() {
        if let Some(s) = f.push_byte(b) {
            out.push(s);
        }
    }
    assert_eq!(out, vec!["$GNGGA,1*00".to_string(), "$GNVTG".to_string()]);
}

#[test]
fn gps_forwarder_discards_overlong_and_invalid_lines() {
    let mut f = GpsLineForwarder::new();
    for _ in 0..256 {
        assert!(f.push_byte(b'$').is_none());
    }
    // The 257th byte overflows: the line so far is discarded.
    assert!(f.push_byte(b'A').is_none());
    assert!(f.push_byte(b'\n').is_none());
    for b in [b'$', 0xFF, b'\n'] {
        assert!(f.push_byte(b).is_none());
    }
}
