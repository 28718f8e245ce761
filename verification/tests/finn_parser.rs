use finn_guidance::finn_parser::{parse_finn_sentence, split_checksum};
use finn_guidance::protocol::{format_finn_sentence, nmea_checksum};
use finn_guidance::types::FinnMessage;

#[test]
fn test_parse_motor_status() {
    // Build a valid sentence with correct checksum
    let body = "FINNMTR,120,1832,0,1,5000";
    let cs = nmea_checksum(body);
    let sentence = format!("${}*{:02X}", body, cs);

    let msg = parse_finn_sentence(&sentence);
    assert!(msg.is_some());
    if let Some(FinnMessage::MotorStatus(status)) = msg {
        assert_eq!(status.current_pwm, 120);
        assert_eq!(status.was_raw, 1832);
        assert!((status.actual_angle_x100 as f64 / 100.0 - 0.0).abs() < 0.01);
        assert!(status.enabled);
        assert_eq!(status.uptime_ms, 5000);
    } else {
        panic!("Expected MotorStatus message");
    }
}

#[test]
fn test_parse_motor_status_with_angle() {
    let body = "FINNMTR,-100,1900,315,1,12000";
    let cs = nmea_checksum(body);
    let sentence = format!("${}*{:02X}", body, cs);

    let msg = parse_finn_sentence(&sentence);
    assert!(msg.is_some());
    if let Some(FinnMessage::MotorStatus(status)) = msg {
        assert_eq!(status.current_pwm, -100);
        assert_eq!(status.was_raw, 1900);
        assert!((status.actual_angle_x100 as f64 / 100.0 - 3.15).abs() < 0.01);
        assert!(status.enabled);
    } else {
        panic!("Expected MotorStatus message");
    }
}

#[test]
fn test_parse_config_ack_ok() {
    let body = "FINNACK,WAS,OK";
    let cs = nmea_checksum(body);
    let sentence = format!("${}*{:02X}", body, cs);

    let msg = parse_finn_sentence(&sentence);
    assert!(msg.is_some());
    if let Some(FinnMessage::ConfigAck(ack)) = msg {
        assert_eq!(ack.param, "WAS");
        assert!(ack.success);
    } else {
        panic!("Expected ConfigAck message");
    }
}

#[test]
fn test_parse_config_ack_err() {
    let body = "FINNACK,PID,ERR";
    let cs = nmea_checksum(body);
    let sentence = format!("${}*{:02X}", body, cs);

    let msg = parse_finn_sentence(&sentence);
    assert!(msg.is_some());
    if let Some(FinnMessage::ConfigAck(ack)) = msg {
        assert_eq!(ack.param, "PID");
        assert!(!ack.success);
    } else {
        panic!("Expected ConfigAck message");
    }
}

#[test]
fn test_nmea_ignored() {
    let msg =
        parse_finn_sentence("$GNGGA,123456.00,3456.789,S,13856.789,E,1,12,0.8,100.0,M,,,,*XX");
    assert!(msg.is_none());
}

#[test]
fn test_bad_checksum() {
    let msg = parse_finn_sentence("$FINNMTR,0,0,0,0,0*FF");
    assert!(msg.is_none());
}

#[test]
fn test_not_finn() {
    assert!(parse_finn_sentence("hello world").is_none());
    assert!(parse_finn_sentence("").is_none());
    assert!(parse_finn_sentence("$GPGGA,stuff").is_none());
}

#[test]
fn framed_motor_status_round_trips() {
    let s = format_finn_sentence("FINNMTR,-255,4095,-3000,0,18446744073709551615");
    match parse_finn_sentence(&s) {
        Some(FinnMessage::MotorStatus(m)) => {
            assert_eq!(m.current_pwm, -255);
            assert_eq!(m.was_raw, 4095);
            assert_eq!(m.actual_angle_x100, -3000);
            assert!(!m.enabled);
            assert_eq!(m.uptime_ms, u64::MAX);
        }
        _ => panic!("expected a motor status"),
    }
}

#[test]
fn surrounding_whitespace_is_ignored() {
    let s = format!("  {}  ", format_finn_sentence("FINNACK,INVERT,OK"));
    match parse_finn_sentence(&s) {
        Some(FinnMessage::ConfigAck(a)) => {
            assert_eq!(a.param, "INVERT");
            assert!(a.success);
        }
        _ => panic!("expected an acknowledgement"),
    }
}

#[test]
fn enabled_flag_only_for_one() {
    let s = format_finn_sentence("FINNMTR,5,6,7,2,8");
    match parse_finn_sentence(&s) {
        Some(FinnMessage::MotorStatus(m)) => assert!(!m.enabled),
        _ => panic!("expected a motor status"),
    }
}

#[test]
fn wrong_field_counts_rejected() {
    assert!(parse_finn_sentence(&format_finn_sentence("FINNMTR,1,2,3,1")).is_none());
    assert!(parse_finn_sentence(&format_finn_sentence("FINNMTR,1,2,3,1,5,6")).is_none());
    assert!(parse_finn_sentence(&format_finn_sentence("FINNACK,WAS")).is_none());
    assert!(parse_finn_sentence(&format_finn_sentence("FINNACK,WAS,OK,1")).is_none());
}

#[test]
fn out_of_range_fields_rejected() {
    assert!(parse_finn_sentence(&format_finn_sentence("FINNMTR,40000,1,0,1,5")).is_none());
    assert!(parse_finn_sentence(&format_finn_sentence("FINNMTR,1,70000,0,1,5")).is_none());
    assert!(parse_finn_sentence(&format_finn_sentence("FINNMTR,1,1,x,1,5")).is_none());
}

#[test]
fn unknown_finn_sentence_rejected() {
    assert!(parse_finn_sentence(&format_finn_sentence("FINNHB,1000")).is_none());
}

#[test]
fn lower_case_checksum_accepted() {
    let body = "FINNACK,PID,OK";
    let s = format!("${}*{:02x}", body, nmea_checksum(body));
    assert!(parse_finn_sentence(&s).is_some());
}

#[test]
fn split_checksum_reads_hex_after_last_star() {
    let s = "FINNX,a*b*5A".as_bytes();
    assert_eq!(split_checksum(s, 0, s.len()), Some((9, 0x5A)));
    let t = "NOSTAR".as_bytes();
    assert_eq!(split_checksum(t, 0, t.len()), None);
    let u = "BODY*ZZ".as_bytes();
    assert_eq!(split_checksum(u, 0, u.len()), None);
}
