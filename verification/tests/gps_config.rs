use finn_guidance::gps_config::{
    classify_pqtm_config_response, classify_rate_ack, compact_response, fix_interval_ms,
    format_rate_command, is_motor_status_line, pqtmins_already_streaming, rate_ack_seen,
    rates_to_try, usb_first_order, GpsProbe, InsConfigResponse, RateAck, RateNegotiation,
};
use finn_guidance::nmea_sentences::{
    classify_sentence, fix_quality_of, GgaFixType, ins_heading_usable, parse_pqtmdrcal, pqtm_fields, pqtmins_sol_type,
    sentence_fields, SentenceKind,
};
use finn_guidance::protocol::nmea_checksum;
use finn_guidance::types::{DrCalState, FixQuality};

#[test]
fn fallback_rates() {
    assert_eq!(rates_to_try(10), vec![10, 5, 2, 1]);
    assert_eq!(rates_to_try(20), vec![20, 10, 5, 2, 1]);
    assert_eq!(rates_to_try(5), vec![5, 2, 1]);
    assert_eq!(rates_to_try(3), vec![3, 2, 1]);
    assert_eq!(rates_to_try(1), vec![1]);
}

#[test]
fn rate_intervals_and_commands() {
    assert_eq!(fix_interval_ms(10), 100);
    assert_eq!(fix_interval_ms(3), 333);
    assert_eq!(fix_interval_ms(1), 1000);
    assert_eq!(format_rate_command(10), format!("$PAIR050,100*{:02X}\r\n", nmea_checksum("PAIR050,100")));
}

#[test]
fn rate_acknowledgements() {
    assert_eq!(classify_rate_ack("$PAIR001,050,0*3C\r\n"), RateAck::Accepted);
    assert_eq!(classify_rate_ack("$GNGGA,...\r\n$PAIR001,050,1*3D"), RateAck::Unsupported);
    assert_eq!(classify_rate_ack("$PAIR001,050,2*3E"), RateAck::Invalid);
    assert_eq!(classify_rate_ack("$PAIR001,050,7*3B"), RateAck::Unknown(b'7'));
    assert_eq!(classify_rate_ack("$PAIR001,050,"), RateAck::Truncated);
    assert_eq!(classify_rate_ack("$GNGGA,123"), RateAck::NoAck);
    assert!(rate_ack_seen("xx PAIR001,050"));
    assert!(!rate_ack_seen("PAIR001,05"));
}

#[test]
fn negotiation_falls_back_until_accepted() {
    let mut n = RateNegotiation::new(10);
    assert_eq!(n.next_rate(), Some(10));
    n.on_ack(RateAck::Unsupported);
    assert_eq!(n.next_rate(), Some(5));
    n.on_write_failed();
    assert_eq!(n.next_rate(), Some(2));
    n.on_ack(RateAck::Accepted);
    assert_eq!(n.next_rate(), None);
    assert!(n.rate_set());
}

#[test]
fn negotiation_without_ack_counts_as_set() {
    let mut n = RateNegotiation::new(1);
    n.on_ack(RateAck::NoAck);
    assert!(n.rate_set());
    assert_eq!(n.next_rate(), None);
}

#[test]
fn negotiation_exhausted() {
    let mut n = RateNegotiation::new(2);
    n.on_ack(RateAck::Invalid);
    n.on_ack(RateAck::Truncated);
    assert_eq!(n.next_rate(), None);
    assert!(!n.rate_set());
}

#[test]
fn dead_reckoning_config_responses() {
    assert_eq!(classify_pqtm_config_response("$PQTMCFGEINSMSGOK*xx"), InsConfigResponse::Accepted);
    assert_eq!(classify_pqtm_config_response("$PQTMCFGEINSMSG,OK*xx"), InsConfigResponse::Accepted);
    assert_eq!(classify_pqtm_config_response("$PQTMCFGEINSMSGERROR*xx"), InsConfigResponse::Rejected);
    assert_eq!(classify_pqtm_config_response("$PQTMCFGEINSMSG,ERROR,1*xx"), InsConfigResponse::Rejected);
    assert_eq!(classify_pqtm_config_response("$PQTMEINSMSG,1,1,1,0,10"), InsConfigResponse::Echoed);
    assert_eq!(classify_pqtm_config_response(" \r\n\t"), InsConfigResponse::Empty);
    assert_eq!(classify_pqtm_config_response("$GNGGA,1"), InsConfigResponse::Other);
}

#[test]
fn streaming_detection_by_line() {
    assert!(pqtmins_already_streaming("$GNGGA,1\r\n$PQTMINS,1,2\r\n"));
    assert!(!pqtmins_already_streaming("$GNGGA,1 $PQTMINS,1\r\n"));
    assert!(!pqtmins_already_streaming(""));
}

#[test]
fn compact_response_joins_four_lines() {
    assert_eq!(compact_response("a\r\nb\nc\nd\ne\n"), "a | b | c | d");
    assert_eq!(compact_response("one"), "one");
    assert_eq!(compact_response(""), "");
}

#[test]
fn gps_probe_decisions() {
    let mut p = GpsProbe::new();
    assert!(!p.observe("garbage"));
    assert!(!p.is_gps_port());
    assert!(!p.observe("$GNGGA,1,2"));
    assert!(p.is_gps_port());
    assert!(p.observe("$FINNMTR,1,2,3"));
    assert!(!p.is_gps_port());
    let mut q = GpsProbe::new();
    assert!(!q.observe("$PQTMINS,1"));
    assert!(q.is_gps_port());
    assert!(q.observe("$FINNACK,WAS,OK"));
    assert!(is_motor_status_line("$FINNMTR,0,0,1"));
    assert!(!is_motor_status_line("$FINNACK,WAS,OK"));
}

#[test]
fn sentence_routing() {
    assert_eq!(classify_sentence("$PQTMINS,1,2"), SentenceKind::Ins);
    assert_eq!(classify_sentence("$PQTMDRCAL,1,2"), SentenceKind::DrCal);
    assert_eq!(classify_sentence("$GNVTG,1"), SentenceKind::Vtg);
    assert_eq!(classify_sentence("$GNGGA,1"), SentenceKind::Gga);
    assert_eq!(classify_sentence("$GNRMC,1"), SentenceKind::Other);
}

#[test]
fn drcal_states() {
    assert_eq!(parse_pqtmdrcal("$PQTMDRCAL,1,0*00"), Some(DrCalState::Uncalibrated));
    assert_eq!(parse_pqtmdrcal("$PQTMDRCAL,1,1*00"), Some(DrCalState::Calibrating));
    assert_eq!(parse_pqtmdrcal("$PQTMDRCAL,1,2"), Some(DrCalState::Calibrated));
    assert_eq!(parse_pqtmdrcal("$PQTMDRCAL,1,3*00"), None);
    assert_eq!(parse_pqtmdrcal("$PQTMDRCAL,1"), None);
}

#[test]
fn field_splitting() {
    let f = pqtm_fields("$PQTMINS,775312,1,x*00");
    assert_eq!(f, vec![b"$PQTMINS".to_vec(), b"775312".to_vec(), b"1".to_vec(), b"x".to_vec()]);
    let g = sentence_fields("$GNVTG,,T*4A");
    assert_eq!(g, vec![b"$GNVTG".to_vec(), b"".to_vec(), b"T*4A".to_vec()]);
}

#[test]
fn ins_solution_types() {
    assert_eq!(pqtmins_sol_type(b"2"), 2);
    assert_eq!(pqtmins_sol_type(b"x"), 0);
    assert_eq!(pqtmins_sol_type(b"300"), 0);
    assert!(!ins_heading_usable(0));
    assert!(ins_heading_usable(1));
}

#[test]
fn usb_ports_probed_first_in_listed_order() {
    assert_eq!(usb_first_order(&vec![false, true, false, true]), vec![1, 3, 0, 2]);
    assert_eq!(usb_first_order(&vec![]), Vec::<usize>::new());
    assert_eq!(usb_first_order(&vec![true, true]), vec![0, 1]);
}

#[test]
fn gga_fix_indicator_to_quality() {
    assert_eq!(fix_quality_of(None), FixQuality::NoFix);
    assert_eq!(fix_quality_of(Some(GgaFixType::Invalid)), FixQuality::NoFix);
    assert_eq!(fix_quality_of(Some(GgaFixType::Gps)), FixQuality::Gps);
    assert_eq!(fix_quality_of(Some(GgaFixType::DGps)), FixQuality::Dgps);
    assert_eq!(fix_quality_of(Some(GgaFixType::Rtk)), FixQuality::Rtk);
    assert_eq!(fix_quality_of(Some(GgaFixType::FloatRtk)), FixQuality::RtkFloat);
    assert_eq!(fix_quality_of(Some(GgaFixType::Estimated)), FixQuality::Gps);
}
