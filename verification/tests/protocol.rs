use finn_guidance::gps_config::format_pair_command;
use finn_guidance::protocol::{
    format_finn_sentence, format_invert_config, format_pid_config, format_steer_command,
    format_was_config, format_wasf_config, nmea_checksum,
};

#[test]
fn checksum_of_known_bodies() {
    assert_eq!(nmea_checksum("PQTMSAVEPAR"), 0x5A);
    assert_eq!(nmea_checksum(""), 0);
    assert_eq!(nmea_checksum("A"), 0x41);
    assert_eq!(nmea_checksum("AA"), 0);
}

#[test]
fn save_parameters_sentence() {
    assert_eq!(format_finn_sentence("PQTMSAVEPAR"), "$PQTMSAVEPAR*5A\r\n");
    assert_eq!(format_pair_command("PQTMSAVEPAR"), "$PQTMSAVEPAR*5A\r\n");
}

#[test]
fn steer_command_text() {
    let s = format_steer_command(-315);
    let body = "FINNSTEER,-315";
    assert_eq!(s, format!("${}*{:02X}\r\n", body, nmea_checksum(body)));
    assert_eq!(format_steer_command(0), format!("$FINNSTEER,0*{:02X}\r\n", nmea_checksum("FINNSTEER,0")));
}

#[test]
fn config_command_texts() {
    let was = "FINNCFG,WAS,1832,1600,2050";
    assert_eq!(format_was_config(1832, 1600, 2050), format!("${}*{:02X}\r\n", was, nmea_checksum(was)));
    let pid = "FINNCFG,PID,250,40,255";
    assert_eq!(format_pid_config(250, 40, 255), format!("${}*{:02X}\r\n", pid, nmea_checksum(pid)));
    let inv = "FINNCFG,INVERT,1";
    assert_eq!(format_invert_config(true), format!("${}*{:02X}\r\n", inv, nmea_checksum(inv)));
    let noinv = "FINNCFG,INVERT,0";
    assert_eq!(format_invert_config(false), format!("${}*{:02X}\r\n", noinv, nmea_checksum(noinv)));
    let wasf = "FINNCFG,WASF,30,50,150";
    assert_eq!(format_wasf_config(30, 50, 150), format!("${}*{:02X}\r\n", wasf, nmea_checksum(wasf)));
}

#[test]
fn pair_commands_of_module_configuration() {
    let c = format_pair_command("PAIR062,1,0");
    assert_eq!(c, format!("$PAIR062,1,0*{:02X}\r\n", nmea_checksum("PAIR062,1,0")));
    assert_eq!(format_pair_command("PAIR050,100"), "$PAIR050,100*22\r\n");
}
