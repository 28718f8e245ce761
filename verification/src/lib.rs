//! Verified core of the FINN guidance system: the serial sentence protocol
//! between the PC and the ESP32 controllers, the GPS module configuration
//! dialogue, and the integer bookkeeping of guidance, coverage and telemetry.

pub mod digits;
pub mod text;
pub mod strings;
pub mod protocol;
pub mod utf8_pieces;
pub mod types;
pub mod finn_parser;
pub mod motor_firmware;
pub mod gps_config;
pub mod nmea_sentences;
pub mod telemetry;
pub mod counters;
pub mod channels;
pub mod coverage;
pub mod was_learner;
pub mod sensor_firmware;
pub mod guidance;
