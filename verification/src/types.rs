//! Shared data types of the guidance system whose content is integral.

use vstd::prelude::*;

verus! {

/// GPS fix quality levels.
#[derive(Debug, Clone, Copy, PartialEq, Eq, Structural)]
pub enum FixQuality {
    /// No position fix.
    NoFix,
    /// Standard GPS.
    Gps,
    /// Differential GPS.
    Dgps,
    /// RTK fixed: centimetre accuracy.
    Rtk,
    /// RTK float: decimetre accuracy.
    RtkFloat,
}

/// Dead-reckoning calibration state reported by the GPS module.
#[derive(Debug, Clone, Copy, PartialEq, Eq, Structural)]
pub enum DrCalState {
    /// State 0: drive above 3 m/s with turns to calibrate.
    Uncalibrated,
    /// State 1: calibration in progress.
    Calibrating,
    /// State 2: dead reckoning fully operational.
    Calibrated,
}

/// ESP32 heartbeat.
#[derive(Debug, Clone, Copy, PartialEq, Eq, Structural)]
pub struct EspHeartbeat {
    pub uptime_ms: u64,
}

/// Motor controller status from the motor ESP32, with wheel angle sensor
/// feedback. The calibrated angle is carried as transmitted: degrees times 100.
#[derive(Debug, Clone, Copy, PartialEq, Eq, Structural)]
pub struct MotorStatus {
    /// Current PWM output, -255 to 255.
    pub current_pwm: i16,
    /// Raw ADC value of the wheel angle sensor.
    pub was_raw: u16,
    /// Calibrated wheel angle in hundredths of a degree.
    pub actual_angle_x100: i16,
    pub enabled: bool,
    pub uptime_ms: u64,
}

/// Configuration acknowledgement from the motor ESP32.
#[derive(Debug, Clone)]
pub struct ConfigAck {
    /// The acknowledged parameter, such as `WAS`, `PID` or `INVERT`.
    pub param: String,
    pub success: bool,
}

/// All messages parsed from the motor ESP32 serial stream.
#[derive(Debug, Clone)]
pub enum FinnMessage {
    /// Motor controller status with WAS feedback.
    MotorStatus(MotorStatus),
    /// Configuration acknowledgement.
    ConfigAck(ConfigAck),
}

} // verus!
