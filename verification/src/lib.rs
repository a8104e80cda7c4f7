//! The logic of a battery-powered temperature node, free of any hardware crate.
//!
//! The library holds the domain types, the DS18B20 device knowledge, the
//! decisions of the 1-Wire driver, the wake cycle and the journal buffer. The
//! firmware around it moves bytes, waits and logs.

pub mod cycle;
pub mod decimal;
pub mod driver;
pub mod ds18b20;
pub mod log_buffer;
pub mod temperature;

pub use driver::Ds18b20;
pub use ds18b20::Resolution;
pub use log_buffer::{Entries, Level, LogBuffer};
pub use temperature::{Celsius, SensorError, TemperatureSensor, Thermometer, ThermometerError};
