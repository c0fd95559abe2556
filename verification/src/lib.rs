//! Telemetry hub for a circuit monitor: frames from a serial line become the
//! current snapshot, which a log, a character display and a status page read.
//!
//! - [`frame`] reads a frame; [`uart`] turns the bytes of one read into a
//!   snapshot and puts it on the bus.
//! - [`state_bus`] holds the snapshot. It is a plain value: whoever shares it
//!   between threads puts it behind a lock.
//! - [`cadence`] says when a consumer that runs on a timer is due.
//! - [`lcd_display_impl`] lays a snapshot out for the display, [`web_server`]
//!   writes the status page, [`database`] says what is expected of the store.
//! - [`decimal`], [`digits`], [`text`] and [`timestamp`] are what the others
//!   are made of.
//!
//! Numbers are exact decimals throughout; nothing here is floating point.

pub mod cadence;
pub mod circuit_data;
pub mod clock;
pub mod database;
pub mod decimal;
pub mod digits;
pub mod frame;
pub mod lcd_display_impl;
pub mod state_bus;
pub mod text;
pub mod timestamp;
pub mod uart;
pub mod web_server;

pub use cadence::{Cadence, ConfigError, Interval, Step};
pub use circuit_data::{Circuit_Data, CircuitState, Reading};
pub use database::Record;
pub use decimal::Decimal;
pub use frame::{parse, ParseError};
pub use lcd_display_impl::{LCD_Display_impl, Screen};
pub use state_bus::StateBus;
pub use uart::{FrameError, Reopen, ReopenStep, UART_Port, FRAME_CAPACITY};
pub use web_server::WebServer;
