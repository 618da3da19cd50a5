//! Speaker safety: a thermal model of loudspeaker drivers, the limiter it
//! drives, and the decisions of the loop that supervises them.
//!
//! The audio subsystem keeps the speakers under a conservative volume cap
//! unless it is told, period after period, that they are being watched.
//! Watching means: taking the voltage and current that the amplifier
//! senses at each speaker, estimating from their product how hot the voice
//! coil and the magnet are, and turning the volume down before either
//! gets too hot. Whatever goes wrong, the cap is left to fall back.
//!
//! All quantities are scaled integers (see [`units`]), and every division
//! rounds towards the careful side (see [`fixed`]): temperatures up, gains
//! down. What needs powers, logarithms or exponentials is taken as an
//! argument.
//!
//! - [`speaker`]: the model and the limiter of one speaker.
//! - [`laws`]: what holds of them for every input.
//! - [`supervisor`]: what one captured block leads to, for all speakers.
//! - [`blackbox`]: the recorder of the most recent blocks.
//! - [`config`], [`decimal`], [`globals`], [`calibration`]: the
//!   configuration file and what it must hold.
//! - [`controls`], [`machine`]: the names of knobs and devices.
//! - [`fault`], [`text`]: the fatal conditions and their messages.

pub mod blackbox;
pub mod calibration;
pub mod config;
pub mod controls;
pub mod decimal;
pub mod fault;
pub mod fixed;
pub mod globals;
pub mod laws;
pub mod machine;
pub mod speaker;
pub mod supervisor;
pub mod text;
pub mod units;
