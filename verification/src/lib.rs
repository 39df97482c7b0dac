//! Verified logic of a set of ESP32 example programs: the decisions that the
//! programs' main loops and interrupt handlers take, the clocks they keep, the
//! DS1307 register encoding, the XOR cipher sent over UART, the weather
//! forecast scanner and the pages served over HTTP.

pub mod cipher;
pub mod clock;
pub mod controls;
pub mod fade;
pub mod pages;
pub mod forecast;
pub mod rtc;
pub mod text;
pub mod time_sync;
