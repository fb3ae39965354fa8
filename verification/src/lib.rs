//! Core logic of an arcade-style USB rhythm-game controller: debouncing and
//! bit-packing of eleven keys, gear reduction of a quadrature turntable
//! encoder onto a 256-step axis, bit interleaving for a parallel WS2812 LED
//! driver, the rolling rainbow animation, and assembly of the 3-byte HID
//! input report.

pub mod button;
pub mod encoder;
pub mod rgb;
pub mod usb;
