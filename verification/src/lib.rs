//! A deterministic keystream cipher: a seed is hashed, a damped-sinusoid
//! recurrence evaluated at very high numeric precision turns the digest
//! into decimal digits (the surrounding application runs that numeric
//! recurrence and hands the digits in), and the library owns the keystream
//! and applies it block by block, with chunked file split and reassembly.

pub mod decimal;
pub mod engine;
pub mod i18n;
pub mod parts;
pub mod progress;
pub mod transform;

pub use engine::SizeUnit;
pub use engine::TranscendentalEngine;
pub use i18n::Config;
pub use i18n::Translations;
