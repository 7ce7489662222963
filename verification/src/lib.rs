pub mod util;
pub mod color;
pub mod control;
pub mod engine;
pub mod format;
pub mod resample;
pub mod zones;
