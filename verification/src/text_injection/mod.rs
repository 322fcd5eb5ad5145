//! Getting text into the focused application.
pub mod chinese_convert;
pub mod injector;
