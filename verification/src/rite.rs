//! The mruby RITE (`.mrb`) binary format: headers, sections and the
//! instruction/pool/symbol records of each IREP.
pub mod binfmt;
pub mod loader;
pub mod irep;
