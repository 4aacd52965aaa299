pub mod flags;
