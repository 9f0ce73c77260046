pub mod gop;
