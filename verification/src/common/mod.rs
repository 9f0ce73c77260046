pub mod x86;
