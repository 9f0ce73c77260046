pub mod elf;
pub mod userspace;
