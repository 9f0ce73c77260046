pub mod init;
pub mod ramdisk;
