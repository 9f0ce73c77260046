use kernel::common::x86::acpi::{CMKSAcpiHandler, RegionMapping};
use kernel::init::init::user_window_mapping;
use kernel::task::elf::PageMapping;
use kernel::video::gop::{pixel_address, FRAMEBUFFER};

#[test]
fn pixel_addresses() {
    assert_eq!(pixel_address(0, 0), FRAMEBUFFER);
    assert_eq!(pixel_address(1, 0), FRAMEBUFFER + 4);
    assert_eq!(pixel_address(0, 1), FRAMEBUFFER + 3840);
    assert_eq!(pixel_address(1279, 719), 0x000f_8000_0000 + 719 * 3840 + 1279 * 4);
}

#[test]
fn acpi_region_mapping() {
    let h = CMKSAcpiHandler;
    assert_eq!(
        h.region_mapping(0x000e_0f12),
        RegionMapping { page: 0x000e_0000, frame: 0x000e_0000, flags: 3 }
    );
    assert_eq!(
        h.region_mapping(0x7fe1_f000),
        RegionMapping { page: 0x7fe1_f000, frame: 0x7fe1_f000, flags: 3 }
    );
}

#[test]
fn user_window() {
    assert_eq!(user_window_mapping(0), PageMapping { page: 0x8000_0000, frame: 0x8000_0000 });
    assert_eq!(user_window_mapping(999), PageMapping { page: 0x8000_0000 + 999 * 0x1000, frame: 0x8000_0000 + 999 * 0x1000 });
}
