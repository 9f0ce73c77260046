use kernel::drivers::pci::{
    config_address, config_word, get_class, get_device, get_subclass, get_vendor, init,
    pci_device, PciConfigRead,
};

#[test]
fn config_address_layout() {
    assert_eq!(config_address(0, 0, 0, 0), 0x8000_0000);
    assert_eq!(config_address(1, 2, 3, 10), 0x8001_1308);
    assert_eq!(config_address(255, 31, 7, 0xff), 0x80ff_fffc);
    // the offset is aligned down to a dword
    assert_eq!(config_address(0, 0, 0, 2), 0x8000_0000);
}

#[test]
fn config_word_halves() {
    assert_eq!(config_word(0x1237_8086, 0), 0x8086);
    assert_eq!(config_word(0x1237_8086, 2), 0x1237);
    assert_eq!(config_word(0x1237_8086, 10), 0x1237);
    assert_eq!(config_word(0x1237_8086, 8), 0x8086);
}

#[test]
fn vendor_device_class_subclass() {
    assert_eq!(get_vendor(0x1237_8086), 0x8086);
    assert_eq!(get_device(0x1237_8086), 0x1237);
    assert_eq!(get_class(0x0601_0000), 0x06);
    assert_eq!(get_subclass(0x0601_0000), 0x01);
    assert_eq!(get_class(0xffff_ffff), 0xff);
    assert_eq!(get_subclass(0xffff_ffff), 0xff);
}

fn config_space(read: PciConfigRead) -> u32 {
    let present = [(0u16, 0u16, 0u16, 0x8086u32, 0x1237u32, 0x0600u32),
                   (0, 1, 0, 0x8086, 0x7000, 0x0601),
                   (0, 1, 1, 0x8086, 0x7010, 0x0101),
                   (3, 31, 7, 0x1234, 0x1111, 0x0300)];
    for (bus, slot, func, vendor, device, class) in present {
        if read.bus == bus && read.slot == slot && read.func == func {
            return match read.offset {
                0 | 2 => (device << 16) | vendor,
                10 => class << 16,
                _ => 0,
            };
        }
    }
    0xffff_ffff
}

#[test]
fn scan_reports_present_functions_in_order() {
    let mut scan = init();
    let mut found = Vec::new();
    let mut reads = 0u32;
    while let Some(read) = scan.next_read() {
        reads += 1;
        if let Some(device) = scan.advance(config_space(read)) {
            found.push(device);
        }
    }
    assert_eq!(
        found,
        vec![
            pci_device { vendor: 0x8086, device: 0x1237, class: 0x06, func: 0, subclass: 0x00 },
            pci_device { vendor: 0x8086, device: 0x7000, class: 0x06, func: 0, subclass: 0x01 },
            pci_device { vendor: 0x8086, device: 0x7010, class: 0x01, func: 1, subclass: 0x01 },
            pci_device { vendor: 0x1234, device: 0x1111, class: 0x03, func: 7, subclass: 0x00 },
        ]
    );
    // one vendor read per function, three more per present function
    assert_eq!(reads, 65536 + 4 * 3);
    assert!(scan.next_read().is_none());
}

#[test]
fn scan_starts_at_bus_zero() {
    let scan = init();
    assert_eq!(scan.next_read(), Some(PciConfigRead { bus: 0, slot: 0, func: 0, offset: 0 }));
}

#[test]
fn scan_of_empty_bus_reports_nothing() {
    let mut scan = init();
    let mut found = 0;
    while scan.next_read().is_some() {
        if scan.advance(0xffff_ffff).is_some() {
            found += 1;
        }
    }
    assert_eq!(found, 0);
}

#[test]
fn class_and_subclass_recombine_to_the_word() {
    for dword in [0x0601_0000u32, 0xabcd_1234, 0x0000_ffff, 0xffff_0000] {
        assert_eq!(get_class(dword) * 256 + get_subclass(dword), config_word(dword, 10));
    }
}
