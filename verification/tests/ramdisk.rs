use kernel::init::ramdisk::modules;

/// One entry of a "newc" cpio archive.
fn newc_entry(out: &mut Vec<u8>, name: &str, data: &[u8]) {
    let namesize = name.len() + 1;
    let fields = [1u32, 0o100644, 0, 0, 1, 0, data.len() as u32, 0, 0, 0, 0, namesize as u32, 0];
    let mut header = String::from("070701");
    for f in fields {
        header.push_str(&format!("{:08x}", f));
    }
    let start = out.len();
    out.extend_from_slice(header.as_bytes());
    out.extend_from_slice(name.as_bytes());
    out.push(0);
    while (out.len() - start) % 4 != 0 {
        out.push(0);
    }
    out.extend_from_slice(data);
    while (out.len() - start) % 4 != 0 {
        out.push(0);
    }
}

fn archive(files: &[(&str, &[u8])]) -> Vec<u8> {
    let mut out = Vec::new();
    for (name, data) in files {
        newc_entry(&mut out, name, data);
    }
    newc_entry(&mut out, "TRAILER!!!", b"");
    out
}

#[test]
fn modules_are_the_files_under_modules_dir() {
    let cpio = archive(&[
        ("modules/shell", b"\x7fELF-shell"),
        ("etc/motd", b"hello"),
        ("modules/net", b"\x7fELF-net!"),
        ("modules", b"not a module"),
    ]);
    let found = modules(&cpio);
    let names: Vec<&[u8]> = found.iter().map(|f| f.name.as_slice()).collect();
    assert_eq!(names, vec![&b"shell"[..], &b"net"[..]]);
    assert_eq!(found[0].data, b"\x7fELF-shell".to_vec());
    assert_eq!(found[1].data, b"\x7fELF-net!".to_vec());
}

#[test]
fn module_dir_entry_itself_has_empty_name() {
    let cpio = archive(&[("modules/", b"")]);
    let found = modules(&cpio);
    assert_eq!(found.len(), 1);
    assert!(found[0].name.is_empty());
}

#[test]
fn no_modules_in_empty_or_corrupt_ramdisk() {
    assert!(modules(&[]).is_empty());
    assert!(modules(b"garbage that is no cpio archive at all").is_empty());
    assert!(modules(&archive(&[("etc/motd", b"hi")])).is_empty());
}
