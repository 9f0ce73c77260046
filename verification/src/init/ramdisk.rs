use vstd::prelude::*;

verus! {

/// A file of the ramdisk archive: its name, as UTF-8 bytes, and its contents.
#[derive(Debug, Clone)]
pub struct RamdiskFile {
    pub name: Vec<u8>,
    pub data: Vec<u8>,
}

/// The files that `cpio_reader::iter_files` yields for `archive`, in order,
/// each as its name's bytes and its contents.
pub uninterp spec fn cpio_files(archive: Seq<u8>) -> Seq<(Seq<u8>, Seq<u8>)>;

/// A file as a pair of name and contents.
pub open spec fn file_view(f: RamdiskFile) -> (Seq<u8>, Seq<u8>) {
    (f.name@, f.data@)
}

/// Reads the entries of a cpio archive with `cpio_reader::iter_files`, which
/// stops at the first corrupt header and leaves out the trailer entry, and
/// copies each entry's name (as UTF-8 bytes) and contents. The contract names
/// the outcome `cpio_files(archive)`; the archive format is not restated here.
#[verifier::external_body]
pub(crate) fn read_cpio(archive: &[u8]) -> (r: Vec<RamdiskFile>)
    ensures
        r@.map_values(|f: RamdiskFile| file_view(f)) == cpio_files(archive@),
{
    cpio_reader::iter_files(archive).map(|entry| RamdiskFile {
        name: entry.name().as_bytes().to_vec(),
        data: entry.file().to_vec(),
    }).collect()
}

/// The directory of the ramdisk whose files are modules to load: `modules/`.
pub open spec fn module_prefix() -> Seq<u8> {
    seq![0x6du8, 0x6fu8, 0x64u8, 0x75u8, 0x6cu8, 0x65u8, 0x73u8, 0x2fu8]
}

/// The name lies in the modules directory.
pub open spec fn is_module(name: Seq<u8>) -> bool {
    name.len() >= 8 && name.take(8) == module_prefix()
}

/// The modules among the files, in order, each named without the directory.
pub open spec fn modules_of(files: Seq<(Seq<u8>, Seq<u8>)>) -> Seq<(Seq<u8>, Seq<u8>)> {
    files.filter(|f: (Seq<u8>, Seq<u8>)| is_module(f.0)).map_values(
        |f: (Seq<u8>, Seq<u8>)| (f.0.skip(8), f.1),
    )
}

/// Whether `name` starts with `modules/`.
fn in_module_dir(name: &Vec<u8>) -> (r: bool)
    ensures
        r == is_module(name@),
{
    if name.len() < 8 {
        return false;
    }
    let prefix: [u8; 8] = [0x6d, 0x6f, 0x64, 0x75, 0x6c, 0x65, 0x73, 0x2f];
    assert(prefix@ =~= module_prefix());
    let mut i: usize = 0;
    while i < 8
        invariant
            name@.len() >= 8,
            prefix@ == module_prefix(),
            0 <= i <= 8,
            forall|j: int| 0 <= j < i ==> name@[j] == module_prefix()[j],
        decreases 8 - i,
    {
        if name[i] != prefix[i] {
            assert(name@.take(8)[i as int] != module_prefix()[i as int]);
            return false;
        }
        i = i + 1;
    }
    assert(name@.take(8) =~= module_prefix());
    true
}

/// The files of `files` in the modules directory, in order, each named by
/// what follows `modules/`.
pub fn select_modules(files: Vec<RamdiskFile>) -> (r: Vec<RamdiskFile>)
    ensures
        r@.map_values(|f: RamdiskFile| file_view(f)) == modules_of(
            files@.map_values(|f: RamdiskFile| file_view(f)),
        ),
{
    let ghost all = files@.map_values(|f: RamdiskFile| file_view(f));
    let ghost pred = |f: (Seq<u8>, Seq<u8>)| is_module(f.0);
    let ghost strip = |f: (Seq<u8>, Seq<u8>)| (f.0.skip(8), f.1);
    let mut r: Vec<RamdiskFile> = Vec::new();
    let mut i: usize = 0;
    while i < files.len()
        invariant
            0 <= i <= files@.len(),
            all == files@.map_values(|f: RamdiskFile| file_view(f)),
            pred == (|f: (Seq<u8>, Seq<u8>)| is_module(f.0)),
            strip == (|f: (Seq<u8>, Seq<u8>)| (f.0.skip(8), f.1)),
            r@.map_values(|f: RamdiskFile| file_view(f)) == all.take(i as int).filter(pred).map_values(
                strip,
            ),
        decreases files.len() - i,
    {
        proof {
            assert(all.take(i + 1).drop_last() =~= all.take(i as int));
            assert(all.take(i + 1).last() == file_view(files@[i as int]));
            reveal(Seq::filter);
        }
        let file = &files[i];
        if in_module_dir(&file.name) {
            let mut name: Vec<u8> = Vec::new();
            let mut k: usize = 8;
            while k < file.name.len()
                invariant
                    8 <= k <= file.name@.len(),
                    name@ == file.name@.subrange(8, k as int),
                decreases file.name.len() - k,
            {
                name.push(file.name[k]);
                k = k + 1;
                assert(name@ =~= file.name@.subrange(8, k as int));
            }
            let data = file.data.clone();
            let ghost before = r@;
            r.push(RamdiskFile { name, data });
            proof {
                assert(name@ =~= file.name@.skip(8));
                assert(r@.map_values(|f: RamdiskFile| file_view(f)) =~= before.map_values(
                    |f: RamdiskFile| file_view(f),
                ).push(strip(file_view(files@[i as int]))));
                assert(all.take(i + 1).filter(pred) == all.take(i as int).filter(pred).push(
                    file_view(files@[i as int]),
                ));
                assert(all.take(i + 1).filter(pred).map_values(strip) =~= all.take(i as int).filter(
                    pred,
                ).map_values(strip).push(strip(file_view(files@[i as int]))));
            }
        }
        i = i + 1;
    }
    assert(all.take(i as int) =~= all);
    r
}

/// The modules of a ramdisk cpio archive: its files under `modules/`, in
/// archive order, each named by what follows `modules/`.
pub fn modules(ramdisk: &[u8]) -> (r: Vec<RamdiskFile>)
    ensures
        r@.map_values(|f: RamdiskFile| file_view(f)) == modules_of(cpio_files(ramdisk@)),
{
    let files = read_cpio(ramdisk);
    select_modules(files)
}

} // verus!
