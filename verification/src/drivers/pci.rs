use vstd::prelude::*;

verus! {

/// I/O port to which the configuration address is written.
pub const CONFIG_ADDRESS_PORT: u16 = 0xCF8;

/// I/O port from which the addressed configuration dword is read.
pub const CONFIG_DATA_PORT: u16 = 0xCFC;

/// The vendor id that an empty slot or function reads as.
pub const NO_VENDOR: u32 = 0xFFFF;

/// Number of buses the scan walks through.
pub const PCI_BUSES: u16 = 256;

/// Number of slots per bus.
pub const PCI_SLOTS: u16 = 32;

/// Number of functions per slot.
pub const PCI_FUNCTIONS: u16 = 8;

/// A function found on the PCI bus.
#[allow(non_camel_case_types)]
#[derive(Debug, Clone, Copy, PartialEq, Eq, Structural)]
pub struct pci_device {
    pub vendor: u16,
    pub device: u16,
    pub class: u16,
    pub func: u16,
    pub subclass: u16,
}

/// The dword to write to `CONFIG_ADDRESS_PORT` to read the configuration word at
/// `offset` of function `func` in `slot` on `bus`: the enable bit, then bus,
/// slot, function and the dword-aligned register offset.
pub open spec fn config_address_spec(bus: u16, slot: u16, func: u16, offset: u16) -> u32 {
    (((bus as u32) << 16u32) | ((slot as u32) << 11u32) | ((func as u32) << 8u32) | ((offset as u32)
        & 0xFCu32)) | 0x8000_0000u32
}

/// The configuration word at `offset` within the dword read for it: the upper
/// half when bit 1 of the offset is set, the lower half otherwise.
pub open spec fn config_word_spec(dword: u32, offset: u16) -> u32 {
    if offset & 2 == 0 {
        dword & 0xffff
    } else {
        dword >> 16u32
    }
}

/// The address dword that selects a configuration register, as the PCI
/// configuration mechanism expects it on `CONFIG_ADDRESS_PORT`.
pub fn config_address(bus: u16, slot: u16, func: u16, offset: u16) -> (r: u32)
    ensures
        r == config_address_spec(bus, slot, func, offset),
{
    (((bus as u32) << 16u32) | ((slot as u32) << 11u32) | ((func as u32) << 8u32) | ((offset as u32)
        & 0xFCu32)) | 0x8000_0000u32
}

/// The 16-bit configuration word at `offset`, out of the dword that
/// `CONFIG_DATA_PORT` gave for the address of that offset.
pub fn config_word(dword: u32, offset: u16) -> (r: u32)
    ensures
        r == config_word_spec(dword, offset),
        r <= 0xffff,
{
    assert(offset & 2 <= 2) by (bit_vector);
    let shift: u32 = ((offset & 2) * 8) as u32;
    let r = (dword >> shift) & 0xffff;
    assert(r <= 0xffff) by (bit_vector)
        requires
            r == (dword >> shift) & 0xffff,
    ;
    assert(r == config_word_spec(dword, offset)) by (bit_vector)
        requires
            shift == ((offset & 2) * 8) as u32,
            r == (dword >> shift) & 0xffff,
    ;
    r
}

/// The configuration word at an offset is the upper 16 bits of its dword when
/// the offset is 2 past a multiple of 4 (or 3 past), and the lower 16 bits when
/// it is a multiple of 4 (or 1 past).
pub proof fn config_word_halves(dword: u32, offset: u16)
    ensures
        offset % 4 < 2 ==> config_word_spec(dword, offset) == dword % 0x1_0000,
        offset % 4 >= 2 ==> config_word_spec(dword, offset) == dword / 0x1_0000,
{
    assert((offset & 2 == 0) == (offset % 4 < 2)) by (bit_vector);
    assert(dword & 0xffff == dword % 0x1_0000) by (bit_vector);
    assert(dword >> 16u32 == dword / 0x1_0000) by (bit_vector);
}

/// The vendor id, from the dword read for offset 0.
pub fn get_vendor(dword: u32) -> (r: u32)
    ensures
        r == config_word_spec(dword, 0),
{
    config_word(dword, 0)
}

/// The device id, from the dword read for offset 2.
pub fn get_device(dword: u32) -> (r: u32)
    ensures
        r == config_word_spec(dword, 2),
{
    config_word(dword, 2)
}

/// The class code: the high byte of the word at offset 10.
pub fn get_class(dword: u32) -> (r: u32)
    ensures
        r == config_word_spec(dword, 10) / 256,
{
    let w = config_word(dword, 10);
    let r = (w & !0x00FFu32) >> 8u32;
    assert(r == w / 256) by (bit_vector)
        requires
            r == (w & !0x00FFu32) >> 8u32,
            w <= 0xffff,
    ;
    r
}

/// The subclass code: the low byte of the word at offset 10.
pub fn get_subclass(dword: u32) -> (r: u32)
    ensures
        r == config_word_spec(dword, 10) % 256,
{
    let w = config_word(dword, 10);
    let r = w & !0xFF00u32;
    assert(r == w % 256) by (bit_vector)
        requires
            r == w & !0xFF00u32,
            w <= 0xffff,
    ;
    r
}

/// For a bus, slot and function in range the address dword is the enable bit
/// plus each field at its place, and the class and subclass codes together
/// give back the word they were taken from.
pub proof fn config_layout(bus: u16, slot: u16, func: u16, offset: u16, dword: u32)
    requires
        bus < 256,
        slot < 32,
        func < 8,
    ensures
        config_address_spec(bus, slot, func, offset) == 0x8000_0000 + bus * 0x1_0000 + slot * 0x800
            + func * 0x100 + (offset % 256 - offset % 4),
        (config_word_spec(dword, offset) / 256) * 256 + config_word_spec(dword, offset) % 256
            == config_word_spec(dword, offset),
{
    let a = config_address_spec(bus, slot, func, offset);
    assert(a == 0x8000_0000u32 + (bus as u32) * 0x1_0000u32 + (slot as u32) * 0x800u32 + (func as u32)
        * 0x100u32 + ((offset as u32) % 256 - (offset as u32) % 4)) by (bit_vector)
        requires
            a == config_address_spec(bus, slot, func, offset),
            bus < 256,
            slot < 32,
            func < 8,
    ;
}

/// The register a scan stage reads.
#[derive(Debug, Clone, Copy, PartialEq, Eq, Structural)]
pub enum PciStage {
    /// The vendor id, at offset 0.
    Vendor,
    /// The device id, at offset 2.
    Device,
    /// The class code, at offset 10.
    Class,
    /// The subclass code, at offset 10.
    Subclass,
}

/// One configuration read that the scan asks for.
#[derive(Debug, Clone, Copy, PartialEq, Eq, Structural)]
pub struct PciConfigRead {
    pub bus: u16,
    pub slot: u16,
    pub func: u16,
    pub offset: u16,
}

/// The enumeration of every function of every slot of every bus, as a state
/// machine: it names the configuration read to make next, and from the dword
/// that read gave it moves on and reports each function that is present.
#[derive(Debug, Clone, Copy, PartialEq, Eq, Structural)]
pub struct PciScan {
    pub bus: u16,
    pub slot: u16,
    pub func: u16,
    pub stage: PciStage,
    pub vendor: u16,
    pub device: u16,
    pub class: u16,
}

/// The offset of the register that a stage reads.
pub open spec fn stage_offset(stage: PciStage) -> u16 {
    match stage {
        PciStage::Vendor => 0,
        PciStage::Device => 2,
        PciStage::Class => 10,
        PciStage::Subclass => 10,
    }
}

/// The rank of a stage within one function's reads.
pub open spec fn stage_rank(stage: PciStage) -> int {
    match stage {
        PciStage::Vendor => 0,
        PciStage::Device => 1,
        PciStage::Class => 2,
        PciStage::Subclass => 3,
    }
}

/// How many functions the scan walks through.
pub open spec fn function_count() -> int {
    65536int
}

/// The bus, slot and function of the function at `pos` in scan order.
pub open spec fn function_at(pos: int) -> (u16, u16, u16) {
    ((pos / 256) as u16, ((pos / 8) % 32) as u16, (pos % 8) as u16)
}

impl PciScan {
    /// The state is one the scan can reach.
    pub open spec fn wf(&self) -> bool {
        &&& self.bus <= 256
        &&& self.slot < 32
        &&& self.func < 8
        &&& self.bus == 256 ==> self.slot == 0 && self.func == 0 && self.stage == PciStage::Vendor
    }

    /// The place of the current function in scan order; `function_count()` once done.
    pub open spec fn position(&self) -> int {
        self.bus * 256 + self.slot * 8 + self.func
    }

    /// Every function has been examined.
    pub open spec fn finished(&self) -> bool {
        self.bus >= 256
    }

    /// The read the scan asks for in this state.
    pub open spec fn read_spec(&self) -> PciConfigRead {
        PciConfigRead {
            bus: self.bus,
            slot: self.slot,
            func: self.func,
            offset: stage_offset(self.stage),
        }
    }

    /// The state at the vendor read of the next function in scan order.
    pub open spec fn moved_on(&self) -> PciScan {
        let (bus, slot, func) = if self.func + 1 < 8 {
            (self.bus, self.slot, (self.func + 1) as u16)
        } else if self.slot + 1 < 32 {
            (self.bus, (self.slot + 1) as u16, 0u16)
        } else {
            ((self.bus + 1) as u16, 0u16, 0u16)
        };
        PciScan { bus, slot, func, stage: PciStage::Vendor, ..*self }
    }

    /// What the scan does with the dword that its read gave: the next state,
    /// and the function it reports, if any.
    pub open spec fn advance_spec(&self, dword: u32) -> (PciScan, Option<pci_device>) {
        match self.stage {
            PciStage::Vendor => {
                let vendor = config_word_spec(dword, 0);
                if vendor == NO_VENDOR {
                    (self.moved_on(), None)
                } else {
                    (PciScan { stage: PciStage::Device, vendor: vendor as u16, ..*self }, None)
                }
            },
            PciStage::Device => (
                PciScan {
                    stage: PciStage::Class,
                    device: config_word_spec(dword, 2) as u16,
                    ..*self
                },
                None,
            ),
            PciStage::Class => (
                PciScan {
                    stage: PciStage::Subclass,
                    class: (config_word_spec(dword, 10) / 256) as u16,
                    ..*self
                },
                None,
            ),
            PciStage::Subclass => (
                self.moved_on(),
                Some(
                    pci_device {
                        vendor: self.vendor,
                        device: self.device,
                        class: self.class,
                        func: self.func,
                        subclass: (config_word_spec(dword, 10) % 256) as u16,
                    },
                ),
            ),
        }
    }

    /// The read to make next, or `None` once every function has been examined.
    pub fn next_read(&self) -> (r: Option<PciConfigRead>)
        requires
            self.wf(),
        ensures
            self.finished() ==> r.is_none(),
            !self.finished() ==> r == Some(self.read_spec()),
    {
        if self.bus >= PCI_BUSES {
            None
        } else {
            let offset: u16 = match self.stage {
                PciStage::Vendor => 0,
                PciStage::Device => 2,
                PciStage::Class => 10,
                PciStage::Subclass => 10,
            };
            Some(PciConfigRead { bus: self.bus, slot: self.slot, func: self.func, offset })
        }
    }

    fn move_on(&mut self)
        requires
            old(self).wf(),
            !old(self).finished(),
        ensures
            *final(self) == old(self).moved_on(),
            final(self).wf(),
            final(self).position() == old(self).position() + 1,
    {
        if self.func + 1 < PCI_FUNCTIONS {
            self.func = self.func + 1;
        } else {
            self.func = 0;
            if self.slot + 1 < PCI_SLOTS {
                self.slot = self.slot + 1;
            } else {
                self.slot = 0;
                self.bus = self.bus + 1;
            }
        }
        self.stage = PciStage::Vendor;
    }

    /// Takes the dword that the requested read gave: a function whose vendor
    /// reads as `0xFFFF` is skipped; for any other the device id, class and
    /// subclass are read in turn, and after the last of them the function is
    /// reported and the scan moves on to the next one.
    pub fn advance(&mut self, dword: u32) -> (r: Option<pci_device>)
        requires
            old(self).wf(),
            !old(self).finished(),
        ensures
            (*final(self), r) == old(self).advance_spec(dword),
            final(self).wf(),
    {
        match self.stage {
            PciStage::Vendor => {
                let vendor = get_vendor(dword);
                if vendor == NO_VENDOR {
                    self.move_on();
                } else {
                    self.vendor = vendor as u16;
                    self.stage = PciStage::Device;
                }
                None
            },
            PciStage::Device => {
                self.device = get_device(dword) as u16;
                self.stage = PciStage::Class;
                None
            },
            PciStage::Class => {
                let class = get_class(dword);
                assert(class <= 0xff) by {
                    assert(config_word_spec(dword, 10) <= 0xffff) by (bit_vector);
                }
                self.class = class as u16;
                self.stage = PciStage::Subclass;
                None
            },
            PciStage::Subclass => {
                let subclass = get_subclass(dword);
                let found = pci_device {
                    vendor: self.vendor,
                    device: self.device,
                    class: self.class,
                    func: self.func,
                    subclass: subclass as u16,
                };
                self.move_on();
                Some(found)
            },
        }
    }
}

/// Starts the enumeration of the PCI functions: the first read is the vendor
/// id of function 0 in slot 0 on bus 0.
pub fn init() -> (r: PciScan)
    ensures
        r == (PciScan {
            bus: 0,
            slot: 0,
            func: 0,
            stage: PciStage::Vendor,
            vendor: 0,
            device: 0,
            class: 0,
        }),
        r.wf(),
        r.position() == 0,
{
    PciScan { bus: 0, slot: 0, func: 0, stage: PciStage::Vendor, vendor: 0, device: 0, class: 0 }
}

// ---------------------------------------------------------------------------
// The whole scan
// ---------------------------------------------------------------------------

/// The function that the configuration space `cfg` shows at `pos` in scan
/// order, if its vendor id is not `0xFFFF`; `cfg` gives the dword that each
/// configuration read returns.
pub open spec fn device_at(cfg: spec_fn(PciConfigRead) -> u32, pos: int) -> Option<pci_device> {
    let (bus, slot, func) = function_at(pos);
    let at = |offset: u16| cfg(PciConfigRead { bus, slot, func, offset });
    let vendor = config_word_spec(at(0), 0);
    if vendor == NO_VENDOR {
        None
    } else {
        Some(
            pci_device {
                vendor: vendor as u16,
                device: config_word_spec(at(2), 2) as u16,
                class: (config_word_spec(at(10), 10) / 256) as u16,
                func,
                subclass: (config_word_spec(at(10), 10) % 256) as u16,
            },
        )
    }
}

/// The one-element or empty sequence of an option.
pub open spec fn option_seq(d: Option<pci_device>) -> Seq<pci_device> {
    match d {
        Some(x) => seq![x],
        None => Seq::empty(),
    }
}

/// The functions present in `cfg` from position `pos` on, in scan order.
pub open spec fn present_devices(cfg: spec_fn(PciConfigRead) -> u32, pos: int) -> Seq<pci_device>
    decreases function_count() - pos,
{
    if pos < 0 || pos >= function_count() {
        Seq::empty()
    } else {
        option_seq(device_at(cfg, pos)) + present_devices(cfg, pos + 1)
    }
}

pub proof fn lemma_moved_on(s: PciScan)
    requires
        s.wf(),
        !s.finished(),
    ensures
        s.moved_on().wf(),
        s.moved_on().position() == s.position() + 1,
        s.moved_on().stage == PciStage::Vendor,
{
}

pub proof fn lemma_advance_decreases(s: PciScan, dword: u32)
    requires
        s.wf(),
        !s.finished(),
    ensures
        s.advance_spec(dword).0.wf(),
        4 * (function_count() - s.advance_spec(dword).0.position()) + 3 - stage_rank(
            s.advance_spec(dword).0.stage,
        ) < 4 * (function_count() - s.position()) + 3 - stage_rank(s.stage),
        s.advance_spec(dword).0.position() <= function_count(),
{
    lemma_moved_on(s);
}

/// The functions that the scan reports from state `s` on, when every read is
/// answered by `cfg`.
pub open spec fn scan_run(s: PciScan, cfg: spec_fn(PciConfigRead) -> u32) -> Seq<pci_device>
    decreases 4 * (function_count() - s.position()) + 3 - stage_rank(s.stage),
    when s.wf()
{
    if s.finished() {
        Seq::empty()
    } else {
        proof {
            lemma_advance_decreases(s, cfg(s.read_spec()));
        }
        let (t, found) = s.advance_spec(cfg(s.read_spec()));
        option_seq(found) + scan_run(t, cfg)
    }
}

proof fn lemma_position_fields(s: PciScan)
    requires
        s.wf(),
        !s.finished(),
    ensures
        function_at(s.position()) == (s.bus, s.slot, s.func),
{
}

proof fn lemma_run_from_function(s: PciScan, cfg: spec_fn(PciConfigRead) -> u32)
    requires
        s.wf(),
        s.stage == PciStage::Vendor,
    ensures
        scan_run(s, cfg) == present_devices(cfg, s.position()),
    decreases function_count() - s.position(),
{
    if s.finished() {
    } else {
        lemma_position_fields(s);
        lemma_moved_on(s);
        let s1 = s.advance_spec(cfg(s.read_spec())).0;
        lemma_advance_decreases(s, cfg(s.read_spec()));
        if config_word_spec(cfg(s.read_spec()), 0) == NO_VENDOR {
            assert(s1 == s.moved_on());
            lemma_run_from_function(s1, cfg);
            assert(option_seq(device_at(cfg, s.position())) =~= Seq::<pci_device>::empty());
            assert(scan_run(s, cfg) =~= Seq::<pci_device>::empty() + scan_run(s1, cfg));
        } else {
            let s2 = s1.advance_spec(cfg(s1.read_spec())).0;
            lemma_advance_decreases(s1, cfg(s1.read_spec()));
            let s3 = s2.advance_spec(cfg(s2.read_spec())).0;
            lemma_advance_decreases(s2, cfg(s2.read_spec()));
            let (s4, found) = s3.advance_spec(cfg(s3.read_spec()));
            lemma_advance_decreases(s3, cfg(s3.read_spec()));
            lemma_moved_on(s3);
            assert(s4 == s3.moved_on());
            assert(s4.position() == s.position() + 1);
            lemma_run_from_function(s4, cfg);
            assert(found == device_at(cfg, s.position()));
            assert(scan_run(s3, cfg) == option_seq(found) + scan_run(s4, cfg));
            assert(scan_run(s2, cfg) =~= Seq::<pci_device>::empty() + scan_run(s3, cfg));
            assert(scan_run(s1, cfg) =~= Seq::<pci_device>::empty() + scan_run(s2, cfg));
            assert(scan_run(s, cfg) =~= Seq::<pci_device>::empty() + scan_run(s1, cfg));
        }
    }
}

/// Answered by a configuration space `cfg`, the scan that `init` starts reports
/// exactly the functions whose vendor id is not `0xFFFF`, each once, in order
/// of bus, slot and function.
pub proof fn scan_reports_present_devices(cfg: spec_fn(PciConfigRead) -> u32)
    ensures
        scan_run(
            PciScan {
                bus: 0,
                slot: 0,
                func: 0,
                stage: PciStage::Vendor,
                vendor: 0,
                device: 0,
                class: 0,
            },
            cfg,
        ) == present_devices(cfg, 0),
{
    let s = PciScan {
        bus: 0,
        slot: 0,
        func: 0,
        stage: PciStage::Vendor,
        vendor: 0,
        device: 0,
        class: 0,
    };
    lemma_run_from_function(s, cfg);
}

} // verus!
