use pc_keyboard::layouts::Us104Key;
use pc_keyboard::{DecodedKey, Error, HandleControl, KeyCode, KeyEvent, PS2Keyboard, ScancodeSet1};
use vstd::prelude::*;

verus! {

/// Interrupt vector of the first line of the primary PIC.
pub const PIC_1_OFFSET: u8 = 32;

/// Interrupt vector of the first line of the secondary PIC.
pub const PIC_2_OFFSET: u8 = 40;

/// Hardware interrupts raised through the chained PICs, numbered from
/// `PIC_1_OFFSET` on.
#[derive(Debug, Clone, Copy, PartialEq, Eq, Structural)]
pub enum InterruptIndex {
    Timer,
    Keyboard,
}

impl InterruptIndex {
    /// The interrupt vector of this line.
    pub open spec fn vector(self) -> u8 {
        match self {
            InterruptIndex::Timer => PIC_1_OFFSET,
            InterruptIndex::Keyboard => (PIC_1_OFFSET + 1) as u8,
        }
    }

    /// The interrupt vector of this line as a byte.
    pub fn as_u8(self) -> (r: u8)
        ensures
            r == self.vector(),
    {
        match self {
            InterruptIndex::Timer => PIC_1_OFFSET,
            InterruptIndex::Keyboard => PIC_1_OFFSET + 1,
        }
    }

    /// The interrupt vector of this line as an index into the descriptor table.
    pub fn as_usize(self) -> (r: usize)
        ensures
            r == self.vector() as usize,
    {
        self.as_u8() as usize
    }
}

/// What the legacy `int 0x80` gate does for the value in `rbx`.
#[derive(Debug, Clone, Copy, PartialEq, Eq, Structural)]
pub enum SyscallGateAction {
    /// Leave the user address space: reload CR3 with the page table at this physical address.
    Exit { page_table: u64 },
    /// Nothing to do.
    Ignore,
}

/// Physical address of the page table that `int 0x80` with `rbx == 0` switches back to.
pub const EXIT_PAGE_TABLE: u64 = 0x2000;

/// Decides what the `int 0x80` handler does for the low half of `rbx`:
/// zero exits to the kernel's page table, every other value is ignored.
pub fn syscall(rbx: u32) -> (r: SyscallGateAction)
    ensures
        rbx == 0 ==> r == (SyscallGateAction::Exit { page_table: EXIT_PAGE_TABLE }),
        rbx != 0 ==> r == SyscallGateAction::Ignore,
{
    if rbx == 0 {
        SyscallGateAction::Exit { page_table: EXIT_PAGE_TABLE }
    } else {
        SyscallGateAction::Ignore
    }
}

// ---------------------------------------------------------------------------
// Keyboard
// ---------------------------------------------------------------------------

#[verifier::external_type_specification]
#[verifier::external_body]
pub struct ExKeyEvent(KeyEvent);

#[verifier::external_type_specification]
#[verifier::external_body]
pub struct ExKeyCode(KeyCode);

#[verifier::external_type_specification]
#[verifier::external_body]
pub struct ExKeyboardError(Error);

/// What a key press or release decodes to.
#[derive(Debug, Clone, Copy)]
pub enum KeyOutput {
    /// A character to print.
    Unicode(char),
    /// A key without a character, such as a modifier or a function key.
    RawKey(KeyCode),
}

/// `pc_keyboard`'s PS/2 decoder for the US 104-key layout and scancode set 1,
/// with control combinations not turned into control characters. Its state,
/// which depends on everything fed to it so far, is hidden from the proofs:
/// `PS2Keyboard` cannot be declared to Verus as a type of its own, since its
/// parameters carry bounds of `pc_keyboard`'s traits, so the struct that holds
/// it is opaque. What the proofs see of it is `ps2_calls`, the calls made on
/// it since it was created, with their answers.
#[verifier::external_body]
pub struct Ps2Decoder {
    keyboard: PS2Keyboard<Us104Key, ScancodeSet1>,
}

/// The calls made on a decoder since it was created, in order, each with what
/// it returned.
pub uninterp spec fn ps2_calls(decoder: Ps2Decoder) -> Seq<DecoderCall>;

impl Ps2Decoder {
    /// A decoder that has seen nothing yet, as
    /// `PS2Keyboard::new(ScancodeSet1::new(), Us104Key, HandleControl::Ignore)`
    /// makes it: no call has been made on it. Nothing more is stated of its
    /// state.
    #[verifier::external_body]
    fn fresh() -> (r: Self)
        ensures
            ps2_calls(r) == Seq::<DecoderCall>::empty(),
    {
        Ps2Decoder {
            keyboard: PS2Keyboard::new(ScancodeSet1::new(), Us104Key, HandleControl::Ignore),
        }
    }

    /// Feeds one scancode byte to the decoder with `PS2Keyboard::add_byte`; the
    /// call and its answer join the decoder's record. What the answer is
    /// depends on the bytes fed before, held in the decoder's state, so it is
    /// not stated.
    #[verifier::external_body]
    fn add_byte(&mut self, byte: u8) -> (r: Result<Option<KeyEvent>, Error>)
        ensures
            ps2_calls(*final(self)) == ps2_calls(*old(self)).push(
                DecoderCall::AddByte { byte, result: r },
            ),
    {
        self.keyboard.add_byte(byte)
    }

    /// Turns a key event into a key with `PS2Keyboard::process_keyevent`, which
    /// also tracks the modifier keys in the decoder's state; its `DecodedKey`
    /// is handed back as a `KeyOutput` with the same variant and field. The
    /// call and its answer join the decoder's record; which key comes out is
    /// not stated.
    #[verifier::external_body]
    fn process_keyevent(&mut self, event: KeyEvent) -> (r: Option<KeyOutput>)
        ensures
            ps2_calls(*final(self)) == ps2_calls(*old(self)).push(
                DecoderCall::ProcessKeyEvent { event, result: r },
            ),
    {
        match self.keyboard.process_keyevent(event) {
            Some(DecodedKey::Unicode(c)) => Some(KeyOutput::Unicode(c)),
            Some(DecodedKey::RawKey(k)) => Some(KeyOutput::RawKey(k)),
            None => None,
        }
    }
}

/// One call made on the keyboard decoder, with what it returned.
pub enum DecoderCall {
    /// A scancode byte was fed; the decoder answered `result`.
    AddByte { byte: u8, result: Result<Option<KeyEvent>, Error> },
    /// A key event was turned into a key; the decoder answered `result`.
    ProcessKeyEvent { event: KeyEvent, result: Option<KeyOutput> },
}

/// The keyboard's scancode decoder.
pub struct KeyboardDecoder {
    decoder: Ps2Decoder,
}

impl KeyboardDecoder {
    /// The calls made on the decoder so far, in order, with their results.
    pub closed spec fn calls(&self) -> Seq<DecoderCall> {
        ps2_calls(self.decoder)
    }

    /// A decoder that has seen nothing yet.
    pub fn new() -> (r: Self)
        ensures
            r.calls() == Seq::<DecoderCall>::empty(),
    {
        KeyboardDecoder { decoder: Ps2Decoder::fresh() }
    }

    /// Feeds one scancode byte to the decoder; the call and its answer are recorded.
    pub fn add_byte(&mut self, byte: u8) -> (r: Result<Option<KeyEvent>, Error>)
        ensures
            final(self).calls() == old(self).calls().push(DecoderCall::AddByte { byte, result: r }),
    {
        self.decoder.add_byte(byte)
    }

    /// Turns a key event into a key; the call and its answer are recorded.
    pub fn process_keyevent(&mut self, event: KeyEvent) -> (r: Option<KeyOutput>)
        ensures
            final(self).calls() == old(self).calls().push(
                DecoderCall::ProcessKeyEvent { event, result: r },
            ),
    {
        self.decoder.process_keyevent(event)
    }
}

/// The key event that the answer to a fed byte completes, if any: an error, or
/// a byte that completes no event, gives none.
pub open spec fn key_event_spec(added: Result<Option<KeyEvent>, Error>) -> Option<KeyEvent> {
    match added {
        Ok(Some(event)) => Some(event),
        _ => None,
    }
}

/// The key event that the answer to a fed byte completes, if any.
pub fn key_event_of(added: Result<Option<KeyEvent>, Error>) -> (r: Option<KeyEvent>)
    ensures
        r == key_event_spec(added),
{
    match added {
        Ok(Some(event)) => Some(event),
        _ => None,
    }
}

/// What the keyboard interrupt does.
#[derive(Debug, Clone, Copy)]
pub struct KeyboardInterrupt {
    /// The key to print, if the scancode completed one.
    pub output: Option<KeyOutput>,
    /// The interrupt line to acknowledge.
    pub end_of_interrupt: u8,
}

/// One keyboard interrupt for `scancode` took the decoder's record from
/// `before` to `after` and gives `output`: the scancode was fed; if the answer
/// completes a key event, that event was turned into a key and `output` is
/// what the decoder made of it; otherwise nothing more was asked of the
/// decoder and there is nothing to print.
pub open spec fn keyboard_interrupt_spec(
    before: Seq<DecoderCall>,
    after: Seq<DecoderCall>,
    scancode: u8,
    output: Option<KeyOutput>,
) -> bool {
    &&& after.len() > before.len()
    &&& after.take(before.len() as int) == before
    &&& after[before.len() as int] matches DecoderCall::AddByte { byte, result } && byte == scancode
        && match key_event_spec(result) {
        None => after.len() == before.len() + 1 && output is None,
        Some(event) => after.len() == before.len() + 2 && after[before.len() + 1int] == (
        DecoderCall::ProcessKeyEvent { event, result: output }),
    }
}

/// Handles the keyboard interrupt for the scancode read from the keyboard's
/// data port: the byte is fed to the decoder; when it completes a key event,
/// the event is turned into a key, which is to be printed; and the keyboard's
/// interrupt line is to be acknowledged in any case.
pub fn keyboard_interrupt_handler(decoder: &mut KeyboardDecoder, scancode: u8) -> (r:
    KeyboardInterrupt)
    ensures
        keyboard_interrupt_spec(old(decoder).calls(), final(decoder).calls(), scancode, r.output),
        r.end_of_interrupt == InterruptIndex::Keyboard.vector(),
{
    let ghost before = decoder.calls();
    let added = decoder.add_byte(scancode);
    let ghost answer = added;
    let ghost fed = decoder.calls();
    let output = match key_event_of(added) {
        Some(event) => decoder.process_keyevent(event),
        None => None,
    };
    proof {
        assert(decoder.calls().take(before.len() as int) =~= before);
        assert(fed[before.len() as int] == DecoderCall::AddByte { byte: scancode, result: answer });
    }
    KeyboardInterrupt { output, end_of_interrupt: InterruptIndex::Keyboard.as_u8() }
}

/// A keyboard interrupt feeds its scancode to the decoder first; when the
/// decoder answers with a completed key event, that event, and nothing else,
/// is turned into a key, and what is to be printed is exactly the decoder's
/// answer for it, whatever key it is; otherwise nothing is printed.
pub proof fn handler_output_is_decoder_answer(
    before: Seq<DecoderCall>,
    after: Seq<DecoderCall>,
    scancode: u8,
    output: Option<KeyOutput>,
)
    requires
        keyboard_interrupt_spec(before, after, scancode, output),
    ensures
        after.take(before.len() as int) == before,
        after[before.len() as int] is AddByte,
        after[before.len() as int]->AddByte_byte == scancode,
        (after[before.len() as int]->AddByte_result is Ok
            && after[before.len() as int]->AddByte_result->Ok_0 is Some) <==> after.len() == before.len() + 2,
        after.len() == before.len() + 2 ==> {
            &&& after[before.len() + 1int] is ProcessKeyEvent
            &&& after[before.len() + 1int]->ProcessKeyEvent_result == output
            &&& after[before.len() as int] == (DecoderCall::AddByte {
                byte: scancode,
                result: Ok(Some(after[before.len() + 1int]->ProcessKeyEvent_event)),
            })
        },
        after.len() != before.len() + 2 ==> after.len() == before.len() + 1 && output is None,
{
}

/// The two PICs occupy consecutive blocks of eight vectors, and the keyboard
/// line follows the timer line.
pub proof fn interrupt_vectors_layout()
    ensures
        PIC_2_OFFSET == PIC_1_OFFSET + 8,
        InterruptIndex::Timer.vector() == PIC_1_OFFSET,
        InterruptIndex::Keyboard.vector() == InterruptIndex::Timer.vector() + 1,
        InterruptIndex::Keyboard.vector() < PIC_2_OFFSET,
{
}

} // verus!
