//! HP-IL physical layer: tri-state samples, the rolling sample history,
//! bit/frame recognition, and the decoded 11-bit protocol message.
//!
//! The loop's electrical signal is a differential over two conductors and
//! takes one of three levels. Bits are encoded by short fixed sequences of
//! those levels (the first bit of a frame by a longer, synchronization-bearing
//! sequence). The decoder here is driven one sample at a time by the caller
//! and tolerates oversampling up to the history's sixteen-sample capacity.

use vstd::prelude::*;

verus! {

/// One classified signal level on the loop: zero, positive or negative
/// differential.
#[derive(Debug, Clone, Copy, PartialEq, Eq, Structural)]
pub enum PhySample {
    Zero,
    Pos,
    Neg,
}

/// The two-bit code a sample occupies in the packed history. Zero is avoided
/// so that an empty slot can be told from any sample.
pub open spec fn sample_code(s: PhySample) -> u32 {
    match s {
        PhySample::Zero => 3,
        PhySample::Pos => 1,
        PhySample::Neg => 2,
    }
}

/// Which two-bit codes stand for a sample.
pub open spec fn code_valid(c: u32) -> bool {
    1 <= c <= 3
}

/// The sample a two-bit code stands for.
pub open spec fn sample_of_code(c: u32) -> PhySample {
    if c == 1 {
        PhySample::Pos
    } else if c == 2 {
        PhySample::Neg
    } else {
        PhySample::Zero
    }
}

/// The two-bit field of `packed` that starts at bit `pos`.
pub open spec fn code_at(packed: u32, pos: u32) -> u32 {
    (packed >> pos) & 3
}

impl PhySample {
    /// The sample's two-bit code, as stored in the packed history.
    pub fn as_bits(self) -> (b: u8)
        ensures
            b as u32 == sample_code(self),
    {
        match self {
            PhySample::Zero => 0b11,
            PhySample::Pos => 0b01,
            PhySample::Neg => 0b10,
        }
    }

    /// The sample a two-bit code stands for; `None` on the empty code or on
    /// anything wider than two bits.
    pub fn from_bits(b: u8) -> (r: Option<PhySample>)
        ensures
            r == (if code_valid(b as u32) {
                Some(sample_of_code(b as u32))
            } else {
                None::<PhySample>
            }),
    {
        match b {
            0b11 => Some(PhySample::Zero),
            0b01 => Some(PhySample::Pos),
            0b10 => Some(PhySample::Neg),
            _ => None,
        }
    }
}

/// The rolling history of the most recent tri-state samples.
///
/// Up to sixteen samples are kept, each in a two-bit slot of one 32-bit
/// register; a push at full capacity evicts the oldest sample. Newer samples
/// sit in higher bits; `packed_sample_offs` counts the filled bits (twice the
/// number of samples) and is always even.
#[derive(Debug, Clone, Copy, PartialEq, Eq, Structural)]
pub struct PhyBitDecoder {
    packed_samples: u32,
    packed_sample_offs: u8,
}

impl Default for PhyBitDecoder {
    /// An empty history.
    fn default() -> (d: PhyBitDecoder)
        ensures
            d.wf(),
            d@ == Seq::<PhySample>::empty(),
    {
        PhyBitDecoder::new()
    }
}

impl View for PhyBitDecoder {
    type V = Seq<PhySample>;

    /// The held samples, oldest to newest.
    closed spec fn view(&self) -> Seq<PhySample> {
        Seq::new(
            (self.packed_sample_offs as int / 2) as nat,
            |i: int| sample_of_code(self.spec_code_at(i)),
        )
    }
}

/// How a push changes the held sequence: appended at the newest end, with the
/// oldest sample evicted first when the history is full.
pub open spec fn push_view(h: Seq<PhySample>, s: PhySample) -> Seq<PhySample> {
    if h.len() < 16 {
        h.push(s)
    } else {
        h.skip(1).push(s)
    }
}

impl PhyBitDecoder {
    /// The two-bit code of the sample at index `i` (oldest first).
    closed spec fn spec_code_at(self, i: int) -> u32 {
        code_at(self.packed_samples, ((32 - self.packed_sample_offs as int) + 2 * i) as u32)
    }

    /// The history's internal invariant: the fill offset is even and at most
    /// 32, and every filled slot holds a sample code.
    pub closed spec fn wf(self) -> bool {
        &&& self.packed_sample_offs <= 32
        &&& self.packed_sample_offs as int % 2 == 0
        &&& forall|i: int|
            0 <= i < self@.len() ==> code_valid(#[trigger] self.spec_code_at(i))
    }

    /// An empty history.
    pub fn new() -> (d: PhyBitDecoder)
        ensures
            d.wf(),
            d@ == Seq::<PhySample>::empty(),
    {
        let d = PhyBitDecoder { packed_samples: 0, packed_sample_offs: 0 };
        proof {
            assert(d@ =~= Seq::<PhySample>::empty());
        }
        d
    }

    /// Push a new sample into the history, evicting the oldest sample first
    /// if all sixteen slots are filled.
    pub fn push(&mut self, sample: PhySample)
        requires
            old(self).wf(),
        ensures
            final(self).wf(),
            final(self)@ == push_view(old(self)@, sample),
    {
        let ghost h0 = self@;
        let ghost p0 = self.packed_samples;

        if self.packed_sample_offs == 32 {
            // The register is full: the shift below drops the oldest sample.
            self.packed_sample_offs -= 2;
        }
        let ghost off_a = self.packed_sample_offs;

        let code = sample.as_bits() as u32;
        self.packed_samples = self.packed_samples >> 2;
        self.packed_samples = self.packed_samples | (code << 30);
        self.packed_sample_offs += 2;

        proof {
            let p1 = self.packed_samples;
            let off1 = self.packed_sample_offs;
            assert(off1 == off_a + 2);
            let n1 = off1 as int / 2;
            assert forall|i: int| 0 <= i < n1 - 1 implies #[trigger] self.spec_code_at(i)
                == code_at(p0, ((32 - off_a as int) + 2 * i) as u32) by {
                let pos: u32 = ((32 - off1 as int) + 2 * i) as u32;
                let pos2: u32 = ((32 - off_a as int) + 2 * i) as u32;
                assert(pos <= 28 && pos2 == pos + 2);
                lemma_push_slot_old(p0, code as u32, pos, pos2);
            }
            assert(self.spec_code_at(n1 - 1) == code as u32) by {
                assert(((32 - off1 as int) + 2 * (n1 - 1)) as u32 == 30u32);
                lemma_push_slot_new(p0, code as u32);
            }
            assert(sample_of_code(code as u32) == sample) by {
                assert(code as u32 == sample_code(sample));
            }
            if h0.len() < 16 {
                assert(off_a == old(self).packed_sample_offs);
                assert forall|i: int| 0 <= i < n1 - 1 implies old(self).spec_code_at(i)
                    == #[trigger] self.spec_code_at(i) by {}
                assert(self@ =~= h0.push(sample));
            } else {
                assert(off_a == 30 && old(self).packed_sample_offs == 32);
                assert forall|i: int| 0 <= i < n1 - 1 implies old(self).spec_code_at(i + 1)
                    == #[trigger] self.spec_code_at(i) by {}
                assert(self@ =~= h0.skip(1).push(sample));
            }
            assert(final(self)@ == push_view(h0, sample));
        }
    }

    /// The sample at index `i`, counting from the oldest.
    fn sample_at(&self, i: usize) -> (s: PhySample)
        requires
            self.wf(),
            i < self@.len(),
        ensures
            s == self@[i as int],
    {
        let pos: u32 = 32 - self.packed_sample_offs as u32 + 2 * (i as u32);
        let code: u32 = (self.packed_samples >> pos) & 3;
        proof {
            assert(pos == ((32 - self.packed_sample_offs as int) + 2 * (i as int)) as u32);
            assert(code == self.spec_code_at(i as int));
            assert(code_valid(self.spec_code_at(i as int)));
        }
        if code == 1 {
            PhySample::Pos
        } else if code == 2 {
            PhySample::Neg
        } else {
            PhySample::Zero
        }
    }

    /// A replayable walk over the held samples, oldest to newest, reflecting
    /// the history as it stands now.
    pub fn samples(&self) -> (it: PhySampleIter<'_>)
        requires
            self.wf(),
        ensures
            it.wf(),
            it.decoder() == *self,
            it.index() == 0,
    {
        PhySampleIter { p: self, sample_offs: 0 }
    }

    /// The history's sequence of true signal transitions: consecutive equal
    /// samples collapsed to one, oldest to newest.
    fn collapsed(&self) -> (c: Vec<PhySample>)
        requires
            self.wf(),
        ensures
            c@ == collapse(self@),
    {
        let mut c: Vec<PhySample> = Vec::new();
        let n = (self.packed_sample_offs / 2) as usize;
        proof {
            assert(n == self@.len());
            assert(self@.take(0) =~= Seq::<PhySample>::empty());
        }
        let mut i: usize = 0;
        while i < n
            invariant
                self.wf(),
                n == self@.len(),
                i <= n,
                c@ == collapse(self@.take(i as int)),
            decreases n - i,
        {
            let s = self.sample_at(i);
            let ghost taken = self@.take(i as int);
            proof {
                assert(self@.take(i as int + 1) =~= taken.push(self@[i as int]));
            }
            if c.len() == 0 {
                proof {
                    // An empty collapse means no samples yet, so this is the
                    // first sample.
                    if taken.len() > 0 {
                        lemma_collapse_last(taken);
                    }
                    assert(taken.len() == 0);
                    assert(taken =~= Seq::<PhySample>::empty());
                    assert(collapse(taken.push(self@[i as int])) == taken.push(self@[i as int]));
                }
                c.push(s);
                proof {
                    assert(c@ =~= taken.push(self@[i as int]));
                }
            } else {
                let last = c[c.len() - 1];
                proof {
                    lemma_collapse_last(taken);
                    assert(last == taken.last());
                }
                if last == s {
                    proof {
                        lemma_collapse_push_equal(taken, self@[i as int]);
                    }
                } else {
                    proof {
                        lemma_collapse_push_other(taken, self@[i as int]);
                    }
                    c.push(s);
                }
            }
            i = i + 1;
        }
        proof {
            assert(self@.take(n as int) =~= self@);
        }
        c
    }

    /// Inspect the newest samples for one of the four bit patterns.
    ///
    /// Returns `(found, bit, sync)`: whether a pattern ends at the newest
    /// sample and, if so, the bit value it encodes and whether it carries the
    /// synchronization marker. `bit` and `sync` are meaningful only when
    /// `found` holds.
    pub fn decode_suffix(&self) -> (r: (bool, bool, bool))
        requires
            self.wf(),
        ensures
            r.0 == recognized(self@),
            r.0 ==> r.1 == rec_bit(self@) && r.2 == rec_sync(self@),
    {
        let c = self.collapsed();
        let m = c.len();
        if m >= 3 {
            let newest = c[m - 1];
            let second = c[m - 2];
            let third = c[m - 3];
            if newest == PhySample::Zero && second == PhySample::Neg && third == PhySample::Pos {
                let sync = m >= 5 && c[m - 4] == PhySample::Neg && c[m - 5] == PhySample::Pos;
                return (true, true, sync);
            }
            if newest == PhySample::Zero && second == PhySample::Pos && third == PhySample::Neg {
                let sync = m >= 5 && c[m - 4] == PhySample::Pos && c[m - 5] == PhySample::Neg;
                return (true, false, sync);
            }
        }
        (false, false, false)
    }
}

/// The sequence of true signal transitions behind a sample sequence: runs of
/// equal consecutive samples collapsed to one. Oversampling only lengthens
/// runs, so pattern recognition matches against this sequence.
pub open spec fn collapse(s: Seq<PhySample>) -> Seq<PhySample>
    decreases s.len(),
{
    if s.len() <= 1 {
        s
    } else if s[s.len() - 1] == s[s.len() - 2] {
        collapse(s.drop_last())
    } else {
        collapse(s.drop_last()).push(s.last())
    }
}

/// A collapsed nonempty sequence is nonempty and ends with the same sample.
proof fn lemma_collapse_last(s: Seq<PhySample>)
    requires
        s.len() > 0,
    ensures
        collapse(s).len() > 0,
        collapse(s).last() == s.last(),
    decreases s.len(),
{
    if s.len() > 1 && s[s.len() - 1] == s[s.len() - 2] {
        lemma_collapse_last(s.drop_last());
    }
}

/// Appending a repeat of the last sample leaves the collapsed sequence as it
/// was.
proof fn lemma_collapse_push_equal(s: Seq<PhySample>, x: PhySample)
    requires
        s.len() > 0,
        s.last() == x,
    ensures
        collapse(s.push(x)) == collapse(s),
{
    assert(s.push(x).drop_last() =~= s);
}

/// Appending a sample different from the last extends the collapsed sequence
/// by that sample.
proof fn lemma_collapse_push_other(s: Seq<PhySample>, x: PhySample)
    requires
        s.len() > 0,
        s.last() != x,
    ensures
        collapse(s.push(x)) == collapse(s).push(x),
{
    assert(s.push(x).drop_last() =~= s);
}

/// The transitions end in a bit-one pattern: a positive pulse, a negative
/// pulse, then the line at zero.
pub open spec fn bit_one_suffix(c: Seq<PhySample>) -> bool {
    &&& c.len() >= 3
    &&& c[c.len() - 1] == PhySample::Zero
    &&& c[c.len() - 2] == PhySample::Neg
    &&& c[c.len() - 3] == PhySample::Pos
}

/// The transitions end in a bit-zero pattern: a negative pulse, a positive
/// pulse, then the line at zero.
pub open spec fn bit_zero_suffix(c: Seq<PhySample>) -> bool {
    &&& c.len() >= 3
    &&& c[c.len() - 1] == PhySample::Zero
    &&& c[c.len() - 2] == PhySample::Pos
    &&& c[c.len() - 3] == PhySample::Neg
}

/// The transitions end in the synchronization-bearing bit-one pattern:
/// positive, negative, positive, negative, then the line at zero.
pub open spec fn sync_one_suffix(c: Seq<PhySample>) -> bool {
    &&& c.len() >= 5
    &&& bit_one_suffix(c)
    &&& c[c.len() - 4] == PhySample::Neg
    &&& c[c.len() - 5] == PhySample::Pos
}

/// The transitions end in the synchronization-bearing bit-zero pattern:
/// negative, positive, negative, positive, then the line at zero.
pub open spec fn sync_zero_suffix(c: Seq<PhySample>) -> bool {
    &&& c.len() >= 5
    &&& bit_zero_suffix(c)
    &&& c[c.len() - 4] == PhySample::Pos
    &&& c[c.len() - 5] == PhySample::Neg
}

/// Whether the newest samples of history `h` spell a complete bit pattern.
pub open spec fn recognized(h: Seq<PhySample>) -> bool {
    bit_one_suffix(collapse(h)) || bit_zero_suffix(collapse(h))
}

/// The value of the recognized bit (meaningful only when `recognized`).
pub open spec fn rec_bit(h: Seq<PhySample>) -> bool {
    bit_one_suffix(collapse(h))
}

/// Whether the recognized pattern carries the synchronization marker that
/// opens a new frame.
pub open spec fn rec_sync(h: Seq<PhySample>) -> bool {
    sync_one_suffix(collapse(h)) || sync_zero_suffix(collapse(h))
}

/// A walk over a sample history's contents, oldest to newest.
pub struct PhySampleIter<'a> {
    p: &'a PhyBitDecoder,
    sample_offs: u8,
}

impl<'a> PhySampleIter<'a> {
    /// The history being walked.
    pub closed spec fn decoder(self) -> PhyBitDecoder {
        *self.p
    }

    /// How many samples the walk has yielded so far.
    pub closed spec fn index(self) -> int {
        self.sample_offs as int / 2
    }

    /// The walk's invariant: the history is well formed and the position
    /// lies within it.
    pub closed spec fn wf(self) -> bool {
        &&& self.p.wf()
        &&& self.sample_offs as int % 2 == 0
        &&& self.sample_offs <= self.p.packed_sample_offs
    }

    /// The next sample, oldest first, or `None` once every held sample has
    /// been yielded.
    pub fn next(&mut self) -> (r: Option<PhySample>)
        requires
            old(self).wf(),
        ensures
            final(self).wf(),
            final(self).decoder() == old(self).decoder(),
            old(self).index() < old(self).decoder()@.len() ==> r == Some(
                old(self).decoder()@[old(self).index()],
            ) && final(self).index() == old(self).index() + 1,
            old(self).index() >= old(self).decoder()@.len() ==> r == None::<PhySample>
                && *final(self) == *old(self),
    {
        if self.sample_offs == self.p.packed_sample_offs {
            None
        } else {
            let i = (self.sample_offs / 2) as usize;
            let s = self.p.sample_at(i);
            self.sample_offs = self.sample_offs + 2;
            Some(s)
        }
    }
}

/// The major class a message's control field selects.
#[derive(Debug, Clone, Copy, PartialEq, Eq, Structural)]
pub enum MessageClass {
    /// "DOE"
    DataOrEnd,
    /// "CMD"
    Command,
    /// "RDY"
    Ready,
    /// "IDY"
    Identify,
    /// A control field value the protocol leaves unassigned.
    Unassigned,
}

/// A few named message types, told apart by the full frame value. The full
/// dispatch table of the protocol is a profile concern outside this core.
#[derive(Debug, Clone, Copy, PartialEq, Eq, Structural)]
pub enum MessageType {
    /// "RFC"
    ///
    /// `100_10010000`
    ReadyForCommand,
    /// Sent by a controller; any previously active listener becomes
    /// inactive.
    ///
    /// `100_00111111`
    Unlisten,
    /// "SDA"
    ///
    /// `101_01100000`
    SendDataReady,
}

/// The three-bit control field (synchronization bit and two control bits) of
/// an 11-bit frame value.
pub open spec fn message_control(raw: u16) -> u8 {
    ((raw >> 8) & 7) as u8
}

/// The eight-bit data payload of an 11-bit frame value.
pub open spec fn message_data(raw: u16) -> u8 {
    (raw & 0xff) as u8
}

/// The message class a control field value selects; values the protocol does
/// not assign map to `Unassigned`.
pub open spec fn message_class(raw: u16) -> MessageClass {
    let c = message_control(raw);
    if c == 0 || c == 1 {
        MessageClass::DataOrEnd
    } else if c == 4 {
        MessageClass::Command
    } else if c == 5 {
        MessageClass::Ready
    } else if c == 6 || c == 7 {
        MessageClass::Identify
    } else {
        MessageClass::Unassigned
    }
}

/// The named message type of a frame value, for the three types this core
/// names.
pub open spec fn spec_message_type(raw: u16) -> Option<MessageType> {
    if raw == 0b100_10010000 {
        Some(MessageType::ReadyForCommand)
    } else if raw == 0b100_00111111 {
        Some(MessageType::Unlisten)
    } else if raw == 0b101_01100000 {
        Some(MessageType::SendDataReady)
    } else {
        None
    }
}

/// One decoded frame: 11 bits of on-bus data. Bit 10 is the synchronization
/// marker, bits 9 and 8 the control bits, bits 7 to 0 the data payload.
#[derive(Debug, Clone, Copy, PartialEq, Eq, Structural)]
pub struct Message {
    raw: u16,
}

impl View for Message {
    type V = u16;

    /// The raw 11-bit frame value.
    closed spec fn view(&self) -> u16 {
        self.raw
    }
}

impl Message {
    /// A message holds only its 11 frame bits.
    pub closed spec fn wf(self) -> bool {
        self.raw < 0x800
    }

    /// A message from a raw frame value; anything above the 11-bit width is
    /// discarded.
    pub fn new(raw: u16) -> (m: Message)
        ensures
            m@ == raw & 0x7ff,
            m.wf(),
    {
        proof {
            assert(raw & 0x7ff < 0x800) by (bit_vector);
        }
        Message { raw: raw & 0x7ff }
    }

    /// The raw 11-bit frame value.
    pub fn raw_value(&self) -> (r: u16)
        ensures
            r == self@,
    {
        self.raw
    }

    /// The three-bit control field, synchronization bit included.
    pub fn control(&self) -> (r: u8)
        ensures
            r == message_control(self@),
    {
        let r = ((self.raw & (0b111 << 8)) >> 8) as u8;
        proof {
            let raw = self.raw;
            assert(((raw & (0b111u16 << 8)) >> 8) as u8 == ((raw >> 8) & 7) as u8) by (bit_vector);
        }
        r
    }

    /// The eight-bit data payload; its meaning depends on the message class.
    pub fn data(&self) -> (r: u8)
        ensures
            r == message_data(self@),
    {
        let r = self.raw as u8;
        proof {
            let raw = self.raw;
            assert(raw as u8 == (raw & 0xff) as u8) by (bit_vector);
        }
        r
    }

    /// The message class the control field selects.
    pub fn class(&self) -> (r: MessageClass)
        ensures
            r == message_class(self@),
    {
        let c = self.control();
        if c == 0 || c == 1 {
            MessageClass::DataOrEnd
        } else if c == 4 {
            MessageClass::Command
        } else if c == 5 {
            MessageClass::Ready
        } else if c == 6 || c == 7 {
            MessageClass::Identify
        } else {
            MessageClass::Unassigned
        }
    }

    /// The named message type, for the three types this core names; `None`
    /// for every other frame value.
    pub fn message_type(&self) -> (r: Option<MessageType>)
        ensures
            r == spec_message_type(self@),
    {
        if self.raw == 0b100_10010000 {
            Some(MessageType::ReadyForCommand)
        } else if self.raw == 0b100_00111111 {
            Some(MessageType::Unlisten)
        } else if self.raw == 0b101_01100000 {
            Some(MessageType::SendDataReady)
        } else {
            None
        }
    }
}

/// The bit `bit` as a frame-register value at position `k`.
pub open spec fn bit_shifted(bit: bool, k: u16) -> u16 {
    if bit {
        1u16 << k
    } else {
        0u16
    }
}

/// One step of the framing state machine on a recognized bit.
///
/// The state is the next bit offset (0 to 10) and the frame bits accumulated
/// so far; a received bit at offset `k` lands at register position `10 - k`,
/// so the first bit of a frame is bit 10, the synchronization marker. The
/// result is the next state and, when the eleventh bit completes a frame,
/// that frame's value.
///
/// A synchronization-bearing bit always restarts framing, discarding any
/// incomplete frame; a plain bit with no frame in progress is discarded.
pub open spec fn frame_advance(offs: u8, bits: u16, bit: bool, sync: bool) -> (u8, u16, Option<
    u16,
>) {
    if sync {
        (1u8, bit_shifted(bit, 10), None)
    } else if offs == 0 {
        (0u8, bits, None)
    } else if offs < 10 {
        ((offs + 1) as u8, bits | bit_shifted(bit, (10 - offs) as u16), None)
    } else {
        (0u8, 0u16, Some(bits | bit_shifted(bit, 0)))
    }
}

/// Decoding of a sampled signal stream into 11-bit protocol messages.
///
/// The caller is presumed to poll the loop about every 0.5 microseconds —
/// twice the nominal 1 microsecond pulse width — though polling at exactly
/// the nominal rate, or faster up to the history's capacity, also works; no
/// signal edge may be missed. Each pushed sample is scanned for a completed
/// bit pattern; recognized bits are framed into messages of eleven bits.
#[derive(Debug, Clone, Copy, PartialEq, Eq, Structural)]
pub struct PollPhy {
    bit_decode: PhyBitDecoder,
    // next frame bit to be filled in
    message_bit_offs: u8,
    // accumulated frame bits; when nonzero, a synchronization bit has been
    // received and framing is in progress
    message_bits: u16,
    // a completed frame awaiting collection
    pending: Option<u16>,
}

impl Default for PollPhy {
    /// A fresh framer with an empty history and no frame in progress.
    fn default() -> (p: PollPhy)
        ensures
            p.wf(),
            p.history() == Seq::<PhySample>::empty(),
            p.frame_offs() == 0,
            p.frame_bits() == 0,
            p.pending_frame() is None,
    {
        PollPhy::new()
    }
}

impl PollPhy {
    /// The sample history awaiting recognition, oldest to newest.
    pub closed spec fn history(self) -> Seq<PhySample> {
        self.bit_decode@
    }

    /// The next frame bit offset to be filled in.
    pub closed spec fn frame_offs(self) -> u8 {
        self.message_bit_offs
    }

    /// The frame bits accumulated so far.
    pub closed spec fn frame_bits(self) -> u16 {
        self.message_bits
    }

    /// The completed frame awaiting collection, if any.
    pub closed spec fn pending_frame(self) -> Option<u16> {
        self.pending
    }

    /// The framer's invariant: the history is well formed, the bit offset
    /// never exceeds ten (a filled eleventh bit completes a frame at once),
    /// accumulated and completed values fit in eleven bits, and a nonzero
    /// accumulator implies framing is in progress.
    pub closed spec fn wf(self) -> bool {
        &&& self.bit_decode.wf()
        &&& self.message_bit_offs <= 10
        &&& self.message_bits < 0x800
        &&& self.message_bit_offs == 0 ==> self.message_bits == 0
        &&& match self.pending {
            Some(v) => v < 0x800,
            None => true,
        }
    }

    /// A fresh framer with an empty history and no frame in progress.
    pub fn new() -> (p: PollPhy)
        ensures
            p.wf(),
            p.history() == Seq::<PhySample>::empty(),
            p.frame_offs() == 0,
            p.frame_bits() == 0,
            p.pending_frame() is None,
    {
        PollPhy {
            bit_decode: PhyBitDecoder::new(),
            message_bit_offs: 0,
            message_bits: 0,
            pending: None,
        }
    }

    /// Scan the sample history for a completed bit pattern and, when one is
    /// found, consume the history and feed the bit to the framing machine.
    ///
    /// Returns whether a bit was recognized. A frame completed by this bit is
    /// held for `take_message`, displacing any frame still uncollected.
    pub fn check_seq(&mut self) -> (r: bool)
        requires
            old(self).wf(),
        ensures
            final(self).wf(),
            r == recognized(old(self).history()),
            !r ==> *final(self) == *old(self),
            r ==> ({
                let (offs2, bits2, completed) = frame_advance(
                    old(self).frame_offs(),
                    old(self).frame_bits(),
                    rec_bit(old(self).history()),
                    rec_sync(old(self).history()),
                );
                &&& final(self).history() == Seq::<PhySample>::empty()
                &&& final(self).frame_offs() == offs2
                &&& final(self).frame_bits() == bits2
                &&& final(self).pending_frame() == (if completed is Some {
                    completed
                } else {
                    old(self).pending_frame()
                })
            }),
    {
        let (found, bit, sync) = self.bit_decode.decode_suffix();
        if !found {
            return false;
        }
        self.bit_decode = PhyBitDecoder::new();
        let b: u16 = if bit {
            1
        } else {
            0
        };
        if sync {
            let started = b << 10u16;
            proof {
                assert(0u16 << 10u16 == 0 && 1u16 << 10u16 == 0x400) by (bit_vector);
            }
            self.message_bits = started;
            self.message_bit_offs = 1;
        } else if self.message_bit_offs == 0 {
            // No frame in progress: a plain bit before any synchronization
            // bit is discarded.
        } else if self.message_bit_offs < 10 {
            let sh = 10 - self.message_bit_offs as u16;
            let placed = b << sh;
            proof {
                let bits = self.message_bits;
                assert(bits < 0x800 && 1 <= sh <= 9 ==> (bits | (0u16 << sh)) == bits && (bits | (
                1u16 << sh)) < 0x800 && (bits | 0u16) == bits) by (bit_vector);
            }
            self.message_bits = self.message_bits | placed;
            self.message_bit_offs = self.message_bit_offs + 1;
        } else {
            // The eleventh bit: the frame is complete.
            proof {
                let bits = self.message_bits;
                assert(1u16 << 0u16 == 1) by (bit_vector);
                assert(bits < 0x800 ==> (bits | 0u16) == bits && (bits | 1u16) < 0x800)
                    by (bit_vector);
            }
            self.pending = Some(self.message_bits | b);
            self.message_bits = 0;
            self.message_bit_offs = 0;
        }
        true
    }

    /// Collect the completed frame recognized by earlier scans, if one is
    /// waiting. The rest of the framer's state is untouched.
    pub fn take_message(&mut self) -> (r: Option<Message>)
        requires
            old(self).wf(),
        ensures
            final(self).wf(),
            final(self).pending_frame() is None,
            final(self).history() == old(self).history(),
            final(self).frame_offs() == old(self).frame_offs(),
            final(self).frame_bits() == old(self).frame_bits(),
            match (r, old(self).pending_frame()) {
                (Some(m), Some(raw)) => m@ == raw && m.wf(),
                (None, None) => true,
                _ => false,
            },
    {
        let p = self.pending;
        self.pending = None;
        match p {
            Some(raw) => {
                proof {
                    assert(raw < 0x800 ==> raw & 0x7ff == raw) by (bit_vector);
                }
                Some(Message::new(raw))
            },
            None => None,
        }
    }

    /// Feed one sample: push it into the history, scan for a completed bit
    /// pattern, and return the completed message when the bit was a frame's
    /// eleventh (or one still waiting from an earlier scan).
    pub fn push_sample(&mut self, sample: PhySample) -> (r: Option<Message>)
        requires
            old(self).wf(),
        ensures
            final(self).wf(),
            final(self).pending_frame() is None,
            ({
                let pushed = push_view(old(self).history(), sample);
                let (offs2, bits2, completed) = frame_advance(
                    old(self).frame_offs(),
                    old(self).frame_bits(),
                    rec_bit(pushed),
                    rec_sync(pushed),
                );
                &&& !recognized(pushed) ==> {
                    &&& final(self).history() == pushed
                    &&& final(self).frame_offs() == old(self).frame_offs()
                    &&& final(self).frame_bits() == old(self).frame_bits()
                }
                &&& recognized(pushed) ==> {
                    &&& final(self).history() == Seq::<PhySample>::empty()
                    &&& final(self).frame_offs() == offs2
                    &&& final(self).frame_bits() == bits2
                }
                &&& match (
                    r,
                    (if recognized(pushed) && completed is Some {
                        completed
                    } else {
                        old(self).pending_frame()
                    }),
                ) {
                    (Some(m), Some(raw)) => m@ == raw && m.wf(),
                    (None, None) => true,
                    _ => false,
                }
            }),
    {
        self.push_raw_sample(sample);
        self.check_seq();
        self.take_message()
    }

    /// Push one sample into the history without scanning for patterns.
    pub fn push_raw_sample(&mut self, sample: PhySample)
        requires
            old(self).wf(),
        ensures
            final(self).wf(),
            final(self).history() == push_view(old(self).history(), sample),
            final(self).frame_offs() == old(self).frame_offs(),
            final(self).frame_bits() == old(self).frame_bits(),
            final(self).pending_frame() == old(self).pending_frame(),
    {
        self.bit_decode.push(sample);
    }

    /// The three-bit control field of the frame in progress, as soon as its
    /// bits are known, so a profile's echo/hold predicate can be applied
    /// before the frame completes; `None` until the third bit has been
    /// framed.
    pub fn control_so_far(&self) -> (r: Option<u8>)
        requires
            self.wf(),
        ensures
            self.frame_offs() >= 3 ==> r == Some(message_control(self.frame_bits())),
            self.frame_offs() < 3 ==> r is None,
    {
        if self.message_bit_offs >= 3 {
            let c = ((self.message_bits & (0b111 << 8)) >> 8) as u8;
            proof {
                let raw = self.message_bits;
                assert(((raw & (0b111u16 << 8)) >> 8) as u8 == ((raw >> 8) & 7) as u8)
                    by (bit_vector);
            }
            Some(c)
        } else {
            None
        }
    }
}

/// After the push's shift-and-insert, every slot but the newest holds what
/// the slot two bits above it held before.
proof fn lemma_push_slot_old(p: u32, code: u32, pos: u32, pos2: u32)
    requires
        pos <= 28,
        pos2 == pos + 2,
    ensures
        code_at((p >> 2) | (code << 30), pos) == code_at(p, pos2),
{
    assert(((((p >> 2) | (code << 30)) >> pos) & 3) == ((p >> pos2) & 3)) by (bit_vector)
        requires
            pos <= 28,
            pos2 == pos + 2,
    ;
}

/// After the push's shift-and-insert, the newest slot holds the new code.
proof fn lemma_push_slot_new(p: u32, code: u32)
    requires
        code < 4,
    ensures
        code_at((p >> 2) | (code << 30), 30) == code,
{
    assert(((((p >> 2) | (code << 30)) >> 30u32) & 3) == code) by (bit_vector)
        requires
            code < 4,
    ;
}

/// Repeated pushes into a history, as the transformation of its held
/// sequence.
pub open spec fn push_all(h: Seq<PhySample>, s: Seq<PhySample>) -> Seq<PhySample>
    decreases s.len(),
{
    if s.len() == 0 {
        h
    } else {
        push_view(push_all(h, s.drop_last()), s.last())
    }
}

/// Buffer ordering round-trip: pushing any samples, in order, onto any
/// history with room for them reads back as what was held followed by
/// exactly those samples, oldest to newest.
pub proof fn lemma_buffer_ordering(h: Seq<PhySample>, s: Seq<PhySample>)
    requires
        h.len() + s.len() <= 16,
    ensures
        push_all(h, s) == h + s,
    decreases s.len(),
{
    if s.len() == 0 {
        assert(h + s =~= h);
    } else {
        lemma_buffer_ordering(h, s.drop_last());
        assert((h + s.drop_last()).push(s.last()) =~= h + s);
    }
}

/// Eviction under saturation: pushing seventeen samples into an empty
/// history (capacity sixteen) leaves exactly the last sixteen pushed
/// samples, in push order.
pub proof fn lemma_eviction(s: Seq<PhySample>)
    requires
        s.len() == 17,
    ensures
        push_all(Seq::empty(), s) == s.skip(1),
{
    lemma_buffer_ordering(Seq::empty(), s.drop_last());
    assert(Seq::empty() + s.drop_last() =~= s.drop_last());
    assert(s.drop_last().skip(1).push(s.last()) =~= s.skip(1));
}

/// Resynchronization: a synchronization-bearing bit discards whatever
/// partial frame was in progress — nothing is ever emitted for the discarded
/// frame — and restarts framing with the new bit as the frame's first.
pub proof fn lemma_sync_restarts(offs: u8, bits: u16, bit: bool)
    ensures
        frame_advance(offs, bits, bit, true).0 == 1,
        frame_advance(offs, bits, bit, true).1 == bit_shifted(bit, 10),
        frame_advance(offs, bits, bit, true).2 is None,
{
}

/// The frame value that carries bit `k` of `bits` at register position
/// `10 - k`: the first received bit is the synchronization marker, bit 10.
pub open spec fn frame_value(bits: Seq<bool>) -> u16
    decreases bits.len(),
{
    if bits.len() == 0 {
        0u16
    } else {
        frame_value(bits.drop_last()) | bit_shifted(bits.last(), (11 - bits.len()) as u16)
    }
}

/// The framing steps that feed `bits` as plain (non-synchronization) bits.
pub open spec fn nonsync_steps(bits: Seq<bool>) -> Seq<(bool, bool)> {
    Seq::new(bits.len(), |k: int| (bits[k], false))
}

/// Running the framing machine over a sequence of recognized bits, each a
/// pair of bit value and synchronization marker: the final state together
/// with every frame value emitted on the way, in order.
pub open spec fn frame_run(offs: u8, bits: u16, steps: Seq<(bool, bool)>) -> (u8, u16, Seq<u16>)
    decreases steps.len(),
{
    if steps.len() == 0 {
        (offs, bits, Seq::empty())
    } else {
        let (offs1, bits1, completed) = frame_advance(offs, bits, steps[0].0, steps[0].1);
        let rest = frame_run(offs1, bits1, steps.drop_first());
        (
            rest.0,
            rest.1,
            (match completed {
                Some(v) => seq![v],
                None => Seq::empty(),
            }) + rest.2,
        )
    }
}

/// After `j` bits of an eleven-bit frame have been framed, the remaining
/// plain bits emit exactly the frame's value and leave the machine reset.
proof fn lemma_frame_run_tail(frame: Seq<bool>, j: int)
    requires
        frame.len() == 11,
        1 <= j <= 10,
    ensures
        frame_run(j as u8, frame_value(frame.take(j)), nonsync_steps(frame.skip(j))).0 == 0,
        frame_run(j as u8, frame_value(frame.take(j)), nonsync_steps(frame.skip(j))).1 == 0,
        frame_run(j as u8, frame_value(frame.take(j)), nonsync_steps(frame.skip(j))).2 == seq![
            frame_value(frame),
        ],
    decreases 11 - j,
{
    let steps = nonsync_steps(frame.skip(j));
    let bits = frame_value(frame.take(j));
    assert(steps.len() == 11 - j);
    assert(steps[0] == (frame[j], false));
    if j < 10 {
        assert(frame.take(j + 1).drop_last() =~= frame.take(j));
        assert(frame.take(j + 1).last() == frame[j]);
        assert(frame_value(frame.take(j + 1)) == bits | bit_shifted(frame[j], (10 - j) as u16));
        assert(steps.drop_first() =~= nonsync_steps(frame.skip(j + 1)));
        lemma_frame_run_tail(frame, j + 1);
        assert(frame_run((j + 1) as u8, frame_value(frame.take(j + 1)), nonsync_steps(
            frame.skip(j + 1),
        )).2 == seq![frame_value(frame)]);
        assert(Seq::<u16>::empty() + seq![frame_value(frame)] =~= seq![frame_value(frame)]);
    } else {
        assert(frame.take(11) =~= frame);
        assert(frame.take(11).drop_last() =~= frame.take(10));
        assert(frame_value(frame) == bits | bit_shifted(frame[10], 0));
        assert(steps.drop_first() =~= nonsync_steps(frame.skip(11)));
        assert(nonsync_steps(frame.skip(11)) =~= Seq::<(bool, bool)>::empty());
        assert(frame_run(0u8, 0u16, nonsync_steps(frame.skip(11))).2 == Seq::<u16>::empty());
        assert(seq![frame_value(frame)] + Seq::<u16>::empty() =~= seq![frame_value(frame)]);
    }
}

/// Frame assembly: from any framer state, a synchronization-bearing bit
/// followed by ten plain bits emits exactly one frame — nothing before the
/// eleventh bit — whose value carries the eleven bit values in order, and
/// leaves the machine reset, awaiting the next synchronization bit.
pub proof fn lemma_frame_assembly(offs0: u8, bits0: u16, frame: Seq<bool>)
    requires
        frame.len() == 11,
    ensures
        ({
            let steps = seq![(frame[0], true)] + nonsync_steps(frame.skip(1));
            &&& frame_run(offs0, bits0, steps).0 == 0
            &&& frame_run(offs0, bits0, steps).1 == 0
            &&& frame_run(offs0, bits0, steps).2 == seq![frame_value(frame)]
        }),
{
    let steps = seq![(frame[0], true)] + nonsync_steps(frame.skip(1));
    assert(steps.len() == 11);
    assert(steps[0] == (frame[0], true));
    let started = bit_shifted(frame[0], 10);
    assert(frame_advance(offs0, bits0, frame[0], true) == (1u8, started, None::<u16>));
    assert(frame.take(1).drop_last() =~= frame.take(0));
    assert(frame.take(1).last() == frame[0]);
    assert(frame_value(frame.take(0)) == 0u16);
    assert(0u16 | started == started) by (bit_vector);
    assert(frame_value(frame.take(1)) == started);
    assert(steps.drop_first() =~= nonsync_steps(frame.skip(1)));
    lemma_frame_run_tail(frame, 1);
    assert(Seq::<u16>::empty() + seq![frame_value(frame)] =~= seq![frame_value(frame)]);
}

} // verus!
