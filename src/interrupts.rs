//! Interrupt-side state and constants: the vector layout, the timer's
//! programming, and the bounded scancode ring filled by the keyboard ISR.
use vstd::prelude::*;

verus! {

/// Frequency of the timer's oscillator.
pub const PIT_OSCILLATOR_HZ: u32 = 1_193_182;

/// Timer interrupts per second: one tick every 10 ms.
pub const PIT_TARGET_HZ: u32 = 100;

/// Mode byte: channel 0, low byte then high byte, rate generator.
pub const PIT_MODE: u8 = 0x36;

pub const PIT_COMMAND_PORT: u16 = 0x43;
pub const PIT_CHANNEL0_PORT: u16 = 0x40;
pub const PS2_DATA_PORT: u16 = 0x60;

/// First vector of the primary interrupt controller.
pub const PIC_1_OFFSET: u8 = 32;

/// First vector of the secondary interrupt controller.
pub const PIC_2_OFFSET: u8 = PIC_1_OFFSET + 8;

/// Capacity of the scancode ring.
pub const SCANCODE_CAPACITY: usize = 128;

#[derive(Clone, Copy, PartialEq, Eq, Structural, Debug)]
pub enum InterruptIndex {
    Timer,
    Keyboard,
}

impl InterruptIndex {
    pub open spec fn spec_vector(&self) -> u8 {
        match self {
            InterruptIndex::Timer => PIC_1_OFFSET,
            InterruptIndex::Keyboard => (PIC_1_OFFSET + 1) as u8,
        }
    }

    /// The interrupt vector: the timer is the first hardware vector, the
    /// keyboard the next.
    pub fn as_u8(&self) -> (r: u8)
        ensures
            r == self.spec_vector(),
    {
        match self {
            InterruptIndex::Timer => PIC_1_OFFSET,
            InterruptIndex::Keyboard => PIC_1_OFFSET + 1,
        }
    }
}

/// The timer divisor: the oscillator frequency over the tick frequency.
pub fn pit_divisor() -> (r: u16)
    ensures
        r as int == PIT_OSCILLATOR_HZ as int / PIT_TARGET_HZ as int,
{
    (PIT_OSCILLATOR_HZ / PIT_TARGET_HZ) as u16
}

/// The bytes that program the timer: the mode byte for the command port,
/// then the divisor's low and high bytes for the channel-0 port.
pub fn pit_program() -> (r: (u8, u8, u8))
    ensures
        r.0 == PIT_MODE,
        r.1 as int == (PIT_OSCILLATOR_HZ as int / PIT_TARGET_HZ as int) % 256,
        r.2 as int == (PIT_OSCILLATOR_HZ as int / PIT_TARGET_HZ as int) / 256,
{
    let divisor = pit_divisor();
    (PIT_MODE, (divisor % 256) as u8, (divisor / 256) as u8)
}

/// Fixed-capacity ring of scancodes: a push on a full ring is dropped, a
/// pop on an empty one returns `None`.
pub struct ScancodeQueue {
    buf: Vec<u8>,
    read: usize,
    write: usize,
    count: usize,
}

impl View for ScancodeQueue {
    type V = Seq<u8>;

    /// The queued scancodes, oldest first.
    closed spec fn view(&self) -> Seq<u8> {
        Seq::new(self.count as nat, |i: int| self.buf@[(self.read + i) % (SCANCODE_CAPACITY as int)])
    }
}

impl ScancodeQueue {
    pub closed spec fn wf(&self) -> bool {
        &&& self.buf@.len() == SCANCODE_CAPACITY
        &&& self.read < SCANCODE_CAPACITY
        &&& self.write < SCANCODE_CAPACITY
        &&& self.count <= SCANCODE_CAPACITY
        &&& self.write as int == (self.read + self.count) % (SCANCODE_CAPACITY as int)
    }

    pub fn new() -> (r: ScancodeQueue)
        ensures
            r.wf(),
            r@ == Seq::<u8>::empty(),
    {
        let mut buf: Vec<u8> = Vec::new();
        let mut i: usize = 0;
        while i < SCANCODE_CAPACITY
            invariant
                0 <= i <= SCANCODE_CAPACITY,
                buf@.len() == i,
            decreases SCANCODE_CAPACITY - i,
        {
            buf.push(0);
            i = i + 1;
        }
        let r = ScancodeQueue { buf, read: 0, write: 0, count: 0 };
        assert(r@ =~= Seq::<u8>::empty());
        r
    }

    pub fn len(&self) -> (r: usize)
        requires
            self.wf(),
        ensures
            r == self@.len(),
    {
        self.count
    }

    /// Appends `scancode`, or drops it when the ring is full.
    pub fn push(&mut self, scancode: u8)
        requires
            old(self).wf(),
        ensures
            final(self).wf(),
            final(self)@ == (if old(self)@.len() < SCANCODE_CAPACITY { old(self)@.push(scancode) } else { old(self)@ }),
    {
        if self.count < SCANCODE_CAPACITY {
            let ghost old_buf = self.buf@;
            let w = self.write;
            self.buf.set(w, scancode);
            self.write = (self.write + 1) % SCANCODE_CAPACITY;
            self.count = self.count + 1;
            proof {
                let n = SCANCODE_CAPACITY as int;
                let rd = self.read as int;
                let c = old(self).count as int;
                assert forall|i: int| 0 <= i < c implies #[trigger] self@[i] == old(self)@[i] by {
                    assert((rd + i) % n != (rd + c) % n) by (nonlinear_arith)
                        requires 0 <= i < c, c < n, 0 <= rd < n, n == 128;
                }
                assert((self.read + old(self).count) % n == w as int);
                assert(self@[c] == scancode);
                assert(self.write as int == (self.read + self.count) % n) by (nonlinear_arith)
                    requires self.write as int == (w as int + 1) % n, w as int == (rd + c) % n, n == 128, self.count as int == c + 1, self.read as int == rd, 0 <= rd;
                assert(self@ =~= old(self)@.push(scancode));
            }
        }
    }

    /// Removes and returns the oldest scancode, if any.
    pub fn pop(&mut self) -> (r: Option<u8>)
        requires
            old(self).wf(),
        ensures
            final(self).wf(),
            match r {
                Some(v) => old(self)@.len() > 0 && v == old(self)@[0] && final(self)@ == old(self)@.subrange(1, old(self)@.len() as int),
                None => old(self)@.len() == 0 && final(self)@ == old(self)@,
            },
    {
        if self.count == 0 {
            return None;
        }
        let v = self.buf[self.read];
        let rd = self.read;
        self.read = (self.read + 1) % SCANCODE_CAPACITY;
        self.count = self.count - 1;
        proof {
            let n = SCANCODE_CAPACITY as int;
            assert(rd as int % n == rd as int);
            assert forall|i: int| 0 <= i < self.count implies #[trigger] self@[i] == old(self)@[i + 1] by {
                assert((self.read + i) % n == (rd + 1 + i) % n) by (nonlinear_arith)
                    requires self.read as int == (rd as int + 1) % n, n == 128, 0 <= i, 0 <= rd;
            }
            let w = self.write as int;
            let c0 = old(self).count as int;
            let rd2 = self.read as int;
            let c2 = self.count as int;
            assert(w == (rd2 + c2) % n) by (nonlinear_arith)
                requires rd2 == (rd as int + 1) % n, n == 128, w == (rd as int + c0) % n, c2 == c0 - 1, 0 <= rd;
            assert(self@ =~= old(self)@.subrange(1, old(self)@.len() as int));
        }
        Some(v)
    }
}

} // verus!
