//! The PS/2 mouse module: it reassembles the controller's three-byte packets
//! and turns each into a five-byte event for the `module_mouse` channel. The
//! module reads the controller's ports and sends the events; the bytes are
//! decoded here.
use vstd::prelude::*;

verus! {

/// A kernel module's name and the modules it needs.
pub struct KkmInfo {
    pub name: &'static str,
    pub depends: Vec<&'static str>,
}

/// This module: `ps2mouse`, depending on nothing.
pub fn kkm_info() -> (i: KkmInfo)
    ensures
        i.name@ == "ps2mouse"@,
        i.depends@.len() == 0,
{
    KkmInfo { name: "ps2mouse", depends: Vec::new() }
}

/// Packet reassembly: the bytes so far and where the next one goes.
#[derive(Clone, Copy, PartialEq, Eq, Structural, Debug)]
pub struct PacketDecoder {
    pub b0: u8,
    pub b1: u8,
    pub idx: u8,
}

pub open spec fn decoder_ok(d: PacketDecoder) -> bool {
    d.idx <= 2
}

/// A movement with its sign taken from the flag byte.
pub open spec fn signed_move(v: u8, negative: bool) -> i16 {
    if negative { (v - 256) as i16 } else { v as i16 }
}

/// The decoder after `data`, and the event `(buttons, dx, dy)` it completes:
/// a packet starts with a byte that has bit 3 set (others are skipped until
/// one does); its third byte completes it.
pub open spec fn fed(d: PacketDecoder, data: u8) -> (PacketDecoder, Option<(u8, i16, i16)>) {
    if d.idx == 0 {
        if data & 0x08 == 0 {
            (PacketDecoder { b0: data, ..d }, None)
        } else {
            (PacketDecoder { b0: data, idx: 1, ..d }, None)
        }
    } else if d.idx == 1 {
        (PacketDecoder { b1: data, idx: 2, ..d }, None)
    } else {
        (
            PacketDecoder { idx: 0, ..d },
            Some((d.b0 & 0x07, signed_move(d.b1, d.b0 & 0x10 != 0), signed_move(data, d.b0 & 0x20 != 0))),
        )
    }
}

/// Bit `k` of `b`.
pub open spec fn bit(b: u8, k: nat) -> bool {
    (b as nat / vstd::arithmetic::power2::pow2(k)) % 2 == 1
}

proof fn lemma_bits(b: u8)
    ensures
        (b & 0x08 != 0) == bit(b, 3),
        (b & 0x10 != 0) == bit(b, 4),
        (b & 0x20 != 0) == bit(b, 5),
        b & 0x07 == b % 8,
{
    vstd::arithmetic::power2::lemma2_to64();
    assert((b & 0x08 != 0) == ((b / 8) % 2 == 1)) by (bit_vector);
    assert((b & 0x10 != 0) == ((b / 16) % 2 == 1)) by (bit_vector);
    assert((b & 0x20 != 0) == ((b / 32) % 2 == 1)) by (bit_vector);
    assert(b & 0x07 == b % 8) by (bit_vector);
}

/// A packet read from its start: a first byte with bit 3 set, then the X and
/// Y movements. The first two bytes give nothing; the third gives the
/// buttons (the first byte's low three bits) and the movements, each
/// negative (the byte minus 256) exactly when its sign bit is set in the
/// first byte (bit 4 for X, bit 5 for Y), and the decoder waits for the
/// next packet.
pub proof fn law_packet_decoded(d: PacketDecoder, b0: u8, b1: u8, b2: u8)
    requires
        d.idx == 0,
        bit(b0, 3),
    ensures
        ({
            let (d1, e1) = fed(d, b0);
            let (d2, e2) = fed(d1, b1);
            let (d3, e3) = fed(d2, b2);
            &&& e1 is None
            &&& e2 is None
            &&& d3.idx == 0
            &&& e3 matches Some((buttons, dx, dy)) && buttons == b0 % 8
                && dx as int == b1 - (if bit(b0, 4) { 256int } else { 0 })
                && dy as int == b2 - (if bit(b0, 5) { 256int } else { 0 })
        }),
{
    lemma_bits(b0);
}

/// A byte without bit 3 set cannot start a packet: it gives nothing and the
/// decoder still waits for a first byte.
pub proof fn law_resync(d: PacketDecoder, b: u8)
    requires
        d.idx == 0,
        !bit(b, 3),
    ensures
        fed(d, b).1 is None,
        fed(d, b).0.idx == 0,
{
    lemma_bits(b);
}

impl PacketDecoder {
    pub fn new() -> (d: PacketDecoder)
        ensures
            d == (PacketDecoder { b0: 0, b1: 0, idx: 0 }),
    {
        PacketDecoder { b0: 0, b1: 0, idx: 0 }
    }

    /// Take one byte from the controller.
    pub fn feed(&mut self, data: u8) -> (ev: Option<(u8, i16, i16)>)
        requires
            decoder_ok(*old(self)),
        ensures
            decoder_ok(*final(self)),
            (*final(self), ev) == fed(*old(self), data),
    {
        if self.idx == 0 {
            self.b0 = data;
            if data & 0x08 == 0 {
                return None;
            }
            self.idx = 1;
            None
        } else if self.idx == 1 {
            self.b1 = data;
            self.idx = 2;
            None
        } else {
            self.idx = 0;
            let buttons = self.b0 & 0x07;
            let mut dx = self.b1 as i16;
            let mut dy = data as i16;
            if self.b0 & 0x10 != 0 {
                dx = dx - 256;
            }
            if self.b0 & 0x20 != 0 {
                dy = dy - 256;
            }
            Some((buttons, dx, dy))
        }
    }
}

pub open spec fn le_lo(v: i16) -> u8 {
    ((if v < 0 { v + 65536 } else { v as int }) % 256) as u8
}

pub open spec fn le_hi(v: i16) -> u8 {
    ((if v < 0 { v + 65536 } else { v as int }) / 256) as u8
}

/// The event message: buttons, then dx and dy little-endian.
pub open spec fn event_bytes(buttons: u8, dx: i16, dy: i16) -> Seq<u8> {
    seq![buttons, le_lo(dx), le_hi(dx), le_lo(dy), le_hi(dy)]
}

fn i16_bytes(v: i16) -> (r: (u8, u8))
    ensures
        r == (le_lo(v), le_hi(v)),
{
    let u: i32 = if v < 0 { v as i32 + 65536 } else { v as i32 };
    ((u % 256) as u8, (u / 256) as u8)
}

pub fn event_message(buttons: u8, dx: i16, dy: i16) -> (m: Vec<u8>)
    ensures
        m@ == event_bytes(buttons, dx, dy),
{
    let (x0, x1) = i16_bytes(dx);
    let (y0, y1) = i16_bytes(dy);
    let m: Vec<u8> = vec![buttons, x0, x1, y0, y1];
    assert(m@ =~= event_bytes(buttons, dx, dy));
    m
}

/// A status byte says a mouse byte is waiting: output full, from the
/// auxiliary device.
pub open spec fn mouse_byte_waiting(status: u8) -> bool {
    status & 0x01 != 0 && status & 0x20 != 0
}

pub fn mouse_byte_ready(status: u8) -> (b: bool)
    ensures
        b == mouse_byte_waiting(status),
{
    status & 0x01 != 0 && status & 0x20 != 0
}

/// The decoder after the bytes `bs`, and the event messages they complete.
pub open spec fn run_over(d: PacketDecoder, bs: Seq<u8>) -> (PacketDecoder, Seq<Seq<u8>>)
    decreases bs.len(),
{
    if bs.len() == 0 {
        (d, Seq::empty())
    } else {
        let prev = run_over(d, bs.drop_last());
        let step = fed(prev.0, bs.last());
        match step.1 {
            Some(e) => (step.0, prev.1.push(event_bytes(e.0, e.1, e.2))),
            None => (step.0, prev.1),
        }
    }
}

pub proof fn lemma_run_over_ok(d: PacketDecoder, bs: Seq<u8>)
    requires
        decoder_ok(d),
    ensures
        decoder_ok(run_over(d, bs).0),
    decreases bs.len(),
{
    if bs.len() > 0 {
        lemma_run_over_ok(d, bs.drop_last());
    }
}

/// One tick of the module: the mouse bytes drained from the controller go
/// through the decoder; the events they complete are returned, in order,
/// ready to send.
pub fn kkm_run(dec: &mut PacketDecoder, bytes: &[u8]) -> (events: Vec<Vec<u8>>)
    requires
        decoder_ok(*old(dec)),
    ensures
        decoder_ok(*final(dec)),
        *final(dec) == run_over(*old(dec), bytes@).0,
        events@.map_values(|m: Vec<u8>| m@) == run_over(*old(dec), bytes@).1,
{
    let ghost d0 = *dec;
    let mut events: Vec<Vec<u8>> = Vec::new();
    let mut i: usize = 0;
    while i < bytes.len()
        invariant
            decoder_ok(d0),
            i <= bytes@.len(),
            decoder_ok(*dec),
            *dec == run_over(d0, bytes@.take(i as int)).0,
            events@.map_values(|m: Vec<u8>| m@) == run_over(d0, bytes@.take(i as int)).1,
        decreases bytes@.len() - i,
    {
        assert(bytes@.take(i + 1).drop_last() =~= bytes@.take(i as int));
        let ghost before = events@;
        if let Some((b, dx, dy)) = dec.feed(bytes[i]) {
            let m = event_message(b, dx, dy);
            events.push(m);
            assert(events@.map_values(|m: Vec<u8>| m@) =~= before.map_values(|m: Vec<u8>| m@).push(event_bytes(b, dx, dy)));
        }
        i = i + 1;
    }
    assert(bytes@.take(bytes@.len() as int) =~= bytes@);
    events
}

} // verus!
