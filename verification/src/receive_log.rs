//! Receive log of the NACK generator: a ring of received-bits indexed by
//! 16-bit RTP sequence numbers, counting with rollover.
use vstd::prelude::*;
use vstd::arithmetic::div_mod::{lemma_mod_equivalence, lemma_small_mod, lemma_mod_multiples_vanish};

verus! {

/// Half of the 16-bit sequence number space.
pub const UINT16SIZE_HALF: u16 = 32768;

/// `a + b` modulo 2^16.
pub open spec fn wadd(a: u16, b: u16) -> u16 {
    if a + b < 65536 {
        (a + b) as u16
    } else {
        (a + b - 65536) as u16
    }
}

/// `a - b` modulo 2^16.
pub open spec fn wsub(a: u16, b: u16) -> u16 {
    if a >= b {
        (a - b) as u16
    } else {
        (a + 65536 - b) as u16
    }
}

/// The sizes a receive log accepts: the powers of two from 64 to 32768.
pub open spec fn valid_size(size: u16) -> bool {
    size == 64 || size == 128 || size == 256 || size == 512 || size == 1024 || size == 2048
        || size == 4096 || size == 8192 || size == 16384 || size == 32768
}

/// Index of the slot that holds sequence number `seq`.
pub open spec fn slot_of(seq: u16, size: u16) -> int {
    (seq as int) % (size as int)
}

/// Whether bit `b` of word `w` is set.
pub open spec fn bit_of(w: u64, b: int) -> bool {
    (w >> (b as u64)) & 1u64 == 1u64
}

/// Slot `p` lies among the `n` slots that follow the one of `end`.
pub open spec fn in_gap(p: int, end: u16, n: int, size: u16) -> bool {
    (p - end - 1) % (size as int) < n
}

/// `slots` with the `n` slots that follow the one of `end` cleared.
pub open spec fn clear_gap(slots: Seq<bool>, end: u16, n: int, size: u16) -> Seq<bool> {
    Seq::new(slots.len(), |p: int| if in_gap(p, end, n, size) { false } else { slots[p] })
}

/// The last sequence number of the run of received packets that starts at `i`
/// and stops before a missing packet or after `end`.
pub open spec fn run_end(slots: Seq<bool>, size: u16, i: u16, end: u16) -> u16
    decreases wsub(wadd(end, 1), i),
{
    if i == wadd(end, 1) || !slots[slot_of(i, size)] {
        wsub(i, 1)
    } else {
        run_end(slots, size, wadd(i, 1), end)
    }
}

/// The last consecutive sequence number reached from `lc` when every received
/// packet after it is taken in turn.
pub open spec fn consecutive_after(slots: Seq<bool>, size: u16, lc: u16, end: u16) -> u16 {
    run_end(slots, size, wadd(lc, 1), end)
}

/// What a receive log holds.
pub struct ReceiveLogModel {
    /// One flag per slot: whether the packet of that slot was received.
    pub slots: Seq<bool>,
    pub size: u16,
    pub end: u16,
    pub started: bool,
    pub last_consecutive: u16,
}

impl ReceiveLogModel {
    pub open spec fn well_formed(self) -> bool {
        valid_size(self.size) && self.slots.len() == self.size as nat
    }

    /// A well-formed log whose newest packet is marked received once started:
    /// what every log built by `new` and `add` satisfies.
    pub open spec fn consistent(self) -> bool {
        self.well_formed() && (self.started ==> self.received(self.end))
    }

    /// The received flag of the slot of `seq`.
    pub open spec fn received(self, seq: u16) -> bool {
        self.slots[slot_of(seq, self.size)]
    }

    /// Whether `seq` counts as received: it lies in the window that ends at
    /// `end` and its flag is set.
    pub open spec fn get(self, seq: u16) -> bool {
        let diff = wsub(self.end, seq);
        diff < UINT16SIZE_HALF && diff < self.size && self.received(seq)
    }

    /// The log after `seq` was added.
    pub open spec fn add(self, seq: u16) -> ReceiveLogModel {
        if !self.started {
            ReceiveLogModel {
                slots: self.slots.update(slot_of(seq, self.size), true),
                end: seq,
                started: true,
                last_consecutive: seq,
                ..self
            }
        } else {
            let diff = wsub(seq, self.end);
            if diff == 0 {
                self
            } else if diff < UINT16SIZE_HALF {
                // seq is ahead of end: the slots in between are cleared
                let cleared = clear_gap(self.slots, self.end, diff - 1, self.size);
                let lc = if wadd(self.last_consecutive, 1) == seq {
                    seq
                } else if wsub(seq, self.last_consecutive) > self.size {
                    consecutive_after(cleared, self.size, wsub(seq, self.size), seq)
                } else {
                    self.last_consecutive
                };
                ReceiveLogModel {
                    slots: cleared.update(slot_of(seq, self.size), true),
                    end: seq,
                    last_consecutive: lc,
                    ..self
                }
            } else {
                // seq is behind end
                let lc = if wadd(self.last_consecutive, 1) == seq {
                    consecutive_after(self.slots, self.size, seq, self.end)
                } else {
                    self.last_consecutive
                };
                ReceiveLogModel {
                    slots: self.slots.update(slot_of(seq, self.size), true),
                    last_consecutive: lc,
                    ..self
                }
            }
        }
    }

    /// The sequence numbers after `last_consecutive` up to `end - skip_last_n`
    /// whose packets are missing, in order.
    pub open spec fn missing(self, skip_last_n: u16) -> Seq<u16> {
        let until = wsub(self.end, skip_last_n);
        let diff = wsub(until, self.last_consecutive);
        if diff >= UINT16SIZE_HALF {
            Seq::empty()
        } else {
            Seq::new(diff as nat, |j: int| wadd(self.last_consecutive, (j + 1) as u16)).filter(
                |s: u16| !self.received(s),
            )
        }
    }
}

/// Errors of the receive log.
#[derive(Debug, PartialEq, Eq)]
pub enum ReceiveLogError {
    ErrInvalidSize,
}

/// Keeps track of which RTP packets were received, within a window of `size`
/// sequence numbers ending at the latest one.
#[derive(Debug)]
pub struct ReceiveLog {
    packets: Vec<u64>,
    size: u16,
    end: u16,
    started: bool,
    last_consecutive: u16,
}

impl View for ReceiveLog {
    type V = ReceiveLogModel;

    closed spec fn view(&self) -> ReceiveLogModel {
        ReceiveLogModel {
            slots: Seq::new(
                self.size as nat,
                |p: int| bit_of(self.packets@[p / 64], p % 64),
            ),
            size: self.size,
            end: self.end,
            started: self.started,
            last_consecutive: self.last_consecutive,
        }
    }
}

proof fn lemma_bit_set(w: u64, b: u64, c: u64)
    by (bit_vector)
    requires
        b < 64,
        c < 64,
    ensures
        ((w | (1u64 << b)) >> c) & 1u64 == 1u64 <==> (c == b || (w >> c) & 1u64 == 1u64),
{
}

proof fn lemma_bit_clear(w: u64, b: u64, c: u64)
    by (bit_vector)
    requires
        b < 64,
        c < 64,
    ensures
        ((w & (0xffff_ffff_ffff_ffffu64 ^ (1u64 << b))) >> c) & 1u64 == 1u64 <==> (c != b && (w
            >> c) & 1u64 == 1u64),
{
}

proof fn lemma_bit_test(w: u64, b: u64)
    by (bit_vector)
    requires
        b < 64,
    ensures
        (w & (1u64 << b)) != 0 <==> (w >> b) & 1u64 == 1u64,
{
}

proof fn lemma_zero_bits(c: u64)
    by (bit_vector)
    requires
        c < 64,
    ensures
        (0u64 >> c) & 1u64 != 1u64,
{
}

/// A slot index of a valid size splits into a word of the log and a bit in it.
proof fn lemma_slot_split(p: int, size: u16)
    requires
        valid_size(size),
        0 <= p < size,
    ensures
        0 <= p / 64 < size / 64,
        0 <= p % 64 < 64,
        p == 64 * (p / 64) + p % 64,
{
}

/// Shifting by 2^16 does not move a slot.
proof fn lemma_mod_wrap(x: int, size: u16)
    requires
        valid_size(size),
    ensures
        (x - 65536) % (size as int) == x % (size as int),
        (x + 65536) % (size as int) == x % (size as int),
{
    let s = size as int;
    let q: int = 65536int / s;
    assert(s * q == 65536);
    lemma_mod_multiples_vanish(-q, x, s);
    lemma_mod_multiples_vanish(q, x, s);
    assert(s * (-q) + x == x - 65536) by (nonlinear_arith)
        requires
            s * q == 65536,
    ;
}

/// The slot of `wadd(a, b)` is the slot of `a + b`.
proof fn lemma_slot_wadd(a: u16, b: u16, size: u16)
    requires
        valid_size(size),
    ensures
        slot_of(wadd(a, b), size) == (a + b) % (size as int),
{
    lemma_mod_wrap(a + b, size);
}

/// One more step of clearing after `end` clears exactly the slot of
/// `end + k`.
proof fn lemma_gap_step(p: int, end: u16, k: int, size: u16)
    requires
        valid_size(size),
        0 <= p < size,
        k >= 1,
    ensures
        in_gap(p, end, k, size) <==> (in_gap(p, end, k - 1, size) || p == (end + k) % (size
            as int)),
{
    let s = size as int;
    let r = (p - end - 1) % s;
    lemma_small_mod(p as nat, s as nat);
    lemma_mod_equivalence(p, end + k, s);
    lemma_mod_equivalence(p - end - 1, k - 1, s);
    assert((p - (end + k)) == (p - end - 1) - (k - 1));
    if k - 1 < s {
        lemma_small_mod((k - 1) as nat, s as nat);
    }
}

/// Adding a packet keeps a log consistent, and the packet just added is then
/// reported received exactly when it lies within `size` of the newest one;
/// in particular always when it is the first packet or a newer one.
pub proof fn lemma_add_then_get(m: ReceiveLogModel, seq: u16)
    requires
        m.consistent(),
    ensures
        m.add(seq).consistent(),
        m.add(seq).size == m.size,
        m.add(seq).get(seq) <==> wsub(m.add(seq).end, seq) < m.size,
        (!m.started || wsub(seq, m.end) < UINT16SIZE_HALF) ==> m.add(seq).get(seq),
{
    let m2 = m.add(seq);
    let s = slot_of(seq, m.size);
    assert(0 <= s < m.size);
    if m.started {
        let diff = wsub(seq, m.end);
        if diff == 0 {
            assert(seq == m.end);
        } else if diff < UINT16SIZE_HALF {
            let cleared = clear_gap(m.slots, m.end, diff - 1, m.size);
            assert(cleared.len() == m.slots.len());
            assert(m2.slots[s]);
        } else {
            assert(m2.slots[s]);
            assert(m2.slots[slot_of(m.end, m.size)]);
        }
    }
}

/// A sequence number reported missing is never one whose packet is marked
/// received.
pub proof fn lemma_missing_not_received(m: ReceiveLogModel, skip_last_n: u16, i: int)
    requires
        m.well_formed(),
        0 <= i < m.missing(skip_last_n).len(),
    ensures
        !m.received(m.missing(skip_last_n)[i]),
        !m.get(m.missing(skip_last_n)[i]),
{
    let until = wsub(m.end, skip_last_n);
    let diff = wsub(until, m.last_consecutive);
    if diff < UINT16SIZE_HALF {
        let all = Seq::new(diff as nat, |j: int| wadd(m.last_consecutive, (j + 1) as u16));
        let pred = |s: u16| !m.received(s);
        broadcast use vstd::seq_lib::group_filter_ensures;

        assert(pred(all.filter(pred)[i]));
    }
}

impl ReceiveLog {
    /// The log's invariant: a valid size and one 64-bit word per 64 slots.
    pub closed spec fn wf(&self) -> bool {
        valid_size(self.size) && self.packets@.len() == self.size / 64
    }

    pub proof fn lemma_wf(&self)
        requires
            self.wf(),
        ensures
            self@.well_formed(),
    {
    }

    /// Creates a receive log of `size` slots; `size` must be a power of two
    /// from 64 to 32768.
    pub fn new(size: u16) -> (r: Result<ReceiveLog, ReceiveLogError>)
        ensures
            valid_size(size) <==> r is Ok,
            !valid_size(size) ==> r == Err::<ReceiveLog, ReceiveLogError>(
                ReceiveLogError::ErrInvalidSize,
            ),
            r matches Ok(l) ==> {
                &&& l.wf()
                &&& l@.size == size
                &&& l@.end == 0
                &&& !l@.started
                &&& l@.last_consecutive == 0
                &&& l@.consistent()
                &&& forall|p: int| 0 <= p < size ==> !#[trigger] l@.slots[p]
            },
    {
        let mut correct_size = false;
        let mut i: u16 = 6;
        while i < 16 && !correct_size
            invariant
                6 <= i <= 16,
                correct_size ==> size == (1u16 << (i as u16)) && 6 <= i < 16,
                !correct_size ==> forall|j: u16| 6 <= j < i ==> size != (1u16 << j),
            decreases 16 - i + (if correct_size { 0int } else { 1int }),
        {
            if size == (1u16 << i) {
                correct_size = true;
            } else {
                i = i + 1;
            }
        }
        if !correct_size {
            assert(!valid_size(size)) by {
                assert(1u16 << 6u16 == 64) by (bit_vector);
                assert(1u16 << 7u16 == 128) by (bit_vector);
                assert(1u16 << 8u16 == 256) by (bit_vector);
                assert(1u16 << 9u16 == 512) by (bit_vector);
                assert(1u16 << 10u16 == 1024) by (bit_vector);
                assert(1u16 << 11u16 == 2048) by (bit_vector);
                assert(1u16 << 12u16 == 4096) by (bit_vector);
                assert(1u16 << 13u16 == 8192) by (bit_vector);
                assert(1u16 << 14u16 == 16384) by (bit_vector);
                assert(1u16 << 15u16 == 32768) by (bit_vector);
            }
            return Err(ReceiveLogError::ErrInvalidSize);
        }
        proof {
            assert(forall|j: u16| 6 <= j < 16 ==> #[trigger] valid_size(1u16 << j)) by {
                assert forall|j: u16| 6 <= j < 16 implies #[trigger] valid_size(1u16 << j) by {
                    assert(6 <= j < 16 ==> (1u16 << j == 64 || 1u16 << j == 128 || 1u16 << j
                        == 256 || 1u16 << j == 512 || 1u16 << j == 1024 || 1u16 << j == 2048 || 1u16
                        << j == 4096 || 1u16 << j == 8192 || 1u16 << j == 16384 || 1u16 << j
                        == 32768)) by (bit_vector);
                }
            }
        }
        let n = (size / 64) as usize;
        let mut packets: Vec<u64> = Vec::new();
        while packets.len() < n
            invariant
                packets@.len() <= n,
                forall|k: int| 0 <= k < packets@.len() ==> packets@[k] == 0u64,
            decreases n - packets@.len(),
        {
            packets.push(0u64);
        }
        let log = ReceiveLog { packets, size, end: 0, started: false, last_consecutive: 0 };
        assert forall|p: int| 0 <= p < size implies !#[trigger] log@.slots[p] by {
            lemma_slot_split(p, size);
            lemma_zero_bits((p % 64) as u64);
        }
        Ok(log)
    }

    /// The last sequence number up to which every packet was received.
    pub fn last_consecutive(&self) -> (r: u16)
        ensures
            r == self@.last_consecutive,
    {
        self.last_consecutive
    }

    /// Marks the slot of `seq` received.
    fn set_received(&mut self, seq: u16)
        requires
            old(self).wf(),
        ensures
            final(self).wf(),
            final(self)@ == (ReceiveLogModel {
                slots: old(self)@.slots.update(slot_of(seq, old(self)@.size), true),
                ..old(self)@
            }),
    {
        let pos = (seq % self.size) as usize;
        proof {
            lemma_slot_split(pos as int, self.size);
        }
        let idx = pos / 64;
        let b = (pos % 64) as u64;
        let w = self.packets[idx];
        let ghost old_self = *self;
        self.packets.set(idx, w | (1u64 << b));
        proof {
            let target = old_self@.slots.update(slot_of(seq, old_self.size), true);
            assert forall|p: int| 0 <= p < self.size implies #[trigger] self@.slots[p]
                == target[p] by {
                lemma_slot_split(p, self.size);
                if p / 64 == idx {
                    lemma_bit_set(w, b, (p % 64) as u64);
                }
            }
            assert(self@.slots =~= target);
        }
    }

    /// Clears the slot of `seq`.
    fn del_received(&mut self, seq: u16)
        requires
            old(self).wf(),
        ensures
            final(self).wf(),
            final(self)@ == (ReceiveLogModel {
                slots: old(self)@.slots.update(slot_of(seq, old(self)@.size), false),
                ..old(self)@
            }),
    {
        let pos = (seq % self.size) as usize;
        proof {
            lemma_slot_split(pos as int, self.size);
        }
        let idx = pos / 64;
        let b = (pos % 64) as u64;
        let w = self.packets[idx];
        let ghost old_self = *self;
        self.packets.set(idx, w & (0xffff_ffff_ffff_ffffu64 ^ (1u64 << b)));
        proof {
            let target = old_self@.slots.update(slot_of(seq, old_self.size), false);
            assert forall|p: int| 0 <= p < self.size implies #[trigger] self@.slots[p]
                == target[p] by {
                lemma_slot_split(p, self.size);
                if p / 64 == idx {
                    lemma_bit_clear(w, b, (p % 64) as u64);
                }
            }
            assert(self@.slots =~= target);
        }
    }

    /// The flag of the slot of `seq`.
    fn get_received(&self, seq: u16) -> (r: bool)
        requires
            self.wf(),
        ensures
            r == self@.received(seq),
    {
        let pos = (seq % self.size) as usize;
        proof {
            lemma_slot_split(pos as int, self.size);
            lemma_bit_test(self.packets@[(pos / 64) as int], (pos % 64) as u64);
        }
        (self.packets[pos / 64] & (1u64 << ((pos % 64) as u64))) != 0
    }

    /// Moves `last_consecutive` forward over every received packet that
    /// follows it, stopping after `end`.
    fn fix_last_consecutive(&mut self)
        requires
            old(self).wf(),
        ensures
            final(self).wf(),
            final(self)@ == (ReceiveLogModel {
                last_consecutive: consecutive_after(
                    old(self)@.slots,
                    old(self)@.size,
                    old(self)@.last_consecutive,
                    old(self)@.end,
                ),
                ..old(self)@
            }),
    {
        let ghost target = consecutive_after(self@.slots, self.size, self.last_consecutive, self.end);
        let end_plus1 = self.end.wrapping_add(1);
        let mut i = self.last_consecutive.wrapping_add(1);
        while i != end_plus1 && self.get_received(i)
            invariant
                self.wf(),
                end_plus1 == wadd(self.end, 1),
                run_end(self@.slots, self.size, i, self.end) == target,
            decreases wsub(end_plus1, i),
        {
            i = i.wrapping_add(1);
        }
        self.last_consecutive = i.wrapping_sub(1);
    }

    /// Records that packet `seq` was received.
    pub fn add(&mut self, seq: u16)
        requires
            old(self).wf(),
        ensures
            final(self).wf(),
            final(self)@ == old(self)@.add(seq),
    {
        let ghost m = self@;
        if !self.started {
            self.set_received(seq);
            self.end = seq;
            self.started = true;
            self.last_consecutive = seq;
            return;
        }
        let last_consecutive_plus1 = self.last_consecutive.wrapping_add(1);
        let diff = seq.wrapping_sub(self.end);
        if diff == 0 {
            return;
        } else if diff < UINT16SIZE_HALF {
            let end0 = self.end;
            let mut i = self.end.wrapping_add(1);
            let ghost mut k: int = 1;
            proof {
                assert(self@.slots =~= clear_gap(m.slots, end0, 0, m.size));
            }
            while i != seq
                invariant
                    self.wf(),
                    self.size == m.size,
                    self.end == end0,
                    end0 == m.end,
                    self.started == m.started,
                    self.last_consecutive == m.last_consecutive,
                    diff == wsub(seq, end0),
                    1 <= k <= diff,
                    i == wadd(end0, k as u16),
                    self@.slots == clear_gap(m.slots, end0, k - 1, m.size),
                decreases diff - k,
            {
                let ghost before = self@.slots;
                self.del_received(i);
                proof {
                    lemma_slot_wadd(end0, k as u16, m.size);
                    let q = slot_of(wadd(end0, k as u16), m.size);
                    assert(q == (end0 + k) % (m.size as int));
                    assert(self@.slots == before.update(q, false));
                    assert forall|p: int| 0 <= p < m.size implies #[trigger] self@.slots[p]
                        == clear_gap(m.slots, end0, k, m.size)[p] by {
                        lemma_gap_step(p, end0, k, m.size);
                        assert(before[p] == clear_gap(m.slots, end0, k - 1, m.size)[p]);
                    }
                    assert(self@.slots =~= clear_gap(m.slots, end0, k, m.size));
                    k = k + 1;
                }
                i = i.wrapping_add(1);
            }
            self.end = seq;
            let seq_sub_last_consecutive = seq.wrapping_sub(self.last_consecutive);
            if last_consecutive_plus1 == seq {
                self.last_consecutive = seq;
            } else if seq_sub_last_consecutive > self.size {
                self.last_consecutive = seq.wrapping_sub(self.size);
                self.fix_last_consecutive();
            }
        } else if last_consecutive_plus1 == seq {
            self.last_consecutive = seq;
            self.fix_last_consecutive();
        }
        self.set_received(seq);
        proof {
            assert(self@ == m.add(seq));
        }
    }

    /// Whether packet `seq` was received and still lies in the window.
    pub fn get(&self, seq: u16) -> (r: bool)
        requires
            self.wf(),
        ensures
            r == self@.get(seq),
    {
        let diff = self.end.wrapping_sub(seq);
        if diff >= UINT16SIZE_HALF {
            return false;
        }
        if diff >= self.size {
            return false;
        }
        self.get_received(seq)
    }

    /// The sequence numbers after `last_consecutive`, up to `end - skip_last_n`,
    /// that were not received.
    pub fn missing_seq_numbers(&self, skip_last_n: u16) -> (r: Vec<u16>)
        requires
            self.wf(),
        ensures
            r@ == self@.missing(skip_last_n),
    {
        let until = self.end.wrapping_sub(skip_last_n);
        let diff = until.wrapping_sub(self.last_consecutive);
        if diff >= UINT16SIZE_HALF {
            return Vec::new();
        }
        let ghost m = self@;
        let ghost pred = |s: u16| !m.received(s);
        let ghost all = Seq::new(diff as nat, |j: int| wadd(m.last_consecutive, (j + 1) as u16));
        let mut missing_packet_seq_nums: Vec<u16> = Vec::new();
        let mut i = self.last_consecutive.wrapping_add(1);
        let until_plus1 = until.wrapping_add(1);
        let mut j: u16 = 0;
        while i != until_plus1
            invariant
                self.wf(),
                self@ == m,
                diff < UINT16SIZE_HALF,
                diff == wsub(until, m.last_consecutive),
                until_plus1 == wadd(until, 1),
                0 <= j <= diff,
                i == wadd(m.last_consecutive, (j + 1) as u16),
                all == Seq::new(diff as nat, |j: int| wadd(m.last_consecutive, (j + 1) as u16)),
                pred == (|s: u16| !m.received(s)),
                missing_packet_seq_nums@ == all.take(j as int).filter(pred),
            decreases diff - j,
        {
            proof {
                reveal_with_fuel(Seq::filter, 1);
                assert(all.take(j + 1).drop_last() =~= all.take(j as int));
                assert(all.take(j + 1).last() == i);
            }
            let ghost prev = missing_packet_seq_nums@;
            if !self.get_received(i) {
                missing_packet_seq_nums.push(i);
            }
            proof {
                reveal_with_fuel(Seq::filter, 1);
                assert(pred(i) == !m.received(i));
                let t = all.take(j + 1);
                assert(t.filter(pred) == if pred(t.last()) {
                    t.drop_last().filter(pred).push(t.last())
                } else {
                    t.drop_last().filter(pred)
                });
                assert(missing_packet_seq_nums@ =~= all.take(j + 1).filter(pred));
            }
            i = i.wrapping_add(1);
            j = j + 1;
        }
        proof {
            assert(all.take(diff as int) =~= all);
        }
        missing_packet_seq_nums
    }
}

} // verus!
