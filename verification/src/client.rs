//! The game client's bookkeeping: the bounded queues between the page and
//! the game, the log of local inputs kept for replay after a server
//! correction, sprite-sheet rows and terrain tinting.

use vstd::prelude::*;
use crate::movement::InputState;
use crate::protocol::InputCommand;

verus! {

#[derive(Debug, Clone, Copy, PartialEq, Eq, Structural)]
pub enum FacingDirection {
    Down,
    Left,
    Right,
    Up,
}

impl FacingDirection {
    /// The sprite-sheet row of a facing: the sheet's rows are up (back),
    /// right, down (front), left.
    pub fn row_index(self) -> (row: usize)
        ensures
            row == (match self {
                FacingDirection::Up => 0usize,
                FacingDirection::Right => 1,
                FacingDirection::Down => 2,
                FacingDirection::Left => 3,
            }),
    {
        match self {
            FacingDirection::Up => 0,
            FacingDirection::Right => 1,
            FacingDirection::Down => 2,
            FacingDirection::Left => 3,
        }
    }
}

/// The checkerboard tint of a terrain cell: lighter on cells whose
/// coordinates sum to an even number, darker on the others.
pub fn terrain_parity_delta(grid_x: i32, grid_y: i32) -> (delta: i16)
    requires
        i32::MIN <= grid_x + grid_y <= i32::MAX,
    ensures
        delta == (if (grid_x + grid_y) % 2 == 0 {
            5i16
        } else {
            -5i16
        }),
{
    let sum = grid_x as i64 + grid_y as i64;
    if sum % 2 == 0 {
        5
    } else {
        -5
    }
}

/// A colour channel shifted by `delta`, kept within 0..=255.
pub fn tint_channel(channel: u8, delta: i16) -> (tinted: u8)
    requires
        channel + delta <= i16::MAX,
    ensures
        tinted == (if channel + delta < 0 {
            0
        } else if channel + delta > 255 {
            255
        } else {
            channel + delta
        }),
{
    let shifted = channel as i32 + delta as i32;
    if shifted < 0 {
        0
    } else if shifted > 255 {
        255
    } else {
        shifted as u8
    }
}

/// Most snapshots waiting to be applied.
pub const MAX_INBOUND_SNAPSHOTS: usize = 12;
/// Most local inputs waiting to be sent.
pub const MAX_OUTBOUND_INPUTS: usize = 256;
/// Most feature commands waiting to be sent.
pub const MAX_OUTBOUND_FEATURE_COMMANDS: usize = 128;
/// Most local inputs kept for replay.
pub const MAX_INPUT_HISTORY: usize = 512;

/// The last `capacity` items of `items` (all of them when there are fewer).
pub open spec fn keep_newest<T>(items: Seq<T>, capacity: nat) -> Seq<T> {
    if items.len() > capacity {
        items.skip(items.len() - capacity)
    } else {
        items
    }
}

/// A first-in first-out queue that keeps only its newest items: pushing onto
/// a full queue drops the oldest.
pub struct BoundedQueue<T> {
    items: Vec<T>,
    capacity: usize,
}

impl<T> View for BoundedQueue<T> {
    type V = Seq<T>;

    closed spec fn view(&self) -> Seq<T> {
        self.items@
    }
}

impl<T> BoundedQueue<T> {
    /// The most items the queue keeps.
    pub closed spec fn capacity_spec(&self) -> nat {
        self.capacity as nat
    }

    /// An empty queue that keeps at most `capacity` items.
    pub fn new(capacity: usize) -> (queue: Self)
        ensures
            queue@ == Seq::<T>::empty(),
            queue.capacity_spec() == capacity,
    {
        BoundedQueue { items: Vec::new(), capacity }
    }

    pub fn capacity(&self) -> (capacity: usize)
        ensures
            capacity == self.capacity_spec(),
    {
        self.capacity
    }

    pub fn len(&self) -> (n: usize)
        ensures
            n == self@.len(),
    {
        self.items.len()
    }

    pub fn is_empty(&self) -> (empty: bool)
        ensures
            empty == (self@.len() == 0),
    {
        self.items.len() == 0
    }

    /// Appends `item`, then drops the oldest items beyond the capacity.
    pub fn push(&mut self, item: T)
        ensures
            final(self)@ == keep_newest(old(self)@.push(item), old(self).capacity_spec()),
            final(self).capacity_spec() == old(self).capacity_spec(),
            final(self)@.len() <= final(self).capacity_spec(),
    {
        self.items.push(item);
        if self.items.len() > self.capacity {
            let overflow = self.items.len() - self.capacity;
            let kept = self.items.split_off(overflow);
            self.items = kept;
        }
    }

    /// Takes every item out, oldest first, and leaves the queue empty.
    pub fn drain(&mut self) -> (items: Vec<T>)
        ensures
            items@ == old(self)@,
            final(self)@ == Seq::<T>::empty(),
            final(self).capacity_spec() == old(self).capacity_spec(),
    {
        let mut items = Vec::new();
        std::mem::swap(&mut items, &mut self.items);
        items
    }

    /// Removes every item.
    pub fn clear(&mut self)
        ensures
            final(self)@ == Seq::<T>::empty(),
            final(self).capacity_spec() == old(self).capacity_spec(),
    {
        self.items.clear();
    }
}

/// A local input with its sequence number.
#[derive(Debug, Clone, Copy, PartialEq, Eq, Structural)]
pub struct InputHistoryEntry {
    pub seq: u32,
    pub state: InputState,
}

/// The log's entries after dropping, from the front, those that the server
/// has acknowledged (sequence number at most `ack`).
pub open spec fn drop_acknowledged(entries: Seq<InputHistoryEntry>, ack: u32) -> Seq<
    InputHistoryEntry,
>
    decreases entries.len(),
{
    if entries.len() > 0 && entries[0].seq <= ack {
        drop_acknowledged(entries.drop_first(), ack)
    } else {
        entries
    }
}

/// Sequence numbers never decrease along the log, and none is above the
/// next number to hand out.
pub open spec fn log_ordered(entries: Seq<InputHistoryEntry>, next_seq: u32) -> bool {
    &&& forall|i: int, j: int|
        0 <= i < j < entries.len() ==> #[trigger] entries[i].seq <= #[trigger] entries[j].seq
    &&& forall|i: int| 0 <= i < entries.len() ==> #[trigger] entries[i].seq <= next_seq
}

/// The local player's inputs: each sampled input gets the next sequence
/// number and is kept, up to 512, until the server acknowledges it; what is
/// left is replayed on top of the server's position.
pub struct InputLog {
    next_seq: u32,
    history: BoundedQueue<InputHistoryEntry>,
}

impl InputLog {
    /// The sequence number the next input gets.
    pub closed spec fn next_seq_spec(&self) -> u32 {
        self.next_seq
    }

    /// The inputs not yet acknowledged, oldest first.
    pub closed spec fn pending_spec(&self) -> Seq<InputHistoryEntry> {
        self.history@
    }

    /// The log keeps its bound and its order.
    pub closed spec fn wf(&self) -> bool {
        &&& self.history.capacity_spec() == MAX_INPUT_HISTORY
        &&& self.history@.len() <= MAX_INPUT_HISTORY
        &&& log_ordered(self.history@, self.next_seq)
    }

    /// An empty log whose first input gets sequence number 1.
    pub fn new() -> (log: Self)
        ensures
            log.wf(),
            log.next_seq_spec() == 1,
            log.pending_spec() == Seq::<InputHistoryEntry>::empty(),
    {
        InputLog { next_seq: 1, history: BoundedQueue::new(MAX_INPUT_HISTORY) }
    }

    pub fn next_seq(&self) -> (seq: u32)
        ensures
            seq == self.next_seq_spec(),
    {
        self.next_seq
    }

    /// Logs `state` under the next sequence number (which then advances,
    /// saturating at `u32::MAX`), dropping the oldest entry beyond 512, and
    /// gives the command to send.
    pub fn record(&mut self, state: InputState) -> (command: InputCommand)
        requires
            old(self).wf(),
        ensures
            final(self).wf(),
            command == (InputCommand {
                seq: old(self).next_seq_spec(),
                up: state.up,
                down: state.down,
                left: state.left,
                right: state.right,
            }),
            final(self).next_seq_spec() == old(self).next_seq_spec().saturating_add(1),
            final(self).pending_spec() == keep_newest(
                old(self).pending_spec().push(
                    InputHistoryEntry { seq: old(self).next_seq_spec(), state },
                ),
                MAX_INPUT_HISTORY as nat,
            ),
    {
        let seq = self.next_seq;
        self.next_seq = self.next_seq.saturating_add(1);
        let ghost before = self.history@;
        self.history.push(InputHistoryEntry { seq, state });
        proof {
            let pushed = before.push(InputHistoryEntry { seq, state });
            assert(log_ordered(pushed, self.next_seq)) by {
                assert forall|i: int, j: int| 0 <= i < j < pushed.len() implies #[trigger] pushed[i].seq
                    <= #[trigger] pushed[j].seq by {
                    if j == pushed.len() - 1 {
                        assert(pushed[i] == before[i]);
                    } else {
                        assert(pushed[i] == before[i] && pushed[j] == before[j]);
                    }
                }
                assert forall|i: int| 0 <= i < pushed.len() implies #[trigger] pushed[i].seq
                    <= self.next_seq by {
                    if i < pushed.len() - 1 {
                        assert(pushed[i] == before[i]);
                    }
                }
            }
            let kept = self.history@;
            if pushed.len() > MAX_INPUT_HISTORY {
                let k = pushed.len() - MAX_INPUT_HISTORY;
                assert forall|i: int, j: int| 0 <= i < j < kept.len() implies #[trigger] kept[i].seq
                    <= #[trigger] kept[j].seq by {
                    assert(kept[i] == pushed[i + k] && kept[j] == pushed[j + k]);
                }
                assert forall|i: int| 0 <= i < kept.len() implies #[trigger] kept[i].seq
                    <= self.next_seq by {
                    assert(kept[i] == pushed[i + k]);
                }
            }
        }
        InputCommand { seq, up: state.up, down: state.down, left: state.left, right: state.right }
    }

    /// Forgets the inputs the server has acknowledged: those at the front
    /// whose sequence number is at most `ack`.
    pub fn acknowledge(&mut self, ack: u32)
        requires
            old(self).wf(),
        ensures
            final(self).wf(),
            final(self).next_seq_spec() == old(self).next_seq_spec(),
            final(self).pending_spec() == drop_acknowledged(old(self).pending_spec(), ack),
            forall|i: int|
                0 <= i < final(self).pending_spec().len() ==> (#[trigger] final(self).pending_spec()[i]).seq
                    > ack,
    {
        let entries = self.history.drain();
        let mut start: usize = 0;
        proof {
            assert(entries@.skip(0) =~= entries@);
        }
        while start < entries.len() && entries[start].seq <= ack
            invariant
                start <= entries@.len(),
                drop_acknowledged(entries@, ack) == drop_acknowledged(entries@.skip(start as int), ack),
            decreases entries@.len() - start,
        {
            proof {
                assert(entries@.skip(start as int).drop_first() =~= entries@.skip(start + 1));
            }
            start += 1;
        }
        let mut i: usize = start;
        while i < entries.len()
            invariant
                start <= i <= entries@.len(),
                self.history@ == entries@.subrange(start as int, i as int),
                self.history.capacity_spec() == MAX_INPUT_HISTORY,
                self.next_seq == old(self).next_seq,
                entries@.len() <= MAX_INPUT_HISTORY,
            decreases entries@.len() - i,
        {
            self.history.push(entries[i]);
            proof {
                assert(entries@.subrange(start as int, i as int).push(entries@[i as int])
                    =~= entries@.subrange(start as int, i + 1));
            }
            i += 1;
        }
        proof {
            assert(entries@.skip(start as int) =~= entries@.subrange(start as int, entries@.len() as int));
            if start < entries@.len() {
                assert(entries@.skip(start as int)[0] == entries@[start as int]);
            }
            let rest = self.history@;
            assert forall|k: int| 0 <= k < rest.len() implies #[trigger] rest[k].seq > ack by {
                assert(rest[k] == entries@[start + k]);
                assert(entries@[start as int].seq <= entries@[start + k].seq);
            }
            assert forall|a: int, b: int| 0 <= a < b < rest.len() implies #[trigger] rest[a].seq
                <= #[trigger] rest[b].seq by {
                assert(rest[a] == entries@[start + a] && rest[b] == entries@[start + b]);
            }
            assert forall|a: int| 0 <= a < rest.len() implies #[trigger] rest[a].seq
                <= self.next_seq by {
                assert(rest[a] == entries@[start + a]);
            }
        }
    }

    /// The inputs not yet acknowledged, oldest first, to replay.
    pub fn pending(&self) -> (entries: Vec<InputHistoryEntry>)
        ensures
            entries@ == self.pending_spec(),
    {
        let mut out: Vec<InputHistoryEntry> = Vec::new();
        let mut i: usize = 0;
        while i < self.history.items.len()
            invariant
                i <= self.history@.len(),
                out@ == self.history@.take(i as int),
            decreases self.history@.len() - i,
        {
            out.push(self.history.items[i]);
            proof {
                assert(self.history@.take(i as int).push(self.history@[i as int])
                    =~= self.history@.take(i + 1));
            }
            i += 1;
        }
        proof {
            assert(self.history@.take(i as int) =~= self.history@);
        }
        out
    }

    /// Starts over: nothing logged, and the next input gets sequence number 1.
    pub fn reset(&mut self)
        ensures
            final(self).wf(),
            final(self).next_seq_spec() == 1,
            final(self).pending_spec() == Seq::<InputHistoryEntry>::empty(),
    {
        self.next_seq = 1;
        self.history = BoundedQueue::new(MAX_INPUT_HISTORY);
    }
}

} // verus!
