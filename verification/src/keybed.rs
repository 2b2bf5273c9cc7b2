//! Per-key debounce / velocity state machine of the key matrix.
//!
//! Every key sits above two contacts: contact B closes first when the key is
//! pressed, contact A closes once the key bottoms out.  The time between the
//! two closures is the travel time, from which the host later derives a MIDI
//! velocity.

use vstd::arithmetic::div_mod::{
    lemma_fundamental_div_mod, lemma_fundamental_div_mod_converse, lemma_mod_bound,
};
use vstd::prelude::*;

verus! {

/// Number of real keys on the keybed.
pub const KEY_COUNT: usize = 49;

/// Matrix positions visited by one full scan pass: 8 select lines times
/// 7 read lines.  Only 49 of them map to real keys.
pub const SCAN_POSITIONS: usize = 56;

/// Travel time reported when a key reaches `Down` directly from `Up`,
/// i.e. faster than one scan interval can resolve, in milliseconds.
pub const MIN_TRAVEL_RESOLUTION_MS: u32 = 2;

/// State of one physical key.
#[derive(Copy, Clone, PartialEq, Eq, Structural, Debug)]
pub enum Key {
    /// Both contacts open.
    Up,
    /// Contact B closed, contact A still open; the payload is the
    /// millisecond timestamp at which B closed.
    DownPartial(u32),
    /// Both contacts closed; the payload is the travel time in milliseconds
    /// between the two closures.
    Down(u32),
}

/// The transition table of the per-key state machine.
///
/// `a_down` / `b_down` are the two contact readings, `key` the current state
/// and `now` the current millisecond clock.  `None` means the state does not
/// change.  Contact B open always forces `Up`; a press that completes within
/// one scan interval is reported with the minimum resolvable travel time.
/// The travel time is a saturating difference, so a clock wrap between the
/// two contact closures yields 0 rather than an underflow.
pub open spec fn spec_next_state(a_down: bool, b_down: bool, key: Key, now: u32) -> Option<Key> {
    if !b_down {
        Some(Key::Up)
    } else if a_down {
        match key {
            Key::Up => Some(Key::Down(MIN_TRAVEL_RESOLUTION_MS)),
            Key::DownPartial(t0) => Some(Key::Down(if now >= t0 { (now - t0) as u32 } else { 0 })),
            Key::Down(_) => None,
        }
    } else {
        match key {
            Key::Up => Some(Key::DownPartial(now)),
            _ => None,
        }
    }
}

/// Advances one key by one scan observation.
pub fn next_state(a_down: bool, b_down: bool, key: Key, now: u32) -> (r: Option<Key>)
    ensures
        r == spec_next_state(a_down, b_down, key, now),
{
    if !b_down {
        Some(Key::Up)
    } else if a_down {
        match key {
            Key::Up => Some(Key::Down(MIN_TRAVEL_RESOLUTION_MS)),
            Key::DownPartial(t0) => {
                let travel: u32 = if now >= t0 { now - t0 } else { 0 };
                Some(Key::Down(travel))
            },
            Key::Down(_) => None,
        }
    } else {
        match key {
            Key::Up => Some(Key::DownPartial(now)),
            _ => None,
        }
    }
}

/// State a key ends up in after one scan observation: the transition table's
/// successor where it names one, the unchanged state where it does not.
pub open spec fn scanned_key(key: Key, reading: (bool, bool), now: u32) -> Key {
    match spec_next_state(reading.0, reading.1, key, now) {
        Some(next) => next,
        None => key,
    }
}

/// A transition is reported to the host only when it produces a note-on
/// (any transition into `Down`) or a note-off (`Down` to `Up`); partial
/// presses stay internal.
pub open spec fn spec_reportable(key: Key, next: Key) -> bool {
    next is Down || (key is Down && next is Up)
}

/// Key index read at scan position `p` (`p = select * 7 + read_line`):
/// `read_line * 8 + select - 1`, with select 0 standing for 8.  Positions
/// whose index reaches `KEY_COUNT` are matrix artifacts without a key.
pub open spec fn pos_key_index(p: int) -> int {
    let i = p / 7;
    let j = p % 7;
    j * 8 + (if i == 0 { 8int } else { i }) - 1
}

/// The unique scan position at which key `k` is read; inverse of
/// `pos_key_index` on the real keys.
pub open spec fn key_pos(k: int) -> int {
    ((k % 8 + 1) % 8) * 7 + k / 8
}

/// Events reported at scan position `p`, as a sequence of zero or one
/// `(key index, new state)` pairs, judged against the key states `keys`
/// held before the pass began.
pub open spec fn event_at(keys: Seq<Key>, readings: Seq<(bool, bool)>, now: u32, p: int) -> Seq<
    (usize, Key),
> {
    let k = pos_key_index(p);
    if 0 <= p < readings.len() && 0 <= k < keys.len() && k < KEY_COUNT {
        match spec_next_state(readings[p].0, readings[p].1, keys[k], now) {
            Some(next) => if spec_reportable(keys[k], next) {
                seq![(k as usize, next)]
            } else {
                Seq::empty()
            },
            None => Seq::empty(),
        }
    } else {
        Seq::empty()
    }
}

/// Events reported at the scan positions before `p`, in scan order.
pub open spec fn events_upto(
    keys: Seq<Key>,
    readings: Seq<(bool, bool)>,
    now: u32,
    p: int,
) -> Seq<(usize, Key)>
    decreases p,
{
    if p <= 0 {
        Seq::empty()
    } else {
        events_upto(keys, readings, now, p - 1) + event_at(keys, readings, now, p - 1)
    }
}

/// At every scan position the computed key index stays below the matrix
/// size, and a position that maps to a real key is that key's unique one.
proof fn lemma_pos_key_index(p: int)
    requires
        0 <= p < SCAN_POSITIONS,
    ensures
        0 <= pos_key_index(p) < SCAN_POSITIONS,
        pos_key_index(p) < KEY_COUNT ==> key_pos(pos_key_index(p)) == p,
{
    let i = p / 7;
    let j = p % 7;
    lemma_fundamental_div_mod(p, 7);
    lemma_mod_bound(p, 7);
    assert(0 <= i < 8) by {
        lemma_fundamental_div_mod_converse(p, 7, i, j);
    };
    let s = if i == 0 { 8int } else { i };
    let k = j * 8 + s - 1;
    lemma_fundamental_div_mod_converse(k, 8, j, s - 1);
    assert(k % 8 + 1 == s);
    if s == 8 {
        assert((k % 8 + 1) % 8 == 0);
    } else {
        assert((k % 8 + 1) % 8 == s) by {
            lemma_mod_bound(k, 8);
            lemma_fundamental_div_mod_converse(s, 8, 0, s);
        };
    }
}

/// Every real key is read at exactly the position `key_pos` names.
proof fn lemma_key_pos(k: int)
    requires
        0 <= k < KEY_COUNT,
    ensures
        0 <= key_pos(k) < SCAN_POSITIONS,
        pos_key_index(key_pos(k)) == k,
{
    let j = k / 8;
    let r = k % 8;
    lemma_fundamental_div_mod(k, 8);
    lemma_mod_bound(k, 8);
    assert(0 <= j <= 6) by {
        lemma_fundamental_div_mod_converse(k, 8, j, r);
    };
    let i = (r + 1) % 8;
    if r == 7 {
        assert(i == 0);
    } else {
        assert(i == r + 1) by {
            lemma_fundamental_div_mod_converse(r + 1, 8, 0, r + 1);
        };
    }
    let p = i * 7 + j;
    lemma_fundamental_div_mod_converse(p, 7, i, j);
}

/// The fixed array of per-key states that the scanner owns for the life of
/// the process; allocated once, mutated in place by every scan pass.
pub struct Keybed {
    pub keys: Vec<Key>,
}

impl Keybed {
    /// One state per real key.
    pub open spec fn wf(&self) -> bool {
        self.keys@.len() == KEY_COUNT
    }

    /// A fresh keybed holds every key `Up`.
    pub fn new() -> (kb: Keybed)
        ensures
            kb.wf(),
            forall|k: int| 0 <= k < KEY_COUNT ==> kb.keys@[k] == Key::Up,
    {
        let mut keys: Vec<Key> = Vec::new();
        let mut n: usize = 0;
        while n < KEY_COUNT
            invariant
                n <= KEY_COUNT,
                keys@.len() == n,
                forall|k: int| 0 <= k < n ==> keys@[k] == Key::Up,
            decreases KEY_COUNT - n,
        {
            keys.push(Key::Up);
            n = n + 1;
        }
        Keybed { keys }
    }

    /// One full pass over the matrix.
    ///
    /// `readings` holds the two contact levels `(a_down, b_down)` observed at
    /// each of the 56 scan positions, in scan order (select line outer, read
    /// line inner); `now` is the millisecond clock at the time of the pass.
    /// Every real key advances by the transition table, and the reportable
    /// transitions — note-on and note-off only — come back in scan order.
    pub fn scan(&mut self, readings: &Vec<(bool, bool)>, now: u32) -> (events: Vec<(usize, Key)>)
        requires
            old(self).wf(),
            readings@.len() == SCAN_POSITIONS,
        ensures
            final(self).wf(),
            forall|k: int|
                0 <= k < KEY_COUNT ==> final(self).keys@[k] == scanned_key(
                    old(self).keys@[k],
                    readings@[key_pos(k)],
                    now,
                ),
            events@ == events_upto(old(self).keys@, readings@, now, SCAN_POSITIONS as int),
    {
        let mut events: Vec<(usize, Key)> = Vec::new();
        let mut p: usize = 0;
        while p < SCAN_POSITIONS
            invariant
                old(self).keys@.len() == KEY_COUNT,
                self.keys@.len() == KEY_COUNT,
                readings@.len() == SCAN_POSITIONS,
                p <= SCAN_POSITIONS,
                forall|k: int|
                    0 <= k < KEY_COUNT ==> #[trigger] self.keys@[k] == (if key_pos(k) < p {
                        scanned_key(old(self).keys@[k], readings@[key_pos(k)], now)
                    } else {
                        old(self).keys@[k]
                    }),
                events@ == events_upto(old(self).keys@, readings@, now, p as int),
            decreases SCAN_POSITIONS - p,
        {
            proof {
                lemma_pos_key_index(p as int);
            }
            let ghost prev_events = events@;
            let ghost ev = event_at(old(self).keys@, readings@, now, p as int);
            let i: usize = p / 7;
            let j: usize = p % 7;
            let s: usize = if i == 0 { 8 } else { i };
            let k: usize = j * 8 + s - 1;
            assert(k == pos_key_index(p as int));
            if k < KEY_COUNT {
                proof {
                    lemma_key_pos(k as int);
                }
                let current: Key = self.keys[k];
                let reading: (bool, bool) = readings[p];
                assert(current == old(self).keys@[k as int]);
                match next_state(reading.0, reading.1, current, now) {
                    Some(next) => {
                        let report: bool = match (current, next) {
                            (_, Key::Down(_)) => true,
                            (Key::Down(_), Key::Up) => true,
                            _ => false,
                        };
                        proof {
                            assert(report == spec_reportable(current, next));
                            if report {
                                assert(ev =~= seq![(k as usize, next)]);
                            } else {
                                assert(ev =~= Seq::<(usize, Key)>::empty());
                            }
                        }
                        if report {
                            events.push((k, next));
                        }
                        self.keys[k] = next;
                    },
                    None => {
                        proof {
                            assert(ev =~= Seq::<(usize, Key)>::empty());
                        }
                    },
                }
                assert forall|k2: int| 0 <= k2 < KEY_COUNT && k2 != k implies key_pos(k2) != p by {
                    lemma_key_pos(k2);
                }
            } else {
                proof {
                    assert(ev =~= Seq::<(usize, Key)>::empty());
                }
            }
            proof {
                assert(events@ =~= prev_events + ev);
                assert(events_upto(old(self).keys@, readings@, now, p + 1) == events_upto(
                    old(self).keys@,
                    readings@,
                    now,
                    p as int,
                ) + ev);
            }
            p = p + 1;
        }
        events
    }
}

/// Contact B open forces a key to `Up`, whatever the other contact or the
/// current state says.
pub proof fn lemma_contact_b_open_forces_up(a_down: bool, key: Key, now: u32)
    ensures
        spec_next_state(a_down, false, key, now) == Some(Key::Up),
{
}

/// From `Up`, contact B alone starts a press stamped with the current clock,
/// and both contacts at once complete a press at the minimum resolvable
/// travel time.
pub proof fn lemma_press_from_up(now: u32)
    ensures
        spec_next_state(false, true, Key::Up, now) == Some(Key::DownPartial(now)),
        spec_next_state(true, true, Key::Up, now) == Some(Key::Down(MIN_TRAVEL_RESOLUTION_MS)),
{
}

/// From `DownPartial(t0)`, both contacts complete the press with the elapsed
/// travel time; the subtraction saturates, so even a clock that wrapped
/// between the contacts (now < t0) yields 0 instead of underflowing.
pub proof fn lemma_press_completion(t0: u32, now: u32)
    ensures
        spec_next_state(true, true, Key::DownPartial(t0), now)
            == Some(Key::Down(if now >= t0 { (now - t0) as u32 } else { 0 })),
{
}

} // verus!
