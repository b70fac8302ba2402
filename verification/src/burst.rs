//! Burst suppression: events are fingerprinted by target, level and the
//! start of their message. Per fingerprint, an event passes only while
//! fewer than `max_per_window` of the earlier ones passed within the last
//! `window_secs` seconds (a sliding window); the first event of each run
//! of suppressed ones raises a single summary warning.

use std::collections::hash_map::DefaultHasher;
use std::collections::HashMap;
use std::hash::Hasher;

use vstd::prelude::*;
use vstd::std_specs::hash::DefaultHasherAdditionalSpecFns;
use vstd::utf8::encode_utf8;

use crate::event_meta::{is_older_than, older_than, TraceLevel};
use crate::text::{prefix, prefix_spec};

verus! {

/// Number of leading message characters that enter a fingerprint.
pub const FINGERPRINT_PREFIX_CHARS: usize = 80;

/// The discriminant of the tracing level (`TRACE` 0 up to `ERROR` 4).
pub open spec fn level_code(level: TraceLevel) -> u8 {
    match level {
        TraceLevel::Trace => 0,
        TraceLevel::Debug => 1,
        TraceLevel::Info => 2,
        TraceLevel::Warn => 3,
        TraceLevel::Error => 4,
    }
}

/// The bytes a level's derived `Hash` writes: its `usize` discriminant
/// as 8 little-endian bytes.
pub open spec fn level_bytes(level: TraceLevel) -> Seq<u8> {
    seq![level_code(level), 0u8, 0u8, 0u8, 0u8, 0u8, 0u8, 0u8]
}

/// The fingerprint of an event: the `DefaultHasher` digest of what
/// hashing its target (a `str`: its UTF-8 bytes, then `0xff`), its level
/// and the first 80 characters of its message (as a `str` again) writes.
pub open spec fn fingerprint_spec(target: Seq<char>, level: TraceLevel, message: Seq<char>) -> u64 {
    DefaultHasher::spec_finish(
        seq![
            encode_utf8(target),
            seq![0xffu8],
            level_bytes(level),
            encode_utf8(prefix_spec(message, FINGERPRINT_PREFIX_CHARS as nat)),
            seq![0xffu8],
        ],
    )
}

/// Fingerprints an event by its target, its level and the first 80
/// characters of its message.
pub fn fingerprint(target: &str, level: TraceLevel, message: &str) -> (fp: u64)
    ensures
        fp == fingerprint_spec(target@, level, message@),
{
    let head = prefix(message, FINGERPRINT_PREFIX_CHARS);
    let code: u8 = match level {
        TraceLevel::Trace => 0,
        TraceLevel::Debug => 1,
        TraceLevel::Info => 2,
        TraceLevel::Warn => 3,
        TraceLevel::Error => 4,
    };
    let terminator: [u8; 1] = [0xff];
    let level_le: [u8; 8] = [code, 0, 0, 0, 0, 0, 0, 0];
    let mut hasher = DefaultHasher::new();
    hasher.write(target.as_bytes());
    hasher.write(terminator.as_slice());
    hasher.write(level_le.as_slice());
    hasher.write(head.as_str().as_bytes());
    hasher.write(terminator.as_slice());
    proof {
        assert(terminator@ =~= seq![0xffu8]);
        assert(level_le@ =~= level_bytes(level));
        assert(hasher@ =~= seq![
            encode_utf8(target@),
            seq![0xffu8],
            level_bytes(level),
            encode_utf8(prefix_spec(message@, FINGERPRINT_PREFIX_CHARS as nat)),
            seq![0xffu8],
        ]);
    }
    hasher.finish()
}

/// The level law of the fingerprint: the level enters as tracing's
/// discriminants, which rise strictly from `TRACE` to `ERROR` within
/// 0..=4 (so they are exactly 0, 1, 2, 3, 4); hence levels with equal
/// codes, or equal written bytes, are the same level, and events that
/// differ only in level have different fingerprint inputs.
pub proof fn lemma_level_enters_fingerprint(a: TraceLevel, b: TraceLevel, target: Seq<char>, message: Seq<char>)
    ensures
        level_code(TraceLevel::Trace) < level_code(TraceLevel::Debug),
        level_code(TraceLevel::Debug) < level_code(TraceLevel::Info),
        level_code(TraceLevel::Info) < level_code(TraceLevel::Warn),
        level_code(TraceLevel::Warn) < level_code(TraceLevel::Error),
        level_code(TraceLevel::Error) <= 4,
        (level_code(a) == level_code(b)) == (a == b),
        (level_bytes(a) == level_bytes(b)) == (a == b),
        a != b ==> seq![
            encode_utf8(target),
            seq![0xffu8],
            level_bytes(a),
            encode_utf8(prefix_spec(message, FINGERPRINT_PREFIX_CHARS as nat)),
            seq![0xffu8],
        ] != seq![
            encode_utf8(target),
            seq![0xffu8],
            level_bytes(b),
            encode_utf8(prefix_spec(message, FINGERPRINT_PREFIX_CHARS as nat)),
            seq![0xffu8],
        ],
{
    if a != b {
        assert(level_bytes(a)[0] != level_bytes(b)[0]);
        let sa = seq![
            encode_utf8(target),
            seq![0xffu8],
            level_bytes(a),
            encode_utf8(prefix_spec(message, FINGERPRINT_PREFIX_CHARS as nat)),
            seq![0xffu8],
        ];
        let sb = seq![
            encode_utf8(target),
            seq![0xffu8],
            level_bytes(b),
            encode_utf8(prefix_spec(message, FINGERPRINT_PREFIX_CHARS as nat)),
            seq![0xffu8],
        ];
        assert(sa[2] != sb[2]);
    }
}

/// Events with the same target and level whose messages agree on their
/// first 80 characters share a fingerprint, whatever follows.
pub proof fn lemma_fingerprint_reads_prefix(target: Seq<char>, level: TraceLevel, m1: Seq<char>, m2: Seq<char>)
    requires
        prefix_spec(m1, FINGERPRINT_PREFIX_CHARS as nat) == prefix_spec(m2, FINGERPRINT_PREFIX_CHARS as nat),
    ensures
        fingerprint_spec(target, level, m1) == fingerprint_spec(target, level, m2),
{
}

/// The bookkeeping kept for one fingerprint: the times (nanoseconds on
/// the caller's monotonic clock) of its forwarded events that may still
/// lie in the window, oldest first, and how many of its events were
/// suppressed since the last one forwarded (saturating at `u64::MAX`).
pub struct BurstEntry {
    pub forwarded: Vec<u128>,
    pub suppressed: u64,
}

/// The value of a `BurstEntry`.
pub struct BurstEntryView {
    pub forwarded: Seq<u128>,
    pub suppressed: u64,
}

impl View for BurstEntry {
    type V = BurstEntryView;

    open spec fn view(&self) -> BurstEntryView {
        BurstEntryView { forwarded: self.forwarded@, suppressed: self.suppressed }
    }
}

/// What the layer does with one event.
#[derive(Debug, Clone, Copy, PartialEq, Eq, Structural)]
pub enum BurstVerdict {
    /// Pass the event on.
    Forward,
    /// Drop the event and emit the summary warning: it is the first one
    /// suppressed since its fingerprint last passed.
    SuppressAndWarn,
    /// Drop the event silently.
    Suppress,
}

/// `x + 1`, held at `u64::MAX`.
pub open spec fn saturating_inc(x: u64) -> u64 {
    if x == u64::MAX {
        x
    } else {
        (x + 1) as u64
    }
}

/// Whether an event at time `t` lies in the window that ends at `now`:
/// no more than `window_secs` seconds before it.
pub open spec fn in_window(t: u128, now: u128, window_secs: u64) -> bool {
    !older_than(t, now, window_secs)
}

/// The predicate "lies in the window that ends at `now`".
pub open spec fn window_pred(now: u128, window_secs: u64) -> spec_fn(u128) -> bool {
    |t: u128| in_window(t, now, window_secs)
}

/// The recorded forward times that lie in the window ending at `now`.
pub open spec fn recent_forwards(prev: Option<BurstEntryView>, now: u128, window_secs: u64) -> Seq<u128> {
    match prev {
        Some(e) => e.forwarded.filter(window_pred(now, window_secs)),
        None => Seq::empty(),
    }
}

/// The suppressed count of an entry, 0 for none.
pub open spec fn prev_suppressed(prev: Option<BurstEntryView>) -> u64 {
    match prev {
        Some(e) => e.suppressed,
        None => 0,
    }
}

/// The verdict for an event at `now`: forward when fewer than
/// `max_per_window` forwards lie in the window ending at `now`; otherwise
/// warn when it is the first suppressed since the last forward, and
/// suppress silently when it is not.
pub open spec fn burst_verdict(prev: Option<BurstEntryView>, now: u128, window_secs: u64, max_per_window: u64) -> BurstVerdict {
    if recent_forwards(prev, now, window_secs).len() < max_per_window {
        BurstVerdict::Forward
    } else if prev_suppressed(prev) == 0 {
        BurstVerdict::SuppressAndWarn
    } else {
        BurstVerdict::Suppress
    }
}

/// The entry of a fingerprint after one more of its events at `now`:
/// forward times outside the window are dropped; a forwarded event adds
/// its time and resets the suppressed count, a suppressed one raises it.
pub open spec fn next_entry(prev: Option<BurstEntryView>, now: u128, window_secs: u64, max_per_window: u64) -> BurstEntryView {
    let kept = recent_forwards(prev, now, window_secs);
    if kept.len() < max_per_window {
        BurstEntryView { forwarded: kept.push(now), suppressed: 0 }
    } else {
        BurstEntryView { forwarded: kept, suppressed: saturating_inc(prev_suppressed(prev)) }
    }
}

/// The abstract state of a burst-suppression layer.
pub struct BurstView {
    pub entries: Map<u64, BurstEntryView>,
    pub window_secs: u64,
    pub max_per_window: u64,
}

/// The entry that `entries` holds for `fp`, if any.
pub open spec fn entry_of(entries: Map<u64, BurstEntryView>, fp: u64) -> Option<BurstEntryView> {
    if entries.contains_key(fp) {
        Some(entries[fp])
    } else {
        None
    }
}

/// The times of `times` that lie in the window ending at `now`.
fn recent_times(times: &Vec<u128>, now: u128, window_secs: u64) -> (r: Vec<u128>)
    ensures
        r@ == times@.filter(window_pred(now, window_secs)),
{
    let ghost p = window_pred(now, window_secs);
    let mut r: Vec<u128> = Vec::new();
    let mut i: usize = 0;
    proof {
        reveal(Seq::filter);
        assert(times@.take(0) =~= Seq::<u128>::empty());
    }
    while i < times.len()
        invariant
            i <= times.len(),
            p == window_pred(now, window_secs),
            r@ == times@.take(i as int).filter(p),
        decreases times.len() - i,
    {
        proof {
            assert(times@.take(i + 1).drop_last() =~= times@.take(i as int));
            assert(times@.take(i + 1).last() == times@[i as int]);
            reveal(Seq::filter);
        }
        if !is_older_than(times[i], now, window_secs) {
            r.push(times[i]);
        }
        i = i + 1;
    }
    proof {
        assert(times@.take(times.len() as int) =~= times@);
    }
    r
}

/// Suppresses repeated events within a sliding time window, per
/// fingerprint.
pub struct BurstSuppressionLayer {
    state: HashMap<u64, BurstEntry>,
    window_secs: u64,
    max_per_window: u64,
}

impl View for BurstSuppressionLayer {
    type V = BurstView;

    closed spec fn view(&self) -> BurstView {
        BurstView {
            entries: self.state@.map_values(|e: BurstEntry| e@),
            window_secs: self.window_secs,
            max_per_window: self.max_per_window,
        }
    }
}

impl BurstSuppressionLayer {
    /// A layer with no fingerprint seen yet, that lets at most
    /// `max_per_window` events of one fingerprint through per
    /// `window_secs` seconds.
    pub fn new(window_secs: u64, max_per_window: u64) -> (l: BurstSuppressionLayer)
        ensures
            l@.entries == Map::<u64, BurstEntryView>::empty(),
            l@.window_secs == window_secs,
            l@.max_per_window == max_per_window,
    {
        let l = BurstSuppressionLayer { state: HashMap::new(), window_secs, max_per_window };
        proof {
            assert(l@.entries =~= Map::<u64, BurstEntryView>::empty());
        }
        l
    }

    /// The window length, in seconds.
    pub fn window_secs(&self) -> (w: u64)
        ensures
            w == self@.window_secs,
    {
        self.window_secs
    }

    /// The number of events of one fingerprint let through per window.
    pub fn max_per_window(&self) -> (m: u64)
        ensures
            m == self@.max_per_window,
    {
        self.max_per_window
    }

    /// Records one event with fingerprint `fp` seen at `now` (nanoseconds
    /// on the caller's monotonic clock) and says what to do with it: it
    /// is forwarded exactly when fewer than `max_per_window` recorded
    /// forwards of `fp` lie in the window ending at `now`. Only the entry
    /// of `fp` changes.
    pub fn observe(&mut self, fp: u64, now: u128) -> (v: BurstVerdict)
        ensures
            final(self)@.window_secs == old(self)@.window_secs,
            final(self)@.max_per_window == old(self)@.max_per_window,
            final(self)@.entries == old(self)@.entries.insert(
                fp,
                next_entry(entry_of(old(self)@.entries, fp), now, old(self)@.window_secs, old(self)@.max_per_window),
            ),
            v == burst_verdict(entry_of(old(self)@.entries, fp), now, old(self)@.window_secs, old(self)@.max_per_window),
            (v == BurstVerdict::Forward) == (recent_forwards(entry_of(old(self)@.entries, fp), now, old(self)@.window_secs).len()
                < old(self)@.max_per_window),
    {
        let ghost prev = entry_of(self@.entries, fp);
        let ghost old_state = self.state@;
        let mut kept: Vec<u128> = Vec::new();
        let mut suppressed: u64 = 0;
        match self.state.get(&fp) {
            Some(e) => {
                proof {
                    assert(prev == Some(e@));
                }
                kept = recent_times(&e.forwarded, now, self.window_secs);
                suppressed = e.suppressed;
            },
            None => {
                proof {
                    assert(prev == None::<BurstEntryView>);
                    assert(kept@ =~= recent_forwards(prev, now, self.window_secs));
                }
            },
        }
        let forward = (kept.len() as u128) < (self.max_per_window as u128);
        let verdict = if forward {
            BurstVerdict::Forward
        } else if suppressed == 0 {
            BurstVerdict::SuppressAndWarn
        } else {
            BurstVerdict::Suppress
        };
        if forward {
            kept.push(now);
            suppressed = 0;
        } else {
            suppressed = suppressed.saturating_add(1);
        }
        let entry = BurstEntry { forwarded: kept, suppressed };
        proof {
            assert(entry@ == next_entry(prev, now, self.window_secs, self.max_per_window));
        }
        self.state.insert(fp, entry);
        proof {
            assert(self.state@.map_values(|e: BurstEntry| e@) =~= old_state.map_values(|e: BurstEntry| e@).insert(
                fp,
                entry@,
            ));
        }
        verdict
    }
}

/// The entry of a fingerprint after a run of its events at the given
/// times, starting from none.
pub open spec fn run_entry(times: Seq<u128>, window_secs: u64, max_per_window: u64) -> Option<BurstEntryView>
    decreases times.len(),
{
    if times.len() == 0 {
        None
    } else {
        Some(next_entry(run_entry(times.drop_last(), window_secs, max_per_window), times.last(), window_secs, max_per_window))
    }
}

/// The verdict for the last event of such a run.
pub open spec fn last_verdict(times: Seq<u128>, window_secs: u64, max_per_window: u64) -> BurstVerdict
    recommends
        times.len() > 0,
{
    burst_verdict(run_entry(times.drop_last(), window_secs, max_per_window), times.last(), window_secs, max_per_window)
}

/// The times of the run's events that were forwarded, in order.
pub open spec fn forward_times(times: Seq<u128>, window_secs: u64, max_per_window: u64) -> Seq<u128>
    decreases times.len(),
{
    if times.len() == 0 {
        Seq::empty()
    } else {
        let f = forward_times(times.drop_last(), window_secs, max_per_window);
        if last_verdict(times, window_secs, max_per_window) == BurstVerdict::Forward {
            f.push(times.last())
        } else {
            f
        }
    }
}

/// The times never go backwards.
pub open spec fn nondecreasing(times: Seq<u128>) -> bool {
    forall|i: int, j: int| 0 <= i <= j < times.len() ==> times[i] <= times[j]
}

/// Narrowing a filter: when `q` implies `p` on the elements of `s`,
/// filtering by `p` and then by `q` is filtering by `q`.
proof fn lemma_filter_narrow(s: Seq<u128>, p: spec_fn(u128) -> bool, q: spec_fn(u128) -> bool)
    requires
        forall|i: int| 0 <= i < s.len() && q(s[i]) ==> p(s[i]),
    ensures
        s.filter(p).filter(q) == s.filter(q),
    decreases s.len(),
{
    reveal(Seq::filter);
    if s.len() > 0 {
        let dl = s.drop_last();
        assert forall|i: int| 0 <= i < dl.len() && q(dl[i]) implies p(dl[i]) by {
            assert(dl[i] == s[i]);
        }
        lemma_filter_narrow(dl, p, q);
        if p(s.last()) {
            assert(s.filter(p).drop_last() =~= dl.filter(p));
        }
    }
}

/// A later window holds no time of an earlier one that a window ending
/// before it had already left.
proof fn lemma_window_shrinks(t: u128, earlier: u128, now: u128, window_secs: u64)
    requires
        t <= earlier <= now,
    ensures
        in_window(t, now, window_secs) ==> in_window(t, earlier, window_secs),
{
}

/// Every forward time of a nondecreasing run is at most its last time.
proof fn lemma_forward_times_bounded(times: Seq<u128>, window_secs: u64, max_per_window: u64)
    requires
        nondecreasing(times),
        times.len() > 0,
    ensures
        forall|k: int|
            0 <= k < forward_times(times, window_secs, max_per_window).len() ==> #[trigger] forward_times(
                times,
                window_secs,
                max_per_window,
            )[k] <= times.last(),
    decreases times.len(),
{
    let dl = times.drop_last();
    if dl.len() > 0 {
        assert forall|i: int, j: int| 0 <= i <= j < dl.len() implies dl[i] <= dl[j] by {
            assert(dl[i] == times[i] && dl[j] == times[j]);
        }
        lemma_forward_times_bounded(dl, window_secs, max_per_window);
        assert(dl.last() == times[times.len() - 2]);
        assert(dl.last() <= times.last());
    }
    let fd = forward_times(dl, window_secs, max_per_window);
    let f = forward_times(times, window_secs, max_per_window);
    if dl.len() == 0 {
        assert(fd =~= Seq::<u128>::empty());
    }
    assert forall|k: int| 0 <= k < f.len() implies #[trigger] f[k] <= times.last() by {
        if k < fd.len() {
            assert(f[k] == fd[k]);
        }
    }
}

/// What a run's entry holds: exactly the forward times in the window
/// ending at its last event, no more than the cap of them, and a
/// suppressed count of 0 exactly when the last event was forwarded.
proof fn lemma_run_tracks_forwards(times: Seq<u128>, window_secs: u64, max_per_window: u64)
    requires
        nondecreasing(times),
        times.len() > 0,
    ensures
        run_entry(times, window_secs, max_per_window) is Some,
        run_entry(times, window_secs, max_per_window).unwrap().forwarded == forward_times(times, window_secs, max_per_window).filter(
            window_pred(times.last(), window_secs),
        ),
        run_entry(times, window_secs, max_per_window).unwrap().forwarded.len() <= max_per_window,
        (run_entry(times, window_secs, max_per_window).unwrap().suppressed == 0) == (last_verdict(
            times,
            window_secs,
            max_per_window,
        ) == BurstVerdict::Forward),
    decreases times.len(),
{
    reveal(Seq::filter);
    let dl = times.drop_last();
    let now = times.last();
    let pn = window_pred(now, window_secs);
    if dl.len() == 0 {
        let f = forward_times(times, window_secs, max_per_window);
        assert(forward_times(dl, window_secs, max_per_window) =~= Seq::<u128>::empty());
        if last_verdict(times, window_secs, max_per_window) == BurstVerdict::Forward {
            assert(f =~= seq![now]);
            assert(f.drop_last() =~= Seq::<u128>::empty());
            assert(f.filter(pn) =~= seq![now]);
            assert(Seq::<u128>::empty().push(now) =~= seq![now]);
        } else {
            assert(f =~= Seq::<u128>::empty());
        }
    } else {
        assert forall|i: int, j: int| 0 <= i <= j < dl.len() implies dl[i] <= dl[j] by {
            assert(dl[i] == times[i] && dl[j] == times[j]);
        }
        lemma_run_tracks_forwards(dl, window_secs, max_per_window);
        lemma_forward_times_bounded(dl, window_secs, max_per_window);
        let fd = forward_times(dl, window_secs, max_per_window);
        let pd = window_pred(dl.last(), window_secs);
        assert(dl.last() == times[times.len() - 2]);
        assert forall|i: int| 0 <= i < fd.len() && pn(fd[i]) implies pd(fd[i]) by {
            lemma_window_shrinks(fd[i], dl.last(), now, window_secs);
        }
        lemma_filter_narrow(fd, pd, pn);
        let e = run_entry(dl, window_secs, max_per_window).unwrap();
        assert(recent_forwards(Some(e), now, window_secs) == fd.filter(pn));
        fd.filter(pd).lemma_filter_len(pn);
        if last_verdict(times, window_secs, max_per_window) == BurstVerdict::Forward {
            let f = fd.push(now);
            assert(f.drop_last() =~= fd);
            assert(pn(now));
        }
    }
}

/// The sliding-window law: in a run of events of one fingerprint at
/// nondecreasing times, an event is forwarded exactly when fewer than
/// `max_per_window` of the earlier forwarded events lie within
/// `window_secs` seconds before it.
pub proof fn lemma_burst_sliding_window(times: Seq<u128>, window_secs: u64, max_per_window: u64)
    requires
        nondecreasing(times),
        times.len() > 0,
    ensures
        (last_verdict(times, window_secs, max_per_window) == BurstVerdict::Forward) == (forward_times(
            times.drop_last(),
            window_secs,
            max_per_window,
        ).filter(window_pred(times.last(), window_secs)).len() < max_per_window),
{
    reveal(Seq::filter);
    let dl = times.drop_last();
    let now = times.last();
    if dl.len() == 0 {
        assert(forward_times(dl, window_secs, max_per_window) =~= Seq::<u128>::empty());
    } else {
        assert forall|i: int, j: int| 0 <= i <= j < dl.len() implies dl[i] <= dl[j] by {
            assert(dl[i] == times[i] && dl[j] == times[j]);
        }
        lemma_run_tracks_forwards(dl, window_secs, max_per_window);
        lemma_forward_times_bounded(dl, window_secs, max_per_window);
        let fd = forward_times(dl, window_secs, max_per_window);
        let pn = window_pred(now, window_secs);
        let pd = window_pred(dl.last(), window_secs);
        assert(dl.last() == times[times.len() - 2]);
        assert forall|i: int| 0 <= i < fd.len() && pn(fd[i]) implies pd(fd[i]) by {
            lemma_window_shrinks(fd[i], dl.last(), now, window_secs);
        }
        lemma_filter_narrow(fd, pd, pn);
    }
}

/// The cap law: however a run of events of one fingerprint at
/// nondecreasing times goes on, no window of `window_secs` seconds ending
/// at or after its last event holds more than `max_per_window` of its
/// forwarded events.
pub proof fn lemma_burst_at_most_max_per_window(times: Seq<u128>, window_secs: u64, max_per_window: u64, now: u128)
    requires
        nondecreasing(times),
        times.len() > 0 ==> now >= times.last(),
    ensures
        forward_times(times, window_secs, max_per_window).filter(window_pred(now, window_secs)).len() <= max_per_window,
{
    reveal(Seq::filter);
    if times.len() == 0 {
        assert(forward_times(times, window_secs, max_per_window) =~= Seq::<u128>::empty());
    } else {
        lemma_run_tracks_forwards(times, window_secs, max_per_window);
        lemma_forward_times_bounded(times, window_secs, max_per_window);
        let f = forward_times(times, window_secs, max_per_window);
        let pl = window_pred(times.last(), window_secs);
        let pn = window_pred(now, window_secs);
        assert forall|i: int| 0 <= i < f.len() && pn(f[i]) implies pl(f[i]) by {
            lemma_window_shrinks(f[i], times.last(), now, window_secs);
        }
        lemma_filter_narrow(f, pl, pn);
        f.filter(pl).lemma_filter_len(pn);
    }
}

/// The summary law: an event raises the summary warning exactly when it
/// is suppressed and is the first of its fingerprint, or follows one that
/// was forwarded; so each burst of suppressed events warns once.
pub proof fn lemma_burst_warns_once_per_burst(times: Seq<u128>, window_secs: u64, max_per_window: u64)
    requires
        times.len() > 0,
    ensures
        (last_verdict(times, window_secs, max_per_window) == BurstVerdict::SuppressAndWarn) == (last_verdict(
            times,
            window_secs,
            max_per_window,
        ) != BurstVerdict::Forward && (times.len() == 1 || last_verdict(times.drop_last(), window_secs, max_per_window)
            == BurstVerdict::Forward)),
{
    let dl = times.drop_last();
    if dl.len() > 0 {
        let e = next_entry(run_entry(dl.drop_last(), window_secs, max_per_window), dl.last(), window_secs, max_per_window);
        assert(run_entry(dl, window_secs, max_per_window) == Some(e));
    }
}

} // verus!
