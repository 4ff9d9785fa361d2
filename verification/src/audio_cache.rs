//! Multi-speaker audio cache. Incoming frames are gathered per speaker;
//! when one person talks they pass straight through a small jitter buffer
//! (Live), and when several talk at once their utterances are queued and
//! replayed one after another (Queue), favorites first, or summed in real
//! time (Mix) when mixing is enabled. Played utterances are kept in a
//! bounded history for replay.
//!
//! Times are milliseconds of one clock, passed in by the caller
//! (`now_ms`); the `*_at` operations are the verified core and the plain
//! ones read the clock first.
use vstd::prelude::*;
use crate::strmap::{StrMap, string_views};

verus! {

/// Silence (ms) after which a speaker's utterance is complete.
pub const SPEECH_GAP_MS: u64 = 800;
/// How recent (ms) a speaker's frames must be to count as actively talking.
pub const ACTIVE_SPEAKER_WINDOW_MS: u64 = 200;
/// Frames within the active window that make a speaker "actively talking".
pub const ACTIVE_SPEAKER_MIN_FRAMES: usize = 2;
/// Maximum cached frames per speaker.
pub const MAX_FRAMES_PER_SPEAKER: usize = 500;
/// Maximum number of speakers cached at once.
pub const MAX_CACHED_SPEAKERS: usize = 16;
/// Maximum queued utterances; the oldest are dropped beyond this.
pub const MAX_QUEUED_UTTERANCES: usize = 32;
/// Maximum simultaneous speakers that are mixed; above this, Queue.
pub const MIX_MAX_SPEAKERS: usize = 6;
/// Alignment window (ms) for frames mixed into one output frame.
pub const MIX_ALIGNMENT_WINDOW_MS: u64 = 25;
/// Initial Live-mode jitter pre-buffer depth (frames).
pub const DEFAULT_LIVE_JITTER_PREBUFFER_FRAMES: usize = 5;
/// Age (ms) after which a stranded jitter frame is drained.
pub const LIVE_JITTER_DRAIN_AGE_MS: u64 = 25;
/// Recent `(sender, timestamp)` keys remembered for duplicate suppression.
pub const FRAME_DEDUP_WINDOW: usize = 256;
/// Played utterances kept for replay.
pub const MAX_HISTORY: usize = 50;
/// Nominal duration of one frame (ms).
pub const FRAME_MS: u64 = 20;

/// A frame as the cache sees it.
pub struct FrameView {
    pub sender_id: Seq<char>,
    pub timestamp: u64,
    pub samples: Seq<i16>,
    pub received_at: u64,
}

/// A single audio frame with sender metadata.
pub struct CachedFrame {
    pub sender_id: String,
    pub timestamp: u64,
    pub samples: Vec<i16>,
    /// Local receive time (ms).
    pub received_at: u64,
}

impl View for CachedFrame {
    type V = FrameView;

    open spec fn view(&self) -> FrameView {
        FrameView { sender_id: self.sender_id@, timestamp: self.timestamp, samples: self.samples@, received_at: self.received_at }
    }
}

/// The views of a sequence of frames.
pub open spec fn frame_views(v: Seq<CachedFrame>) -> Seq<FrameView> {
    v.map_values(|f: CachedFrame| f@)
}

fn copy_samples(s: &Vec<i16>) -> (c: Vec<i16>)
    ensures
        c@ == s@,
{
    let c = s.clone();
    assert(c@ =~= s@);
    c
}

impl CachedFrame {
    /// An independent copy of this frame.
    pub fn duplicate(&self) -> (c: Self)
        ensures
            c@ == self@,
    {
        CachedFrame {
            sender_id: self.sender_id.clone(),
            timestamp: self.timestamp,
            samples: copy_samples(&self.samples),
            received_at: self.received_at,
        }
    }
}

fn copy_frames(v: &Vec<CachedFrame>) -> (c: Vec<CachedFrame>)
    ensures
        frame_views(c@) == frame_views(v@),
{
    let mut c: Vec<CachedFrame> = Vec::new();
    let mut i: usize = 0;
    while i < v.len()
        invariant
            i <= v@.len(),
            c@.len() == i,
            forall|j: int| 0 <= j < i ==> #[trigger] c@[j]@ == v@[j]@,
        decreases v.len() - i,
    {
        c.push(v[i].duplicate());
        i = i + 1;
    }
    assert(frame_views(c@) =~= frame_views(v@));
    c
}

/// An utterance as the cache sees it.
pub struct UtteranceView {
    pub id: u64,
    pub sender_id: Seq<char>,
    pub sender_name: Seq<char>,
    pub is_favorite: bool,
    pub started_at: u64,
    pub ended_at: u64,
    pub frames: Seq<FrameView>,
    pub fully_played: bool,
}

/// A complete utterance (contiguous speech) from one speaker.
pub struct Utterance {
    pub id: u64,
    pub sender_id: String,
    pub sender_name: String,
    pub is_favorite: bool,
    /// First frame timestamp.
    pub started_at: u64,
    /// Last frame timestamp.
    pub ended_at: u64,
    pub frames: Vec<CachedFrame>,
    pub fully_played: bool,
}

impl View for Utterance {
    type V = UtteranceView;

    open spec fn view(&self) -> UtteranceView {
        UtteranceView {
            id: self.id,
            sender_id: self.sender_id@,
            sender_name: self.sender_name@,
            is_favorite: self.is_favorite,
            started_at: self.started_at,
            ended_at: self.ended_at,
            frames: frame_views(self.frames@),
            fully_played: self.fully_played,
        }
    }
}

/// The views of a sequence of utterances.
pub open spec fn utterance_views(v: Seq<Utterance>) -> Seq<UtteranceView> {
    v.map_values(|u: Utterance| u@)
}

/// `a + b`, saturating at `u64::MAX`.
pub open spec fn sat_add(a: int, b: int) -> int {
    if a + b > u64::MAX { u64::MAX as int } else { a + b }
}

/// Duration of an utterance: 0 without frames, otherwise the span between
/// first and last timestamp (0 if they are out of order) plus one frame,
/// saturating.
pub open spec fn duration_spec(u: UtteranceView) -> int {
    if u.frames.len() == 0 {
        0
    } else {
        let span = if u.ended_at >= u.started_at { u.ended_at - u.started_at } else { 0 };
        sat_add(span, FRAME_MS as int)
    }
}

impl Utterance {
    /// Duration in ms (see [`duration_spec`]).
    pub fn duration_ms(&self) -> (d: u64)
        ensures
            d == duration_spec(self@),
    {
        if self.frames.len() == 0 {
            return 0;
        }
        let span: u64 = if self.ended_at >= self.started_at { self.ended_at - self.started_at } else { 0 };
        if span > u64::MAX - FRAME_MS { u64::MAX } else { span + FRAME_MS }
    }

    /// Number of frames.
    pub fn frame_count(&self) -> (n: usize)
        ensures
            n == self@.frames.len(),
    {
        self.frames.len()
    }

    /// An independent copy, marked as not yet fully played.
    fn replay_copy(&self) -> (c: Self)
        ensures
            c@ == (UtteranceView { fully_played: false, ..self@ }),
    {
        Utterance {
            id: self.id,
            sender_id: self.sender_id.clone(),
            sender_name: self.sender_name.clone(),
            is_favorite: self.is_favorite,
            started_at: self.started_at,
            ended_at: self.ended_at,
            frames: copy_frames(&self.frames),
            fully_played: false,
        }
    }
}

/// A speaker accumulator as the cache sees it.
pub struct SpeakerView {
    pub sender_id: Seq<char>,
    pub frames: Seq<FrameView>,
    pub last_frame_at: u64,
    pub first_timestamp: u64,
    pub last_timestamp: u64,
    pub recent_pushes: Seq<u64>,
}

/// Per-speaker accumulator: collects frames until a speech gap.
struct SpeakerBuffer {
    sender_id: String,
    frames: Vec<CachedFrame>,
    last_frame_at: u64,
    first_timestamp: u64,
    last_timestamp: u64,
    /// Receive times of recent pushes, oldest first.
    recent_pushes: Vec<u64>,
}

spec fn speaker_view(b: SpeakerBuffer) -> SpeakerView {
    SpeakerView {
        sender_id: b.sender_id@,
        frames: frame_views(b.frames@),
        last_frame_at: b.last_frame_at,
        first_timestamp: b.first_timestamp,
        last_timestamp: b.last_timestamp,
        recent_pushes: b.recent_pushes@,
    }
}

/// Elapsed ms from `then` to `now`, 0 if the clock went backwards.
pub open spec fn elapsed(now: u64, then: u64) -> int {
    if now >= then { now - then } else { 0 }
}

/// Drop push times older than the active window from the front.
pub open spec fn prune_spec(p: Seq<u64>, now: u64) -> Seq<u64>
    decreases p.len(),
{
    if p.len() > 0 && elapsed(now, p[0]) > ACTIVE_SPEAKER_WINDOW_MS {
        prune_spec(p.drop_first(), now)
    } else {
        p
    }
}

/// A speaker is actively talking with at least two recent pushes.
pub open spec fn actively_speaking(b: SpeakerView) -> bool {
    b.recent_pushes.len() >= ACTIVE_SPEAKER_MIN_FRAMES
}

/// The utterance is complete after a speech gap with frames pending.
pub open spec fn speech_complete(b: SpeakerView, now: u64) -> bool {
    b.frames.len() > 0 && elapsed(now, b.last_frame_at) > SPEECH_GAP_MS
}

/// The accumulator after pushing frame `f` at time `now`.
pub open spec fn pushed(b: SpeakerView, f: FrameView, now: u64) -> SpeakerView {
    SpeakerView {
        sender_id: b.sender_id,
        frames: if b.frames.len() < MAX_FRAMES_PER_SPEAKER { b.frames.push(f) } else { b.frames },
        last_frame_at: now,
        first_timestamp: if b.frames.len() == 0 { f.timestamp } else { b.first_timestamp },
        last_timestamp: f.timestamp,
        recent_pushes: prune_spec(b.recent_pushes.push(now), now),
    }
}

/// A fresh accumulator created at `now`.
pub open spec fn new_speaker(id: Seq<char>, now: u64) -> SpeakerView {
    SpeakerView { sender_id: id, frames: Seq::empty(), last_frame_at: now, first_timestamp: 0, last_timestamp: 0, recent_pushes: Seq::empty() }
}

/// The utterance drained from an accumulator.
pub open spec fn drained_utterance(b: SpeakerView, name: Seq<char>, fav: bool, id: u64) -> UtteranceView {
    UtteranceView {
        id,
        sender_id: b.sender_id,
        sender_name: name,
        is_favorite: fav,
        started_at: b.first_timestamp,
        ended_at: b.last_timestamp,
        frames: b.frames,
        fully_played: false,
    }
}

impl SpeakerBuffer {
    fn new(sender_id: &str, now: u64) -> (b: Self)
        ensures
            speaker_view(b) == new_speaker(sender_id@, now),
    {
        let b = SpeakerBuffer {
            sender_id: sender_id.to_owned(),
            frames: Vec::new(),
            last_frame_at: now,
            first_timestamp: 0,
            last_timestamp: 0,
            recent_pushes: Vec::new(),
        };
        assert(speaker_view(b).frames =~= Seq::<FrameView>::empty());
        assert(speaker_view(b).recent_pushes =~= Seq::<u64>::empty());
        b
    }

    fn prune_recent_pushes(&mut self, now: u64)
        ensures
            speaker_view(*final(self)) == (SpeakerView { recent_pushes: prune_spec(speaker_view(*old(self)).recent_pushes, now), ..speaker_view(*old(self)) }),
    {
        let ghost orig = self.recent_pushes@;
        while self.recent_pushes.len() > 0
            invariant
                prune_spec(self.recent_pushes@, now) == prune_spec(orig, now),
                self.sender_id == old(self).sender_id,
                self.frames == old(self).frames,
                self.last_frame_at == old(self).last_frame_at,
                self.first_timestamp == old(self).first_timestamp,
                self.last_timestamp == old(self).last_timestamp,
            ensures
                prune_spec(orig, now) == self.recent_pushes@,
            decreases self.recent_pushes.len(),
        {
            let front = self.recent_pushes[0];
            let age: u64 = if now >= front { now - front } else { 0 };
            if age > ACTIVE_SPEAKER_WINDOW_MS {
                let ghost before = self.recent_pushes@;
                self.recent_pushes.remove(0);
                assert(self.recent_pushes@ =~= before.drop_first());
            } else {
                break;
            }
        }
    }

    fn push_frame(&mut self, frame: CachedFrame, now: u64)
        ensures
            speaker_view(*final(self)) == pushed(speaker_view(*old(self)), frame@, now),
    {
        if self.frames.len() == 0 {
            self.first_timestamp = frame.timestamp;
        }
        self.last_timestamp = frame.timestamp;
        self.last_frame_at = now;
        self.recent_pushes.push(now);
        self.prune_recent_pushes(now);
        if self.frames.len() < MAX_FRAMES_PER_SPEAKER {
            let ghost before = self.frames@;
            let ghost fv = frame@;
            self.frames.push(frame);
            assert(frame_views(self.frames@) =~= frame_views(before).push(fv));
        }
    }

    fn is_speech_complete(&self, now: u64) -> (r: bool)
        ensures
            r == speech_complete(speaker_view(*self), now),
    {
        if self.frames.len() == 0 {
            return false;
        }
        let age: u64 = if now >= self.last_frame_at { now - self.last_frame_at } else { 0 };
        age > SPEECH_GAP_MS
    }

    fn is_actively_speaking(&self) -> (r: bool)
        ensures
            r == actively_speaking(speaker_view(*self)),
    {
        self.recent_pushes.len() >= ACTIVE_SPEAKER_MIN_FRAMES
    }

    fn drain_to_utterance(self, sender_name: &str, is_favorite: bool, id: u64) -> (u: Utterance)
        ensures
            u@ == drained_utterance(speaker_view(self), sender_name@, is_favorite, id),
    {
        Utterance {
            id,
            sender_id: self.sender_id,
            sender_name: sender_name.to_owned(),
            is_favorite,
            started_at: self.first_timestamp,
            ended_at: self.last_timestamp,
            frames: self.frames,
            fully_played: false,
        }
    }
}

/// Operating mode of the cache.
#[derive(Debug, Clone, Copy, PartialEq, Eq, Structural)]
pub enum CacheMode {
    /// Live passthrough: one person talking at a time.
    Live,
    /// Overlap detected: utterances are queued and played in turn.
    Queue,
    /// The user is replaying a cached utterance.
    Replay,
    /// Overlapping speakers are summed in real time.
    Mix,
}

/// Status for the UI "catch-up" indicator.
#[derive(Debug)]
pub struct CacheStatus {
    pub mode: CacheMode,
    pub queued_utterances: usize,
    pub queued_duration_ms: u64,
    pub current_speaker: Option<String>,
    pub current_speaker_name: Option<String>,
    pub speakers_in_queue: Vec<String>,
}

/// What happened to an ingested frame.
#[derive(Debug)]
pub enum IngestOutcome {
    /// Play these samples now (Live passthrough).
    Play(Vec<i16>),
    /// Mix mode: the raw sample-wise sum of the aligned frames, to be
    /// gain-controlled and clipped by the caller.
    MixReady(Vec<i32>),
    /// Nothing to play now (cached, buffered, muted or duplicate).
    Held,
}

/// What an ingest hands back, as mathematical values.
pub enum OutcomeView {
    Play(Seq<i16>),
    MixReady(Seq<i32>),
    Held,
}

impl View for IngestOutcome {
    type V = OutcomeView;

    open spec fn view(&self) -> OutcomeView {
        match self {
            IngestOutcome::Play(s) => OutcomeView::Play(s@),
            IngestOutcome::MixReady(a) => OutcomeView::MixReady(a@),
            IngestOutcome::Held => OutcomeView::Held,
        }
    }
}

/// Name, favorite flag and mute flag of a known sender.
pub struct UserInfo {
    pub name: String,
    pub is_favorite: bool,
    pub is_muted: bool,
}

/// Character views of a user-info entry.
pub open spec fn user_view(u: UserInfo) -> (Seq<char>, bool, bool) {
    (u.name@, u.is_favorite, u.is_muted)
}

/// An utterance commit as reported to the UI: id, sender id, sender name,
/// duration.
pub open spec fn commit_view(c: (u64, String, String, u64)) -> (u64, Seq<char>, Seq<char>, u64) {
    (c.0, c.1@, c.2@, c.3)
}

/// The favorites-first, then (start, duration) order of the playback queue:
/// no non-favorite precedes a favorite, and within a tier keys never
/// decrease.
pub open spec fn key_greater(a: UtteranceView, b: UtteranceView) -> bool {
    a.started_at > b.started_at || (a.started_at == b.started_at && duration_spec(a) > duration_spec(b))
}

/// The playback queue is in priority order.
pub open spec fn prioritized(q: Seq<UtteranceView>) -> bool {
    forall|i: int, j: int| 0 <= i < j < q.len() ==> (#[trigger] q[i].is_favorite || !(#[trigger] q[j]).is_favorite)
        && (q[i].is_favorite == q[j].is_favorite ==> !key_greater(q[i], q[j]))
}

/// First index at or after `i` holding a non-favorite (or the length).
pub open spec fn first_nonfav(q: Seq<UtteranceView>, i: int) -> int
    decreases q.len() - i,
{
    if i >= q.len() { q.len() as int } else if !q[i].is_favorite { i } else { first_nonfav(q, i + 1) }
}

/// First index in `[i, end)` whose key is greater than `u`'s (or `end`).
pub open spec fn first_later(q: Seq<UtteranceView>, u: UtteranceView, i: int, end: int) -> int
    decreases end - i,
{
    if i >= end { end } else if key_greater(q[i], u) { i } else { first_later(q, u, i + 1, end) }
}

/// Where [`AudioCache`] inserts a finished utterance: inside its tier
/// (favorites, then others), before the first entry with a greater key.
pub open spec fn insert_pos(q: Seq<UtteranceView>, u: UtteranceView) -> int {
    let f = first_nonfav(q, 0);
    if u.is_favorite { first_later(q, u, 0, f) } else { first_later(q, u, f, q.len() as int) }
}

/// First index in `q` whose frame timestamp is greater than `ts` (or the length).
pub open spec fn first_after(q: Seq<FrameView>, ts: u64, i: int) -> int
    decreases q.len() - i,
{
    if i >= q.len() { q.len() as int } else if q[i].timestamp > ts { i } else { first_after(q, ts, i + 1) }
}

/// A jitter queue is ordered by wire timestamp.
pub open spec fn ts_sorted(q: Seq<FrameView>) -> bool {
    forall|i: int, j: int| 0 <= i < j < q.len() ==> (#[trigger] q[i]).timestamp <= (#[trigger] q[j]).timestamp
}

/// Number of speakers among `keys` that are actively talking in `m`.
pub open spec fn count_active(keys: Seq<Seq<char>>, m: Map<Seq<char>, SpeakerView>) -> nat
    decreases keys.len(),
{
    if keys.len() == 0 {
        0
    } else {
        count_active(keys.drop_last(), m) + if actively_speaking(m[keys.last()]) { 1nat } else { 0nat }
    }
}

/// Append to a bounded history: the oldest entry goes first when full.
pub open spec fn push_bounded(h: Seq<UtteranceView>, u: UtteranceView) -> Seq<UtteranceView> {
    if h.len() >= MAX_HISTORY { h.drop_first().push(u) } else { h.push(u) }
}

/// Remember a dedup key, forgetting the oldest beyond the window.
pub open spec fn dedup_push(d: Seq<(Seq<char>, u64)>, k: (Seq<char>, u64)) -> Seq<(Seq<char>, u64)> {
    if d.len() + 1 > FRAME_DEDUP_WINDOW { d.push(k).drop_first() } else { d.push(k) }
}

/// The dedup window remembers the newest keys: after noting `k` it ends
/// with `k`, preceded by the most recent keys seen before, the oldest being
/// forgotten once the window is full.
pub proof fn lemma_dedup_remembers_newest(d: Seq<(Seq<char>, u64)>, k: (Seq<char>, u64))
    requires
        d.len() <= FRAME_DEDUP_WINDOW,
    ensures
        ({
            let r = dedup_push(d, k);
            let n: int = if d.len() + 1 <= FRAME_DEDUP_WINDOW { d.len() + 1int } else { FRAME_DEDUP_WINDOW as int };
            &&& r.len() == n
            &&& r.last() == k
            &&& r.contains(k)
            &&& r.drop_last() == d.skip(d.len() + 1 - n)
        }),
{
    let r = dedup_push(d, k);
    assert(r[r.len() - 1] == k);
    if d.len() + 1 > FRAME_DEDUP_WINDOW {
        assert(r.drop_last() =~= d.skip(1));
    } else {
        assert(r.drop_last() =~= d.skip(0));
    }
}

proof fn lemma_first_nonfav(q: Seq<UtteranceView>, i: int)
    requires
        0 <= i <= q.len(),
    ensures
        i <= first_nonfav(q, i) <= q.len(),
        forall|j: int| i <= j < first_nonfav(q, i) ==> q[j].is_favorite,
        first_nonfav(q, i) < q.len() ==> !q[first_nonfav(q, i)].is_favorite,
    decreases q.len() - i,
{
    if i < q.len() && q[i].is_favorite {
        lemma_first_nonfav(q, i + 1);
    }
}

proof fn lemma_first_later(q: Seq<UtteranceView>, u: UtteranceView, i: int, end: int)
    requires
        0 <= i <= end <= q.len(),
    ensures
        i <= first_later(q, u, i, end) <= end,
        forall|j: int| i <= j < first_later(q, u, i, end) ==> !key_greater(q[j], u),
        first_later(q, u, i, end) < end ==> key_greater(q[first_later(q, u, i, end)], u),
    decreases end - i,
{
    if i < end && !key_greater(q[i], u) {
        lemma_first_later(q, u, i + 1, end);
    }
}

/// Inserting a finished utterance where the cache inserts it keeps the
/// playback queue in priority order (favorites first, then oldest start,
/// then shortest), for every queue already in that order.
pub proof fn lemma_insert_keeps_priority_order(q: Seq<UtteranceView>, u: UtteranceView)
    requires
        prioritized(q),
    ensures
        prioritized(q.insert(insert_pos(q, u), u)),
        0 <= insert_pos(q, u) <= q.len(),
{
    let f = first_nonfav(q, 0);
    lemma_first_nonfav(q, 0);
    assert forall|j: int| f <= j < q.len() implies !q[j].is_favorite by {
        if j > f {
            assert(q[f].is_favorite || !q[j].is_favorite);
        }
    }
    let (s, e) = if u.is_favorite { (0int, f) } else { (f, q.len() as int) };
    let p = first_later(q, u, s, e);
    lemma_first_later(q, u, s, e);
    assert(p == insert_pos(q, u));
    let r = q.insert(p, u);
    assert forall|i: int, j: int| 0 <= i < j < r.len() implies (#[trigger] r[i].is_favorite || !(#[trigger] r[j]).is_favorite)
        && (r[i].is_favorite == r[j].is_favorite ==> !key_greater(r[i], r[j])) by {
        if i < p && j < p {
            assert(r[i] == q[i] && r[j] == q[j]);
        } else if i < p && j == p {
            assert(r[i] == q[i] && r[j] == u);
            if i < s {
                assert(q[i].is_favorite);
            }
        } else if i < p && j > p {
            assert(r[i] == q[i] && r[j] == q[j - 1]);
        } else if i == p {
            assert(r[i] == u && r[j] == q[j - 1]);
            let k = j - 1;
            if !u.is_favorite {
                assert(!q[k].is_favorite);
            }
            if u.is_favorite == q[k].is_favorite {
                assert(k < e);
                assert(key_greater(q[p], u));
                if k > p {
                    assert(q[p].is_favorite == q[k].is_favorite) by {
                        if u.is_favorite {
                            assert(q[p].is_favorite);
                        } else {
                            assert(!q[p].is_favorite);
                        }
                    }
                    assert(!key_greater(q[p], q[k]));
                }
            }
        } else {
            assert(r[i] == q[i - 1] && r[j] == q[j - 1]);
        }
    }
}

/// Everything the cache holds, as mathematical values.
#[verifier::ext_equal]
pub struct CacheView {
    pub speakers: Map<Seq<char>, SpeakerView>,
    pub speaker_keys: Seq<Seq<char>>,
    pub accumulators: Map<Seq<char>, SpeakerView>,
    pub accumulator_keys: Seq<Seq<char>>,
    pub jitter: Map<Seq<char>, Seq<FrameView>>,
    pub jitter_keys: Seq<Seq<char>>,
    pub users: Map<Seq<char>, (Seq<char>, bool, bool)>,
    pub queue: Seq<UtteranceView>,
    pub hist: Seq<UtteranceView>,
    pub playing: Option<UtteranceView>,
    pub cursor: nat,
    pub mode: CacheMode,
    pub mix: bool,
    pub pending: Map<Seq<char>, FrameView>,
    pub pending_keys: Seq<Seq<char>>,
    pub dedup: Seq<(Seq<char>, u64)>,
    pub commits: Seq<(u64, Seq<char>, Seq<char>, u64)>,
    pub prebuffer: nat,
    pub next_id: u64,
}

/// The commit reported for a history entry.
pub open spec fn commit_of(u: UtteranceView) -> (u64, Seq<char>, Seq<char>, u64) {
    (u.id, u.sender_id, u.sender_name, duration_spec(u) as u64)
}

/// Move a fully played utterance into the history and report it.
pub open spec fn add_to_history(v: CacheView, u: UtteranceView) -> CacheView {
    let done = UtteranceView { fully_played: true, ..u };
    CacheView { hist: push_bounded(v.hist, done), commits: v.commits.push(commit_of(done)), ..v }
}

/// The first jitter queue (in key order from `i`) that is non-empty and
/// whose newest frame is older than the drain age.
pub open spec fn drain_target(v: CacheView, now: u64, i: int) -> Option<Seq<char>>
    decreases v.jitter_keys.len() - i,
{
    if i >= v.jitter_keys.len() {
        None
    } else {
        let q = v.jitter[v.jitter_keys[i]];
        if q.len() > 0 && elapsed(now, q.last().received_at) > LIVE_JITTER_DRAIN_AGE_MS {
            Some(v.jitter_keys[i])
        } else {
            drain_target(v, now, i + 1)
        }
    }
}

/// Committing a played utterance keeps the newest history: afterwards the
/// last entry is the utterance marked fully played, the entries before it
/// are the most recent ones of the old history (the oldest goes once the
/// history is full), its commit is reported, and nothing else changes.
pub proof fn lemma_commit_keeps_newest(v: CacheView, u: UtteranceView)
    requires
        v.hist.len() <= MAX_HISTORY,
    ensures
        ({
            let w = add_to_history(v, u);
            let n: int = if v.hist.len() + 1 <= MAX_HISTORY { v.hist.len() + 1int } else { MAX_HISTORY as int };
            &&& w.hist.len() == n
            &&& w.hist.last() == UtteranceView { fully_played: true, ..u }
            &&& w.hist.drop_last() == v.hist.skip(v.hist.len() + 1 - n)
            &&& w.commits.len() == v.commits.len() + 1
            &&& w.commits.drop_last() == v.commits
            &&& w.commits.last().0 == u.id
            &&& w == (CacheView { hist: w.hist, commits: w.commits, ..v })
        }),
{
    let w = add_to_history(v, u);
    if v.hist.len() >= MAX_HISTORY {
        assert(w.hist.drop_last() =~= v.hist.skip(1));
    } else {
        assert(w.hist.drop_last() =~= v.hist.skip(0));
    }
    assert(w.commits.drop_last() =~= v.commits);
}

/// One step of playback at `now`: the next frame of the playing utterance;
/// or, when it is exhausted, move it to the history and start the next
/// queued utterance (returning its first frame); or, with nothing queued,
/// drain one stranded Live jitter frame.
pub open spec fn next_playback_spec(v: CacheView, now: u64) -> (CacheView, Option<(Seq<char>, Seq<i16>)>) {
    if v.playing is Some && v.cursor < v.playing->0.frames.len() {
        let f = v.playing->0.frames[v.cursor as int];
        (CacheView { cursor: v.cursor + 1, ..v }, Some((f.sender_id, f.samples)))
    } else {
        let v1 = if v.playing is Some { CacheView { playing: None, ..add_to_history(v, v.playing->0) } } else { v };
        if v1.queue.len() > 0 {
            let n = v1.queue[0];
            (CacheView { queue: v1.queue.drop_first(), playing: Some(n), cursor: 1, ..v1 },
                if n.frames.len() > 0 { Some((n.frames[0].sender_id, n.frames[0].samples)) } else { None })
        } else {
            match drain_target(v1, now, 0) {
                Some(k) => (CacheView { jitter: v1.jitter.insert(k, v1.jitter[k].drop_first()), ..v1 },
                    Some((k, v1.jitter[k][0].samples))),
                None => (v1, None),
            }
        }
    }
}

/// `k` playback steps at `now`: the cache after them and what each returned.
pub open spec fn playback_run(v: CacheView, now: u64, k: nat) -> (CacheView, Seq<Option<(Seq<char>, Seq<i16>)>>)
    decreases k,
{
    if k == 0 {
        (v, Seq::empty())
    } else {
        let r = playback_run(v, now, (k - 1) as nat);
        let s = next_playback_spec(r.0, now);
        (s.0, r.1.push(s.1))
    }
}

/// What playing `u` returns, frame by frame.
pub open spec fn frame_outputs(u: UtteranceView) -> Seq<Option<(Seq<char>, Seq<i16>)>> {
    u.frames.map_values(|f: FrameView| Some((f.sender_id, f.samples)))
}

/// With nothing playing, the utterance at the head of the queue is played
/// whole and in order: as many steps as it has frames return its frames one
/// by one, and the next step moves it, marked fully played, into the history
/// and reports its commit.
pub proof fn lemma_queue_head_plays_whole(v: CacheView, now: u64)
    requires
        v.playing is None,
        v.queue.len() > 0,
        v.queue[0].frames.len() > 0,
    ensures
        playback_run(v, now, v.queue[0].frames.len()).1 == frame_outputs(v.queue[0]),
        playback_run(v, now, v.queue[0].frames.len()).0
            == (CacheView { queue: v.queue.drop_first(), playing: Some(v.queue[0]), cursor: v.queue[0].frames.len(), ..v }),
        ({
            let w = next_playback_spec(playback_run(v, now, v.queue[0].frames.len()).0, now).0;
            let done = UtteranceView { fully_played: true, ..v.queue[0] };
            &&& w.hist == push_bounded(v.hist, done)
            &&& w.commits == v.commits.push(commit_of(done))
        }),
{
    let u = v.queue[0];
    let n = u.frames.len();
    lemma_queue_head_prefix(v, now, n);
}

proof fn lemma_queue_head_prefix(v: CacheView, now: u64, k: nat)
    requires
        v.playing is None,
        v.queue.len() > 0,
        1 <= k <= v.queue[0].frames.len(),
    ensures
        playback_run(v, now, k).1 == frame_outputs(v.queue[0]).take(k as int),
        playback_run(v, now, k).0
            == (CacheView { queue: v.queue.drop_first(), playing: Some(v.queue[0]), cursor: k, ..v }),
    decreases k,
{
    let u = v.queue[0];
    if k == 1 {
        assert(playback_run(v, now, 0).0 == v);
        assert(frame_outputs(u).take(1) =~= seq![Some((u.frames[0].sender_id, u.frames[0].samples))]);
        assert(playback_run(v, now, 1).1 =~= frame_outputs(u).take(1));
    } else {
        lemma_queue_head_prefix(v, now, (k - 1) as nat);
        let r = playback_run(v, now, (k - 1) as nat);
        assert(r.0.cursor < r.0.playing->0.frames.len());
        assert(frame_outputs(u).take(k as int) =~= frame_outputs(u).take(k - 1).push(frame_outputs(u)[k - 1]));
        assert(playback_run(v, now, k).1 =~= frame_outputs(u).take(k as int));
    }
}

proof fn lemma_drain_target(v: CacheView, now: u64, i: int)
    requires
        0 <= i,
    ensures
        drain_target(v, now, i) matches Some(k) ==> v.jitter_keys.contains(k) && v.jitter[k].len() > 0,
    decreases v.jitter_keys.len() - i,
{
    if i < v.jitter_keys.len() {
        lemma_drain_target(v, now, i + 1);
        let k = v.jitter_keys[i];
        if v.jitter[k].len() > 0 && elapsed(now, v.jitter[k].last().received_at) > LIVE_JITTER_DRAIN_AGE_MS {
            assert(v.jitter_keys.contains(k));
        }
    }
}

/// Display name and favorite flag of a sender: from the user table, or the
/// sender id and "not a favorite" when the sender is unknown.
pub open spec fn name_fav(users: Map<Seq<char>, (Seq<char>, bool, bool)>, k: Seq<char>) -> (Seq<char>, bool) {
    if users.contains_key(k) { (users[k].0, users[k].1) } else { (k, false) }
}

/// Drain the `i`-th shadow accumulator into an utterance (taking the next
/// id) and commit it to the history when it holds frames.
pub open spec fn commit_accumulator(v: CacheView, i: int) -> CacheView {
    let k = v.accumulator_keys[i];
    let b = v.accumulators[k];
    let nf = name_fav(v.users, k);
    let u = drained_utterance(b, nf.0, nf.1, v.next_id);
    let v1 = CacheView {
        accumulators: v.accumulators.remove(k),
        accumulator_keys: v.accumulator_keys.remove(i),
        next_id: v.next_id.wrapping_add(1),
        ..v
    };
    if b.frames.len() > 0 { add_to_history(v1, u) } else { v1 }
}

/// Drain every shadow accumulator, in key order.
pub open spec fn drain_accumulators(v: CacheView) -> CacheView
    decreases v.accumulator_keys.len(),
{
    if v.accumulator_keys.len() == 0 { v } else { drain_accumulators(commit_accumulator(v, 0)) }
}

/// The cache after a hard reset: no speakers, queue, playback or history.
pub open spec fn cleared(v: CacheView) -> CacheView {
    CacheView {
        speakers: Map::empty(),
        speaker_keys: Seq::empty(),
        accumulators: Map::empty(),
        accumulator_keys: Seq::empty(),
        queue: Seq::empty(),
        hist: Seq::empty(),
        playing: None,
        cursor: 0,
        mode: CacheMode::Live,
        ..v
    }
}

/// The cache after a transport reset: accumulators drained into the
/// history, then every in-flight buffer and the playback state cleared.
pub open spec fn cleared_active(v: CacheView) -> CacheView {
    let d = drain_accumulators(v);
    CacheView {
        speakers: Map::empty(),
        speaker_keys: Seq::empty(),
        accumulators: Map::empty(),
        accumulator_keys: Seq::empty(),
        jitter: Map::empty(),
        jitter_keys: Seq::empty(),
        queue: Seq::empty(),
        playing: None,
        cursor: 0,
        mode: CacheMode::Live,
        ..d
    }
}

/// Total duration of the queued utterances.
pub open spec fn queued_duration(q: Seq<UtteranceView>) -> int
    decreases q.len(),
{
    if q.len() == 0 { 0 } else { queued_duration(q.drop_last()) + duration_spec(q.last()) }
}

proof fn lemma_queued_duration_prefix(q: Seq<UtteranceView>, i: int)
    requires
        0 <= i <= q.len(),
    ensures
        0 <= queued_duration(q.take(i)) <= queued_duration(q),
    decreases q.len() - i,
{
    if i < q.len() {
        lemma_queued_duration_prefix(q, i + 1);
        assert(q.take(i + 1).drop_last() =~= q.take(i));
    } else {
        assert(q.take(i) =~= q);
    }
    lemma_queued_duration_nonneg(q.take(i));
}

proof fn lemma_queued_duration_nonneg(q: Seq<UtteranceView>)
    ensures
        queued_duration(q) >= 0,
    decreases q.len(),
{
    if q.len() > 0 {
        lemma_queued_duration_nonneg(q.drop_last());
    }
}

/// An accumulator with its push times pruned at `now`.
pub open spec fn pruned(b: SpeakerView, now: u64) -> SpeakerView {
    SpeakerView { recent_pushes: prune_spec(b.recent_pushes, now), ..b }
}

/// Every accumulator of `m` pruned at `now`.
pub open spec fn prune_all(m: Map<Seq<char>, SpeakerView>, now: u64) -> Map<Seq<char>, SpeakerView> {
    m.map_values(|b: SpeakerView| pruned(b, now))
}

/// Commit every shadow accumulator from index `i` on whose utterance is
/// complete at `now`, in key order.
pub open spec fn finalize_accumulators(v: CacheView, now: u64, i: int) -> CacheView
    decreases v.accumulator_keys.len() - i,
{
    if i < 0 || i >= v.accumulator_keys.len() {
        v
    } else if speech_complete(v.accumulators[v.accumulator_keys[i]], now) {
        finalize_accumulators(commit_accumulator(v, i), now, i)
    } else {
        finalize_accumulators(v, now, i + 1)
    }
}

/// Finish the `i`-th active speaker: drop it; unless the sender is muted,
/// drain it into an utterance (taking the next id) and queue that at its
/// priority position when it holds frames.
pub open spec fn finish_speaker(v: CacheView, i: int) -> CacheView {
    let k = v.speaker_keys[i];
    let b = v.speakers[k];
    let v1 = CacheView { speakers: v.speakers.remove(k), speaker_keys: v.speaker_keys.remove(i), ..v };
    if v.users.contains_key(k) && v.users[k].2 {
        v1
    } else {
        let nf = name_fav(v.users, k);
        let u = drained_utterance(b, nf.0, nf.1, v.next_id);
        let v2 = CacheView { next_id: v.next_id.wrapping_add(1), ..v1 };
        if b.frames.len() > 0 { CacheView { queue: v2.queue.insert(insert_pos(v2.queue, u), u), ..v2 } } else { v2 }
    }
}

/// Finish every active speaker from index `i` on whose utterance is
/// complete at `now`, in key order.
pub open spec fn finalize_speakers(v: CacheView, now: u64, i: int) -> CacheView
    decreases v.speaker_keys.len() - i,
{
    if i < 0 || i >= v.speaker_keys.len() {
        v
    } else if speech_complete(v.speakers[v.speaker_keys[i]], now) {
        finalize_speakers(finish_speaker(v, i), now, i)
    } else {
        finalize_speakers(v, now, i + 1)
    }
}

/// An accumulator is kept while it holds frames or recent pushes.
pub open spec fn keep_buffer(b: SpeakerView) -> bool {
    b.frames.len() > 0 || b.recent_pushes.len() > 0
}

/// Drop the idle active speakers from index `i` on.
pub open spec fn gc_speakers(v: CacheView, i: int) -> CacheView
    decreases v.speaker_keys.len() - i,
{
    if i < 0 || i >= v.speaker_keys.len() {
        v
    } else if keep_buffer(v.speakers[v.speaker_keys[i]]) {
        gc_speakers(v, i + 1)
    } else {
        gc_speakers(CacheView {
            speakers: v.speakers.remove(v.speaker_keys[i]),
            speaker_keys: v.speaker_keys.remove(i),
            ..v
        }, i)
    }
}

/// Drop the idle shadow accumulators from index `i` on.
pub open spec fn gc_accumulators(v: CacheView, i: int) -> CacheView
    decreases v.accumulator_keys.len() - i,
{
    if i < 0 || i >= v.accumulator_keys.len() {
        v
    } else if keep_buffer(v.accumulators[v.accumulator_keys[i]]) {
        gc_accumulators(v, i + 1)
    } else {
        gc_accumulators(CacheView {
            accumulators: v.accumulators.remove(v.accumulator_keys[i]),
            accumulator_keys: v.accumulator_keys.remove(i),
            ..v
        }, i)
    }
}

/// Drop the empty jitter queues from index `i` on.
pub open spec fn gc_jitter(v: CacheView, i: int) -> CacheView
    decreases v.jitter_keys.len() - i,
{
    if i < 0 || i >= v.jitter_keys.len() {
        v
    } else if v.jitter[v.jitter_keys[i]].len() > 0 {
        gc_jitter(v, i + 1)
    } else {
        gc_jitter(CacheView {
            jitter: v.jitter.remove(v.jitter_keys[i]),
            jitter_keys: v.jitter_keys.remove(i),
            ..v
        }, i)
    }
}

/// Back to Live once the queue has drained, nothing plays and at most one
/// speaker is actively talking.
pub open spec fn recover_live(v: CacheView) -> CacheView {
    if v.mode == CacheMode::Queue && v.queue.len() == 0 && v.playing is None
        && count_active(v.speaker_keys, v.speakers) <= 1 {
        CacheView { mode: CacheMode::Live, ..v }
    } else {
        v
    }
}

/// Drop the oldest queued utterances beyond the queue limit.
pub open spec fn trim_queue(v: CacheView) -> CacheView {
    if v.queue.len() > MAX_QUEUED_UTTERANCES {
        CacheView { queue: v.queue.skip(v.queue.len() - MAX_QUEUED_UTTERANCES), ..v }
    } else {
        v
    }
}

/// One housekeeping pass at `now`: prune push times; commit finished Live
/// accumulators to the history; queue finished utterances of the active
/// speakers (favorites first); drop idle buffers and empty jitter queues;
/// return to Live when the overlap is over; bound the queue.
pub open spec fn tick_spec(v: CacheView, now: u64) -> CacheView {
    let v1 = CacheView { speakers: prune_all(v.speakers, now), accumulators: prune_all(v.accumulators, now), ..v };
    let v2 = finalize_accumulators(v1, now, 0);
    let v3 = finalize_speakers(v2, now, 0);
    let v4 = gc_jitter(gc_accumulators(gc_speakers(v3, 0), 0), 0);
    trim_queue(recover_live(v4))
}

/// `x` clamped to the `i32` range.
pub open spec fn sat32(x: int) -> i32 {
    if x > i32::MAX { i32::MAX } else if x < i32::MIN { i32::MIN } else { x as i32 }
}

/// Add a frame's samples into a mix accumulator, sample by sample (a
/// shorter frame adds to a prefix, a longer one is cut).
pub open spec fn add_frame(acc: Seq<i32>, f: Seq<i16>) -> Seq<i32> {
    Seq::new(acc.len(), |j: int| if j < f.len() { sat32(acc[j] + f[j]) } else { acc[j] })
}

/// Drop the pending mix frames from index `i` on that are at least twice
/// the alignment window old.
pub open spec fn drop_stale(v: CacheView, now: u64, i: int) -> CacheView
    decreases v.pending_keys.len() - i,
{
    if i < 0 || i >= v.pending_keys.len() {
        v
    } else if elapsed(now, v.pending[v.pending_keys[i]].received_at) < 2 * MIX_ALIGNMENT_WINDOW_MS {
        drop_stale(v, now, i + 1)
    } else {
        drop_stale(CacheView {
            pending: v.pending.remove(v.pending_keys[i]),
            pending_keys: v.pending_keys.remove(i),
            ..v
        }, now, i)
    }
}

/// The smallest timestamp among the frames of `ks` (`u64::MAX` for none).
pub open spec fn min_ts(ks: Seq<Seq<char>>, m: Map<Seq<char>, FrameView>) -> u64
    decreases ks.len(),
{
    if ks.len() == 0 {
        u64::MAX
    } else {
        let r = min_ts(ks.drop_last(), m);
        let t = m[ks.last()].timestamp;
        if t < r { t } else { r }
    }
}

/// The keys, in order, whose frame timestamp is at most `w`.
pub open spec fn aligned_keys(ks: Seq<Seq<char>>, m: Map<Seq<char>, FrameView>, w: u64) -> Seq<Seq<char>>
    decreases ks.len(),
{
    if ks.len() == 0 {
        Seq::empty()
    } else if m[ks.last()].timestamp <= w {
        aligned_keys(ks.drop_last(), m, w).push(ks.last())
    } else {
        aligned_keys(ks.drop_last(), m, w)
    }
}

/// Take the pending frames from index `i` on with timestamp at most `w`,
/// adding their samples into `acc`.
pub open spec fn mix_pass(v: CacheView, w: u64, i: int, acc: Seq<i32>) -> (CacheView, Seq<i32>)
    decreases v.pending_keys.len() - i,
{
    if i < 0 || i >= v.pending_keys.len() {
        (v, acc)
    } else if v.pending[v.pending_keys[i]].timestamp <= w {
        mix_pass(CacheView {
            pending: v.pending.remove(v.pending_keys[i]),
            pending_keys: v.pending_keys.remove(i),
            ..v
        }, w, i, add_frame(acc, v.pending[v.pending_keys[i]].samples))
    } else {
        mix_pass(v, w, i + 1, acc)
    }
}

/// One mix attempt at `now`: with two or more senders pending, drop stale
/// frames; the leading edge is the oldest pending timestamp; when two or
/// more frames lie within the alignment window after it, they are taken
/// and summed sample-wise into a frame as long as the first of them.
pub open spec fn take_mix_spec(v: CacheView, now: u64) -> (CacheView, Option<Seq<i32>>) {
    if v.pending_keys.len() < 2 {
        (v, None)
    } else {
        let v1 = drop_stale(v, now, 0);
        if v1.pending_keys.len() < 2 {
            (v1, None)
        } else {
            let w = sat_add(min_ts(v1.pending_keys, v1.pending) as int, MIX_ALIGNMENT_WINDOW_MS as int) as u64;
            let al = aligned_keys(v1.pending_keys, v1.pending, w);
            if al.len() < 2 {
                (v1, None)
            } else {
                let flen = v1.pending[al[0]].samples.len();
                let r = mix_pass(v1, w, 0, Seq::new(flen, |j: int| 0i32));
                (r.0, Some(r.1))
            }
        }
    }
}

proof fn lemma_aligned_keys_in(ks: Seq<Seq<char>>, m: Map<Seq<char>, FrameView>, w: u64)
    ensures
        forall|j: int| 0 <= j < aligned_keys(ks, m, w).len() ==> ks.contains(#[trigger] aligned_keys(ks, m, w)[j]),
    decreases ks.len(),
{
    if ks.len() > 0 {
        lemma_aligned_keys_in(ks.drop_last(), m, w);
        let a = aligned_keys(ks.drop_last(), m, w);
        assert forall|j: int| 0 <= j < aligned_keys(ks, m, w).len() implies ks.contains(#[trigger] aligned_keys(ks, m, w)[j]) by {
            if j < a.len() {
                assert(aligned_keys(ks, m, w)[j] == a[j]);
                assert(ks.drop_last().contains(a[j]));
                let t = choose|t: int| 0 <= t < ks.drop_last().len() && ks.drop_last()[t] == a[j];
                assert(ks[t] == a[j]);
            } else {
                assert(ks[ks.len() - 1] == ks.last());
            }
        }
    }
}

/// The frame an ingest call builds.
pub open spec fn ingest_frame_view(sender: Seq<char>, ts: u64, samples: Seq<i16>, now: u64) -> FrameView {
    FrameView { sender_id: sender, timestamp: ts, samples, received_at: now }
}

/// Push `f` into the accumulator of `k`, creating it first when absent.
pub open spec fn add_speaker_frame(v: CacheView, k: Seq<char>, f: FrameView, now: u64) -> CacheView {
    let known = v.speakers.contains_key(k);
    let base = if known { v.speakers[k] } else { new_speaker(k, now) };
    CacheView {
        speakers: v.speakers.insert(k, pushed(base, f, now)),
        speaker_keys: if known { v.speaker_keys } else { v.speaker_keys.push(k) },
        ..v
    }
}

/// Mode changes after an ingest with `active` concurrent speakers: Live
/// flips on overlap to Mix (when enabled and within the mix ceiling) or to
/// Queue, dropping the Live jitter queues; Mix falls back to Queue above
/// the ceiling, dropping the pending mix frames.
pub open spec fn overlap_mode(v: CacheView, active: nat) -> CacheView {
    let v1 = if active > 1 && v.mode == CacheMode::Live {
        CacheView {
            mode: if v.mix && active <= MIX_MAX_SPEAKERS { CacheMode::Mix } else { CacheMode::Queue },
            jitter: Map::empty(),
            jitter_keys: Seq::empty(),
            ..v
        }
    } else {
        v
    };
    if v1.mode == CacheMode::Mix && active > MIX_MAX_SPEAKERS {
        CacheView { mode: CacheMode::Queue, pending: Map::empty(), pending_keys: Seq::empty(), ..v1 }
    } else {
        v1
    }
}

/// Live passthrough of `f` from `k`: the newest cached frame of the
/// speaker moves to its shadow accumulator (for the history), `f` goes into
/// the speaker's jitter queue in timestamp order, and once the queue holds
/// more than the pre-buffer depth its oldest frame is played.
pub open spec fn live_passthrough(v: CacheView, k: Seq<char>, f: FrameView, now: u64) -> (CacheView, OutcomeView) {
    let b = v.speakers[k];
    let v1 = if b.frames.len() > 0 {
        let known = v.accumulators.contains_key(k);
        let acc = if known { v.accumulators[k] } else { new_speaker(k, now) };
        CacheView {
            speakers: v.speakers.insert(k, SpeakerView { frames: b.frames.drop_last(), ..b }),
            accumulators: v.accumulators.insert(k, pushed(acc, b.frames.last(), now)),
            accumulator_keys: if known { v.accumulator_keys } else { v.accumulator_keys.push(k) },
            ..v
        }
    } else {
        v
    };
    let jknown = v1.jitter.contains_key(k);
    let q = if jknown { v1.jitter[k] } else { Seq::empty() };
    let q2 = q.insert(first_after(q, f.timestamp, 0), f);
    let jk = if jknown { v1.jitter_keys } else { v1.jitter_keys.push(k) };
    if q2.len() > v1.prebuffer {
        (CacheView { jitter: v1.jitter.insert(k, q2.drop_first()), jitter_keys: jk, ..v1 }, OutcomeView::Play(q2[0].samples))
    } else {
        (CacheView { jitter: v1.jitter.insert(k, q2), jitter_keys: jk, ..v1 }, OutcomeView::Held)
    }
}

/// Mix path: `f` becomes the sender's pending mix frame, then one mix
/// attempt is made.
pub open spec fn mix_path(v: CacheView, k: Seq<char>, f: FrameView, now: u64) -> (CacheView, OutcomeView) {
    let v1 = CacheView {
        pending: v.pending.insert(k, f),
        pending_keys: if v.pending.contains_key(k) { v.pending_keys } else { v.pending_keys.push(k) },
        ..v
    };
    let r = take_mix_spec(v1, now);
    (r.0, match r.1 { Some(a) => OutcomeView::MixReady(a), None => OutcomeView::Held })
}

/// Ingest of a frame from `k` with wire timestamp `ts` at `now`: a
/// duplicate `(sender, timestamp)` is dropped; a muted sender is dropped; a
/// new sender beyond the speaker limit is dropped; otherwise the frame is
/// cached for the speaker, the mode follows the number of actively
/// talking speakers, and the frame goes to the mixer (Mix), through the
/// jitter buffer (Live with one speaker and nothing replaying) or stays
/// cached (Queue, Replay).
pub open spec fn ingest_spec(v: CacheView, k: Seq<char>, ts: u64, samples: Seq<i16>, now: u64) -> (CacheView, OutcomeView) {
    if v.dedup.contains((k, ts)) {
        (v, OutcomeView::Held)
    } else {
        let v0 = CacheView { dedup: dedup_push(v.dedup, (k, ts)), ..v };
        if v0.users.contains_key(k) && v0.users[k].2 {
            (v0, OutcomeView::Held)
        } else if !v0.speakers.contains_key(k) && v0.speaker_keys.len() >= MAX_CACHED_SPEAKERS {
            (v0, OutcomeView::Held)
        } else {
            let f = ingest_frame_view(k, ts, samples, now);
            let v1 = add_speaker_frame(v0, k, f, now);
            let active = count_active(v1.speaker_keys, v1.speakers);
            let v2 = overlap_mode(v1, active);
            if v2.mode == CacheMode::Mix {
                mix_path(v2, k, f, now)
            } else if v2.mode == CacheMode::Live && active <= 1 && v2.playing is None {
                live_passthrough(v2, k, f, now)
            } else {
                (v2, OutcomeView::Held)
            }
        }
    }
}

/// Whether an ingest of `(k, ts)` gets past the dedup, mute and speaker-limit checks.
pub open spec fn ingest_accepted(v: CacheView, k: Seq<char>, ts: u64) -> bool {
    &&& !v.dedup.contains((k, ts))
    &&& !(v.users.contains_key(k) && v.users[k].2)
    &&& (v.speakers.contains_key(k) || v.speaker_keys.len() < MAX_CACHED_SPEAKERS)
}

/// The number of actively talking senders once the frame is cached.
pub open spec fn active_after(v: CacheView, k: Seq<char>, ts: u64, samples: Seq<i16>, now: u64) -> nat {
    let v0 = CacheView { dedup: dedup_push(v.dedup, (k, ts)), ..v };
    let v1 = add_speaker_frame(v0, k, ingest_frame_view(k, ts, samples, now), now);
    count_active(v1.speaker_keys, v1.speakers)
}

/// Live mode changes only on overlap: an ingest in Live mode keeps Live
/// unless the frame is accepted and leaves two or more senders actively
/// talking, and then it leaves Live (for Mix or Queue).
pub proof fn lemma_live_left_only_on_overlap(v: CacheView, k: Seq<char>, ts: u64, samples: Seq<i16>, now: u64)
    requires
        v.mode == CacheMode::Live,
    ensures
        ingest_spec(v, k, ts, samples, now).0.mode == CacheMode::Live
            <==> !(ingest_accepted(v, k, ts) && active_after(v, k, ts, samples, now) >= 2),
{
    if ingest_accepted(v, k, ts) {
        let v0 = CacheView { dedup: dedup_push(v.dedup, (k, ts)), ..v };
        let f = ingest_frame_view(k, ts, samples, now);
        let v1 = add_speaker_frame(v0, k, f, now);
        let v2 = overlap_mode(v1, active_after(v, k, ts, samples, now));
        if v2.mode == CacheMode::Mix {
            let v3 = CacheView {
                pending: v2.pending.insert(k, f),
                pending_keys: if v2.pending.contains_key(k) { v2.pending_keys } else { v2.pending_keys.push(k) },
                ..v2
            };
            lemma_take_mix_keeps_mode(v3, now);
        }
    }
}

proof fn lemma_drop_stale_keeps_mode(v: CacheView, now: u64, i: int)
    ensures
        drop_stale(v, now, i).mode == v.mode,
    decreases v.pending_keys.len() - i,
{
    if 0 <= i < v.pending_keys.len() {
        if elapsed(now, v.pending[v.pending_keys[i]].received_at) < 2 * MIX_ALIGNMENT_WINDOW_MS {
            lemma_drop_stale_keeps_mode(v, now, i + 1);
        } else {
            let w = CacheView { pending: v.pending.remove(v.pending_keys[i]), pending_keys: v.pending_keys.remove(i), ..v };
            lemma_drop_stale_keeps_mode(w, now, i);
        }
    }
}

proof fn lemma_mix_pass_keeps_mode(v: CacheView, w: u64, i: int, acc: Seq<i32>)
    ensures
        mix_pass(v, w, i, acc).0.mode == v.mode,
    decreases v.pending_keys.len() - i,
{
    if 0 <= i < v.pending_keys.len() {
        if v.pending[v.pending_keys[i]].timestamp <= w {
            let v1 = CacheView { pending: v.pending.remove(v.pending_keys[i]), pending_keys: v.pending_keys.remove(i), ..v };
            lemma_mix_pass_keeps_mode(v1, w, i, add_frame(acc, v.pending[v.pending_keys[i]].samples));
        } else {
            lemma_mix_pass_keeps_mode(v, w, i + 1, acc);
        }
    }
}

proof fn lemma_take_mix_keeps_mode(v: CacheView, now: u64)
    ensures
        take_mix_spec(v, now).0.mode == v.mode,
{
    lemma_drop_stale_keeps_mode(v, now, 0);
    let v1 = drop_stale(v, now, 0);
    if v1.pending_keys.len() >= 2 {
        let w = sat_add(min_ts(v1.pending_keys, v1.pending) as int, MIX_ALIGNMENT_WINDOW_MS as int) as u64;
        let al = aligned_keys(v1.pending_keys, v1.pending, w);
        if al.len() >= 2 {
            let flen = v1.pending[al[0]].samples.len();
            lemma_mix_pass_keeps_mode(v1, w, 0, Seq::new(flen, |j: int| 0i32));
        }
    }
}

proof fn lemma_first_after(q: Seq<FrameView>, ts: u64, i: int)
    requires
        0 <= i <= q.len(),
    ensures
        i <= first_after(q, ts, i) <= q.len(),
        forall|j: int| i <= j < first_after(q, ts, i) ==> q[j].timestamp <= ts,
        first_after(q, ts, i) < q.len() ==> q[first_after(q, ts, i)].timestamp > ts,
    decreases q.len() - i,
{
    if i < q.len() && q[i].timestamp <= ts {
        lemma_first_after(q, ts, i + 1);
    }
}

/// Inserting a frame where the jitter buffer inserts it keeps the queue in
/// timestamp order.
proof fn lemma_jitter_insert_sorted(q: Seq<FrameView>, f: FrameView)
    requires
        ts_sorted(q),
    ensures
        ts_sorted(q.insert(first_after(q, f.timestamp, 0), f)),
        ts_sorted(q.insert(first_after(q, f.timestamp, 0), f).drop_first()),
{
    let p = first_after(q, f.timestamp, 0);
    lemma_first_after(q, f.timestamp, 0);
    let r = q.insert(p, f);
    assert forall|i: int, j: int| 0 <= i < j < r.len() implies (#[trigger] r[i]).timestamp <= (#[trigger] r[j]).timestamp by {
        if i < p && j < p {
            assert(r[i] == q[i] && r[j] == q[j]);
        } else if i < p && j == p {
            assert(r[i] == q[i]);
        } else if i < p {
            assert(r[i] == q[i] && r[j] == q[j - 1]);
        } else if i == p {
            assert(r[j] == q[j - 1]);
            assert(q[p].timestamp > f.timestamp);
            if j - 1 > p {
                assert(q[p].timestamp <= q[j - 1].timestamp);
            }
        } else {
            assert(r[i] == q[i - 1] && r[j] == q[j - 1]);
        }
    }
    let d = r.drop_first();
    assert forall|i: int, j: int| 0 <= i < j < d.len() implies (#[trigger] d[i]).timestamp <= (#[trigger] d[j]).timestamp by {
        assert(d[i] == r[i + 1] && d[j] == r[j + 1]);
    }
}

/// A frame delivered twice (same sender, same wire timestamp, e.g. over two
/// transports) is heard at most once: the second ingest hands nothing back
/// and leaves the cache unchanged, whatever samples or time it carries.
pub proof fn lemma_duplicate_frame_dropped(v: CacheView, k: Seq<char>, ts: u64, s1: Seq<i16>, s2: Seq<i16>, now1: u64, now2: u64)
    ensures
        ingest_spec(ingest_spec(v, k, ts, s1, now1).0, k, ts, s2, now2)
            == (ingest_spec(v, k, ts, s1, now1).0, OutcomeView::Held),
{
    let v1 = ingest_spec(v, k, ts, s1, now1).0;
    if !v.dedup.contains((k, ts)) {
        let d = dedup_push(v.dedup, (k, ts));
        assert(d.contains((k, ts))) by {
            assert(d[d.len() - 1] == (k, ts));
        }
        let v0 = CacheView { dedup: d, ..v };
        let f = ingest_frame_view(k, ts, s1, now1);
        let va = add_speaker_frame(v0, k, f, now1);
        let vb = overlap_mode(va, count_active(va.speaker_keys, va.speakers));
        let vc = CacheView {
            pending: vb.pending.insert(k, f),
            pending_keys: if vb.pending.contains_key(k) { vb.pending_keys } else { vb.pending_keys.push(k) },
            ..vb
        };
        lemma_take_mix_keeps_dedup(vc, now1);
        assert(v1.dedup == d);
    }
}

proof fn lemma_drop_stale_keeps_dedup(v: CacheView, now: u64, i: int)
    ensures
        drop_stale(v, now, i).dedup == v.dedup,
    decreases v.pending_keys.len() - i,
{
    if 0 <= i < v.pending_keys.len() {
        if elapsed(now, v.pending[v.pending_keys[i]].received_at) < 2 * MIX_ALIGNMENT_WINDOW_MS {
            lemma_drop_stale_keeps_dedup(v, now, i + 1);
        } else {
            lemma_drop_stale_keeps_dedup(CacheView {
                pending: v.pending.remove(v.pending_keys[i]),
                pending_keys: v.pending_keys.remove(i),
                ..v
            }, now, i);
        }
    }
}

proof fn lemma_mix_pass_keeps_dedup(v: CacheView, w: u64, i: int, acc: Seq<i32>)
    ensures
        mix_pass(v, w, i, acc).0.dedup == v.dedup,
    decreases v.pending_keys.len() - i,
{
    if 0 <= i < v.pending_keys.len() {
        if v.pending[v.pending_keys[i]].timestamp <= w {
            lemma_mix_pass_keeps_dedup(CacheView {
                pending: v.pending.remove(v.pending_keys[i]),
                pending_keys: v.pending_keys.remove(i),
                ..v
            }, w, i, add_frame(acc, v.pending[v.pending_keys[i]].samples));
        } else {
            lemma_mix_pass_keeps_dedup(v, w, i + 1, acc);
        }
    }
}

proof fn lemma_take_mix_keeps_dedup(v: CacheView, now: u64)
    ensures
        take_mix_spec(v, now).0.dedup == v.dedup,
{
    lemma_drop_stale_keeps_dedup(v, now, 0);
    let v1 = drop_stale(v, now, 0);
    let w = sat_add(min_ts(v1.pending_keys, v1.pending) as int, MIX_ALIGNMENT_WINDOW_MS as int) as u64;
    let al = aligned_keys(v1.pending_keys, v1.pending, w);
    if al.len() >= 2 {
        lemma_mix_pass_keeps_dedup(v1, w, 0, Seq::new(v1.pending[al[0]].samples.len(), |j: int| 0i32));
    }
}

/// Every jitter queue is ordered by timestamp.
spec fn jitter_sorted(m: StrMap<Vec<CachedFrame>>) -> bool {
    forall|k: Seq<char>| #[trigger] m.view().contains_key(k) ==> ts_sorted(frame_views(m.view()[k]@))
}

/// The accumulators of a map, as views.
spec fn buffer_views(m: StrMap<SpeakerBuffer>) -> Map<Seq<char>, SpeakerView> {
    m.view().map_values(|b: SpeakerBuffer| speaker_view(b))
}

fn prune_buffers(m: &mut StrMap<SpeakerBuffer>, now: u64)
    requires
        old(m).wf(),
    ensures
        final(m).wf(),
        final(m).key_seq() == old(m).key_seq(),
        buffer_views(*final(m)) == prune_all(buffer_views(*old(m)), now),
{
    let ghost m0 = buffer_views(*m);
    let ghost ks = m.key_seq();
    proof { m.lemma_keys(); }
    let n = m.len();
    let mut i: usize = 0;
    while i < n
        invariant
            m.wf(),
            m.key_seq() == ks,
            n == ks.len(),
            i <= n,
            ks.no_duplicates(),
            m.view().dom() == ks.to_set(),
            m0.dom() == ks.to_set(),
            forall|j: int| 0 <= j < i ==> #[trigger] buffer_views(*m)[ks[j]] == pruned(m0[ks[j]], now),
            forall|j: int| i <= j < n ==> #[trigger] buffer_views(*m)[ks[j]] == m0[ks[j]],
        decreases n - i,
    {
        let ghost mb = *m;
        let placeholder = SpeakerBuffer::new("", 0);
        let mut b = m.swap_value_at(i, placeholder);
        proof {
            mb.lemma_keys();
            assert(ks.contains(ks[i as int]));
            assert(buffer_views(mb)[ks[i as int]] == m0[ks[i as int]]);
            assert(speaker_view(b) == m0[ks[i as int]]);
        }
        b.prune_recent_pushes(now);
        let _ = m.swap_value_at(i, b);
        proof {
            m.lemma_keys();
            assert(m.view() == mb.view().insert(ks[i as int], b));
            assert(ks.contains(ks[i as int]));
            assert forall|j: int| 0 <= j < n && j != i implies buffer_views(*m)[ks[j]] == buffer_views(mb)[ks[j]] by {
                assert(ks[j] != ks[i as int]);
                assert(ks.contains(ks[j]));
            }
            assert(buffer_views(*m)[ks[i as int]] == pruned(m0[ks[i as int]], now));
        }
        i = i + 1;
    }
    proof {
        assert forall|k: Seq<char>| #[trigger] m0.contains_key(k) implies buffer_views(*m)[k] == pruned(m0[k], now) by {
            let j = choose|j: int| 0 <= j < ks.len() && ks[j] == k;
            assert(buffer_views(*m)[ks[j]] == pruned(m0[ks[j]], now));
        }
        assert(buffer_views(*m) =~= prune_all(m0, now));
    }
}

fn add_into(acc: &mut Vec<i32>, f: &Vec<i16>)
    ensures
        final(acc)@ == add_frame(old(acc)@, f@),
{
    let ghost a0 = acc@;
    let mut j: usize = 0;
    while j < acc.len() && j < f.len()
        invariant
            acc@.len() == a0.len(),
            j <= acc@.len(),
            forall|t: int| 0 <= t < j ==> #[trigger] acc@[t] == add_frame(a0, f@)[t],
            forall|t: int| j <= t < acc@.len() ==> #[trigger] acc@[t] == a0[t],
        decreases acc.len() - j,
    {
        let a = acc[j];
        let x = f[j] as i32;
        let y: i32 = match a.checked_add(x) {
            Some(z) => z,
            None => if x > 0 { i32::MAX } else { i32::MIN },
        };
        acc.set(j, y);
        j = j + 1;
    }
    assert(acc@ =~= add_frame(a0, f@));
}

/// The multi-speaker cache.
pub struct AudioCache {
    active_buffers: StrMap<SpeakerBuffer>,
    playback_queue: Vec<Utterance>,
    now_playing: Option<Utterance>,
    play_cursor: usize,
    mode: CacheMode,
    user_info: StrMap<UserInfo>,
    history: Vec<Utterance>,
    live_accumulator: StrMap<SpeakerBuffer>,
    live_jitter: StrMap<Vec<CachedFrame>>,
    newly_committed_ids: Vec<(u64, String, String, u64)>,
    enable_mix_mode: bool,
    mix_pending: StrMap<CachedFrame>,
    recent_frames: Vec<(String, u64)>,
    jitter_prebuffer: usize,
    next_id: u64,
}

impl AudioCache {
    /// Active speaker accumulators.
    pub closed spec fn speakers(&self) -> Map<Seq<char>, SpeakerView> {
        self.active_buffers.view().map_values(|b: SpeakerBuffer| speaker_view(b))
    }

    /// Order of the active speakers.
    pub closed spec fn speaker_keys(&self) -> Seq<Seq<char>> {
        self.active_buffers.key_seq()
    }

    /// Live-mode shadow accumulators (for replay history).
    pub closed spec fn accumulators(&self) -> Map<Seq<char>, SpeakerView> {
        self.live_accumulator.view().map_values(|b: SpeakerBuffer| speaker_view(b))
    }

    /// Order of the shadow accumulators.
    pub closed spec fn accumulator_keys(&self) -> Seq<Seq<char>> {
        self.live_accumulator.key_seq()
    }

    /// Live-mode per-sender jitter queues.
    pub closed spec fn jitter(&self) -> Map<Seq<char>, Seq<FrameView>> {
        self.live_jitter.view().map_values(|q: Vec<CachedFrame>| frame_views(q@))
    }

    /// Order of the jitter queues.
    pub closed spec fn jitter_keys(&self) -> Seq<Seq<char>> {
        self.live_jitter.key_seq()
    }

    /// Known senders.
    pub closed spec fn users(&self) -> Map<Seq<char>, (Seq<char>, bool, bool)> {
        self.user_info.view().map_values(|u: UserInfo| user_view(u))
    }

    /// The playback queue.
    pub closed spec fn queue(&self) -> Seq<UtteranceView> {
        utterance_views(self.playback_queue@)
    }

    /// The replay history, oldest first.
    pub closed spec fn hist(&self) -> Seq<UtteranceView> {
        utterance_views(self.history@)
    }

    /// The utterance being played.
    pub closed spec fn playing(&self) -> Option<UtteranceView> {
        match self.now_playing {
            Some(u) => Some(u@),
            None => None,
        }
    }

    /// Frame index within the playing utterance.
    pub closed spec fn cursor(&self) -> nat {
        self.play_cursor as nat
    }

    /// The current mode.
    pub closed spec fn mode_spec(&self) -> CacheMode {
        self.mode
    }

    /// Whether mixing is enabled.
    pub closed spec fn mix_enabled(&self) -> bool {
        self.enable_mix_mode
    }

    /// Frames waiting to be mixed, one per sender.
    pub closed spec fn pending_mix(&self) -> Map<Seq<char>, FrameView> {
        self.mix_pending.view().map_values(|f: CachedFrame| f@)
    }

    /// Order of the frames waiting to be mixed.
    pub closed spec fn pending_keys(&self) -> Seq<Seq<char>> {
        self.mix_pending.key_seq()
    }

    /// Recently seen `(sender, timestamp)` keys, oldest first.
    pub closed spec fn dedup(&self) -> Seq<(Seq<char>, u64)> {
        self.recent_frames@.map_values(|k: (String, u64)| (k.0@, k.1))
    }

    /// Utterance commits not yet taken by the UI.
    pub closed spec fn commits(&self) -> Seq<(u64, Seq<char>, Seq<char>, u64)> {
        self.newly_committed_ids@.map_values(|c: (u64, String, String, u64)| commit_view(c))
    }

    /// Live-mode jitter pre-buffer depth.
    pub closed spec fn prebuffer(&self) -> nat {
        self.jitter_prebuffer as nat
    }

    /// Id given to the next finished utterance.
    pub closed spec fn next_id_spec(&self) -> u64 {
        self.next_id
    }

    /// Internal consistency, kept by every operation.
    pub closed spec fn wf(&self) -> bool {
        &&& self.active_buffers.wf()
        &&& self.user_info.wf()
        &&& self.live_accumulator.wf()
        &&& self.live_jitter.wf()
        &&& self.mix_pending.wf()
        &&& self.active_buffers.key_seq().len() <= MAX_CACHED_SPEAKERS
        &&& self.recent_frames@.len() <= FRAME_DEDUP_WINDOW
        &&& self.history@.len() <= MAX_HISTORY
        &&& 2 <= self.jitter_prebuffer <= 16
        &&& prioritized(self.queue())
        &&& jitter_sorted(self.live_jitter)
    }

    /// An empty cache in Live mode.
    pub fn new() -> (c: Self)
        ensures
            c.wf(),
            c.mode_spec() == CacheMode::Live,
            c.speakers() == Map::<Seq<char>, SpeakerView>::empty(),
            c.accumulators() == Map::<Seq<char>, SpeakerView>::empty(),
            c.jitter() == Map::<Seq<char>, Seq<FrameView>>::empty(),
            c.users() == Map::<Seq<char>, (Seq<char>, bool, bool)>::empty(),
            c.queue() == Seq::<UtteranceView>::empty(),
            c.hist() == Seq::<UtteranceView>::empty(),
            c.playing() is None,
            c.cursor() == 0,
            !c.mix_enabled(),
            c.pending_mix() == Map::<Seq<char>, FrameView>::empty(),
            c.dedup() == Seq::<(Seq<char>, u64)>::empty(),
            c.commits() == Seq::<(u64, Seq<char>, Seq<char>, u64)>::empty(),
            c.prebuffer() == DEFAULT_LIVE_JITTER_PREBUFFER_FRAMES,
            c.next_id_spec() == 1,
            c@ == (CacheView {
                speakers: Map::empty(),
                speaker_keys: Seq::empty(),
                accumulators: Map::empty(),
                accumulator_keys: Seq::empty(),
                jitter: Map::empty(),
                jitter_keys: Seq::empty(),
                users: Map::empty(),
                queue: Seq::empty(),
                hist: Seq::empty(),
                playing: None,
                cursor: 0,
                mode: CacheMode::Live,
                mix: false,
                pending: Map::empty(),
                pending_keys: Seq::empty(),
                dedup: Seq::empty(),
                commits: Seq::empty(),
                prebuffer: DEFAULT_LIVE_JITTER_PREBUFFER_FRAMES as nat,
                next_id: 1,
            }),
    {
        let c = AudioCache {
            active_buffers: StrMap::new(),
            playback_queue: Vec::new(),
            now_playing: None,
            play_cursor: 0,
            mode: CacheMode::Live,
            user_info: StrMap::new(),
            history: Vec::new(),
            live_accumulator: StrMap::new(),
            live_jitter: StrMap::new(),
            newly_committed_ids: Vec::new(),
            enable_mix_mode: false,
            mix_pending: StrMap::new(),
            recent_frames: Vec::new(),
            jitter_prebuffer: DEFAULT_LIVE_JITTER_PREBUFFER_FRAMES,
            next_id: 1,
        };
        assert(c.speakers() =~= Map::<Seq<char>, SpeakerView>::empty());
        assert(c.accumulators() =~= Map::<Seq<char>, SpeakerView>::empty());
        assert(c.jitter() =~= Map::<Seq<char>, Seq<FrameView>>::empty());
        assert(c.users() =~= Map::<Seq<char>, (Seq<char>, bool, bool)>::empty());
        assert(c.queue() =~= Seq::<UtteranceView>::empty());
        assert(c.hist() =~= Seq::<UtteranceView>::empty());
        assert(c.pending_mix() =~= Map::<Seq<char>, FrameView>::empty());
        assert(c.dedup() =~= Seq::<(Seq<char>, u64)>::empty());
        assert(c.commits() =~= Seq::<(u64, Seq<char>, Seq<char>, u64)>::empty());
        assert(c.speaker_keys() =~= Seq::<Seq<char>>::empty());
        assert(c.accumulator_keys() =~= Seq::<Seq<char>>::empty());
        assert(c.jitter_keys() =~= Seq::<Seq<char>>::empty());
        assert(c.pending_keys() =~= Seq::<Seq<char>>::empty());
        c
    }

    /// The jitter pre-buffer depth always lies in `[2, 16]`.
    pub proof fn lemma_prebuffer_in_range(&self)
        requires
            self.wf(),
        ensures
            2 <= self.prebuffer() <= 16,
            2 <= self@.prebuffer <= 16,
    {
    }

    /// Frames held in the Live-mode jitter buffer before the oldest plays.
    pub fn live_jitter_prebuffer_frames(&self) -> (n: usize)
        ensures
            n == self.prebuffer(),
            self.wf() ==> 2 <= n <= 16,
    {
        self.jitter_prebuffer
    }

    /// Set the jitter pre-buffer depth, clamped to `[2, 16]`.
    pub fn set_live_jitter_prebuffer_frames(&mut self, frames: usize)
        requires
            old(self).wf(),
        ensures
            final(self).wf(),
            final(self).prebuffer() == (if frames < 2 { 2 } else if frames > 16 { 16 } else { frames as int }),
            final(self)@ == (CacheView { prebuffer: final(self)@.prebuffer, ..old(self)@ }),
    {
        self.jitter_prebuffer = if frames < 2 { 2 } else if frames > 16 { 16 } else { frames };
    }

    /// Take the next utterance id (wrapping).
    pub fn next_utterance_id(&mut self) -> (id: u64)
        ensures
            id == old(self).next_id_spec(),
            final(self)@ == (CacheView { next_id: final(self)@.next_id, ..old(self)@ }),
            old(self).wf() ==> final(self).wf(),
            final(self).next_id_spec() == old(self).next_id_spec().wrapping_add(1),
    {
        let id = self.next_id;
        self.next_id = self.next_id.wrapping_add(1);
        id
    }

    /// Record `(sender, timestamp)`; true when it was not seen within the
    /// recent window (the oldest key is forgotten beyond the window).
    pub fn accept_frame_once(&mut self, sender_id: &str, timestamp: u64) -> (fresh: bool)
        requires
            old(self).wf(),
        ensures
            final(self).wf(),
            fresh == !old(self).dedup().contains((sender_id@, timestamp)),
            final(self).dedup() == (if fresh { dedup_push(old(self).dedup(), (sender_id@, timestamp)) } else { old(self).dedup() }),
            final(self)@ == (CacheView { dedup: final(self)@.dedup, ..old(self)@ }),
    {
        let key: String = sender_id.to_owned();
        let mut i: usize = 0;
        while i < self.recent_frames.len()
            invariant
                i <= self.recent_frames@.len(),
                key@ == sender_id@,
                *self == *old(self),
                old(self).wf(),
                forall|j: int| 0 <= j < i ==> self.dedup()[j] != (sender_id@, timestamp),
            decreases self.recent_frames.len() - i,
        {
            if self.recent_frames[i].1 == timestamp && self.recent_frames[i].0 == key {
                proof {
                    assert(self.dedup()[i as int] == (sender_id@, timestamp));
                    assert(self.dedup().contains((sender_id@, timestamp)));
                }
                return false;
            }
            i = i + 1;
        }
        let ghost d0 = self.dedup();
        assert(!d0.contains((sender_id@, timestamp)));
        self.recent_frames.push((key, timestamp));
        assert(self.dedup() =~= d0.push((sender_id@, timestamp)));
        if self.recent_frames.len() > FRAME_DEDUP_WINDOW {
            let ghost d1 = self.dedup();
            self.recent_frames.remove(0);
            assert(self.dedup() =~= d1.drop_first());
        }
        true
    }

    /// Turn client-side mixing on or off; a change drops pending mix frames.
    pub fn set_mix_mode_enabled(&mut self, enabled: bool)
        requires
            old(self).wf(),
        ensures
            final(self).wf(),
            final(self).mix_enabled() == enabled,
            old(self).mix_enabled() == enabled ==> *final(self) == *old(self),
            old(self).mix_enabled() != enabled ==> final(self).pending_mix() == Map::<Seq<char>, FrameView>::empty()
                && final(self)@ == (CacheView { mix: enabled, pending: Map::empty(), pending_keys: Seq::empty(), ..old(self)@ }),
    {
        if self.enable_mix_mode == enabled {
            return;
        }
        self.enable_mix_mode = enabled;
        self.mix_pending.clear();
        assert(self.pending_mix() =~= Map::<Seq<char>, FrameView>::empty());
    }

    /// Whether mixing is enabled.
    pub fn is_mix_mode_enabled(&self) -> (b: bool)
        ensures
            b == self.mix_enabled(),
    {
        self.enable_mix_mode
    }

    /// Take the utterance commits recorded since the last call.
    pub fn take_newly_committed_ids(&mut self) -> (ids: Vec<(u64, String, String, u64)>)
        requires
            old(self).wf(),
        ensures
            final(self).wf(),
            ids@.map_values(|c: (u64, String, String, u64)| commit_view(c)) == old(self).commits(),
            final(self).commits() == Seq::<(u64, Seq<char>, Seq<char>, u64)>::empty(),
            final(self)@ == (CacheView { commits: Seq::empty(), ..old(self)@ }),
    {
        let mut ids: Vec<(u64, String, String, u64)> = Vec::new();
        std::mem::swap(&mut ids, &mut self.newly_committed_ids);
        assert(self.commits() =~= Seq::<(u64, Seq<char>, Seq<char>, u64)>::empty());
        ids
    }

    /// Record a sender's display name and favorite / mute flags.
    pub fn update_user_info(&mut self, sender_id: &str, name: &str, is_favorite: bool, is_muted: bool)
        requires
            old(self).wf(),
        ensures
            final(self).wf(),
            final(self).users() == old(self).users().insert(sender_id@, (name@, is_favorite, is_muted)),
            final(self)@ == (CacheView { users: final(self)@.users, ..old(self)@ }),
    {
        let ghost u0 = self.users();
        self.user_info.insert(sender_id.to_owned(), UserInfo { name: name.to_owned(), is_favorite, is_muted });
        assert(self.users() =~= u0.insert(sender_id@, (name@, is_favorite, is_muted)));
    }

    /// The current mode.
    pub fn mode(&self) -> (m: CacheMode)
        ensures
            m == self.mode_spec(),
    {
        self.mode
    }

    /// Force a mode.
    pub fn set_mode(&mut self, mode: CacheMode)
        ensures
            final(self)@ == (CacheView { mode: mode, ..old(self)@ }),
            old(self).wf() ==> final(self).wf(),
            final(self).mode_spec() == mode,
            final(self).playing() == old(self).playing(),
            final(self).cursor() == old(self).cursor(),
    {
        self.mode = mode;
    }

    /// Skip the current utterance; it does not go to the history.
    pub fn skip_current(&mut self)
        requires
            old(self).wf(),
        ensures
            final(self).wf(),
            old(self).playing() is None ==> *final(self) == *old(self),
            old(self).playing() is Some ==> final(self).playing() is None && final(self).cursor() == 0
                && final(self)@ == (CacheView { playing: None, cursor: 0, ..old(self)@ }),
    {
        if self.now_playing.is_some() {
            self.now_playing = None;
            self.play_cursor = 0;
        }
    }

    /// The replay history, oldest first.
    pub fn history(&self) -> (h: &Vec<Utterance>)
        ensures
            utterance_views(h@) == self.hist(),
    {
        &self.history
    }

    /// Replay the history entry at `index`; false when out of range.
    pub fn replay_from_history(&mut self, index: usize) -> (ok: bool)
        requires
            old(self).wf(),
        ensures
            final(self).wf(),
            ok == (index < old(self).hist().len()),
            !ok ==> *final(self) == *old(self),
            ok ==> final(self).mode_spec() == CacheMode::Replay
                && final(self).playing() == Some(UtteranceView { fully_played: false, ..old(self).hist()[index as int] })
                && final(self).cursor() == 0
                && final(self)@ == (CacheView { mode: CacheMode::Replay, playing: final(self)@.playing, cursor: 0, ..old(self)@ }),
    {
        if index >= self.history.len() {
            return false;
        }
        let replay = self.history[index].replay_copy();
        self.mode = CacheMode::Replay;
        self.now_playing = Some(replay);
        self.play_cursor = 0;
        true
    }

    /// Position of the first history entry with id `utterance_id`.
    fn history_index(&self, utterance_id: u64) -> (r: Option<usize>)
        ensures
            match r {
                Some(i) => i < self.hist().len() && self.hist()[i as int].id == utterance_id
                    && forall|j: int| 0 <= j < i ==> self.hist()[j].id != utterance_id,
                None => forall|j: int| 0 <= j < self.hist().len() ==> self.hist()[j].id != utterance_id,
            },
    {
        let mut i: usize = 0;
        while i < self.history.len()
            invariant
                i <= self.history@.len(),
                forall|j: int| 0 <= j < i ==> self.hist()[j].id != utterance_id,
            decreases self.history.len() - i,
        {
            if self.history[i].id == utterance_id {
                return Some(i);
            }
            i = i + 1;
        }
        None
    }

    /// Replay the (first) history entry with id `utterance_id`; false when
    /// no entry has it.
    pub fn replay_by_id(&mut self, utterance_id: u64) -> (ok: bool)
        requires
            old(self).wf(),
        ensures
            final(self).wf(),
            ok == exists|j: int| 0 <= j < old(self).hist().len() && old(self).hist()[j].id == utterance_id,
            !ok ==> *final(self) == *old(self),
            ok ==> (exists|j: int| 0 <= j < old(self).hist().len() && old(self).hist()[j].id == utterance_id
                    && (forall|k: int| 0 <= k < j ==> old(self).hist()[k].id != utterance_id)
                    && final(self).playing() == Some(UtteranceView { fully_played: false, ..old(self).hist()[j] }))
                && final(self).mode_spec() == CacheMode::Replay
                && final(self).cursor() == 0
                && final(self)@ == (CacheView { mode: CacheMode::Replay, playing: final(self)@.playing, cursor: 0, ..old(self)@ }),
    {
        match self.history_index(utterance_id) {
            None => false,
            Some(i) => {
                let replay = self.history[i].replay_copy();
                self.mode = CacheMode::Replay;
                self.now_playing = Some(replay);
                self.play_cursor = 0;
                true
            }
        }
    }

    /// The PCM frames of the (first) history entry with id `utterance_id`.
    pub fn get_history_frames(&self, utterance_id: u64) -> (r: Option<Vec<Vec<i16>>>)
        ensures
            r is None <==> forall|j: int| 0 <= j < self.hist().len() ==> self.hist()[j].id != utterance_id,
            r matches Some(fs) ==> exists|j: int| 0 <= j < self.hist().len() && self.hist()[j].id == utterance_id
                && (forall|k: int| 0 <= k < j ==> self.hist()[k].id != utterance_id)
                && fs@.len() == self.hist()[j].frames.len()
                && forall|n: int| 0 <= n < fs@.len() ==> (#[trigger] fs@[n])@ == self.hist()[j].frames[n].samples,
    {
        match self.history_index(utterance_id) {
            None => None,
            Some(i) => {
                let u = &self.history[i];
                let mut out: Vec<Vec<i16>> = Vec::new();
                let mut n: usize = 0;
                while n < u.frames.len()
                    invariant
                        n <= u.frames@.len(),
                        out@.len() == n,
                        u@ == self.hist()[i as int],
                        forall|m: int| 0 <= m < n ==> (#[trigger] out@[m])@ == u@.frames[m].samples,
                    decreases u.frames.len() - n,
                {
                    out.push(copy_samples(&u.frames[n].samples));
                    n = n + 1;
                }
                Some(out)
            }
        }
    }

    /// The whole cache as mathematical values; each field is the accessor of the same name.
    pub open spec fn view(&self) -> CacheView {
        CacheView {
            speakers: self.speakers(),
            speaker_keys: self.speaker_keys(),
            accumulators: self.accumulators(),
            accumulator_keys: self.accumulator_keys(),
            jitter: self.jitter(),
            jitter_keys: self.jitter_keys(),
            users: self.users(),
            queue: self.queue(),
            hist: self.hist(),
            playing: self.playing(),
            cursor: self.cursor(),
            mode: self.mode_spec(),
            mix: self.mix_enabled(),
            pending: self.pending_mix(),
            pending_keys: self.pending_keys(),
            dedup: self.dedup(),
            commits: self.commits(),
            prebuffer: self.prebuffer(),
            next_id: self.next_id_spec(),
        }
    }

    /// Move a played utterance into the bounded history and record its commit.
    fn commit_to_history(&mut self, u: Utterance)
        requires
            old(self).wf(),
        ensures
            final(self).wf(),
            final(self)@ == add_to_history(old(self)@, u@),
    {
        let mut done = u;
        done.fully_played = true;
        let commit = (done.id, done.sender_id.clone(), done.sender_name.clone(), done.duration_ms());
        let ghost h0 = self.hist();
        let ghost c0 = self.commits();
        let ghost dv = done@;
        if self.history.len() >= MAX_HISTORY {
            self.history.remove(0);
            assert(self.hist() =~= h0.drop_first());
        }
        self.history.push(done);
        self.newly_committed_ids.push(commit);
        proof {
            assert(dv == (UtteranceView { fully_played: true, ..u@ }));
            assert(self.hist() =~= push_bounded(h0, dv));
            assert(self.commits() =~= c0.push(commit_of(dv)));
            assert(self@ =~= add_to_history(old(self)@, u@));
        }
    }

    fn find_drain_target(&self, now: u64) -> (r: Option<usize>)
        requires
            self.wf(),
        ensures
            match drain_target(self@, now, 0) {
                Some(k) => r matches Some(i) && i < self.jitter_keys().len() && self.jitter_keys()[i as int] == k,
                None => r is None,
            },
    {
        let mut i: usize = 0;
        let n = self.live_jitter.len();
        while i < n
            invariant
                self.wf(),
                n == self.jitter_keys().len(),
                i <= n,
                drain_target(self@, now, 0) == drain_target(self@, now, i as int),
            decreases n - i,
        {
            let (_k, q) = self.live_jitter.entry_at(i);
            if q.len() > 0 {
                let back = q[q.len() - 1].received_at;
                let age: u64 = if now >= back { now - back } else { 0 };
                if age > LIVE_JITTER_DRAIN_AGE_MS {
                    return Some(i);
                }
            }
            i = i + 1;
        }
        None
    }

    /// Next frame to play (see [`next_playback_spec`]) at time `now_ms`.
    pub fn next_playback_frame_at(&mut self, now_ms: u64) -> (r: Option<(String, Vec<i16>)>)
        requires
            old(self).wf(),
        ensures
            final(self).wf(),
            final(self)@ == next_playback_spec(old(self)@, now_ms).0,
            match r {
                Some((s, p)) => next_playback_spec(old(self)@, now_ms).1 == Some((s@, p@)),
                None => next_playback_spec(old(self)@, now_ms).1 is None,
            },
    {
        if self.now_playing.is_some() {
            let playing = self.now_playing.as_ref().unwrap();
            if self.play_cursor < playing.frames.len() {
                let frame = &playing.frames[self.play_cursor];
                let out = (frame.sender_id.clone(), copy_samples(&frame.samples));
                self.play_cursor = self.play_cursor + 1;
                assert(self@ =~= next_playback_spec(old(self)@, now_ms).0);
                return Some(out);
            }
            let mut finished: Option<Utterance> = None;
            std::mem::swap(&mut finished, &mut self.now_playing);
            let finished = finished.unwrap();
            self.commit_to_history(finished);
        }
        let ghost v1 = self@;
        let ghost lj0 = self.live_jitter;
        if self.playback_queue.len() > 0 {
            let next = self.playback_queue.remove(0);
            let first = if next.frames.len() > 0 {
                Some((next.frames[0].sender_id.clone(), copy_samples(&next.frames[0].samples)))
            } else {
                None
            };
            self.now_playing = Some(next);
            self.play_cursor = 1;
            proof {
                assert(self.queue() =~= v1.queue.drop_first());
                assert forall|i: int, j: int| 0 <= i < j < self.queue().len() implies
                    (#[trigger] self.queue()[i].is_favorite || !(#[trigger] self.queue()[j]).is_favorite)
                    && (self.queue()[i].is_favorite == self.queue()[j].is_favorite ==> !key_greater(self.queue()[i], self.queue()[j])) by {
                    assert(self.queue()[i] == v1.queue[i + 1] && self.queue()[j] == v1.queue[j + 1]);
                }
                assert(self@ =~= next_playback_spec(old(self)@, now_ms).0);
            }
            return first;
        }
        match self.find_drain_target(now_ms) {
            None => None,
            Some(i) => {
                let placeholder: Vec<CachedFrame> = Vec::new();
                let ghost key = self.jitter_keys()[i as int];
                proof {
                    lemma_drain_target(v1, now_ms, 0);
                    self.live_jitter.lemma_keys();
                    assert(self.jitter_keys().contains(key));
                    assert(self.live_jitter.view().dom().contains(key));
                    assert(v1.jitter[key] == frame_views(self.live_jitter.view()[key]@));
                }
                let mut q = self.live_jitter.swap_value_at(i, placeholder);
                assert(frame_views(q@) == v1.jitter[key]);
                let ghost q0 = q@;
                let frame = q.remove(0);
                assert(q@ =~= q0.drop_first());
                let ghost qv = frame_views(q@);
                let _ = self.live_jitter.swap_value_at(i, q);
                let (k, _) = self.live_jitter.entry_at(i);
                let out = (k.clone(), frame.samples);
                proof {
                    assert(qv =~= v1.jitter[key].drop_first());
                    assert(self.jitter() =~= v1.jitter.insert(key, v1.jitter[key].drop_first()));
                    assert(jitter_sorted(self.live_jitter)) by {
                        assert forall|kk: Seq<char>| #[trigger] self.live_jitter.view().contains_key(kk) implies
                            ts_sorted(frame_views(self.live_jitter.view()[kk]@)) by {
                            if kk != key {
                                assert(lj0.view().contains_key(kk));
                            } else {
                                let o = frame_views(lj0.view()[kk]@);
                                assert(lj0.view().contains_key(kk));
                                assert(ts_sorted(o));
                                assert forall|a: int, b: int| 0 <= a < b < qv.len() implies (#[trigger] qv[a]).timestamp <= (#[trigger] qv[b]).timestamp by {
                                    assert(qv[a] == o[a + 1] && qv[b] == o[b + 1]);
                                }
                            }
                        }
                    }
                    assert(self@ =~= next_playback_spec(old(self)@, now_ms).0);
                }
                Some(out)
            }
        }
    }

    /// Next frame to play, reading the clock.
    pub fn next_playback_frame(&mut self) -> (r: Option<(String, Vec<i16>)>)
        requires
            old(self).wf(),
        ensures
            final(self).wf(),
            exists|now: u64| #![trigger next_playback_spec(old(self)@, now)] final(self)@ == next_playback_spec(old(self)@, now).0
                && match r {
                    Some((s, p)) => next_playback_spec(old(self)@, now).1 == Some((s@, p@)),
                    None => next_playback_spec(old(self)@, now).1 is None,
                },
    {
        let now = crate::wire::now_ms();
        self.next_playback_frame_at(now)
    }

    fn user_name_fav(&self, k: &String) -> (r: (String, bool))
        requires
            self.wf(),
        ensures
            r.0@ == name_fav(self.users(), k@).0,
            r.1 == name_fav(self.users(), k@).1,
    {
        match self.user_info.get(k.as_str()) {
            Some(info) => (info.name.clone(), info.is_favorite),
            None => (k.clone(), false),
        }
    }

    fn commit_accumulator_at(&mut self, i: usize)
        requires
            old(self).wf(),
            i < old(self).accumulator_keys().len(),
        ensures
            final(self).wf(),
            final(self)@ == commit_accumulator(old(self)@, i as int),
    {
        let ghost v0 = self@;
        let (k, b) = self.live_accumulator.remove_at(i);
        let (name, fav) = self.user_name_fav(&k);
        let id = self.next_utterance_id();
        let ghost bv = speaker_view(b);
        let u = b.drain_to_utterance(name.as_str(), fav, id);
        let ghost v1 = self@;
        proof {
            assert(self.accumulators() =~= v0.accumulators.remove(k@));
            assert(v1 =~= CacheView {
                accumulators: v0.accumulators.remove(k@),
                accumulator_keys: v0.accumulator_keys.remove(i as int),
                next_id: v0.next_id.wrapping_add(1),
                ..v0
            });
        }
        if u.frames.len() > 0 {
            self.commit_to_history(u);
        }
    }

    /// Insert a finished utterance at its priority position (see
    /// [`insert_pos`]): favorites before others, then oldest start, then
    /// shortest, after any equal keys.
    pub fn insert_prioritized(&mut self, u: Utterance)
        requires
            old(self).wf(),
        ensures
            final(self).wf(),
            final(self)@ == (CacheView { queue: old(self)@.queue.insert(insert_pos(old(self)@.queue, u@), u@), ..old(self)@ }),
    {
        let ghost q = self.queue();
        let n = self.playback_queue.len();
        let mut f: usize = 0;
        while f < n && self.playback_queue[f].is_favorite
            invariant
                n == q.len(),
                q == self.queue(),
                f <= n,
                first_nonfav(q, 0) == first_nonfav(q, f as int),
            decreases n - f,
        {
            f = f + 1;
        }
        let (s, e) = if u.is_favorite { (0usize, f) } else { (f, n) };
        let ts = u.started_at;
        let d = u.duration_ms();
        let mut p: usize = s;
        while p < e
            invariant
                n == q.len(),
                q == self.queue(),
                s <= p <= e <= n,
                first_later(q, u@, s as int, e as int) == first_later(q, u@, p as int, e as int),
                d == duration_spec(u@),
                ts == u@.started_at,
            ensures
                s <= p <= e,
                first_later(q, u@, s as int, e as int) == p,
            decreases e - p,
        {
            let cur = &self.playback_queue[p];
            let cd = cur.duration_ms();
            if cur.started_at > ts || (cur.started_at == ts && cd > d) {
                break;
            }
            p = p + 1;
        }
        proof {
            lemma_insert_keeps_priority_order(q, u@);
        }
        let ghost uv = u@;
        self.playback_queue.insert(p, u);
        assert(self.queue() =~= q.insert(p as int, uv));
        assert(self@ =~= CacheView { queue: q.insert(insert_pos(q, uv), uv), ..old(self)@ });
    }

    /// Total duration of the queued utterances, or `None` when it does not
    /// fit in a `u64` (the condition `status` needs).
    pub fn queued_duration_ms(&self) -> (d: Option<u64>)
        ensures
            match d {
                Some(x) => x == queued_duration(self.queue()),
                None => queued_duration(self.queue()) > u64::MAX,
            },
    {
        let ghost q = self.queue();
        let mut total: u64 = 0;
        let mut i: usize = 0;
        while i < self.playback_queue.len()
            invariant
                q == self.queue(),
                i <= q.len(),
                total == queued_duration(q.take(i as int)),
            decreases q.len() - i,
        {
            proof {
                assert(q.take(i + 1).drop_last() =~= q.take(i as int));
            }
            let d = self.playback_queue[i].duration_ms();
            if d > u64::MAX - total {
                proof {
                    lemma_queued_duration_prefix(q, i + 1);
                }
                return None;
            }
            total = total + d;
            i = i + 1;
        }
        assert(q.take(i as int) =~= q);
        Some(total)
    }

    /// The status as a compact JSON object, with the history length added.
    pub fn status_json(&self) -> (s: String)
        requires
            queued_duration(self.queue()) <= u64::MAX,
        ensures
            s@ == status_json_text(
                status_keys(),
                mode_name(self.mode_spec()),
                self.queue().len() as usize,
                queued_duration(self.queue()) as u64,
                match self.playing() { Some(u) => Some(u.sender_id), None => None },
                match self.playing() { Some(u) => Some(u.sender_name), None => None },
                self.queue().map_values(|u: UtteranceView| u.sender_name),
                self.hist().len() as usize,
            ),
    {
        let st = self.status();
        let mode: &str = match st.mode {
            CacheMode::Live => "Live",
            CacheMode::Queue => "Queue",
            CacheMode::Replay => "Replay",
            CacheMode::Mix => "Mix",
        };
        proof {
            assert(opt_string_view(st.current_speaker) == match self.playing() { Some(u) => Some(u.sender_id), None => None });
            assert(opt_string_view(st.current_speaker_name) == match self.playing() { Some(u) => Some(u.sender_name), None => None });
        }
        let keys: [&str; 7] = [
            "mode",
            "queued_utterances",
            "queued_duration_ms",
            "current_speaker",
            "current_speaker_name",
            "speakers_in_queue",
            "history_count",
        ];
        assert(keys@.map_values(|k: &str| k@) =~= status_keys());
        status_object_json(
            &keys,
            mode,
            st.queued_utterances,
            st.queued_duration_ms,
            &st.current_speaker,
            &st.current_speaker_name,
            &st.speakers_in_queue,
            self.history.len(),
        )
    }

    /// Status for the UI: mode, queue length and total duration, the
    /// current speaker and the names waiting in the queue.
    pub fn status(&self) -> (st: CacheStatus)
        requires
            queued_duration(self.queue()) <= u64::MAX,
        ensures
            st.mode == self.mode_spec(),
            st.queued_utterances == self.queue().len(),
            st.queued_duration_ms == queued_duration(self.queue()),
            match st.current_speaker {
                Some(x) => (self.playing() matches Some(u) && x@ == u.sender_id),
                None => self.playing() is None,
            },
            match st.current_speaker_name {
                Some(x) => (self.playing() matches Some(u) && x@ == u.sender_name),
                None => self.playing() is None,
            },
            string_views(st.speakers_in_queue@) == self.queue().map_values(|u: UtteranceView| u.sender_name),
    {
        let ghost q = self.queue();
        let mut total: u64 = 0;
        let mut names: Vec<String> = Vec::new();
        let mut i: usize = 0;
        while i < self.playback_queue.len()
            invariant
                q == self.queue(),
                i <= q.len(),
                queued_duration(q) <= u64::MAX,
                total == queued_duration(q.take(i as int)),
                names@.len() == i,
                string_views(names@) == q.take(i as int).map_values(|u: UtteranceView| u.sender_name),
            decreases q.len() - i,
        {
            proof {
                lemma_queued_duration_prefix(q, i + 1);
                assert(q.take(i + 1).drop_last() =~= q.take(i as int));
            }
            let d = self.playback_queue[i].duration_ms();
            total = total + d;
            let ghost before = names@;
            let nm = self.playback_queue[i].sender_name.clone();
            assert(nm@ == q[i as int].sender_name);
            names.push(nm);
            proof {
                assert forall|j: int| 0 <= j < i + 1 implies #[trigger] string_views(names@)[j] == q.take(i + 1).map_values(|u: UtteranceView| u.sender_name)[j] by {
                    if j < i {
                        assert(names@[j] == before[j]);
                        assert(string_views(before)[j] == q.take(i as int).map_values(|u: UtteranceView| u.sender_name)[j]);
                    }
                }
                assert(string_views(names@) =~= q.take(i + 1).map_values(|u: UtteranceView| u.sender_name));
            }
            i = i + 1;
        }
        assert(q.take(i as int) =~= q);
        let current_speaker = match &self.now_playing {
            Some(u) => Some(u.sender_id.clone()),
            None => None,
        };
        let current_speaker_name = match &self.now_playing {
            Some(u) => Some(u.sender_name.clone()),
            None => None,
        };
        CacheStatus {
            mode: self.mode,
            queued_utterances: self.playback_queue.len(),
            queued_duration_ms: total,
            current_speaker,
            current_speaker_name,
            speakers_in_queue: names,
        }
    }

    /// Hard reset: drop in-flight audio, the queue, playback and the history.
    pub fn clear(&mut self)
        requires
            old(self).wf(),
        ensures
            final(self).wf(),
            final(self)@ == cleared(old(self)@),
    {
        self.active_buffers.clear();
        self.live_accumulator.clear();
        self.playback_queue.clear();
        self.history.clear();
        self.now_playing = None;
        self.play_cursor = 0;
        self.mode = CacheMode::Live;
        proof {
            assert(self.speakers() =~= Map::<Seq<char>, SpeakerView>::empty());
            assert(self.accumulators() =~= Map::<Seq<char>, SpeakerView>::empty());
            assert(self.queue() =~= Seq::<UtteranceView>::empty());
            assert(self.hist() =~= Seq::<UtteranceView>::empty());
            assert(self@ =~= cleared(old(self)@));
        }
    }

    /// Transport reset: drain the Live shadow accumulators into the history
    /// (so nothing just heard is lost), then clear every in-flight buffer
    /// and the playback state; the history survives.
    pub fn clear_active(&mut self)
        requires
            old(self).wf(),
        ensures
            final(self).wf(),
            final(self)@ == cleared_active(old(self)@),
    {
        while self.live_accumulator.len() > 0
            invariant
                self.wf(),
                drain_accumulators(self@) == drain_accumulators(old(self)@),
            decreases self.accumulator_keys().len(),
        {
            self.commit_accumulator_at(0);
        }
        let ghost d = self@;
        assert(drain_accumulators(d) == d);
        self.active_buffers.clear();
        self.live_accumulator.clear();
        self.playback_queue.clear();
        self.live_jitter.clear();
        self.now_playing = None;
        self.play_cursor = 0;
        self.mode = CacheMode::Live;
        proof {
            assert(self.speakers() =~= Map::<Seq<char>, SpeakerView>::empty());
            assert(self.accumulators() =~= Map::<Seq<char>, SpeakerView>::empty());
            assert(self.jitter() =~= Map::<Seq<char>, Seq<FrameView>>::empty());
            assert(self.queue() =~= Seq::<UtteranceView>::empty());
            assert(self@ =~= cleared_active(old(self)@));
        }
    }

    fn finalize_accumulators_at(&mut self, now: u64)
        requires
            old(self).wf(),
        ensures
            final(self).wf(),
            final(self)@ == finalize_accumulators(old(self)@, now, 0),
    {
        let mut i: usize = 0;
        while i < self.live_accumulator.len()
            invariant
                self.wf(),
                finalize_accumulators(self@, now, i as int) == finalize_accumulators(old(self)@, now, 0),
            decreases self.accumulator_keys().len() - i,
        {
            let done = {
                let (_, b) = self.live_accumulator.entry_at(i);
                b.is_speech_complete(now)
            };
            if done {
                self.commit_accumulator_at(i);
            } else {
                i = i + 1;
            }
        }
    }

    fn finish_speaker_at(&mut self, i: usize)
        requires
            old(self).wf(),
            i < old(self).speaker_keys().len(),
        ensures
            final(self).wf(),
            final(self)@ == finish_speaker(old(self)@, i as int),
    {
        let ghost v0 = self@;
        let (k, b) = self.active_buffers.remove_at(i);
        let ghost v1 = self@;
        proof {
            assert(self.speakers() =~= v0.speakers.remove(k@));
            assert(v1 =~= CacheView { speakers: v0.speakers.remove(k@), speaker_keys: v0.speaker_keys.remove(i as int), ..v0 });
        }
        let muted = match self.user_info.get(k.as_str()) {
            Some(info) => info.is_muted,
            None => false,
        };
        if muted {
            return;
        }
        let (name, fav) = self.user_name_fav(&k);
        let id = self.next_utterance_id();
        let u = b.drain_to_utterance(name.as_str(), fav, id);
        if u.frames.len() > 0 {
            self.insert_prioritized(u);
        }
    }

    fn finalize_speakers_at(&mut self, now: u64)
        requires
            old(self).wf(),
        ensures
            final(self).wf(),
            final(self)@ == finalize_speakers(old(self)@, now, 0),
    {
        let mut i: usize = 0;
        while i < self.active_buffers.len()
            invariant
                self.wf(),
                finalize_speakers(self@, now, i as int) == finalize_speakers(old(self)@, now, 0),
            decreases self.speaker_keys().len() - i,
        {
            let done = {
                let (_, b) = self.active_buffers.entry_at(i);
                b.is_speech_complete(now)
            };
            if done {
                self.finish_speaker_at(i);
            } else {
                i = i + 1;
            }
        }
    }

    fn gc_buffers(&mut self)
        requires
            old(self).wf(),
        ensures
            final(self).wf(),
            final(self)@ == gc_jitter(gc_accumulators(gc_speakers(old(self)@, 0), 0), 0),
    {
        let mut i: usize = 0;
        while i < self.active_buffers.len()
            invariant
                self.wf(),
                gc_speakers(self@, i as int) == gc_speakers(old(self)@, 0),
            decreases self.speaker_keys().len() - i,
        {
            let keep = {
                let (_, b) = self.active_buffers.entry_at(i);
                b.frames.len() > 0 || b.recent_pushes.len() > 0
            };
            if keep {
                i = i + 1;
            } else {
                let ghost v0 = self@;
                let (k, _) = self.active_buffers.remove_at(i);
                assert(self.speakers() =~= v0.speakers.remove(k@));
                assert(self@ =~= CacheView { speakers: v0.speakers.remove(v0.speaker_keys[i as int]), speaker_keys: v0.speaker_keys.remove(i as int), ..v0 });
            }
        }
        let ghost va = self@;
        let mut i: usize = 0;
        while i < self.live_accumulator.len()
            invariant
                self.wf(),
                gc_accumulators(self@, i as int) == gc_accumulators(va, 0),
            decreases self.accumulator_keys().len() - i,
        {
            let keep = {
                let (_, b) = self.live_accumulator.entry_at(i);
                b.frames.len() > 0 || b.recent_pushes.len() > 0
            };
            if keep {
                i = i + 1;
            } else {
                let ghost v0 = self@;
                let (k, _) = self.live_accumulator.remove_at(i);
                assert(self.accumulators() =~= v0.accumulators.remove(k@));
                assert(self@ =~= CacheView { accumulators: v0.accumulators.remove(v0.accumulator_keys[i as int]), accumulator_keys: v0.accumulator_keys.remove(i as int), ..v0 });
            }
        }
        let ghost vj = self@;
        let mut i: usize = 0;
        while i < self.live_jitter.len()
            invariant
                self.wf(),
                gc_jitter(self@, i as int) == gc_jitter(vj, 0),
            decreases self.jitter_keys().len() - i,
        {
            let keep = {
                let (_, q) = self.live_jitter.entry_at(i);
                q.len() > 0
            };
            if keep {
                i = i + 1;
            } else {
                let ghost v0 = self@;
                let ghost lj = self.live_jitter;
                let (k, _) = self.live_jitter.remove_at(i);
                proof {
                    assert(self.jitter() =~= v0.jitter.remove(k@));
                    assert forall|kk: Seq<char>| #[trigger] self.live_jitter.view().contains_key(kk) implies
                        ts_sorted(frame_views(self.live_jitter.view()[kk]@)) by {
                        assert(lj.view().contains_key(kk));
                    }
                    assert(self@ =~= CacheView { jitter: v0.jitter.remove(v0.jitter_keys[i as int]), jitter_keys: v0.jitter_keys.remove(i as int), ..v0 });
                }
            }
        }
    }

    fn count_active_speakers(&self) -> (n: usize)
        requires
            self.wf(),
        ensures
            n == count_active(self.speaker_keys(), self.speakers()),
    {
        let ghost ks = self.speaker_keys();
        let mut n: usize = 0;
        let mut i: usize = 0;
        while i < self.active_buffers.len()
            invariant
                self.wf(),
                ks == self.speaker_keys(),
                i <= ks.len(),
                n <= i,
                n == count_active(ks.take(i as int), self.speakers()),
            decreases ks.len() - i,
        {
            let (k, b) = self.active_buffers.entry_at(i);
            proof {
                assert(ks.take(i + 1).drop_last() =~= ks.take(i as int));
                assert(ks.take(i + 1).last() == k@);
            }
            if b.is_actively_speaking() {
                n = n + 1;
            }
            i = i + 1;
        }
        assert(ks.take(i as int) =~= ks);
        n
    }

    /// One housekeeping pass at time `now_ms` (see [`tick_spec`]).
    pub fn tick_at(&mut self, now_ms: u64)
        requires
            old(self).wf(),
        ensures
            final(self).wf(),
            final(self)@ == tick_spec(old(self)@, now_ms),
    {
        let ghost v0 = self@;
        prune_buffers(&mut self.active_buffers, now_ms);
        prune_buffers(&mut self.live_accumulator, now_ms);
        assert(self@ =~= CacheView { speakers: prune_all(v0.speakers, now_ms), accumulators: prune_all(v0.accumulators, now_ms), ..v0 });
        self.finalize_accumulators_at(now_ms);
        self.finalize_speakers_at(now_ms);
        self.gc_buffers();
        let ghost v4 = self@;
        if self.mode == CacheMode::Queue && self.playback_queue.len() == 0 && self.now_playing.is_none() {
            let active = self.count_active_speakers();
            if active <= 1 {
                self.mode = CacheMode::Live;
            }
        }
        assert(self@ =~= recover_live(v4));
        let ghost v5 = self@;
        while self.playback_queue.len() > MAX_QUEUED_UTTERANCES
            invariant
                self.wf(),
                trim_queue(self@) == trim_queue(v5),
                self@ == (CacheView { queue: self@.queue, ..v5 }),
            decreases self.playback_queue.len(),
        {
            let ghost q = self.queue();
            self.playback_queue.remove(0);
            proof {
                assert(self.queue() =~= q.drop_first());
                assert(q.drop_first().skip(q.drop_first().len() - MAX_QUEUED_UTTERANCES) =~= q.skip(q.len() - MAX_QUEUED_UTTERANCES));
                assert forall|i: int, j: int| 0 <= i < j < self.queue().len() implies
                    (#[trigger] self.queue()[i].is_favorite || !(#[trigger] self.queue()[j]).is_favorite)
                    && (self.queue()[i].is_favorite == self.queue()[j].is_favorite ==> !key_greater(self.queue()[i], self.queue()[j])) by {
                    assert(self.queue()[i] == q[i + 1] && self.queue()[j] == q[j + 1]);
                }
            }
        }
    }

    /// One housekeeping pass, reading the clock.
    pub fn tick(&mut self)
        requires
            old(self).wf(),
        ensures
            final(self).wf(),
            exists|now: u64| final(self)@ == #[trigger] tick_spec(old(self)@, now),
    {
        let now = crate::wire::now_ms();
        self.tick_at(now);
    }

    /// One mix attempt at time `now` (see [`take_mix_spec`]).
    fn take_mix_at(&mut self, now: u64) -> (r: Option<Vec<i32>>)
        requires
            old(self).wf(),
        ensures
            final(self).wf(),
            final(self)@ == take_mix_spec(old(self)@, now).0,
            match r {
                Some(a) => take_mix_spec(old(self)@, now).1 == Some(a@),
                None => take_mix_spec(old(self)@, now).1 is None,
            },
    {
        if self.mix_pending.len() < 2 {
            return None;
        }
        let ghost v0 = self@;
        let mut i: usize = 0;
        while i < self.mix_pending.len()
            invariant
                self.wf(),
                drop_stale(self@, now, i as int) == drop_stale(v0, now, 0),
            decreases self.pending_keys().len() - i,
        {
            let fresh = {
                let (_, f) = self.mix_pending.entry_at(i);
                let age: u64 = if now >= f.received_at { now - f.received_at } else { 0 };
                age < 2 * MIX_ALIGNMENT_WINDOW_MS
            };
            if fresh {
                i = i + 1;
            } else {
                let ghost vb = self@;
                let (k, _) = self.mix_pending.remove_at(i);
                assert(self.pending_mix() =~= vb.pending.remove(k@));
                assert(self@ =~= CacheView { pending: vb.pending.remove(vb.pending_keys[i as int]), pending_keys: vb.pending_keys.remove(i as int), ..vb });
            }
        }
        let ghost v1 = self@;
        assert(v1 == drop_stale(v0, now, 0));
        let n = self.mix_pending.len();
        if n < 2 {
            return None;
        }
        let ghost ks = self.pending_keys();
        let ghost m = self.pending_mix();
        let mut lead: u64 = u64::MAX;
        let mut i: usize = 0;
        while i < n
            invariant
                self@ == v1,
                self.wf(),
                ks == self.pending_keys(),
                m == self.pending_mix(),
                n == ks.len(),
                i <= n,
                lead == min_ts(ks.take(i as int), m),
            decreases n - i,
        {
            let (k, f) = self.mix_pending.entry_at(i);
            proof {
                assert(ks.take(i + 1).drop_last() =~= ks.take(i as int));
                assert(ks.take(i + 1).last() == k@);
            }
            if f.timestamp < lead {
                lead = f.timestamp;
            }
            i = i + 1;
        }
        assert(ks.take(n as int) =~= ks);
        let w: u64 = if lead > u64::MAX - MIX_ALIGNMENT_WINDOW_MS { u64::MAX } else { lead + MIX_ALIGNMENT_WINDOW_MS };
        let mut count: usize = 0;
        let mut first: usize = 0;
        let mut i: usize = 0;
        while i < n
            invariant
                self@ == v1,
                self.wf(),
                ks == self.pending_keys(),
                m == self.pending_mix(),
                n == ks.len(),
                i <= n,
                count == aligned_keys(ks.take(i as int), m, w).len(),
                count <= i,
                count > 0 ==> first < n && ks[first as int] == aligned_keys(ks.take(i as int), m, w)[0],
            decreases n - i,
        {
            let (k, f) = self.mix_pending.entry_at(i);
            proof {
                assert(ks.take(i + 1).drop_last() =~= ks.take(i as int));
                assert(ks.take(i + 1).last() == k@);
            }
            if f.timestamp <= w {
                if count == 0 {
                    first = i;
                }
                count = count + 1;
            }
            i = i + 1;
        }
        assert(ks.take(n as int) =~= ks);
        if count < 2 {
            return None;
        }
        let flen = {
            let (_, f) = self.mix_pending.entry_at(first);
            f.samples.len()
        };
        let mut acc: Vec<i32> = Vec::new();
        let mut j: usize = 0;
        while j < flen
            invariant
                j <= flen,
                acc@ == Seq::new(j as nat, |t: int| 0i32),
            decreases flen - j,
        {
            acc.push(0);
            j = j + 1;
            assert(acc@ =~= Seq::new(j as nat, |t: int| 0i32));
        }
        let ghost target = mix_pass(v1, w, 0, Seq::new(flen as nat, |t: int| 0i32));
        let mut i: usize = 0;
        while i < self.mix_pending.len()
            invariant
                self.wf(),
                mix_pass(self@, w, i as int, acc@) == target,
            decreases self.pending_keys().len() - i,
        {
            let take = {
                let (_, f) = self.mix_pending.entry_at(i);
                f.timestamp <= w
            };
            if take {
                let ghost vb = self@;
                let (k, f) = self.mix_pending.remove_at(i);
                add_into(&mut acc, &f.samples);
                assert(self.pending_mix() =~= vb.pending.remove(k@));
                assert(self@ =~= CacheView { pending: vb.pending.remove(vb.pending_keys[i as int]), pending_keys: vb.pending_keys.remove(i as int), ..vb });
            } else {
                i = i + 1;
            }
        }
        Some(acc)
    }

    fn push_speaker_frame(&mut self, sender_id: &str, frame: CachedFrame, now: u64)
        requires
            old(self).wf(),
            old(self).speakers().contains_key(sender_id@),
        ensures
            final(self).wf(),
            final(self)@ == (CacheView {
                speakers: old(self)@.speakers.insert(sender_id@, pushed(old(self)@.speakers[sender_id@], frame@, now)),
                ..old(self)@
            }),
    {
        let ghost v0 = self@;
        let i = self.active_buffers.index_of(sender_id);
        let placeholder = SpeakerBuffer::new("", 0);
        let mut b = self.active_buffers.swap_value_at(i, placeholder);
        let ghost fv = frame@;
        b.push_frame(frame, now);
        let _ = self.active_buffers.swap_value_at(i, b);
        proof {
            assert(self.speakers() =~= v0.speakers.insert(sender_id@, pushed(v0.speakers[sender_id@], fv, now)));
            assert(self@ =~= CacheView { speakers: v0.speakers.insert(sender_id@, pushed(v0.speakers[sender_id@], fv, now)), ..v0 });
        }
    }

    fn live_passthrough_at(&mut self, sender_id: &str, timestamp: u64, samples: Vec<i16>, now: u64) -> (out: IngestOutcome)
        requires
            old(self).wf(),
            old(self).speakers().contains_key(sender_id@),
        ensures
            final(self).wf(),
            (final(self)@, out@) == live_passthrough(old(self)@, sender_id@, ingest_frame_view(sender_id@, timestamp, samples@, now), now),
    {
        let ghost v0 = self@;
        let ghost k = sender_id@;
        let i = self.active_buffers.index_of(sender_id);
        let placeholder = SpeakerBuffer::new("", 0);
        let mut b = self.active_buffers.swap_value_at(i, placeholder);
        let ghost fr0 = b.frames@;
        let recycled = b.frames.pop();
        let _ = self.active_buffers.swap_value_at(i, b);
        match recycled {
            None => {
                assert(self@ =~= v0);
            }
            Some(live_frame) => {
                proof {
                    assert(frame_views(b.frames@) =~= frame_views(fr0).drop_last());
                    assert(live_frame@ == frame_views(fr0).last());
                    assert(self.speakers() =~= v0.speakers.insert(k, SpeakerView { frames: v0.speakers[k].frames.drop_last(), ..v0.speakers[k] }));
                }
                if !self.live_accumulator.contains_key(sender_id) {
                    self.live_accumulator.insert(sender_id.to_owned(), SpeakerBuffer::new(sender_id, now));
                }
                let j = self.live_accumulator.index_of(sender_id);
                let placeholder = SpeakerBuffer::new("", 0);
                let mut a = self.live_accumulator.swap_value_at(j, placeholder);
                let ghost lv = live_frame@;
                a.push_frame(live_frame, now);
                let _ = self.live_accumulator.swap_value_at(j, a);
                proof {
                    let known = v0.accumulators.contains_key(k);
                    let acc = if known { v0.accumulators[k] } else { new_speaker(k, now) };
                    assert(self.accumulators() =~= v0.accumulators.insert(k, pushed(acc, lv, now)));
                }
            }
        }
        let ghost v1 = self@;
        let new_frame = CachedFrame { sender_id: sender_id.to_owned(), timestamp, samples, received_at: now };
        let ghost nf = new_frame@;
        let ghost lj0 = self.live_jitter;
        if !self.live_jitter.contains_key(sender_id) {
            self.live_jitter.insert(sender_id.to_owned(), Vec::new());
            proof {
                assert(frame_views(Seq::<CachedFrame>::empty()) =~= Seq::<FrameView>::empty());
                assert forall|kk: Seq<char>| #[trigger] self.live_jitter.view().contains_key(kk) implies
                    ts_sorted(frame_views(self.live_jitter.view()[kk]@)) by {
                    if kk != k {
                        assert(lj0.view().contains_key(kk));
                    }
                }
            }
        }
        let ghost lj1 = self.live_jitter;
        let j = self.live_jitter.index_of(sender_id);
        let mut q = self.live_jitter.swap_value_at(j, Vec::new());
        let ghost qv = frame_views(q@);
        proof {
            assert(lj1.view().contains_key(k));
            assert(ts_sorted(qv));
            assert(qv == (if v1.jitter.contains_key(k) { v1.jitter[k] } else { Seq::<FrameView>::empty() }));
        }
        let mut p: usize = 0;
        while p < q.len() && q[p].timestamp <= timestamp
            invariant
                p <= q@.len(),
                qv == frame_views(q@),
                first_after(qv, timestamp, 0) == first_after(qv, timestamp, p as int),
            decreases q.len() - p,
        {
            p = p + 1;
        }
        let ghost q0 = q@;
        q.insert(p, new_frame);
        proof {
            assert(frame_views(q@) =~= qv.insert(p as int, nf));
            lemma_jitter_insert_sorted(qv, nf);
        }
        let ghost q2 = frame_views(q@);
        let out = if q.len() > self.jitter_prebuffer {
            let f = q.remove(0);
            assert(frame_views(q@) =~= q2.drop_first());
            IngestOutcome::Play(f.samples)
        } else {
            IngestOutcome::Held
        };
        let _ = self.live_jitter.swap_value_at(j, q);
        proof {
            assert forall|kk: Seq<char>| #[trigger] self.live_jitter.view().contains_key(kk) implies
                ts_sorted(frame_views(self.live_jitter.view()[kk]@)) by {
                if kk != k {
                    assert(lj1.view().contains_key(kk));
                }
            }
            assert(self.jitter() =~= v1.jitter.insert(k, frame_views(q@)));
        }
        out
    }

    /// Ingest a received frame at time `now_ms` (see [`ingest_spec`]).
    pub fn ingest_frame_at(&mut self, sender_id: &str, timestamp: u64, samples: Vec<i16>, now_ms: u64) -> (out: IngestOutcome)
        requires
            old(self).wf(),
        ensures
            final(self).wf(),
            (final(self)@, out@) == ingest_spec(old(self)@, sender_id@, timestamp, samples@, now_ms),
    {
        let ghost v = self@;
        let ghost k = sender_id@;
        if !self.accept_frame_once(sender_id, timestamp) {
            assert(self@ =~= v);
            return IngestOutcome::Held;
        }
        let ghost v0 = self@;
        assert(v0 =~= CacheView { dedup: dedup_push(v.dedup, (k, timestamp)), ..v });
        let muted = match self.user_info.get(sender_id) {
            Some(info) => info.is_muted,
            None => false,
        };
        if muted {
            return IngestOutcome::Held;
        }
        if !self.active_buffers.contains_key(sender_id) {
            if self.active_buffers.len() >= MAX_CACHED_SPEAKERS {
                return IngestOutcome::Held;
            }
            self.active_buffers.insert(sender_id.to_owned(), SpeakerBuffer::new(sender_id, now_ms));
        }
        let frame = CachedFrame { sender_id: sender_id.to_owned(), timestamp, samples: copy_samples(&samples), received_at: now_ms };
        self.push_speaker_frame(sender_id, frame, now_ms);
        let ghost fv = ingest_frame_view(k, timestamp, samples@, now_ms);
        let ghost v1 = self@;
        assert(v1 =~= add_speaker_frame(v0, k, fv, now_ms));
        let active = self.count_active_speakers();
        if active > 1 && self.mode == CacheMode::Live {
            self.mode = if self.enable_mix_mode && active <= MIX_MAX_SPEAKERS { CacheMode::Mix } else { CacheMode::Queue };
            self.live_jitter.clear();
        }
        if self.mode == CacheMode::Mix && active > MIX_MAX_SPEAKERS {
            self.mode = CacheMode::Queue;
            self.mix_pending.clear();
        }
        proof {
            assert(self.jitter() =~= (if active > 1 && v1.mode == CacheMode::Live { Map::<Seq<char>, Seq<FrameView>>::empty() } else { v1.jitter }));
            assert(self.pending_mix() =~= overlap_mode(v1, active as nat).pending);
            assert(self@ =~= overlap_mode(v1, active as nat));
        }
        if self.mode == CacheMode::Mix {
            let ghost v2 = self@;
            self.mix_pending.insert(sender_id.to_owned(), CachedFrame { sender_id: sender_id.to_owned(), timestamp, samples, received_at: now_ms });
            assert(self.pending_mix() =~= v2.pending.insert(k, fv));
            return match self.take_mix_at(now_ms) {
                Some(a) => IngestOutcome::MixReady(a),
                None => IngestOutcome::Held,
            };
        }
        if self.mode == CacheMode::Live && active <= 1 && self.now_playing.is_none() {
            return self.live_passthrough_at(sender_id, timestamp, samples, now_ms);
        }
        IngestOutcome::Held
    }

    /// Ingest a received frame, reading the clock.
    pub fn ingest_frame(&mut self, sender_id: &str, timestamp: u64, samples: Vec<i16>) -> (out: IngestOutcome)
        requires
            old(self).wf(),
        ensures
            final(self).wf(),
            exists|now: u64| (final(self)@, out@) == #[trigger] ingest_spec(old(self)@, sender_id@, timestamp, samples@, now),
    {
        let now = crate::wire::now_ms();
        self.ingest_frame_at(sender_id, timestamp, samples, now)
    }

    /// Number of speakers with an accumulator.
    pub fn active_speaker_count(&self) -> (n: usize)
        requires
            self.wf(),
        ensures
            n == self.speaker_keys().len(),
    {
        self.active_buffers.len()
    }

    /// Id of the most recent history entry.
    pub fn last_history_id(&self) -> (r: Option<u64>)
        ensures
            r == (if self.hist().len() == 0 { None } else { Some(self.hist().last().id) }),
    {
        if self.history.len() == 0 {
            None
        } else {
            Some(self.history[self.history.len() - 1].id)
        }
    }
}

/// The name of a cache mode.
pub open spec fn mode_name(m: CacheMode) -> Seq<char> {
    match m {
        CacheMode::Live => "Live"@,
        CacheMode::Queue => "Queue"@,
        CacheMode::Replay => "Replay"@,
        CacheMode::Mix => "Mix"@,
    }
}

/// The characters of an optional string.
pub open spec fn opt_string_view(o: Option<String>) -> Option<Seq<char>> {
    match o {
        Some(x) => Some(x@),
        None => None,
    }
}

/// The keys of the status object, one per value.
pub open spec fn status_keys() -> Seq<Seq<char>> {
    seq![
        "mode"@,
        "queued_utterances"@,
        "queued_duration_ms"@,
        "current_speaker"@,
        "current_speaker_name"@,
        "speakers_in_queue"@,
        "history_count"@,
    ]
}

/// The compact JSON text that `serde_json` writes for an object whose
/// seven keys (in `keys`, one per value) hold these values, an absent
/// speaker as `null`.
pub uninterp spec fn status_json_text(
    keys: Seq<Seq<char>>,
    mode: Seq<char>,
    queued_utterances: usize,
    queued_duration_ms: u64,
    current_speaker: Option<Seq<char>>,
    current_speaker_name: Option<Seq<char>>,
    speakers_in_queue: Seq<Seq<char>>,
    history_count: usize,
) -> Seq<char>;

/// Builds a `serde_json` object with the seven values under the seven
/// given keys and writes it with `Value::to_string`; the text is named by
/// `status_json_text`.
#[verifier::external_body]
fn status_object_json(
    keys: &[&str; 7],
    mode: &str,
    queued_utterances: usize,
    queued_duration_ms: u64,
    current_speaker: &Option<String>,
    current_speaker_name: &Option<String>,
    speakers_in_queue: &Vec<String>,
    history_count: usize,
) -> (s: String)
    ensures
        s@ == status_json_text(
            keys@.map_values(|k: &str| k@),
            mode@,
            queued_utterances,
            queued_duration_ms,
            opt_string_view(*current_speaker),
            opt_string_view(*current_speaker_name),
            string_views(speakers_in_queue@),
            history_count,
        ),
{
    let mut m = serde_json::Map::new();
    m.insert(keys[0].to_string(), mode.into());
    m.insert(keys[1].to_string(), queued_utterances.into());
    m.insert(keys[2].to_string(), queued_duration_ms.into());
    m.insert(keys[3].to_string(), current_speaker.clone().into());
    m.insert(keys[4].to_string(), current_speaker_name.clone().into());
    m.insert(keys[5].to_string(), speakers_in_queue.clone().into());
    m.insert(keys[6].to_string(), history_count.into());
    serde_json::Value::Object(m).to_string()
}

} // verus!
