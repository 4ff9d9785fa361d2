//! Cohort history: the non-sensitive metadata of the groups this device
//! hosted or joined (id, channel, group name, role, host device, the last
//! participants and timestamps), most recent first and bounded in size.
//! No key material is ever stored here.
use vstd::prelude::*;

verus! {

/// Default number of cohorts remembered.
pub const DEFAULT_HISTORY_CAP: usize = 50;

/// Window (s) within which a locally minted record is merged into a newly
/// learned cohort id.
pub const ORPHAN_MERGE_WINDOW_SECS: u64 = 30 * 24 * 3600;

/// How this device took part in a cohort.
#[derive(Debug, Clone, Copy, PartialEq, Eq, Structural)]
pub enum CohortRole {
    Hosted,
    Joined,
    Both,
}

/// The combined role of two roles: `Both` unless they agree.
pub open spec fn role_max(a: CohortRole, b: CohortRole) -> CohortRole {
    if a == CohortRole::Both || b == CohortRole::Both || a != b { CohortRole::Both } else { a }
}

impl CohortRole {
    fn max_with(self, other: &CohortRole) -> (r: CohortRole)
        ensures
            r == role_max(self, *other),
    {
        match (self, other) {
            (CohortRole::Both, _) | (_, CohortRole::Both) => CohortRole::Both,
            (CohortRole::Hosted, CohortRole::Joined) | (CohortRole::Joined, CohortRole::Hosted) => CohortRole::Both,
            (CohortRole::Hosted, _) => CohortRole::Hosted,
            (CohortRole::Joined, _) => CohortRole::Joined,
        }
    }
}

/// A participant seen in the last session.
pub struct ParticipantSnapshot {
    pub id: String,
    pub name: String,
}

/// The participants as `(id, name)` pairs.
pub open spec fn participant_views(v: Seq<ParticipantSnapshot>) -> Seq<(Seq<char>, Seq<char>)> {
    v.map_values(|p: ParticipantSnapshot| (p.id@, p.name@))
}

/// A cohort record as the history sees it.
pub struct RecordView {
    pub cohort_id: Seq<char>,
    pub channel: u8,
    pub group_name: Seq<char>,
    pub role: CohortRole,
    pub host_device: Option<Seq<char>>,
    pub last_participants: Seq<(Seq<char>, Seq<char>)>,
    pub last_session_id: Seq<char>,
    pub created_at: u64,
    pub last_joined_at: u64,
}

/// What the history remembers of one cohort.
pub struct CohortRecord {
    pub cohort_id: String,
    pub channel: u8,
    pub group_name: String,
    pub role: CohortRole,
    pub host_device: Option<String>,
    pub last_participants: Vec<ParticipantSnapshot>,
    pub last_session_id: String,
    pub created_at: u64,
    pub last_joined_at: u64,
}

/// The characters of an optional string.
pub open spec fn opt_chars(o: Option<String>) -> Option<Seq<char>> {
    match o {
        Some(s) => Some(s@),
        None => None,
    }
}

impl View for CohortRecord {
    type V = RecordView;

    open spec fn view(&self) -> RecordView {
        RecordView {
            cohort_id: self.cohort_id@,
            channel: self.channel,
            group_name: self.group_name@,
            role: self.role,
            host_device: opt_chars(self.host_device),
            last_participants: participant_views(self.last_participants@),
            last_session_id: self.last_session_id@,
            created_at: self.created_at,
            last_joined_at: self.last_joined_at,
        }
    }
}

/// The views of a sequence of records.
pub open spec fn record_views(v: Seq<CohortRecord>) -> Seq<RecordView> {
    v.map_values(|r: CohortRecord| r@)
}

/// Most recently joined first.
pub open spec fn recency_sorted(rs: Seq<RecordView>) -> bool {
    forall|i: int, j: int| 0 <= i < j < rs.len() ==> (#[trigger] rs[i]).last_joined_at >= (#[trigger] rs[j]).last_joined_at
}

/// First index at or after `i` of a record joined before `t` (or the length).
pub open spec fn first_older(rs: Seq<RecordView>, t: u64, i: int) -> int
    decreases rs.len() - i,
{
    if i < 0 || i >= rs.len() { rs.len() as int } else if rs[i].last_joined_at < t { i } else { first_older(rs, t, i + 1) }
}

/// Insert a record after every record joined at the same time or later.
pub open spec fn insert_by_recency(rs: Seq<RecordView>, r: RecordView) -> Seq<RecordView> {
    rs.insert(first_older(rs, r.last_joined_at, 0), r)
}

/// The records sorted most recent first, records joined at the same time
/// keeping their order (a stable sort).
pub open spec fn sort_by_recency_spec(rs: Seq<RecordView>) -> Seq<RecordView>
    decreases rs.len(),
{
    if rs.len() == 0 { rs } else { insert_by_recency(sort_by_recency_spec(rs.drop_last()), rs.last()) }
}

/// The first `cap` records.
pub open spec fn capped(rs: Seq<RecordView>, cap: nat) -> Seq<RecordView> {
    if rs.len() > cap { rs.take(cap as int) } else { rs }
}

/// First index at or after `i` of a record with id `cid` (or the length).
pub open spec fn first_with_id(rs: Seq<RecordView>, cid: Seq<char>, i: int) -> int
    decreases rs.len() - i,
{
    if i < 0 || i >= rs.len() { rs.len() as int } else if rs[i].cohort_id == cid { i } else { first_with_id(rs, cid, i + 1) }
}

/// First index at or after `i` of a record hosted here with this channel
/// and group name (or the length).
pub open spec fn host_candidate(rs: Seq<RecordView>, ch: u8, g: Seq<char>, i: int) -> int
    decreases rs.len() - i,
{
    if i < 0 || i >= rs.len() {
        rs.len() as int
    } else if rs[i].channel == ch && rs[i].group_name == g && rs[i].role != CohortRole::Joined {
        i
    } else {
        host_candidate(rs, ch, g, i + 1)
    }
}

/// The cohort id a host action resolves to without minting: the given
/// non-empty id, else the id of a record hosted with this channel and group.
pub open spec fn resolved_host_id(rs: Seq<RecordView>, ch: u8, g: Seq<char>, cid: Option<Seq<char>>) -> Option<Seq<char>> {
    if cid is Some && cid->0.len() > 0 {
        cid
    } else if host_candidate(rs, ch, g, 0) < rs.len() {
        Some(rs[host_candidate(rs, ch, g, 0)].cohort_id)
    } else {
        None
    }
}

/// The history after a host action on cohort `cid`: the record is updated
/// (role gains Hosted, session, time, group name and channel refreshed) or
/// created, then the records are re-sorted and cut to the cap.
pub open spec fn host_upserted(rs: Seq<RecordView>, cap: nat, ch: u8, g: Seq<char>, cid: Seq<char>, sid: Seq<char>, now: u64) -> Seq<RecordView> {
    let i = first_with_id(rs, cid, 0);
    let rs1 = if i < rs.len() {
        rs.update(i, RecordView {
            role: if rs[i].role == CohortRole::Joined { CohortRole::Both } else { role_max(CohortRole::Hosted, rs[i].role) },
            last_session_id: sid,
            last_joined_at: now,
            group_name: g,
            channel: ch,
            ..rs[i]
        })
    } else {
        rs.push(RecordView {
            cohort_id: cid,
            channel: ch,
            group_name: g,
            role: CohortRole::Hosted,
            host_device: None,
            last_participants: Seq::empty(),
            last_session_id: sid,
            created_at: now,
            last_joined_at: now,
        })
    };
    capped(sort_by_recency_spec(rs1), cap)
}

/// The history after a join of cohort `cid` hosted by `host`: the record
/// is updated (role gains Joined, host device, session, time, group name
/// and channel refreshed) or created, then re-sorted and cut to the cap.
pub open spec fn joiner_upserted(rs: Seq<RecordView>, cap: nat, ch: u8, g: Seq<char>, cid: Seq<char>, host: Seq<char>, sid: Seq<char>, now: u64) -> Seq<RecordView> {
    let i = first_with_id(rs, cid, 0);
    let rs1 = if i < rs.len() {
        rs.update(i, RecordView {
            role: if rs[i].role == CohortRole::Hosted { CohortRole::Both } else { role_max(CohortRole::Joined, rs[i].role) },
            host_device: Some(host),
            last_session_id: sid,
            last_joined_at: now,
            group_name: g,
            channel: ch,
            ..rs[i]
        })
    } else {
        rs.push(RecordView {
            cohort_id: cid,
            channel: ch,
            group_name: g,
            role: CohortRole::Joined,
            host_device: Some(host),
            last_participants: Seq::empty(),
            last_session_id: sid,
            created_at: now,
            last_joined_at: now,
        })
    };
    capped(sort_by_recency_spec(rs1), cap)
}

/// A record joined at most the merge window before `now` (never after it).
pub open spec fn within_merge_window(joined: u64, now: u64) -> bool {
    joined <= now && now - joined <= ORPHAN_MERGE_WINDOW_SECS
}

/// First index at or after `i` of a locally minted record that the newly
/// learned cohort `cid` replaces: another id, same channel, group name and
/// host device, joined within the merge window (or the length).
pub open spec fn orphan_index(rs: Seq<RecordView>, cid: Seq<char>, ch: u8, g: Seq<char>, host: Seq<char>, now: u64, i: int) -> int
    decreases rs.len() - i,
{
    if i < 0 || i >= rs.len() {
        rs.len() as int
    } else if rs[i].cohort_id != cid && rs[i].channel == ch && rs[i].group_name == g
        && rs[i].host_device == Some(host) && within_merge_window(rs[i].last_joined_at, now) {
        i
    } else {
        orphan_index(rs, cid, ch, g, host, now, i + 1)
    }
}

/// The records without the orphan that cohort `cid` replaces, if any.
pub open spec fn without_orphan(rs: Seq<RecordView>, cid: Seq<char>, ch: u8, g: Seq<char>, host: Seq<char>, now: u64) -> Seq<RecordView> {
    let j = orphan_index(rs, cid, ch, g, host, now, 0);
    if j < rs.len() { rs.remove(j) } else { rs }
}

/// The records whose id is not `cid`, in order.
pub open spec fn without_id(rs: Seq<RecordView>, cid: Seq<char>) -> Seq<RecordView>
    decreases rs.len(),
{
    if rs.len() == 0 {
        rs
    } else if rs.last().cohort_id == cid {
        without_id(rs.drop_last(), cid)
    } else {
        without_id(rs.drop_last(), cid).push(rs.last())
    }
}

/// A fresh random cohort id: a UUID (version 4) in its hyphenated text form.
#[verifier::external_body]
fn new_cohort_id() -> (id: String)
    ensures
        id@.len() == 36,
{
    uuid::Uuid::new_v4().to_string()
}

proof fn lemma_first_older(rs: Seq<RecordView>, t: u64, i: int)
    requires
        0 <= i <= rs.len(),
    ensures
        i <= first_older(rs, t, i) <= rs.len(),
        forall|j: int| i <= j < first_older(rs, t, i) ==> rs[j].last_joined_at >= t,
        first_older(rs, t, i) < rs.len() ==> rs[first_older(rs, t, i)].last_joined_at < t,
    decreases rs.len() - i,
{
    if i < rs.len() && rs[i].last_joined_at >= t {
        lemma_first_older(rs, t, i + 1);
    }
}

proof fn lemma_insert_by_recency_sorted(rs: Seq<RecordView>, r: RecordView)
    requires
        recency_sorted(rs),
    ensures
        recency_sorted(insert_by_recency(rs, r)),
        insert_by_recency(rs, r).len() == rs.len() + 1,
{
    let p = first_older(rs, r.last_joined_at, 0);
    lemma_first_older(rs, r.last_joined_at, 0);
    let q = rs.insert(p, r);
    assert forall|i: int, j: int| 0 <= i < j < q.len() implies (#[trigger] q[i]).last_joined_at >= (#[trigger] q[j]).last_joined_at by {
        if i < p && j < p {
            assert(q[i] == rs[i] && q[j] == rs[j]);
        } else if i < p && j == p {
            assert(q[i] == rs[i]);
        } else if i < p {
            assert(q[i] == rs[i] && q[j] == rs[j - 1]);
        } else if i == p {
            assert(q[j] == rs[j - 1]);
            if j - 1 > p {
                assert(rs[p].last_joined_at >= rs[j - 1].last_joined_at);
            }
        } else {
            assert(q[i] == rs[i - 1] && q[j] == rs[j - 1]);
        }
    }
}

/// Sorting by recency yields records in most-recent-first order, and as
/// many as were given.
pub proof fn lemma_sort_by_recency_sorted(rs: Seq<RecordView>)
    ensures
        recency_sorted(sort_by_recency_spec(rs)),
        sort_by_recency_spec(rs).len() == rs.len(),
    decreases rs.len(),
{
    if rs.len() > 0 {
        lemma_sort_by_recency_sorted(rs.drop_last());
        lemma_insert_by_recency_sorted(sort_by_recency_spec(rs.drop_last()), rs.last());
    }
}

proof fn lemma_capped_sorted(rs: Seq<RecordView>, cap: nat)
    requires
        recency_sorted(rs),
    ensures
        recency_sorted(capped(rs, cap)),
        capped(rs, cap).len() <= cap,
        capped(rs, cap).len() <= rs.len(),
{
    let c = capped(rs, cap);
    assert forall|i: int, j: int| 0 <= i < j < c.len() implies (#[trigger] c[i]).last_joined_at >= (#[trigger] c[j]).last_joined_at by {
        assert(c[i] == rs[i] && c[j] == rs[j]);
    }
}

/// Records of cohorts this device hosted or joined.
pub struct CohortHistory {
    records: Vec<CohortRecord>,
    cap: usize,
}

impl CohortHistory {
    /// The records, most recent first.
    pub closed spec fn view(&self) -> Seq<RecordView> {
        record_views(self.records@)
    }

    /// The maximum number of records kept.
    pub closed spec fn cap_spec(&self) -> nat {
        self.cap as nat
    }

    /// Internal consistency: at most `cap` records (cap at least 1), most
    /// recent first.
    pub closed spec fn wf(&self) -> bool {
        &&& self.cap >= 1
        &&& self.records@.len() <= self.cap
        &&& recency_sorted(self.view())
    }

    /// A history never holds more records than its cap, and lists them
    /// most recently joined first.
    pub proof fn lemma_bounded_and_ordered(&self)
        requires
            self.wf(),
        ensures
            self@.len() <= self.cap_spec(),
            self.cap_spec() >= 1,
            recency_sorted(self@),
    {
    }

    /// An empty history keeping at most `cap` records (at least one).
    pub fn new(cap: usize) -> (h: Self)
        ensures
            h.wf(),
            h@ == Seq::<RecordView>::empty(),
            h.cap_spec() == (if cap < 1 { 1 } else { cap as nat }),
    {
        let h = CohortHistory { records: Vec::new(), cap: if cap < 1 { 1 } else { cap } };
        assert(h@ =~= Seq::<RecordView>::empty());
        h
    }

    /// A history from previously stored records: sorted most recent first
    /// (stable) and cut to the cap.
    pub fn from_records(records: Vec<CohortRecord>, cap: usize) -> (h: Self)
        ensures
            h.wf(),
            h.cap_spec() == (if cap < 1 { 1 } else { cap as nat }),
            h@ == capped(sort_by_recency_spec(record_views(records@)), h.cap_spec()),
    {
        let mut h = CohortHistory { records, cap: if cap < 1 { 1 } else { cap } };
        h.resort();
        h
    }

    /// Give up the records, most recent first.
    pub fn into_records(self) -> (rs: Vec<CohortRecord>)
        ensures
            record_views(rs@) == self@,
    {
        self.records
    }

    /// The records, most recent first.
    pub fn list(&self) -> (rs: &[CohortRecord])
        ensures
            record_views(rs@) == self@,
    {
        self.records.as_slice()
    }

    fn index_of_id(&self, cohort_id: &str) -> (i: usize)
        ensures
            i == first_with_id(self@, cohort_id@, 0),
    {
        let key = cohort_id.to_owned();
        let mut i: usize = 0;
        while i < self.records.len()
            invariant
                i <= self.records@.len(),
                key@ == cohort_id@,
                first_with_id(self@, cohort_id@, 0) == first_with_id(self@, cohort_id@, i as int),
            decreases self.records.len() - i,
        {
            if self.records[i].cohort_id == key {
                return i;
            }
            i = i + 1;
        }
        i
    }

    /// The first record with id `cohort_id`.
    pub fn find(&self, cohort_id: &str) -> (r: Option<&CohortRecord>)
        ensures
            match r {
                Some(rec) => first_with_id(self@, cohort_id@, 0) < self@.len()
                    && rec@ == self@[first_with_id(self@, cohort_id@, 0)],
                None => first_with_id(self@, cohort_id@, 0) >= self@.len(),
            },
    {
        let i = self.index_of_id(cohort_id);
        if i < self.records.len() {
            Some(&self.records[i])
        } else {
            None
        }
    }

    /// Forget every record with id `cohort_id`.
    pub fn remove(&mut self, cohort_id: &str)
        requires
            old(self).wf(),
        ensures
            final(self).wf(),
            final(self)@ == without_id(old(self)@, cohort_id@),
            final(self).cap_spec() == old(self).cap_spec(),
    {
        let ghost orig = self@;
        let key = cohort_id.to_owned();
        let mut src: Vec<CohortRecord> = Vec::new();
        std::mem::swap(&mut src, &mut self.records);
        let total = src.len();
        let mut kept: Vec<CohortRecord> = Vec::new();
        let mut taken: usize = 0;
        while src.len() > 0
            invariant
                record_views(src@) == orig.skip(taken as int),
                taken <= orig.len(),
                orig.len() == total,
                record_views(kept@) == without_id(orig.take(taken as int), cohort_id@),
                key@ == cohort_id@,
            decreases src.len(),
        {
            let ghost s0 = record_views(src@);
            assert(s0.len() == src@.len());
            assert(taken < orig.len());
            assert(s0[0] == orig[taken as int]);
            let r = src.remove(0);
            proof {
                assert(orig.take(taken + 1).drop_last() =~= orig.take(taken as int));
                assert(orig.take(taken + 1).last() == r@);
                assert(record_views(src@) =~= s0.drop_first());
                assert(record_views(src@) =~= orig.skip(taken + 1));
            }
            if r.cohort_id != key {
                let ghost before = kept@;
                kept.push(r);
                assert(record_views(kept@) =~= record_views(before).push(r@));
            }
            taken = taken + 1;
        }
        assert(orig.take(taken as int) =~= orig);
        self.records = kept;
        proof {
            lemma_without_id_sub(orig, cohort_id@);
        }
    }

    /// Forget every record.
    pub fn clear(&mut self)
        requires
            old(self).wf(),
        ensures
            final(self).wf(),
            final(self)@ == Seq::<RecordView>::empty(),
            final(self).cap_spec() == old(self).cap_spec(),
    {
        self.records.clear();
        assert(self@ =~= Seq::<RecordView>::empty());
    }

    fn sort_by_recency(&mut self)
        ensures
            final(self)@ == sort_by_recency_spec(old(self)@),
            final(self).cap == old(self).cap,
    {
        let ghost orig = self@;
        let mut src: Vec<CohortRecord> = Vec::new();
        std::mem::swap(&mut src, &mut self.records);
        let total = src.len();
        let mut out: Vec<CohortRecord> = Vec::new();
        let mut taken: usize = 0;
        while src.len() > 0
            invariant
                record_views(src@) == orig.skip(taken as int),
                taken <= orig.len(),
                orig.len() == total,
                record_views(out@) == sort_by_recency_spec(orig.take(taken as int)),
                self.cap == old(self).cap,
            decreases src.len(),
        {
            let ghost s0 = record_views(src@);
            assert(s0.len() == src@.len());
            assert(taken < orig.len());
            assert(s0[0] == orig[taken as int]);
            let r = src.remove(0);
            proof {
                assert(orig.take(taken + 1).drop_last() =~= orig.take(taken as int));
                assert(orig.take(taken + 1).last() == r@);
                assert(record_views(src@) =~= s0.drop_first());
                assert(record_views(src@) =~= orig.skip(taken + 1));
            }
            let ghost ov = record_views(out@);
            let t = r.last_joined_at;
            let mut p: usize = 0;
            while p < out.len() && out[p].last_joined_at >= t
                invariant
                    p <= out@.len(),
                    ov == record_views(out@),
                    first_older(ov, t, 0) == first_older(ov, t, p as int),
                decreases out.len() - p,
            {
                p = p + 1;
            }
            let ghost rv = r@;
            out.insert(p, r);
            assert(record_views(out@) =~= ov.insert(p as int, rv));
            taken = taken + 1;
        }
        assert(orig.take(taken as int) =~= orig);
        self.records = out;
    }

    fn enforce_cap(&mut self)
        requires
            old(self).cap >= 1,
            recency_sorted(old(self)@),
        ensures
            final(self)@ == capped(old(self)@, old(self).cap as nat),
            final(self).cap == old(self).cap,
            final(self).wf(),
    {
        let ghost v = self@;
        if self.records.len() > self.cap {
            self.records.truncate(self.cap);
            assert(self@ =~= v.take(self.cap as int));
        }
        proof { lemma_capped_sorted(v, self.cap as nat); }
    }

    fn resort(&mut self)
        requires
            old(self).cap >= 1,
        ensures
            final(self).wf(),
            final(self).cap == old(self).cap,
            final(self)@ == capped(sort_by_recency_spec(old(self)@), old(self).cap as nat),
    {
        self.sort_by_recency();
        proof { lemma_sort_by_recency_sorted(old(self)@); }
        self.enforce_cap();
    }

    /// Record a host action on cohort `cohort_id` (see [`host_upserted`]).
    pub fn apply_host(&mut self, channel: u8, group_name: &str, cohort_id: &str, session_id: &str, now: u64)
        requires
            old(self).wf(),
        ensures
            final(self).wf(),
            final(self).cap_spec() == old(self).cap_spec(),
            final(self)@ == host_upserted(old(self)@, old(self).cap_spec(), channel, group_name@, cohort_id@, session_id@, now),
    {
        let ghost rs = self@;
        let i = self.index_of_id(cohort_id);
        if i < self.records.len() {
            let mut rec = self.records.remove(i);
            rec.role = match rec.role {
                CohortRole::Joined => CohortRole::Both,
                _ => CohortRole::Hosted.max_with(&rec.role),
            };
            rec.last_session_id = session_id.to_owned();
            rec.last_joined_at = now;
            rec.group_name = group_name.to_owned();
            rec.channel = channel;
            let ghost rv = rec@;
            self.records.insert(i, rec);
            assert(self@ =~= rs.update(i as int, rv));
        } else {
            let rec = CohortRecord {
                cohort_id: cohort_id.to_owned(),
                channel,
                group_name: group_name.to_owned(),
                role: CohortRole::Hosted,
                host_device: None,
                last_participants: Vec::new(),
                last_session_id: session_id.to_owned(),
                created_at: now,
                last_joined_at: now,
            };
            let ghost rv = rec@;
            assert(rv.last_participants =~= Seq::<(Seq<char>, Seq<char>)>::empty());
            self.records.push(rec);
            assert(self@ =~= rs.push(rv));
        }
        self.resort();
    }

    fn find_host_candidate(&self, channel: u8, group_name: &str) -> (i: usize)
        ensures
            i == host_candidate(self@, channel, group_name@, 0),
    {
        let g = group_name.to_owned();
        let mut i: usize = 0;
        while i < self.records.len()
            invariant
                i <= self.records@.len(),
                g@ == group_name@,
                host_candidate(self@, channel, group_name@, 0) == host_candidate(self@, channel, group_name@, i as int),
            decreases self.records.len() - i,
        {
            let r = &self.records[i];
            if r.channel == channel && r.group_name == g && r.role != CohortRole::Joined {
                return i;
            }
            i = i + 1;
        }
        i
    }

    /// Record a host action. The cohort id is the given non-empty id, else
    /// the id of a record hosted with this channel and group name, else a
    /// fresh random id; it is returned.
    pub fn upsert_host(&mut self, channel: u8, group_name: &str, cohort_id: Option<&str>, session_id: &str, now: u64) -> (resolved: String)
        requires
            old(self).wf(),
        ensures
            final(self).wf(),
            final(self).cap_spec() == old(self).cap_spec(),
            match resolved_host_id(old(self)@, channel, group_name@, match cohort_id { Some(c) => Some(c@), None => None }) {
                Some(id) => resolved@ == id,
                None => resolved@.len() == 36,
            },
            final(self)@ == host_upserted(old(self)@, old(self).cap_spec(), channel, group_name@, resolved@, session_id@, now),
    {
        let resolved: String = match cohort_id {
            Some(c) if !c.is_empty() => c.to_owned(),
            _ => {
                let j = self.find_host_candidate(channel, group_name);
                if j < self.records.len() {
                    self.records[j].cohort_id.clone()
                } else {
                    new_cohort_id()
                }
            }
        };
        self.apply_host(channel, group_name, resolved.as_str(), session_id, now);
        resolved
    }

    fn find_orphan(&self, cohort_id: &str, channel: u8, group_name: &str, host_device: &str, now: u64) -> (j: usize)
        ensures
            j == orphan_index(self@, cohort_id@, channel, group_name@, host_device@, now, 0),
    {
        let cid = cohort_id.to_owned();
        let g = group_name.to_owned();
        let host = host_device.to_owned();
        let mut i: usize = 0;
        while i < self.records.len()
            invariant
                i <= self.records@.len(),
                cid@ == cohort_id@,
                g@ == group_name@,
                host@ == host_device@,
                orphan_index(self@, cohort_id@, channel, group_name@, host_device@, now, 0)
                    == orphan_index(self@, cohort_id@, channel, group_name@, host_device@, now, i as int),
            decreases self.records.len() - i,
        {
            let r = &self.records[i];
            let same_host = match &r.host_device {
                Some(h) => *h == host,
                None => false,
            };
            let within = r.last_joined_at <= now && now - r.last_joined_at <= ORPHAN_MERGE_WINDOW_SECS;
            if r.cohort_id != cid && r.channel == channel && r.group_name == g && same_host && within {
                return i;
            }
            i = i + 1;
        }
        i
    }

    /// Record a join of cohort `cohort_id` (see [`joiner_upserted`]).
    pub fn apply_joiner(&mut self, channel: u8, group_name: &str, cohort_id: &str, host_device: &str, session_id: &str, now: u64)
        requires
            old(self).wf(),
        ensures
            final(self).wf(),
            final(self).cap_spec() == old(self).cap_spec(),
            final(self)@ == joiner_upserted(old(self)@, old(self).cap_spec(), channel, group_name@, cohort_id@, host_device@, session_id@, now),
    {
        let ghost rs = self@;
        let i = self.index_of_id(cohort_id);
        if i < self.records.len() {
            let mut rec = self.records.remove(i);
            rec.role = match rec.role {
                CohortRole::Hosted => CohortRole::Both,
                _ => CohortRole::Joined.max_with(&rec.role),
            };
            rec.host_device = Some(host_device.to_owned());
            rec.last_session_id = session_id.to_owned();
            rec.last_joined_at = now;
            rec.group_name = group_name.to_owned();
            rec.channel = channel;
            let ghost rv = rec@;
            self.records.insert(i, rec);
            assert(self@ =~= rs.update(i as int, rv));
        } else {
            let rec = CohortRecord {
                cohort_id: cohort_id.to_owned(),
                channel,
                group_name: group_name.to_owned(),
                role: CohortRole::Joined,
                host_device: Some(host_device.to_owned()),
                last_participants: Vec::new(),
                last_session_id: session_id.to_owned(),
                created_at: now,
                last_joined_at: now,
            };
            let ghost rv = rec@;
            assert(rv.last_participants =~= Seq::<(Seq<char>, Seq<char>)>::empty());
            self.records.push(rec);
            assert(self@ =~= rs.push(rv));
        }
        self.resort();
    }

    /// Record a join. With a non-empty cohort id, a recent locally minted
    /// record for the same channel, group and host is merged away first;
    /// without one, a fresh random id is used. The id is returned.
    pub fn upsert_joiner(&mut self, channel: u8, group_name: &str, cohort_id: Option<&str>, host_device: &str, session_id: &str, now: u64) -> (resolved: String)
        requires
            old(self).wf(),
        ensures
            final(self).wf(),
            final(self).cap_spec() == old(self).cap_spec(),
            match cohort_id {
                Some(c) => c@.len() > 0 ==> resolved@ == c@
                    && final(self)@ == joiner_upserted(without_orphan(old(self)@, c@, channel, group_name@, host_device@, now),
                        old(self).cap_spec(), channel, group_name@, c@, host_device@, session_id@, now),
                None => true,
            },
            (cohort_id is None || cohort_id->0@.len() == 0) ==> resolved@.len() == 36
                && final(self)@ == joiner_upserted(old(self)@, old(self).cap_spec(), channel, group_name@, resolved@, host_device@, session_id@, now),
    {
        match cohort_id {
            Some(c) if !c.is_empty() => {
                let j = self.find_orphan(c, channel, group_name, host_device, now);
                if j < self.records.len() {
                    let ghost rs = self@;
                    let _ = self.records.remove(j);
                    assert(self@ =~= rs.remove(j as int));
                    proof {
                        assert forall|a: int, b: int| 0 <= a < b < self@.len() implies
                            (#[trigger] self@[a]).last_joined_at >= (#[trigger] self@[b]).last_joined_at by {
                            let a2 = if a < j { a } else { a + 1 };
                            let b2 = if b < j { b } else { b + 1 };
                            assert(self@[a] == rs[a2] && self@[b] == rs[b2]);
                        }
                    }
                }
                self.apply_joiner(channel, group_name, c, host_device, session_id, now);
                c.to_owned()
            }
            _ => {
                let resolved = new_cohort_id();
                self.apply_joiner(channel, group_name, resolved.as_str(), host_device, session_id, now);
                resolved
            }
        }
    }

    /// Replace the participant snapshot of the (first) record with id
    /// `cohort_id`; nothing happens for an unknown id.
    pub fn snapshot_participants(&mut self, cohort_id: &str, participants: Vec<ParticipantSnapshot>)
        requires
            old(self).wf(),
        ensures
            final(self).wf(),
            final(self).cap_spec() == old(self).cap_spec(),
            final(self)@ == (if first_with_id(old(self)@, cohort_id@, 0) < old(self)@.len() {
                old(self)@.update(first_with_id(old(self)@, cohort_id@, 0), RecordView {
                    last_participants: participant_views(participants@),
                    ..old(self)@[first_with_id(old(self)@, cohort_id@, 0)]
                })
            } else {
                old(self)@
            }),
    {
        let ghost rs = self@;
        let i = self.index_of_id(cohort_id);
        if i < self.records.len() {
            let mut rec = self.records.remove(i);
            rec.last_participants = participants;
            let ghost rv = rec@;
            self.records.insert(i, rec);
            assert(self@ =~= rs.update(i as int, rv));
            proof {
                assert forall|a: int, b: int| 0 <= a < b < self@.len() implies
                    (#[trigger] self@[a]).last_joined_at >= (#[trigger] self@[b]).last_joined_at by {
                    assert(rs[a].last_joined_at >= rs[b].last_joined_at);
                }
            }
        }
    }
}

proof fn lemma_without_id_sub(rs: Seq<RecordView>, cid: Seq<char>)
    requires
        recency_sorted(rs),
    ensures
        recency_sorted(without_id(rs, cid)),
        without_id(rs, cid).len() <= rs.len(),
        forall|k: int| 0 <= k < without_id(rs, cid).len() ==> exists|m: int| 0 <= m < rs.len() && #[trigger] without_id(rs, cid)[k] == rs[m],
    decreases rs.len(),
{
    if rs.len() > 0 {
        let d = rs.drop_last();
        assert(recency_sorted(d)) by {
            assert forall|i: int, j: int| 0 <= i < j < d.len() implies (#[trigger] d[i]).last_joined_at >= (#[trigger] d[j]).last_joined_at by {
                assert(d[i] == rs[i] && d[j] == rs[j]);
            }
        }
        lemma_without_id_sub(d, cid);
        let w = without_id(d, cid);
        if rs.last().cohort_id != cid {
            let r = w.push(rs.last());
            assert forall|k: int| 0 <= k < r.len() implies exists|m: int| 0 <= m < rs.len() && #[trigger] r[k] == rs[m] by {
                if k < w.len() {
                    let m = choose|m: int| 0 <= m < d.len() && w[k] == d[m];
                    assert(r[k] == rs[m]);
                } else {
                    assert(r[k] == rs[rs.len() - 1]);
                }
            }
            assert forall|i: int, j: int| 0 <= i < j < r.len() implies (#[trigger] r[i]).last_joined_at >= (#[trigger] r[j]).last_joined_at by {
                if j == w.len() {
                    let m = choose|m: int| 0 <= m < d.len() && w[i] == d[m];
                    assert(rs[m].last_joined_at >= rs[rs.len() - 1].last_joined_at);
                } else {
                    assert(r[i] == w[i] && r[j] == w[j]);
                }
            }
        } else {
            assert forall|k: int| 0 <= k < w.len() implies exists|m: int| 0 <= m < rs.len() && #[trigger] w[k] == rs[m] by {
                let m = choose|m: int| 0 <= m < d.len() && w[k] == d[m];
                assert(w[k] == rs[m]);
            }
        }
    }
}


proof fn lemma_host_candidate(rs: Seq<RecordView>, ch: u8, g: Seq<char>, i: int)
    requires
        0 <= i <= rs.len(),
    ensures
        i <= host_candidate(rs, ch, g, i) <= rs.len(),
        forall|j: int| i <= j < host_candidate(rs, ch, g, i) ==>
            !(rs[j].channel == ch && rs[j].group_name == g && rs[j].role != CohortRole::Joined),
        host_candidate(rs, ch, g, i) < rs.len() ==> ({
            let k = host_candidate(rs, ch, g, i);
            rs[k].channel == ch && rs[k].group_name == g && rs[k].role != CohortRole::Joined
        }),
    decreases rs.len() - i,
{
    if i < rs.len() && !(rs[i].channel == ch && rs[i].group_name == g && rs[i].role != CohortRole::Joined) {
        lemma_host_candidate(rs, ch, g, i + 1);
    }
}

/// A host action without a cohort id reuses only a cohort hosted here:
/// the id it resolves to is that of the most recent record with this
/// channel and group name whose role is Hosted or Both (a record we only
/// joined is never reused), and there is none to reuse exactly when no such
/// record exists.
pub proof fn lemma_host_reuses_only_hosted(rs: Seq<RecordView>, ch: u8, g: Seq<char>, cid: Option<Seq<char>>)
    requires
        !(cid is Some && cid->0.len() > 0),
    ensures
        match resolved_host_id(rs, ch, g, cid) {
            Some(id) => exists|i: int| 0 <= i < rs.len() && #[trigger] rs[i].cohort_id == id
                && rs[i].channel == ch && rs[i].group_name == g
                && (rs[i].role == CohortRole::Hosted || rs[i].role == CohortRole::Both)
                && forall|j: int| 0 <= j < i ==> !(rs[j].channel == ch && rs[j].group_name == g
                    && (rs[j].role == CohortRole::Hosted || rs[j].role == CohortRole::Both)),
            None => forall|i: int| 0 <= i < rs.len() ==> !(rs[i].channel == ch && rs[i].group_name == g
                && (#[trigger] rs[i].role == CohortRole::Hosted || rs[i].role == CohortRole::Both)),
        },
{
    lemma_host_candidate(rs, ch, g, 0);
    let k = host_candidate(rs, ch, g, 0);
    if k < rs.len() {
        assert(rs[k].cohort_id == rs[k].cohort_id);
    }
}

proof fn lemma_orphan_index(rs: Seq<RecordView>, cid: Seq<char>, ch: u8, g: Seq<char>, host: Seq<char>, now: u64, i: int)
    requires
        0 <= i <= rs.len(),
    ensures
        i <= orphan_index(rs, cid, ch, g, host, now, i) <= rs.len(),
        orphan_index(rs, cid, ch, g, host, now, i) < rs.len() ==> ({
            let k = orphan_index(rs, cid, ch, g, host, now, i);
            &&& rs[k].cohort_id != cid
            &&& rs[k].channel == ch
            &&& rs[k].group_name == g
            &&& rs[k].host_device == Some(host)
            &&& within_merge_window(rs[k].last_joined_at, now)
        }),
    decreases rs.len() - i,
{
    if i < rs.len() && !(rs[i].cohort_id != cid && rs[i].channel == ch && rs[i].group_name == g
        && rs[i].host_device == Some(host) && within_merge_window(rs[i].last_joined_at, now)) {
        lemma_orphan_index(rs, cid, ch, g, host, now, i + 1);
    }
}

/// The orphan merge of a join removes at most one record, and only a
/// locally minted one for the same cohort: another id with the same
/// channel, group name and host device, joined within the merge window.
/// Every other record, in particular every record of another host device,
/// is kept, in order.
pub proof fn lemma_orphan_merge_keeps_other_hosts(rs: Seq<RecordView>, cid: Seq<char>, ch: u8, g: Seq<char>, host: Seq<char>, now: u64)
    ensures
        ({
            let w = without_orphan(rs, cid, ch, g, host, now);
            &&& rs.len() - 1 <= w.len() <= rs.len()
            &&& forall|i: int| 0 <= i < rs.len() && !(rs[i].cohort_id != cid && rs[i].channel == ch
                    && rs[i].group_name == g && rs[i].host_device == Some(host)
                    && within_merge_window(rs[i].last_joined_at, now))
                    ==> w.contains(#[trigger] rs[i])
            &&& w.len() == rs.len() ==> w == rs
        }),
{
    lemma_orphan_index(rs, cid, ch, g, host, now, 0);
    let j = orphan_index(rs, cid, ch, g, host, now, 0);
    let w = without_orphan(rs, cid, ch, g, host, now);
    assert forall|i: int| 0 <= i < rs.len() && !(rs[i].cohort_id != cid && rs[i].channel == ch
        && rs[i].group_name == g && rs[i].host_device == Some(host)
        && within_merge_window(rs[i].last_joined_at, now)) implies w.contains(#[trigger] rs[i]) by {
        if j < rs.len() {
            assert(i != j);
            if i < j {
                assert(w[i] == rs[i]);
            } else {
                assert(w[i - 1] == rs[i]);
            }
        } else {
            assert(w[i] == rs[i]);
        }
    }
}


proof fn lemma_sort_keeps_records(rs: Seq<RecordView>, x: RecordView)
    requires
        rs.contains(x),
    ensures
        sort_by_recency_spec(rs).contains(x),
    decreases rs.len(),
{
    let d = rs.drop_last();
    let sd = sort_by_recency_spec(d);
    let p = first_older(sd, rs.last().last_joined_at, 0);
    lemma_first_older(sd, rs.last().last_joined_at, 0);
    let out = sd.insert(p, rs.last());
    assert(sort_by_recency_spec(rs) == out);
    if x == rs.last() {
        assert(out[p] == x);
    } else {
        let k = choose|k: int| 0 <= k < rs.len() && rs[k] == x;
        assert(k < rs.len() - 1);
        assert(d[k] == x);
        lemma_sort_keeps_records(d, x);
        let m = choose|m: int| 0 <= m < sd.len() && sd[m] == x;
        if m < p {
            assert(out[m] == x);
        } else {
            assert(out[m + 1] == x);
        }
    }
}

/// Joining a cohort keeps every other cohort of another host device: when
/// the history has room, each record whose id differs from the joined one
/// and whose host device is not the joined cohort's host is still there
/// afterwards, unchanged.
pub proof fn lemma_join_keeps_other_cohorts(rs: Seq<RecordView>, cap: nat, ch: u8, g: Seq<char>, cid: Seq<char>, host: Seq<char>, sid: Seq<char>, now: u64)
    requires
        rs.len() < cap,
    ensures
        forall|i: int| 0 <= i < rs.len() && rs[i].cohort_id != cid && rs[i].host_device != Some(host) ==>
            joiner_upserted(without_orphan(rs, cid, ch, g, host, now), cap, ch, g, cid, host, sid, now).contains(#[trigger] rs[i]),
{
    let w = without_orphan(rs, cid, ch, g, host, now);
    lemma_orphan_merge_keeps_other_hosts(rs, cid, ch, g, host, now);
    let k = first_with_id(w, cid, 0);
    lemma_first_with_id(w, cid, 0);
    let rs1 = if k < w.len() {
        w.update(k, RecordView {
            role: if w[k].role == CohortRole::Hosted { CohortRole::Both } else { role_max(CohortRole::Joined, w[k].role) },
            host_device: Some(host),
            last_session_id: sid,
            last_joined_at: now,
            group_name: g,
            channel: ch,
            ..w[k]
        })
    } else {
        w.push(RecordView {
            cohort_id: cid,
            channel: ch,
            group_name: g,
            role: CohortRole::Joined,
            host_device: Some(host),
            last_participants: Seq::empty(),
            last_session_id: sid,
            created_at: now,
            last_joined_at: now,
        })
    };
    lemma_sort_by_recency_sorted(rs1);
    assert(capped(sort_by_recency_spec(rs1), cap) == sort_by_recency_spec(rs1));
    assert forall|i: int| 0 <= i < rs.len() && rs[i].cohort_id != cid && rs[i].host_device != Some(host) implies
        joiner_upserted(w, cap, ch, g, cid, host, sid, now).contains(#[trigger] rs[i]) by {
        assert(w.contains(rs[i]));
        let m = choose|m: int| 0 <= m < w.len() && w[m] == rs[i];
        assert(m != k);
        assert(rs1[m] == rs[i]);
        lemma_sort_keeps_records(rs1, rs[i]);
    }
}

proof fn lemma_first_with_id(rs: Seq<RecordView>, cid: Seq<char>, i: int)
    requires
        0 <= i <= rs.len(),
    ensures
        i <= first_with_id(rs, cid, i) <= rs.len(),
        first_with_id(rs, cid, i) < rs.len() ==> rs[first_with_id(rs, cid, i)].cohort_id == cid,
    decreases rs.len() - i,
{
    if i < rs.len() && rs[i].cohort_id != cid {
        lemma_first_with_id(rs, cid, i + 1);
    }
}


/// A host action with room in the history records the cohort as hosted:
/// afterwards a record with its id, channel, group name and session exists,
/// joined at `now`, whose role is Hosted or Both (Both when we had joined
/// it), and every record of another cohort is still there, unchanged.
pub proof fn lemma_host_action_records_hosted(rs: Seq<RecordView>, cap: nat, ch: u8, g: Seq<char>, cid: Seq<char>, sid: Seq<char>, now: u64)
    requires
        rs.len() < cap,
    ensures
        exists|r: RecordView| #[trigger] host_upserted(rs, cap, ch, g, cid, sid, now).contains(r)
            && r.cohort_id == cid && r.channel == ch && r.group_name == g && r.last_session_id == sid
            && r.last_joined_at == now && (r.role == CohortRole::Hosted || r.role == CohortRole::Both),
        forall|i: int| 0 <= i < rs.len() && rs[i].cohort_id != cid ==>
            host_upserted(rs, cap, ch, g, cid, sid, now).contains(#[trigger] rs[i]),
{
    let k = first_with_id(rs, cid, 0);
    lemma_first_with_id(rs, cid, 0);
    let nr = if k < rs.len() {
        RecordView {
            role: if rs[k].role == CohortRole::Joined { CohortRole::Both } else { role_max(CohortRole::Hosted, rs[k].role) },
            last_session_id: sid,
            last_joined_at: now,
            group_name: g,
            channel: ch,
            ..rs[k]
        }
    } else {
        RecordView {
            cohort_id: cid,
            channel: ch,
            group_name: g,
            role: CohortRole::Hosted,
            host_device: None,
            last_participants: Seq::empty(),
            last_session_id: sid,
            created_at: now,
            last_joined_at: now,
        }
    };
    let rs1 = if k < rs.len() { rs.update(k, nr) } else { rs.push(nr) };
    let kk = if k < rs.len() { k } else { rs.len() as int };
    assert(rs1[kk] == nr);
    lemma_sort_by_recency_sorted(rs1);
    assert(host_upserted(rs, cap, ch, g, cid, sid, now) == sort_by_recency_spec(rs1));
    lemma_sort_keeps_records(rs1, nr);
    assert forall|i: int| 0 <= i < rs.len() && rs[i].cohort_id != cid implies
        host_upserted(rs, cap, ch, g, cid, sid, now).contains(#[trigger] rs[i]) by {
        assert(rs1[i] == rs[i]);
        lemma_sort_keeps_records(rs1, rs[i]);
    }
}

/// A join with room in the history records the cohort as joined: afterwards
/// a record with its id, channel, group name, host device and session
/// exists, joined at `now`, whose role is Joined or Both (Both when we had
/// hosted it), and every record of another cohort is still there,
/// unchanged.
pub proof fn lemma_join_records_joined(rs: Seq<RecordView>, cap: nat, ch: u8, g: Seq<char>, cid: Seq<char>, host: Seq<char>, sid: Seq<char>, now: u64)
    requires
        rs.len() < cap,
    ensures
        exists|r: RecordView| #[trigger] joiner_upserted(rs, cap, ch, g, cid, host, sid, now).contains(r)
            && r.cohort_id == cid && r.channel == ch && r.group_name == g && r.last_session_id == sid
            && r.host_device == Some(host) && r.last_joined_at == now
            && (r.role == CohortRole::Joined || r.role == CohortRole::Both),
        forall|i: int| 0 <= i < rs.len() && rs[i].cohort_id != cid ==>
            joiner_upserted(rs, cap, ch, g, cid, host, sid, now).contains(#[trigger] rs[i]),
{
    let k = first_with_id(rs, cid, 0);
    lemma_first_with_id(rs, cid, 0);
    let nr = if k < rs.len() {
        RecordView {
            role: if rs[k].role == CohortRole::Hosted { CohortRole::Both } else { role_max(CohortRole::Joined, rs[k].role) },
            host_device: Some(host),
            last_session_id: sid,
            last_joined_at: now,
            group_name: g,
            channel: ch,
            ..rs[k]
        }
    } else {
        RecordView {
            cohort_id: cid,
            channel: ch,
            group_name: g,
            role: CohortRole::Joined,
            host_device: Some(host),
            last_participants: Seq::empty(),
            last_session_id: sid,
            created_at: now,
            last_joined_at: now,
        }
    };
    let rs1 = if k < rs.len() { rs.update(k, nr) } else { rs.push(nr) };
    let kk = if k < rs.len() { k } else { rs.len() as int };
    assert(rs1[kk] == nr);
    lemma_sort_by_recency_sorted(rs1);
    assert(joiner_upserted(rs, cap, ch, g, cid, host, sid, now) == sort_by_recency_spec(rs1));
    lemma_sort_keeps_records(rs1, nr);
    assert forall|i: int| 0 <= i < rs.len() && rs[i].cohort_id != cid implies
        joiner_upserted(rs, cap, ch, g, cid, host, sid, now).contains(#[trigger] rs[i]) by {
        assert(rs1[i] == rs[i]);
        lemma_sort_keeps_records(rs1, rs[i]);
    }
}

} // verus!
