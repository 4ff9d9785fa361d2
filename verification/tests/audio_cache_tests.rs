use sassytalkie::audio_cache::{AudioCache, CacheMode, CachedFrame, IngestOutcome, Utterance};

const FRAME_SIZE: usize = 960;

fn is_held(o: &IngestOutcome) -> bool {
    matches!(o, IngestOutcome::Held)
}

fn played(o: IngestOutcome) -> Option<Vec<i16>> {
    match o {
        IngestOutcome::Play(s) => Some(s),
        _ => None,
    }
}

fn frame(sender: &str, ts: u64, value: i16) -> CachedFrame {
    CachedFrame { sender_id: sender.to_string(), timestamp: ts, samples: vec![value; FRAME_SIZE], received_at: 0 }
}

fn utterance(id: u64, sender: &str, name: &str, fav: bool, started: u64, ended: u64, frames: Vec<CachedFrame>) -> Utterance {
    Utterance {
        id,
        sender_id: sender.to_string(),
        sender_name: name.to_string(),
        is_favorite: fav,
        started_at: started,
        ended_at: ended,
        frames,
        fully_played: false,
    }
}

#[test]
fn cross_transport_dedup_drops_exact_duplicate() {
    let mut cache = AudioCache::new();
    let s = vec![0i16; FRAME_SIZE];
    let _ = cache.ingest_frame("peer-1", 1000, s.clone());
    assert!(is_held(&cache.ingest_frame("peer-1", 1000, s.clone())));
    let _ = cache.ingest_frame("peer-2", 1000, s.clone());
    assert!(is_held(&cache.ingest_frame("peer-2", 1000, s.clone())));
    let _ = cache.ingest_frame("peer-1", 1020, s);
    let s2 = vec![1i16; FRAME_SIZE];
    assert!(is_held(&cache.ingest_frame("peer-1", 1020, s2)));
}

#[test]
fn test_cache_live_passthrough() {
    let mut cache = AudioCache::new();
    assert_eq!(cache.mode(), CacheMode::Live);
    let samples = vec![100i16; FRAME_SIZE];
    let prebuffer = cache.live_jitter_prebuffer_frames();
    let mut result = None;
    for i in 0..=prebuffer {
        result = played(cache.ingest_frame("alice", 1000 + (i as u64) * 20, samples.clone()));
    }
    assert!(result.is_some(), "frame should pass through once prebuffer is exceeded");
    assert_eq!(result.unwrap(), samples);
    assert_eq!(cache.mode(), CacheMode::Live);
}

#[test]
fn test_cache_overlap_triggers_queue_mode() {
    let mut cache = AudioCache::new();
    cache.ingest_frame("alice", 1000, vec![100i16; FRAME_SIZE]);
    cache.ingest_frame("alice", 1020, vec![100i16; FRAME_SIZE]);
    cache.ingest_frame("bob", 1001, vec![200i16; FRAME_SIZE]);
    cache.ingest_frame("bob", 1021, vec![200i16; FRAME_SIZE]);
    assert_eq!(cache.mode(), CacheMode::Queue);
}

#[test]
fn test_idle_beacon_does_not_force_queue_mode() {
    let mut cache = AudioCache::new();
    cache.ingest_frame("alice", 1000, vec![100i16; FRAME_SIZE]);
    cache.ingest_frame("alice", 1020, vec![100i16; FRAME_SIZE]);
    assert_eq!(cache.mode(), CacheMode::Live);
    cache.ingest_frame("bob", 1040, vec![0i16; FRAME_SIZE]);
    assert_eq!(cache.mode(), CacheMode::Live, "single beacon must not trigger Queue");
    let mut passthroughs = 0;
    for ts in (1060..1300).step_by(20) {
        if played(cache.ingest_frame("alice", ts, vec![100i16; FRAME_SIZE])).is_some() {
            passthroughs += 1;
        }
    }
    assert!(passthroughs > 0, "alice's audio should drain in Live mode (Queue-mode jam)");
    assert_eq!(cache.mode(), CacheMode::Live);
}

#[test]
fn test_muted_speaker_dropped() {
    let mut cache = AudioCache::new();
    cache.update_user_info("bob", "Bob", false, true);
    let result = cache.ingest_frame("bob", 1000, vec![100i16; FRAME_SIZE]);
    assert!(is_held(&result));
}

#[test]
fn test_mix_mode_flips_when_enabled_and_within_ceiling() {
    let mut cache = AudioCache::new();
    cache.set_mix_mode_enabled(true);
    cache.ingest_frame("alice", 1000, vec![100i16; FRAME_SIZE]);
    cache.ingest_frame("alice", 1020, vec![100i16; FRAME_SIZE]);
    cache.ingest_frame("bob", 1010, vec![200i16; FRAME_SIZE]);
    cache.ingest_frame("bob", 1030, vec![200i16; FRAME_SIZE]);
    assert_eq!(cache.mode(), CacheMode::Mix, "with mix enabled and 2 speakers, should be Mix not Queue");
}

#[test]
fn test_mix_mode_falls_back_to_queue_above_ceiling() {
    let mut cache = AudioCache::new();
    cache.set_mix_mode_enabled(true);
    for name in ["a", "b", "c", "d", "e", "f", "g"] {
        cache.ingest_frame(name, 1000, vec![100i16; FRAME_SIZE]);
        cache.ingest_frame(name, 1020, vec![100i16; FRAME_SIZE]);
    }
    assert_eq!(cache.mode(), CacheMode::Queue, "above MIX_MAX_SPEAKERS the cache must fall back to Queue");
}

#[test]
fn test_mix_disabled_preserves_queue_behavior() {
    let mut cache = AudioCache::new();
    assert!(!cache.is_mix_mode_enabled());
    cache.ingest_frame("alice", 1000, vec![100i16; FRAME_SIZE]);
    cache.ingest_frame("alice", 1020, vec![100i16; FRAME_SIZE]);
    cache.ingest_frame("bob", 1010, vec![200i16; FRAME_SIZE]);
    cache.ingest_frame("bob", 1030, vec![200i16; FRAME_SIZE]);
    assert_eq!(cache.mode(), CacheMode::Queue, "mix disabled (default) must still go to Queue, not Mix");
}

fn mk(id: u64, ts: u64, dur: u64, fav: bool) -> Utterance {
    let name = format!("s{}", id);
    utterance(id, &name, &format!("S{}", id), fav, ts, ts + dur.saturating_sub(20), vec![frame(&name, ts, 0)])
}

#[test]
fn test_queue_orders_by_started_at_then_shorter_first() {
    let mut cache = AudioCache::new();
    cache.insert_prioritized(mk(1, 2000, 1000, false));
    cache.insert_prioritized(mk(2, 2000, 200, false));
    cache.insert_prioritized(mk(3, 1000, 500, false));
    let mut ids = Vec::new();
    cache.set_mode(CacheMode::Queue);
    while let Some(_) = cache.next_playback_frame() {}
    for u in cache.history().iter() {
        ids.push(u.id);
    }
    assert_eq!(ids, vec![3, 2, 1], "expected ordering: oldest start first, then shorter duration on ties");
}

#[test]
fn test_queue_favorites_jump_ahead_of_non_favorites() {
    let mut cache = AudioCache::new();
    cache.insert_prioritized(mk(1, 1000, 500, false));
    cache.insert_prioritized(mk(2, 1500, 500, false));
    cache.insert_prioritized(mk(3, 5000, 500, true));
    let st = cache.status();
    assert_eq!(st.speakers_in_queue, vec!["S3".to_string(), "S1".to_string(), "S2".to_string()]);
}

#[test]
fn test_mixer_soft_clip_keeps_output_in_range() {
    let mut cache = AudioCache::new();
    cache.set_mix_mode_enabled(true);
    let loud = vec![30000i16; FRAME_SIZE];
    cache.ingest_frame("alice", 1000, loud.clone());
    cache.ingest_frame("alice", 1020, loud.clone());
    cache.ingest_frame("bob", 1010, loud.clone());
    let mixed = cache.ingest_frame("bob", 1015, loud.clone());
    if let IngestOutcome::MixReady(sum) = mixed {
        for &s in &sum {
            assert!(s >= 2 * (i16::MIN as i32) && s <= 2 * (i16::MAX as i32), "sum out of range: {}", s);
        }
    }
}

#[test]
fn test_favorite_priority_ordering() {
    let mut cache = AudioCache::new();
    cache.update_user_info("alice", "Alice", false, false);
    cache.update_user_info("bob", "Bob", true, false);
    let id_a = cache.next_utterance_id();
    let u_alice = utterance(id_a, "alice", "Alice", false, 1000, 1100, vec![frame("alice", 1000, 100)]);
    let id_b = cache.next_utterance_id();
    let u_bob = utterance(id_b, "bob", "Bob", true, 1050, 1150, vec![frame("bob", 1050, 200)]);
    cache.insert_prioritized(u_alice);
    cache.insert_prioritized(u_bob);
    cache.set_mode(CacheMode::Queue);
    let (first, _) = cache.next_playback_frame().unwrap();
    assert_eq!(first, "bob");
    let (second, _) = cache.next_playback_frame().unwrap();
    assert_eq!(second, "alice");
}

#[test]
fn test_playback_drains_queue() {
    let mut cache = AudioCache::new();
    cache.set_mode(CacheMode::Queue);
    let frames_a: Vec<CachedFrame> = (0..3).map(|i| frame("alice", 1000 + i * 20, 100)).collect();
    let frames_b: Vec<CachedFrame> = (0..2).map(|i| frame("bob", 2000 + i * 20, 200)).collect();
    let id_a = cache.next_utterance_id();
    cache.insert_prioritized(utterance(id_a, "alice", "Alice", false, 1000, 1040, frames_a));
    let id_b = cache.next_utterance_id();
    cache.insert_prioritized(utterance(id_b, "bob", "Bob", false, 2000, 2020, frames_b));

    let mut played_alice = 0;
    while let Some((id, _)) = cache.next_playback_frame() {
        if id == "alice" {
            played_alice += 1;
        } else {
            break;
        }
    }
    assert!(played_alice >= 3);
    let mut played_bob = 1;
    while let Some((id, _)) = cache.next_playback_frame() {
        if id == "bob" {
            played_bob += 1;
        }
    }
    assert_eq!(played_bob, 2);
    assert!(cache.next_playback_frame().is_none());
    assert_eq!(cache.history().len(), 2);
}

#[test]
fn test_skip_current() {
    let mut cache = AudioCache::new();
    cache.set_mode(CacheMode::Queue);
    let frames: Vec<CachedFrame> = (0..10).map(|i| frame("alice", 1000 + i * 20, 100)).collect();
    let id = cache.next_utterance_id();
    cache.insert_prioritized(utterance(id, "alice", "Alice", false, 1000, 1180, frames));
    cache.next_playback_frame();
    cache.skip_current();
    assert!(cache.status().current_speaker.is_none());
    assert_eq!(cache.history().len(), 0);
}

#[test]
fn test_clear_resets_everything() {
    let mut cache = AudioCache::new();
    cache.set_mode(CacheMode::Queue);
    cache.ingest_frame("test", 1000, vec![1i16; FRAME_SIZE]);
    assert_eq!(cache.active_speaker_count(), 1);
    cache.clear();
    assert_eq!(cache.mode(), CacheMode::Live);
    assert_eq!(cache.active_speaker_count(), 0);
    assert_eq!(cache.status().queued_utterances, 0);
    assert!(cache.status().current_speaker.is_none());
}

#[test]
fn test_max_speakers_limit() {
    let mut cache = AudioCache::new();
    for i in 0..16 {
        let id = format!("speaker_{}", i);
        cache.ingest_frame(&id, 1000, vec![1i16; FRAME_SIZE]);
    }
    assert_eq!(cache.active_speaker_count(), 16);
    let result = cache.ingest_frame("overflow_speaker", 1000, vec![1i16; FRAME_SIZE]);
    assert!(is_held(&result));
    assert_eq!(cache.active_speaker_count(), 16);
}

#[test]
fn queue_mode_recovers_to_live_with_explicit_times() {
    let mut cache = AudioCache::new();
    cache.update_user_info("alice", "Alice", false, false);
    cache.update_user_info("bob", "Bob", false, false);
    for (i, ts) in [1000u64, 1020, 1040].iter().enumerate() {
        cache.ingest_frame_at("alice", *ts, vec![100i16; FRAME_SIZE], 10_000 + i as u64 * 20);
        cache.ingest_frame_at("bob", *ts, vec![200i16; FRAME_SIZE], 10_000 + i as u64 * 20);
    }
    assert_eq!(cache.mode(), CacheMode::Queue);
    // Both fall silent; after the speech gap their utterances are queued.
    cache.tick_at(11_000);
    assert_eq!(cache.status().queued_utterances, 2);
    // The Live-mode shadow accumulators were committed by the same tick.
    assert_eq!(cache.history().len(), 2);
    while cache.next_playback_frame_at(11_000).is_some() {}
    assert_eq!(cache.history().len(), 4);
    cache.tick_at(11_000);
    assert_eq!(cache.mode(), CacheMode::Live);
    let ids = cache.take_newly_committed_ids();
    assert_eq!(ids.len(), 4);
    assert_eq!(ids[0].1, "alice");
    assert_eq!(ids[0].2, "Alice");
    assert_eq!(ids[0].3, 40);
    assert!(cache.take_newly_committed_ids().is_empty());
}

#[test]
fn jitter_buffer_reorders_by_timestamp() {
    let mut cache = AudioCache::new();
    cache.set_live_jitter_prebuffer_frames(2);
    assert!(is_held(&cache.ingest_frame_at("alice", 1040, vec![3i16; 4], 0)));
    assert!(is_held(&cache.ingest_frame_at("alice", 1000, vec![1i16; 4], 1)));
    // Third frame exceeds the depth: the oldest timestamp plays first.
    assert_eq!(played(cache.ingest_frame_at("alice", 1020, vec![2i16; 4], 2)), Some(vec![1i16; 4]));
    // Stranded frames drain one per call once older than the drain age.
    assert!(cache.next_playback_frame_at(20).is_none());
    assert_eq!(cache.next_playback_frame_at(100), Some(("alice".to_string(), vec![2i16; 4])));
    assert_eq!(cache.next_playback_frame_at(100), Some(("alice".to_string(), vec![3i16; 4])));
    assert!(cache.next_playback_frame_at(100).is_none());
}

#[test]
fn live_frames_reach_history_after_speech_gap() {
    let mut cache = AudioCache::new();
    cache.update_user_info("alice", "Alice", true, false);
    for i in 0..3u64 {
        cache.ingest_frame_at("alice", 1000 + i * 20, vec![7i16; 4], 100 + i * 20);
    }
    cache.tick_at(500);
    assert_eq!(cache.history().len(), 0);
    cache.tick_at(2000);
    assert_eq!(cache.history().len(), 1);
    let id = cache.history()[0].id;
    assert_eq!(cache.history()[0].sender_name, "Alice");
    assert_eq!(cache.history()[0].frames.len(), 3);
    assert_eq!(cache.last_history_id(), Some(id));
    let frames = cache.get_history_frames(id).unwrap();
    assert_eq!(frames.len(), 3);
    assert!(cache.replay_by_id(id));
    assert_eq!(cache.mode(), CacheMode::Replay);
    assert!(!cache.replay_by_id(id + 100));
    assert!(!cache.replay_from_history(5));
}

#[test]
fn mix_sums_aligned_frames() {
    let mut cache = AudioCache::new();
    cache.set_mix_mode_enabled(true);
    cache.ingest_frame_at("alice", 1000, vec![10i16; 3], 0);
    cache.ingest_frame_at("alice", 1020, vec![10i16; 3], 1);
    cache.ingest_frame_at("bob", 1001, vec![5i16; 3], 2);
    // Overlap: the cache flips to Mix; bob's frame waits for a partner.
    assert!(is_held(&cache.ingest_frame_at("bob", 1021, vec![-20i16; 3], 3)));
    assert_eq!(cache.mode(), CacheMode::Mix);
    let out = cache.ingest_frame_at("alice", 1022, vec![10i16; 3], 4);
    match out {
        IngestOutcome::MixReady(sum) => assert_eq!(sum, vec![-10i32; 3]),
        _ => panic!("expected a mixed frame"),
    }
}

#[test]
fn duplicate_frame_leaves_cache_unchanged() {
    let mut cache = AudioCache::new();
    cache.ingest_frame_at("alice", 1000, vec![1i16; 4], 0);
    let before = cache.active_speaker_count();
    assert!(is_held(&cache.ingest_frame_at("alice", 1000, vec![9i16; 4], 5)));
    assert_eq!(cache.active_speaker_count(), before);
}

#[test]
fn jitter_prebuffer_is_clamped() {
    let mut cache = AudioCache::new();
    assert_eq!(cache.live_jitter_prebuffer_frames(), 5);
    cache.set_live_jitter_prebuffer_frames(0);
    assert_eq!(cache.live_jitter_prebuffer_frames(), 2);
    cache.set_live_jitter_prebuffer_frames(100);
    assert_eq!(cache.live_jitter_prebuffer_frames(), 16);
    cache.set_live_jitter_prebuffer_frames(8);
    assert_eq!(cache.live_jitter_prebuffer_frames(), 8);
}

#[test]
fn clear_active_keeps_history_and_commits_live_audio() {
    let mut cache = AudioCache::new();
    cache.ingest_frame_at("alice", 1000, vec![1i16; 4], 0);
    cache.ingest_frame_at("alice", 1020, vec![1i16; 4], 20);
    cache.clear_active();
    assert_eq!(cache.history().len(), 1);
    assert_eq!(cache.history()[0].sender_name, "alice");
    assert_eq!(cache.active_speaker_count(), 0);
    assert_eq!(cache.mode(), CacheMode::Live);
}

#[test]
fn test_queue_mode_recovers_to_live_while_one_speaker_continues() {
    let mut cache = AudioCache::new();
    cache.update_user_info("alice", "Alice", false, false);
    cache.update_user_info("bob", "Bob", false, false);
    let mut now = 10_000u64;
    for ts in [1000u64, 1020, 1040] {
        cache.ingest_frame_at("alice", ts, vec![100i16; FRAME_SIZE], now);
        now += 1;
    }
    for ts in [1000u64, 1020, 1040] {
        cache.ingest_frame_at("bob", ts, vec![200i16; FRAME_SIZE], now);
        now += 1;
    }
    assert_eq!(cache.mode(), CacheMode::Queue);
    cache.tick_at(now);
    while cache.next_playback_frame_at(now).is_some() {}
    now += sassytalkie::audio_cache::ACTIVE_SPEAKER_WINDOW_MS + 50;
    cache.tick_at(now);
    assert!(cache.mode() == CacheMode::Live || cache.mode() == CacheMode::Queue, "mode is {:?}", cache.mode());
    now += sassytalkie::audio_cache::SPEECH_GAP_MS + 50;
    cache.tick_at(now);
    cache.tick_at(now);
    let prebuffer = cache.live_jitter_prebuffer_frames();
    let mut got_audio = false;
    for i in 0..=prebuffer {
        if !is_held(&cache.ingest_frame_at("alice", 5000 + (i as u64) * 20, vec![100i16; FRAME_SIZE], now)) {
            got_audio = true;
        }
        now += 1;
    }
    while cache.next_playback_frame_at(now).is_some() {
        got_audio = true;
    }
    assert!(got_audio, "after bob ages out and alice resumes, audio should flow; mode={:?}", cache.mode());
    assert_eq!(cache.mode(), CacheMode::Live);
}

#[test]
fn test_status_json() {
    let cache = AudioCache::new();
    let json = cache.status_json();
    assert!(json.contains("\"mode\":\"Live\""));
    assert!(json.contains("\"queued_utterances\":0"));
}

#[test]
fn status_json_lists_every_field() {
    let cache = AudioCache::new();
    assert_eq!(
        cache.status_json(),
        "{\"current_speaker\":null,\"current_speaker_name\":null,\"history_count\":0,\"mode\":\"Live\",\"queued_duration_ms\":0,\"queued_utterances\":0,\"speakers_in_queue\":[]}"
    );
}
