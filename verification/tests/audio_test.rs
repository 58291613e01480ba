use std::time::Duration;

use godot_bevy::audio::{
    AudioEasing, AudioError, AudioManager, AudioTween, ChannelId, QueueOutcome,
};

#[test]
fn tween_constructors() {
    let t = AudioTween::new(Duration::from_millis(250), AudioEasing::EaseIn);
    assert_eq!(t.duration, Duration::from_millis(250));
    assert_eq!(t.easing, AudioEasing::EaseIn);
    let l = AudioTween::linear(Duration::from_secs(2));
    assert_eq!(l.duration, Duration::from_secs(2));
    assert_eq!(l.easing, AudioEasing::Linear);
    let e = l.with_easing(AudioEasing::EaseInOut);
    assert_eq!(e.duration, Duration::from_secs(2));
    assert_eq!(e.easing, AudioEasing::EaseInOut);
}

#[test]
fn tween_default_is_ten_milliseconds_linear() {
    let d = AudioTween::default();
    assert_eq!(d.duration, Duration::from_millis(10));
    assert_eq!(d.easing, AudioEasing::Linear);
}

#[test]
fn channel_ids_compare_by_name() {
    assert_eq!(ChannelId("main"), ChannelId("main"));
    assert_ne!(ChannelId("main"), ChannelId("music"));
}

#[test]
fn play_queues_with_fresh_ids() {
    let mut m: AudioManager<&str, u8, char> = AudioManager::new();
    assert!(m.can_play());
    let a = m.play_with_settings("a.ogg", 1);
    let b = m.play_with_settings("b.ogg", 2);
    assert_ne!(a, b);
    assert_eq!(a.get(), 0);
    assert_eq!(b.get(), 1);
    assert_eq!(m.stats(), (2, 0));
    assert_eq!(m.playing_count(), 0);
}

#[test]
fn queue_processing_stop_and_cleanup() {
    let mut m: AudioManager<&str, u8, char> = AudioManager::new();
    let a = m.play_with_settings("a.ogg", 1);
    let b = m.play_with_settings("b.ogg", 2);
    let c = m.play_with_settings("c.ogg", 3);
    let queued = m.take_queue();
    assert_eq!(queued.len(), 3);
    assert_eq!(m.stats(), (0, 0));
    let mut outcomes = Vec::new();
    for q in queued {
        let outcome = if q.id == a {
            QueueOutcome::Started('A')
        } else if q.id == b {
            QueueOutcome::NotReady
        } else {
            QueueOutcome::Failed
        };
        outcomes.push((q, outcome));
    }
    m.process_sound_queue(outcomes);
    assert_eq!(m.stats(), (1, 1));
    assert_eq!(m.get_playing(a), Some(&'A'));
    assert_eq!(m.get_playing(c), None);
    assert_eq!(m.playing_ids(), vec![a]);

    assert_eq!(m.stop(a), Ok('A'));
    assert_eq!(m.stop(a), Err(AudioError::SoundNotFound(a)));
    assert_eq!(m.playing_count(), 0);

    // b was re-queued; now it starts.
    let queued = m.take_queue();
    assert_eq!(queued.len(), 1);
    assert_eq!(queued[0].id, b);
    assert_eq!(queued[0].handle, "b.ogg");
    assert_eq!(queued[0].settings, 2);
    let outcomes: Vec<_> = queued.into_iter().map(|q| (q, QueueOutcome::Started('B'))).collect();
    m.process_sound_queue(outcomes);
    assert_eq!(m.playing_count(), 1);
    m.cleanup_finished_sounds(&vec![b, c]);
    assert_eq!(m.playing_count(), 0);
}

#[test]
fn stop_all_returns_every_player() {
    let mut m: AudioManager<&str, u8, char> = AudioManager::new();
    let a = m.play_with_settings("a.ogg", 1);
    let b = m.play_with_settings("b.ogg", 2);
    let outcomes: Vec<_> = m
        .take_queue()
        .into_iter()
        .map(|q| {
            let p = if q.id == a { 'A' } else { 'B' };
            (q, QueueOutcome::Started(p))
        })
        .collect();
    m.process_sound_queue(outcomes);
    let mut players = m.stop_all();
    players.sort();
    assert_eq!(players, vec!['A', 'B']);
    assert_eq!(m.playing_count(), 0);
    assert_eq!(m.stop(b), Err(AudioError::SoundNotFound(b)));
}

#[test]
fn stop_forgets_exactly_one_sound() {
    let mut m: AudioManager<&str, u8, char> = AudioManager::new();
    let a = m.play_with_settings("a.ogg", 1);
    let b = m.play_with_settings("b.ogg", 2);
    let outcomes: Vec<_> = m
        .take_queue()
        .into_iter()
        .map(|q| {
            let p = if q.id == a { 'A' } else { 'B' };
            (q, QueueOutcome::Started(p))
        })
        .collect();
    m.process_sound_queue(outcomes);
    assert_eq!(m.playing_count(), 2);
    assert_eq!(m.stop(b), Ok('B'));
    assert_eq!(m.playing_count(), 1);
    assert_eq!(m.stop(b), Err(AudioError::SoundNotFound(b)));
    assert_eq!(m.playing_count(), 1);
    assert_eq!(m.get_playing(a), Some(&'A'));
}
