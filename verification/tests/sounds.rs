use godot_bevy::sounds::{AudioError, AudioManager, SoundId, SoundSettings, SoundSource};

fn bits(v: f32) -> u32 {
    v.to_bits()
}

#[test]
fn settings_default_and_clamp() {
    let s = SoundSettings::default();
    assert_eq!((s.volume, s.pitch, s.looping), (bits(1.0), bits(1.0), false));
    let s = SoundSettings::new().volume(bits(1.5)).pitch(bits(0.05)).looped();
    assert_eq!(s.volume, bits(1.0));
    assert_eq!(s.pitch, bits(0.1));
    assert!(s.looping);
    let s = SoundSettings::new().volume(bits(0.25)).pitch(bits(2.0));
    assert_eq!((s.volume, s.pitch), (bits(0.25), bits(2.0)));
}

#[test]
fn plays_get_successive_ids_and_wait_in_order() {
    let mut m = AudioManager::new();
    let handle = m.load_from_handle("res://boom.ogg", 7);
    assert_eq!(handle.path, "res://boom.ogg");
    assert_eq!(handle.asset, 7);
    assert_eq!(m.play_handle(&handle), Ok(SoundId(0)));
    let quiet = SoundSettings::new().volume(bits(0.5));
    assert_eq!(m.play_with_settings("res://step.wav", quiet, Some(9)), Ok(SoundId(1)));
    assert_eq!(m.play("res://step.wav", None), Ok(SoundId(2)));
    let queued = m.take_queue();
    assert_eq!(queued.len(), 3);
    assert_eq!(queued[0].id, SoundId(0));
    assert!(matches!(&queued[0].source, SoundSource::Handle(h) if h.asset == 7 && h.path == "res://boom.ogg"));
    assert_eq!(queued[1].settings, quiet);
    assert!(matches!(&queued[1].source, SoundSource::Path(p) if p == "res://step.wav"));
    assert_eq!(queued[2].settings, SoundSettings::new());
    assert!(m.take_queue().is_empty());
}

#[test]
fn assets_come_from_the_handle_or_the_cache() {
    let mut m = AudioManager::new();
    assert!(m.cached("res://a.ogg").is_none());
    m.load_from_handle("res://a.ogg", 3);
    m.load_from_handle("res://a.ogg", 4);
    let cached = m.cached("res://a.ogg").unwrap();
    assert_eq!(cached.asset, 4);
    assert_eq!(m.cache_stats(), (1, 0));
    assert_eq!(m.asset_of(&SoundSource::Path("res://a.ogg".to_owned())), Some(4));
    assert_eq!(m.asset_of(&SoundSource::Path("res://b.ogg".to_owned())), None);
    assert_eq!(m.asset_of(&SoundSource::Handle(cached)), Some(4));
    m.clear_cache();
    assert_eq!(m.cache_stats(), (0, 0));
    assert!(m.cached("res://a.ogg").is_none());
}

#[test]
fn waiting_sounds_can_be_requeued() {
    let mut m = AudioManager::new();
    m.play("res://late.ogg", None).unwrap();
    let mut queued = m.take_queue();
    m.requeue(queued.pop().unwrap());
    let again = m.take_queue();
    assert_eq!(again.len(), 1);
    assert_eq!(again[0].id, SoundId(0));
}

#[test]
fn started_sounds_stop_once() {
    let mut m = AudioManager::new();
    m.begin(SoundId(0));
    m.begin(SoundId(1));
    m.begin(SoundId(1));
    assert_eq!(m.playing_count(), 2);
    assert!(m.tracks(SoundId(1)));
    assert_eq!(m.stop(SoundId(1)), Ok(()));
    assert!(!m.tracks(SoundId(1)));
    assert_eq!(m.stop(SoundId(1)), Err(AudioError::SoundNotFound(SoundId(1))));
    assert_eq!(m.stop(SoundId(9)), Err(AudioError::SoundNotFound(SoundId(9))));
    assert_eq!(m.playing_count(), 1);
}

#[test]
fn playing_a_path_caches_it_once() {
    let mut m = AudioManager::new();
    m.play("res://a.ogg", Some(5)).unwrap();
    assert_eq!(m.cached("res://a.ogg").unwrap().asset, 5);
    m.play_with_settings("res://a.ogg", SoundSettings::new(), Some(6)).unwrap();
    assert_eq!(m.cached("res://a.ogg").unwrap().asset, 5);
    m.play("res://b.ogg", None).unwrap();
    assert!(m.cached("res://b.ogg").is_none());
    assert_eq!(m.cache_stats(), (1, 0));
}

#[test]
fn stopping_drops_the_playing_count_by_one() {
    let mut m = AudioManager::new();
    m.begin(SoundId(3));
    m.begin(SoundId(4));
    assert_eq!(m.playing_count(), 2);
    m.stop(SoundId(3)).unwrap();
    assert_eq!(m.playing_count(), 1);
    assert!(m.stop(SoundId(3)).is_err());
    assert_eq!(m.playing_count(), 1);
}

#[test]
fn stop_all_and_finish_forget_sounds() {
    let mut m = AudioManager::new();
    for id in 0..4 {
        m.begin(SoundId(id));
    }
    m.finish(&vec![SoundId(1), SoundId(3), SoundId(8)]);
    assert_eq!(m.playing_count(), 2);
    assert!(m.tracks(SoundId(0)) && m.tracks(SoundId(2)));
    let mut stopped = m.stop_all();
    stopped.sort_by_key(|id| id.0);
    assert_eq!(stopped, vec![SoundId(0), SoundId(2)]);
    assert_eq!(m.playing_count(), 0);
}

#[test]
fn a_fresh_manager_can_play() {
    let m = AudioManager::new();
    assert!(m.can_play());
}
