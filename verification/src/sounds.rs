//! The sound manager's bookkeeping: the ids handed to sounds, the queue of
//! sounds waiting for their audio asset, the cache of audio loaded by path, and
//! the sounds that are playing. The engine players live with the caller, keyed
//! by these ids; assets are known by integer keys that the caller assigns.

use crate::audio::{clamp_pitch, clamp_volume, clamped, PITCH_MAX, PITCH_MIN, VOLUME_MAX, VOLUME_MIN};
use crate::text::str_eq;
use vstd::prelude::*;

verus! {

/// `1.0_f32`.
pub const UNIT: u32 = 0x3F80_0000u32;

/// Handle to a playing sound instance.
#[derive(Debug, Clone, Copy, PartialEq, Eq, Hash)]
pub struct SoundId(pub u32);

/// How a sound is played. Volume and pitch are `f32` values held as their bit
/// patterns.
#[derive(Debug, Clone, Copy, PartialEq, Eq)]
pub struct SoundSettings {
    pub volume: u32,
    pub pitch: u32,
    pub looping: bool,
}

impl SoundSettings {
    /// Full volume, normal pitch, played once.
    pub fn new() -> (s: Self)
        ensures
            s.volume == UNIT,
            s.pitch == UNIT,
            !s.looping,
    {
        SoundSettings { volume: UNIT, pitch: UNIT, looping: false }
    }

    /// The same settings with `volume` clamped to `[0.0, 1.0]`.
    pub fn volume(self, volume: u32) -> (s: Self)
        ensures
            s.volume == clamped(volume, VOLUME_MIN, VOLUME_MAX),
            s.pitch == self.pitch,
            s.looping == self.looping,
    {
        SoundSettings { volume: clamp_volume(volume), ..self }
    }

    /// The same settings with `pitch` clamped to `[0.1, 4.0]`.
    pub fn pitch(self, pitch: u32) -> (s: Self)
        ensures
            s.pitch == clamped(pitch, PITCH_MIN, PITCH_MAX),
            s.volume == self.volume,
            s.looping == self.looping,
    {
        SoundSettings { pitch: clamp_pitch(pitch), ..self }
    }

    /// The same settings, looping.
    pub fn looped(self) -> (s: Self)
        ensures
            s.looping,
            s.volume == self.volume,
            s.pitch == self.pitch,
    {
        SoundSettings { looping: true, ..self }
    }
}

impl Default for SoundSettings {
    fn default() -> (s: Self)
        ensures
            s.volume == UNIT,
            s.pitch == UNIT,
            !s.looping,
    {
        SoundSettings::new()
    }
}

/// Audio loaded for a path: the path and the key of its asset.
#[derive(Debug, Clone)]
pub struct AudioHandle {
    pub path: String,
    pub asset: u64,
}

/// Where a queued sound takes its audio from.
#[derive(Debug, Clone)]
pub enum SoundSource {
    /// The audio cached for a path.
    Path(String),
    /// A given asset.
    Handle(AudioHandle),
}

/// A sound waiting for its audio.
#[derive(Debug)]
pub struct QueuedSound {
    pub id: SoundId,
    pub source: SoundSource,
    pub settings: SoundSettings,
}

/// Why a sound request failed.
#[derive(Debug, Clone, Copy, PartialEq, Eq)]
pub enum AudioError {
    SoundNotFound(SoundId),
}

/// Sounds queued or playing, and audio cached by path.
#[derive(Debug)]
pub struct AudioManager {
    playing: Vec<u32>,
    next_id: u32,
    queue: Vec<QueuedSound>,
    cache: Vec<(String, u64)>,
}

/// `q` is the sound with id `id` and settings `settings`, taking its audio
/// from the asset of `handle`.
pub open spec fn queued_handle(q: QueuedSound, id: u32, handle: AudioHandle, settings: SoundSettings) -> bool {
    &&& q.id == SoundId(id)
    &&& q.settings == settings
    &&& q.source matches SoundSource::Handle(h) && h.path@ == handle.path@ && h.asset == handle.asset
}

/// `q` is the sound with id `id` and settings `settings`, taking its audio
/// from the asset cached for `path`.
pub open spec fn queued_path(q: QueuedSound, id: u32, path: Seq<char>, settings: SoundSettings) -> bool {
    &&& q.id == SoundId(id)
    &&& q.settings == settings
    &&& q.source matches SoundSource::Path(p) && p@ == path
}

/// The cache after playing `path`: a path already cached keeps its asset; a
/// missing one gains the asset `loaded` for it, when there is one.
pub open spec fn cache_after_play(cache: Map<Seq<char>, u64>, path: Seq<char>, loaded: Option<u64>) -> Map<
    Seq<char>,
    u64,
> {
    match loaded {
        Some(asset) => if cache.contains_key(path) {
            cache
        } else {
            cache.insert(path, asset)
        },
        None => cache,
    }
}

/// The ids of a list of sounds.
pub open spec fn id_set(ids: Seq<SoundId>) -> Set<u32> {
    Set::new(|n: u32| exists|i: int| 0 <= i < ids.len() && ids[i].0 == n)
}

impl AudioManager {
    /// The sounds playing.
    pub closed spec fn playing(&self) -> Set<u32> {
        self.playing@.to_set()
    }

    /// The id the next sound gets.
    pub closed spec fn next_id(&self) -> nat {
        self.next_id as nat
    }

    /// The sounds waiting for their audio, oldest first.
    pub closed spec fn queue(&self) -> Seq<QueuedSound> {
        self.queue@
    }

    /// The asset cached for each path.
    pub closed spec fn cache(&self) -> Map<Seq<char>, u64> {
        Map::new(
            |path: Seq<char>| exists|i: int| 0 <= i < self.cache.len() && self.cache@[i].0@ == path,
            |path: Seq<char>|
                self.cache@[choose|i: int| 0 <= i < self.cache.len() && self.cache@[i].0@ == path].1,
        )
    }

    /// Each sound is tracked once and each path cached once.
    pub closed spec fn wf(&self) -> bool {
        &&& self.playing@.no_duplicates()
        &&& forall|i: int, j: int|
            0 <= i < self.cache.len() && 0 <= j < self.cache.len() && i != j ==> self.cache@[i].0@
                != self.cache@[j].0@
    }

    /// No sound queued or playing, nothing cached; ids start at zero.
    pub fn new() -> (m: Self)
        ensures
            m.wf(),
            m.playing() == Set::<u32>::empty(),
            m.next_id() == 0,
            m.queue() == Seq::<QueuedSound>::empty(),
            m.cache() == Map::<Seq<char>, u64>::empty(),
    {
        let m = AudioManager { playing: Vec::new(), next_id: 0, queue: Vec::new(), cache: Vec::new() };
        assert(m.cache() =~= Map::<Seq<char>, u64>::empty());
        assert(m.playing() =~= Set::<u32>::empty());
        m
    }

    fn find(&self, path: &str) -> (i: Option<usize>)
        requires
            self.wf(),
        ensures
            match i {
                Some(k) => k < self.cache.len() && self.cache@[k as int].0@ == path@
                    && self.cache().contains_key(path@) && self.cache()[path@]
                    == self.cache@[k as int].1,
                None => !self.cache().contains_key(path@),
            },
    {
        let mut i: usize = 0;
        while i < self.cache.len()
            invariant
                i <= self.cache.len(),
                self.wf(),
                forall|j: int| 0 <= j < i ==> self.cache@[j].0@ != path@,
            decreases self.cache.len() - i,
        {
            if str_eq(self.cache[i].0.as_str(), path) {
                proof {
                    assert(self.cache().contains_key(path@));
                    let k = choose|k: int| 0 <= k < self.cache.len() && self.cache@[k].0@ == path@;
                    assert(k == i);
                }
                return Some(i);
            }
            i = i + 1;
        }
        None
    }

    /// The audio cached for `path`, if any.
    pub fn cached(&self, path: &str) -> (h: Option<AudioHandle>)
        requires
            self.wf(),
        ensures
            match h {
                Some(a) => self.cache().contains_key(path@) && a.path@ == path@ && a.asset
                    == self.cache()[path@],
                None => !self.cache().contains_key(path@),
            },
    {
        match self.find(path) {
            Some(i) => Some(AudioHandle { path: path.to_owned(), asset: self.cache[i].1 }),
            None => None,
        }
    }

    /// Caches `asset` for `path`, replacing what was cached for it.
    pub fn load_from_handle(&mut self, path: &str, asset: u64) -> (h: AudioHandle)
        requires
            old(self).wf(),
        ensures
            final(self).wf(),
            final(self).cache() == old(self).cache().insert(path@, asset),
            final(self).playing() == old(self).playing(),
            final(self).next_id() == old(self).next_id(),
            final(self).queue() == old(self).queue(),
            h.path@ == path@,
            h.asset == asset,
    {
        let ghost before = self.cache@;
        match self.find(path) {
            Some(i) => {
                self.cache.set(i, (path.to_owned(), asset));
                proof {
                    assert forall|a: int, b: int|
                        0 <= a < self.cache.len() && 0 <= b < self.cache.len() && a != b implies self.cache@[a].0@
                            != self.cache@[b].0@ by {
                        assert(before[a].0@ != before[b].0@);
                    }
                    assert forall|n: Seq<char>|
                        #![trigger self.cache().contains_key(n)]
                        self.cache().contains_key(n) == old(self).cache().insert(path@, asset).contains_key(n) by {
                        if exists|k: int| 0 <= k < before.len() && before[k].0@ == n {
                            let k = choose|k: int| 0 <= k < before.len() && before[k].0@ == n;
                            assert(self.cache@[k].0@ == n);
                        }
                        if exists|k: int| 0 <= k < self.cache.len() && self.cache@[k].0@ == n {
                            let k = choose|k: int| 0 <= k < self.cache.len() && self.cache@[k].0@ == n;
                            assert(before[k].0@ == n);
                        }
                    }
                    assert forall|n: Seq<char>| #[trigger]
                        self.cache().contains_key(n) implies self.cache()[n] == old(self).cache().insert(
                        path@,
                        asset,
                    )[n] by {
                        let k = choose|k: int| 0 <= k < self.cache.len() && self.cache@[k].0@ == n;
                        assert(before[k].0@ == n);
                        if n != path@ {
                            let k2 = choose|k2: int| 0 <= k2 < before.len() && before[k2].0@ == n;
                            assert(k2 == k);
                        }
                    }
                    assert(self.cache() =~= old(self).cache().insert(path@, asset));
                }
            },
            None => {
                self.cache.push((path.to_owned(), asset));
                proof {
                    assert forall|a: int, b: int|
                        0 <= a < self.cache.len() && 0 <= b < self.cache.len() && a != b implies self.cache@[a].0@
                            != self.cache@[b].0@ by {
                        if a < before.len() && b < before.len() {
                            assert(before[a].0@ != before[b].0@);
                        }
                    }
                    assert forall|n: Seq<char>|
                        #![trigger self.cache().contains_key(n)]
                        self.cache().contains_key(n) == old(self).cache().insert(path@, asset).contains_key(n) by {
                        if exists|k: int| 0 <= k < before.len() && before[k].0@ == n {
                            let k = choose|k: int| 0 <= k < before.len() && before[k].0@ == n;
                            assert(self.cache@[k].0@ == n);
                        }
                        if n == path@ {
                            assert(self.cache@[before.len() as int].0@ == n);
                        }
                        if exists|k: int| 0 <= k < self.cache.len() && self.cache@[k].0@ == n {
                            let k = choose|k: int| 0 <= k < self.cache.len() && self.cache@[k].0@ == n;
                            if k < before.len() {
                                assert(before[k].0@ == n);
                            }
                        }
                    }
                    assert forall|n: Seq<char>| #[trigger]
                        self.cache().contains_key(n) implies self.cache()[n] == old(self).cache().insert(
                        path@,
                        asset,
                    )[n] by {
                        let k = choose|k: int| 0 <= k < self.cache.len() && self.cache@[k].0@ == n;
                        if n == path@ {
                            assert(self.cache@[before.len() as int].0@ == n);
                        } else {
                            assert(k < before.len());
                            assert(before[k].0@ == n);
                            let k2 = choose|k2: int| 0 <= k2 < before.len() && before[k2].0@ == n;
                            assert(k2 == k);
                        }
                    }
                    assert(self.cache() =~= old(self).cache().insert(path@, asset));
                }
            },
        }
        AudioHandle { path: path.to_owned(), asset }
    }

    /// Whether another sound can get an id: ids are `u32` and handed out once.
    pub fn can_play(&self) -> (ok: bool)
        ensures
            ok == (self.next_id() < u32::MAX),
    {
        self.next_id < u32::MAX
    }

    fn enqueue(&mut self, source: SoundSource, settings: SoundSettings) -> (id: SoundId)
        requires
            old(self).wf(),
            old(self).next_id() < u32::MAX,
        ensures
            final(self).wf(),
            id == SoundId(old(self).next_id() as u32),
            final(self).next_id() == old(self).next_id() + 1,
            final(self).queue().len() == old(self).queue().len() + 1,
            final(self).queue().drop_last() == old(self).queue(),
            final(self).queue().last() == (QueuedSound { id, source, settings }),
            final(self).playing() == old(self).playing(),
            final(self).cache() == old(self).cache(),
    {
        let id = SoundId(self.next_id);
        self.next_id = self.next_id + 1;
        self.queue.push(QueuedSound { id, source, settings });
        proof {
            assert(self.queue@.drop_last() =~= old(self).queue@);
            assert(self.cache() =~= old(self).cache());
        }
        id
    }

    /// Queues a sound from a given asset; the sound gets the next id.
    pub fn play_handle_with_settings(&mut self, handle: &AudioHandle, settings: SoundSettings) -> (r: Result<SoundId, AudioError>)
        requires
            old(self).wf(),
            old(self).next_id() < u32::MAX,
        ensures
            final(self).wf(),
            r == Ok::<SoundId, AudioError>(SoundId(old(self).next_id() as u32)),
            final(self).next_id() == old(self).next_id() + 1,
            final(self).queue().len() == old(self).queue().len() + 1,
            final(self).queue().drop_last() == old(self).queue(),
            queued_handle(final(self).queue().last(), old(self).next_id() as u32, *handle, settings),
            final(self).playing() == old(self).playing(),
            final(self).cache() == old(self).cache(),
    {
        let source = SoundSource::Handle(AudioHandle { path: handle.path.as_str().to_owned(), asset: handle.asset });
        Ok(self.enqueue(source, settings))
    }

    /// Queues a sound from a given asset with the default settings.
    pub fn play_handle(&mut self, handle: &AudioHandle) -> (r: Result<SoundId, AudioError>)
        requires
            old(self).wf(),
            old(self).next_id() < u32::MAX,
        ensures
            final(self).wf(),
            r == Ok::<SoundId, AudioError>(SoundId(old(self).next_id() as u32)),
            final(self).next_id() == old(self).next_id() + 1,
            final(self).queue().len() == old(self).queue().len() + 1,
            final(self).queue().drop_last() == old(self).queue(),
            queued_handle(
                final(self).queue().last(),
                old(self).next_id() as u32,
                *handle,
                SoundSettings { volume: UNIT, pitch: UNIT, looping: false },
            ),
            final(self).playing() == old(self).playing(),
            final(self).cache() == old(self).cache(),
    {
        self.play_handle_with_settings(handle, SoundSettings::new())
    }

    /// Queues a sound from the audio for `path`; the sound gets the next id. When
    /// `path` is not cached yet, `loaded` is the asset just requested for it, and
    /// it is cached; an existing entry is kept.
    pub fn play_with_settings(&mut self, path: &str, settings: SoundSettings, loaded: Option<u64>) -> (r: Result<SoundId, AudioError>)
        requires
            old(self).wf(),
            old(self).next_id() < u32::MAX,
        ensures
            final(self).wf(),
            r == Ok::<SoundId, AudioError>(SoundId(old(self).next_id() as u32)),
            final(self).next_id() == old(self).next_id() + 1,
            final(self).queue().len() == old(self).queue().len() + 1,
            final(self).queue().drop_last() == old(self).queue(),
            queued_path(final(self).queue().last(), old(self).next_id() as u32, path@, settings),
            final(self).playing() == old(self).playing(),
            final(self).cache() == cache_after_play(old(self).cache(), path@, loaded),
    {
        if let Some(asset) = loaded {
            if self.find(path).is_none() {
                self.load_from_handle(path, asset);
            }
        }
        Ok(self.enqueue(SoundSource::Path(path.to_owned()), settings))
    }

    /// Queues a sound from the audio for `path` with the default settings,
    /// caching `loaded` for `path` as `play_with_settings` does.
    pub fn play(&mut self, path: &str, loaded: Option<u64>) -> (r: Result<SoundId, AudioError>)
        requires
            old(self).wf(),
            old(self).next_id() < u32::MAX,
        ensures
            final(self).wf(),
            r == Ok::<SoundId, AudioError>(SoundId(old(self).next_id() as u32)),
            final(self).next_id() == old(self).next_id() + 1,
            final(self).queue().len() == old(self).queue().len() + 1,
            final(self).queue().drop_last() == old(self).queue(),
            queued_path(
                final(self).queue().last(),
                old(self).next_id() as u32,
                path@,
                SoundSettings { volume: UNIT, pitch: UNIT, looping: false },
            ),
            final(self).playing() == old(self).playing(),
            final(self).cache() == cache_after_play(old(self).cache(), path@, loaded),
    {
        self.play_with_settings(path, SoundSettings::new(), loaded)
    }

    fn position(&self, id: u32) -> (i: Option<usize>)
        ensures
            match i {
                Some(k) => k < self.playing.len() && self.playing@[k as int] == id,
                None => !self.playing@.contains(id),
            },
    {
        let mut i: usize = 0;
        while i < self.playing.len()
            invariant
                i <= self.playing.len(),
                forall|j: int| 0 <= j < i ==> self.playing@[j] != id,
            decreases self.playing.len() - i,
        {
            if self.playing[i] == id {
                return Some(i);
            }
            i = i + 1;
        }
        None
    }

    /// Stops tracking a playing sound; a sound that is not playing is not found.
    pub fn stop(&mut self, id: SoundId) -> (r: Result<(), AudioError>)
        requires
            old(self).wf(),
        ensures
            final(self).wf(),
            r is Ok <==> old(self).playing().contains(id.0),
            r is Err ==> r == Err::<(), AudioError>(AudioError::SoundNotFound(id)),
            final(self).playing() == old(self).playing().remove(id.0),
            final(self).playing().len() == if r is Ok {
                old(self).playing().len() - 1
            } else {
                old(self).playing().len() as int
            },
            final(self).next_id() == old(self).next_id(),
            final(self).queue() == old(self).queue(),
            final(self).cache() == old(self).cache(),
    {
        match self.position(id.0) {
            Some(i) => {
                let ghost before = self.playing@;
                self.playing.remove(i);
                proof {
                    assert(self.playing@ =~= before.remove(i as int));
                    assert forall|n: u32| #[trigger] self.playing@.contains(n) == before.to_set().remove(id.0).contains(n) by {
                        if self.playing@.contains(n) {
                            let k = choose|k: int| 0 <= k < self.playing@.len() && self.playing@[k] == n;
                            if k < i {
                                assert(before[k] == n);
                            } else {
                                assert(before[k + 1] == n);
                            }
                        }
                        if n != id.0 && before.contains(n) {
                            let k = choose|k: int| 0 <= k < before.len() && before[k] == n;
                            if k < i {
                                assert(self.playing@[k] == n);
                            } else {
                                assert(k != i);
                                assert(self.playing@[k - 1] == n);
                            }
                        }
                    }
                    assert(self.playing@.to_set() =~= before.to_set().remove(id.0));
                    assert forall|a: int, b: int| 0 <= a < self.playing@.len() && 0 <= b < self.playing@.len() && a != b implies self.playing@[a] != self.playing@[b] by {
                        let a2 = if a < i { a } else { a + 1 };
                        let b2 = if b < i { b } else { b + 1 };
                        assert(before[a2] != before[b2]);
                    }
                    before.unique_seq_to_set();
                    self.playing@.unique_seq_to_set();
                    assert(self.cache() =~= old(self).cache());
                }
                Ok(())
            },
            None => {
                proof {
                    assert(self.playing@.to_set() =~= self.playing@.to_set().remove(id.0));
                }
                Err(AudioError::SoundNotFound(id))
            },
        }
    }

    /// Stops tracking every playing sound; returns them.
    pub fn stop_all(&mut self) -> (stopped: Vec<SoundId>)
        requires
            old(self).wf(),
        ensures
            final(self).wf(),
            id_set(stopped@) == old(self).playing(),
            stopped@.len() == old(self).playing().len(),
            final(self).playing() == Set::<u32>::empty(),
            final(self).next_id() == old(self).next_id(),
            final(self).queue() == old(self).queue(),
            final(self).cache() == old(self).cache(),
    {
        let mut stopped: Vec<SoundId> = Vec::new();
        let mut i: usize = 0;
        while i < self.playing.len()
            invariant
                i <= self.playing.len(),
                stopped@.len() == i,
                forall|j: int| 0 <= j < i ==> #[trigger] stopped@[j] == SoundId(self.playing@[j]),
            decreases self.playing.len() - i,
        {
            stopped.push(SoundId(self.playing[i]));
            i = i + 1;
        }
        proof {
            self.playing@.unique_seq_to_set();
            assert forall|n: u32| #[trigger] id_set(stopped@).contains(n) == self.playing@.to_set().contains(n) by {
                if id_set(stopped@).contains(n) {
                    let k = choose|k: int| 0 <= k < stopped@.len() && stopped@[k].0 == n;
                    assert(self.playing@[k] == n);
                }
                if self.playing@.contains(n) {
                    let k = choose|k: int| 0 <= k < self.playing@.len() && self.playing@[k] == n;
                    assert(stopped@[k].0 == n);
                }
            }
            assert(id_set(stopped@) =~= self.playing@.to_set());
        }
        self.playing = Vec::new();
        proof {
            assert(self.playing@.to_set() =~= Set::<u32>::empty());
            assert(self.cache() =~= old(self).cache());
        }
        stopped
    }

    /// Whether a sound is tracked as playing.
    pub fn tracks(&self, id: SoundId) -> (playing: bool)
        ensures
            playing == self.playing().contains(id.0),
    {
        self.position(id.0).is_some()
    }

    /// The number of sounds playing.
    pub fn playing_count(&self) -> (n: usize)
        requires
            self.wf(),
        ensures
            n == self.playing().len(),
    {
        proof {
            self.playing@.unique_seq_to_set();
        }
        self.playing.len()
    }

    /// Forgets every cached path.
    pub fn clear_cache(&mut self)
        requires
            old(self).wf(),
        ensures
            final(self).wf(),
            final(self).cache() == Map::<Seq<char>, u64>::empty(),
            final(self).playing() == old(self).playing(),
            final(self).next_id() == old(self).next_id(),
            final(self).queue() == old(self).queue(),
    {
        self.cache = Vec::new();
        assert(self.cache() =~= Map::<Seq<char>, u64>::empty());
    }

    /// The number of cached paths and of playing sounds.
    pub fn cache_stats(&self) -> (stats: (usize, usize))
        requires
            self.wf(),
        ensures
            stats.0 == self.cache().len(),
            stats.1 == self.playing().len(),
    {
        proof {
            self.playing@.unique_seq_to_set();
            self.lemma_cache_len();
        }
        (self.cache.len(), self.playing.len())
    }

    proof fn lemma_cache_len(&self)
        requires
            self.wf(),
        ensures
            self.cache().len() == self.cache@.len(),
            self.cache().dom().finite(),
    {
        let keys = self.cache@.map_values(|e: (String, u64)| e.0@);
        assert forall|a: int, b: int| 0 <= a < keys.len() && 0 <= b < keys.len() && a != b implies keys[a] != keys[b] by {}
        assert(keys.no_duplicates());
        keys.unique_seq_to_set();
        assert forall|k: Seq<char>| #[trigger] self.cache().dom().contains(k) == keys.to_set().contains(k) by {
            if self.cache().dom().contains(k) {
                let i = choose|i: int| 0 <= i < self.cache.len() && self.cache@[i].0@ == k;
                assert(keys[i] == k);
            }
            if keys.contains(k) {
                let i = choose|i: int| 0 <= i < keys.len() && keys[i] == k;
                assert(self.cache@[i].0@ == k);
            }
        }
        assert(self.cache().dom() =~= keys.to_set());
    }

    /// Takes every queued sound, oldest first, leaving the queue empty.
    pub fn take_queue(&mut self) -> (queued: Vec<QueuedSound>)
        requires
            old(self).wf(),
        ensures
            final(self).wf(),
            queued@ == old(self).queue(),
            final(self).queue() == Seq::<QueuedSound>::empty(),
            final(self).playing() == old(self).playing(),
            final(self).next_id() == old(self).next_id(),
            final(self).cache() == old(self).cache(),
    {
        let mut queued: Vec<QueuedSound> = Vec::new();
        std::mem::swap(&mut queued, &mut self.queue);
        assert(self.cache() =~= old(self).cache());
        queued
    }

    /// Puts a sound whose audio is not loaded yet back at the end of the queue.
    pub fn requeue(&mut self, sound: QueuedSound)
        requires
            old(self).wf(),
        ensures
            final(self).wf(),
            final(self).queue() == old(self).queue().push(sound),
            final(self).playing() == old(self).playing(),
            final(self).next_id() == old(self).next_id(),
            final(self).cache() == old(self).cache(),
    {
        self.queue.push(sound);
        assert(self.cache() =~= old(self).cache());
    }

    /// The asset a queued sound plays: the given one, or the one cached for its
    /// path (none when the path is not cached).
    pub fn asset_of(&self, source: &SoundSource) -> (asset: Option<u64>)
        requires
            self.wf(),
        ensures
            match source {
                SoundSource::Handle(h) => asset == Some(h.asset),
                SoundSource::Path(p) => if self.cache().contains_key(p@) {
                    asset == Some(self.cache()[p@])
                } else {
                    asset is None
                },
            },
    {
        match source {
            SoundSource::Handle(h) => Some(h.asset),
            SoundSource::Path(p) => match self.find(p.as_str()) {
                Some(i) => Some(self.cache[i].1),
                None => None,
            },
        }
    }

    /// Tracks a sound whose player started.
    pub fn begin(&mut self, id: SoundId)
        requires
            old(self).wf(),
        ensures
            final(self).wf(),
            final(self).playing() == old(self).playing().insert(id.0),
            final(self).next_id() == old(self).next_id(),
            final(self).queue() == old(self).queue(),
            final(self).cache() == old(self).cache(),
    {
        if self.position(id.0).is_none() {
            let ghost before = self.playing@;
            self.playing.push(id.0);
            proof {
                assert forall|a: int, b: int| 0 <= a < self.playing@.len() && 0 <= b < self.playing@.len() && a != b implies self.playing@[a] != self.playing@[b] by {
                    if a < before.len() && b < before.len() {
                        assert(before[a] != before[b]);
                    } else if a == before.len() {
                        assert(before.contains(self.playing@[b]) || b == a);
                    } else {
                        assert(before.contains(self.playing@[a]));
                    }
                }
                assert forall|n: u32| #[trigger] self.playing@.contains(n) == before.to_set().insert(id.0).contains(n) by {
                    if self.playing@.contains(n) {
                        let k = choose|k: int| 0 <= k < self.playing@.len() && self.playing@[k] == n;
                        if k < before.len() {
                            assert(before[k] == n);
                        }
                    }
                    if before.contains(n) {
                        let k = choose|k: int| 0 <= k < before.len() && before[k] == n;
                        assert(self.playing@[k] == n);
                    }
                    if n == id.0 {
                        assert(self.playing@[before.len() as int] == n);
                    }
                }
                assert(self.playing@.to_set() =~= before.to_set().insert(id.0));
            }
        } else {
            assert(self.playing@.to_set() =~= self.playing@.to_set().insert(id.0));
        }
        assert(self.cache() =~= old(self).cache());
    }

    /// Forgets the sounds whose players finished.
    pub fn finish(&mut self, finished: &Vec<SoundId>)
        requires
            old(self).wf(),
        ensures
            final(self).wf(),
            final(self).playing() == old(self).playing().difference(id_set(finished@)),
            final(self).next_id() == old(self).next_id(),
            final(self).queue() == old(self).queue(),
            final(self).cache() == old(self).cache(),
    {
        let mut i: usize = 0;
        while i < finished.len()
            invariant
                i <= finished.len(),
                self.wf(),
                self.playing() == old(self).playing().difference(id_set(finished@.subrange(0, i as int))),
                self.next_id() == old(self).next_id(),
                self.queue() == old(self).queue(),
                self.cache() == old(self).cache(),
            decreases finished.len() - i,
        {
            let _ = self.stop(finished[i]);
            proof {
                let prev = finished@.subrange(0, i as int);
                let next = finished@.subrange(0, i + 1);
                assert forall|n: u32| #[trigger] id_set(next).contains(n) == (id_set(prev).contains(n)
                    || n == finished@[i as int].0) by {
                    if id_set(next).contains(n) {
                        let k = choose|k: int| 0 <= k < next.len() && #[trigger] next[k].0 == n;
                        if k < i {
                            assert(prev[k].0 == n);
                        }
                    }
                    if id_set(prev).contains(n) {
                        let k = choose|k: int| 0 <= k < prev.len() && #[trigger] prev[k].0 == n;
                        assert(next[k].0 == n);
                    }
                    if n == finished@[i as int].0 {
                        assert(next[i as int].0 == n);
                    }
                }
                assert(self.playing() =~= old(self).playing().difference(id_set(next)));
            }
            i = i + 1;
        }
        assert(finished@.subrange(0, finished@.len() as int) =~= finished@);
    }
}

/// Once started, a sound is tracked until it is stopped: stopping it then
/// succeeds, and afterwards it is no longer tracked, so a second stop finds
/// nothing. `started` is the manager after `begin(id)`, `stopped` after `stop(id)`.
pub proof fn law_started_sound_stops_once(
    before: AudioManager,
    started: AudioManager,
    stopped: AudioManager,
    id: SoundId,
)
    requires
        started.playing() == before.playing().insert(id.0),
        stopped.playing() == started.playing().remove(id.0),
    ensures
        started.playing().contains(id.0),
        !stopped.playing().contains(id.0),
        stopped.playing() == before.playing().remove(id.0),
{
    assert(stopped.playing() =~= before.playing().remove(id.0));
}

} // verus!
