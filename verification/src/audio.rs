//! Audio bookkeeping: fade tweens, channel ids, and the sound queue and playing sounds of the
//! audio manager.
//!
//! The manager is generic over what it carries: `H` is the handle of the audio asset, `S` the
//! playback settings, `P` the handle of the player node of a playing sound.

use std::collections::HashMap;
use std::time::Duration;

use vstd::prelude::*;
use vstd::std_specs::iter::IteratorSpec;

verus! {

broadcast use vstd::std_specs::hash::group_hash_axioms;

// ---------------------------------------------------------------------------------------------
// Tweens
// ---------------------------------------------------------------------------------------------

/// Audio easing types for smooth transitions.
#[derive(Debug, Clone, Copy, PartialEq, Eq)]
pub enum AudioEasing {
    Linear,
    EaseIn,
    EaseOut,
    EaseInOut,
}

/// Tweening/easing configuration for smooth audio transitions.
#[derive(Debug, Clone, Copy)]
pub struct AudioTween {
    pub duration: Duration,
    pub easing: AudioEasing,
}

/// The duration of `ms` milliseconds, as `Duration::from_millis` builds it.
pub uninterp spec fn millis_duration(ms: u64) -> Duration;

/// `Duration::from_millis`: the result is named [`millis_duration`] of the argument, which is
/// all that is claimed of it.
#[verifier::external_body]
fn duration_from_millis(ms: u64) -> (d: Duration)
    ensures
        d == millis_duration(ms),
{
    Duration::from_millis(ms)
}

impl AudioTween {
    /// Create a new tween with the given duration and easing.
    pub fn new(duration: Duration, easing: AudioEasing) -> (t: AudioTween)
        ensures
            t.duration == duration,
            t.easing == easing,
    {
        AudioTween { duration, easing }
    }

    /// Create a new linear tween with the given duration.
    pub fn linear(duration: Duration) -> (t: AudioTween)
        ensures
            t.duration == duration,
            t.easing == AudioEasing::Linear,
    {
        Self::new(duration, AudioEasing::Linear)
    }

    /// Set an easing for the tween.
    pub fn with_easing(self, easing: AudioEasing) -> (t: AudioTween)
        ensures
            t.duration == self.duration,
            t.easing == easing,
    {
        AudioTween { duration: self.duration, easing }
    }
}

impl Default for AudioTween {
    /// A linear tween of 10 milliseconds.
    fn default() -> (t: AudioTween)
        ensures
            t.duration == millis_duration(10),
            t.easing == AudioEasing::Linear,
    {
        Self::new(duration_from_millis(10), AudioEasing::Linear)
    }
}

/// Channel identifier for tracking which sounds belong to which channels.
#[derive(Debug, Clone, Copy, PartialEq, Eq, Hash)]
pub struct ChannelId(pub &'static str);

// ---------------------------------------------------------------------------------------------
// The audio manager
// ---------------------------------------------------------------------------------------------

/// Handle to a playing sound instance.
#[derive(Debug, Clone, Copy, PartialEq, Eq, Hash)]
pub struct SoundId(u32);

impl SoundId {
    /// The number of the sound.
    pub closed spec fn number(self) -> u32 {
        self.0
    }

    /// The number of the sound.
    pub fn get(&self) -> (n: u32)
        ensures
            n == self.number(),
    {
        self.0
    }
}

/// Possible errors that can be produced by the audio manager.
#[derive(Debug, Clone, Copy, PartialEq, Eq)]
pub enum AudioError {
    SoundNotFound(SoundId),
}

/// A sound waiting to be played.
#[derive(Debug)]
pub struct QueuedSound<H, S> {
    pub id: SoundId,
    pub handle: H,
    pub settings: S,
}

/// What became of a queued sound: its asset was not ready (it waits for the next round), it
/// could not be played (it is dropped), or it started playing on the given player.
#[derive(Debug)]
pub enum QueueOutcome<P> {
    NotReady,
    Failed,
    Started(P),
}

/// Main audio manager for playing sounds and music.
pub struct AudioManager<H, S, P> {
    playing_sounds: HashMap<u32, P>,
    next_id: u32,
    sound_queue: Vec<QueuedSound<H, S>>,
}

/// The state of an [`AudioManager`]: the queued sounds in order, the players of the playing
/// sounds by sound number, and the number the next sound gets.
pub struct AudioState<H, S, P> {
    pub queue: Seq<QueuedSound<H, S>>,
    pub playing: Map<u32, P>,
    pub next_id: u32,
}

impl<H, S, P> View for AudioManager<H, S, P> {
    type V = AudioState<H, S, P>;

    closed spec fn view(&self) -> AudioState<H, S, P> {
        AudioState { queue: self.sound_queue@, playing: self.playing_sounds@, next_id: self.next_id }
    }
}

/// The playing sounds after the outcomes of queued sounds, in order: each sound that started
/// now plays on its player.
pub open spec fn playing_after<H, S, P>(
    playing: Map<u32, P>,
    outcomes: Seq<(QueuedSound<H, S>, QueueOutcome<P>)>,
) -> Map<u32, P>
    decreases outcomes.len(),
{
    if outcomes.len() == 0 {
        playing
    } else {
        let last = outcomes.last();
        let before = playing_after(playing, outcomes.drop_last());
        match last.1 {
            QueueOutcome::Started(p) => before.insert(last.0.id.number(), p),
            _ => before,
        }
    }
}

/// The queue after the outcomes of queued sounds, in order: each sound whose asset was not
/// ready is queued again.
pub open spec fn queue_after<H, S, P>(
    queue: Seq<QueuedSound<H, S>>,
    outcomes: Seq<(QueuedSound<H, S>, QueueOutcome<P>)>,
) -> Seq<QueuedSound<H, S>>
    decreases outcomes.len(),
{
    if outcomes.len() == 0 {
        queue
    } else {
        let last = outcomes.last();
        let before = queue_after(queue, outcomes.drop_last());
        match last.1 {
            QueueOutcome::NotReady => before.push(last.0),
            _ => before,
        }
    }
}

/// The numbers of the listed sounds, in order.
pub open spec fn sound_numbers_of(ids: Seq<SoundId>) -> Seq<u32> {
    ids.map_values(|id: SoundId| id.number())
}

/// `m` without the sounds listed in `ids`.
pub open spec fn without_sounds<P>(m: Map<u32, P>, ids: Seq<SoundId>) -> Map<u32, P> {
    m.remove_keys(ids.map_values(|id: SoundId| id.number()).to_set())
}

impl<H, S, P> AudioManager<H, S, P> {
    /// An audio manager with no queued and no playing sound.
    pub fn new() -> (m: AudioManager<H, S, P>)
        ensures
            m@.queue == Seq::<QueuedSound<H, S>>::empty(),
            m@.playing == Map::<u32, P>::empty(),
            m@.next_id == 0,
            m@.playing.dom().finite(),
    {
        AudioManager { playing_sounds: HashMap::new(), next_id: 0, sound_queue: Vec::new() }
    }

    /// Whether another sound can be queued, that is whether sound numbers are left.
    pub fn can_play(&self) -> (r: bool)
        ensures
            r == (self@.next_id < u32::MAX),
    {
        self.next_id < u32::MAX
    }

    /// Queue an audio asset with custom settings; it gets the next sound number.
    pub fn play_with_settings(&mut self, handle: H, settings: S) -> (id: SoundId)
        requires
            old(self)@.next_id < u32::MAX,
        ensures
            id.number() == old(self)@.next_id,
            final(self)@.next_id == old(self)@.next_id + 1,
            final(self)@.playing.dom().finite(),
            final(self)@.queue == old(self)@.queue.push(QueuedSound { id, handle, settings }),
            final(self)@.playing == old(self)@.playing,
    {
        let id = SoundId(self.next_id);
        self.next_id = self.next_id + 1;
        self.sound_queue.push(QueuedSound { id, handle, settings });
        id
    }

    /// Stop a specific sound: forgets it and hands back its player, or reports that it is not
    /// playing.
    pub fn stop(&mut self, id: SoundId) -> (r: Result<P, AudioError>)
        ensures
            match r {
                Ok(p) => old(self)@.playing.contains_key(id.number()) && p == old(
                    self,
                )@.playing[id.number()],
                Err(e) => !old(self)@.playing.contains_key(id.number()) && e
                    == AudioError::SoundNotFound(id),
            },
            final(self)@.playing == old(self)@.playing.remove(id.number()),
            r is Ok ==> final(self)@.playing.len() == old(self)@.playing.len() - 1,
            r is Err ==> final(self)@.playing == old(self)@.playing,
            final(self)@.queue == old(self)@.queue,
            final(self)@.next_id == old(self)@.next_id,
            final(self)@.playing.dom().finite(),
    {
        proof {
            assert(self.playing_sounds@.dom().finite());
            if !self.playing_sounds@.contains_key(id.0) {
                assert(self.playing_sounds@.remove(id.0) =~= self.playing_sounds@);
            }
        }
        match self.playing_sounds.remove(&id.0) {
            Some(p) => Ok(p),
            None => Err(AudioError::SoundNotFound(id)),
        }
    }

    /// Stop all playing sounds: forgets them and hands back their players, one per playing
    /// sound, in some order of the sounds.
    pub fn stop_all(&mut self) -> (r: Vec<P>)
        ensures
            exists|ks: Seq<u32>|
                #![trigger ks.to_set()]
                ks.no_duplicates() && ks.to_set() == old(self)@.playing.dom() && r@
                    == ks.map_values(|k: u32| old(self)@.playing[k]),
            final(self)@.playing == Map::<u32, P>::empty(),
            final(self)@.queue == old(self)@.queue,
            final(self)@.next_id == old(self)@.next_id,
            final(self)@.playing.dom().finite(),
    {
        let keys = self.sound_numbers();
        let ghost start = self.playing_sounds@;
        let mut players: Vec<P> = Vec::new();
        let mut i: usize = 0;
        while i < keys.len()
            invariant
                i <= keys@.len(),
                keys@.no_duplicates(),
                keys@.to_set() == start.dom(),
                players@ == keys@.subrange(0, i as int).map_values(|k: u32| start[k]),
                self.playing_sounds@ == start.remove_keys(keys@.subrange(0, i as int).to_set()),
                self.next_id == old(self).next_id,
                self.sound_queue@ == old(self).sound_queue@,
            decreases keys@.len() - i,
        {
            let k = keys[i];
            let ghost before = self.playing_sounds@;
            proof {
                assert(keys@.to_set().contains(k));
                assert(!keys@.subrange(0, i as int).contains(k)) by {
                    if keys@.subrange(0, i as int).contains(k) {
                        let j = choose|j: int| 0 <= j < i && keys@.subrange(0, i as int)[j] == k;
                        assert(keys@[j] == keys@[i as int]);
                    }
                }
                assert(!keys@.subrange(0, i as int).to_set().contains(k));
                assert(before.contains_key(k));
            }
            match self.playing_sounds.remove(&k) {
                Some(p) => {
                    players.push(p);
                },
                None => {},
            }
            proof {
                assert(keys@.subrange(0, i + 1) =~= keys@.subrange(0, i as int).push(k));
                keys@.subrange(0, i as int).lemma_push_to_set_commute(k);
                assert(keys@.subrange(0, i + 1).to_set() =~= keys@.subrange(0, i as int).to_set().insert(
                    k,
                ));
                assert(self.playing_sounds@ =~= start.remove_keys(
                    keys@.subrange(0, i + 1).to_set(),
                ));
                assert(players@ =~= keys@.subrange(0, i + 1).map_values(|k: u32| start[k]));
            }
            i = i + 1;
        }
        proof {
            assert(keys@.subrange(0, keys@.len() as int) =~= keys@);
            assert(self.playing_sounds@ =~= Map::<u32, P>::empty());
        }
        players
    }

    /// The numbers of the playing sounds, each once, in some order.
    fn sound_numbers(&self) -> (r: Vec<u32>)
        ensures
            r@.no_duplicates(),
            r@.to_set() == self@.playing.dom(),
    {
        let mut r: Vec<u32> = Vec::new();
        let ghost all = vstd::std_specs::hash::spec_keys_iter(&self.playing_sounds).remaining();
        for k in it: self.playing_sounds.keys()
            invariant
                it.seq() == all,
                r@ == it.seq().take(it.index()).unref(),
        {
            proof {
                assert(it.seq().take(it.index() + 1).unref() =~= it.seq().take(
                    it.index(),
                ).unref().push(*k));
            }
            r.push(*k);
        }
        proof {
            assert(all.take(all.len() as int) =~= all);
            assert(all.unref().no_duplicates());
        }
        r
    }

    /// The sounds of the playing sounds, each once, in some order.
    pub fn playing_ids(&self) -> (r: Vec<SoundId>)
        ensures
            sound_numbers_of(r@).no_duplicates(),
            sound_numbers_of(r@).to_set() == self@.playing.dom(),
    {
        let keys = self.sound_numbers();
        let mut r: Vec<SoundId> = Vec::new();
        let mut i: usize = 0;
        while i < keys.len()
            invariant
                i <= keys@.len(),
                sound_numbers_of(r@) == keys@.subrange(0, i as int),
            decreases keys@.len() - i,
        {
            let ghost before = r@;
            r.push(SoundId(keys[i]));
            proof {
                assert(sound_numbers_of(r@) =~= sound_numbers_of(before).push(keys@[i as int]));
                assert(keys@.subrange(0, i + 1) =~= keys@.subrange(0, i as int).push(
                    keys@[i as int],
                ));
            }
            i = i + 1;
        }
        assert(keys@.subrange(0, keys@.len() as int) =~= keys@);
        r
    }

    /// The player of a playing sound.
    pub fn get_playing(&self, id: SoundId) -> (r: Option<&P>)
        ensures
            match r {
                Some(p) => self@.playing.contains_key(id.number()) && *p == self@.playing[id.number()],
                None => !self@.playing.contains_key(id.number()),
            },
    {
        self.playing_sounds.get(&id.0)
    }

    /// Get the number of playing sounds.
    pub fn playing_count(&self) -> (n: usize)
        ensures
            n == self@.playing.len(),
            self@.playing.dom().finite(),
    {
        self.playing_sounds.len()
    }

    /// Get stats about sounds: the number of queued sounds and the number of playing sounds.
    pub fn stats(&self) -> (r: (usize, usize))
        ensures
            r.0 == self@.queue.len(),
            r.1 == self@.playing.len(),
    {
        (self.sound_queue.len(), self.playing_sounds.len())
    }

    /// Takes all queued sounds out of the queue, in order.
    pub fn take_queue(&mut self) -> (q: Vec<QueuedSound<H, S>>)
        ensures
            q@ == old(self)@.queue,
            final(self)@.queue == Seq::<QueuedSound<H, S>>::empty(),
            final(self)@.playing == old(self)@.playing,
            final(self)@.next_id == old(self)@.next_id,
            final(self)@.playing.dom().finite(),
    {
        let mut q: Vec<QueuedSound<H, S>> = Vec::new();
        std::mem::swap(&mut q, &mut self.sound_queue);
        q
    }

    /// Applies what became of queued sounds, in order: sounds whose asset was not ready are
    /// queued again, sounds that started are recorded as playing on their player, and the
    /// others are dropped (see [`queue_after`] and [`playing_after`]).
    pub fn process_sound_queue(&mut self, outcomes: Vec<(QueuedSound<H, S>, QueueOutcome<P>)>)
        ensures
            final(self)@.queue == queue_after(old(self)@.queue, outcomes@),
            final(self)@.queue == old(self)@.queue + outcomes@.filter_map(
                |o: (QueuedSound<H, S>, QueueOutcome<P>)|
                    if o.1 is NotReady {
                        Some(o.0)
                    } else {
                        None
                    },
            ),
            final(self)@.playing == playing_after(old(self)@.playing, outcomes@),
            final(self)@.next_id == old(self)@.next_id,
            final(self)@.playing.dom().finite(),
    {
        let ghost all = outcomes@;
        proof {
            lemma_not_ready_sounds_wait_in_order(self.sound_queue@, all);
        }
        let mut rest = outcomes;
        let ghost q0 = self.sound_queue@;
        let ghost p0 = self.playing_sounds@;
        let total = rest.len();
        let mut done: usize = 0;
        while rest.len() > 0
            invariant
                total == all.len(),
                done <= all.len(),
                rest@ == all.subrange(done as int, all.len() as int),
                self.sound_queue@ == queue_after(q0, all.subrange(0, done as int)),
                self.playing_sounds@ == playing_after(p0, all.subrange(0, done as int)),
                self.next_id == old(self).next_id,
            decreases rest@.len(),
        {
            let ghost pre = all.subrange(0, done + 1);
            assert(pre.drop_last() =~= all.subrange(0, done as int));
            assert(pre.last() == all[done as int]);
            let (queued, outcome) = rest.remove(0);
            match outcome {
                QueueOutcome::NotReady => {
                    self.sound_queue.push(queued);
                },
                QueueOutcome::Failed => {},
                QueueOutcome::Started(p) => {
                    self.playing_sounds.insert(queued.id.0, p);
                },
            }
            assert(rest@ =~= all.subrange(done + 1, all.len() as int));
            done = done + 1;
        }
        assert(all.subrange(0, all.len() as int) =~= all);
    }

    /// Forgets the sounds that finished playing.
    pub fn cleanup_finished_sounds(&mut self, finished: &Vec<SoundId>)
        ensures
            final(self)@.playing == without_sounds(old(self)@.playing, finished@),
            final(self)@.queue == old(self)@.queue,
            final(self)@.next_id == old(self)@.next_id,
            final(self)@.playing.dom().finite(),
    {
        let ghost start = self.playing_sounds@;
        let mut i: usize = 0;
        while i < finished.len()
            invariant
                i <= finished@.len(),
                self.playing_sounds@ == without_sounds(start, finished@.subrange(0, i as int)),
                self.next_id == old(self).next_id,
                self.sound_queue@ == old(self).sound_queue@,
            decreases finished@.len() - i,
        {
            let id = finished[i];
            self.playing_sounds.remove(&id.0);
            proof {
                let f = |s: SoundId| s.number();
                assert(finished@.subrange(0, i + 1) =~= finished@.subrange(0, i as int).push(id));
                assert(finished@.subrange(0, i + 1).map_values(f) =~= finished@.subrange(
                    0,
                    i as int,
                ).map_values(f).push(id.number()));
                finished@.subrange(0, i as int).map_values(f).lemma_push_to_set_commute(
                    id.number(),
                );
                assert(finished@.subrange(0, i + 1).map_values(f).to_set() =~= finished@.subrange(
                    0,
                    i as int,
                ).map_values(f).to_set().insert(id.number()));
                assert(self.playing_sounds@ =~= without_sounds(
                    start,
                    finished@.subrange(0, i + 1),
                ));
            }
            i = i + 1;
        }
        assert(finished@.subrange(0, finished@.len() as int) =~= finished@);
    }
}

/// A sound that started playing plays on its player until it is stopped: stopping it hands
/// back that player (the playing map holds it), after which the sound is no longer playing, so
/// stopping it again reports it missing. A sound whose asset was not ready is queued again, at
/// the end of the queue.
pub proof fn lemma_started_sound_plays_until_stopped<H, S, P>(
    playing: Map<u32, P>,
    queue: Seq<QueuedSound<H, S>>,
    outcomes: Seq<(QueuedSound<H, S>, QueueOutcome<P>)>,
)
    requires
        outcomes.len() > 0,
    ensures
        outcomes.last().1 matches QueueOutcome::Started(p) ==> ({
            let m = playing_after(playing, outcomes);
            let n = outcomes.last().0.id.number();
            &&& m.contains_key(n)
            &&& m[n] == p
            &&& !m.remove(n).contains_key(n)
        }),
        outcomes.last().1 is NotReady ==> queue_after(queue, outcomes).last() == outcomes.last().0,
{
}

/// The queue after processing is the old queue followed by exactly the sounds whose asset was
/// not ready, in the order of the outcomes: none is lost and none is queued twice.
pub proof fn lemma_not_ready_sounds_wait_in_order<H, S, P>(
    queue: Seq<QueuedSound<H, S>>,
    outcomes: Seq<(QueuedSound<H, S>, QueueOutcome<P>)>,
)
    ensures
        queue_after(queue, outcomes) == queue + outcomes.filter_map(
            |o: (QueuedSound<H, S>, QueueOutcome<P>)|
                if o.1 is NotReady {
                    Some(o.0)
                } else {
                    None
                },
        ),
    decreases outcomes.len(),
{
    let f = |o: (QueuedSound<H, S>, QueueOutcome<P>)|
        if o.1 is NotReady {
            Some(o.0)
        } else {
            None
        };
    if outcomes.len() == 0 {
        assert(queue + outcomes.filter_map(f) =~= queue);
    } else {
        lemma_not_ready_sounds_wait_in_order(queue, outcomes.drop_last());
        let rest = outcomes.drop_last().filter_map(f);
        if outcomes.last().1 is NotReady {
            assert((queue + rest).push(outcomes.last().0) =~= queue + (rest + seq![
                outcomes.last().0,
            ]));
        }
    }
}

/// After processing, a sound plays exactly when it played before or some outcome started it;
/// a sound that some outcome started plays on the player of the last outcome that started it,
/// and any other playing sound keeps its player.
pub proof fn lemma_started_sounds_play<H, S, P>(
    playing: Map<u32, P>,
    outcomes: Seq<(QueuedSound<H, S>, QueueOutcome<P>)>,
)
    ensures
        forall|n: u32|
            #![trigger playing_after(playing, outcomes).contains_key(n)]
            playing_after(playing, outcomes).contains_key(n) <==> (playing.contains_key(n)
                || exists|i: int|
                0 <= i < outcomes.len() && (#[trigger] outcomes[i]).1 is Started
                    && outcomes[i].0.id.number() == n),
        forall|i: int|
            #![trigger outcomes[i]]
            0 <= i < outcomes.len() && outcomes[i].1 is Started && (forall|j: int|
                i < j < outcomes.len() ==> !((#[trigger] outcomes[j]).1 is Started
                    && outcomes[j].0.id.number() == outcomes[i].0.id.number()))
                ==> playing_after(playing, outcomes)[outcomes[i].0.id.number()]
                == outcomes[i].1->Started_0,
        forall|n: u32|
            #![trigger playing_after(playing, outcomes)[n]]
            playing.contains_key(n) && !(exists|i: int|
                0 <= i < outcomes.len() && (#[trigger] outcomes[i]).1 is Started
                    && outcomes[i].0.id.number() == n) ==> playing_after(playing, outcomes)[n]
                == playing[n],
    decreases outcomes.len(),
{
    if outcomes.len() > 0 {
        let init = outcomes.drop_last();
        let last = outcomes.last();
        let m = outcomes.len() - 1;
        lemma_started_sounds_play(playing, init);
        let before = playing_after(playing, init);
        let after = playing_after(playing, outcomes);
        assert forall|i: int| 0 <= i < init.len() implies init[i] == outcomes[i] by {}
        assert forall|n: u32|
            #![trigger playing_after(playing, outcomes).contains_key(n)]
            playing_after(playing, outcomes).contains_key(n) <==> (playing.contains_key(n)
                || exists|i: int|
                0 <= i < outcomes.len() && (#[trigger] outcomes[i]).1 is Started
                    && outcomes[i].0.id.number() == n) by {
            if exists|i: int|
                0 <= i < outcomes.len() && (#[trigger] outcomes[i]).1 is Started
                    && outcomes[i].0.id.number() == n {
                let i = choose|i: int|
                    0 <= i < outcomes.len() && (#[trigger] outcomes[i]).1 is Started
                        && outcomes[i].0.id.number() == n;
                if i < m {
                    assert(init[i] == outcomes[i]);
                    assert(before.contains_key(n));
                }
            }
            if before.contains_key(n) && !playing.contains_key(n) {
                let i = choose|i: int|
                    0 <= i < init.len() && (#[trigger] init[i]).1 is Started
                        && init[i].0.id.number() == n;
                assert(outcomes[i] == init[i]);
            }
        }
        assert forall|i: int|
            #![trigger outcomes[i]]
            0 <= i < outcomes.len() && outcomes[i].1 is Started && (forall|j: int|
                i < j < outcomes.len() ==> !((#[trigger] outcomes[j]).1 is Started
                    && outcomes[j].0.id.number() == outcomes[i].0.id.number()))
                implies after[outcomes[i].0.id.number()] == outcomes[i].1->Started_0 by {
            if i < m {
                assert(init[i] == outcomes[i]);
                assert(!(outcomes[m].1 is Started && outcomes[m].0.id.number()
                    == outcomes[i].0.id.number()));
                assert forall|j: int| i < j < init.len() implies !((#[trigger] init[j]).1 is Started
                    && init[j].0.id.number() == init[i].0.id.number()) by {
                    assert(init[j] == outcomes[j]);
                }
            }
        }
        assert forall|n: u32|
            #![trigger playing_after(playing, outcomes)[n]]
            playing.contains_key(n) && !(exists|i: int|
                0 <= i < outcomes.len() && (#[trigger] outcomes[i]).1 is Started
                    && outcomes[i].0.id.number() == n) implies after[n] == playing[n] by {
            assert(!(outcomes[m].1 is Started && outcomes[m].0.id.number() == n));
            if exists|i: int|
                0 <= i < init.len() && (#[trigger] init[i]).1 is Started && init[i].0.id.number()
                    == n {
                let i = choose|i: int|
                    0 <= i < init.len() && (#[trigger] init[i]).1 is Started
                        && init[i].0.id.number() == n;
                assert(outcomes[i] == init[i]);
            }
        }
    }
}

} // verus!
