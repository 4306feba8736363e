//! The sounds that the audio engine holds: one handle per persistent channel
//! and a list of the sound effects still playing.
use vstd::prelude::*;
use crate::audio::{PersistentAudioKind, StopTarget};

verus! {

/// What the engine holds: the handle of each persistent channel, if a sound
/// plays there, and the handles of the sound effects.
pub struct ChannelsView<H> {
    pub bgm: Option<H>,
    pub bgs: Option<H>,
    pub me: Option<H>,
    pub se: Seq<H>,
}

impl<H> ChannelsView<H> {
    /// The handle that the channel `kind` holds.
    pub open spec fn slot(self, kind: PersistentAudioKind) -> Option<H> {
        match kind {
            PersistentAudioKind::Bgm => self.bgm,
            PersistentAudioKind::Bgs => self.bgs,
            PersistentAudioKind::Me => self.me,
        }
    }

    /// These channels with `kind` holding `handle` instead.
    pub open spec fn with_slot(self, kind: PersistentAudioKind, handle: Option<H>) -> Self {
        match kind {
            PersistentAudioKind::Bgm => ChannelsView { bgm: handle, ..self },
            PersistentAudioKind::Bgs => ChannelsView { bgs: handle, ..self },
            PersistentAudioKind::Me => ChannelsView { me: handle, ..self },
        }
    }
}

/// The handles of the sounds that the engine plays, generic over the handle
/// type of the audio backend.
pub struct AudioChannels<H> {
    bgm: Option<H>,
    bgs: Option<H>,
    me: Option<H>,
    se: Vec<H>,
}

impl<H> View for AudioChannels<H> {
    type V = ChannelsView<H>;

    closed spec fn view(&self) -> ChannelsView<H> {
        ChannelsView { bgm: self.bgm, bgs: self.bgs, me: self.me, se: self.se@ }
    }
}

impl<H> AudioChannels<H> {
    /// Channels that hold nothing.
    pub fn new() -> (r: Self)
        ensures
            r@.bgm is None,
            r@.bgs is None,
            r@.me is None,
            r@.se == Seq::<H>::empty(),
    {
        AudioChannels { bgm: None, bgs: None, me: None, se: Vec::new() }
    }

    /// Takes the handle out of the channel `kind`, which then holds nothing.
    pub fn take(&mut self, kind: PersistentAudioKind) -> (r: Option<H>)
        ensures
            r == old(self)@.slot(kind),
            final(self)@ == old(self)@.with_slot(kind, None),
    {
        match kind {
            PersistentAudioKind::Bgm => self.bgm.take(),
            PersistentAudioKind::Bgs => self.bgs.take(),
            PersistentAudioKind::Me => self.me.take(),
        }
    }

    /// Puts `handle` into the channel `kind`.
    pub fn put(&mut self, kind: PersistentAudioKind, handle: H)
        ensures
            final(self)@ == old(self)@.with_slot(kind, Some(handle)),
    {
        match kind {
            PersistentAudioKind::Bgm => {
                self.bgm = Some(handle);
            },
            PersistentAudioKind::Bgs => {
                self.bgs = Some(handle);
            },
            PersistentAudioKind::Me => {
                self.me = Some(handle);
            },
        }
    }

    /// Adds the handle of a sound effect.
    pub fn push_sound_effect(&mut self, handle: H)
        ensures
            final(self)@ == (ChannelsView { se: old(self)@.se.push(handle), ..old(self)@ }),
    {
        self.se.push(handle);
    }

    /// Takes out the handles of all sound effects, in the order they were added.
    pub fn drain_sound_effects(&mut self) -> (r: Vec<H>)
        ensures
            r@ == old(self)@.se,
            final(self)@ == (ChannelsView { se: Seq::<H>::empty(), ..old(self)@ }),
    {
        let mut drained: Vec<H> = Vec::new();
        std::mem::swap(&mut drained, &mut self.se);
        drained
    }

    /// The handles of the sound effects, in the order they were added.
    pub fn sound_effects(&self) -> (r: &Vec<H>)
        ensures
            r@ == self@.se,
    {
        &self.se
    }

    /// Takes out every handle that `targets` stop, in order: for a channel
    /// its handle, if it holds one; for the sound effects all of theirs.
    pub fn take_for_stop(&mut self, targets: &Vec<StopTarget>) -> (r: Vec<H>)
        ensures
            final(self)@ == stop_outcome(old(self)@, targets@).0,
            r@ == stop_outcome(old(self)@, targets@).1,
    {
        let ghost start = self@;
        let mut taken: Vec<H> = Vec::new();
        let mut i: usize = 0;
        assert(targets@.skip(0) =~= targets@);
        while i < targets.len()
            invariant
                i <= targets.len(),
                stop_outcome(start, targets@) == (stop_outcome(self@, targets@.skip(i as int)).0,
                    taken@ + stop_outcome(self@, targets@.skip(i as int)).1),
            decreases targets.len() - i,
        {
            let ghost before = self@;
            let ghost before_taken = taken@;
            let ghost rest = targets@.skip(i as int);
            assert(rest.drop_first() =~= targets@.skip(i + 1));
            assert(rest[0] == targets@[i as int]);
            match targets[i] {
                StopTarget::Persistent(kind) => {
                    if let Some(handle) = self.take(kind) {
                        taken.push(handle);
                    }
                },
                StopTarget::SoundEffects => {
                    let mut effects = self.drain_sound_effects();
                    taken.append(&mut effects);
                },
            }
            proof {
                let step = stop_step(before, rest[0]);
                assert(self@ == step.0);
                assert(taken@ == before_taken + step.1);
                let tail = stop_outcome(step.0, rest.drop_first());
                assert(before_taken + (step.1 + tail.1) =~= taken@ + tail.1);
            }
            i += 1;
        }
        assert(targets@.skip(i as int) =~= Seq::<StopTarget>::empty());
        assert(taken@ + Seq::<H>::empty() =~= taken@);
        taken
    }

    /// Keeps the handles of the sound effects whose entry in `keep` is true,
    /// in order, and drops the others.
    pub fn retain_sound_effects(&mut self, keep: &Vec<bool>)
        requires
            keep@.len() == old(self)@.se.len(),
        ensures
            final(self)@ == (ChannelsView {
                se: kept(old(self)@.se, keep@),
                ..old(self)@
            }),
    {
        let mut old_se: Vec<H> = Vec::new();
        std::mem::swap(&mut old_se, &mut self.se);
        let ghost all = old_se@;
        let mut rest: Vec<H> = Vec::new();
        let n = old_se.len();
        assert(all.take(0) =~= Seq::<H>::empty());
        assert(keep@.take(0) =~= Seq::<bool>::empty());
        let mut i: usize = 0;
        for h in it: old_se
            invariant
                n == all.len() == keep@.len(),
                i == it.index(),
                it.seq() == all,
                rest@ == kept(all.take(it.index() as int), keep@.take(it.index() as int)),
        {
            assert(all.take(i + 1).drop_last() =~= all.take(i as int));
            assert(keep@.take(i + 1).drop_last() =~= keep@.take(i as int));
            if keep[i] {
                rest.push(h);
            }
            i += 1;
        }
        assert(all.take(n as int) =~= all);
        assert(keep@.take(n as int) =~= keep@);
        self.se = rest;
    }
}

/// The items of `items` whose entry in `keep` is true, in order.
pub open spec fn kept<H>(items: Seq<H>, keep: Seq<bool>) -> Seq<H>
    decreases items.len(),
{
    if items.len() == 0 || keep.len() == 0 {
        Seq::empty()
    } else if keep.last() {
        kept(items.drop_last(), keep.drop_last()).push(items.last())
    } else {
        kept(items.drop_last(), keep.drop_last())
    }
}


/// The channels are independent: a channel holds what was last put into it,
/// and putting into or taking from one channel leaves the other channels and
/// the sound effects as they were.
pub proof fn channels_are_independent<H>(
    channels: ChannelsView<H>,
    kind: PersistentAudioKind,
    other: PersistentAudioKind,
    handle: Option<H>,
)
    requires
        kind != other,
    ensures
        channels.with_slot(kind, handle).slot(kind) == handle,
        channels.with_slot(kind, handle).slot(other) == channels.slot(other),
        channels.with_slot(kind, handle).se == channels.se,
{
}


/// The handle that an optional slot holds, as a sequence of none or one.
pub open spec fn slot_handles<H>(slot: Option<H>) -> Seq<H> {
    match slot {
        Some(h) => seq![h],
        None => Seq::empty(),
    }
}

/// What stopping `target` leaves in `channels`, and the handles it stops.
pub open spec fn stop_step<H>(channels: ChannelsView<H>, target: StopTarget) -> (ChannelsView<H>, Seq<H>) {
    match target {
        StopTarget::Persistent(kind) => (
            channels.with_slot(kind, None),
            slot_handles(channels.slot(kind)),
        ),
        StopTarget::SoundEffects => (ChannelsView { se: Seq::empty(), ..channels }, channels.se),
    }
}

/// What stopping `targets` in order leaves in `channels`, and the handles it
/// stops, in the order they are stopped.
pub open spec fn stop_outcome<H>(channels: ChannelsView<H>, targets: Seq<StopTarget>) -> (
    ChannelsView<H>,
    Seq<H>,
)
    decreases targets.len(),
{
    if targets.len() == 0 {
        (channels, Seq::empty())
    } else {
        let step = stop_step(channels, targets[0]);
        let rest = stop_outcome(step.0, targets.drop_first());
        (rest.0, step.1 + rest.1)
    }
}

/// The targets of stopping everything: the music effect, the background
/// music, the background sound, then the sound effects.
pub open spec fn all_targets() -> Seq<StopTarget> {
    seq![
        StopTarget::Persistent(PersistentAudioKind::Me),
        StopTarget::Persistent(PersistentAudioKind::Bgm),
        StopTarget::Persistent(PersistentAudioKind::Bgs),
        StopTarget::SoundEffects,
    ]
}

/// Stopping everything stops each handle held exactly once, the music
/// effect's, then the background music's, then the background sound's, then
/// the sound effects' in order; it leaves every channel empty, and stopping
/// everything again stops nothing.
pub proof fn stopping_all_empties_channels<H>(channels: ChannelsView<H>)
    ensures
        stop_outcome(channels, all_targets()).1 == slot_handles(channels.me) + slot_handles(
            channels.bgm,
        ) + slot_handles(channels.bgs) + channels.se,
        stop_outcome(channels, all_targets()).0.bgm is None,
        stop_outcome(channels, all_targets()).0.bgs is None,
        stop_outcome(channels, all_targets()).0.me is None,
        stop_outcome(channels, all_targets()).0.se == Seq::<H>::empty(),
        stop_outcome(stop_outcome(channels, all_targets()).0, all_targets()).1 == Seq::<H>::empty(),
{
    reveal_with_fuel(stop_outcome, 5);
    let ts = all_targets();
    assert(ts.drop_first().drop_first().drop_first().drop_first() =~= Seq::<StopTarget>::empty());
    let once = stop_outcome(channels, ts);
    assert(once.1 =~= slot_handles(channels.me) + slot_handles(channels.bgm) + slot_handles(
        channels.bgs,
    ) + channels.se);
    let twice = stop_outcome(once.0, ts);
    assert(twice.1 =~= Seq::<H>::empty());
}


/// Stopping one persistent channel stops exactly the handle it holds, if
/// any, empties that channel, and leaves every other channel and the sound
/// effects as they were.
pub proof fn stopping_one_channel_leaves_the_others<H>(
    channels: ChannelsView<H>,
    kind: PersistentAudioKind,
    other: PersistentAudioKind,
)
    requires
        kind != other,
    ensures
        ({
            let (after, stopped) = stop_outcome(channels, seq![StopTarget::Persistent(kind)]);
            &&& channels.slot(kind) matches Some(h) ==> stopped == seq![h]
            &&& channels.slot(kind) is None ==> stopped.len() == 0
            &&& after.slot(kind) is None
            &&& after.slot(other) == channels.slot(other)
            &&& after.se == channels.se
        }),
{
    reveal_with_fuel(stop_outcome, 2);
    let ts = seq![StopTarget::Persistent(kind)];
    assert(ts.drop_first() =~= Seq::<StopTarget>::empty());
    let (after, stopped) = stop_outcome(channels, ts);
    assert(stopped =~= slot_handles(channels.slot(kind)));
}

/// Stopping the sound effects stops each of them once, in the order they were
/// added, empties their list, and leaves every persistent channel as it was.
pub proof fn stopping_sound_effects_leaves_the_channels<H>(
    channels: ChannelsView<H>,
    kind: PersistentAudioKind,
)
    ensures
        ({
            let (after, stopped) = stop_outcome(channels, seq![StopTarget::SoundEffects]);
            &&& stopped == channels.se
            &&& after.se.len() == 0
            &&& after.slot(kind) == channels.slot(kind)
        }),
{
    reveal_with_fuel(stop_outcome, 2);
    let ts = seq![StopTarget::SoundEffects];
    assert(ts.drop_first() =~= Seq::<StopTarget>::empty());
    let (after, stopped) = stop_outcome(channels, ts);
    assert(stopped =~= channels.se);
}

} // verus!
