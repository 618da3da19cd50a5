//! The decisions of the supervisor loop.
//!
//! The loop itself waits on the capture stream and talks to the audio
//! subsystem. What it does with each captured block is decided here: the
//! state of every speaker is advanced, each group's gain is worked out and
//! held against the gain last committed, and the result is a list of writes
//! to carry out. The write that keeps the volume unlocked is on that list
//! only when nothing went wrong.

use vstd::prelude::*;
use vstd::slice::slice_to_vec;
use crate::blackbox::{ring_after, Blackbox, Block};
use crate::config::{is_key_fault, key_fault};
use crate::controls::{is_control_fault, UNLOCK_MAGIC};
use crate::fault::{ControlError, Fault, KeyError};
use crate::globals::Globals;
use crate::speaker::{Speaker, SpeakerState};
use crate::units::{DECAY_ONE, MAX_SAMPLES};

verus! {

/// A write to carry out.
#[derive(Clone, Copy, Debug, PartialEq, Eq, Structural)]
pub enum Action {
    /// Set the volume of one speaker: the group's number, the speaker's
    /// place within the group, and the gain in millionths of a decibel.
    SetVolume { group: usize, speaker: usize, gain: i64 },
    /// Write the unlock value, which keeps the volume cap lifted for one
    /// more watchdog interval.
    Unlock { magic: i32 },
}

/// Where a group stands.
#[derive(Clone, Copy, Debug, PartialEq, Eq, Structural)]
pub enum Phase {
    /// No gain has been committed yet: the next one will be, whatever it is.
    Initializing,
    /// The gain last committed is no reduction.
    Nominal,
    /// The gain last committed is a reduction.
    Limiting,
}

/// The speakers that share one gain.
#[derive(Debug)]
pub struct SpeakerGroup {
    /// The group's number in the configuration.
    pub index: usize,
    pub speakers: Vec<Speaker>,
    /// The gain last committed, if any was.
    pub gain: Option<i64>,
    /// Whether the group has ever been at no reduction.
    pub was_nominal: bool,
}

/// What a captured block led to: the writes to carry out, in order, and
/// the fault that ended the block, if one did.
#[derive(Debug)]
pub struct Outcome {
    pub actions: Vec<Action>,
    pub fault: Option<Fault>,
}

/// Whether two speakers differ in nothing but their running state.
pub open spec fn same_setup(a: Speaker, b: Speaker) -> bool {
    a.name == b.name && a.group == b.group && a.cal == b.cal && a.g == b.g
}

/// The index of the first of the first `n` speakers whose block ends in a
/// fault.
pub open spec fn first_fault(speakers: Seq<Speaker>, frame: Seq<i16>, rate: int, n: int) -> Option<
    int,
>
    decreases n,
{
    if n <= 0 {
        None
    } else {
        match first_fault(speakers, frame, rate, n - 1) {
            Some(j) => Some(j),
            None => if speakers[n - 1].faults(frame, rate) {
                Some(n - 1)
            } else {
                None
            },
        }
    }
}

/// The lowest of the gains that the first `n` speakers ask for after a
/// block.
pub open spec fn lowest_gain(speakers: Seq<Speaker>, frame: Seq<i16>, rate: int, n: int) -> int
    decreases n,
{
    if n <= 1 {
        speakers[0].ran(frame, rate).gain as int
    } else {
        let rest = lowest_gain(speakers, frame, rate, n - 1);
        let own = speakers[n - 1].ran(frame, rate).gain as int;
        if own < rest {
            own
        } else {
            rest
        }
    }
}

/// The group `after` is the group `before` once the block has ended in a
/// fault of one of its speakers: those before the first whose block ends
/// in a fault have run, that one has failed with the fault, and those
/// after it are as they were. Nothing is committed.
pub open spec fn group_failed(
    before: SpeakerGroup,
    after: SpeakerGroup,
    fault: Fault,
    frame: Seq<i16>,
    rate: int,
) -> bool {
    &&& after.index == before.index
    &&& after.gain == before.gain
    &&& after.was_nominal == before.was_nominal
    &&& after.speakers@.len() == before.speakers@.len()
    &&& first_fault(before.speakers@, frame, rate, before.speakers@.len() as int) matches Some(at)
    &&& 0 <= at < before.speakers@.len()
    &&& fault matches Fault::Model { .. }
    &&& before.speakers@[at].failed(after.speakers@[at].s, fault, frame, rate)
    &&& forall|j: int|
        0 <= j < before.speakers@.len() ==> same_setup(
            #[trigger] after.speakers@[j],
            before.speakers@[j],
        )
    &&& forall|j: int|
        0 <= j < at ==> (#[trigger] after.speakers@[j]).s == before.speakers@[j].ran(frame, rate)
    &&& forall|j: int|
        at < j < before.speakers@.len() ==> #[trigger] after.speakers@[j] == before.speakers@[j]
}

/// Whether a gain trips the debugging threshold: a threshold is set, the
/// group has been at no reduction before, and the reduction is now beyond
/// the threshold.
pub open spec fn trips_debug(gain: int, was_nominal: bool, max_reduction: Option<i64>) -> bool {
    max_reduction matches Some(most) && was_nominal && gain < -most
}

impl SpeakerGroup {
    /// The settings that the speakers of the group share.
    pub open spec fn settings(&self) -> Globals {
        self.speakers@[0].g
    }

    /// The group has speakers, each usable, of this group, and all with
    /// the same settings.
    pub open spec fn wf(&self) -> bool {
        &&& self.speakers@.len() > 0
        &&& forall|j: int|
            0 <= j < self.speakers@.len() ==> {
                &&& (#[trigger] self.speakers@[j]).wf()
                &&& self.speakers@[j].g == self.settings()
                &&& self.speakers@[j].group == self.index
            }
    }

    /// Where the group stands.
    pub open spec fn phase_of(&self) -> Phase {
        match self.gain {
            None => Phase::Initializing,
            Some(gain) => if gain == 0 {
                Phase::Nominal
            } else {
                Phase::Limiting
            },
        }
    }

    /// Tells where the group stands.
    pub fn phase(&self) -> (r: Phase)
        ensures
            r == self.phase_of(),
    {
        match self.gain {
            None => Phase::Initializing,
            Some(gain) => if gain == 0 {
                Phase::Nominal
            } else {
                Phase::Limiting
            },
        }
    }

    /// Whether the block of one of the speakers ends in a fault.
    pub open spec fn fails(&self, frame: Seq<i16>, rate: int) -> bool {
        first_fault(self.speakers@, frame, rate, self.speakers@.len() as int) is Some
    }

    /// The gain that the group asks for after a block: the lowest that
    /// one of its speakers asks for.
    pub open spec fn gain_after(&self, frame: Seq<i16>, rate: int) -> int {
        lowest_gain(self.speakers@, frame, rate, self.speakers@.len() as int)
    }

    /// The writes that set the volume of each speaker to `gain`.
    pub open spec fn volume_writes(&self, gain: i64) -> Seq<Action> {
        Seq::new(
            self.speakers@.len(),
            |j: int| Action::SetVolume { group: self.index, speaker: j as usize, gain },
        )
    }

    /// The writes that commit the gain `gain`: one per speaker if it
    /// differs from the gain last committed, none if it does not.
    pub open spec fn commit_of(&self, gain: i64) -> Seq<Action> {
        if self.gain == Some(gain) {
            Seq::empty()
        } else {
            self.volume_writes(gain)
        }
    }

    /// Appends to `actions` the writes that set each speaker's volume to
    /// `gain`.
    pub fn push_volume_writes(&self, gain: i64, actions: &mut Vec<Action>)
        ensures
            final(actions)@ == old(actions)@ + self.volume_writes(gain),
    {
        let ghost before = actions@;
        let n: usize = self.speakers.len();
        let mut j: usize = 0;
        while j < n
            invariant
                j <= n,
                n == self.speakers@.len(),
                actions@ == before + self.volume_writes(gain).take(j as int),
            decreases n - j,
        {
            actions.push(Action::SetVolume { group: self.index, speaker: j, gain });
            proof {
                assert(actions@ =~= before + self.volume_writes(gain).take(j + 1));
            }
            j = j + 1;
        }
        proof {
            assert(self.volume_writes(gain).take(n as int) =~= self.volume_writes(gain));
        }
    }

    /// Runs one block through the model of each speaker, in order, and
    /// returns the lowest gain asked for. The first speaker whose block
    /// ends in a fault ends the run: those before it have run, those after
    /// it have not.
    pub fn run(&mut self, frame: &[i16], rate: u32) -> (r: Result<i64, Fault>)
        requires
            old(self).wf(),
            rate > 0,
            frame@.len() <= MAX_SAMPLES,
            (frame@.len() as int) % (old(self).settings().channels as int) == 0,
        ensures
            final(self).index == old(self).index,
            final(self).gain == old(self).gain,
            final(self).was_nominal == old(self).was_nominal,
            final(self).speakers@.len() == old(self).speakers@.len(),
            final(self).wf(),
            final(self).settings() == old(self).settings(),
            forall|j: int|
                0 <= j < old(self).speakers@.len() ==> same_setup(
                    #[trigger] final(self).speakers@[j],
                    old(self).speakers@[j],
                ),
            match r {
                Ok(gain) => {
                    &&& !old(self).fails(frame@, rate as int)
                    &&& gain == old(self).gain_after(frame@, rate as int)
                    &&& gain <= 0
                    &&& forall|j: int|
                        0 <= j < old(self).speakers@.len() ==> (
                        #[trigger] final(self).speakers@[j]).s == old(self).speakers@[j].ran(
                            frame@,
                            rate as int,
                        )
                },
                Err(fault) => group_failed(*old(self), *final(self), fault, frame@, rate as int),
            },
    {
        let n: usize = self.speakers.len();
        let mut lowest: i64 = 0;
        let mut j: usize = 0;
        while j < n
            invariant
                j <= n,
                n == self.speakers@.len(),
                n == old(self).speakers@.len(),
                self.index == old(self).index,
                self.gain == old(self).gain,
                self.was_nominal == old(self).was_nominal,
                old(self).wf(),
                self.wf(),
                self.settings() == old(self).settings(),
                rate > 0,
                frame@.len() <= MAX_SAMPLES,
                (frame@.len() as int) % (old(self).settings().channels as int) == 0,
                forall|i: int|
                    0 <= i < n ==> same_setup(#[trigger] self.speakers@[i], old(self).speakers@[i]),
                forall|i: int|
                    0 <= i < j ==> (#[trigger] self.speakers@[i]).s == old(self).speakers@[i].ran(
                        frame@,
                        rate as int,
                    ),
                forall|i: int| j <= i < n ==> #[trigger] self.speakers@[i] == old(self).speakers@[i],
                first_fault(old(self).speakers@, frame@, rate as int, j as int) is None,
                j > 0 ==> lowest == lowest_gain(old(self).speakers@, frame@, rate as int, j as int),
                lowest <= 0,
            decreases n - j,
        {
            let ghost before = self.speakers@;
            assert(before[j as int].wf());
            assert(before[j as int] == old(self).speakers@[j as int]);
            match self.speakers[j].run_model(frame, rate) {
                Ok(gain) => {
                    if j == 0 || gain < lowest {
                        lowest = gain;
                    }
                },
                Err(fault) => {
                    proof {
                        assert(forall|i: int|
                            0 <= i < n && i != j ==> self.speakers@[i] == before[i]);
                        lemma_first_fault_stays(
                            old(self).speakers@,
                            frame@,
                            rate as int,
                            j + 1,
                            n as int,
                        );
                    }
                    return Err(fault);
                },
            }
            proof {
                assert(forall|i: int| 0 <= i < n && i != j ==> self.speakers@[i] == before[i]);
            }
            j = j + 1;
        }
        Ok(lowest)
    }
}

/// The lowest gain is the gain that one of the speakers asks for.
pub proof fn lemma_lowest_is_asked_for(speakers: Seq<Speaker>, frame: Seq<i16>, rate: int, n: int)
    requires
        1 <= n <= speakers.len(),
    ensures
        exists|j: int|
            0 <= j < n && lowest_gain(speakers, frame, rate, n) == (#[trigger] speakers[j]).ran(
                frame,
                rate,
            ).gain,
        forall|j: int|
            0 <= j < n ==> lowest_gain(speakers, frame, rate, n) <= (#[trigger] speakers[j]).ran(
                frame,
                rate,
            ).gain,
    decreases n,
{
    if n > 1 {
        lemma_lowest_is_asked_for(speakers, frame, rate, n - 1);
        let rest = lowest_gain(speakers, frame, rate, n - 1);
        let own = speakers[n - 1].ran(frame, rate).gain as int;
        if own < rest {
            assert(lowest_gain(speakers, frame, rate, n) == speakers[n - 1].ran(frame, rate).gain);
        } else {
            let j = choose|j: int|
                0 <= j < n - 1 && rest == (#[trigger] speakers[j]).ran(frame, rate).gain;
            assert(lowest_gain(speakers, frame, rate, n) == speakers[j].ran(frame, rate).gain);
        }
    } else {
        assert(lowest_gain(speakers, frame, rate, n) == speakers[0].ran(frame, rate).gain);
    }
}

/// Once a speaker has ended in a fault, the first that did stays the answer.
pub proof fn lemma_first_fault_stays(
    speakers: Seq<Speaker>,
    frame: Seq<i16>,
    rate: int,
    k: int,
    n: int,
)
    requires
        0 <= k <= n,
        first_fault(speakers, frame, rate, k) is Some,
    ensures
        first_fault(speakers, frame, rate, n) == first_fault(speakers, frame, rate, k),
        0 <= first_fault(speakers, frame, rate, k)->0 < k,
    decreases n,
{
    if k < n {
        lemma_first_fault_stays(speakers, frame, rate, k, n - 1);
    } else if first_fault(speakers, frame, rate, k - 1) is Some {
        lemma_first_fault_stays(speakers, frame, rate, k - 1, k - 1);
    }
}

/// The speakers among `speakers` that belong to group `index`, in order.
pub open spec fn members(speakers: Seq<Speaker>, index: usize) -> Seq<Speaker>
    decreases speakers.len(),
{
    if speakers.len() == 0 {
        Seq::empty()
    } else if speakers.last().group == index {
        members(speakers.drop_last(), index).push(speakers.last())
    } else {
        members(speakers.drop_last(), index)
    }
}

/// Whether one of the groups has the number `index`.
pub open spec fn has_group(groups: Seq<SpeakerGroup>, index: usize) -> bool {
    exists|p: int| 0 <= p < groups.len() && (#[trigger] groups[p]).index == index
}

/// The groups hold exactly the speakers of `speakers`, each in its group
/// and in the order given.
pub open spec fn grouped(groups: Seq<SpeakerGroup>, speakers: Seq<Speaker>) -> bool {
    &&& forall|p: int|
        0 <= p < groups.len() ==> (#[trigger] groups[p]).speakers@ == members(
            speakers,
            groups[p].index,
        )
    &&& forall|j: int|
        0 <= j < speakers.len() ==> has_group(groups, (#[trigger] speakers[j]).group)
}

/// The groups stand in the order of their numbers, no number twice.
pub open spec fn ascending(groups: Seq<SpeakerGroup>) -> bool {
    forall|p: int, q: int| 0 <= p < q < groups.len() ==> groups[p].index < groups[q].index
}

/// The writes that preset the volume of every speaker of the first `n`
/// groups to no reduction.
pub open spec fn presets(groups: Seq<SpeakerGroup>, n: int) -> Seq<Action>
    decreases n,
{
    if n <= 0 {
        Seq::empty()
    } else {
        presets(groups, n - 1) + groups[n - 1].volume_writes(0)
    }
}

/// A group that no speaker of `speakers` belongs to has no members.
proof fn lemma_no_members(speakers: Seq<Speaker>, index: usize)
    requires
        forall|j: int| 0 <= j < speakers.len() ==> speakers[j].group != index,
    ensures
        members(speakers, index) == Seq::<Speaker>::empty(),
    decreases speakers.len(),
{
    if speakers.len() > 0 {
        lemma_no_members(speakers.drop_last(), index);
    }
}

/// All that the supervisor keeps between blocks.
pub struct Supervisor {
    pub globals: Globals,
    /// The groups, in the order of their numbers.
    pub groups: Vec<SpeakerGroup>,
    /// The playback rate last reported, in hertz.
    pub sample_rate: i32,
    /// The reduction beyond which to give up, for debugging, in millionths
    /// of a decibel.
    pub max_reduction: Option<i64>,
    pub blackbox: Option<Blackbox>,
}

impl Supervisor {
    /// The settings are usable, and the groups are usable, share them, and
    /// stand in order.
    pub open spec fn wf(&self) -> bool {
        &&& self.globals.wf()
        &&& forall|i: int|
            0 <= i < self.groups@.len() ==> (#[trigger] self.groups@[i]).wf()
                && self.groups@[i].settings() == self.globals
        &&& ascending(self.groups@)
    }

    /// The supervisor at start.
    ///
    /// Each speaker takes two channels of a frame: more speakers than half
    /// the channels is a fault of the configuration. The speakers are put
    /// into their groups, the groups in the order of their numbers. The
    /// first write unlocks the volume. After a cold boot every speaker is
    /// then preset to no reduction, and that is the gain committed; after
    /// a warm boot nothing is committed, so that the first block will.
    pub fn new(
        globals: Globals,
        speakers: Vec<Speaker>,
        sample_rate: i32,
        cold_boot: bool,
        max_reduction: Option<i64>,
        blackbox: Option<Blackbox>,
    ) -> (r: Result<(Supervisor, Vec<Action>), Fault>)
        requires
            globals.wf(),
            forall|j: int|
                0 <= j < speakers@.len() ==> (#[trigger] speakers@[j]).wf() && speakers@[j].g
                    == globals,
        ensures
            match r {
                Err(fault) => 2 * speakers@.len() > globals.channels && is_key_fault(
                    fault,
                    "Globals"@,
                    "channels"@,
                    KeyError::Inconsistent,
                ),
                Ok((supervisor, actions)) => {
                    &&& 2 * speakers@.len() <= globals.channels
                    &&& supervisor.wf()
                    &&& supervisor.globals == globals
                    &&& supervisor.sample_rate == sample_rate
                    &&& supervisor.max_reduction == max_reduction
                    &&& supervisor.blackbox == blackbox
                    &&& grouped(supervisor.groups@, speakers@)
                    &&& forall|p: int|
                        0 <= p < supervisor.groups@.len() ==> (
                        #[trigger] supervisor.groups@[p]).gain == (if cold_boot {
                            Some(0i64)
                        } else {
                            None
                        }) && supervisor.groups@[p].was_nominal == cold_boot
                    &&& actions@ == seq![Action::Unlock { magic: UNLOCK_MAGIC }] + (if cold_boot {
                        presets(supervisor.groups@, supervisor.groups@.len() as int)
                    } else {
                        Seq::empty()
                    })
                },
            },
    {
        let count: usize = speakers.len();
        if count > globals.channels / 2 {
            return Err(key_fault("Globals", "channels", KeyError::Inconsistent));
        }
        let ghost all = speakers@;
        let mut rest: Vec<Speaker> = speakers;
        let mut groups: Vec<SpeakerGroup> = Vec::new();
        let mut k: usize = 0;
        while k < count
            invariant
                k <= count,
                count == all.len(),
                rest@ == all.skip(k as int),
                globals.wf(),
                forall|j: int| 0 <= j < all.len() ==> (#[trigger] all[j]).wf() && all[j].g == globals,
                ascending(groups@),
                grouped(groups@, all.take(k as int)),
                forall|p: int|
                    0 <= p < groups@.len() ==> (#[trigger] groups@[p]).speakers@.len() > 0
                        && groups@[p].gain is None && !groups@[p].was_nominal,
            decreases count - k,
        {
            let speaker: Speaker = rest.remove(0);
            let ghost done = all.take(k as int);
            let ghost now = all.take(k + 1);
            let ghost old_groups = groups@;
            proof {
                assert(speaker == all[k as int]);
                assert(now.drop_last() =~= done);
                assert(now.last() == speaker);
                assert(rest@ =~= all.skip(k + 1));
            }
            let mut p: usize = 0;
            while p < groups.len() && groups[p].index < speaker.group
                invariant
                    p <= groups@.len(),
                    forall|q: int| 0 <= q < p ==> (#[trigger] groups@[q]).index < speaker.group,
                decreases groups@.len() - p,
            {
                p = p + 1;
            }
            if p < groups.len() && groups[p].index == speaker.group {
                groups[p].speakers.push(speaker);
                proof {
                    assert forall|q: int| 0 <= q < groups@.len() implies (
                    #[trigger] groups@[q]).speakers@ == members(now, groups@[q].index) by {
                        if q != p {
                            assert(groups@[q] == old_groups[q]);
                            assert(old_groups[q].index != speaker.group);
                        }
                    }
                    assert forall|j: int| 0 <= j < now.len() implies has_group(
                        groups@,
                        (#[trigger] now[j]).group,
                    ) by {
                        if j < k {
                            assert(now[j] == done[j]);
                            assert(has_group(old_groups, done[j].group));
                            let q = choose|q: int|
                                0 <= q < old_groups.len() && (#[trigger] old_groups[q]).index
                                    == done[j].group;
                            assert(groups@[q].index == now[j].group);
                        } else {
                            assert(groups@[p as int].index == now[j].group);
                        }
                    }
                    assert(ascending(groups@)) by {
                        assert forall|a: int, b: int| 0 <= a < b < groups@.len() implies groups@[a].index
                            < groups@[b].index by {
                            assert(groups@[a].index == old_groups[a].index);
                            assert(groups@[b].index == old_groups[b].index);
                        }
                    }
                }
            } else {
                let index: usize = speaker.group;
                proof {
                    assert forall|j: int| 0 <= j < done.len() implies done[j].group != index by {
                        assert(has_group(old_groups, done[j].group));
                        let q = choose|q: int|
                            0 <= q < old_groups.len() && (#[trigger] old_groups[q]).index
                                == done[j].group;
                        if q < p {
                        } else {
                            assert(old_groups[p as int].index <= old_groups[q].index);
                        }
                    }
                    lemma_no_members(done, index);
                }
                let mut alone: Vec<Speaker> = Vec::new();
                alone.push(speaker);
                groups.insert(p, SpeakerGroup { index, speakers: alone, gain: None, was_nominal: false });
                proof {
                    assert(groups@[p as int].speakers@ =~= members(now, index));
                    assert forall|q: int| 0 <= q < groups@.len() implies (
                    #[trigger] groups@[q]).speakers@ == members(now, groups@[q].index) by {
                        if q < p {
                            assert(groups@[q] == old_groups[q]);
                        } else if q > p {
                            assert(groups@[q] == old_groups[q - 1]);
                        }
                    }
                    assert forall|j: int| 0 <= j < now.len() implies has_group(
                        groups@,
                        (#[trigger] now[j]).group,
                    ) by {
                        if j < k {
                            assert(now[j] == done[j]);
                            assert(has_group(old_groups, done[j].group));
                            let q = choose|q: int|
                                0 <= q < old_groups.len() && (#[trigger] old_groups[q]).index
                                    == done[j].group;
                            if q < p {
                                assert(groups@[q].index == now[j].group);
                            } else {
                                assert(groups@[q + 1].index == now[j].group);
                            }
                        } else {
                            assert(groups@[p as int].index == now[j].group);
                        }
                    }
                    assert(ascending(groups@)) by {
                        assert forall|a: int, b: int| 0 <= a < b < groups@.len() implies groups@[a].index
                            < groups@[b].index by {
                            let ia = if a < p { a } else { a - 1 };
                            let ib = if b < p { b } else { b - 1 };
                            if a != p {
                                assert(groups@[a] == old_groups[ia]);
                            }
                            if b != p {
                                assert(groups@[b] == old_groups[ib]);
                            }
                        }
                    }
                    assert forall|q: int| 0 <= q < groups@.len() implies (
                    #[trigger] groups@[q]).speakers@.len() > 0 && groups@[q].gain is None
                        && !groups@[q].was_nominal by {
                        if q < p {
                            assert(groups@[q] == old_groups[q]);
                        } else if q > p {
                            assert(groups@[q] == old_groups[q - 1]);
                        }
                    }
                }
            }
            k = k + 1;
        }
        proof {
            assert(all.take(count as int) =~= all);
        }
        let mut actions: Vec<Action> = Vec::new();
        actions.push(Action::Unlock { magic: UNLOCK_MAGIC });
        if cold_boot {
            let ghost first = actions@;
            let n: usize = groups.len();
            let ghost shaped = groups@;
            let mut i: usize = 0;
            while i < n
                invariant
                    i <= n,
                    n == groups@.len(),
                    n == shaped.len(),
                    forall|p: int|
                        0 <= p < n ==> (#[trigger] groups@[p]).speakers == shaped[p].speakers
                            && groups@[p].index == shaped[p].index,
                    forall|p: int|
                        0 <= p < i ==> (#[trigger] groups@[p]).gain == Some(0i64)
                            && groups@[p].was_nominal,
                    forall|p: int|
                        i <= p < n ==> (#[trigger] groups@[p]).gain is None
                            && !groups@[p].was_nominal,
                    actions@ == first + presets(groups@, i as int),
                decreases n - i,
            {
                let ghost before = groups@;
                groups[i].gain = Some(0);
                groups[i].was_nominal = true;
                proof {
                    assert forall|p: int| 0 <= p < n implies (#[trigger] groups@[p]).speakers
                        == shaped[p].speakers && groups@[p].index == shaped[p].index by {
                        if p != i {
                            assert(groups@[p] == before[p]);
                        }
                    }
                    lemma_presets_shape(before, groups@, i as int);
                }
                groups[i].push_volume_writes(0, &mut actions);
                proof {
                    assert(actions@ =~= first + presets(groups@, i + 1));
                }
                i = i + 1;
            }
            proof {
                lemma_grouped_shape(shaped, groups@, all);
            }
        }
        proof {
            assert forall|i: int| 0 <= i < groups@.len() implies (#[trigger] groups@[i]).wf()
                && groups@[i].settings() == globals by {
                let gr = groups@[i];
                assert(gr.speakers@ == members(all, gr.index));
                lemma_members_hold(all, gr.index, globals);
            }
        }
        Ok(
            (
                Supervisor {
                    globals,
                    groups,
                    sample_rate,
                    max_reduction,
                    blackbox,
                },
                actions,
            ),
        )
    }
}

/// The presets depend on the numbers and speakers of the groups only.
proof fn lemma_presets_shape(a: Seq<SpeakerGroup>, b: Seq<SpeakerGroup>, n: int)
    requires
        n <= a.len(),
        n <= b.len(),
        forall|p: int|
            0 <= p < n ==> (#[trigger] a[p]).speakers == b[p].speakers && a[p].index == b[p].index,
    ensures
        presets(a, n) == presets(b, n),
    decreases n,
{
    if n > 0 {
        lemma_presets_shape(a, b, n - 1);
        assert(a[n - 1].volume_writes(0) =~= b[n - 1].volume_writes(0));
    }
}

/// Being grouped and in order depends on the numbers and speakers of the
/// groups only.
proof fn lemma_grouped_shape(a: Seq<SpeakerGroup>, b: Seq<SpeakerGroup>, speakers: Seq<Speaker>)
    requires
        a.len() == b.len(),
        forall|p: int|
            0 <= p < a.len() ==> (#[trigger] b[p]).speakers == a[p].speakers && b[p].index
                == a[p].index,
        grouped(a, speakers),
        ascending(a),
    ensures
        grouped(b, speakers),
        ascending(b),
{
    assert forall|j: int| 0 <= j < speakers.len() implies has_group(
        b,
        (#[trigger] speakers[j]).group,
    ) by {
        assert(has_group(a, speakers[j].group));
        let p = choose|p: int| 0 <= p < a.len() && (#[trigger] a[p]).index == speakers[j].group;
        assert(b[p].index == speakers[j].group);
    }
    assert forall|p: int, q: int| 0 <= p < q < b.len() implies b[p].index < b[q].index by {
        assert(b[p].index == a[p].index);
        assert(b[q].index == a[q].index);
    }
}

/// The members of a group are of that group, and what holds of every
/// speaker holds of them.
proof fn lemma_members_hold(speakers: Seq<Speaker>, index: usize, globals: Globals)
    requires
        forall|j: int|
            0 <= j < speakers.len() ==> (#[trigger] speakers[j]).wf() && speakers[j].g == globals,
    ensures
        forall|j: int|
            0 <= j < members(speakers, index).len() ==> {
                &&& (#[trigger] members(speakers, index)[j]).wf()
                &&& members(speakers, index)[j].g == globals
                &&& members(speakers, index)[j].group == index
            },
    decreases speakers.len(),
{
    if speakers.len() > 0 {
        lemma_members_hold(speakers.drop_last(), index, globals);
    }
}

/// How much of an excess over ambient is left of each estimate of one
/// speaker after a stretch without input power, as parts of `DECAY_ONE`.
#[derive(Clone, Copy, Debug, PartialEq, Eq, Structural)]
pub struct Decay {
    pub coil: u64,
    pub magnet: u64,
}

/// The state of a speaker after a skip.
pub open spec fn after_skip(speaker: Speaker, decay: Decay) -> SpeakerState {
    let th = speaker.skipped(speaker.s.thermal(), decay.coil as int, decay.magnet as int);
    SpeakerState { t_coil: th.coil as i64, t_magnet: th.magnet as i64, ..speaker.s }
}

/// There is one decay for each speaker, none above one.
pub open spec fn decays_fit(speakers: Seq<Speaker>, decays: Seq<Decay>) -> bool {
    &&& decays.len() == speakers.len()
    &&& forall|j: int|
        0 <= j < decays.len() ==> (#[trigger] decays[j]).coil <= DECAY_ONE && decays[j].magnet
            <= DECAY_ONE
}

/// Each speaker of `after` is the speaker of `before` in the same place,
/// after a skip.
pub open spec fn group_skipped(before: SpeakerGroup, after: SpeakerGroup, decays: Seq<Decay>) -> bool {
    &&& after.index == before.index
    &&& after.gain == before.gain
    &&& after.was_nominal == before.was_nominal
    &&& after.speakers@.len() == before.speakers@.len()
    &&& forall|j: int|
        0 <= j < before.speakers@.len() ==> same_setup(
            #[trigger] after.speakers@[j],
            before.speakers@[j],
        ) && after.speakers@[j].s == after_skip(before.speakers@[j], decays[j])
}

/// The recorder has been emptied, if there is one.
pub open spec fn cleared(before: Option<Blackbox>, after: Option<Blackbox>) -> bool {
    match (before, after) {
        (None, None) => true,
        (Some(a), Some(b)) => b.blocks() == Seq::<Block>::empty() && b.machine() == a.machine()
            && b.globals() == a.globals(),
        _ => false,
    }
}

/// The states of all speakers, group by group.
pub open spec fn snapshot_of(states: Seq<Vec<SpeakerState>>, groups: Seq<SpeakerGroup>) -> bool {
    &&& states.len() == groups.len()
    &&& forall|i: int|
        0 <= i < groups.len() ==> (#[trigger] states[i])@.len() == groups[i].speakers@.len()
    &&& forall|i: int, j: int|
        0 <= i < groups.len() && 0 <= j < groups[i].speakers@.len() ==> (#[trigger] states[i]@[j])
            == groups[i].speakers@[j].s
}

/// The recorder, if there is one, has been given a block with the rate,
/// the samples, and the states of all speakers.
pub open spec fn recorded(
    before: Option<Blackbox>,
    after: Option<Blackbox>,
    rate: i32,
    frame: Seq<i16>,
    groups: Seq<SpeakerGroup>,
) -> bool {
    match (before, after) {
        (None, None) => true,
        (Some(a), Some(b)) => b.machine() == a.machine() && b.globals() == a.globals()
            && exists|block: Block|
            {
                &&& block.sample_rate == rate
                &&& block.data@ == frame
                &&& snapshot_of(block.state@, groups)
                &&& b.blocks() == #[trigger] ring_after(a.blocks(), block)
            },
        _ => false,
    }
}

/// The time that one capture block takes, in nanoseconds, rounded down.
pub open spec fn period_nanos(period: int, rate: int) -> int {
    period * 1_000_000_000 / rate
}

/// More than four capture blocks' time has passed.
pub open spec fn stalled(period: int, rate: int, elapsed_nanos: int) -> bool {
    elapsed_nanos * rate > 4 * period * 1_000_000_000
}

/// Whether a group ends the block: by a fault of one of its speakers, or
/// by a gain that trips the debugging threshold.
pub open spec fn group_stops(
    group: SpeakerGroup,
    frame: Seq<i16>,
    rate: int,
    max_reduction: Option<i64>,
) -> bool {
    group.fails(frame, rate) || trips_debug(
        group.gain_after(frame, rate),
        group.was_nominal,
        max_reduction,
    )
}

/// The first of the first `n` groups that ends the block.
pub open spec fn first_stop(
    groups: Seq<SpeakerGroup>,
    frame: Seq<i16>,
    rate: int,
    max_reduction: Option<i64>,
    n: int,
) -> Option<int>
    decreases n,
{
    if n <= 0 {
        None
    } else {
        match first_stop(groups, frame, rate, max_reduction, n - 1) {
            Some(k) => Some(k),
            None => if group_stops(groups[n - 1], frame, rate, max_reduction) {
                Some(n - 1)
            } else {
                None
            },
        }
    }
}

/// The writes that commit the gains of the first `n` groups, group by group.
pub open spec fn commits(groups: Seq<SpeakerGroup>, frame: Seq<i16>, rate: int, n: int) -> Seq<
    Action,
>
    decreases n,
{
    if n <= 0 {
        Seq::empty()
    } else {
        commits(groups, frame, rate, n - 1) + groups[n - 1].commit_of(
            groups[n - 1].gain_after(frame, rate) as i64,
        )
    }
}

/// The group `after` is the group `before` once the block has been run
/// through each of its speakers and its gain has been committed.
pub open spec fn group_ran(
    before: SpeakerGroup,
    after: SpeakerGroup,
    frame: Seq<i16>,
    rate: int,
) -> bool {
    &&& after.index == before.index
    &&& after.speakers@.len() == before.speakers@.len()
    &&& after.gain == Some(before.gain_after(frame, rate) as i64)
    &&& after.was_nominal == (before.was_nominal || before.gain_after(frame, rate) == 0)
    &&& forall|j: int|
        0 <= j < before.speakers@.len() ==> same_setup(
            #[trigger] after.speakers@[j],
            before.speakers@[j],
        ) && after.speakers@[j].s == before.speakers@[j].ran(frame, rate)
}

/// None of the writes is the one that unlocks the volume.
pub open spec fn no_unlock(actions: Seq<Action>) -> bool {
    forall|a: int| 0 <= a < actions.len() ==> (#[trigger] actions[a]) is SetVolume
}

impl SpeakerGroup {
    /// Runs one block through the group and commits the gain it asks for:
    /// the writes that do so, if any are needed, are appended to `actions`.
    /// A fault of a speaker leaves the gain and `actions` as they were.
    pub fn advance(&mut self, frame: &[i16], rate: u32, actions: &mut Vec<Action>) -> (r: Result<
        i64,
        Fault,
    >)
        requires
            old(self).wf(),
            rate > 0,
            frame@.len() <= MAX_SAMPLES,
            (frame@.len() as int) % (old(self).settings().channels as int) == 0,
        ensures
            final(self).wf(),
            final(self).settings() == old(self).settings(),
            final(self).index == old(self).index,
            final(self).speakers@.len() == old(self).speakers@.len(),
            match r {
                Ok(gain) => {
                    &&& !old(self).fails(frame@, rate as int)
                    &&& gain == old(self).gain_after(frame@, rate as int)
                    &&& gain <= 0
                    &&& group_ran(*old(self), *final(self), frame@, rate as int)
                    &&& final(actions)@ == old(actions)@ + old(self).commit_of(gain)
                },
                Err(fault) => {
                    &&& old(self).fails(frame@, rate as int)
                    &&& group_failed(*old(self), *final(self), fault, frame@, rate as int)
                    &&& final(actions)@ == old(actions)@
                },
            },
    {
        match self.run(frame, rate) {
            Err(fault) => Err(fault),
            Ok(gain) => {
                let ghost ran = *self;
                let committed: bool = match self.gain {
                    Some(last) => last == gain,
                    None => false,
                };
                if !committed {
                    self.push_volume_writes(gain, actions);
                    self.gain = Some(gain);
                }
                if gain == 0 {
                    self.was_nominal = true;
                }
                proof {
                    assert(ran.volume_writes(gain) =~= old(self).volume_writes(gain));
                    assert(actions@ =~= old(actions)@ + old(self).commit_of(gain));
                }
                Ok(gain)
            },
        }
    }

    /// Advances each speaker over a stretch without input power.
    pub fn skip(&mut self, decays: &Vec<Decay>)
        requires
            old(self).wf(),
            decays_fit(old(self).speakers@, decays@),
        ensures
            final(self).wf(),
            final(self).settings() == old(self).settings(),
            group_skipped(*old(self), *final(self), decays@),
    {
        let n: usize = self.speakers.len();
        let mut j: usize = 0;
        while j < n
            invariant
                j <= n,
                n == self.speakers@.len(),
                n == old(self).speakers@.len(),
                self.index == old(self).index,
                self.gain == old(self).gain,
                self.was_nominal == old(self).was_nominal,
                old(self).wf(),
                self.wf(),
                self.settings() == old(self).settings(),
                decays_fit(old(self).speakers@, decays@),
                forall|i: int|
                    0 <= i < n ==> same_setup(#[trigger] self.speakers@[i], old(self).speakers@[i]),
                forall|i: int|
                    0 <= i < j ==> (#[trigger] self.speakers@[i]).s == after_skip(
                        old(self).speakers@[i],
                        decays@[i],
                    ),
                forall|i: int| j <= i < n ==> #[trigger] self.speakers@[i] == old(self).speakers@[i],
            decreases n - j,
        {
            let ghost before = self.speakers@;
            let decay: Decay = decays[j];
            assert(before[j as int].wf());
            self.speakers[j].skip_model(decay.coil, decay.magnet);
            proof {
                assert(forall|i: int| 0 <= i < n && i != j ==> self.speakers@[i] == before[i]);
            }
            j = j + 1;
        }
    }
}

impl Supervisor {
    /// Takes note of the playback rate that the subsystem reports. A rate
    /// of zero means that nothing plays, and leaves the rate as it was.
    /// Another rate than before is taken over, and empties the recorder.
    /// A rate that is then not above zero is a fault of the knob.
    pub fn observe_rate(&mut self, current: i32) -> (r: Result<bool, Fault>)
        requires
            old(self).wf(),
        ensures
            final(self).wf(),
            final(self).globals == old(self).globals,
            final(self).groups == old(self).groups,
            final(self).max_reduction == old(self).max_reduction,
            final(self).sample_rate == (if current != 0 {
                current
            } else {
                old(self).sample_rate
            }),
            current != 0 && current != old(self).sample_rate ==> cleared(
                old(self).blackbox,
                final(self).blackbox,
            ),
            current == 0 || current == old(self).sample_rate ==> final(self).blackbox == old(
                self,
            ).blackbox,
            match r {
                Ok(changed) => final(self).sample_rate > 0 && changed == (current != 0 && current
                    != old(self).sample_rate),
                Err(fault) => final(self).sample_rate <= 0 && is_control_fault(
                    fault,
                    "Speaker Sample Rate"@,
                    ControlError::Value,
                ),
            },
    {
        let changed: bool = current != 0 && current != self.sample_rate;
        if changed {
            self.sample_rate = current;
            match &mut self.blackbox {
                Some(recorder) => recorder.reset(),
                None => {},
            }
        }
        if self.sample_rate <= 0 {
            return Err(
                Fault::Control {
                    knob: crate::controls::sample_rate_knob(),
                    failure: ControlError::Value,
                },
            );
        }
        Ok(changed)
    }

    /// Tells whether the loop has fallen behind, from the time since the
    /// block before: if more than four blocks' time has passed, the time to
    /// make up for, which is that time less one block's. In nanoseconds.
    pub fn catch_up(&self, elapsed_nanos: u64) -> (r: Option<u64>)
        requires
            self.sample_rate > 0,
        ensures
            r == (if stalled(
                self.globals.period as int,
                self.sample_rate as int,
                elapsed_nanos as int,
            ) {
                Some(
                    (elapsed_nanos - period_nanos(
                        self.globals.period as int,
                        self.sample_rate as int,
                    )) as u64,
                )
            } else {
                None
            }),
    {
        let rate: u128 = self.sample_rate as u128;
        let period: u128 = self.globals.period as u128;
        let elapsed: u128 = elapsed_nanos as u128;
        proof {
            assert(0 <= elapsed * rate <= 0xFFFF_FFFF_FFFF_FFFF * 0x8000_0000) by (nonlinear_arith)
                requires
                    0 <= elapsed <= 0xFFFF_FFFF_FFFF_FFFF,
                    0 <= rate <= 0x8000_0000,
            ;
        }
        let block: u128 = period * 1_000_000_000;
        if elapsed * rate > 4 * block {
            let one: u128 = block / rate;
            proof {
                vstd::arithmetic::div_mod::lemma_fundamental_div_mod(block as int, rate as int);
                assert(one <= elapsed) by (nonlinear_arith)
                    requires
                        rate > 0,
                        block >= 0,
                        elapsed * rate > 4 * block,
                        block == rate * one + (block % rate),
                        0 <= block % rate,
                ;
            }
            Some((elapsed - one) as u64)
        } else {
            None
        }
    }

    /// Advances every speaker over a stretch without input power, and
    /// empties the recorder, whose blocks no longer follow one another.
    pub fn skip(&mut self, decays: &Vec<Vec<Decay>>)
        requires
            old(self).wf(),
            decays@.len() == old(self).groups@.len(),
            forall|i: int|
                0 <= i < decays@.len() ==> decays_fit(
                    old(self).groups@[i].speakers@,
                    (#[trigger] decays@[i])@,
                ),
        ensures
            final(self).wf(),
            final(self).globals == old(self).globals,
            final(self).sample_rate == old(self).sample_rate,
            final(self).max_reduction == old(self).max_reduction,
            final(self).groups@.len() == old(self).groups@.len(),
            forall|i: int|
                0 <= i < old(self).groups@.len() ==> group_skipped(
                    old(self).groups@[i],
                    #[trigger] final(self).groups@[i],
                    decays@[i]@,
                ),
            cleared(old(self).blackbox, final(self).blackbox),
    {
        let n: usize = self.groups.len();
        let mut i: usize = 0;
        while i < n
            invariant
                i <= n,
                n == self.groups@.len(),
                n == old(self).groups@.len(),
                n == decays@.len(),
                old(self).wf(),
                self.wf(),
                self.globals == old(self).globals,
                self.sample_rate == old(self).sample_rate,
                self.max_reduction == old(self).max_reduction,
                self.blackbox == old(self).blackbox,
                forall|p: int|
                    0 <= p < decays@.len() ==> decays_fit(
                        old(self).groups@[p].speakers@,
                        (#[trigger] decays@[p])@,
                    ),
                forall|p: int|
                    0 <= p < i ==> group_skipped(
                        old(self).groups@[p],
                        #[trigger] self.groups@[p],
                        decays@[p]@,
                    ),
                forall|p: int| i <= p < n ==> #[trigger] self.groups@[p] == old(self).groups@[p],
            decreases n - i,
        {
            let ghost before = self.groups@;
            assert(before[i as int].wf());
            assert(decays_fit(old(self).groups@[i as int].speakers@, decays@[i as int]@));
            self.groups[i].skip(&decays[i]);
            proof {
                assert(forall|p: int| 0 <= p < n && p != i ==> self.groups@[p] == before[p]);
                assert(ascending(self.groups@)) by {
                    assert forall|a: int, b: int| 0 <= a < b < n implies self.groups@[a].index
                        < self.groups@[b].index by {
                        assert(self.groups@[a].index == before[a].index);
                        assert(self.groups@[b].index == before[b].index);
                    }
                }
            }
            i = i + 1;
        }
        match &mut self.blackbox {
            Some(recorder) => recorder.reset(),
            None => {},
        }
    }

    /// Copies the state of every speaker, group by group.
    fn snapshot(&self) -> (r: Vec<Vec<SpeakerState>>)
        ensures
            snapshot_of(r@, self.groups@),
    {
        let mut all: Vec<Vec<SpeakerState>> = Vec::new();
        let mut i: usize = 0;
        while i < self.groups.len()
            invariant
                i <= self.groups@.len(),
                all@.len() == i,
                forall|p: int|
                    0 <= p < i ==> (#[trigger] all@[p])@.len() == self.groups@[p].speakers@.len(),
                forall|p: int, q: int|
                    0 <= p < i && 0 <= q < self.groups@[p].speakers@.len() ==> (
                    #[trigger] all@[p]@[q]) == self.groups@[p].speakers@[q].s,
            decreases self.groups@.len() - i,
        {
            let group: &SpeakerGroup = &self.groups[i];
            let mut states: Vec<SpeakerState> = Vec::new();
            let mut j: usize = 0;
            while j < group.speakers.len()
                invariant
                    j <= group.speakers@.len(),
                    states@.len() == j,
                    forall|q: int| 0 <= q < j ==> #[trigger] states@[q] == group.speakers@[q].s,
                decreases group.speakers@.len() - j,
            {
                states.push(group.speakers[j].s);
                j = j + 1;
            }
            let ghost before = all@;
            all.push(states);
            proof {
                assert(forall|p: int| 0 <= p < i ==> all@[p] == before[p]);
            }
            i = i + 1;
        }
        all
    }
}

/// Once a group has ended the block, the first that did stays the answer.
pub proof fn lemma_first_stop_stays(
    groups: Seq<SpeakerGroup>,
    frame: Seq<i16>,
    rate: int,
    max_reduction: Option<i64>,
    k: int,
    n: int,
)
    requires
        0 <= k <= n,
        first_stop(groups, frame, rate, max_reduction, k) is Some,
    ensures
        first_stop(groups, frame, rate, max_reduction, n) == first_stop(
            groups,
            frame,
            rate,
            max_reduction,
            k,
        ),
        0 <= first_stop(groups, frame, rate, max_reduction, k)->0 < k,
    decreases n,
{
    if k < n {
        lemma_first_stop_stays(groups, frame, rate, max_reduction, k, n - 1);
    } else if first_stop(groups, frame, rate, max_reduction, k - 1) is Some {
        lemma_first_stop_stays(groups, frame, rate, max_reduction, k - 1, k - 1);
    }
}

/// The writes that commit gains set volumes and nothing else.
pub proof fn lemma_commits_no_unlock(groups: Seq<SpeakerGroup>, frame: Seq<i16>, rate: int, n: int)
    ensures
        no_unlock(commits(groups, frame, rate, n)),
    decreases n,
{
    if n > 0 {
        lemma_commits_no_unlock(groups, frame, rate, n - 1);
    }
}

impl Supervisor {
    /// Runs one captured block.
    ///
    /// The recorder, if there is one, is given the block and the state of
    /// every speaker. Then the groups are taken in order. Each runs the
    /// block through its speakers; the lowest gain asked for is the group's,
    /// and is committed, by a write per speaker, if it differs from the gain
    /// last committed. A fault of a speaker ends the block before its group
    /// commits. A gain that trips the debugging threshold ends it after. If
    /// no group ends the block, the last write unlocks the volume.
    ///
    /// A block that ends in a fault is never followed by the write that
    /// unlocks the volume.
    pub fn run(&mut self, frame: &[i16]) -> (r: Outcome)
        requires
            old(self).wf(),
            old(self).sample_rate > 0,
            frame@.len() <= MAX_SAMPLES,
            (frame@.len() as int) % (old(self).globals.channels as int) == 0,
        ensures
            final(self).wf(),
            final(self).globals == old(self).globals,
            final(self).sample_rate == old(self).sample_rate,
            final(self).max_reduction == old(self).max_reduction,
            final(self).groups@.len() == old(self).groups@.len(),
            recorded(
                old(self).blackbox,
                final(self).blackbox,
                old(self).sample_rate,
                frame@,
                old(self).groups@,
            ),
            r.fault is Some ==> no_unlock(r.actions@),
            ({
                let groups = old(self).groups@;
                let rate = old(self).sample_rate as int;
                let n = groups.len() as int;
                match first_stop(groups, frame@, rate, old(self).max_reduction, n) {
                    None => {
                        &&& r.fault is None
                        &&& r.actions@ == commits(groups, frame@, rate, n).push(
                            Action::Unlock { magic: UNLOCK_MAGIC },
                        )
                        &&& forall|i: int|
                            0 <= i < n ==> group_ran(
                                groups[i],
                                #[trigger] final(self).groups@[i],
                                frame@,
                                rate,
                            )
                    },
                    Some(k) => {
                        &&& 0 <= k < n
                        &&& forall|i: int|
                            0 <= i < k ==> group_ran(
                                groups[i],
                                #[trigger] final(self).groups@[i],
                                frame@,
                                rate,
                            )
                        &&& forall|i: int|
                            k < i < n ==> #[trigger] final(self).groups@[i] == groups[i]
                        &&& if groups[k].fails(frame@, rate) {
                            &&& r.fault matches Some(fault)
                            &&& group_failed(groups[k], final(self).groups@[k], fault, frame@, rate)
                            &&& r.actions@ == commits(groups, frame@, rate, k)
                        } else {
                            &&& r.fault matches Some(Fault::Debug)
                            &&& r.actions@ == commits(groups, frame@, rate, k + 1)
                            &&& group_ran(groups[k], final(self).groups@[k], frame@, rate)
                        }
                    },
                }
            }),
    {
        let rate: i32 = self.sample_rate;
        let hertz: u32 = rate as u32;
        let ghost start = self.groups@;
        let ghost most = self.max_reduction;
        let ghost recorder = self.blackbox;
        if self.blackbox.is_some() {
            let data: Vec<i16> = slice_to_vec(frame);
            let state: Vec<Vec<SpeakerState>> = self.snapshot();
            let ghost block = Block { sample_rate: rate, state, data };
            match &mut self.blackbox {
                Some(recorder) => recorder.push(rate, data, state),
                None => {},
            }
            proof {
                assert(self.blackbox->0.blocks() == ring_after(recorder->0.blocks(), block));
            }
        }
        let ghost recorded_box = self.blackbox;
        let n: usize = self.groups.len();
        let mut actions: Vec<Action> = Vec::new();
        let mut i: usize = 0;
        while i < n
            invariant
                i <= n,
                n == self.groups@.len(),
                n == start.len(),
                start == old(self).groups@,
                most == old(self).max_reduction,
                rate == old(self).sample_rate,
                hertz == rate,
                rate > 0,
                frame@.len() <= MAX_SAMPLES,
                (frame@.len() as int) % (old(self).globals.channels as int) == 0,
                old(self).wf(),
                self.wf(),
                self.globals == old(self).globals,
                self.sample_rate == rate,
                self.max_reduction == most,
                self.blackbox == recorded_box,
                recorded(old(self).blackbox, recorded_box, rate, frame@, start),
                forall|p: int|
                    0 <= p < i ==> group_ran(start[p], #[trigger] self.groups@[p], frame@, rate as int),
                forall|p: int| i <= p < n ==> #[trigger] self.groups@[p] == start[p],
                first_stop(start, frame@, rate as int, most, i as int) is None,
                actions@ == commits(start, frame@, rate as int, i as int),
            decreases n - i,
        {
            let ghost before = self.groups@;
            let ghost group = start[i as int];
            proof {
                assert(before[i as int] == group);
                assert(group.wf() && group.settings() == self.globals);
                lemma_commits_no_unlock(start, frame@, rate as int, i as int);
            }
            let armed: bool = self.groups[i].was_nominal;
            let advanced = self.groups[i].advance(frame, hertz, &mut actions);
            proof {
                assert(forall|p: int| 0 <= p < n && p != i ==> self.groups@[p] == before[p]);
                assert(ascending(self.groups@)) by {
                    assert forall|a: int, b: int| 0 <= a < b < n implies self.groups@[a].index
                        < self.groups@[b].index by {
                        assert(self.groups@[a].index == start[a].index);
                        assert(self.groups@[b].index == start[b].index);
                    }
                }
            }
            match advanced {
                Err(fault) => {
                    proof {
                        lemma_first_stop_stays(
                            start,
                            frame@,
                            rate as int,
                            most,
                            i + 1,
                            n as int,
                        );
                    }
                    return Outcome { actions, fault: Some(fault) };
                },
                Ok(gain) => {
                    let tripped: bool = match self.max_reduction {
                        Some(limit) => armed && (gain as i128) < -(limit as i128),
                        None => false,
                    };
                    if tripped {
                        proof {
                            lemma_first_stop_stays(
                                start,
                                frame@,
                                rate as int,
                                most,
                                i + 1,
                                n as int,
                            );
                            lemma_commits_no_unlock(start, frame@, rate as int, i + 1);
                        }
                        return Outcome { actions, fault: Some(Fault::Debug) };
                    }
                },
            }
            i = i + 1;
        }
        actions.push(Action::Unlock { magic: UNLOCK_MAGIC });
        Outcome { actions, fault: None }
    }
}

} // verus!
