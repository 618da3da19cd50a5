//! The recorder of the most recent capture blocks.
//!
//! It keeps a bounded number of blocks, each with the state of every
//! speaker as it was when the block was captured, and drops the oldest to
//! make room. When the supervisor ends on a fault, what has been kept is
//! turned into one stream of bytes and a record that describes it.

use vstd::prelude::*;
use crate::globals::Globals;
use crate::speaker::SpeakerState;

verus! {

/// The most blocks that are kept: about thirty seconds of capture.
pub const MAX_BLOCKS: usize = 330;

/// One captured block.
#[derive(Debug)]
pub struct Block {
    /// The sample rate that held when the block was captured.
    pub sample_rate: i32,
    /// The state of each speaker before the block was run through the
    /// model, one list per group.
    pub state: Vec<Vec<SpeakerState>>,
    /// The samples as captured, interleaved.
    pub data: Vec<i16>,
}

/// What describes a preserved recording.
#[derive(Debug)]
pub struct Meta {
    /// Why the supervisor ended.
    pub message: String,
    /// The machine the recording was made on.
    pub machine: String,
    /// The sample rate of the oldest block.
    pub sample_rate: i32,
    /// Channels per frame.
    pub channels: usize,
    /// Ambient temperature, in millionths of a degree.
    pub t_ambient: i64,
    /// Width of the limiting band, in millionths of a degree.
    pub t_window: i64,
    /// The hysteresis margin, in millionths of a degree.
    pub t_hysteresis: i64,
    /// The state of each speaker as the newest block found it, the groups
    /// one after the other.
    pub state: Vec<SpeakerState>,
}

/// A preserved recording: the samples of all blocks, oldest first, as
/// bytes, and the record that describes them.
#[derive(Debug)]
pub struct Dump {
    pub raw: Vec<u8>,
    pub meta: Meta,
}

/// The recorder.
pub struct Blackbox {
    machine: String,
    globals: Globals,
    blocks: Vec<Block>,
}

/// A sample as the unsigned number with the same sixteen bits.
pub open spec fn unsigned(sample: i16) -> int {
    if sample >= 0 {
        sample as int
    } else {
        sample + 0x1_0000
    }
}

/// The bytes of the samples, two for each, the low byte first.
pub open spec fn sample_bytes(samples: Seq<i16>) -> Seq<u8> {
    Seq::new(
        2 * samples.len(),
        |i: int|
            if i % 2 == 0 {
                (unsigned(samples[i / 2]) % 0x100) as u8
            } else {
                (unsigned(samples[i / 2]) / 0x100) as u8
            },
    )
}

/// The bytes of the samples of all blocks, the oldest block first.
pub open spec fn raw_of(blocks: Seq<Block>) -> Seq<u8>
    decreases blocks.len(),
{
    if blocks.len() == 0 {
        Seq::empty()
    } else {
        raw_of(blocks.drop_last()) + sample_bytes(blocks.last().data@)
    }
}

/// The states of all groups, one group after the other.
pub open spec fn flat(groups: Seq<Vec<SpeakerState>>) -> Seq<SpeakerState>
    decreases groups.len(),
{
    if groups.len() == 0 {
        Seq::empty()
    } else {
        flat(groups.drop_last()) + groups.last()@
    }
}

/// The blocks that are kept once `block` has been added to `blocks`: all
/// of them while there is room, all but the oldest otherwise.
pub open spec fn ring_after(blocks: Seq<Block>, block: Block) -> Seq<Block> {
    if blocks.len() < MAX_BLOCKS {
        blocks.push(block)
    } else {
        blocks.skip(blocks.len() - MAX_BLOCKS + 1).push(block)
    }
}

/// Appends the two bytes of each sample to `out`.
fn push_samples(out: &mut Vec<u8>, samples: &Vec<i16>)
    ensures
        final(out)@ == old(out)@ + sample_bytes(samples@),
{
    let ghost before = out@;
    let mut i: usize = 0;
    while i < samples.len()
        invariant
            i <= samples.len(),
            out@ == before + sample_bytes(samples@.take(i as int)),
        decreases samples.len() - i,
    {
        let sample: i16 = samples[i];
        let wide: u32 = if sample >= 0 {
            sample as u32
        } else {
            (sample as i32 + 0x1_0000) as u32
        };
        let low: u8 = (wide % 0x100) as u8;
        let high: u8 = (wide / 0x100) as u8;
        out.push(low);
        out.push(high);
        proof {
            let a = sample_bytes(samples@.take(i as int));
            let b = sample_bytes(samples@.take(i + 1));
            assert(b =~= a.push(low).push(high)) by {
                assert(b.len() == a.len() + 2);
                assert forall|k: int| 0 <= k < b.len() implies b[k] == a.push(low).push(high)[k] by {
                    if k < a.len() {
                        assert(samples@.take(i + 1)[k / 2] == samples@.take(i as int)[k / 2]);
                    } else {
                        assert(k / 2 == i);
                        assert(samples@.take(i + 1)[i as int] == sample);
                    }
                }
            }
            assert(out@ =~= before + b);
        }
        i = i + 1;
    }
    proof {
        assert(samples@.take(samples@.len() as int) =~= samples@);
    }
}

impl Blackbox {
    /// No more blocks are kept than there is room for.
    #[verifier::type_invariant]
    spec fn capacity_kept(&self) -> bool {
        self.blocks@.len() <= MAX_BLOCKS
    }

    /// The blocks that are kept, oldest first.
    pub closed spec fn blocks(&self) -> Seq<Block> {
        self.blocks@
    }

    /// The machine the recorder was made for.
    pub closed spec fn machine(&self) -> Seq<char> {
        self.machine@
    }

    /// The settings the recorder was made with.
    pub closed spec fn globals(&self) -> Globals {
        self.globals
    }

    /// An empty recorder.
    pub fn new(machine: &str, globals: &Globals) -> (r: Blackbox)
        ensures
            r.blocks() == Seq::<Block>::empty(),
            r.machine() == machine@,
            r.globals() == *globals,
    {
        Blackbox { machine: machine.to_owned(), globals: globals.clone(), blocks: Vec::new() }
    }

    /// How many blocks are kept: never more than `MAX_BLOCKS`.
    pub fn len(&self) -> (n: usize)
        ensures
            n == self.blocks().len(),
            n <= MAX_BLOCKS,
    {
        proof {
            use_type_invariant(self);
        }
        self.blocks.len()
    }

    /// Forgets all blocks.
    pub fn reset(&mut self)
        ensures
            final(self).blocks() == Seq::<Block>::empty(),
            final(self).machine() == old(self).machine(),
            final(self).globals() == old(self).globals(),
    {
        self.blocks = Vec::new();
    }

    /// Adds a block, dropping the oldest if there is no room.
    pub fn push(&mut self, sample_rate: i32, data: Vec<i16>, state: Vec<Vec<SpeakerState>>)
        ensures
            final(self).blocks() == ring_after(
                old(self).blocks(),
                Block { sample_rate, state, data },
            ),
            final(self).blocks().len() <= MAX_BLOCKS,
            final(self).machine() == old(self).machine(),
            final(self).globals() == old(self).globals(),
    {
        proof {
            use_type_invariant(&*self);
        }
        let mut kept: Vec<Block> = Vec::new();
        core::mem::swap(&mut self.blocks, &mut kept);
        if kept.len() >= MAX_BLOCKS {
            kept.remove(0);
        }
        proof {
            assert(old(self).blocks@.len() == MAX_BLOCKS ==> kept@ =~= old(self).blocks@.skip(1));
        }
        kept.push(Block { sample_rate, state, data });
        self.blocks = kept;
    }

    /// What is to be written when the supervisor ends on a fault: nothing
    /// if no block is kept, else the samples of all blocks as bytes and the
    /// record that describes them.
    pub fn preserve(&self, reason: &str) -> (r: Option<Dump>)
        ensures
            r is None <==> self.blocks().len() == 0,
            r matches Some(dump) ==> {
                &&& dump.raw@ == raw_of(self.blocks())
                &&& dump.meta.message@ == reason@
                &&& dump.meta.machine@ == self.machine()
                &&& dump.meta.sample_rate == self.blocks().first().sample_rate
                &&& dump.meta.channels == self.globals().channels
                &&& dump.meta.t_ambient == self.globals().t_ambient
                &&& dump.meta.t_window == self.globals().t_window
                &&& dump.meta.t_hysteresis == self.globals().t_hysteresis
                &&& dump.meta.state@ == flat(self.blocks().last().state@)
            },
    {
        let n: usize = self.blocks.len();
        if n == 0 {
            return None;
        }
        let mut raw: Vec<u8> = Vec::new();
        let mut i: usize = 0;
        while i < n
            invariant
                i <= n,
                n == self.blocks@.len(),
                raw@ == raw_of(self.blocks@.take(i as int)),
            decreases n - i,
        {
            proof {
                assert(self.blocks@.take(i + 1).drop_last() =~= self.blocks@.take(i as int));
            }
            push_samples(&mut raw, &self.blocks[i].data);
            i = i + 1;
        }
        proof {
            assert(self.blocks@.take(n as int) =~= self.blocks@);
        }
        let newest: &Block = &self.blocks[n - 1];
        let mut state: Vec<SpeakerState> = Vec::new();
        let mut g: usize = 0;
        while g < newest.state.len()
            invariant
                g <= newest.state.len(),
                state@ == flat(newest.state@.take(g as int)),
            decreases newest.state.len() - g,
        {
            let group: &Vec<SpeakerState> = &newest.state[g];
            let ghost before = state@;
            let mut k: usize = 0;
            while k < group.len()
                invariant
                    k <= group.len(),
                    state@ == before + group@.take(k as int),
                decreases group.len() - k,
            {
                state.push(group[k]);
                proof {
                    assert(group@.take(k + 1) =~= group@.take(k as int).push(group[k as int]));
                    assert(state@ =~= before + group@.take(k + 1));
                }
                k = k + 1;
            }
            proof {
                assert(group@.take(group@.len() as int) =~= group@);
                assert(newest.state@.take(g + 1).drop_last() =~= newest.state@.take(g as int));
            }
            g = g + 1;
        }
        proof {
            assert(newest.state@.take(newest.state@.len() as int) =~= newest.state@);
        }
        Some(
            Dump {
                raw,
                meta: Meta {
                    message: reason.to_owned(),
                    machine: self.machine.clone(),
                    sample_rate: self.blocks[0].sample_rate,
                    channels: self.globals.channels,
                    t_ambient: self.globals.t_ambient,
                    t_window: self.globals.t_window,
                    t_hysteresis: self.globals.t_hysteresis,
                    state,
                },
            },
        )
    }
}

} // verus!
