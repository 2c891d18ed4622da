//! The channel map of the per-side test tone.

use vstd::prelude::*;
use crate::text::{chars_of, skip_ws, skip_ws_back, split, split_char, trim, views};

verus! {

// Channel position ids of SPA's `enum spa_audio_channel`.
pub const SPA_AUDIO_CHANNEL_UNKNOWN: u32 = 0;

pub const SPA_AUDIO_CHANNEL_FL: u32 = 3;

pub const SPA_AUDIO_CHANNEL_FR: u32 = 4;

pub const SPA_AUDIO_CHANNEL_FC: u32 = 5;

pub const SPA_AUDIO_CHANNEL_LFE: u32 = 6;

pub const SPA_AUDIO_CHANNEL_SL: u32 = 7;

pub const SPA_AUDIO_CHANNEL_SR: u32 = 8;

pub const SPA_AUDIO_CHANNEL_RL: u32 = 12;

pub const SPA_AUDIO_CHANNEL_RR: u32 = 13;

/// The SPA id of a channel name; unknown names map to UNKNOWN.
pub open spec fn channel_id(name: Seq<char>) -> u32 {
    if name == "FL"@ {
        SPA_AUDIO_CHANNEL_FL
    } else if name == "FR"@ {
        SPA_AUDIO_CHANNEL_FR
    } else if name == "FC"@ {
        SPA_AUDIO_CHANNEL_FC
    } else if name == "LFE"@ {
        SPA_AUDIO_CHANNEL_LFE
    } else if name == "RL"@ {
        SPA_AUDIO_CHANNEL_RL
    } else if name == "RR"@ {
        SPA_AUDIO_CHANNEL_RR
    } else if name == "SL"@ {
        SPA_AUDIO_CHANNEL_SL
    } else if name == "SR"@ {
        SPA_AUDIO_CHANNEL_SR
    } else {
        SPA_AUDIO_CHANNEL_UNKNOWN
    }
}

/// The ids of the first `n` channels of a comma separated layout.
pub open spec fn spa_ids(s: Seq<char>, n: u32) -> Seq<u32> {
    let pieces = split(s, ',');
    let count = if pieces.len() < n {
        pieces.len() as int
    } else {
        n as int
    };
    Seq::new(count as nat, |i: int| channel_id(trim(pieces[i])))
}

fn is_name(v: &Vec<char>, from: usize, to: usize, name: &str) -> (r: bool)
    requires
        from <= to <= v@.len(),
    ensures
        r == (v@.subrange(from as int, to as int) == name@),
{
    let w = crate::text::string_of_range(v, from, to);
    crate::text::str_eq(w.as_str(), name)
}

/// Maps channel positions to SPA channel ids, at most `n` of them.
pub fn pos_str_to_spa_ids(s: &str, n: u32) -> (r: Vec<u32>)
    ensures
        r@ == spa_ids(s@, n),
{
    let pieces = split_char(&chars_of(s), ',');
    let mut out: Vec<u32> = Vec::new();
    let mut i: usize = 0;
    while i < pieces.len() && (i as u64) < (n as u64)
        invariant
            i <= pieces@.len(),
            i <= n,
            views(pieces@) == split(s@, ','),
            out@.len() == i,
            forall|j: int| 0 <= j < i ==> #[trigger] out@[j] == channel_id(trim(split(s@, ',')[j])),
        decreases pieces@.len() - i,
    {
        let tok = &pieces[i];
        let start = skip_ws(tok, 0);
        let end = skip_ws_back(tok, tok.len());
        proof {
            assert(tok@.skip(0) =~= tok@);
            assert(tok@.take(tok@.len() as int) =~= tok@);
            assert(views(pieces@)[i as int] == tok@);
            crate::text::lemma_trim_window(tok@, start as int, end as int);
        }
        let id = if start >= end {
            proof {
                reveal_strlit("FL");
                reveal_strlit("FR");
                reveal_strlit("FC");
                reveal_strlit("LFE");
                reveal_strlit("RL");
                reveal_strlit("RR");
                reveal_strlit("SL");
                reveal_strlit("SR");
            }
            SPA_AUDIO_CHANNEL_UNKNOWN
        } else if is_name(tok, start, end, "FL") {
            SPA_AUDIO_CHANNEL_FL
        } else if is_name(tok, start, end, "FR") {
            SPA_AUDIO_CHANNEL_FR
        } else if is_name(tok, start, end, "FC") {
            SPA_AUDIO_CHANNEL_FC
        } else if is_name(tok, start, end, "LFE") {
            SPA_AUDIO_CHANNEL_LFE
        } else if is_name(tok, start, end, "RL") {
            SPA_AUDIO_CHANNEL_RL
        } else if is_name(tok, start, end, "RR") {
            SPA_AUDIO_CHANNEL_RR
        } else if is_name(tok, start, end, "SL") {
            SPA_AUDIO_CHANNEL_SL
        } else if is_name(tok, start, end, "SR") {
            SPA_AUDIO_CHANNEL_SR
        } else {
            SPA_AUDIO_CHANNEL_UNKNOWN
        };
        out.push(id);
        i = i + 1;
    }
    assert(out@ =~= spa_ids(s@, n));
    out
}

/// Where the test tone's sweep stands: each channel of the sweep order gets
/// a tone step followed by a pause step.
#[derive(Copy, Clone, Debug, PartialEq, Eq, Structural)]
pub struct SweepPos {
    /// Even steps are tones, odd steps pauses.
    pub step: usize,
    /// Samples already written in this step.
    pub step_samples: u32,
}

/// One buffer's worth of the sweep.
#[derive(Copy, Clone, Debug)]
pub struct SweepChunk {
    /// Frames to write into this buffer.
    pub frames: usize,
    /// During a tone: the channel that sounds, and whether it is the LFE
    /// channel (which gets the lower frequency).
    pub tone: Option<(usize, bool)>,
    /// Where the sweep stands after this buffer.
    pub next: SweepPos,
    /// The step ended: the oscillator starts over.
    pub step_ended: bool,
    /// Every step is done: playback stops.
    pub finished: bool,
}

/// The buffer after `pos`: as many frames as fit and the step still needs;
/// the step ends when it has all its samples.
pub open spec fn sweep_chunk_spec(
    pos: SweepPos,
    sweep_order: Seq<usize>,
    positions: Seq<u32>,
    tone_samples: u32,
    pause_samples: u32,
    max_frames: usize,
) -> SweepChunk {
    let is_tone = pos.step % 2 == 0;
    let step_total = if is_tone {
        tone_samples
    } else {
        pause_samples
    };
    let remaining: int = if pos.step_samples >= step_total {
        0
    } else {
        step_total - pos.step_samples
    };
    let n: int = if max_frames < remaining {
        max_frames as int
    } else {
        remaining
    };
    let written = pos.step_samples + n;
    let ended = written >= step_total;
    let next = if ended {
        SweepPos { step: (pos.step + 1) as usize, step_samples: 0 }
    } else {
        SweepPos { step: pos.step, step_samples: written as u32 }
    };
    let ch = sweep_order[(pos.step / 2) as int];
    SweepChunk {
        frames: n as usize,
        tone: if is_tone {
            Some((ch, positions[ch as int] == SPA_AUDIO_CHANNEL_LFE))
        } else {
            None
        },
        next,
        step_ended: ended,
        finished: next.step >= 2 * sweep_order.len(),
    }
}

/// Plans the next buffer of the test tone's sweep.
pub fn sweep_chunk(
    pos: SweepPos,
    sweep_order: &Vec<usize>,
    positions: &Vec<u32>,
    tone_samples: u32,
    pause_samples: u32,
    max_frames: usize,
) -> (r: SweepChunk)
    requires
        2 * sweep_order@.len() <= usize::MAX,
        pos.step < 2 * sweep_order@.len(),
        forall|i: int| 0 <= i < sweep_order@.len() ==> #[trigger] sweep_order@[i] < positions@.len(),
    ensures
        r == sweep_chunk_spec(pos, sweep_order@, positions@, tone_samples, pause_samples, max_frames),
{
    let is_tone = pos.step % 2 == 0;
    let step_total = if is_tone {
        tone_samples
    } else {
        pause_samples
    };
    let remaining: u32 = if pos.step_samples >= step_total {
        0
    } else {
        step_total - pos.step_samples
    };
    let n: usize = if max_frames < remaining as usize {
        max_frames
    } else {
        remaining as usize
    };
    let written: u32 = pos.step_samples + n as u32;
    let ended = written >= step_total;
    let next = if ended {
        SweepPos { step: pos.step + 1, step_samples: 0 }
    } else {
        SweepPos { step: pos.step, step_samples: written }
    };
    let tone = if is_tone {
        let ch = sweep_order[pos.step / 2];
        Some((ch, positions[ch] == SPA_AUDIO_CHANNEL_LFE))
    } else {
        None
    };
    let finished = next.step / 2 >= sweep_order.len();
    SweepChunk { frames: n, tone, next, step_ended: ended, finished }
}

/// Where a channel comes in the clockwise sweep: FL, FC, FR, SR, RR, RL,
/// SL, then channels of unknown position, and LFE last.
pub open spec fn sweep_rank(id: u32) -> u32 {
    if id == SPA_AUDIO_CHANNEL_FL {
        0
    } else if id == SPA_AUDIO_CHANNEL_FC {
        1
    } else if id == SPA_AUDIO_CHANNEL_FR {
        2
    } else if id == SPA_AUDIO_CHANNEL_SR {
        3
    } else if id == SPA_AUDIO_CHANNEL_RR {
        4
    } else if id == SPA_AUDIO_CHANNEL_RL {
        5
    } else if id == SPA_AUDIO_CHANNEL_SL {
        6
    } else if id == SPA_AUDIO_CHANNEL_LFE {
        8
    } else {
        7
    }
}

fn rank_of(id: u32) -> (r: u32)
    ensures
        r == sweep_rank(id),
{
    if id == SPA_AUDIO_CHANNEL_FL {
        0
    } else if id == SPA_AUDIO_CHANNEL_FC {
        1
    } else if id == SPA_AUDIO_CHANNEL_FR {
        2
    } else if id == SPA_AUDIO_CHANNEL_SR {
        3
    } else if id == SPA_AUDIO_CHANNEL_RR {
        4
    } else if id == SPA_AUDIO_CHANNEL_RL {
        5
    } else if id == SPA_AUDIO_CHANNEL_SL {
        6
    } else if id == SPA_AUDIO_CHANNEL_LFE {
        8
    } else {
        7
    }
}

/// The channels among the first `n` whose rank is `rank`, in layout order.
pub open spec fn channels_ranked(positions: Seq<u32>, rank: u32, n: int) -> Seq<usize>
    decreases n,
{
    if n <= 0 {
        seq![]
    } else {
        let prev = channels_ranked(positions, rank, n - 1);
        if sweep_rank(positions[n - 1]) == rank {
            prev.push((n - 1) as usize)
        } else {
            prev
        }
    }
}

/// The channels of rank below `r`, by rank, each rank in layout order.
pub open spec fn sweep_below(positions: Seq<u32>, r: u32) -> Seq<usize>
    decreases r,
{
    if r == 0 {
        seq![]
    } else {
        sweep_below(positions, (r - 1) as u32) + channels_ranked(positions, (r - 1) as u32, positions.len() as int)
    }
}

proof fn lemma_channels_ranked_bound(positions: Seq<u32>, rank: u32, n: int)
    requires
        n <= positions.len(),
    ensures
        forall|j: int| 0 <= j < channels_ranked(positions, rank, n).len() ==> #[trigger] channels_ranked(positions, rank, n)[j] < positions.len(),
    decreases n,
{
    if n > 0 {
        lemma_channels_ranked_bound(positions, rank, n - 1);
        let prev = channels_ranked(positions, rank, n - 1);
        let cur = channels_ranked(positions, rank, n);
        assert forall|j: int| 0 <= j < cur.len() implies #[trigger] cur[j] < positions.len() by {
            if j < prev.len() {
                assert(cur[j] == prev[j]);
            } else {
                assert(cur[j] == (n - 1) as usize);
            }
        }
    }
}

proof fn lemma_sweep_below_bound(positions: Seq<u32>, r: u32)
    ensures
        forall|j: int| 0 <= j < sweep_below(positions, r).len() ==> #[trigger] sweep_below(positions, r)[j] < positions.len(),
    decreases r,
{
    if r > 0 {
        lemma_sweep_below_bound(positions, (r - 1) as u32);
        lemma_channels_ranked_bound(positions, (r - 1) as u32, positions.len() as int);
        let a = sweep_below(positions, (r - 1) as u32);
        let b = channels_ranked(positions, (r - 1) as u32, positions.len() as int);
        assert forall|j: int| 0 <= j < (a + b).len() implies #[trigger] (a + b)[j] < positions.len() by {
            if j >= a.len() {
                assert((a + b)[j] == b[j - a.len()]);
            }
        }
    }
}

/// The order the test tone sweeps the channels in: clockwise from FL, LFE
/// last, each channel once.
pub fn clockwise_sweep(positions: &Vec<u32>) -> (r: Vec<usize>)
    ensures
        r@ == sweep_below(positions@, 9),
        forall|j: int| 0 <= j < r@.len() ==> #[trigger] r@[j] < positions@.len(),
{
    let mut out: Vec<usize> = Vec::new();
    let mut rank: u32 = 0;
    while rank < 9
        invariant
            rank <= 9,
            out@ == sweep_below(positions@, rank),
        decreases 9 - rank,
    {
        let ghost before = out@;
        let mut i: usize = 0;
        while i < positions.len()
            invariant
                i <= positions@.len(),
                out@ == before + channels_ranked(positions@, rank, i as int),
            decreases positions@.len() - i,
        {
            if rank_of(positions[i]) == rank {
                out.push(i);
            }
            proof {
                let prev = channels_ranked(positions@, rank, i as int);
                if sweep_rank(positions@[i as int]) == rank {
                    assert(before + prev.push(i) =~= (before + prev).push(i));
                }
            }
            i = i + 1;
        }
        rank = rank + 1;
    }
    proof {
        lemma_sweep_below_bound(positions@, 9);
    }
    out
}

} // verus!
