//! Per-frame decisions of the playback view: transport commands from key
//! presses, and how much of the waveform is revealed. Times are whole
//! milliseconds.
use vstd::prelude::*;

verus! {

/// How far one press of a seek key moves, in milliseconds.
pub const SEEK_STEP_MS: u64 = 5000;

/// `t` clamped to `[0, total]`.
pub open spec fn clamp_time(t: int, total: int) -> int {
    if t < 0 {
        0
    } else if t > total {
        total
    } else {
        t
    }
}

/// Seek target one step back from `elapsed_ms`, clamped to `[0, total_ms]`.
pub fn seek_back_target(elapsed_ms: u64, total_ms: u64) -> (r: u64)
    ensures
        r == clamp_time(elapsed_ms - SEEK_STEP_MS, total_ms as int),
{
    if elapsed_ms < SEEK_STEP_MS {
        0
    } else if elapsed_ms - SEEK_STEP_MS > total_ms {
        total_ms
    } else {
        elapsed_ms - SEEK_STEP_MS
    }
}

/// Seek target one step forward from `elapsed_ms`, clamped to `[0, total_ms]`.
pub fn seek_forward_target(elapsed_ms: u64, total_ms: u64) -> (r: u64)
    ensures
        r == clamp_time(elapsed_ms + SEEK_STEP_MS, total_ms as int),
{
    if elapsed_ms > total_ms || total_ms - elapsed_ms < SEEK_STEP_MS {
        total_ms
    } else {
        elapsed_ms + SEEK_STEP_MS
    }
}

/// A seek back within the first step lands on the start, and a seek forward
/// within the last step lands on the end; no seek leaves `[0, total]`.
pub proof fn lemma_seek_clamps(elapsed_ms: nat, total_ms: nat)
    ensures
        elapsed_ms < SEEK_STEP_MS ==> clamp_time(elapsed_ms - SEEK_STEP_MS, total_ms as int) == 0,
        elapsed_ms <= total_ms && total_ms - elapsed_ms <= SEEK_STEP_MS ==> clamp_time(
            elapsed_ms + SEEK_STEP_MS,
            total_ms as int,
        ) == total_ms,
        0 <= clamp_time(elapsed_ms - SEEK_STEP_MS, total_ms as int) <= total_ms,
        0 <= clamp_time(elapsed_ms + SEEK_STEP_MS, total_ms as int) <= total_ms,
{
}

/// Index of the last revealed chunk: `floor(progress * n)` with
/// `progress = elapsed / total`, elapsed time past the end counting as the
/// end, and a stream of zero length counting as no progress.
pub open spec fn revealed_index_of(elapsed_ms: nat, total_ms: nat, n: nat) -> nat {
    if total_ms == 0 {
        0
    } else if elapsed_ms >= total_ms {
        n
    } else {
        elapsed_ms * n / total_ms
    }
}

/// Index of the last chunk drawn in the accent color.
pub fn revealed_index(elapsed_ms: u64, total_ms: u64, n: usize) -> (r: usize)
    ensures
        r == revealed_index_of(elapsed_ms as nat, total_ms as nat, n as nat),
{
    if total_ms == 0 {
        0
    } else if elapsed_ms >= total_ms {
        n
    } else {
        proof {
            assert(elapsed_ms * n <= 0xffff_ffff_ffff_ffff * 0xffff_ffff_ffff_ffff)
                by (nonlinear_arith)
                requires
                    elapsed_ms <= 0xffff_ffff_ffff_ffff,
                    n <= 0xffff_ffff_ffff_ffff,
            ;
        }
        let product: u128 = elapsed_ms as u128 * n as u128;
        let q: u128 = product / total_ms as u128;
        proof {
            assert(elapsed_ms * n <= total_ms * n) by (nonlinear_arith)
                requires
                    elapsed_ms < total_ms,
            ;
            vstd::arithmetic::div_mod::lemma_div_is_ordered(
                elapsed_ms * n,
                total_ms * n,
                total_ms as int,
            );
            vstd::arithmetic::div_mod::lemma_div_multiples_vanish(n as int, total_ms as int);
            assert(total_ms * n == n * total_ms) by (nonlinear_arith);
        }
        q as usize
    }
}

/// The revealed index never moves back as playback advances, is `0` at the
/// start and `n` (every chunk revealed) at the end.
pub proof fn lemma_revealed_index_monotone(e1: nat, e2: nat, total_ms: nat, n: nat)
    requires
        e1 <= e2,
    ensures
        revealed_index_of(e1, total_ms, n) <= revealed_index_of(e2, total_ms, n),
        revealed_index_of(0, total_ms, n) == 0,
        total_ms > 0 ==> revealed_index_of(total_ms, total_ms, n) == n,
{
    if total_ms > 0 {
        if e1 < total_ms {
            let hi = if e2 >= total_ms {
                total_ms
            } else {
                e2
            };
            assert(e1 * n <= hi * n) by (nonlinear_arith)
                requires
                    e1 <= hi,
            ;
            vstd::arithmetic::div_mod::lemma_div_is_ordered(
                (e1 * n) as int,
                (hi * n) as int,
                total_ms as int,
            );
            vstd::arithmetic::div_mod::lemma_div_multiples_vanish(n as int, total_ms as int);
            assert(total_ms * n == n * total_ms) by (nonlinear_arith);
        }
        assert(0 * n == 0);
    }
}

/// Whether chunk `i` is drawn in the accent color, given the last revealed
/// index.
pub fn is_revealed(i: usize, last_revealed: usize) -> (r: bool)
    ensures
        r == (i <= last_revealed),
{
    i <= last_revealed
}

/// What the transport should do this frame.
#[derive(Clone, Copy, Debug, PartialEq, Eq, Structural)]
pub enum Transport {
    Pause,
    Resume,
}

/// Key presses seen this frame (edges, not held keys).
#[derive(Clone, Copy, Debug, PartialEq, Eq, Structural)]
pub struct KeyPresses {
    pub play_pause: bool,
    pub seek_back: bool,
    pub seek_forward: bool,
}

/// What the audio stream reports at the start of a frame.
#[derive(Clone, Copy, Debug, PartialEq, Eq, Structural)]
pub struct PlaybackState {
    pub elapsed_ms: u64,
    pub total_ms: u64,
    pub is_playing: bool,
}

/// Commands to send to the audio stream this frame: first the transport
/// command, then the seek.
#[derive(Clone, Copy, Debug, PartialEq, Eq, Structural)]
pub struct Commands {
    pub transport: Option<Transport>,
    pub seek_to: Option<u64>,
}

/// Where the keys of this frame seek to: back, then forward from there.
pub open spec fn seek_of(keys: KeyPresses, state: PlaybackState) -> Option<u64> {
    let e = state.elapsed_ms as int;
    let t = state.total_ms as int;
    let after_back = if keys.seek_back {
        clamp_time(e - SEEK_STEP_MS, t)
    } else {
        e
    };
    if keys.seek_forward {
        Some(clamp_time(after_back + SEEK_STEP_MS, t) as u64)
    } else if keys.seek_back {
        Some(after_back as u64)
    } else {
        None
    }
}

/// The commands for this frame's key presses.
pub open spec fn commands_of(keys: KeyPresses, state: PlaybackState) -> Commands {
    Commands {
        transport: if !keys.play_pause {
            None
        } else if state.is_playing {
            Some(Transport::Pause)
        } else {
            Some(Transport::Resume)
        },
        seek_to: seek_of(keys, state),
    }
}

/// Turns this frame's key presses into transport commands: play/pause
/// toggles, and each seek key moves one step, clamped to the stream.
pub fn decide_commands(keys: KeyPresses, state: PlaybackState) -> (r: Commands)
    ensures
        r == commands_of(keys, state),
{
    let transport = if !keys.play_pause {
        None
    } else if state.is_playing {
        Some(Transport::Pause)
    } else {
        Some(Transport::Resume)
    };
    let mut position = state.elapsed_ms;
    if keys.seek_back {
        position = seek_back_target(position, state.total_ms);
    }
    if keys.seek_forward {
        position = seek_forward_target(position, state.total_ms);
    }
    let seek_to = if keys.seek_back || keys.seek_forward {
        Some(position)
    } else {
        None
    };
    Commands { transport, seek_to }
}

} // verus!
