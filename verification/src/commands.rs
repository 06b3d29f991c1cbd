//! Control commands sent from the control thread to the audio engine, the
//! samples sent back for visualization, and the command-flag state machine.

use vstd::prelude::*;

verus! {

/// A control event for the audio engine.
#[derive(Clone, Copy, Debug, PartialEq, Eq, Structural)]
pub enum ToAudio {
    /// Toggle the microphone capture/echo path.
    ToggleMic,
    /// Toggle forwarding of played samples to the visualizer.
    ToggleVisuals,
}

/// A message from the audio engine to the render thread: one normalized
/// Q16 sample.
#[derive(Clone, Copy, Debug, PartialEq, Eq, Structural)]
pub enum FromAudio {
    Data(i32),
}

/// The playback-side command flags.
#[derive(Clone, Copy, Debug, PartialEq, Eq, Structural)]
pub struct FlagState {
    pub use_mic: bool,
    pub send_to_gfx: bool,
}

/// One command applied to the flags: each command toggles its flag.
pub open spec fn apply_command(f: FlagState, c: ToAudio) -> FlagState {
    match c {
        ToAudio::ToggleMic => FlagState { use_mic: !f.use_mic, ..f },
        ToAudio::ToggleVisuals => FlagState { send_to_gfx: !f.send_to_gfx, ..f },
    }
}

/// A sequence of commands applied in arrival order.
pub open spec fn apply_commands(f: FlagState, cs: Seq<ToAudio>) -> FlagState
    decreases cs.len(),
{
    if cs.len() == 0 {
        f
    } else {
        apply_commands(apply_command(f, cs[0]), cs.drop_first())
    }
}

/// Applying a concatenation applies the two parts in order.
pub proof fn lemma_apply_append(f: FlagState, a: Seq<ToAudio>, b: Seq<ToAudio>)
    ensures
        apply_commands(f, a + b) == apply_commands(apply_commands(f, a), b),
    decreases a.len(),
{
    if a.len() == 0 {
        assert(a + b =~= b);
    } else {
        assert((a + b).drop_first() =~= a.drop_first() + b);
        lemma_apply_append(apply_command(f, a[0]), a.drop_first(), b);
    }
}

/// Toggling any command flag twice restores the flag's earlier state.
pub proof fn lemma_toggle_twice(f: FlagState, c: ToAudio)
    ensures
        apply_command(apply_command(f, c), c) == f,
{
}

/// Sending the same toggle twice, after any earlier commands, leaves the
/// effective flags exactly as the earlier commands alone would, once the
/// whole queue has been drained.
pub proof fn lemma_toggle_twice_drained(f: FlagState, earlier: Seq<ToAudio>, c: ToAudio)
    ensures
        apply_commands(f, earlier.push(c).push(c)) == apply_commands(f, earlier),
{
    let two = seq![c, c];
    assert(earlier.push(c).push(c) =~= earlier + two);
    lemma_apply_append(f, earlier, two);
    let g = apply_commands(f, earlier);
    let g1 = apply_command(g, c);
    let g2 = apply_command(g1, c);
    assert(two.drop_first() =~= seq![c]);
    assert(seq![c].drop_first() =~= Seq::<ToAudio>::empty());
    assert(apply_commands(g, two) == apply_commands(g1, seq![c]));
    assert(apply_commands(g1, seq![c]) == apply_commands(g2, Seq::<ToAudio>::empty()));
    assert(apply_commands(g2, Seq::<ToAudio>::empty()) == g2);
    lemma_toggle_twice(g, c);
}

} // verus!
