//! The audio engine: the state the two real-time callbacks share, and the
//! per-callback processing.
//!
//! The capture side drains inbound commands (keeping its own copy of the
//! microphone flag), forwards them to the playback side through the
//! pending-command ring, and pushes captured samples into the latency
//! ring. The playback side drains the forwarded commands, then produces
//! one current sample per output frame - from the latency ring when the
//! microphone path is on, else from the file source - duplicates it across
//! the frame's channels, and forwards it to the visualizer queue,
//! fire-and-forget. Neither side ever blocks; full and empty buffers are
//! reported, never fatal.

use vstd::prelude::*;

use crate::channel::{try_recv, try_send};
use crate::commands::{apply_command, apply_commands, FlagState, FromAudio, ToAudio};
use crate::ring::{rb_commands, rb_commands_bound, rb_new_commands, rb_new_samples, rb_pop_command,
    rb_pop_sample, rb_push_command, rb_push_sample, rb_samples, rb_samples_bound, CommandRing,
    SampleRing};
use crate::source::FileSource;

verus! {

/// Capacity of the pending-command ring, matching the inbound queue.
pub const CMD_QUEUE_CAP: usize = 1024;

/// How many inbound commands one callback drains at most; the inbound
/// queue holds at most this many at once.
pub const DRAIN_MAX: usize = 1024;

/// The mathematical state of the engine.
#[verifier::ext_equal]
pub struct EngineView {
    /// The capture side's own copy of the microphone flag.
    pub mic_capture: bool,
    /// The playback side's microphone flag.
    pub use_mic: bool,
    /// Whether played samples are forwarded to the visualizer.
    pub send_to_gfx: bool,
    /// Commands drained by the capture side, waiting for the playback side.
    pub pending: Seq<ToAudio>,
    /// Fixed capacity of the pending-command ring.
    pub pending_bound: nat,
    /// The latency ring's samples, oldest first.
    pub ring: Seq<i32>,
    /// Fixed capacity of the latency ring.
    pub ring_bound: nat,
    /// The file source's decoded samples.
    pub file: Seq<i32>,
    /// How many file samples have been played.
    pub file_pos: nat,
}

/// The capture-side command drain: each command toggles the capture-side
/// microphone flag if it is a microphone toggle, and is appended to the
/// pending ring when there is room (dropped otherwise).
pub open spec fn capture_drain(mc: bool, pending: Seq<ToAudio>, bound: nat,
    cmds: Seq<ToAudio>) -> (bool, Seq<ToAudio>)
    decreases cmds.len(),
{
    if cmds.len() == 0 {
        (mc, pending)
    } else {
        let c = cmds[0];
        let mc2 = if c is ToggleMic { !mc } else { mc };
        let p2 = if pending.len() < bound { pending.push(c) } else { pending };
        capture_drain(mc2, p2, bound, cmds.drop_first())
    }
}

/// Draining one more command steps the drain once.
proof fn lemma_capture_drain_push(mc: bool, p: Seq<ToAudio>, b: nat, s: Seq<ToAudio>, c: ToAudio)
    ensures
        capture_drain(mc, p, b, s.push(c)) == ({
            let (m2, p2) = capture_drain(mc, p, b, s);
            (if c is ToggleMic { !m2 } else { m2 }, if p2.len() < b { p2.push(c) } else { p2 })
        }),
    decreases s.len(),
{
    if s.len() == 0 {
        assert(s.push(c).drop_first() =~= Seq::<ToAudio>::empty());
        assert(s.push(c)[0] == c);
        let mc2 = if c is ToggleMic { !mc } else { mc };
        let p2 = if p.len() < b { p.push(c) } else { p };
        assert(capture_drain(mc, p, b, s) == (mc, p));
        assert(capture_drain(mc2, p2, b, s.push(c).drop_first()) == (mc2, p2));
        assert(capture_drain(mc, p, b, s.push(c)) == (mc2, p2));
    } else {
        assert(s.push(c)[0] == s[0]);
        assert(s.push(c).drop_first() =~= s.drop_first().push(c));
        let c0 = s[0];
        let mc2 = if c0 is ToggleMic { !mc } else { mc };
        let p2 = if p.len() < b { p.push(c0) } else { p };
        lemma_capture_drain_push(mc2, p2, b, s.drop_first(), c);
    }
}

/// The drain never grows the pending ring past its bound.
proof fn lemma_capture_drain_bound(mc: bool, p: Seq<ToAudio>, b: nat, s: Seq<ToAudio>)
    requires
        p.len() <= b,
    ensures
        capture_drain(mc, p, b, s).1.len() <= b,
    decreases s.len(),
{
    if s.len() > 0 {
        let c = s[0];
        let mc2 = if c is ToggleMic { !mc } else { mc };
        let p2 = if p.len() < b { p.push(c) } else { p };
        lemma_capture_drain_bound(mc2, p2, b, s.drop_first());
    }
}

/// The latency ring after a capture frame: the input appended up to the
/// ring's free space, the rest dropped.
pub open spec fn ring_fill(ring: Seq<i32>, bound: nat, input: Seq<i32>) -> Seq<i32> {
    let free = bound - ring.len();
    ring + input.take(if input.len() <= free { input.len() as int } else { free })
}

/// The engine after one capture callback that drained `cmds` and captured
/// `input`: the capture flag and pending ring take the drained commands,
/// and the input goes into the latency ring when the microphone is on.
pub open spec fn spec_capture_frame(v: EngineView, cmds: Seq<ToAudio>, input: Seq<i32>)
    -> EngineView {
    let (mc2, p2) = capture_drain(v.mic_capture, v.pending, v.pending_bound, cmds);
    EngineView {
        mic_capture: mc2,
        pending: p2,
        ring: if mc2 { ring_fill(v.ring, v.ring_bound, input) } else { v.ring },
        ..v
    }
}

/// Whether a capture frame overran the latency ring: the microphone path
/// was on and the input did not fit.
pub open spec fn spec_capture_overrun(v: EngineView, cmds: Seq<ToAudio>, input: Seq<i32>) -> bool {
    let (mc2, _) = capture_drain(v.mic_capture, v.pending, v.pending_bound, cmds);
    mc2 && input.len() > v.ring_bound - v.ring.len()
}

/// One playback frame's current sample and the state it leaves:
/// (sample, latency ring, file position, underrun).
pub open spec fn playback_step(use_mic: bool, ring: Seq<i32>, file: Seq<i32>, fpos: nat)
    -> (i32, Seq<i32>, nat, bool) {
    if use_mic {
        if ring.len() > 0 {
            (ring[0], ring.drop_first(), fpos, false)
        } else {
            (0i32, ring, fpos, true)
        }
    } else {
        if fpos < file.len() {
            (file[fpos as int], ring, fpos + 1, false)
        } else {
            (0i32, ring, fpos, false)
        }
    }
}

/// What a run of playback frames produces and leaves behind.
pub struct PlaybackModel {
    /// The current sample of each frame, in order.
    pub samples: Seq<i32>,
    /// The latency ring afterwards.
    pub ring: Seq<i32>,
    /// The file position afterwards.
    pub file_pos: nat,
    /// Whether any frame found the latency ring empty.
    pub underrun: bool,
}

/// The playback model: one `playback_step` per frame.
pub open spec fn playback_model(use_mic: bool, ring: Seq<i32>, file: Seq<i32>, fpos: nat,
    frames: nat) -> PlaybackModel
    decreases frames,
{
    if frames == 0 {
        PlaybackModel { samples: Seq::empty(), ring, file_pos: fpos, underrun: false }
    } else {
        let prev = playback_model(use_mic, ring, file, fpos, (frames - 1) as nat);
        let (s, r2, f2, u) = playback_step(use_mic, prev.ring, file, prev.file_pos);
        PlaybackModel {
            samples: prev.samples.push(s),
            ring: r2,
            file_pos: f2,
            underrun: prev.underrun || u,
        }
    }
}

/// The model yields one sample per frame.
proof fn lemma_playback_model_len(use_mic: bool, ring: Seq<i32>, file: Seq<i32>, fpos: nat,
    frames: nat)
    ensures
        playback_model(use_mic, ring, file, fpos, frames).samples.len() == frames,
    decreases frames,
{
    if frames > 0 {
        lemma_playback_model_len(use_mic, ring, file, fpos, (frames - 1) as nat);
    }
}

/// The audio engine.
pub struct AudioEngine {
    mic_capture: bool,
    use_mic: bool,
    send_to_gfx: bool,
    pending: CommandRing,
    ring: SampleRing,
    file: FileSource,
}

impl AudioEngine {
    /// The engine's mathematical state.
    pub closed spec fn view(&self) -> EngineView {
        EngineView {
            mic_capture: self.mic_capture,
            use_mic: self.use_mic,
            send_to_gfx: self.send_to_gfx,
            pending: rb_commands(self.pending),
            pending_bound: rb_commands_bound(self.pending),
            ring: rb_samples(self.ring),
            ring_bound: rb_samples_bound(self.ring),
            file: self.file.samples(),
            file_pos: self.file.pos(),
        }
    }

    /// The playback-side flags.
    pub open spec fn flags(&self) -> FlagState {
        FlagState { use_mic: self.view().use_mic, send_to_gfx: self.view().send_to_gfx }
    }

    /// Well-formedness: the rings never exceed their fixed bounds and the
    /// file position never runs past the end.
    pub open spec fn wf(&self) -> bool {
        &&& 1 <= self.view().ring_bound
        &&& self.view().ring.len() <= self.view().ring_bound
        &&& 1 <= self.view().pending_bound
        &&& self.view().pending.len() <= self.view().pending_bound
        &&& self.view().file_pos <= self.view().file.len()
    }

    /// Builds an engine around a file source, with a latency ring of twice
    /// the target latency, pre-filled with that much silence to establish
    /// the capture-to-playback delay. The microphone starts off and
    /// forwarding to the visualizer starts on.
    pub fn new(latency_samples: usize, file: FileSource) -> (e: AudioEngine)
        requires
            1 <= latency_samples <= 0x10_0000,
            file.wf(),
        ensures
            e.wf(),
            e.view() == (EngineView {
                mic_capture: false,
                use_mic: false,
                send_to_gfx: true,
                pending: Seq::<ToAudio>::empty(),
                pending_bound: CMD_QUEUE_CAP as nat,
                ring: Seq::new(latency_samples as nat, |i: int| 0i32),
                ring_bound: 2 * latency_samples as nat,
                file: file.samples(),
                file_pos: file.pos(),
            }),
    {
        let mut ring = rb_new_samples(latency_samples * 2);
        let mut i: usize = 0;
        while i < latency_samples
            invariant
                i <= latency_samples,
                rb_samples_bound(ring) == 2 * latency_samples as nat,
                rb_samples(ring) == Seq::new(i as nat, |j: int| 0i32),
            decreases latency_samples - i,
        {
            let ok = rb_push_sample(&mut ring, 0);
            proof {
                assert(ok);
                assert(rb_samples(ring) =~= Seq::new((i + 1) as nat, |j: int| 0i32));
            }
            i = i + 1;
        }
        let pending = rb_new_commands(CMD_QUEUE_CAP);
        let e = AudioEngine {
            mic_capture: false,
            use_mic: false,
            send_to_gfx: true,
            pending,
            ring,
            file,
        };
        proof {
            assert(e.view().ring =~= Seq::new(latency_samples as nat, |i: int| 0i32));
        }
        e
    }

    /// One capture callback: drain the inbound command queue (bounded by
    /// the queue's capacity), keeping the capture-side microphone flag
    /// current and forwarding each command to the playback side (a full
    /// pending ring drops the command - transient backpressure, never
    /// fatal); then, if the microphone path is on, push every captured
    /// sample into the latency ring. Reports whether the ring overran
    /// ("falling behind"): overruns drop the excess samples.
    ///
    /// What the queue delivers depends on the other threads, so the
    /// contract holds for some drained command sequence.
    pub fn capture_frame(&mut self, rx: &crossbeam_channel::Receiver<ToAudio>,
        input: &Vec<i32>) -> (overrun: bool)
        requires
            old(self).wf(),
        ensures
            final(self).wf(),
            exists|cmds: Seq<ToAudio>| {
                &&& final(self).view() == #[trigger] spec_capture_frame(old(self).view(), cmds,
                    input@)
                &&& overrun == spec_capture_overrun(old(self).view(), cmds, input@)
            },
    {
        let ghost v0 = self.view();
        let ghost mut got: Seq<ToAudio> = Seq::empty();
        let mut k: usize = 0;
        let mut done = false;
        while k < DRAIN_MAX && !done
            invariant
                k <= DRAIN_MAX,
                self.view().use_mic == v0.use_mic,
                self.view().send_to_gfx == v0.send_to_gfx,
                self.view().ring == v0.ring,
                self.view().ring_bound == v0.ring_bound,
                self.view().file == v0.file,
                self.view().file_pos == v0.file_pos,
                self.view().pending_bound == v0.pending_bound,
                v0.pending.len() <= v0.pending_bound,
                (self.view().mic_capture, self.view().pending) == capture_drain(v0.mic_capture,
                    v0.pending, v0.pending_bound, got),
            decreases DRAIN_MAX - k,
        {
            proof {
                lemma_capture_drain_bound(v0.mic_capture, v0.pending, v0.pending_bound, got);
            }
            match try_recv(rx) {
                Some(cmd) => {
                    proof {
                        lemma_capture_drain_push(v0.mic_capture, v0.pending, v0.pending_bound,
                            got, cmd);
                        got = got.push(cmd);
                    }
                    match cmd {
                        ToAudio::ToggleMic => {
                            self.mic_capture = !self.mic_capture;
                        },
                        ToAudio::ToggleVisuals => {},
                    }
                    let _ = rb_push_command(&mut self.pending, cmd);
                },
                None => {
                    done = true;
                },
            }
            k = k + 1;
        }
        proof {
            lemma_capture_drain_bound(v0.mic_capture, v0.pending, v0.pending_bound, got);
        }
        let mut overrun = false;
        if self.mic_capture {
            let ghost ring0 = self.view().ring;
            let ghost free0: int = self.view().ring_bound - ring0.len();
            let n: usize = input.len();
            let mut i: usize = 0;
            while i < n
                invariant
                    i <= n,
                    n == input@.len(),
                    self.view().use_mic == v0.use_mic,
                    self.view().send_to_gfx == v0.send_to_gfx,
                    self.view().file == v0.file,
                    self.view().file_pos == v0.file_pos,
                    self.view().pending == capture_drain(v0.mic_capture, v0.pending,
                        v0.pending_bound, got).1,
                    self.view().mic_capture == capture_drain(v0.mic_capture, v0.pending,
                        v0.pending_bound, got).0,
                    self.view().pending_bound == v0.pending_bound,
                    self.view().ring_bound == v0.ring_bound,
                    free0 == v0.ring_bound - ring0.len(),
                    ring0 == v0.ring,
                    ring0.len() <= v0.ring_bound,
                    self.view().ring == ring0 + input@.take(if i <= free0 { i as int } else { free0 }),
                    overrun == (i > free0),
                decreases n - i,
            {
                let ok = rb_push_sample(&mut self.ring, input[i]);
                if !ok {
                    overrun = true;
                }
                proof {
                    if i < free0 {
                        assert(ring0 + input@.take((i + 1) as int)
                            =~= (ring0 + input@.take(i as int)).push(input@[i as int]));
                    } else {
                        assert((ring0 + input@.take(free0)).len() == v0.ring_bound);
                    }
                }
                i = i + 1;
            }
            proof {
                assert(self.view().ring =~= ring_fill(v0.ring, v0.ring_bound, input@));
            }
        }
        proof {
            assert(self.view() == spec_capture_frame(v0, got, input@));
            assert(overrun == spec_capture_overrun(v0, got, input@));
        }
        overrun
    }

    /// Drains the pending-command ring completely, applying each command
    /// in arrival order to the playback-side flags.
    pub fn handle_commands(&mut self)
        requires
            old(self).wf(),
        ensures
            final(self).wf(),
            final(self).flags() == apply_commands(old(self).flags(), old(self).view().pending),
            final(self).view() == (EngineView {
                use_mic: final(self).view().use_mic,
                send_to_gfx: final(self).view().send_to_gfx,
                pending: Seq::<ToAudio>::empty(),
                ..old(self).view()
            }),
    {
        let ghost f0 = self.flags();
        let ghost p0 = self.view().pending;
        let mut done = false;
        while !done
            invariant
                old(self).wf(),
                self.view().mic_capture == old(self).view().mic_capture,
                self.view().ring == old(self).view().ring,
                self.view().ring_bound == old(self).view().ring_bound,
                self.view().file == old(self).view().file,
                self.view().file_pos == old(self).view().file_pos,
                self.view().pending_bound == old(self).view().pending_bound,
                self.view().pending.len() <= self.view().pending_bound,
                apply_commands(f0, p0) == apply_commands(self.flags(), self.view().pending),
                done ==> self.view().pending.len() == 0,
            decreases self.view().pending.len() + (if done { 0int } else { 1int }),
        {
            let ghost f_pre = self.flags();
            let ghost pend_old = self.view().pending;
            match rb_pop_command(&mut self.pending) {
                Some(c) => {
                    match c {
                        ToAudio::ToggleMic => {
                            self.use_mic = !self.use_mic;
                        },
                        ToAudio::ToggleVisuals => {
                            self.send_to_gfx = !self.send_to_gfx;
                        },
                    }
                    proof {
                        assert(self.flags() == apply_command(f_pre, c));
                        assert(self.view().pending == pend_old.drop_first());
                        assert(apply_commands(f_pre, pend_old)
                            == apply_commands(apply_command(f_pre, pend_old[0]),
                                pend_old.drop_first()));
                    }
                },
                None => {
                    done = true;
                },
            }
        }
        proof {
            assert(apply_commands(self.flags(), Seq::<ToAudio>::empty()) == self.flags());
            assert(self.view() =~= (EngineView {
                use_mic: self.view().use_mic,
                send_to_gfx: self.view().send_to_gfx,
                pending: Seq::<ToAudio>::empty(),
                ..old(self).view()
            }));
        }
    }

    /// One playback callback: drain the forwarded commands, then fill
    /// `frames` output frames of `channels` samples each. Each frame's
    /// current sample comes from the latency ring when the microphone path
    /// is on (silence and an underrun report when it is empty), else from
    /// the file source; it is duplicated across the frame's channels, and,
    /// when forwarding is on, offered to the visualizer queue without ever
    /// blocking - a full queue drops the sample and nothing else changes.
    pub fn playback_frame(&mut self, frames: usize, channels: usize,
        tx: &crossbeam_channel::Sender<FromAudio>) -> (r: (Vec<i32>, bool))
        requires
            old(self).wf(),
            frames <= 65536,
            1 <= channels <= 256,
        ensures
            final(self).wf(),
            ({
                let f2 = apply_commands(old(self).flags(), old(self).view().pending);
                let m = playback_model(f2.use_mic, old(self).view().ring, old(self).view().file,
                    old(self).view().file_pos, frames as nat);
                &&& final(self).flags() == f2
                &&& final(self).view().mic_capture == old(self).view().mic_capture
                &&& final(self).view().pending == Seq::<ToAudio>::empty()
                &&& final(self).view().pending_bound == old(self).view().pending_bound
                &&& final(self).view().ring == m.ring
                &&& final(self).view().ring_bound == old(self).view().ring_bound
                &&& final(self).view().file == old(self).view().file
                &&& final(self).view().file_pos == m.file_pos
                &&& r.0@.len() == frames * channels
                &&& (forall|i: int| 0 <= i < frames * channels ==> r.0@[i]
                    == m.samples[i / (channels as int)])
                &&& r.1 == m.underrun
            }),
    {
        self.handle_commands();
        let ghost um = self.view().use_mic;
        let ghost ring0 = self.view().ring;
        let ghost file0 = self.view().file;
        let ghost fpos0 = self.view().file_pos;
        let mut out: Vec<i32> = Vec::new();
        let mut underrun = false;
        let mut f: usize = 0;
        while f < frames
            invariant
                f <= frames,
                frames <= 65536,
                1 <= channels <= 256,
                self.wf(),
                um == self.view().use_mic,
                self.view().send_to_gfx == apply_commands(old(self).flags(),
                    old(self).view().pending).send_to_gfx,
                um == apply_commands(old(self).flags(), old(self).view().pending).use_mic,
                self.view().mic_capture == old(self).view().mic_capture,
                self.view().pending == Seq::<ToAudio>::empty(),
                self.view().pending_bound == old(self).view().pending_bound,
                self.view().ring_bound == old(self).view().ring_bound,
                self.view().file == file0,
                ring0 == old(self).view().ring,
                file0 == old(self).view().file,
                fpos0 == old(self).view().file_pos,
                ({
                    let mf = playback_model(um, ring0, file0, fpos0, f as nat);
                    &&& self.view().ring == mf.ring
                    &&& self.view().file_pos == mf.file_pos
                    &&& underrun == mf.underrun
                    &&& out@.len() == f * channels
                    &&& (forall|i: int| 0 <= i < f * channels ==> out@[i]
                        == mf.samples[i / (channels as int)])
                }),
            decreases frames - f,
        {
            let ghost mf = playback_model(um, ring0, file0, fpos0, f as nat);
            proof {
                lemma_playback_model_len(um, ring0, file0, fpos0, f as nat);
            }
            let s: i32 = if self.use_mic {
                match rb_pop_sample(&mut self.ring) {
                    Some(v) => v,
                    None => {
                        underrun = true;
                        0
                    },
                }
            } else {
                self.file.next_sample()
            };
            if self.send_to_gfx {
                let _ = try_send(tx, FromAudio::Data(s));
            }
            let ghost out_pre = out@;
            let mut c: usize = 0;
            while c < channels
                invariant
                    c <= channels,
                    out@ == out_pre + Seq::new(c as nat, |j: int| s),
                decreases channels - c,
            {
                out.push(s);
                proof {
                    assert(out@ =~= out_pre + Seq::new(c as nat + 1, |j: int| s));
                }
                c = c + 1;
            }
            f = f + 1;
            proof {
                let mf2 = playback_model(um, ring0, file0, fpos0, f as nat);
                lemma_playback_model_len(um, ring0, file0, fpos0, f as nat);
                assert(mf2.samples == mf.samples.push(s));
                assert(out@.len() == f * channels) by (nonlinear_arith)
                    requires
                        out@.len() == out_pre.len() + channels,
                        out_pre.len() == (f - 1) * channels,
                ;
                assert forall|i: int| 0 <= i < f * channels implies out@[i]
                    == mf2.samples[i / (channels as int)] by {
                    let fprev: int = f - 1;
                    if i < fprev * channels {
                        assert(out@[i] == out_pre[i]);
                        assert(mf2.samples[i / (channels as int)]
                            == mf.samples[i / (channels as int)]) by {
                            vstd::arithmetic::div_mod::lemma_div_pos_is_pos(i, channels as int);
                            assert(fprev * channels == (channels as int) * fprev)
                                by (nonlinear_arith);
                            vstd::arithmetic::div_mod::lemma_multiply_divide_lt(i,
                                channels as int, fprev);
                        }
                    } else {
                        assert(out@[i] == s);
                        vstd::arithmetic::div_mod::lemma_fundamental_div_mod_converse(i,
                            channels as int, fprev, i - fprev * channels);
                        assert(mf2.samples[fprev] == s);
                    }
                }
            }
        }
        (out, underrun)
    }
}

/// Pushing one sample and then popping one, in lockstep: what comes out,
/// and what the ring holds afterwards.
pub open spec fn lockstep(state: Seq<i32>, inputs: Seq<i32>) -> (Seq<i32>, Seq<i32>)
    decreases inputs.len(),
{
    if inputs.len() == 0 {
        (Seq::empty(), state)
    } else {
        let st1 = state.push(inputs[0]);
        let rest = lockstep(st1.drop_first(), inputs.drop_first());
        (seq![st1[0]] + rest.0, rest.1)
    }
}

/// The latency ring is first-in-first-out under lockstep use: starting
/// from any pre-filled contents (at startup, the target latency's worth of
/// silence), pushing each new sample and then popping one yields exactly
/// the pushed stream in order - the pre-fill first, then the inputs - and
/// never yields more entries than were pushed in total.
pub proof fn lemma_lockstep_fifo(state: Seq<i32>, inputs: Seq<i32>)
    ensures
        lockstep(state, inputs).0 == (state + inputs).take(inputs.len() as int),
        lockstep(state, inputs).1 == (state + inputs).skip(inputs.len() as int),
        lockstep(state, inputs).0.len() <= state.len() + inputs.len(),
    decreases inputs.len(),
{
    if inputs.len() == 0 {
        assert(lockstep(state, inputs).0 =~= (state + inputs).take(0));
        assert(lockstep(state, inputs).1 =~= (state + inputs).skip(0));
    } else {
        let st1 = state.push(inputs[0]);
        lemma_lockstep_fifo(st1.drop_first(), inputs.drop_first());
        assert(st1.drop_first() + inputs.drop_first() =~= (state + inputs).drop_first());
        assert(lockstep(state, inputs).0 =~= (state + inputs).take(inputs.len() as int));
        assert(lockstep(state, inputs).1 =~= (state + inputs).skip(inputs.len() as int));
    }
}

} // verus!
