//! Append-only record of recorded input, sufficient to reproduce a run.
//!
//! A replay starts from the originating seed and a spoofed start time,
//! optionally carries the events captured before frame 0 (the startup
//! events, immutable once set), and then one [`ReplayFrame`] per recorded
//! frame.  While recording, the frame sequence only ever grows; rewinding is
//! done by swapping the whole log for the copy a savestate kept.

use vstd::prelude::*;

verus! {

/// One recorded input event, as the input-capture layer hands it over.
#[derive(Debug, Clone, Copy, PartialEq, Eq, Structural)]
pub enum Event {
    KeyPress(u8),
    KeyRelease(u8),
    MousePress(u8),
    MouseRelease(u8),
    MouseMove(i32, i32),
}

/// One recorded frame: the target simulation speed at recording time, the
/// input consumed during the frame, and the optional overrides.
#[derive(Debug)]
pub struct ReplayFrame {
    pub speed: u32,
    pub events: Vec<Event>,
    pub new_seed: Option<u64>,
    pub new_mouse: Option<(i32, i32)>,
}

/// Mathematical model of a [`ReplayFrame`].
#[verifier::ext_equal]
pub struct FrameV {
    pub speed: u32,
    pub events: Seq<Event>,
    pub new_seed: Option<u64>,
    pub new_mouse: Option<(i32, i32)>,
}

impl View for ReplayFrame {
    type V = FrameV;

    open spec fn view(&self) -> FrameV {
        FrameV {
            speed: self.speed,
            events: self.events@,
            new_seed: self.new_seed,
            new_mouse: self.new_mouse,
        }
    }
}

/// An exact copy of an event list, owned independently.
pub(crate) fn copy_events(v: &Vec<Event>) -> (r: Vec<Event>)
    ensures
        r@ == v@,
{
    let mut out: Vec<Event> = Vec::new();
    let n = v.len();
    for idx in 0..n
        invariant
            n == v@.len(),
            out@ == v@.take(idx as int),
    {
        out.push(v[idx]);
        proof {
            assert(v@.take(idx + 1) =~= v@.take(idx as int).push(v@[idx as int]));
        }
    }
    proof {
        assert(out@ =~= v@);
    }
    out
}

impl ReplayFrame {
    /// An exact copy, owned independently of `self`.
    pub fn duplicate(&self) -> (r: ReplayFrame)
        ensures
            r@ == self@,
    {
        ReplayFrame {
            speed: self.speed,
            events: copy_events(&self.events),
            new_seed: self.new_seed,
            new_mouse: self.new_mouse,
        }
    }
}

/// Mathematical model of a [`Replay`].
#[verifier::ext_equal]
pub struct ReplayV {
    pub seed: u64,
    pub start_time: u64,
    pub startup_events: Seq<Event>,
    pub startup_set: bool,
    pub frames: Seq<FrameV>,
}

/// The append-only input replay log.
#[derive(Debug)]
pub struct Replay {
    seed: u64,
    start_time: u64,
    startup_events: Vec<Event>,
    startup_set: bool,
    frames: Vec<ReplayFrame>,
}

impl View for Replay {
    type V = ReplayV;

    closed spec fn view(&self) -> ReplayV {
        ReplayV {
            seed: self.seed,
            start_time: self.start_time,
            startup_events: self.startup_events@,
            startup_set: self.startup_set,
            frames: self.frames@.map_values(|f: ReplayFrame| f@),
        }
    }
}

impl Replay {
    /// An empty log originating from `start_time` (spoofed nanoseconds) and
    /// `seed`.
    pub fn new(start_time: u64, seed: u64) -> (r: Replay)
        ensures
            r@ == (ReplayV {
                seed: seed,
                start_time: start_time,
                startup_events: Seq::<Event>::empty(),
                startup_set: false,
                frames: Seq::<FrameV>::empty(),
            }),
    {
        let r = Replay {
            seed: seed,
            start_time: start_time,
            startup_events: Vec::new(),
            startup_set: false,
            frames: Vec::new(),
        };
        proof {
            assert(r@ =~= ReplayV {
                seed: seed,
                start_time: start_time,
                startup_events: Seq::<Event>::empty(),
                startup_set: false,
                frames: Seq::<FrameV>::empty(),
            });
        }
        r
    }

    /// The originating seed.
    pub fn seed(&self) -> (r: u64)
        ensures
            r == self@.seed,
    {
        self.seed
    }

    /// The originating spoofed start time, in nanoseconds.
    pub fn start_time(&self) -> (r: u64)
        ensures
            r == self@.start_time,
    {
        self.start_time
    }

    /// How many frames have been recorded.
    pub fn frame_count(&self) -> (r: usize)
        ensures
            r == self@.frames.len(),
    {
        self.frames.len()
    }

    /// Appends one recorded frame; everything recorded before stays as it
    /// was.
    pub fn record_frame(
        &mut self,
        speed: u32,
        events: Vec<Event>,
        new_seed: Option<u64>,
        new_mouse: Option<(i32, i32)>,
    )
        ensures
            final(self)@ == (ReplayV {
                frames: old(self)@.frames.push(
                    FrameV {
                        speed: speed,
                        events: events@,
                        new_seed: new_seed,
                        new_mouse: new_mouse,
                    },
                ),
                ..old(self)@
            }),
    {
        let ghost ev = events@;
        self.frames.push(
            ReplayFrame { speed: speed, events: events, new_seed: new_seed, new_mouse: new_mouse },
        );
        proof {
            assert(self@.frames =~= old(self)@.frames.push(
                FrameV { speed: speed, events: ev, new_seed: new_seed, new_mouse: new_mouse },
            ));
            assert(self@ =~= ReplayV {
                frames: old(self)@.frames.push(
                    FrameV { speed: speed, events: ev, new_seed: new_seed, new_mouse: new_mouse },
                ),
                ..old(self)@
            });
        }
    }

    /// Captures the input that occurred during initialisation, before frame
    /// 0.  Accepted at most once, and only before the first recorded frame;
    /// a late call is rejected and changes nothing.
    pub fn record_startup(&mut self, events: Vec<Event>) -> (accepted: bool)
        ensures
            accepted == (!old(self)@.startup_set && old(self)@.frames.len() == 0),
            accepted ==> final(self)@ == (ReplayV {
                startup_events: events@,
                startup_set: true,
                ..old(self)@
            }),
            !accepted ==> final(self)@ == old(self)@,
    {
        if !self.startup_set && self.frames.len() == 0 {
            self.startup_events = events;
            self.startup_set = true;
            proof {
                assert(self@ =~= ReplayV {
                    startup_events: self.startup_events@,
                    startup_set: true,
                    ..old(self)@
                });
            }
            true
        } else {
            false
        }
    }

    /// Whether the startup block has been captured.
    pub fn startup_recorded(&self) -> (r: bool)
        ensures
            r == self@.startup_set,
    {
        self.startup_set
    }

    /// Rebuilds a log from its parts, as the persisted-layout reader needs.
    pub(crate) fn assemble(
        seed: u64,
        start_time: u64,
        startup_events: Vec<Event>,
        startup_set: bool,
        frames: Vec<ReplayFrame>,
    ) -> (r: Replay)
        ensures
            r@ == (ReplayV {
                seed: seed,
                start_time: start_time,
                startup_events: startup_events@,
                startup_set: startup_set,
                frames: frames@.map_values(|f: ReplayFrame| f@),
            }),
    {
        Replay {
            seed: seed,
            start_time: start_time,
            startup_events: startup_events,
            startup_set: startup_set,
            frames: frames,
        }
    }

    /// Every list a log holds fits the machine, frame event lists included.
    pub proof fn lemma_lens_bounded(&self)
        ensures
            self@.startup_events.len() <= usize::MAX,
            self@.frames.len() <= usize::MAX,
            forall|i: int|
                0 <= i < self@.frames.len() ==> (#[trigger] self@.frames[i]).events.len()
                    <= usize::MAX,
    {
        assert(vstd::std_specs::vec::spec_vec_len(&self.startup_events)
            == self.startup_events@.len());
        assert(vstd::std_specs::vec::spec_vec_len(&self.frames) == self.frames@.len());
        assert forall|i: int|
            0 <= i < self@.frames.len() implies (#[trigger] self@.frames[i]).events.len()
            <= usize::MAX by {
            assert(self@.frames[i] == self.frames@[i]@);
            assert(vstd::std_specs::vec::spec_vec_len(&self.frames@[i].events)
                == self.frames@[i].events@.len());
        }
    }

    /// The startup events, for playback.
    pub fn startup_events(&self) -> (r: &Vec<Event>)
        ensures
            r@ == self@.startup_events,
    {
        &self.startup_events
    }

    /// The recorded frame at `index`, for playback.
    pub fn get_frame(&self, index: usize) -> (r: &ReplayFrame)
        requires
            index < self@.frames.len(),
        ensures
            r@ == self@.frames[index as int],
    {
        &self.frames[index]
    }

    /// A deep, independently owned copy of the whole log.
    pub fn duplicate(&self) -> (r: Replay)
        ensures
            r@ == self@,
    {
        let mut frames: Vec<ReplayFrame> = Vec::new();
        let n = self.frames.len();
        for idx in 0..n
            invariant
                n == self.frames@.len(),
                frames@.len() == idx,
                forall|j: int| 0 <= j < idx ==> (#[trigger] frames@[j])@ == self.frames@[j]@,
        {
            frames.push(self.frames[idx].duplicate());
        }
        let r = Replay {
            seed: self.seed,
            start_time: self.start_time,
            startup_events: copy_events(&self.startup_events),
            startup_set: self.startup_set,
            frames: frames,
        };
        proof {
            assert(r@.frames =~= self@.frames);
            assert(r@ =~= self@);
        }
        r
    }
}

} // verus!
