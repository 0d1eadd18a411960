//! Savestate capture and restore: exact rewind to a prior frame boundary.
//!
//! A savestate is an immutable bundle of deep, independently owned copies of
//! every piece of mutable engine state, the replay log up to the captured
//! frame, and the caller's opaque renderer-state record, carried verbatim.
//! Nothing in the bundle aliases live engine state: mutating the engine
//! after a capture is never observable through the savestate, and restoring
//! hands out fresh copies again.  A restore validates before it mutates:
//! an incompatible snapshot fails without touching the live engine.

use crate::engine::Engine;
use crate::engine::EngineError;
use crate::engine::EngineV;
use crate::engine::SceneChange;
use crate::replay::Event;
use crate::replay::Replay;
use crate::replay::ReplayV;
use crate::replay::copy_events;
use crate::rng::Rng;
use crate::rng::RngV;
use crate::store::InstanceStore;
use crate::store::StoreV;
use vstd::prelude::*;

verus! {

/// The renderer's state record: opaque to the core, which never inspects
/// it, only threads it through capture and restore by value.
#[derive(Debug)]
pub struct RendererState {
    pub data: Vec<u8>,
}

impl View for RendererState {
    type V = Seq<u8>;

    open spec fn view(&self) -> Seq<u8> {
        self.data@
    }
}

/// An exact copy of an opaque byte record, owned independently.
fn copy_bytes(v: &Vec<u8>) -> (r: Vec<u8>)
    ensures
        r@ == v@,
{
    let mut out: Vec<u8> = Vec::new();
    let n = v.len();
    for idx in 0..n
        invariant
            n == v@.len(),
            out@ == v@.take(idx as int),
    {
        out.push(v[idx]);
        proof {
            assert(v@.take(idx + 1) =~= v@.take(idx as int).push(v@[idx as int]));
        }
    }
    proof {
        assert(out@ =~= v@);
    }
    out
}

impl RendererState {
    /// An exact copy, owned independently of `self`.
    pub fn duplicate(&self) -> (r: RendererState)
        ensures
            r@ == self@,
    {
        RendererState { data: copy_bytes(&self.data) }
    }
}

/// Mathematical model of a [`SaveState`].
#[verifier::ext_equal]
pub struct SaveStateV {
    pub store: StoreV,
    pub room_id: i32,
    pub room_speed: u32,
    pub rng: RngV,
    pub halted: bool,
    pub scene_change: Option<SceneChange>,
    pub stored_events: Seq<Event>,
    pub replay: ReplayV,
    pub renderer: Seq<u8>,
}

/// What a capture records: every piece of mutable engine state, the replay,
/// and the renderer record, all by value.
pub open spec fn capture_spec(e: EngineV, rep: ReplayV, rs: Seq<u8>) -> SaveStateV {
    SaveStateV {
        store: e.store,
        room_id: e.room_id,
        room_speed: e.room_speed,
        rng: e.rng,
        halted: e.halted,
        scene_change: e.scene_change,
        stored_events: e.stored_events,
        replay: rep,
        renderer: rs,
    }
}

/// What a restore installs: the snapshot's mutable state, under the live
/// engine's immutable asset tables.
pub open spec fn restore_spec(e: EngineV, ss: SaveStateV) -> EngineV {
    EngineV {
        store: ss.store,
        room_id: ss.room_id,
        room_speed: ss.room_speed,
        rng: ss.rng,
        halted: ss.halted,
        scene_change: ss.scene_change,
        stored_events: ss.stored_events,
        rooms: e.rooms,
        sprites: e.sprites,
    }
}

/// Round-trip identity: restoring the savestate just captured from an
/// engine reproduces that engine's observable state exactly — same
/// instances and ids, same field values, same seed and generator state —
/// and hands the very replay and renderer record back.
pub proof fn lemma_capture_restore_identity(e: EngineV, rep: ReplayV, rs: Seq<u8>)
    ensures
        restore_spec(e, capture_spec(e, rep, rs)) == e,
        capture_spec(e, rep, rs).replay == rep,
        capture_spec(e, rep, rs).renderer == rs,
{
    assert(restore_spec(e, capture_spec(e, rep, rs)) =~= e);
}

/// An immutable, independently owned snapshot of a run.
pub struct SaveState {
    store: InstanceStore,
    room_id: i32,
    room_speed: u32,
    rng: Rng,
    halted: bool,
    scene_change: Option<SceneChange>,
    stored_events: Vec<Event>,
    replay: Replay,
    renderer: RendererState,
}

impl View for SaveState {
    type V = SaveStateV;

    closed spec fn view(&self) -> SaveStateV {
        SaveStateV {
            store: self.store@,
            room_id: self.room_id,
            room_speed: self.room_speed,
            rng: self.rng@,
            halted: self.halted,
            scene_change: self.scene_change,
            stored_events: self.stored_events@,
            replay: self.replay@,
            renderer: self.renderer@,
        }
    }
}

impl SaveState {
    /// The captured instance store is well formed.
    pub closed spec fn wf(&self) -> bool {
        self.store.wf()
    }

    /// Captures an atomic bundle: deep copies of the engine's mutable state
    /// (instance store contents, active room identity, generator state) and
    /// of the replay, plus the caller's renderer record verbatim.  No part
    /// of the result shares mutable ownership with the live engine.
    pub fn capture(engine: &Engine, replay: &Replay, renderer_state: &RendererState) -> (r:
        SaveState)
        requires
            engine.wf(),
        ensures
            r.wf(),
            r@ == capture_spec(engine@, replay@, renderer_state@),
    {
        let r = SaveState {
            store: engine.store.duplicate(),
            room_id: engine.room_id,
            room_speed: engine.room_speed,
            rng: engine.rng.duplicate(),
            halted: engine.halted,
            scene_change: engine.scene_change,
            stored_events: copy_events(&engine.stored_events),
            replay: replay.duplicate(),
            renderer: renderer_state.duplicate(),
        };
        proof {
            assert(r@ =~= capture_spec(engine@, replay@, renderer_state@));
        }
        r
    }

    /// Restores the engine to the captured point: replaces its instance
    /// store, room identity and generator state with the snapshot's copies,
    /// and returns the snapshot's replay and renderer record so stepping
    /// and rendering resume exactly there.  All-or-nothing: a snapshot
    /// whose room no longer exists in the engine's room table fails before
    /// any state is installed.
    pub fn restore(&self, engine: &mut Engine) -> (r: Result<
        (Replay, RendererState),
        EngineError,
    >)
        requires
            self.wf(),
            old(engine).wf(),
        ensures
            final(engine).wf(),
            match r {
                Result::Ok(pair) => {
                    &&& 0 <= self@.room_id < old(engine)@.rooms.len()
                    &&& final(engine)@ == restore_spec(old(engine)@, self@)
                    &&& pair.0@ == self@.replay
                    &&& pair.1@ == self@.renderer
                },
                Result::Err(e) => {
                    &&& e == EngineError::SavestateCorrupt
                    &&& !(0 <= self@.room_id < old(engine)@.rooms.len())
                    &&& final(engine)@ == old(engine)@
                },
            },
    {
        if !(0 <= self.room_id && (self.room_id as usize) < engine.rooms.len()) {
            return Result::Err(EngineError::SavestateCorrupt);
        }
        engine.store = self.store.duplicate();
        engine.room_id = self.room_id;
        engine.room_speed = self.room_speed;
        engine.rng = self.rng.duplicate();
        engine.halted = self.halted;
        engine.scene_change = self.scene_change;
        engine.stored_events = copy_events(&self.stored_events);
        let rep = self.replay.duplicate();
        let rs = self.renderer.duplicate();
        proof {
            assert(engine@ =~= restore_spec(old(engine)@, self@));
        }
        Result::Ok((rep, rs))
    }
}

} // verus!
