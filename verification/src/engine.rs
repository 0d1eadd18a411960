//! The simulation stepper and its scene-change state machine.
//!
//! A frame runs to completion under the caller's control: the caller feeds
//! the frame's input, the external scripting engine applies its effects to
//! the instance store and the random number generator and may request a
//! scene change, and then [`Engine::advance_frame`] inspects the requested
//! outcome and applies it — switching rooms under the defined unload rules,
//! restarting from the first room, or ending the run.  A script abort or a
//! scene load against an unknown room id is fatal: stepping halts, nothing
//! is rolled back, and the failure is surfaced to the caller.

use crate::instance::InstanceV;
use crate::instance::SpriteDesc;
use crate::instance::new_instance_v;
use crate::instance::sprites_wf;
use crate::replay::Event;
use crate::replay::ReplayFrame;
use crate::rng::Rng;
use crate::rng::RngV;
use crate::store::InstanceStore;
use crate::store::StoreV;
use vstd::prelude::*;

verus! {

/// The scene outcome a frame can request: continue, switch to a room,
/// restart from the first room, or end the run.
#[derive(Debug, Clone, Copy, PartialEq, Eq, Structural)]
pub enum SceneChange {
    Room(i32),
    Restart,
    End,
}

/// What the external scripting engine reported for the frame.
#[derive(Debug, Clone, Copy, PartialEq, Eq, Structural)]
pub enum ScriptOutcome {
    Completed,
    Abort,
}

/// The fatal failures of the core.  Local, recoverable lookup failures are
/// absence indicators instead; these halt the affected operation.
#[derive(Debug, Clone, Copy, PartialEq, Eq, Structural)]
pub enum EngineError {
    /// The scripting engine reported an unrecoverable condition.
    ScriptAbort,
    /// A scene load referenced a room id that does not exist.
    SceneLoadFailure(i32),
    /// A restore target is structurally incompatible with the live engine.
    SavestateCorrupt,
}

/// A room definition from the read-only asset store: the target simulation
/// speed and the initial layout (object type and spawn position each).
pub struct RoomDef {
    pub speed: u32,
    pub layout: Vec<(i32, i64, i64)>,
}

/// Mathematical model of a [`RoomDef`].
#[verifier::ext_equal]
pub struct RoomV {
    pub speed: u32,
    pub layout: Seq<(i32, i64, i64)>,
}

impl View for RoomDef {
    type V = RoomV;

    open spec fn view(&self) -> RoomV {
        RoomV { speed: self.speed, layout: self.layout@ }
    }
}

/// Mathematical model of an [`Engine`].
#[verifier::ext_equal]
pub struct EngineV {
    pub store: StoreV,
    pub room_id: i32,
    pub room_speed: u32,
    pub rng: RngV,
    pub halted: bool,
    pub scene_change: Option<SceneChange>,
    pub stored_events: Seq<Event>,
    pub rooms: Seq<RoomV>,
    pub sprites: Seq<SpriteDesc>,
}

/// The deterministic simulation engine: the explicit context value every
/// stepper, store and savestate operation works on.
pub struct Engine {
    pub store: InstanceStore,
    pub room_id: i32,
    pub room_speed: u32,
    pub rng: Rng,
    pub halted: bool,
    pub scene_change: Option<SceneChange>,
    pub stored_events: Vec<Event>,
    pub rooms: Vec<RoomDef>,
    pub sprites: Vec<SpriteDesc>,
}

impl View for Engine {
    type V = EngineV;

    open spec fn view(&self) -> EngineV {
        EngineV {
            store: self.store@,
            room_id: self.room_id,
            room_speed: self.room_speed,
            rng: self.rng@,
            halted: self.halted,
            scene_change: self.scene_change,
            stored_events: self.stored_events@,
            rooms: self.rooms@.map_values(|r: RoomDef| r@),
            sprites: self.sprites@,
        }
    }
}

/// The model of an instance just spawned from a room layout item: a fresh
/// instance of the item's object type, placed at the item's position.
pub open spec fn placed_instance_v(id: i32, item: (i32, i64, i64)) -> InstanceV {
    InstanceV {
        x: item.1,
        y: item.2,
        xprevious: item.1,
        yprevious: item.2,
        xstart: item.1,
        ystart: item.2,
        bbox_updated: false,
        ..new_instance_v(id, item.0)
    }
}

/// The store after spawning one layout item.
pub open spec fn spawn_one(s: StoreV, item: (i32, i64, i64)) -> StoreV {
    StoreV {
        slots: s.slots.push(Option::Some(placed_instance_v(s.next_id, item))),
        next_id: (s.next_id + 1) as i32,
    }
}

/// The store after spawning a whole layout, in order.
pub open spec fn spawn_all(s: StoreV, layout: Seq<(i32, i64, i64)>) -> StoreV
    decreases layout.len(),
{
    if layout.len() == 0 {
        s
    } else {
        spawn_one(spawn_all(s, layout.drop_last()), layout.last())
    }
}

/// The room-unload rule for one slot: persistent instances carry over,
/// everything else is destroyed.
pub open spec fn unload_slot(o: Option<InstanceV>) -> Option<InstanceV> {
    match o {
        Option::None => Option::None,
        Option::Some(i) => if i.persistent {
            Option::Some(i)
        } else {
            Option::None
        },
    }
}

/// The store after tearing the current room down.
pub open spec fn unload_spec(s: StoreV) -> StoreV {
    StoreV { slots: s.slots.map_values(|o: Option<InstanceV>| unload_slot(o)), next_id: s.next_id }
}

/// The engine after loading room `id`: the current room is torn down under
/// the unload rules, the new room's layout is instantiated, and the active
/// room identity and speed switch over.
pub open spec fn load_room_spec(e: EngineV, id: int) -> EngineV {
    EngineV {
        store: spawn_all(unload_spec(e.store), e.rooms[id].layout),
        room_id: id as i32,
        room_speed: e.rooms[id].speed,
        ..e
    }
}

/// The engine state after one frame's scene outcome is applied.
pub open spec fn step_state(e: EngineV, script: ScriptOutcome) -> EngineV {
    if script is Abort {
        EngineV { halted: true, ..e }
    } else {
        match e.scene_change {
            Option::None => EngineV { stored_events: Seq::empty(), ..e },
            Option::Some(SceneChange::Room(id)) => if 0 <= id < e.rooms.len() {
                EngineV {
                    scene_change: Option::None,
                    stored_events: Seq::empty(),
                    ..load_room_spec(e, id as int)
                }
            } else {
                EngineV { halted: true, ..e }
            },
            Option::Some(SceneChange::Restart) => EngineV {
                scene_change: Option::None,
                stored_events: Seq::empty(),
                ..load_room_spec(
                    EngineV {
                        store: StoreV {
                            slots: Seq::<Option<InstanceV>>::empty(),
                            next_id: e.store.next_id,
                        },
                        ..e
                    },
                    0,
                )
            },
            Option::Some(SceneChange::End) => EngineV {
                halted: true,
                scene_change: Option::None,
                stored_events: Seq::empty(),
                ..e
            },
        }
    }
}

/// The outcome one frame reports: the applied scene change, or the fatal
/// failure, exactly as the scene-change state machine defines it.
pub open spec fn step_result(e: EngineV, script: ScriptOutcome) -> Result<
    Option<SceneChange>,
    EngineError,
> {
    if script is Abort {
        Result::Err(EngineError::ScriptAbort)
    } else {
        match e.scene_change {
            Option::None => Result::Ok(Option::None),
            Option::Some(SceneChange::Room(id)) => if 0 <= id < e.rooms.len() {
                Result::Ok(Option::Some(SceneChange::Room(id)))
            } else {
                Result::Err(EngineError::SceneLoadFailure(id))
            },
            Option::Some(SceneChange::Restart) => Result::Ok(Option::Some(SceneChange::Restart)),
            Option::Some(SceneChange::End) => Result::Ok(Option::Some(SceneChange::End)),
        }
    }
}

/// The engine after a whole sequence of frames.
pub open spec fn run_steps(e: EngineV, scripts: Seq<ScriptOutcome>) -> EngineV
    decreases scripts.len(),
{
    if scripts.len() == 0 {
        e
    } else {
        step_state(run_steps(e, scripts.drop_last()), scripts.last())
    }
}

/// Determinism: the whole step relation is a function of the starting state
/// and the per-frame outcomes alone — nothing else enters.  Replaying the
/// same recorded run twice from the same seed therefore passes through
/// identical states, instance stores included, both times.
pub proof fn lemma_replay_deterministic(a: EngineV, b: EngineV, scripts: Seq<ScriptOutcome>)
    requires
        a == b,
    ensures
        run_steps(a, scripts) == run_steps(b, scripts),
{
}

/// Allocation counters stay clear of the id range's end for every room that
/// could be loaded next.
pub open spec fn id_headroom_ok(e: EngineV) -> bool {
    forall|k: int|
        0 <= k < e.rooms.len() ==> e.store.next_id + (#[trigger] e.rooms[k]).layout.len()
            <= i32::MAX
}

/// The initial engine over the given asset tables, freshly seeded.
pub open spec fn initial_engine(rooms: Seq<RoomV>, sprites: Seq<SpriteDesc>, seed: u64) -> EngineV {
    EngineV {
        store: StoreV {
            slots: Seq::<Option<InstanceV>>::empty(),
            next_id: crate::store::FIRST_INSTANCE_ID,
        },
        room_id: 0,
        room_speed: rooms[0].speed,
        rng: RngV { seed: seed, state: seed },
        halted: false,
        scene_change: Option::None,
        stored_events: Seq::<Event>::empty(),
        rooms: rooms,
        sprites: sprites,
    }
}

impl Engine {
    /// The store is well formed, the room table is non-empty, the active
    /// room exists, and the sprite table is sane.
    pub open spec fn wf(&self) -> bool {
        &&& self.store.wf()
        &&& self.rooms@.len() >= 1
        &&& 0 <= self.room_id < self.rooms@.len()
        &&& sprites_wf(self.sprites@)
    }

    /// A fresh engine over the given asset tables, seeded with `seed`, with
    /// no instances yet and the first room active.  Absence when the room
    /// table is empty or the sprite table is malformed.
    pub fn new(rooms: Vec<RoomDef>, sprites: Vec<SpriteDesc>, seed: u64) -> (r: Option<Engine>)
        ensures
            match r {
                Option::Some(e) => {
                    &&& rooms@.len() >= 1
                    &&& sprites_wf(sprites@)
                    &&& e.wf()
                    &&& e@ == initial_engine(rooms@.map_values(|rm: RoomDef| rm@), sprites@, seed)
                },
                Option::None => rooms@.len() == 0 || !sprites_wf(sprites@),
            },
    {
        if rooms.len() == 0 {
            return Option::None;
        }
        let ns = sprites.len();
        for k in 0..ns
            invariant
                ns == sprites@.len(),
                forall|j: int| 0 <= j < k ==> (#[trigger] sprites@[j]).wf(),
        {
            let sp = sprites[k];
            let ok = 0 <= sp.width && sp.width <= crate::instance::MAX_SPRITE_EXTENT && 0
                <= sp.height && sp.height <= crate::instance::MAX_SPRITE_EXTENT
                && -crate::instance::MAX_SPRITE_EXTENT <= sp.origin_x && sp.origin_x
                <= crate::instance::MAX_SPRITE_EXTENT && -crate::instance::MAX_SPRITE_EXTENT
                <= sp.origin_y && sp.origin_y <= crate::instance::MAX_SPRITE_EXTENT;
            if !ok {
                return Option::None;
            }
        }
        let room_speed = rooms[0].speed;
        let e = Engine {
            store: InstanceStore::new(),
            room_id: 0,
            room_speed: room_speed,
            rng: Rng::new(seed),
            halted: false,
            scene_change: Option::None,
            stored_events: Vec::new(),
            rooms: rooms,
            sprites: sprites,
        };
        proof {
            assert(e@ =~= initial_engine(
                e.rooms@.map_values(|rm: RoomDef| rm@),
                e.sprites@,
                seed,
            ));
        }
        Option::Some(e)
    }

    /// The scripting layer's channel: requests the scene outcome the next
    /// frame boundary will apply.
    pub fn request_scene_change(&mut self, sc: SceneChange)
        ensures
            final(self)@ == (EngineV { scene_change: Option::Some(sc), ..old(self)@ }),
    {
        self.scene_change = Option::Some(sc);
        proof {
            assert(self@ =~= EngineV { scene_change: Option::Some(sc), ..old(self)@ });
        }
    }

    /// The input layer's channel: stores one event consumed this frame, to
    /// be handed back at the frame boundary for logging.
    pub fn push_event(&mut self, ev: Event)
        ensures
            final(self)@ == (EngineV {
                stored_events: old(self)@.stored_events.push(ev),
                ..old(self)@
            }),
    {
        self.stored_events.push(ev);
        proof {
            assert(self@ =~= EngineV {
                stored_events: old(self)@.stored_events.push(ev),
                ..old(self)@
            });
        }
    }

    /// Applies a recorded frame's overrides before the frame runs: a reseed
    /// override resets the generator exactly as it was reset when the frame
    /// was recorded, which playback depends on.
    pub fn apply_frame_overrides(&mut self, frame: &ReplayFrame)
        ensures
            final(self)@ == (EngineV {
                rng: match frame@.new_seed {
                    Option::Some(v) => RngV { seed: v, state: v },
                    Option::None => old(self)@.rng,
                },
                ..old(self)@
            }),
    {
        match frame.new_seed {
            Option::Some(v) => {
                self.rng.seed(v);
            },
            Option::None => {},
        }
        proof {
            assert(self@ =~= EngineV {
                rng: match frame@.new_seed {
                    Option::Some(v) => RngV { seed: v, state: v },
                    Option::None => old(self)@.rng,
                },
                ..old(self)@
            });
        }
    }

    /// Whether enough stable ids remain to load any room of the table; a
    /// caller checks this before stepping, as the machine limit demands.
    pub fn id_headroom(&self) -> (r: bool)
        ensures
            r == id_headroom_ok(self@),
    {
        let n = self.rooms.len();
        let next = self.store.next_id();
        for k in 0..n
            invariant
                n == self.rooms@.len(),
                next == self@.store.next_id,
                forall|j: int|
                    0 <= j < k ==> self@.store.next_id + (#[trigger] self@.rooms[j]).layout.len()
                        <= i32::MAX,
        {
            let len = self.rooms[k].layout.len();
            if !((next as i128) + (len as i128) <= (i32::MAX as i128)) {
                proof {
                    assert(self@.rooms[k as int].layout.len() == len);
                }
                return false;
            }
        }
        true
    }

    /// Tears the current room down under the unload rules and instantiates
    /// room `id`'s initial layout.
    fn load_room_exec(&mut self, id: i32)
        requires
            old(self).wf(),
            0 <= id < old(self)@.rooms.len(),
            old(self)@.store.next_id + old(self)@.rooms[id as int].layout.len() <= i32::MAX,
        ensures
            final(self).wf(),
            final(self)@ == load_room_spec(old(self)@, id as int),
    {
        let n = self.store.slot_count();
        for h in 0..n
            invariant
                n == self@.store.slots.len(),
                self.store.wf(),
                self.rooms == old(self).rooms,
                self.sprites == old(self).sprites,
                self.room_id == old(self).room_id,
                self.room_speed == old(self).room_speed,
                self.rng == old(self).rng,
                self.halted == old(self).halted,
                self.scene_change == old(self).scene_change,
                self.stored_events == old(self).stored_events,
                self@.store.next_id == old(self)@.store.next_id,
                forall|j: int| h <= j < n ==> self@.store.slots[j] == old(self)@.store.slots[j],
                forall|j: int|
                    0 <= j < h ==> self@.store.slots[j] == unload_slot(old(self)@.store.slots[j]),
        {
            if self.store.is_live(h) {
                let persistent = self.store.get(h).persistent;
                if !persistent {
                    self.store.destroy(h);
                }
            }
        }
        proof {
            assert(self@.store =~= unload_spec(old(self)@.store));
        }
        let ghost base = self@.store;
        let m = self.rooms[id as usize].layout.len();
        proof {
            assert(self@.rooms[id as int].layout =~= self.rooms@[id as int].layout@);
        }
        for i in 0..m
            invariant
                0 <= id < self.rooms@.len(),
                m == self.rooms@[id as int].layout@.len(),
                self.store.wf(),
                self.rooms == old(self).rooms,
                self.sprites == old(self).sprites,
                self.room_id == old(self).room_id,
                self.room_speed == old(self).room_speed,
                self.rng == old(self).rng,
                self.halted == old(self).halted,
                self.scene_change == old(self).scene_change,
                self.stored_events == old(self).stored_events,
                base.next_id + m <= i32::MAX,
                self@.store.next_id == base.next_id + i,
                self@.store == spawn_all(base, self.rooms@[id as int].layout@.take(i as int)),
        {
            let item = self.rooms[id as usize].layout[i];
            let ghost pre = self@.store;
            let h = self.store.allocate(item.0);
            self.store.place(h, item.1, item.2);
            proof {
                assert(self@.store.slots =~= pre.slots.push(
                    Option::Some(placed_instance_v(pre.next_id, item)),
                ));
                assert(self@.store =~= spawn_one(pre, item));
                let lay = self.rooms@[id as int].layout@;
                assert(lay.take(i + 1).drop_last() =~= lay.take(i as int));
                assert(lay.take(i + 1).last() == item);
            }
        }
        proof {
            let lay = self.rooms@[id as int].layout@;
            assert(lay.take(m as int) =~= lay);
        }
        self.room_id = id;
        self.room_speed = self.rooms[id as usize].speed;
        proof {
            assert(self@ =~= load_room_spec(old(self)@, id as int));
        }
    }

    /// Applies one frame boundary: inspects what the scripting engine
    /// reported and the scene outcome it requested, applies the outcome,
    /// and returns it together with the input consumed this frame (for
    /// logging).  An abort or an unknown room id halts stepping with the
    /// corresponding fatal error; nothing is rolled back.
    pub fn advance_frame(&mut self, script: ScriptOutcome) -> (r: Result<
        (Option<SceneChange>, Vec<Event>),
        EngineError,
    >)
        requires
            old(self).wf(),
            !old(self)@.halted,
            id_headroom_ok(old(self)@),
        ensures
            final(self).wf(),
            final(self)@ == step_state(old(self)@, script),
            match r {
                Result::Ok(pair) => step_result(old(self)@, script) == Result::<
                    Option<SceneChange>,
                    EngineError,
                >::Ok(pair.0) && pair.1@ == old(self)@.stored_events,
                Result::Err(e) => step_result(old(self)@, script) == Result::<
                    Option<SceneChange>,
                    EngineError,
                >::Err(e),
            },
    {
        match script {
            ScriptOutcome::Abort => {
                self.halted = true;
                proof {
                    assert(self@ =~= step_state(old(self)@, script));
                }
                return Result::Err(EngineError::ScriptAbort);
            },
            ScriptOutcome::Completed => {},
        }
        let sc = self.scene_change;
        match sc {
            Option::None => {
                let mut ev: Vec<Event> = Vec::new();
                std::mem::swap(&mut ev, &mut self.stored_events);
                proof {
                    assert(self@ =~= step_state(old(self)@, script));
                }
                Result::Ok((Option::None, ev))
            },
            Option::Some(SceneChange::Room(id)) => {
                if 0 <= id && (id as usize) < self.rooms.len() {
                    self.scene_change = Option::None;
                    self.load_room_exec(id);
                    let mut ev: Vec<Event> = Vec::new();
                    std::mem::swap(&mut ev, &mut self.stored_events);
                    proof {
                        assert(self@ =~= step_state(old(self)@, script));
                    }
                    Result::Ok((Option::Some(SceneChange::Room(id)), ev))
                } else {
                    self.halted = true;
                    proof {
                        assert(self@ =~= step_state(old(self)@, script));
                    }
                    Result::Err(EngineError::SceneLoadFailure(id))
                }
            },
            Option::Some(SceneChange::Restart) => {
                self.scene_change = Option::None;
                self.store.clear();
                self.load_room_exec(0);
                let mut ev: Vec<Event> = Vec::new();
                std::mem::swap(&mut ev, &mut self.stored_events);
                proof {
                    assert(self@ =~= step_state(old(self)@, script));
                }
                Result::Ok((Option::Some(SceneChange::Restart), ev))
            },
            Option::Some(SceneChange::End) => {
                self.scene_change = Option::None;
                self.halted = true;
                let mut ev: Vec<Event> = Vec::new();
                std::mem::swap(&mut ev, &mut self.stored_events);
                proof {
                    assert(self@ =~= step_state(old(self)@, script));
                }
                Result::Ok((Option::Some(SceneChange::End), ev))
            },
        }
    }
}

} // verus!
