//! Deterministic simulation-and-replay core for a 2D game-engine runtime.
//!
//! The crate provides the pieces that exact rewind/replay depends on: a
//! seeded, snapshot-friendly random number generator; an instance store with
//! stable identities, dynamic per-entity fields and a depth-ordered iteration
//! model; an append-only input replay log; the frame stepper with its
//! scene-change state machine; and a savestate manager that captures and
//! restores the whole mutable state as an independently owned bundle.
//!
//! Everything that decides or computes lives here with a contract; the
//! interactive shell (windowing, rendering, the scripting front end) is an
//! external collaborator that only feeds plain values in and out.

pub mod codec;
pub mod engine;
pub mod field;
pub mod instance;
pub mod replay;
pub mod report;
pub mod rng;
pub mod savestate;
pub mod store;

pub use engine::Engine;
pub use engine::EngineError;
pub use engine::EngineV;
pub use engine::RoomDef;
pub use engine::RoomV;
pub use engine::SceneChange;
pub use engine::ScriptOutcome;
pub use field::Field;
pub use field::FieldMap;
pub use field::FieldV;
pub use field::ScalarMap;
pub use instance::Instance;
pub use instance::InstanceV;
pub use instance::SpriteDesc;
pub use report::GameWindow;
pub use report::InstanceReport;
pub use report::InstanceReportWindow;
pub use replay::Event;
pub use replay::FrameV;
pub use replay::Replay;
pub use replay::ReplayFrame;
pub use replay::ReplayV;
pub use rng::Rng;
pub use rng::RngV;
pub use savestate::RendererState;
pub use savestate::SaveState;
pub use savestate::SaveStateV;
pub use store::InstanceStore;
pub use store::StoreV;
