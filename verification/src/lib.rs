//! Detection pipeline and cycle logic for a visual fishing assistant.
//!
//! The library finds an on-screen bobber by correlating edge maps, detects
//! a splash as an abrupt change between two consecutive frames, and
//! sequences the cast, locate, watch and react steps of a cycle. Taking
//! frames, injecting input and sleeping are left to the caller, who is
//! told what to do next and reports back.

pub mod bobber;
pub mod cycle;
pub mod cycle_proofs;
pub mod delay;
pub mod edge_filter;
pub mod edge_map;
pub mod error;
pub mod frame;
pub mod gradient;
pub mod grid;
pub mod locator;
pub mod locator_proofs;
pub mod splash;
pub mod tally;
pub mod wide;
mod windows;

pub use bobber::{aim_point, find_bobber, locate_in_frame, PointerOffset};
pub use cycle::{
    Action, CycleConfig, CycleError, CycleState, Event, FishingCycle, Phase, WaitOutcome,
};
pub use delay::{random_delay, DelayKind, DelayPolicy, DelayRange};
pub use edge_filter::{detect_edges, EdgeConfig};
pub use edge_map::EdgeMap;
pub use error::DetectionError;
pub use frame::{Frame, Region};
pub use gradient::Aperture;
pub use locator::{locate, MatchResult};
pub use splash::{detect_splash, SplashConfig, SplashEvidence};
