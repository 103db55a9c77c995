//! Server core of a multi-player top-down tank arena: entity progression and
//! controls, the client and server wire messages, the spatial grid used to
//! prune collision checks, hub bookkeeping, hub selection and the decisions
//! of a client session.
//!
//! Positions, velocities and health are floating point. The library carries
//! them as IEEE 754 bit patterns and leaves the arithmetic on them to the
//! simulation that drives it.

mod entity;
mod events;
mod grid;
mod hub;
mod ids;
mod manager;
mod session;
mod stats;

pub use entity::{
    Acceleration, Direction, DirectionChange, Entity, EntityType, Player, Report, Vec2Bits, Yaw,
    FULL_HEALTH,
};
pub use events::{encode_batch, ServerEvent, UserEvent, UserMessage};
pub use grid::{GridPos, PlayerPositions, ROW, TILES};
pub use hub::Hub;
pub use ids::{Id, IdCounter};
pub use manager::{choose_hub, Admission};
pub use session::{handle_message, Frame, SessionAction};
pub use stats::{Stat, MAX_LEVEL};
