//! Shared logic of a small family of ESP-NOW remote-control programs: the
//! message bytes that name a colour or a motor direction, the decisions a
//! receiver takes when a message arrives, the quadrature state machine of a
//! rotary encoder, and the target filter and line layout of the logger.

pub mod colour;
pub mod direction;
pub mod encoder;
pub mod errors;
pub mod led;
pub mod motor;
pub mod peer;
pub mod logger;
