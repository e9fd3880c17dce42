//! Lesson Studio: a two-person music-lesson relay. This library holds the wire
//! protocol, the binary media framing, the studio's pairing rules, and the
//! client's connection and lesson-screen logic, each with its contract.
pub mod cert;
pub mod connect;
pub mod decimal;
pub mod media;
pub mod net;
pub mod protocol;
pub mod screen;
pub mod studio;
pub mod text;
pub mod views;
