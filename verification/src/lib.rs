//! Driving an 8x8x8 LED cube: frames, rotations, the shift-register protocol
//! and the hand-off between frame producers and the display.

pub mod circuit;
pub mod cube;
pub mod decoders;
pub mod entropy;
pub mod forwarder;
pub mod frame;
pub mod index;
pub mod lines;
pub mod mailbox;
pub mod pipeline;
pub mod random_routines;
pub mod rotation;
pub mod routines;
pub mod traveller;
