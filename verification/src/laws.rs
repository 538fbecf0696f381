//! What holds of the library as a whole.
pub mod blocking;
pub mod calls;
pub mod children;
pub mod events;
pub mod fibers;
pub mod lookups;
pub mod messages;
pub mod pollers;
pub mod resolver;
pub mod runs;
pub mod slots;
pub mod sockets;
pub mod stacks;
pub mod steps;
pub mod timers;
pub mod values;
