//! easyfibers schedules fibers on sockets, timers and DNS lookups.
//!
//! It is organized into three levels:
//!
//! * A [`Poller`](poller::Poller) that takes in what a socket poll, the resolver and the
//!   timers have brought. It also knows which execution stacks are not in use.
//! * [`Runner`](runner::Runner)s that get events from the poller and decide which fiber
//!   runs.
//! * [`Fiber`](fiber::Fiber)s that are run by runners. Each fiber runs in its own stack and
//!   is scheduled out on operations that would block.
//!
//! The library decides; it performs nothing. Whoever uses it polls the sockets, reads and
//! writes them and switches stacks, as the library says, and tells it what came of that.
//! What the decisions are is stated over the views of these types ([`poller::PollerView`],
//! [`runner::RunnerView`]), and [`laws`] states what holds across them.
pub mod builder;
pub mod dns;
pub mod dns_message;
pub mod duration;
pub mod error;
pub mod fiber;
pub mod ids;
pub mod laws;
pub mod poller;
pub mod runner;
pub mod slot;
mod store;
pub mod wheel;
mod wire;

pub use fiber::{Fiber, FiberRef, TimerRef};
pub use poller::Poller;
pub use runner::Runner;
pub use slot::SocketType;
