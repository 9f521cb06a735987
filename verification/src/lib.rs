//! Filebase: the engine under a window over a directory of Slipcase containers.
//!
//! Nothing here draws. [`query`] holds a run's rows and what the scan noticed,
//! [`feed`] is the scanning side's batching and ceiling, [`detail`] is what one
//! container says about itself, and [`policy`] is the rule that the flyleaf
//! tree is read and never written. [`text`] and [`messages`] are the sentences
//! all of them are written in.

pub mod detail;
pub mod feed;
pub mod messages;
pub mod policy;
pub mod query;
pub mod text;
pub mod window;

pub use detail::Detail;
pub use messages::Messages;
pub use policy::ReadOnly;
pub use query::{Run, Update};
pub use window::Window;
