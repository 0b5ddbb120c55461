//! Session, login, persistence and resource-resolution core of a
//! prediction-market browser client.
//!
//! The crate models the one subsystem of the client that carries real
//! invariants: establishing and persisting a signed-challenge login session,
//! resolving remote data through key-reactive memoized cells, and gating
//! privacy-sensitive resources on the viewer's identity and role.  The remote
//! service, the browser storage and the rendering layer are collaborators
//! around this core; their transport lives outside the library.

pub mod cell;
pub mod codec;
pub mod errors;
pub mod gate;
pub mod keys;
pub mod login;
pub mod model;
pub mod session;
pub mod store;
