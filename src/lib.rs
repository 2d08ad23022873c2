//! Trust bootstrap and signed forwarding between an edge proxy and an origin server.
//!
//! The origin makes a secret at boot and registers it with the edge (`handshake`). The
//! edge keeps it in its one shared slot (`secret_cell`), stamps every forwarded client
//! request with it (`edge`), and the origin routes only requests that carry it
//! (`origin`). Both sides decode payloads with the same parser (`frame`); `provenance`
//! proves that what the edge stamps is what the origin accepts.
pub mod bytes;
pub mod frame;
pub mod secret_cell;
pub mod edge;
pub mod origin;
pub mod upload;
pub mod handshake;
pub mod response;
pub mod page;
pub mod provenance;
