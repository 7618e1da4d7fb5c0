//! Content-addressed storage.
//!
//! An object's name is the hash of its content, so there is no cache to
//! invalidate, no trust to place in a source, and nothing to coordinate for
//! deduplication: bytes from a volunteer peer, a CDN or a local disk are checked
//! the same way, and identical content has an identical name everywhere.
//!
//! * [`cid`] names bytes, [`manifest`] describes an object chunk by chunk, and
//!   [`provenance`] records where an object came from and how far it may travel.
//! * [`store`] says what a store of objects is. [`memory`] is one; [`filesystem`]
//!   and [`s3`] hold what a store on disk and a store in a bucket decide, over the
//!   places that [`layout`] gives to the parts of an object.
//! * [`resolve`] finds an object in whichever source has it.
//! * [`upload_protocol`] signs and checks upload grants and receipts, with the
//!   outside functions in [`primitives`] and the objects that [`json`] reads;
//!   [`gateway`] holds the rules of the HTTP boundary.
//! * [`text`] has the operations on text that the rest is written with.

pub mod cid;
pub mod filesystem;
pub mod gateway;
pub mod json;
pub mod layout;
pub mod manifest;
pub mod memory;
pub mod primitives;
pub mod provenance;
pub mod resolve;
pub mod s3;
pub mod store;
pub mod text;
pub mod upload_protocol;

pub use cid::{Cid, CidError};
pub use filesystem::FilesystemStore;
pub use gateway::{GatewayState, UploadResponse, MAX_SOURCE_BYTES};
pub use manifest::{Chunk, Manifest, ManifestError, Redundancy, CHUNK_BYTES, MANIFEST_VERSION};
pub use memory::MemoryStore;
pub use provenance::{Distribution, Origin, Provenance, TrustState};
pub use resolve::{Resolution, ResolveError, Resolver, Source, SpendPolicy, StoreSource};
pub use s3::{S3Config, S3Store};
pub use store::{trust_for_producer, Entry, ObjectStore, StoreError, StoreResult};
pub use upload_protocol::{TokenError, UploadGrant, UploadReceipt, UploadTokens};
