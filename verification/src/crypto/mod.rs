pub mod aggregator;
pub mod bits;
pub mod certificate;
pub mod primitives;
pub mod rogue;

pub use aggregator::{Aggregator, MultiError};
pub use certificate::{Certificate, CertificateError};
pub use primitives::{Digest, Identity, MultiSignature, Signature};
pub use rogue::{Rogue, RogueError};
