pub mod errors;
pub mod hashing;
pub mod leaf;
pub mod proofs;
pub mod tree;

pub use errors::Error;
pub use hashing::hash_pair;
pub use leaf::Leaf;
pub use proofs::{verify_proof, Proof};
pub use tree::Tree;
