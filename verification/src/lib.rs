//! A small-molecule similarity search engine: a line-notation parser that
//! builds a molecular graph, a circular fingerprint derived from bounded
//! neighborhood walks over that graph, a fixed-size binary record format
//! for a sidecar index of fingerprints and byte offsets, and a linear-scan
//! similarity search over the index.

pub mod model;
pub mod errors;
pub mod molecule;
pub mod smiles;
pub mod fingerprint;
pub mod ecfp;
pub mod similarity;
pub mod codec;
pub mod db;
