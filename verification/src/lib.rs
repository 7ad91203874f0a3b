pub mod agent;
pub mod engine;
pub mod mime;
pub mod pattern;
pub mod sandbox;
pub mod swarm;
pub mod text;
pub mod vault;
pub mod words;

pub use mime::infer_mime_type;
