pub mod args;
pub mod clock;
pub mod codec;
pub mod model;
pub mod snapshot;
pub mod supervisor;
pub mod text;
pub mod parse;
pub mod roundtrip;
