pub mod text;
pub mod decimal;
pub mod packetreader;
pub mod roundtrip;
pub mod framing;
pub mod chunking;
pub mod kvstore;
pub mod expiry;
pub mod pubsub;
pub mod server;
