pub mod bin_reader;
pub mod bin_writer;
pub mod wire;
pub mod message;
pub mod game;
pub mod request;
pub mod server;
pub mod client;
pub mod framing;
