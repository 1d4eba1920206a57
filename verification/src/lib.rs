//! A client of the agent protocol: `agent://` URLs, JSON-RPC requests and the stream that answers a
//! prompt, a keyring of one identity for each gateway, and the rules by which a run of the client
//! decides what to do. Reading and writing files and connections is left to the program around it.
pub mod base64;
pub mod codec;
pub mod consent;
pub mod json;
pub mod keyring;
pub mod prompt;
pub mod rpc;
pub mod session;
pub mod text;
pub mod text_map;
pub mod url;
pub mod wire;
