//! An HTTP protocol engine: the HTTP/1 framer, the HTTP/2 frame codec, HPACK and the
//! session's decisions, and the WebSocket frame codec, with their contracts proved.

pub mod shared;
pub mod errno;
pub mod text;
pub mod http1;
pub mod writer;
pub mod upgrade;
pub mod frame;
pub mod settings;
pub mod session;
pub mod dispatch;
pub mod h2msg;
pub mod integer;
pub mod huffman_table;
pub mod huffman;
pub mod huffman_laws;
pub mod static_table;
pub mod hpack;
pub mod decoder;
pub mod encoder;
pub mod hpack_laws;
pub mod websocket;
