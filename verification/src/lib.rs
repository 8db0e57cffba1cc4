//! Verified core of a browser native-messaging host.
//!
//! The host exchanges length-prefixed UTF-8 JSON messages with the browser, answers
//! `Ping` and `GetTextTopics` requests, and forwards `key=value` configuration
//! updates received from a local publisher.
//!
//! Everything here is plain computation with a contract: the wire framing of
//! messages, the handling of each request, the decoding of configuration
//! messages, and the text-topic extraction. Reading and writing the standard
//! streams, JSON (de)serialization, the configuration socket and the task
//! plumbing live in the application around this library.

pub mod config;
pub mod framing;
pub mod message;
pub mod process;
pub mod text;
pub mod topics;

pub use config::{config_response, decode_config_message, message_to_string, split_key_value};
pub use framing::{
    frame_response, request_length, write_ne_u32, HeaderRead, MAX_REQUEST_LEN, MAX_RESPONSE_LEN,
};
pub use message::{ErrorKind, Request, Response};
pub use process::{answer_request, process_request, sleep_millis};
pub use topics::{get_text_topics, join_topic};
