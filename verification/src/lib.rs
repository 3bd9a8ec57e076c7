//! Analysis of captured TLS traffic.
//!
//! Captured events go through a chain of analyzers, each of which takes one event after the other
//! and gives the events that come of it:
//!
//! - [`ssl_merger`] merges the reads of a thread into complete HTTP messages;
//! - [`http_parser`] reads HTTP/1 messages ([`http_message`]), WebSocket requests ([`websocket`])
//!   and HTTP/2 streams ([`http2`]);
//! - [`sse_processor`] puts the server-sent events of a response ([`sse_event`]) together
//!   ([`sse_content`]).
//!
//! [`capture_metadata`] sums up which captures an event was made of. The modules whose names end
//! in `laws` state what holds of the analyzers as a whole.

pub mod assoc;
pub mod bytes;
pub mod capture_field_laws;
pub mod capture_laws;
pub mod capture_metadata;
pub mod capture_order_laws;
pub mod event;
pub mod header_block;
pub mod header_block_laws;
pub mod headers;
pub mod http2;
pub mod http2_event_laws;
pub mod http2_frame;
pub mod http2_frame_laws;
pub mod http2_laws;
pub mod http_event;
pub mod http_message;
pub mod http_message_laws;
pub mod http_parser;
pub mod http_parser_laws;
pub mod inflate;
pub mod json;
pub mod json_scan;
pub mod json_scan_laws;
pub mod ordered;
pub mod sse_chunk_laws;
pub mod sse_content;
pub mod sse_content_laws;
pub mod sse_event;
pub mod sse_event_laws;
pub mod sse_laws;
pub mod sse_line_laws;
pub mod sse_processor;
pub mod sse_processor_laws;
pub mod sse_summary;
pub mod sse_summary_laws;
pub mod ssl_merger;
pub mod ssl_merger_laws;
pub mod text;
pub mod text_laws;
pub mod websocket;
pub mod websocket_laws;
