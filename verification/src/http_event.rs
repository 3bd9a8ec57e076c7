//! The event that stands for one HTTP request or response.

use crate::capture_metadata::{CaptureMetadata, CaptureSummary};
use crate::headers::HeaderMap;
use crate::text;
use vstd::prelude::*;

verus! {

/// What an HTTP event says.
pub struct HttpEventModel {
    pub capture_metadata: CaptureSummary,
    pub tid: u64,
    pub message_type: Seq<char>,
    pub first_line: Seq<char>,
    pub method: Option<Seq<char>>,
    pub path: Option<Seq<char>>,
    pub protocol: Option<Seq<char>>,
    pub status_code: Option<u16>,
    pub status_text: Option<Seq<char>>,
    pub headers: Seq<(Seq<char>, Seq<char>)>,
    pub body: Option<Seq<char>>,
    pub body_hex: Option<Seq<char>>,
    pub total_size: usize,
    pub has_body: bool,
    pub is_chunked: bool,
    pub content_length: Option<usize>,
    pub original_source: Seq<char>,
    pub raw_data: Option<Seq<char>>,
}

/// One HTTP request or response, of whatever version of the protocol.
#[derive(Debug, PartialEq, Eq)]
pub struct HTTPEvent {
    pub capture_metadata: CaptureMetadata,
    pub tid: u64,
    pub message_type: String,
    pub first_line: String,
    pub method: Option<String>,
    pub path: Option<String>,
    pub protocol: Option<String>,
    pub status_code: Option<u16>,
    pub status_text: Option<String>,
    pub headers: HeaderMap,
    pub body: Option<String>,
    pub body_hex: Option<String>,
    pub total_size: usize,
    pub has_body: bool,
    pub is_chunked: bool,
    pub content_length: Option<usize>,
    pub original_source: String,
    pub raw_data: Option<String>,
}

impl View for HTTPEvent {
    type V = HttpEventModel;

    open spec fn view(&self) -> HttpEventModel {
        HttpEventModel {
            capture_metadata: self.capture_metadata@,
            tid: self.tid,
            message_type: self.message_type@,
            first_line: self.first_line@,
            method: text::optional_view(self.method),
            path: text::optional_view(self.path),
            protocol: text::optional_view(self.protocol),
            status_code: self.status_code,
            status_text: text::optional_view(self.status_text),
            headers: self.headers@,
            body: text::optional_view(self.body),
            body_hex: text::optional_view(self.body_hex),
            total_size: self.total_size,
            has_body: self.has_body,
            is_chunked: self.is_chunked,
            content_length: self.content_length,
            original_source: self.original_source@,
            raw_data: text::optional_view(self.raw_data),
        }
    }
}

/// What the events of a list say.
pub open spec fn events_view(v: Seq<HTTPEvent>) -> Seq<HttpEventModel> {
    Seq::new(v.len(), |i: int| v[i]@)
}

} // verus!
