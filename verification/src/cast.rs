//! The pieces of a recording that encoders turn into bytes.

use vstd::prelude::*;

verus! {

/// The header of a recording.
#[derive(Clone, Debug, PartialEq)]
pub struct Header {
    pub term_cols: u16,
    pub term_rows: u16,
    pub term_type: Option<String>,
    pub timestamp: Option<u64>,
    pub command: Option<String>,
    pub env: Option<Vec<(String, String)>>,
}

/// What happened at one moment of a recording.
#[derive(Clone, Debug, PartialEq)]
pub enum EventData {
    Output(String),
    Input(String),
    Resize(u16, u16),
    Marker(String),
    Exit(i32),
}

/// An event and when it happened, in microseconds since the recording started.
#[derive(Clone, Debug, PartialEq)]
pub struct Event {
    pub time_micros: u64,
    pub data: EventData,
}

/// Turns a recording into the bytes of some file format.
pub trait Encoder {
    /// The bytes that open the file.
    fn header(&mut self, header: &Header) -> Vec<u8>;

    /// The bytes for one event.
    fn event(&mut self, event: Event) -> Vec<u8>;

    /// The bytes that close the file.
    fn flush(&mut self) -> Vec<u8>;
}

} // verus!
