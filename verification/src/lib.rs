//! Scenario scripts for recorded terminal sessions: reading them, planning
//! what a recording sends and writes, and the bookkeeping around
//! monitoring, converting and reporting.

pub mod text;
pub mod escape;
pub mod script;
pub mod directive;
pub mod parse;
pub mod summary;
pub mod paths;
pub mod artifacts;
pub mod status;
pub mod cast;
pub mod convert;
pub mod media;
pub mod session;
pub mod monitor;
pub mod expect_buffer;

pub use artifacts::{BuildError, BuildPaths};
pub use directive::{decode_escapes, parse_arrow, parse_directive};
pub use parse::{
    heredoc_delimiter, parse_script_content, parse_script_with_lines, parse_would_panic,
};
pub use script::{Arrow, Instruction, ParsedScript, ScriptError, SourceInstruction};
pub use summary::instruction_summary;
pub use cast::{Encoder, Event, EventData, Header};
pub use convert::{Convert, ConvertError, ConvertPlan, EncoderKind, Format};
pub use status::{disable, do_highlight, do_info, do_warn, Status};
pub use media::{encode_mp4_args, ffmpeg_args, marker_name};
pub use session::{Action, ExitKind, Progress, RecordError, Recorder, Recording, SessionPlan};
pub use monitor::{progress_message, Monitor, MonitorError, ProgressPanel, TtySize};
pub use expect_buffer::ExpectBuffer;
