//! A minimal MP4/ISOBMFF parser and editor over in-memory byte buffers.
//!
//! The box tree, the box decoders, the sample tables and the non-destructive
//! editor all work on a byte slice holding the file; reading and writing files
//! is left to the caller.

pub mod util;
pub mod boxes;
pub mod known_boxes;
pub mod parser;
pub mod edit;
pub mod text;

pub mod registry;
pub mod drm;
pub mod api;
pub mod samples;
pub mod fragments;
pub mod info;
pub mod itunes;

pub use boxes::{BoxHeader, BoxKey, BoxRef, FourCC, NodeKind};
pub use parser::{parse_children, read_box_header};
pub use registry::{
    BoxValue, Co64Data, CttsData, CttsEntry, HdlrData, MdhdData, SampleEntry, StcoData,
    StructuredData, StscData, StscEntry, StsdData, StssData, StszData, SttsData, SttsEntry,
};
pub use api::{Box, HexDump, get_boxes, get_boxes_tolerant, get_boxes_with_registry, hex_range};
pub use parser::{parse_boxes_tolerant, ParseIssue};
pub use samples::{SampleInfo, TrackSamples};
pub use itunes::get_itunes_tags;
