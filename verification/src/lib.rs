//! Game process discovery, matching and liveness.
//!
//! The library determines which executable files belong to an installed
//! game, normalizes the operating system's process listings into uniform
//! records, matches candidate executable names against live processes
//! case-insensitively, and checks whether a process identifier is still
//! alive.  Filesystem walking and command execution stay with the caller;
//! the library works on the plain values they hand in.

use vstd::prelude::*;

pub mod listing;
pub mod liveness;
pub mod matching;
pub mod retry;
pub mod scan;
pub mod structured;
pub mod text;
pub mod title;

verus! {

/// The two operating-system families whose process listings and
/// executable heuristics differ.
#[derive(Clone, Copy, PartialEq, Eq, Structural)]
pub enum Platform {
    Windows,
    Linux,
}

/// One process from a normalized listing: its short name, numeric
/// identifier, and executable path (empty when unavailable).
pub struct ProcessRecord {
    pub name: String,
    pub pid: u32,
    pub exe: String,
}

/// One matched game process, as handed back to the host.
pub struct ProcessInfo {
    pub pid: u32,
    pub exe: String,
}

impl View for ProcessRecord {
    type V = ProcessRecordView;

    open spec fn view(&self) -> ProcessRecordView {
        ProcessRecordView { name: self.name@, pid: self.pid, exe: self.exe@ }
    }
}

/// Mathematical image of a `ProcessRecord`.
#[verifier::ext_equal]
pub ghost struct ProcessRecordView {
    pub name: Seq<char>,
    pub pid: u32,
    pub exe: Seq<char>,
}

/// Mathematical image of a `ProcessInfo`.
#[verifier::ext_equal]
pub ghost struct ProcessInfoView {
    pub pid: u32,
    pub exe: Seq<char>,
}

impl View for ProcessInfo {
    type V = ProcessInfoView;

    open spec fn view(&self) -> ProcessInfoView {
        ProcessInfoView { pid: self.pid, exe: self.exe@ }
    }
}

/// An achievement icon as raw pixel data with its dimensions.
pub struct Icon {
    pub handle: Vec<u8>,
    pub width: u32,
    pub height: u32,
}

/// Normalizes one platform's raw process-listing output into uniform
/// records, fresh on every call — the table is point-in-time, never
/// cached.  The plain-text listing is parsed exactly as
/// `listing::ps_records` describes; the structured listing is read back
/// through the JSON library's declared accessors, exactly as
/// `structured::structured_records` describes, a malformed document
/// degrading to the empty table.
pub fn enumerate_from_output(platform: Platform, raw: &str) -> (r: Vec<ProcessRecord>)
    ensures
        platform == Platform::Linux ==> listing::records_view(r@) == listing::ps_records(raw@),
        platform == Platform::Windows ==> listing::records_view(r@)
            == structured::structured_records(raw@),
{
    match platform {
        Platform::Linux => listing::parse_ps_listing(raw),
        Platform::Windows => structured::parse_structured_listing(raw),
    }
}

} // verus!
