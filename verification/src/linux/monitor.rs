//! The decisions of the file-tree monitor: what a change below the store's
//! root asks for, and whether an `info` file holds pairing keys yet.
//!
//! Watching the file tree is the caller's part. It reports each event here
//! and carries out the action that comes back.

use crate::bluetooth::{is_valid_key, validate_bluetooth_key};
use crate::linux::bluetooth::{is_address_name, looks_like_address};
use crate::text::{from_chars, line_views, lines, owned, split_lines, to_chars, trim, trimmed};
use vstd::prelude::*;

verus! {

/// What happened to a directory entry.
#[derive(Debug, Clone, Copy, PartialEq, Eq)]
pub struct EventFlags {
    pub create: bool,
    pub delete: bool,
    pub modify: bool,
    pub moved_to: bool,
    pub moved_from: bool,
    pub close_write: bool,
}

/// What the monitor is to do about an event.
#[derive(Debug, PartialEq, Eq)]
pub enum WatchAction {
    /// Nothing.
    Ignore,
    /// An adapter directory appeared: watch it, and the device directories
    /// in it.
    WatchAdapter { adapter_mac: String },
    /// A device directory appeared: watch the device directories of its
    /// adapter.
    WatchDevices { adapter_mac: String },
    /// The `info` file of a device was written: if it holds pairing keys,
    /// the device has changed.
    InfoWritten { adapter_mac: String, device_mac: String },
    /// A device directory went away.
    DeviceRemoved { adapter_mac: String, device_mac: String },
}

pub enum WatchActionView {
    Ignore,
    WatchAdapter { adapter_mac: Seq<char> },
    WatchDevices { adapter_mac: Seq<char> },
    InfoWritten { adapter_mac: Seq<char>, device_mac: Seq<char> },
    DeviceRemoved { adapter_mac: Seq<char>, device_mac: Seq<char> },
}

impl View for WatchAction {
    type V = WatchActionView;

    open spec fn view(&self) -> WatchActionView {
        match self {
            WatchAction::Ignore => WatchActionView::Ignore,
            WatchAction::WatchAdapter { adapter_mac } => WatchActionView::WatchAdapter {
                adapter_mac: adapter_mac@,
            },
            WatchAction::WatchDevices { adapter_mac } => WatchActionView::WatchDevices {
                adapter_mac: adapter_mac@,
            },
            WatchAction::InfoWritten { adapter_mac, device_mac } => WatchActionView::InfoWritten {
                adapter_mac: adapter_mac@,
                device_mac: device_mac@,
            },
            WatchAction::DeviceRemoved {
                adapter_mac,
                device_mac,
            } => WatchActionView::DeviceRemoved {
                adapter_mac: adapter_mac@,
                device_mac: device_mac@,
            },
        }
    }
}

/// The name, or the empty name where there is none.
pub open spec fn name_or_empty(name: Option<&str>) -> Seq<char> {
    match name {
        Some(n) => n@,
        None => Seq::empty(),
    }
}

/// What an event asks for.
///
/// The event is about the entry `name` of a watched directory. `at_root`
/// says that the directory is the store's root; `base_name` is the
/// directory's own name and `parent_name` the name of the directory above
/// it, where they have one.
///
/// - Below the root, an entry named like an address that was created or
///   moved in is a new adapter.
/// - An entry `info` that was modified or closed after writing is the file
///   of the device that the directory is named after, under the adapter
///   that the directory above is named after.
/// - Any other entry named like an address is a device of the adapter that
///   the directory is named after: gone if it was deleted or moved out, new
///   if it was created or moved in.
pub open spec fn watch_action(
    at_root: bool,
    base_name: Option<&str>,
    parent_name: Option<&str>,
    name: &str,
    flags: EventFlags,
) -> WatchActionView {
    if at_root {
        if is_address_name(name) && (flags.create || flags.moved_to) {
            WatchActionView::WatchAdapter { adapter_mac: name@ }
        } else {
            WatchActionView::Ignore
        }
    } else if name@ == "info"@ {
        if base_name is Some && parent_name is Some && (flags.modify || flags.close_write) {
            WatchActionView::InfoWritten {
                adapter_mac: name_or_empty(parent_name),
                device_mac: name_or_empty(base_name),
            }
        } else {
            WatchActionView::Ignore
        }
    } else if is_address_name(name) {
        if flags.delete || flags.moved_from {
            WatchActionView::DeviceRemoved {
                adapter_mac: name_or_empty(base_name),
                device_mac: name@,
            }
        } else if flags.create || flags.moved_to {
            WatchActionView::WatchDevices { adapter_mac: name_or_empty(base_name) }
        } else {
            WatchActionView::Ignore
        }
    } else {
        WatchActionView::Ignore
    }
}

/// Decides what the monitor is to do about an event.
pub fn decide_watch_action(
    at_root: bool,
    base_name: Option<&str>,
    parent_name: Option<&str>,
    name: &str,
    flags: EventFlags,
) -> (action: WatchAction)
    ensures
        action@ == watch_action(at_root, base_name, parent_name, name, flags),
{
    if at_root {
        if looks_like_address(name) && (flags.create || flags.moved_to) {
            WatchAction::WatchAdapter { adapter_mac: owned(name) }
        } else {
            WatchAction::Ignore
        }
    } else if name.eq("info") {
        match (base_name, parent_name) {
            (Some(device), Some(adapter)) => {
                if flags.modify || flags.close_write {
                    WatchAction::InfoWritten {
                        adapter_mac: owned(adapter),
                        device_mac: owned(device),
                    }
                } else {
                    WatchAction::Ignore
                }
            },
            _ => WatchAction::Ignore,
        }
    } else if looks_like_address(name) {
        let adapter = match base_name {
            Some(n) => owned(n),
            None => String::new(),
        };
        if flags.delete || flags.moved_from {
            WatchAction::DeviceRemoved { adapter_mac: adapter, device_mac: owned(name) }
        } else if flags.create || flags.moved_to {
            WatchAction::WatchDevices { adapter_mac: adapter }
        } else {
            WatchAction::Ignore
        }
    } else {
        WatchAction::Ignore
    }
}

/// How far a scan for pairing keys has come: the last header line seen,
/// brackets included, and whether a key was found.
pub struct ScanState {
    pub header: Seq<char>,
    pub found: bool,
}

/// The headers of the sections that hold a pairing key.
pub open spec fn is_key_header(header: Seq<char>) -> bool {
    header == "[LinkKey]"@ || header == "[LongTermKey]"@ || header == "[PeripheralLongTermKey]"@
        || header == "[IdentityResolvingKey]"@ || header == "[SlaveLongTermKey]"@
}

/// Whether a line begins with `Key=`.
pub open spec fn is_key_line(t: Seq<char>) -> bool {
    t.len() >= 4 && t[0] == 'K' && t[1] == 'e' && t[2] == 'y' && t[3] == '='
}

/// What one line adds to a scan: a line in square brackets is the new
/// header; a line `Key=` with a valid key after it, under the header of a
/// key section, is a find.
pub open spec fn scan_line(state: ScanState, line: Seq<char>) -> ScanState {
    let t = trimmed(line);
    if t.len() > 0 && t[0] == '[' && t.last() == ']' {
        ScanState { header: t, found: state.found }
    } else if is_key_line(t) && is_key_header(state.header) && is_valid_key(
        t.subrange(4, t.len() as int),
    ) {
        ScanState { header: state.header, found: true }
    } else {
        state
    }
}

pub open spec fn scan_lines(state: ScanState, all: Seq<Seq<char>>) -> ScanState
    decreases all.len(),
{
    if all.len() == 0 {
        state
    } else {
        scan_line(scan_lines(state, all.drop_last()), all.last())
    }
}

/// Whether a file with the text `content` holds a valid pairing key in one
/// of the key sections.
pub open spec fn holds_pairing_keys(content: Seq<char>) -> bool {
    scan_lines(ScanState { header: Seq::empty(), found: false }, split_lines(content)).found
}

fn header_is_key_section(header: &str) -> (b: bool)
    ensures
        b == is_key_header(header@),
{
    header.eq("[LinkKey]") || header.eq("[LongTermKey]") || header.eq("[PeripheralLongTermKey]")
        || header.eq("[IdentityResolvingKey]") || header.eq("[SlaveLongTermKey]")
}

/// Whether an `info` file holds pairing keys: a device whose file holds
/// none has not finished pairing.
pub fn has_pairing_keys(content: &str) -> (b: bool)
    ensures
        b == holds_pairing_keys(content@),
{
    let chars = to_chars(content);
    let all = lines(&chars);
    let mut header: String = String::new();
    let mut found = false;
    let ghost start = ScanState { header: Seq::empty(), found: false };
    let mut i: usize = 0;
    while i < all.len()
        invariant
            i <= all.len(),
            line_views(all@) == split_lines(content@),
            start == (ScanState { header: Seq::empty(), found: false }),
            scan_lines(start, line_views(all@).take(i as int)) == (ScanState {
                header: header@,
                found,
            }),
        decreases all.len() - i,
    {
        let ghost before = ScanState { header: header@, found };
        proof {
            let views = line_views(all@);
            assert(views.take(i + 1).drop_last() == views.take(i as int));
            assert(views.take(i + 1).last() == all@[i as int]@);
        }
        let line = &all[i];
        let t = trim(line, 0, line.len());
        assert(line@.subrange(0, line@.len() as int) == line@);
        if t.len() > 0 && t[0] == '[' && t[t.len() - 1] == ']' {
            header = from_chars(&t, 0, t.len());
            assert(t@.subrange(0, t@.len() as int) == t@);
        } else if t.len() >= 4 && t[0] == 'K' && t[1] == 'e' && t[2] == 'y' && t[3] == '=' {
            if header_is_key_section(header.as_str()) {
                let value = from_chars(&t, 4, t.len());
                if validate_bluetooth_key(value.as_str(), "Key").is_ok() {
                    found = true;
                }
            }
        }
        assert((ScanState { header: header@, found }) == scan_line(before, all@[i as int]@));
        i += 1;
    }
    assert(line_views(all@).take(all@.len() as int) == line_views(all@));
    found
}

} // verus!
