//! Reading and writing the `info` file of a device in the file-tree store.
//!
//! The file is a list of `[Section]` headers, each followed by
//! `Key=Value` lines. Sections and keys that this library does not know are
//! carried through a write untouched.

use crate::bluetooth::{
    classic_view, csrk_view, is_valid_key, key_error, key_error_views, ltk_view, normalize_mac,
    normalized_mac, note_refused, refused, string_view, validate_bluetooth_key, BluetoothDevice,
    BluetoothDeviceView, ClassicKeys, ClassicKeysView, CsrkKey, CsrkKeyView, KeyError,
    KeyErrorView, LeKeys, LeKeysView, LeLongTermKey, LeLongTermKeyView, StoreError,
    StoreErrorView,
};
use crate::strmap::StrMap;
use crate::text::{
    contains_char, decimal, decimal_string, ends_a_line, find_char, from_chars, is_blank,
    lemma_position_of, lemma_split_lines_line, lemma_trimmed_unchanged, line_views, lines,
    no_line_feed, owned, parse_number, parse_unsigned, position_of, split_lines, to_chars,
    trim, trimmed, unicode_lowercase,
};
use vstd::prelude::*;
use vstd::string::{StringExecFns, StringSliceAdditionalSpecFns};

verus! {

/// The fields of one section: key to value.
pub type SectionView = Map<Seq<char>, Seq<char>>;

/// The sections of an `info` file: section name to fields.
pub type InfoView = Map<Seq<char>, SectionView>;

/// The sections of an `info` file.
pub type Sections = StrMap<StrMap<String>>;

/// Where the file-tree store keeps its adapters.
pub const BLUETOOTH_LIB_PATH: &'static str = "/var/lib/bluetooth";

/// How far a reader has come through a file: the section that the next
/// field belongs to, empty before the first header, and what was read.
pub struct ParseState {
    pub current: Seq<char>,
    pub sections: InfoView,
}

/// The fields of a section, none for a section that is not there.
pub open spec fn section_of(info: InfoView, name: Seq<char>) -> SectionView {
    if info.contains_key(name) {
        info[name]
    } else {
        Map::empty()
    }
}

/// `info` with `value` stored under `key` in the section `name`.
pub open spec fn with_field(
    info: InfoView,
    name: Seq<char>,
    key: Seq<char>,
    value: Seq<char>,
) -> InfoView {
    info.insert(name, section_of(info, name).insert(key, value))
}

/// `info` with the section `name`, empty where it was not there before.
pub open spec fn with_section(info: InfoView, name: Seq<char>) -> InfoView {
    info.insert(name, section_of(info, name))
}

/// What one line adds. Blank lines and lines that begin with `#` add
/// nothing. A line in square brackets opens a section. Any other line with
/// an equals sign is a field of the open section; before the first header,
/// and under a header with an empty name, fields are dropped.
pub open spec fn parse_line(state: ParseState, line: Seq<char>) -> ParseState {
    let t = trimmed(line);
    if t.len() == 0 || t[0] == '#' {
        state
    } else if t[0] == '[' && t.last() == ']' {
        let name = t.subrange(1, t.len() - 1);
        ParseState { current: name, sections: with_section(state.sections, name) }
    } else if position_of(t, '=') < t.len() {
        let at = position_of(t, '=');
        let key = trimmed(t.subrange(0, at));
        let value = trimmed(t.subrange(at + 1, t.len() as int));
        if state.current.len() > 0 {
            ParseState {
                current: state.current,
                sections: with_field(state.sections, state.current, key, value),
            }
        } else {
            state
        }
    } else {
        state
    }
}

/// What a list of lines adds, read from first to last.
pub open spec fn parse_lines(state: ParseState, all: Seq<Seq<char>>) -> ParseState
    decreases all.len(),
{
    if all.len() == 0 {
        state
    } else {
        parse_line(parse_lines(state, all.drop_last()), all.last())
    }
}

/// The sections that a file with the text `content` holds.
pub open spec fn parsed_info(content: Seq<char>) -> InfoView {
    parse_lines(
        ParseState { current: Seq::empty(), sections: Map::empty() },
        split_lines(content),
    ).sections
}

/// The value of a field, if the section and the field are there.
pub open spec fn field(info: InfoView, name: Seq<char>, key: Seq<char>) -> Option<Seq<char>> {
    if info.contains_key(name) && info[name].contains_key(key) {
        Some(info[name][key])
    } else {
        None
    }
}

/// The number in a field, if the field is there and spells a number of at
/// most `max`.
pub open spec fn number_field(
    info: InfoView,
    name: Seq<char>,
    key: Seq<char>,
    max: nat,
) -> Option<nat> {
    match field(info, name, key) {
        Some(v) => parse_unsigned(v, max),
        None => None,
    }
}

/// The `Key` of a section, if it is there and is a valid key.
pub open spec fn key_field(info: InfoView, name: Seq<char>) -> Option<Seq<char>> {
    match field(info, name, "Key"@) {
        Some(k) => if is_valid_key(k) {
            Some(k)
        } else {
            None
        },
        None => None,
    }
}

/// The Classic keys that the section `LinkKey` holds.
pub open spec fn classic_of_info(info: InfoView) -> Option<ClassicKeysView> {
    match key_field(info, "LinkKey"@) {
        Some(k) => Some(
            ClassicKeysView {
                link_key: k,
                key_type: match number_field(info, "LinkKey"@, "Type"@, 255) {
                    Some(n) => n as u8,
                    None => 4,
                },
                pin_length: match number_field(info, "LinkKey"@, "PINLength"@, 255) {
                    Some(n) => n as u8,
                    None => 0,
                },
            },
        ),
        None => None,
    }
}

pub open spec fn u8_field(info: InfoView, name: Seq<char>, key: Seq<char>) -> Option<u8> {
    match number_field(info, name, key, 255) {
        Some(n) => Some(n as u8),
        None => None,
    }
}

pub open spec fn u16_field(info: InfoView, name: Seq<char>, key: Seq<char>) -> Option<u16> {
    match number_field(info, name, key, 65535) {
        Some(n) => Some(n as u16),
        None => None,
    }
}

pub open spec fn u64_field(info: InfoView, name: Seq<char>, key: Seq<char>) -> Option<u64> {
    match number_field(info, name, key, 18446744073709551615) {
        Some(n) => Some(n as u64),
        None => None,
    }
}

/// The long-term key that the section `name` holds.
pub open spec fn ltk_of_info(info: InfoView, name: Seq<char>) -> Option<LeLongTermKeyView> {
    match key_field(info, name) {
        Some(k) => Some(
            LeLongTermKeyView {
                key: k,
                authenticated: u8_field(info, name, "Authenticated"@),
                enc_size: u8_field(info, name, "EncSize"@),
                ediv: u16_field(info, name, "EDiv"@),
                rand: u64_field(info, name, "Rand"@),
            },
        ),
        None => None,
    }
}

/// The signature key that the section `name` holds.
pub open spec fn csrk_of_info(info: InfoView, name: Seq<char>) -> Option<CsrkKeyView> {
    match key_field(info, name) {
        Some(k) => Some(
            CsrkKeyView {
                key: k,
                counter: match number_field(info, name, "Counter"@, 4294967295) {
                    Some(n) => n as u32,
                    None => 0,
                },
                authenticated: match field(info, name, "Authenticated"@) {
                    Some(v) => unicode_lowercase(v) == "true"@,
                    None => false,
                },
            },
        ),
        None => None,
    }
}

/// The Low-Energy fields that a file holds, valid keys only.
pub open spec fn le_fields_of_info(info: InfoView) -> LeKeysView {
    LeKeysView {
        ltk: ltk_of_info(info, "LongTermKey"@),
        peripheral_ltk: ltk_of_info(info, "PeripheralLongTermKey"@),
        irk: key_field(info, "IdentityResolvingKey"@),
        csrk_local: csrk_of_info(info, "LocalSignatureKey"@),
        csrk_remote: csrk_of_info(info, "RemoteSignatureKey"@),
        address_type: field(info, "General"@, "AddressType"@),
    }
}

/// Whether any Low-Energy field is present.
pub open spec fn has_le_field(le: LeKeysView) -> bool {
    le.ltk is Some || le.peripheral_ltk is Some || le.irk is Some || le.csrk_local is Some
        || le.csrk_remote is Some || le.address_type is Some
}

/// The device that a file describes. A key that is not valid is left out,
/// whatever else its section holds.
pub open spec fn device_of_info(info: InfoView, device_mac: Seq<char>) -> BluetoothDeviceView {
    BluetoothDeviceView {
        mac_address: normalized_mac(device_mac),
        classic: classic_of_info(info),
        le: if has_le_field(le_fields_of_info(info)) {
            Some(le_fields_of_info(info))
        } else {
            None
        },
    }
}

/// The keys of a file that are not valid and are therefore left out of the
/// device, in the order link key, long-term key, peripheral long-term key,
/// identity key, local and remote signature key.
pub open spec fn refused_info_keys(info: InfoView) -> Seq<KeyErrorView> {
    refused(field(info, "LinkKey"@, "Key"@), "LinkKey"@) + refused(
        field(info, "LongTermKey"@, "Key"@),
        "LTK"@,
    ) + refused(field(info, "PeripheralLongTermKey"@, "Key"@), "PeripheralLTK"@) + refused(
        field(info, "IdentityResolvingKey"@, "Key"@),
        "IRK"@,
    ) + refused(field(info, "LocalSignatureKey"@, "Key"@), "CSRK (Local)"@) + refused(
        field(info, "RemoteSignatureKey"@, "Key"@),
        "CSRK (Remote)"@,
    )
}

/// What reading the `info` file of a device gave.
#[derive(Debug, PartialEq)]
pub struct DeviceRead {
    /// The device, or the error that says that the file holds no key.
    pub device: Result<BluetoothDevice, StoreError>,
    /// The keys that were left out because they are not valid.
    pub skipped: Vec<KeyError>,
}

/// The sentence that reports a file without keys.
pub open spec fn no_keys_message(device_mac: Seq<char>) -> Seq<char> {
    "No keys found for device "@ + device_mac
}

/// The spelling of a flag in a file.
pub open spec fn flag_text(b: bool) -> Seq<char> {
    if b {
        "true"@
    } else {
        "false"@
    }
}

/// `info` with `value` stored under `key` in the section `name`, where
/// there is a value.
pub open spec fn with_optional_field(
    info: InfoView,
    name: Seq<char>,
    key: Seq<char>,
    value: Option<nat>,
) -> InfoView {
    match value {
        Some(n) => with_field(info, name, key, decimal(n)),
        None => info,
    }
}

pub open spec fn some_nat_u8(v: Option<u8>) -> Option<nat> {
    match v {
        Some(n) => Some(n as nat),
        None => None,
    }
}

pub open spec fn some_nat_u16(v: Option<u16>) -> Option<nat> {
    match v {
        Some(n) => Some(n as nat),
        None => None,
    }
}

pub open spec fn some_nat_u64(v: Option<u64>) -> Option<nat> {
    match v {
        Some(n) => Some(n as nat),
        None => None,
    }
}

/// `info` with the Classic keys written to the section `LinkKey`.
pub open spec fn with_classic(info: InfoView, c: ClassicKeysView) -> InfoView {
    let a = with_field(info, "LinkKey"@, "Key"@, c.link_key);
    let b = with_field(a, "LinkKey"@, "Type"@, decimal(c.key_type as nat));
    with_field(b, "LinkKey"@, "PINLength"@, decimal(c.pin_length as nat))
}

/// `info` with a long-term key written to the section `name`. The
/// authenticated flag is written as 0 where the key has none; the other
/// numbers are written only where the key has them.
pub open spec fn with_ltk(info: InfoView, name: Seq<char>, k: LeLongTermKeyView) -> InfoView {
    let a = with_field(info, name, "Key"@, k.key);
    let b = with_field(
        a,
        name,
        "Authenticated"@,
        decimal(
            match k.authenticated {
                Some(v) => v as nat,
                None => 0,
            },
        ),
    );
    let c = with_optional_field(b, name, "EncSize"@, some_nat_u8(k.enc_size));
    let d = with_optional_field(c, name, "EDiv"@, some_nat_u16(k.ediv));
    with_optional_field(d, name, "Rand"@, some_nat_u64(k.rand))
}

/// `info` with a signature key written to the section `name`.
pub open spec fn with_csrk(info: InfoView, name: Seq<char>, k: CsrkKeyView) -> InfoView {
    let a = with_field(info, name, "Key"@, k.key);
    let b = with_field(a, name, "Counter"@, decimal(k.counter as nat));
    with_field(b, name, "Authenticated"@, flag_text(k.authenticated))
}

/// `info` with the Low-Energy fields that `le` holds written to their
/// sections.
pub open spec fn with_le(info: InfoView, le: LeKeysView) -> InfoView {
    let a = match le.ltk {
        Some(k) => with_ltk(info, "LongTermKey"@, k),
        None => info,
    };
    let b = match le.peripheral_ltk {
        Some(k) => with_ltk(a, "PeripheralLongTermKey"@, k),
        None => a,
    };
    let c = match le.irk {
        Some(k) => with_field(b, "IdentityResolvingKey"@, "Key"@, k),
        None => b,
    };
    let d = match le.csrk_local {
        Some(k) => with_csrk(c, "LocalSignatureKey"@, k),
        None => c,
    };
    let e = match le.csrk_remote {
        Some(k) => with_csrk(d, "RemoteSignatureKey"@, k),
        None => d,
    };
    match le.address_type {
        Some(t) => with_field(e, "General"@, "AddressType"@, t),
        None => e,
    }
}

/// `info` with every key that `device` holds written to its section.
/// Sections and fields that the device says nothing about stay.
pub open spec fn info_with_device(info: InfoView, device: BluetoothDeviceView) -> InfoView {
    let a = match device.classic {
        Some(c) => with_classic(info, c),
        None => info,
    };
    match device.le {
        Some(le) => with_le(a, le),
        None => a,
    }
}

/// The error for `key`, if it is there and is not a valid key.
pub open spec fn invalid(key: Option<Seq<char>>, label: Seq<char>) -> Option<KeyErrorView> {
    match key {
        Some(k) => if is_valid_key(k) {
            None
        } else {
            Some(key_error(k, label))
        },
        None => None,
    }
}

/// The first of two errors.
pub open spec fn or_else(first: Option<KeyErrorView>, second: Option<KeyErrorView>) -> Option<
    KeyErrorView,
> {
    if first is Some {
        first
    } else {
        second
    }
}

pub open spec fn ltk_key(k: Option<LeLongTermKeyView>) -> Option<Seq<char>> {
    match k {
        Some(v) => Some(v.key),
        None => None,
    }
}

pub open spec fn csrk_key(k: Option<CsrkKeyView>) -> Option<Seq<char>> {
    match k {
        Some(v) => Some(v.key),
        None => None,
    }
}

/// The first key of the Low-Energy keys that is not valid, in the order
/// in which the keys are written.
pub open spec fn first_invalid_le_key(le: LeKeysView) -> Option<KeyErrorView> {
    or_else(
        invalid(ltk_key(le.ltk), "LTK"@),
        or_else(
            invalid(ltk_key(le.peripheral_ltk), "PeripheralLTK"@),
            or_else(
                invalid(le.irk, "IRK"@),
                or_else(
                    invalid(csrk_key(le.csrk_local), "CSRK (Local)"@),
                    invalid(csrk_key(le.csrk_remote), "CSRK (Remote)"@),
                ),
            ),
        ),
    )
}

/// The first key of a device that is not valid, in the order in which the
/// keys are written: the link key, then the Low-Energy keys.
pub open spec fn first_invalid_key(device: BluetoothDeviceView) -> Option<KeyErrorView> {
    or_else(
        match device.classic {
            Some(c) => invalid(Some(c.link_key), "LinkKey"@),
            None => None,
        },
        match device.le {
            Some(le) => first_invalid_le_key(le),
            None => None,
        },
    )
}

/// The lines of the first `n` fields of a section.
pub open spec fn fields_text(keys: Seq<Seq<char>>, values: Seq<String>, n: nat) -> Seq<char>
    decreases n,
{
    if n == 0 {
        Seq::empty()
    } else {
        fields_text(keys, values, (n - 1) as nat) + keys[n - 1] + "="@ + values[n - 1]@ + "\n"@
    }
}

/// The text of one section: its header, its fields, and an empty line.
pub open spec fn section_text(name: Seq<char>, section: StrMap<String>) -> Seq<char> {
    "["@ + name + "]\n"@ + fields_text(section.keys(), section.values(), section.keys().len())
        + "\n"@
}

/// The text of the first `n` sections.
pub open spec fn sections_text(keys: Seq<Seq<char>>, values: Seq<StrMap<String>>, n: nat) -> Seq<
    char,
>
    decreases n,
{
    if n == 0 {
        Seq::empty()
    } else {
        sections_text(keys, values, (n - 1) as nat) + section_text(keys[n - 1], values[n - 1])
    }
}

/// The text of an `info` file with these sections, in their order.
pub open spec fn info_text(sections: Sections) -> Seq<char> {
    sections_text(sections.keys(), sections.values(), sections.keys().len())
}

/// Text that is one line and has no blank character at either end.
pub open spec fn plain(s: Seq<char>) -> bool {
    no_line_feed(s) && (s.len() == 0 || (!is_blank(s[0]) && !is_blank(s.last())))
}

/// A field that a reader finds again as it was written: key and value are
/// plain, the key holds no equals sign and does not begin like a comment,
/// and the line does not look like a header.
pub open spec fn writable_field(key: Seq<char>, value: Seq<char>) -> bool {
    &&& plain(key)
    &&& plain(value)
    &&& forall|i: int| 0 <= i < key.len() ==> #[trigger] key[i] != '='
    &&& key.len() > 0 ==> key[0] != '#'
    &&& !(key.len() > 0 && key[0] == '[' && value.len() > 0 && value.last() == ']')
}

/// A section whose fields a reader finds again as they were written.
pub open spec fn writable_section(section: StrMap<String>) -> bool {
    &&& section.well_formed()
    &&& section.values().len() == section.keys().len()
    &&& forall|j: int|
        0 <= j < section.keys().len() ==> writable_field(
            #[trigger] section.keys()[j],
            section.values()[j]@,
        )
}

/// Sections that a reader finds again as they were written: every name is
/// one line and not empty, and every section is writable.
pub open spec fn writable(sections: Sections) -> bool {
    &&& sections.well_formed()
    &&& sections.values().len() == sections.keys().len()
    &&& forall|i: int|
        0 <= i < sections.keys().len() ==> (#[trigger] sections.keys()[i]).len() > 0
            && no_line_feed(sections.keys()[i])
    &&& forall|i: int|
        0 <= i < sections.values().len() ==> writable_section(#[trigger] sections.values()[i])
}

/// The state of a reader that has not read anything.
pub open spec fn nothing_read() -> ParseState {
    ParseState { current: Seq::empty(), sections: Map::empty() }
}

/// The state of a reader after the text `content`.
pub open spec fn state_after(content: Seq<char>) -> ParseState {
    parse_lines(nothing_read(), split_lines(content))
}

/// A whole line put after a text that ends a line is read as that line.
proof fn lemma_parse_appended_line(text: Seq<char>, line: Seq<char>)
    requires
        ends_a_line(text),
        no_line_feed(line),
    ensures
        ends_a_line(text + line + seq!['\n']),
        state_after(text + line + seq!['\n']) == parse_line(state_after(text), line),
{
    lemma_split_lines_line(text, line);
    let before = split_lines(text);
    let done = before.drop_last();
    let after = split_lines(text + line + seq!['\n']);
    let empty = Seq::<char>::empty();
    assert(before =~= done.push(empty));
    assert(after.drop_last() =~= done.push(line));
    assert(after.last() == empty);
    assert(done.push(line).drop_last() =~= done);
    assert(done.push(line).last() == line);
    assert(done.push(empty).drop_last() =~= done);
    assert(done.push(empty).last() == empty);
    let at_done = parse_lines(nothing_read(), done);
    assert(trimmed(empty) == empty);
    assert(parse_line(at_done, empty) == at_done);
    assert(state_after(text) == parse_line(at_done, empty));
    assert(parse_lines(nothing_read(), done.push(line)) == parse_line(at_done, line));
    assert(parse_line(parse_line(at_done, line), empty) == parse_line(at_done, line));
}

/// A header line opens its section.
proof fn lemma_header_line(state: ParseState, name: Seq<char>)
    ensures
        parse_line(state, seq!['['] + name + seq![']']) == (ParseState {
            current: name,
            sections: with_section(state.sections, name),
        }),
{
    let line = seq!['['] + name + seq![']'];
    assert(line[0] == '[');
    assert(line.last() == ']');
    lemma_trimmed_unchanged(line);
    assert(line.subrange(1, line.len() - 1) =~= name);
}

/// A field line of a writable field adds that field to the open section.
proof fn lemma_field_line(state: ParseState, key: Seq<char>, value: Seq<char>)
    requires
        writable_field(key, value),
        state.current.len() > 0,
    ensures
        parse_line(state, key + seq!['='] + value) == (ParseState {
            current: state.current,
            sections: with_field(state.sections, state.current, key, value),
        }),
{
    let line = key + seq!['='] + value;
    assert(line.len() == key.len() + 1 + value.len());
    assert(line[key.len() as int] == '=');
    if key.len() > 0 {
        assert(line[0] == key[0]);
    } else {
        assert(line[0] == '=');
    }
    if value.len() > 0 {
        assert(line.last() == value.last());
    } else {
        assert(line.last() == '=');
    }
    lemma_trimmed_unchanged(line);
    assert forall|j: int| 0 <= j < key.len() implies line[j] != '=' by {
        assert(line[j] == key[j]);
    }
    lemma_position_of(line, '=', key.len() as int);
    assert(line.subrange(0, key.len() as int) =~= key);
    assert(line.subrange(key.len() as int + 1, line.len() as int) =~= value);
    lemma_trimmed_unchanged(key);
    lemma_trimmed_unchanged(value);
}

/// The fields of a writable section, written after the section's header,
/// are read as they were written.
proof fn lemma_fields_parse(
    text: Seq<char>,
    name: Seq<char>,
    section: StrMap<String>,
    base: InfoView,
    n: nat,
)
    requires
        ends_a_line(text),
        name.len() > 0,
        state_after(text) == (ParseState {
            current: name,
            sections: base.insert(name, Map::empty()),
        }),
        writable_section(section),
        n <= section.keys().len(),
    ensures
        ends_a_line(text + fields_text(section.keys(), section.values(), n)),
        state_after(text + fields_text(section.keys(), section.values(), n)) == (ParseState {
            current: name,
            sections: base.insert(name, section.first_entries(n)),
        }),
    decreases n,
{
    reveal_strlit("=");
    reveal_strlit("\n");
    if n == 0 {
        assert(text + fields_text(section.keys(), section.values(), n) =~= text);
    } else {
        let m = (n - 1) as nat;
        lemma_fields_parse(text, name, section, base, m);
        let before = text + fields_text(section.keys(), section.values(), m);
        let key = section.keys()[n - 1];
        let value = section.values()[n - 1]@;
        let line = key + seq!['='] + value;
        assert("="@ =~= seq!['=']);
        assert("\n"@ =~= seq!['\n']);
        assert(text + fields_text(section.keys(), section.values(), n) =~= before + line
            + seq!['\n']);
        assert(writable_field(key, value));
        assert(no_line_feed(line)) by {
            assert forall|i: int| 0 <= i < line.len() implies #[trigger] line[i] != '\n' by {
                if i < key.len() {
                    assert(line[i] == key[i]);
                } else if i > key.len() {
                    assert(line[i] == value[i - key.len() - 1]);
                }
            }
        }
        lemma_parse_appended_line(before, line);
        let held = state_after(before);
        lemma_field_line(held, key, value);
        assert(with_field(held.sections, name, key, value) =~= base.insert(
            name,
            section.first_entries(n),
        ));
    }
}

/// The first `n` sections of writable sections are read as they were
/// written.
proof fn lemma_sections_parse(sections: Sections, n: nat)
    requires
        writable(sections),
        n <= sections.keys().len(),
    ensures
        ends_a_line(sections_text(sections.keys(), sections.values(), n)),
        state_after(sections_text(sections.keys(), sections.values(), n)).sections
            == sections.first_entries(n),
    decreases n,
{
    reveal_strlit("[");
    reveal_strlit("]\n");
    reveal_strlit("\n");
    let names = sections.keys();
    let held = sections.values();
    if n == 0 {
        assert(sections_text(names, held, n) =~= Seq::<char>::empty());
        assert(split_lines(Seq::<char>::empty()) =~= seq![Seq::<char>::empty()]);
        assert(seq![Seq::<char>::empty()].drop_last() =~= Seq::<Seq<char>>::empty());
        assert(trimmed(Seq::<char>::empty()) == Seq::<char>::empty());
        let one = seq![Seq::<char>::empty()];
        assert(one.last() == Seq::<char>::empty());
        assert(parse_lines(nothing_read(), one.drop_last()) == nothing_read());
        assert(parse_lines(nothing_read(), one) == parse_line(
            nothing_read(),
            Seq::<char>::empty(),
        ));
        assert(state_after(Seq::<char>::empty()) == nothing_read());
    } else {
        let m = (n - 1) as nat;
        lemma_sections_parse(sections, m);
        sections.lemma_first_entries(m);
        sections.lemma_entries();
        let before = sections_text(names, held, m);
        let name = names[n - 1];
        let section = held[n - 1];
        let base = sections.first_entries(m);
        let count = section.keys().len();
        assert(writable_section(section));
        assert(name.len() > 0 && no_line_feed(name));
        // The header.
        let header = seq!['['] + name + seq![']'];
        assert(no_line_feed(header)) by {
            assert forall|i: int| 0 <= i < header.len() implies #[trigger] header[i] != '\n' by {
                if 0 < i && i <= name.len() {
                    assert(header[i] == name[i - 1]);
                }
            }
        }
        lemma_parse_appended_line(before, header);
        let opened = before + header + seq!['\n'];
        lemma_header_line(state_after(before), name);
        crate::strmap::lemma_prefix_step(names, m as int);
        assert(!base.contains_key(name));
        assert(with_section(base, name) =~= base.insert(name, Map::empty()));
        // The fields.
        lemma_fields_parse(opened, name, section, base, count);
        let filled = opened + fields_text(section.keys(), section.values(), count);
        section.lemma_first_entries(count);
        // The empty line that ends the section.
        let empty = Seq::<char>::empty();
        lemma_parse_appended_line(filled, empty);
        assert(trimmed(empty) == empty);
        let closed = filled + empty + seq!['\n'];
        assert("["@ =~= seq!['[']);
        assert("]\n"@ =~= seq![']', '\n']);
        assert("\n"@ =~= seq!['\n']);
        assert(sections_text(names, held, n) =~= closed);
        assert(base.insert(name, section@) == sections.first_entries(n));
        assert(state_after(filled).sections == base.insert(name, section@));
        assert(parse_line(state_after(filled), empty) == state_after(filled));
        assert(state_after(closed).sections == sections.first_entries(n));
    }
}

/// Writable sections are read from their text as they were written.
pub proof fn lemma_info_text_parses_back(sections: Sections)
    requires
        writable(sections),
    ensures
        parsed_info(info_text(sections)) == sections@,
{
    let n = sections.keys().len();
    lemma_sections_parse(sections, n);
    sections.lemma_first_entries(n);
}

/// A name that has the shape of an address directory: seventeen bytes
/// with a colon among them.
pub open spec fn is_address_name(name: &str) -> bool {
    name@.contains(':') && name.spec_bytes().len() as usize == 17
}

/// Whether a directory entry is named like an adapter or a device.
pub fn looks_like_address(name: &str) -> (b: bool)
    ensures
        b == is_address_name(name),
{
    let chars = to_chars(name);
    contains_char(&chars, ':') && name.len() == 17
}

/// The string that the characters of `v` spell.
fn string_of(v: &Vec<char>) -> (s: String)
    ensures
        s@ == v@,
{
    let s = from_chars(v, 0, v.len());
    assert(v@.subrange(0, v@.len() as int) == v@);
    s
}

/// Stores `value` under `key` in the section `name`.
pub fn set_field(sections: &mut Sections, name: &str, key: &str, value: String)
    ensures
        final(sections)@ == with_field(old(sections)@, name@, key@, value@),
{
    let held = sections.insert(owned(name), StrMap::new());
    let mut section = match held {
        Some(s) => s,
        None => StrMap::new(),
    };
    section.insert(owned(key), value);
    sections.insert(owned(name), section);
    assert(final(sections)@ =~= with_field(old(sections)@, name@, key@, value@));
}

/// Makes sure that the section `name` is there.
fn open_section(sections: &mut Sections, name: &str)
    ensures
        final(sections)@ == with_section(old(sections)@, name@),
{
    if !sections.contains_key(name) {
        sections.insert(owned(name), StrMap::new());
    }
    assert(final(sections)@ =~= with_section(old(sections)@, name@));
}

/// An `info` file as it is to be written.
#[derive(Debug)]
pub struct WrittenInfo {
    /// The sections of the file.
    pub sections: Sections,
    /// The text of the file.
    pub content: String,
}

/// The sections of the file that is there, none where there is no file.
pub open spec fn existing_info(existing: Option<&str>) -> InfoView {
    match existing {
        Some(content) => parsed_info(content@),
        None => Map::empty(),
    }
}

/// The file-tree pairing store's codec. It holds no state: the store is the
/// file tree itself.
#[derive(Debug, Clone, Copy, PartialEq, Eq)]
pub struct LinuxBluetoothManager;

impl LinuxBluetoothManager {
    pub fn new() -> (r: Result<Self, StoreError>)
        ensures
            r is Ok,
    {
        Ok(LinuxBluetoothManager)
    }

    /// The directory of an adapter.
    pub fn get_adapter_info_path(adapter_mac: &str) -> (path: String)
        ensures
            path@ == BLUETOOTH_LIB_PATH@ + "/"@ + normalized_mac(adapter_mac@),
    {
        let mut path = owned(BLUETOOTH_LIB_PATH);
        path.append("/");
        let name = normalize_mac(adapter_mac);
        path.append(name.as_str());
        path
    }

    /// The `info` file of a device.
    pub fn get_device_info_path(adapter_mac: &str, device_mac: &str) -> (path: String)
        ensures
            path@ == BLUETOOTH_LIB_PATH@ + "/"@ + normalized_mac(adapter_mac@) + "/"@
                + normalized_mac(device_mac@) + "/info"@,
    {
        let mut path = Self::get_adapter_info_path(adapter_mac);
        path.append("/");
        let name = normalize_mac(device_mac);
        path.append(name.as_str());
        path.append("/info");
        path
    }

    /// Reads the sections of an `info` file.
    pub fn parse_info_file(content: &str) -> (sections: Sections)
        ensures
            sections@ == parsed_info(content@),
    {
        let chars = to_chars(content);
        let all = lines(&chars);
        let mut sections: Sections = StrMap::new();
        let mut current: String = String::new();
        let ghost start = ParseState { current: Seq::empty(), sections: Map::empty() };
        let mut i: usize = 0;
        while i < all.len()
            invariant
                i <= all.len(),
                line_views(all@) == split_lines(content@),
                start == (ParseState { current: Seq::empty(), sections: Map::empty() }),
                parse_lines(start, line_views(all@).take(i as int)) == (ParseState {
                    current: current@,
                    sections: sections@,
                }),
            decreases all.len() - i,
        {
            let ghost before = ParseState { current: current@, sections: sections@ };
            proof {
                let views = line_views(all@);
                assert(views.take(i + 1).drop_last() == views.take(i as int));
                assert(views.take(i + 1).last() == all@[i as int]@);
            }
            let line = &all[i];
            let t = trim(line, 0, line.len());
            assert(line@.subrange(0, line@.len() as int) == line@);
            if t.len() == 0 || t[0] == '#' {
            } else if t[0] == '[' && t[t.len() - 1] == ']' {
                current = from_chars(&t, 1, t.len() - 1);
                open_section(&mut sections, current.as_str());
            } else {
                let at = find_char(&t, '=');
                if at < t.len() {
                    let key = trim(&t, 0, at);
                    let value = trim(&t, at + 1, t.len());
                    if current.as_str().unicode_len() > 0 {
                        set_field(
                            &mut sections,
                            current.as_str(),
                            string_of(&key).as_str(),
                            string_of(&value),
                        );
                    }
                }
            }
            assert((ParseState { current: current@, sections: sections@ }) == parse_line(
                before,
                all@[i as int]@,
            ));
            i += 1;
        }
        assert(line_views(all@).take(all@.len() as int) == line_views(all@));
        sections
    }

    /// The value of a field.
    pub fn get_field<'a>(sections: &'a Sections, name: &str, key: &str) -> (r: Option<&'a String>)
        ensures
            match r {
                Some(v) => field(sections@, name@, key@) == Some(v@),
                None => field(sections@, name@, key@) is None,
            },
    {
        match sections.get(name) {
            Some(section) => section.get(key),
            None => None,
        }
    }

    /// The number in a field.
    pub fn get_number(sections: &Sections, name: &str, key: &str, max: u64) -> (r: Option<u64>)
        ensures
            match r {
                Some(n) => number_field(sections@, name@, key@, max as nat) == Some(n as nat),
                None => number_field(sections@, name@, key@, max as nat) is None,
            },
    {
        match Self::get_field(sections, name, key) {
            Some(v) => {
                let chars = to_chars(v.as_str());
                parse_number(&chars, max)
            },
            None => None,
        }
    }

    fn get_u8(sections: &Sections, name: &str, key: &str) -> (r: Option<u8>)
        ensures
            r == u8_field(sections@, name@, key@),
    {
        match Self::get_number(sections, name, key, 255) {
            Some(n) => Some(n as u8),
            None => None,
        }
    }

    fn get_u16(sections: &Sections, name: &str, key: &str) -> (r: Option<u16>)
        ensures
            r == u16_field(sections@, name@, key@),
    {
        match Self::get_number(sections, name, key, 65535) {
            Some(n) => Some(n as u16),
            None => None,
        }
    }

    fn get_u64(sections: &Sections, name: &str, key: &str) -> (r: Option<u64>)
        ensures
            r == u64_field(sections@, name@, key@),
    {
        Self::get_number(sections, name, key, 18446744073709551615)
    }

    /// The `Key` of a section, where it is a valid key.
    fn get_key(sections: &Sections, name: &str) -> (r: Option<String>)
        ensures
            string_view(r) == key_field(sections@, name@),
    {
        match Self::get_field(sections, name, "Key") {
            Some(k) => {
                if validate_bluetooth_key(k.as_str(), name).is_ok() {
                    Some(k.clone())
                } else {
                    None
                }
            },
            None => None,
        }
    }

    fn classic_from(sections: &Sections) -> (r: Option<ClassicKeys>)
        ensures
            classic_view(r) == classic_of_info(sections@),
    {
        match Self::get_key(sections, "LinkKey") {
            Some(link_key) => {
                let key_type = match Self::get_number(sections, "LinkKey", "Type", 255) {
                    Some(n) => n as u8,
                    None => 4,
                };
                let pin_length = match Self::get_number(sections, "LinkKey", "PINLength", 255) {
                    Some(n) => n as u8,
                    None => 0,
                };
                Some(ClassicKeys { link_key, key_type, pin_length })
            },
            None => None,
        }
    }

    fn ltk_from(sections: &Sections, name: &str) -> (r: Option<LeLongTermKey>)
        ensures
            ltk_view(r) == ltk_of_info(sections@, name@),
    {
        match Self::get_key(sections, name) {
            Some(key) => Some(
                LeLongTermKey {
                    key,
                    authenticated: Self::get_u8(sections, name, "Authenticated"),
                    enc_size: Self::get_u8(sections, name, "EncSize"),
                    ediv: Self::get_u16(sections, name, "EDiv"),
                    rand: Self::get_u64(sections, name, "Rand"),
                },
            ),
            None => None,
        }
    }

    fn csrk_from(sections: &Sections, name: &str) -> (r: Option<CsrkKey>)
        ensures
            csrk_view(r) == csrk_of_info(sections@, name@),
    {
        match Self::get_key(sections, name) {
            Some(key) => {
                let counter = match Self::get_number(sections, name, "Counter", 4294967295) {
                    Some(n) => n as u32,
                    None => 0,
                };
                let authenticated = match Self::get_field(sections, name, "Authenticated") {
                    Some(v) => v.as_str().to_lowercase().as_str().eq("true"),
                    None => false,
                };
                Some(CsrkKey { key, counter, authenticated })
            },
            None => None,
        }
    }

    fn note_refused_field(sections: &Sections, name: &str, label: &str, skipped: &mut Vec<KeyError>)
        ensures
            key_error_views(final(skipped)@) == key_error_views(old(skipped)@) + refused(
                field(sections@, name@, "Key"@),
                label@,
            ),
    {
        let ghost before = key_error_views(skipped@);
        match Self::get_field(sections, name, "Key") {
            Some(key) => {
                note_refused(key.as_str(), label, skipped);
            },
            None => {
                assert(key_error_views(skipped@) =~= before + Seq::<KeyErrorView>::empty());
            },
        }
    }

    /// The keys of an `info` file that are not valid, each with the error
    /// that says why.
    pub fn refused_keys(sections: &Sections) -> (skipped: Vec<KeyError>)
        ensures
            key_error_views(skipped@) == refused_info_keys(sections@),
    {
        let mut skipped: Vec<KeyError> = Vec::new();
        assert(key_error_views(skipped@) =~= Seq::<KeyErrorView>::empty());
        Self::note_refused_field(sections, "LinkKey", "LinkKey", &mut skipped);
        Self::note_refused_field(sections, "LongTermKey", "LTK", &mut skipped);
        Self::note_refused_field(sections, "PeripheralLongTermKey", "PeripheralLTK", &mut skipped);
        Self::note_refused_field(sections, "IdentityResolvingKey", "IRK", &mut skipped);
        Self::note_refused_field(sections, "LocalSignatureKey", "CSRK (Local)", &mut skipped);
        Self::note_refused_field(sections, "RemoteSignatureKey", "CSRK (Remote)", &mut skipped);
        assert(key_error_views(skipped@) =~= refused_info_keys(sections@));
        skipped
    }

    /// The device that the sections of an `info` file describe. A section
    /// whose key is not valid counts as absent, and its key is reported. A
    /// file that leaves the device without any key is an error.
    pub fn device_from_sections(sections: &Sections, device_mac: &str) -> (r: DeviceRead)
        ensures
            match r.device {
                Ok(d) => d@ == device_of_info(sections@, device_mac@) && (d@.classic is Some
                    || d@.le is Some),
                Err(e) => device_of_info(sections@, device_mac@).classic is None
                    && device_of_info(sections@, device_mac@).le is None && e@
                    == StoreErrorView::NotFound(no_keys_message(device_mac@)),
            },
            key_error_views(r.skipped@) == refused_info_keys(sections@),
    {
        let skipped = Self::refused_keys(sections);
        let classic = Self::classic_from(sections);
        let ltk = Self::ltk_from(sections, "LongTermKey");
        let peripheral_ltk = Self::ltk_from(sections, "PeripheralLongTermKey");
        let irk = Self::get_key(sections, "IdentityResolvingKey");
        let csrk_local = Self::csrk_from(sections, "LocalSignatureKey");
        let csrk_remote = Self::csrk_from(sections, "RemoteSignatureKey");
        let address_type = match Self::get_field(sections, "General", "AddressType") {
            Some(t) => Some(t.clone()),
            None => None,
        };
        let has_le = ltk.is_some() || peripheral_ltk.is_some() || irk.is_some()
            || csrk_local.is_some() || csrk_remote.is_some() || address_type.is_some();
        let le = if has_le {
            Some(LeKeys { ltk, peripheral_ltk, irk, csrk_local, csrk_remote, address_type })
        } else {
            None
        };
        let device = BluetoothDevice { mac_address: normalize_mac(device_mac), classic, le };
        if !device.has_keys() {
            return DeviceRead {
                device: Err(
                    StoreError::NotFound(
                        String::from_str("No keys found for device ").concat(device_mac),
                    ),
                ),
                skipped,
            };
        }
        DeviceRead { device: Ok(device), skipped }
    }

    /// The device that an `info` file with the text `content` describes,
    /// and the keys of the file that were left out because they are not
    /// valid.
    pub fn read_device_keys(content: &str, device_mac: &str) -> (r: DeviceRead)
        ensures
            match r.device {
                Ok(d) => d@ == device_of_info(parsed_info(content@), device_mac@) && (d@.classic
                    is Some || d@.le is Some),
                Err(e) => device_of_info(parsed_info(content@), device_mac@).classic is None
                    && device_of_info(parsed_info(content@), device_mac@).le is None && e@
                    == StoreErrorView::NotFound(no_keys_message(device_mac@)),
            },
            key_error_views(r.skipped@) == refused_info_keys(parsed_info(content@)),
    {
        let sections = Self::parse_info_file(content);
        Self::device_from_sections(&sections, device_mac)
    }

    /// Checks every key of a device, in the order in which the keys are
    /// written, and reports the first that is not valid.
    pub fn validate_device_keys(device: &BluetoothDevice) -> (r: Result<(), KeyError>)
        ensures
            match r {
                Ok(()) => first_invalid_key(device@) is None,
                Err(e) => first_invalid_key(device@) == Some(e@),
            },
    {
        match &device.classic {
            Some(c) => {
                validate_bluetooth_key(c.link_key.as_str(), "LinkKey")?;
            },
            None => {},
        }
        match &device.le {
            Some(le) => {
                match &le.ltk {
                    Some(k) => {
                        validate_bluetooth_key(k.key.as_str(), "LTK")?;
                    },
                    None => {},
                }
                match &le.peripheral_ltk {
                    Some(k) => {
                        validate_bluetooth_key(k.key.as_str(), "PeripheralLTK")?;
                    },
                    None => {},
                }
                match &le.irk {
                    Some(k) => {
                        validate_bluetooth_key(k.as_str(), "IRK")?;
                    },
                    None => {},
                }
                match &le.csrk_local {
                    Some(k) => {
                        validate_bluetooth_key(k.key.as_str(), "CSRK (Local)")?;
                    },
                    None => {},
                }
                match &le.csrk_remote {
                    Some(k) => {
                        validate_bluetooth_key(k.key.as_str(), "CSRK (Remote)")?;
                    },
                    None => {},
                }
            },
            None => {},
        }
        Ok(())
    }

    fn put_ltk(sections: &mut Sections, name: &str, k: &LeLongTermKey)
        ensures
            final(sections)@ == with_ltk(old(sections)@, name@, k@),
    {
        set_field(sections, name, "Key", k.key.clone());
        set_field(
            sections,
            name,
            "Authenticated",
            decimal_string(k.authenticated_or_default() as u64),
        );
        match k.enc_size {
            Some(v) => {
                set_field(sections, name, "EncSize", decimal_string(v as u64));
            },
            None => {},
        }
        match k.ediv {
            Some(v) => {
                set_field(sections, name, "EDiv", decimal_string(v as u64));
            },
            None => {},
        }
        match k.rand {
            Some(v) => {
                set_field(sections, name, "Rand", decimal_string(v));
            },
            None => {},
        }
    }

    fn put_csrk(sections: &mut Sections, name: &str, k: &CsrkKey)
        ensures
            final(sections)@ == with_csrk(old(sections)@, name@, k@),
    {
        set_field(sections, name, "Key", k.key.clone());
        set_field(sections, name, "Counter", decimal_string(k.counter as u64));
        let flag = if k.authenticated {
            "true"
        } else {
            "false"
        };
        set_field(sections, name, "Authenticated", owned(flag));
    }

    /// Writes every key that `device` holds into the sections of its `info`
    /// file. A device with a key that is not valid is refused, and the
    /// sections stay as they were.
    pub fn apply_device(sections: &mut Sections, device: &BluetoothDevice) -> (r: Result<
        (),
        StoreError,
    >)
        ensures
            match r {
                Ok(()) => first_invalid_key(device@) is None && final(sections)@
                    == info_with_device(old(sections)@, device@),
                Err(e) => first_invalid_key(device@) is Some && e@ == StoreErrorView::KeyValidation(
                    first_invalid_key(device@)->0,
                ) && *final(sections) == *old(sections),
            },
    {
        match Self::validate_device_keys(device) {
            Ok(()) => {},
            Err(e) => {
                return Err(StoreError::KeyValidation(e));
            },
        }
        match &device.classic {
            Some(c) => {
                set_field(sections, "LinkKey", "Key", c.link_key.clone());
                set_field(sections, "LinkKey", "Type", decimal_string(c.key_type as u64));
                set_field(sections, "LinkKey", "PINLength", decimal_string(c.pin_length as u64));
            },
            None => {},
        }
        match &device.le {
            Some(le) => {
                match &le.ltk {
                    Some(k) => {
                        Self::put_ltk(sections, "LongTermKey", k);
                    },
                    None => {},
                }
                match &le.peripheral_ltk {
                    Some(k) => {
                        Self::put_ltk(sections, "PeripheralLongTermKey", k);
                    },
                    None => {},
                }
                match &le.irk {
                    Some(k) => {
                        set_field(sections, "IdentityResolvingKey", "Key", k.clone());
                    },
                    None => {},
                }
                match &le.csrk_local {
                    Some(k) => {
                        Self::put_csrk(sections, "LocalSignatureKey", k);
                    },
                    None => {},
                }
                match &le.csrk_remote {
                    Some(k) => {
                        Self::put_csrk(sections, "RemoteSignatureKey", k);
                    },
                    None => {},
                }
                match &le.address_type {
                    Some(t) => {
                        set_field(sections, "General", "AddressType", t.clone());
                    },
                    None => {},
                }
            },
            None => {},
        }
        Ok(())
    }

    /// The text of an `info` file with these sections: each section's header
    /// in square brackets, its fields as `Key=Value` lines, and an empty line
    /// after it.
    pub fn serialize_info(sections: &Sections) -> (text: String)
        ensures
            text@ == info_text(*sections),
    {
        let mut text = String::new();
        let n = sections.len();
        let mut i: usize = 0;
        while i < n
            invariant
                i <= n,
                n == sections.keys().len(),
                n == sections.values().len(),
                text@ == sections_text(sections.keys(), sections.values(), i as nat),
            decreases n - i,
        {
            let name = sections.key_at(i);
            let section = sections.value_at(i);
            let ghost before = text@;
            text.append("[");
            text.append(name.as_str());
            text.append("]\n");
            let ghost head = text@;
            let m = section.len();
            let mut j: usize = 0;
            while j < m
                invariant
                    j <= m,
                    m == section.keys().len(),
                    m == section.values().len(),
                    text@ == head + fields_text(section.keys(), section.values(), j as nat),
                decreases m - j,
            {
                let key = section.key_at(j);
                let value = section.value_at(j);
                let ghost held = text@;
                text.append(key.as_str());
                text.append("=");
                text.append(value.as_str());
                text.append("\n");
                proof {
                    let f = fields_text(section.keys(), section.values(), j as nat);
                    assert(text@ =~= head + (f + key@ + "="@ + value@ + "\n"@));
                }
                j += 1;
            }
            text.append("\n");
            proof {
                let f = fields_text(section.keys(), section.values(), m as nat);
                assert(text@ =~= before + ("["@ + name@ + "]\n"@ + f + "\n"@));
            }
            i += 1;
        }
        text
    }

    /// The `info` file of a device after its keys were written into it.
    ///
    /// `existing` is the text of the file as it stands, if there is one.
    /// What the file holds besides the device's keys is kept.
    pub fn write_device_keys(existing: Option<&str>, device: &BluetoothDevice) -> (r: Result<
        WrittenInfo,
        StoreError,
    >)
        ensures
            match r {
                Ok(written) => first_invalid_key(device@) is None && written.sections@
                    == info_with_device(existing_info(existing), device@) && written.content@
                    == info_text(written.sections),
                Err(e) => first_invalid_key(device@) is Some && e@ == StoreErrorView::KeyValidation(
                    first_invalid_key(device@)->0,
                ),
            },
    {
        let mut sections = match existing {
            Some(content) => Self::parse_info_file(content),
            None => StrMap::new(),
        };
        Self::apply_device(&mut sections, device)?;
        let content = Self::serialize_info(&sections);
        Ok(WrittenInfo { sections, content })
    }
}

} // verus!
