//! The per-machine settings of the link-key exchange: where the EFI System
//! Partition is found and which adapter the machine uses.

use crate::strmap::StrMap;
use crate::text::{from_chars, line_views, lines, owned, split_lines, to_chars, unicode_uppercase};
use crate::windows::bluetooth::{hex_encode, hex_lower};
use vstd::prelude::*;
use vstd::string::StringExecFns;

verus! {

/// The operating system that the settings are for.
#[derive(Debug, Clone, Copy, PartialEq, Eq)]
pub enum Platform {
    Linux,
    Windows,
}

/// A place where the partition may be found.
#[derive(Debug, PartialEq, Eq)]
pub struct EfiCandidate {
    /// The path whose existence says that the partition is here.
    pub probe: String,
    /// The root of the partition, if it is here.
    pub root: String,
    /// Whether the path exists.
    pub exists: bool,
}

/// The settings of one machine.
#[derive(Debug, PartialEq, Eq)]
pub struct Config {
    /// The root of the EFI System Partition.
    pub efi_path: String,
    /// The address of the adapter, once it is known.
    pub adapter_mac: Option<String>,
}

pub struct ConfigFields {
    pub efi_path: Seq<char>,
    pub adapter_mac: Option<Seq<char>>,
}

impl View for Config {
    type V = ConfigFields;

    open spec fn view(&self) -> ConfigFields {
        ConfigFields {
            efi_path: self.efi_path@,
            adapter_mac: match self.adapter_mac {
                Some(m) => Some(m@),
                None => None,
            },
        }
    }
}

impl Clone for Config {
    fn clone(&self) -> (r: Self)
        ensures
            r@ == self@,
    {
        Config {
            efi_path: self.efi_path.clone(),
            adapter_mac: match &self.adapter_mac {
                Some(m) => Some(m.clone()),
                None => None,
            },
        }
    }
}

/// The position of the first candidate that exists, or the number of
/// candidates where none does.
pub open spec fn first_existing(candidates: Seq<EfiCandidate>) -> int
    decreases candidates.len(),
{
    if candidates.len() == 0 {
        0
    } else if candidates[0].exists {
        0
    } else {
        1 + first_existing(candidates.drop_first())
    }
}

proof fn lemma_first_existing(candidates: Seq<EfiCandidate>, i: int)
    requires
        0 <= i <= candidates.len(),
        forall|j: int| 0 <= j < i ==> !candidates[j].exists,
        i < candidates.len() ==> candidates[i].exists,
    ensures
        first_existing(candidates) == i,
    decreases candidates.len(),
{
    if candidates.len() > 0 && i > 0 {
        let rest = candidates.drop_first();
        assert forall|j: int| 0 <= j < i - 1 implies !rest[j].exists by {
            assert(rest[j] == candidates[j + 1]);
        }
        lemma_first_existing(rest, i - 1);
    }
}

/// Where the partition is taken to be when it was not found.
pub open spec fn fallback_efi_path(platform: Platform) -> Seq<char> {
    match platform {
        Platform::Linux => "/boot/efi"@,
        Platform::Windows => "C:\\EFI"@,
    }
}

/// Where a line `Key=` begins in the lines `all`: the first line that
/// begins so, or the number of lines where none does.
pub open spec fn first_key_line(all: Seq<Seq<char>>) -> int
    decreases all.len(),
{
    if all.len() == 0 {
        0
    } else if begins_with_key(all[0]) {
        0
    } else {
        1 + first_key_line(all.drop_first())
    }
}

/// Whether a line begins with `Key=`.
pub open spec fn begins_with_key(line: Seq<char>) -> bool {
    line.len() >= 4 && line[0] == 'K' && line[1] == 'e' && line[2] == 'y' && line[3] == '='
}

/// A line as it is read: a line that a line feed ends loses a carriage
/// return before that line feed; the last line is taken as it stands.
pub open spec fn line_as_read(all: Seq<Seq<char>>, i: int) -> Seq<char> {
    if i + 1 < all.len() && all[i].len() > 0 && all[i].last() == '\r' {
        all[i].drop_last()
    } else {
        all[i]
    }
}

proof fn lemma_first_key_line(all: Seq<Seq<char>>, i: int)
    requires
        0 <= i <= all.len(),
        forall|j: int| 0 <= j < i ==> !begins_with_key(all[j]),
        i < all.len() ==> begins_with_key(all[i]),
    ensures
        first_key_line(all) == i,
    decreases all.len(),
{
    if all.len() > 0 && i > 0 {
        let rest = all.drop_first();
        assert forall|j: int| 0 <= j < i - 1 implies !begins_with_key(rest[j]) by {
            assert(rest[j] == all[j + 1]);
        }
        lemma_first_key_line(rest, i - 1);
    }
}

/// The link key that an `info` file with the text `content` holds: what
/// follows `Key=` on the first line that begins so.
pub open spec fn link_key_in(content: Seq<char>) -> Option<Seq<char>> {
    let all = split_lines(content);
    let i = first_key_line(all);
    if i < all.len() {
        Some(line_as_read(all, i).subrange(4, line_as_read(all, i).len() as int))
    } else {
        None
    }
}

/// Reads the link key from the text of a device's `info` file.
pub fn read_link_key(content: &str) -> (r: Option<String>)
    ensures
        match r {
            Some(key) => link_key_in(content@) == Some(key@),
            None => link_key_in(content@) is None,
        },
{
    let chars = to_chars(content);
    let all = lines(&chars);
    let mut i: usize = 0;
    while i < all.len()
        invariant
            i <= all.len(),
            line_views(all@) == split_lines(content@),
            forall|j: int| 0 <= j < i ==> !begins_with_key(#[trigger] line_views(all@)[j]),
        decreases all.len() - i,
    {
        let line = &all[i];
        assert(line_views(all@)[i as int] == line@);
        if line.len() >= 4 && line[0] == 'K' && line[1] == 'e' && line[2] == 'y' && line[3] == '=' {
            proof {
                lemma_first_key_line(line_views(all@), i as int);
            }
            let end = if i + 1 < all.len() && line[line.len() - 1] == '\r' {
                line.len() - 1
            } else {
                line.len()
            };
            let key = from_chars(line, 4, end);
            proof {
                let read = line_as_read(line_views(all@), i as int);
                assert(read == line@.subrange(0, end as int));
                assert(read.subrange(4, read.len() as int) == line@.subrange(4, end as int));
            }
            return Some(key);
        }
        i += 1;
    }
    proof {
        lemma_first_key_line(line_views(all@), i as int);
    }
    None
}

impl Config {
    /// The settings of a machine that knows no adapter yet: the partition
    /// where it was found, or the platform's usual place.
    pub fn default(platform: Platform, found: Option<String>) -> (r: Self)
        ensures
            r@ == (ConfigFields {
                efi_path: match found {
                    Some(p) => p@,
                    None => fallback_efi_path(platform),
                },
                adapter_mac: None,
            }),
    {
        let efi_path = match found {
            Some(p) => p,
            None => match platform {
                Platform::Linux => owned("/boot/efi"),
                Platform::Windows => owned("C:\\EFI"),
            },
        };
        Config { efi_path, adapter_mac: None }
    }

    /// The root of the partition: that of the first candidate, in their
    /// order, whose path exists.
    pub fn find_efi(candidates: &Vec<EfiCandidate>) -> (r: Option<String>)
        ensures
            match r {
                Some(root) => first_existing(candidates@) < candidates.len() && root@
                    == candidates[first_existing(candidates@)].root@,
                None => first_existing(candidates@) == candidates.len(),
            },
    {
        let mut i: usize = 0;
        while i < candidates.len()
            invariant
                i <= candidates.len(),
                forall|j: int| 0 <= j < i ==> !candidates[j].exists,
            decreases candidates.len() - i,
        {
            if candidates[i].exists {
                proof {
                    lemma_first_existing(candidates@, i as int);
                }
                return Some(candidates[i].root.clone());
            }
            i += 1;
        }
        proof {
            lemma_first_existing(candidates@, i as int);
        }
        None
    }

    /// The file on the partition that holds the exchanged link keys.
    pub fn keys_path(&self) -> (path: String)
        ensures
            path@ == self@.efi_path + "/bt_keys.json"@,
    {
        let mut path = self.efi_path.clone();
        path.append("/bt_keys.json");
        path
    }
}

/// The exchanged link keys: the adapter that they belong to, and the key
/// of each device under the device's address in capitals.
#[derive(Debug)]
pub struct KeyFile {
    pub adapter_mac: String,
    pub devices: StrMap<String>,
}

/// The keys that a key file holds, none where there is no file yet.
pub open spec fn keys_of(file: Option<KeyFile>) -> Map<Seq<char>, Seq<char>> {
    match file {
        Some(f) => f.devices@,
        None => Map::empty(),
    }
}

/// Records the link key of a device in the key file. The file is started
/// where there is none; the adapter is set to `adapter_mac` in any case;
/// the keys of other devices stay.
pub fn update_common_file(
    file: Option<KeyFile>,
    adapter_mac: &str,
    device_mac: &str,
    key: &str,
) -> (r: KeyFile)
    ensures
        r.adapter_mac@ == adapter_mac@,
        r.devices@ == keys_of(file).insert(unicode_uppercase(device_mac@), key@),
{
    let mut devices = match file {
        Some(f) => f.devices,
        None => StrMap::new(),
    };
    devices.insert(device_mac.to_uppercase(), owned(key));
    KeyFile { adapter_mac: owned(adapter_mac), devices }
}

/// The spelling of a link key in the key file: the hexadecimal digits of
/// its sixteen bytes, in lower case. A value of another length is no link
/// key.
pub fn link_key_text(value: &Vec<u8>) -> (r: Option<String>)
    ensures
        match r {
            Some(text) => value.len() == 16 && text@ == hex_lower(value@),
            None => value.len() != 16,
        },
{
    if value.len() == 16 {
        Some(hex_encode(value.as_slice()))
    } else {
        None
    }
}

} // verus!
