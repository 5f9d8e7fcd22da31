//! The platform-neutral model of Bluetooth pairing keys.
//!
//! A device holds Classic keys, Low-Energy keys, or both. Each type has a
//! view in which every string is its sequence of characters; contracts are
//! stated over those views.

use crate::text::{
    all_alphanumeric, all_hex, alphanumerics, ascii_upper, char_ascii_upper, char_is_hex_digit,
    decimal, from_chars, is_alnum, is_hex_digit, keep_alphanumeric, lemma_keep_alphanumeric,
    lemma_upper_all, owned, push_decimal, to_chars, unicode_uppercase, upper_all,
};
use vstd::prelude::*;
use vstd::string::StringExecFns;

verus! {

/// A Low-Energy long-term key with what was negotiated alongside it.
#[derive(Debug, PartialEq)]
pub struct LeLongTermKey {
    pub key: String,
    pub authenticated: Option<u8>,
    pub enc_size: Option<u8>,
    pub ediv: Option<u16>,
    pub rand: Option<u64>,
}

pub struct LeLongTermKeyView {
    pub key: Seq<char>,
    pub authenticated: Option<u8>,
    pub enc_size: Option<u8>,
    pub ediv: Option<u16>,
    pub rand: Option<u64>,
}

impl View for LeLongTermKey {
    type V = LeLongTermKeyView;

    open spec fn view(&self) -> LeLongTermKeyView {
        LeLongTermKeyView {
            key: self.key@,
            authenticated: self.authenticated,
            enc_size: self.enc_size,
            ediv: self.ediv,
            rand: self.rand,
        }
    }
}

impl Clone for LeLongTermKey {
    fn clone(&self) -> (r: Self)
        ensures
            r@ == self@,
    {
        LeLongTermKey {
            key: self.key.clone(),
            authenticated: self.authenticated,
            enc_size: self.enc_size,
            ediv: self.ediv,
            rand: self.rand,
        }
    }
}

impl LeLongTermKey {
    /// The authenticated flag, 0 where none was recorded.
    pub fn authenticated_or_default(&self) -> (a: u8)
        ensures
            a == match self.authenticated {
                Some(v) => v,
                None => 0,
            },
    {
        match self.authenticated {
            Some(v) => v,
            None => 0,
        }
    }
}

/// A signature resolving key with its signing counter.
#[derive(Debug, PartialEq)]
pub struct CsrkKey {
    pub key: String,
    pub counter: u32,
    pub authenticated: bool,
}

pub struct CsrkKeyView {
    pub key: Seq<char>,
    pub counter: u32,
    pub authenticated: bool,
}

impl View for CsrkKey {
    type V = CsrkKeyView;

    open spec fn view(&self) -> CsrkKeyView {
        CsrkKeyView { key: self.key@, counter: self.counter, authenticated: self.authenticated }
    }
}

impl Clone for CsrkKey {
    fn clone(&self) -> (r: Self)
        ensures
            r@ == self@,
    {
        CsrkKey {
            key: self.key.clone(),
            counter: self.counter,
            authenticated: self.authenticated,
        }
    }
}

impl CsrkKey {
    /// A key that has signed nothing yet and is not authenticated.
    pub fn new(key: String) -> (r: Self)
        ensures
            r@ == (CsrkKeyView { key: key@, counter: 0, authenticated: false }),
    {
        CsrkKey { key, counter: 0, authenticated: false }
    }
}

/// The Low-Energy keys of one device. Every field may be absent.
#[derive(Debug, PartialEq)]
pub struct LeKeys {
    pub ltk: Option<LeLongTermKey>,
    pub peripheral_ltk: Option<LeLongTermKey>,
    pub irk: Option<String>,
    pub csrk_local: Option<CsrkKey>,
    pub csrk_remote: Option<CsrkKey>,
    pub address_type: Option<String>,
}

pub struct LeKeysView {
    pub ltk: Option<LeLongTermKeyView>,
    pub peripheral_ltk: Option<LeLongTermKeyView>,
    pub irk: Option<Seq<char>>,
    pub csrk_local: Option<CsrkKeyView>,
    pub csrk_remote: Option<CsrkKeyView>,
    pub address_type: Option<Seq<char>>,
}

pub open spec fn ltk_view(k: Option<LeLongTermKey>) -> Option<LeLongTermKeyView> {
    match k {
        Some(v) => Some(v@),
        None => None,
    }
}

pub open spec fn csrk_view(k: Option<CsrkKey>) -> Option<CsrkKeyView> {
    match k {
        Some(v) => Some(v@),
        None => None,
    }
}

pub open spec fn string_view(s: Option<String>) -> Option<Seq<char>> {
    match s {
        Some(v) => Some(v@),
        None => None,
    }
}

impl View for LeKeys {
    type V = LeKeysView;

    open spec fn view(&self) -> LeKeysView {
        LeKeysView {
            ltk: ltk_view(self.ltk),
            peripheral_ltk: ltk_view(self.peripheral_ltk),
            irk: string_view(self.irk),
            csrk_local: csrk_view(self.csrk_local),
            csrk_remote: csrk_view(self.csrk_remote),
            address_type: string_view(self.address_type),
        }
    }
}

/// The keys with every field absent.
pub open spec fn no_le_keys() -> LeKeysView {
    LeKeysView {
        ltk: None,
        peripheral_ltk: None,
        irk: None,
        csrk_local: None,
        csrk_remote: None,
        address_type: None,
    }
}

pub fn clone_ltk(k: &Option<LeLongTermKey>) -> (r: Option<LeLongTermKey>)
    ensures
        ltk_view(r) == ltk_view(*k),
{
    match k {
        Some(v) => Some(v.clone()),
        None => None,
    }
}

pub fn clone_csrk(k: &Option<CsrkKey>) -> (r: Option<CsrkKey>)
    ensures
        csrk_view(r) == csrk_view(*k),
{
    match k {
        Some(v) => Some(v.clone()),
        None => None,
    }
}

pub fn clone_string(s: &Option<String>) -> (r: Option<String>)
    ensures
        string_view(r) == string_view(*s),
{
    match s {
        Some(v) => Some(v.clone()),
        None => None,
    }
}

impl Clone for LeKeys {
    fn clone(&self) -> (r: Self)
        ensures
            r@ == self@,
    {
        LeKeys {
            ltk: clone_ltk(&self.ltk),
            peripheral_ltk: clone_ltk(&self.peripheral_ltk),
            irk: clone_string(&self.irk),
            csrk_local: clone_csrk(&self.csrk_local),
            csrk_remote: clone_csrk(&self.csrk_remote),
            address_type: clone_string(&self.address_type),
        }
    }
}

impl Default for LeKeys {
    fn default() -> (r: Self)
        ensures
            r@ == no_le_keys(),
    {
        LeKeys {
            ltk: None,
            peripheral_ltk: None,
            irk: None,
            csrk_local: None,
            csrk_remote: None,
            address_type: None,
        }
    }
}

/// The key type recorded for a link key whose type is not known.
pub fn default_link_key_type() -> (t: u8)
    ensures
        t == 4,
{
    4
}

/// The Classic link key of one device.
#[derive(Debug, PartialEq)]
pub struct ClassicKeys {
    pub link_key: String,
    pub key_type: u8,
    pub pin_length: u8,
}

pub struct ClassicKeysView {
    pub link_key: Seq<char>,
    pub key_type: u8,
    pub pin_length: u8,
}

impl View for ClassicKeys {
    type V = ClassicKeysView;

    open spec fn view(&self) -> ClassicKeysView {
        ClassicKeysView {
            link_key: self.link_key@,
            key_type: self.key_type,
            pin_length: self.pin_length,
        }
    }
}

impl Clone for ClassicKeys {
    fn clone(&self) -> (r: Self)
        ensures
            r@ == self@,
    {
        ClassicKeys {
            link_key: self.link_key.clone(),
            key_type: self.key_type,
            pin_length: self.pin_length,
        }
    }
}

impl ClassicKeys {
    /// A link key of the default type with no PIN.
    pub fn new(link_key: String) -> (r: Self)
        ensures
            r@ == (ClassicKeysView { link_key: link_key@, key_type: 4, pin_length: 0 }),
    {
        ClassicKeys { link_key, key_type: default_link_key_type(), pin_length: 0 }
    }
}

/// One paired device: its address and the keys of either transport.
#[derive(Debug, PartialEq)]
pub struct BluetoothDevice {
    pub mac_address: String,
    pub classic: Option<ClassicKeys>,
    pub le: Option<LeKeys>,
}

pub struct BluetoothDeviceView {
    pub mac_address: Seq<char>,
    pub classic: Option<ClassicKeysView>,
    pub le: Option<LeKeysView>,
}

pub open spec fn classic_view(k: Option<ClassicKeys>) -> Option<ClassicKeysView> {
    match k {
        Some(v) => Some(v@),
        None => None,
    }
}

pub open spec fn le_view(k: Option<LeKeys>) -> Option<LeKeysView> {
    match k {
        Some(v) => Some(v@),
        None => None,
    }
}

impl View for BluetoothDevice {
    type V = BluetoothDeviceView;

    open spec fn view(&self) -> BluetoothDeviceView {
        BluetoothDeviceView {
            mac_address: self.mac_address@,
            classic: classic_view(self.classic),
            le: le_view(self.le),
        }
    }
}

pub fn clone_classic(k: &Option<ClassicKeys>) -> (r: Option<ClassicKeys>)
    ensures
        classic_view(r) == classic_view(*k),
{
    match k {
        Some(v) => Some(v.clone()),
        None => None,
    }
}

pub fn clone_le(k: &Option<LeKeys>) -> (r: Option<LeKeys>)
    ensures
        le_view(r) == le_view(*k),
{
    match k {
        Some(v) => Some(v.clone()),
        None => None,
    }
}

impl Clone for BluetoothDevice {
    fn clone(&self) -> (r: Self)
        ensures
            r@ == self@,
    {
        BluetoothDevice {
            mac_address: self.mac_address.clone(),
            classic: clone_classic(&self.classic),
            le: clone_le(&self.le),
        }
    }
}

/// `overlay` where it is present, `base` otherwise.
pub open spec fn prefer<T>(overlay: Option<T>, base: Option<T>) -> Option<T> {
    if overlay is Some {
        overlay
    } else {
        base
    }
}

/// Field by field, the overlay's value where it has one, else the base's.
pub open spec fn merge_le_keys(base: LeKeysView, overlay: LeKeysView) -> LeKeysView {
    LeKeysView {
        ltk: prefer(overlay.ltk, base.ltk),
        peripheral_ltk: prefer(overlay.peripheral_ltk, base.peripheral_ltk),
        irk: prefer(overlay.irk, base.irk),
        csrk_local: prefer(overlay.csrk_local, base.csrk_local),
        csrk_remote: prefer(overlay.csrk_remote, base.csrk_remote),
        address_type: prefer(overlay.address_type, base.address_type),
    }
}

/// The base device with every key that the overlay holds laid over it.
/// The address is the base's.
pub open spec fn merge_device(
    base: BluetoothDeviceView,
    overlay: BluetoothDeviceView,
) -> BluetoothDeviceView {
    BluetoothDeviceView {
        mac_address: base.mac_address,
        classic: prefer(overlay.classic, base.classic),
        le: match (base.le, overlay.le) {
            (Some(b), Some(o)) => Some(merge_le_keys(b, o)),
            (Some(b), None) => Some(b),
            (None, o) => o,
        },
    }
}

impl BluetoothDevice {
    /// A device known by its Classic link key alone.
    pub fn classic(mac_address: String, link_key: String) -> (r: Self)
        ensures
            r@ == (BluetoothDeviceView {
                mac_address: mac_address@,
                classic: Some(
                    ClassicKeysView { link_key: link_key@, key_type: 4, pin_length: 0 },
                ),
                le: None,
            }),
    {
        BluetoothDevice { mac_address, classic: Some(ClassicKeys::new(link_key)), le: None }
    }

    /// A Low-Energy device known by its long-term key alone.
    pub fn le_with_ltk(mac_address: String, ltk: LeLongTermKey) -> (r: Self)
        ensures
            r@ == (BluetoothDeviceView {
                mac_address: mac_address@,
                classic: None,
                le: Some(LeKeysView { ltk: Some(ltk@), ..no_le_keys() }),
            }),
    {
        let mut le = LeKeys::default();
        le.ltk = Some(ltk);
        BluetoothDevice { mac_address, classic: None, le: Some(le) }
    }

    /// Whether the device carries keys of either transport.
    pub fn has_keys(&self) -> (b: bool)
        ensures
            b == (self@.classic is Some || self@.le is Some),
    {
        self.classic.is_some() || self.le.is_some()
    }

    /// This device with the keys of `other` laid over it.
    pub fn merge_with(&self, other: &BluetoothDevice) -> (r: BluetoothDevice)
        ensures
            r@ == merge_device(self@, other@),
    {
        let classic = match &other.classic {
            Some(c) => Some(c.clone()),
            None => clone_classic(&self.classic),
        };
        let le = match (&self.le, &other.le) {
            (Some(le1), Some(le2)) => Some(Self::merge_le_keys(le1, le2)),
            (Some(le1), None) => Some(le1.clone()),
            (None, Some(le2)) => Some(le2.clone()),
            (None, None) => None,
        };
        BluetoothDevice { mac_address: self.mac_address.clone(), classic, le }
    }

    /// The keys of `le1` with those of `le2` laid over them.
    pub fn merge_le_keys(le1: &LeKeys, le2: &LeKeys) -> (r: LeKeys)
        ensures
            r@ == merge_le_keys(le1@, le2@),
    {
        LeKeys {
            ltk: match &le2.ltk {
                Some(k) => Some(k.clone()),
                None => clone_ltk(&le1.ltk),
            },
            peripheral_ltk: match &le2.peripheral_ltk {
                Some(k) => Some(k.clone()),
                None => clone_ltk(&le1.peripheral_ltk),
            },
            irk: match &le2.irk {
                Some(k) => Some(k.clone()),
                None => clone_string(&le1.irk),
            },
            csrk_local: match &le2.csrk_local {
                Some(k) => Some(k.clone()),
                None => clone_csrk(&le1.csrk_local),
            },
            csrk_remote: match &le2.csrk_remote {
                Some(k) => Some(k.clone()),
                None => clone_csrk(&le1.csrk_remote),
            },
            address_type: match &le2.address_type {
                Some(k) => Some(k.clone()),
                None => clone_string(&le1.address_type),
            },
        }
    }
}

/// Merging a device with itself changes nothing.
pub proof fn lemma_merge_device_idempotent(d: BluetoothDeviceView)
    ensures
        merge_device(d, d) == d,
{
    match d.le {
        Some(le) => {
            assert(merge_le_keys(le, le) == le);
        },
        None => {},
    }
}

/// Why a key string was refused.
#[derive(Debug, PartialEq)]
pub enum KeyError {
    /// Some character is not a hexadecimal digit.
    NonHexadecimal { key_name: String, key: String },
    /// Every character is a hexadecimal digit, but there are not 32 of them.
    InvalidLength { key_name: String, actual: usize },
}

pub enum KeyErrorView {
    NonHexadecimal { key_name: Seq<char>, key: Seq<char> },
    InvalidLength { key_name: Seq<char>, actual: usize },
}

impl View for KeyError {
    type V = KeyErrorView;

    open spec fn view(&self) -> KeyErrorView {
        match self {
            KeyError::NonHexadecimal { key_name, key } => KeyErrorView::NonHexadecimal {
                key_name: key_name@,
                key: key@,
            },
            KeyError::InvalidLength { key_name, actual } => KeyErrorView::InvalidLength {
                key_name: key_name@,
                actual: *actual,
            },
        }
    }
}

impl KeyErrorView {
    /// The sentence that reports this error.
    pub open spec fn message(self) -> Seq<char> {
        match self {
            KeyErrorView::NonHexadecimal { key_name, key } => key_name
                + " contains non-hexadecimal characters: "@ + key,
            KeyErrorView::InvalidLength { key_name, actual } => key_name
                + " has invalid length: expected 32 hex characters (16 bytes), got "@ + decimal(
                actual as nat,
            ) + " characters"@,
        }
    }
}

impl Clone for KeyError {
    fn clone(&self) -> (r: Self)
        ensures
            r@ == self@,
    {
        match self {
            KeyError::NonHexadecimal { key_name, key } => KeyError::NonHexadecimal {
                key_name: key_name.clone(),
                key: key.clone(),
            },
            KeyError::InvalidLength { key_name, actual } => KeyError::InvalidLength {
                key_name: key_name.clone(),
                actual: *actual,
            },
        }
    }
}

impl KeyError {
    /// The sentence that reports this error.
    pub fn to_string(&self) -> (s: String)
        ensures
            s@ == self@.message(),
    {
        match self {
            KeyError::NonHexadecimal { key_name, key } => {
                let mut s = key_name.clone();
                s.append(" contains non-hexadecimal characters: ");
                s.append(key.as_str());
                s
            },
            KeyError::InvalidLength { key_name, actual } => {
                let mut s = key_name.clone();
                s.append(" has invalid length: expected 32 hex characters (16 bytes), got ");
                push_decimal(&mut s, *actual as u64);
                s.append(" characters");
                s
            },
        }
    }
}

/// The number of hexadecimal digits in a 128-bit key.
pub const KEY_LENGTH: usize = 32;

/// A key string is valid when it is 32 hexadecimal digits, in either case.
pub open spec fn is_valid_key(key: Seq<char>) -> bool {
    key.len() == 32 && all_hex(key)
}

/// The error that a key string which is not valid is refused with: a
/// character that is no hexadecimal digit is reported before a wrong length.
pub open spec fn key_error(key: Seq<char>, key_name: Seq<char>) -> KeyErrorView {
    if !all_hex(key) {
        KeyErrorView::NonHexadecimal { key_name, key }
    } else {
        KeyErrorView::InvalidLength { key_name, actual: key.len() as usize }
    }
}

/// The error for `key`, if it is there and is not a valid key: the keys
/// that a reader or writer leaves out are reported so.
pub open spec fn refused(key: Option<Seq<char>>, label: Seq<char>) -> Seq<KeyErrorView> {
    match key {
        Some(k) => if is_valid_key(k) {
            Seq::empty()
        } else {
            seq![key_error(k, label)]
        },
        None => Seq::empty(),
    }
}

/// The views of a list of key errors, in order.
pub open spec fn key_error_views(errors: Seq<KeyError>) -> Seq<KeyErrorView> {
    Seq::new(errors.len(), |i: int| errors[i]@)
}

/// Checks `key` and adds its error to `skipped` if it is not valid.
pub fn note_refused(key: &str, label: &str, skipped: &mut Vec<KeyError>)
    ensures
        key_error_views(final(skipped)@) == key_error_views(old(skipped)@) + refused(
            Some(key@),
            label@,
        ),
{
    let ghost before = key_error_views(skipped@);
    match validate_bluetooth_key(key, label) {
        Ok(()) => {
            assert(key_error_views(skipped@) =~= before + Seq::<KeyErrorView>::empty());
        },
        Err(e) => {
            let ghost ev = e@;
            skipped.push(e);
            assert(key_error_views(skipped@) =~= before + seq![ev]);
        },
    }
}

/// Whether every character of `v` is a hexadecimal digit.
pub fn chars_all_hex(v: &Vec<char>) -> (b: bool)
    ensures
        b == all_hex(v@),
{
    let mut i: usize = 0;
    while i < v.len()
        invariant
            i <= v.len(),
            forall|j: int| 0 <= j < i ==> is_hex_digit(#[trigger] v@[j]),
        decreases v.len() - i,
    {
        if !char_is_hex_digit(v[i]) {
            return false;
        }
        i += 1;
    }
    true
}

/// Checks that `key` is 32 hexadecimal digits. The case of the digits is
/// neither checked nor changed. `key_name` only serves the error's message.
pub fn validate_bluetooth_key(key: &str, key_name: &str) -> (r: Result<(), KeyError>)
    ensures
        r is Ok <==> is_valid_key(key@),
        r is Ok <==> key@.len() == 32 && forall|i: int|
            0 <= i < key@.len() ==> is_hex_digit(#[trigger] key@[i]),
        r matches Err(e) ==> e@ == key_error(key@, key_name@),
{
    let chars = to_chars(key);
    if !chars_all_hex(&chars) {
        return Err(KeyError::NonHexadecimal { key_name: owned(key_name), key: owned(key) });
    }
    if chars.len() != KEY_LENGTH {
        return Err(KeyError::InvalidLength { key_name: owned(key_name), actual: chars.len() });
    }
    Ok(())
}

/// `t` with a colon put before every character at an even position but the
/// first: groups of two, colon-separated.
pub open spec fn with_colons(t: Seq<char>) -> Seq<char>
    decreases t.len(),
{
    if t.len() == 0 {
        t
    } else if t.len() > 1 && (t.len() - 1) % 2 == 0 {
        with_colons(t.drop_last()).push(':').push(t.last())
    } else {
        with_colons(t.drop_last()).push(t.last())
    }
}

/// The canonical spelling of an address: its letters and digits, ASCII
/// letters capitalised, in colon-separated pairs.
pub open spec fn normalized_mac(mac: Seq<char>) -> Seq<char> {
    with_colons(upper_all(keep_alphanumeric(mac)))
}

/// An address in canonical form: six pairs of capital hexadecimal digits
/// with colons between them.
pub open spec fn is_canonical_mac(s: Seq<char>) -> bool {
    &&& s.len() == 17
    &&& forall|i: int|
        0 <= i < 17 ==> if i % 3 == 2 {
            #[trigger] s[i] == ':'
        } else {
            is_hex_digit(s[i]) && ascii_upper(s[i]) == s[i]
        }
}

/// Brings an address into canonical form. Hyphens, colons and every other
/// character that is neither letter nor digit are dropped.
pub fn normalize_mac(mac: &str) -> (r: String)
    ensures
        r@ == normalized_mac(mac@),
{
    let chars = to_chars(mac);
    let cleaned = alphanumerics(&chars);
    let mut out: Vec<char> = Vec::new();
    let mut i: usize = 0;
    while i < cleaned.len()
        invariant
            i <= cleaned.len(),
            out@ == with_colons(upper_all(cleaned@.take(i as int))),
        decreases cleaned.len() - i,
    {
        proof {
            let next = upper_all(cleaned@.take(i + 1));
            assert(next.drop_last() == upper_all(cleaned@.take(i as int)));
            assert(next.last() == ascii_upper(cleaned@[i as int]));
        }
        if i > 0 && i % 2 == 0 {
            out.push(':');
        }
        out.push(char_ascii_upper(cleaned[i]));
        i += 1;
    }
    assert(cleaned@.take(cleaned@.len() as int) == cleaned@);
    let r = from_chars(&out, 0, out.len());
    assert(out@.subrange(0, out@.len() as int) == out@);
    r
}

/// The spelling that the registry uses for an address: its letters and
/// digits, capitalised by Unicode's rules, with nothing between them.
pub fn mac_to_windows_format(mac: &str) -> (r: String)
    ensures
        r@ == unicode_uppercase(keep_alphanumeric(mac@)),
{
    let chars = to_chars(mac);
    let cleaned = alphanumerics(&chars);
    let joined = from_chars(&cleaned, 0, cleaned.len());
    assert(cleaned@.subrange(0, cleaned@.len() as int) == cleaned@);
    joined.as_str().to_uppercase()
}

/// The canonical form of an address spelt as the registry spells it.
pub fn windows_format_to_mac(win_mac: &str) -> (r: String)
    ensures
        r@ == normalized_mac(win_mac@),
{
    normalize_mac(win_mac)
}

proof fn lemma_colons_removed(t: Seq<char>)
    requires
        all_alphanumeric(t),
    ensures
        keep_alphanumeric(with_colons(t)) == t,
    decreases t.len(),
{
    if t.len() > 0 {
        let head = t.drop_last();
        assert forall|i: int| 0 <= i < head.len() implies is_alnum(#[trigger] head[i]) by {
            assert(head[i] == t[i]);
        }
        lemma_colons_removed(head);
        assert(is_alnum(t.last()));
        assert(!is_alnum(':'));
        let w = with_colons(t);
        if t.len() > 1 && (t.len() - 1) % 2 == 0 {
            let mid = with_colons(head).push(':');
            assert(w.drop_last() == mid);
            assert(mid.drop_last() == with_colons(head));
            assert(keep_alphanumeric(mid) == keep_alphanumeric(with_colons(head)));
        } else {
            assert(w.drop_last() == with_colons(head));
        }
        assert(head.push(t.last()) == t);
    }
}

/// Normalizing an address a second time changes nothing.
pub proof fn lemma_normalize_mac_idempotent(mac: Seq<char>)
    ensures
        normalized_mac(normalized_mac(mac)) == normalized_mac(mac),
{
    let t = upper_all(keep_alphanumeric(mac));
    lemma_keep_alphanumeric(mac);
    lemma_upper_all(keep_alphanumeric(mac));
    lemma_colons_removed(t);
    lemma_upper_all(t);
}

/// An address whose letters and digits are twelve hexadecimal digits is
/// brought into canonical form.
pub proof fn lemma_normalize_mac_canonical(mac: Seq<char>)
    requires
        keep_alphanumeric(mac).len() == 12,
        all_hex(keep_alphanumeric(mac)),
    ensures
        is_canonical_mac(normalized_mac(mac)),
{
    let t = upper_all(keep_alphanumeric(mac));
    let t11 = t.drop_last();
    let t10 = t11.drop_last();
    let t9 = t10.drop_last();
    let t8 = t9.drop_last();
    let t7 = t8.drop_last();
    let t6 = t7.drop_last();
    let t5 = t6.drop_last();
    let t4 = t5.drop_last();
    let t3 = t4.drop_last();
    let t2 = t3.drop_last();
    let t1 = t2.drop_last();
    let t0 = t1.drop_last();
    assert(with_colons(t0) == t0);
    assert(with_colons(t1) == seq![t[0]]);
    assert(with_colons(t2) == seq![t[0], t[1]]);
    assert(with_colons(t3) == seq![t[0], t[1], ':', t[2]]);
    assert(with_colons(t4) == seq![t[0], t[1], ':', t[2], t[3]]);
    assert(with_colons(t5) == seq![t[0], t[1], ':', t[2], t[3], ':', t[4]]);
    assert(with_colons(t6) == seq![t[0], t[1], ':', t[2], t[3], ':', t[4], t[5]]);
    assert(with_colons(t7) == seq![t[0], t[1], ':', t[2], t[3], ':', t[4], t[5], ':', t[6]]);
    assert(with_colons(t8) == seq![
        t[0], t[1], ':', t[2], t[3], ':', t[4], t[5], ':', t[6], t[7],
    ]);
    assert(with_colons(t9) == seq![
        t[0], t[1], ':', t[2], t[3], ':', t[4], t[5], ':', t[6], t[7], ':', t[8],
    ]);
    assert(with_colons(t10) == seq![
        t[0], t[1], ':', t[2], t[3], ':', t[4], t[5], ':', t[6], t[7], ':', t[8], t[9],
    ]);
    assert(with_colons(t11) == seq![
        t[0], t[1], ':', t[2], t[3], ':', t[4], t[5], ':', t[6], t[7], ':', t[8], t[9], ':', t[10],
    ]);
    let w = seq![
        t[0], t[1], ':', t[2], t[3], ':', t[4], t[5], ':', t[6], t[7], ':', t[8], t[9], ':', t[10],
        t[11],
    ];
    assert(with_colons(t) == w);
    assert forall|i: int| 0 <= i < 12 implies is_hex_digit(#[trigger] t[i]) && ascii_upper(t[i])
        == t[i] by {
        assert(is_hex_digit(keep_alphanumeric(mac)[i]));
    }
    assert forall|i: int| 0 <= i < 17 implies if i % 3 == 2 {
        #[trigger] w[i] == ':'
    } else {
        is_hex_digit(w[i]) && ascii_upper(w[i]) == w[i]
    } by {
        assert(is_hex_digit(t[0]) && is_hex_digit(t[1]) && is_hex_digit(t[2]) && is_hex_digit(t[3]));
        assert(is_hex_digit(t[4]) && is_hex_digit(t[5]) && is_hex_digit(t[6]) && is_hex_digit(t[7]));
        assert(is_hex_digit(t[8]) && is_hex_digit(t[9]) && is_hex_digit(t[10]) && is_hex_digit(
            t[11],
        ));
    }
}

/// The newer of two signature keys. Where both sides hold the same key the
/// higher counter is kept, so that a counter never runs backwards, and the
/// key counts as authenticated if either side says so. Where the keys
/// differ, `b` stands.
pub open spec fn merged_csrk(a: Option<CsrkKeyView>, b: Option<CsrkKeyView>) -> Option<
    CsrkKeyView,
> {
    match (a, b) {
        (Some(x), Some(y)) => if x.key == y.key {
            Some(
                CsrkKeyView {
                    key: x.key,
                    counter: if x.counter >= y.counter {
                        x.counter
                    } else {
                        y.counter
                    },
                    authenticated: x.authenticated || y.authenticated,
                },
            )
        } else {
            Some(y)
        },
        (Some(x), None) => Some(x),
        (None, y) => y,
    }
}

pub open spec fn csrk_ref_view(k: Option<&CsrkKey>) -> Option<CsrkKeyView> {
    match k {
        Some(v) => Some(v@),
        None => None,
    }
}

/// Merges the signature key `a` of the local store with the key `b` of the
/// shared document.
pub fn merge_csrk(a: Option<&CsrkKey>, b: Option<&CsrkKey>) -> (r: Option<CsrkKey>)
    ensures
        csrk_view(r) == merged_csrk(csrk_ref_view(a), csrk_ref_view(b)),
        a matches Some(x) ==> (b matches Some(y) ==> (x@.key == y@.key ==> (r matches Some(m)
            && m.counter >= x.counter && m.counter >= y.counter))),
{
    match (a, b) {
        (Some(x), Some(y)) => {
            if x.key.as_str().eq(y.key.as_str()) {
                Some(
                    CsrkKey {
                        key: x.key.clone(),
                        counter: if x.counter >= y.counter {
                            x.counter
                        } else {
                            y.counter
                        },
                        authenticated: x.authenticated || y.authenticated,
                    },
                )
            } else {
                Some(y.clone())
            }
        },
        (Some(x), None) => Some(x.clone()),
        (None, Some(y)) => Some(y.clone()),
        (None, None) => None,
    }
}

/// Why a native pairing store could not serve a request.
#[derive(Debug, PartialEq)]
pub enum StoreError {
    /// A key that was to be written is not a valid key.
    KeyValidation(KeyError),
    /// The device, or any key of it, is not in the store.
    NotFound(String),
    /// The store cannot be reached: a missing path or privilege.
    StoreUnavailable(String),
    /// The platform refused an operation on the store.
    PlatformError(String),
}

pub enum StoreErrorView {
    KeyValidation(KeyErrorView),
    NotFound(Seq<char>),
    StoreUnavailable(Seq<char>),
    PlatformError(Seq<char>),
}

impl View for StoreError {
    type V = StoreErrorView;

    open spec fn view(&self) -> StoreErrorView {
        match self {
            StoreError::KeyValidation(e) => StoreErrorView::KeyValidation(e@),
            StoreError::NotFound(m) => StoreErrorView::NotFound(m@),
            StoreError::StoreUnavailable(m) => StoreErrorView::StoreUnavailable(m@),
            StoreError::PlatformError(m) => StoreErrorView::PlatformError(m@),
        }
    }
}

impl StoreErrorView {
    /// The sentence that reports this error.
    pub open spec fn message(self) -> Seq<char> {
        match self {
            StoreErrorView::KeyValidation(e) => e.message(),
            StoreErrorView::NotFound(m) => m,
            StoreErrorView::StoreUnavailable(m) => m,
            StoreErrorView::PlatformError(m) => m,
        }
    }
}

impl StoreError {
    /// The sentence that reports this error.
    pub fn to_string(&self) -> (s: String)
        ensures
            s@ == self@.message(),
    {
        match self {
            StoreError::KeyValidation(e) => e.to_string(),
            StoreError::NotFound(m) => m.clone(),
            StoreError::StoreUnavailable(m) => m.clone(),
            StoreError::PlatformError(m) => m.clone(),
        }
    }
}

/// A native pairing store, as the synchronization engine sees it. Each
/// operating system brings its own implementation; addresses cross this
/// interface in canonical form.
pub trait BluetoothManager: Send {
    /// The addresses of the adapters that the store knows, each once.
    fn get_adapters(&self) -> Result<Vec<String>, StoreError>;

    /// The devices paired with an adapter. An adapter without devices gives
    /// an empty list, not an error.
    fn get_devices(&self, adapter_mac: &str) -> Result<Vec<BluetoothDevice>, StoreError>;

    /// One paired device.
    fn get_device(&self, adapter_mac: &str, device_mac: &str) -> Result<
        BluetoothDevice,
        StoreError,
    >;

    /// Writes the keys that `device` holds. Keys of a transport that
    /// `device` lacks stay as the store has them.
    fn set_device(&mut self, adapter_mac: &str, device: &BluetoothDevice) -> Result<
        (),
        StoreError,
    >;

    /// Forgets a device. Succeeds when there is nothing to forget.
    fn remove_device(&mut self, adapter_mac: &str, device_mac: &str) -> Result<(), StoreError>;
}

/// Whether two optional strings spell the same, or are both absent.
pub fn strings_equal(a: &Option<String>, b: &Option<String>) -> (r: bool)
    ensures
        r == (string_view(*a) == string_view(*b)),
{
    match (a, b) {
        (Some(x), Some(y)) => x.as_str().eq(y.as_str()),
        (None, None) => true,
        _ => false,
    }
}

pub fn option_u8_equal(a: Option<u8>, b: Option<u8>) -> (r: bool)
    ensures
        r == (a == b),
{
    match (a, b) {
        (Some(x), Some(y)) => x == y,
        (None, None) => true,
        _ => false,
    }
}

pub fn option_u16_equal(a: Option<u16>, b: Option<u16>) -> (r: bool)
    ensures
        r == (a == b),
{
    match (a, b) {
        (Some(x), Some(y)) => x == y,
        (None, None) => true,
        _ => false,
    }
}

pub fn option_u64_equal(a: Option<u64>, b: Option<u64>) -> (r: bool)
    ensures
        r == (a == b),
{
    match (a, b) {
        (Some(x), Some(y)) => x == y,
        (None, None) => true,
        _ => false,
    }
}

pub fn ltks_equal(a: &Option<LeLongTermKey>, b: &Option<LeLongTermKey>) -> (r: bool)
    ensures
        r == (ltk_view(*a) == ltk_view(*b)),
{
    match (a, b) {
        (Some(x), Some(y)) => x.key.as_str().eq(y.key.as_str()) && option_u8_equal(
            x.authenticated,
            y.authenticated,
        ) && option_u8_equal(x.enc_size, y.enc_size) && option_u16_equal(x.ediv, y.ediv)
            && option_u64_equal(x.rand, y.rand),
        (None, None) => true,
        _ => false,
    }
}

pub fn csrks_equal(a: &Option<CsrkKey>, b: &Option<CsrkKey>) -> (r: bool)
    ensures
        r == (csrk_view(*a) == csrk_view(*b)),
{
    match (a, b) {
        (Some(x), Some(y)) => x.key.as_str().eq(y.key.as_str()) && x.counter == y.counter
            && x.authenticated == y.authenticated,
        (None, None) => true,
        _ => false,
    }
}

pub fn classic_equal(a: &Option<ClassicKeys>, b: &Option<ClassicKeys>) -> (r: bool)
    ensures
        r == (classic_view(*a) == classic_view(*b)),
{
    match (a, b) {
        (Some(x), Some(y)) => x.link_key.as_str().eq(y.link_key.as_str()) && x.key_type
            == y.key_type && x.pin_length == y.pin_length,
        (None, None) => true,
        _ => false,
    }
}

pub fn le_equal(a: &Option<LeKeys>, b: &Option<LeKeys>) -> (r: bool)
    ensures
        r == (le_view(*a) == le_view(*b)),
{
    match (a, b) {
        (Some(x), Some(y)) => ltks_equal(&x.ltk, &y.ltk) && ltks_equal(
            &x.peripheral_ltk,
            &y.peripheral_ltk,
        ) && strings_equal(&x.irk, &y.irk) && csrks_equal(&x.csrk_local, &y.csrk_local)
            && csrks_equal(&x.csrk_remote, &y.csrk_remote) && strings_equal(
            &x.address_type,
            &y.address_type,
        ),
        (None, None) => true,
        _ => false,
    }
}

/// Two devices hold the same keys. Their addresses are not compared.
pub open spec fn same_keys(x: BluetoothDeviceView, y: BluetoothDeviceView) -> bool {
    x.classic == y.classic && x.le == y.le
}

/// Whether two devices hold the same keys, field for field. It decides
/// whether a store has to be written.
pub fn devices_equal(x: &BluetoothDevice, y: &BluetoothDevice) -> (r: bool)
    ensures
        r == same_keys(x@, y@),
{
    classic_equal(&x.classic, &y.classic) && le_equal(&x.le, &y.le)
}

} // verus!
