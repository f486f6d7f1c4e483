//! What a device says about itself, and the object names derived from it.

use vstd::prelude::*;
use vstd::utf8::encode_utf8;

use super::laws::{lemma_hex_chars, lemma_joined_name_valid, lemma_plain_name_valid, valid_name};
use super::slug::{slug, slugify};
use crate::digest::{hex_encode, hex_text, sha256, sha256_of};
use crate::sysfs::UsbDeviceInfo;
use crate::text::{opt_eq, text_eq, trim, trimmed};

verus! {

/// Which attributes of a device its object name was derived from.
#[derive(Clone, Copy, Debug, PartialEq, Eq, Hash, Structural)]
pub enum IdentitySource {
    Serial,
    SerialDescriptor,
    Descriptor,
    PortPath,
}

impl Default for IdentitySource {
    fn default() -> (s: Self)
        ensures
            s == IdentitySource::Serial,
    {
        IdentitySource::Serial
    }
}

impl IdentitySource {
    /// Tiers from most to least unique.
    pub const ORDER: [IdentitySource; 4] = [
        IdentitySource::Serial,
        IdentitySource::SerialDescriptor,
        IdentitySource::Descriptor,
        IdentitySource::PortPath,
    ];

    /// The text that sets the hashes of a tier apart from those of the others.
    pub open spec fn tag_text(self) -> Seq<char> {
        match self {
            IdentitySource::Serial => "serial"@,
            IdentitySource::SerialDescriptor => "serial+descriptor"@,
            IdentitySource::Descriptor => "descriptor"@,
            IdentitySource::PortPath => "port"@,
        }
    }

    /// The text that sets the hashes of a tier apart from those of the others.
    pub fn tag(self) -> (tag: &'static str)
        ensures
            tag@ == self.tag_text(),
    {
        match self {
            IdentitySource::Serial => "serial",
            IdentitySource::SerialDescriptor => "serial+descriptor",
            IdentitySource::Descriptor => "descriptor",
            IdentitySource::PortPath => "port",
        }
    }

    /// The name of the tier.
    pub open spec fn name_text(self) -> Seq<char> {
        match self {
            IdentitySource::Serial => "Serial"@,
            IdentitySource::SerialDescriptor => "SerialDescriptor"@,
            IdentitySource::Descriptor => "Descriptor"@,
            IdentitySource::PortPath => "PortPath"@,
        }
    }

    /// The name of the tier.
    pub fn name(self) -> (name: &'static str)
        ensures
            name@ == self.name_text(),
    {
        match self {
            IdentitySource::Serial => "Serial",
            IdentitySource::SerialDescriptor => "SerialDescriptor",
            IdentitySource::Descriptor => "Descriptor",
            IdentitySource::PortPath => "PortPath",
        }
    }
}

/// Descriptor attributes that belong to the device itself (as opposed to where it is plugged in).
#[derive(Debug, Default, PartialEq, Eq, Hash)]
pub struct Fingerprint {
    pub vendor_id: String,
    pub product_id: String,
    pub serial: Option<String>,
    pub bcd_device: Option<String>,
    pub manufacturer: Option<String>,
    pub product: Option<String>,
}

impl Clone for Fingerprint {
    fn clone(&self) -> (r: Self)
        ensures
            r == *self,
    {
        Fingerprint {
            vendor_id: self.vendor_id.clone(),
            product_id: self.product_id.clone(),
            serial: self.serial.clone(),
            bcd_device: self.bcd_device.clone(),
            manufacturer: self.manufacturer.clone(),
            product: self.product.clone(),
        }
    }
}

impl vstd::std_specs::convert::FromSpecImpl<&UsbDeviceInfo> for Fingerprint {
    open spec fn obeys_from_spec() -> bool {
        true
    }

    open spec fn from_spec(d: &UsbDeviceInfo) -> Self {
        fingerprint_of(*d)
    }
}

/// The fingerprint of a plugged-in device.
pub open spec fn fingerprint_of(d: UsbDeviceInfo) -> Fingerprint {
    Fingerprint {
        vendor_id: d.vendor_id,
        product_id: d.product_id,
        serial: d.serial,
        bcd_device: d.bcd_device,
        manufacturer: d.manufacturer,
        product: d.product,
    }
}

impl From<&UsbDeviceInfo> for Fingerprint {
    fn from(d: &UsbDeviceInfo) -> (fp: Self) {
        Fingerprint {
            vendor_id: d.vendor_id.clone(),
            product_id: d.product_id.clone(),
            serial: d.serial.clone(),
            bcd_device: d.bcd_device.clone(),
            manufacturer: d.manufacturer.clone(),
            product: d.product.clone(),
        }
    }
}

/// What a tier compares: attribute texts, where `None` stands for an absent attribute.
pub type TierKey = Seq<Option<Seq<char>>>;

/// The parts of a name that are not empty, each after a `-`.
pub open spec fn dashed(parts: Seq<Seq<char>>) -> Seq<char>
    decreases parts.len(),
{
    if parts.len() == 0 {
        Seq::empty()
    } else if parts.last().len() == 0 {
        dashed(parts.drop_last())
    } else {
        dashed(parts.drop_last()) + "-"@ + parts.last()
    }
}

/// A name made of a prefix, the parts that are not empty, and a hash.
pub open spec fn joined_name(prefix: Seq<char>, parts: Seq<Seq<char>>, hash: Seq<char>) -> Seq<
    char,
> {
    prefix + dashed(parts) + "-"@ + hash
}

/// Joins a prefix, the parts that are not empty, and a hash with `-`.
pub fn join_name(prefix: &str, parts: &[String], hash: &str) -> (name: String)
    ensures
        name@ == joined_name(prefix@, parts.deep_view(), hash@),
{
    let mut name = prefix.to_string();
    assert(name@ =~= prefix@ + dashed(parts.deep_view().take(0)));
    for i in 0..parts.len()
        invariant
            name@ == prefix@ + dashed(parts.deep_view().take(i as int)),
    {
        let ghost next = parts.deep_view().take(i + 1);
        assert(next.drop_last() =~= parts.deep_view().take(i as int));
        assert(next.last() == parts@[i as int]@);
        if !parts[i].as_str().is_empty() {
            name = name.concat("-").concat(&parts[i]);
            assert(name@ =~= prefix@ + dashed(next));
        }
    }
    assert(parts.deep_view().take(parts@.len() as int) =~= parts.deep_view());
    name.concat("-").concat(hash)
}

/// The bytes that the hash of a name covers: the tag of the tier and, each after a zero byte, the
/// parts.
pub open spec fn hash_input(tier: IdentitySource, parts: Seq<Seq<char>>) -> Seq<u8>
    decreases parts.len(),
{
    if parts.len() == 0 {
        encode_utf8(tier.tag_text())
    } else {
        hash_input(tier, parts.drop_last()).push(0u8) + encode_utf8(parts.last())
    }
}

/// The first four bytes of the hash of a tier and its parts, in hexadecimal.
pub open spec fn hash_text(tier: IdentitySource, parts: Seq<Seq<char>>) -> Seq<char> {
    hex_text(sha256_of(hash_input(tier, parts)).take(4))
}

/// Whether a character is a lower case hexadecimal digit.
pub open spec fn is_hex_char(c: char) -> bool {
    let n = c as u32;
    48 <= n <= 57 || 97 <= n <= 102
}

/// Whether a name ends with `-` and eight lower case hexadecimal digits.
pub open spec fn ends_with_hash(name: Seq<char>) -> bool {
    &&& name.len() >= 9
    &&& name[name.len() - 9] == '-'
    &&& forall|i: int| name.len() - 8 <= i < name.len() ==> is_hex_char(#[trigger] name[i])
}

/// The first four bytes of the hash of a tier and its parts, in hexadecimal.
pub fn short_hash(tier: IdentitySource, parts: &[String]) -> (text: String)
    ensures
        text@ == hash_text(tier, parts.deep_view()),
        text@.len() == 8,
        forall|i: int| 0 <= i < 8 ==> is_hex_char(#[trigger] text@[i]),
{
    let mut input: Vec<u8> = Vec::new();
    input.extend_from_slice(tier.tag().as_bytes());
    assert(input@ =~= hash_input(tier, parts.deep_view().take(0)));
    for i in 0..parts.len()
        invariant
            input@ == hash_input(tier, parts.deep_view().take(i as int)),
    {
        let ghost next = parts.deep_view().take(i + 1);
        assert(next.drop_last() =~= parts.deep_view().take(i as int));
        assert(next.last() == parts@[i as int]@);
        input.push(0);
        input.extend_from_slice(parts[i].as_str().as_bytes());
        assert(input@ =~= hash_input(tier, next));
    }
    assert(parts.deep_view().take(parts@.len() as int) =~= parts.deep_view());
    let mut hash = sha256(input.as_slice());
    hash.truncate(4);
    assert(hash@ =~= sha256_of(input@).take(4));
    proof {
        lemma_hex_chars(hash@);
    }
    hex_encode(hash.as_slice())
}

/// The text of an attribute, empty if it is absent.
pub open spec fn or_empty(text: Option<Seq<char>>) -> Seq<char> {
    match text {
        Some(t) => t,
        None => Seq::empty(),
    }
}

/// The text of each attribute, empty if it is absent.
pub open spec fn texts_of(key: TierKey) -> Seq<Seq<char>> {
    key.map_values(|t: Option<Seq<char>>| or_empty(t))
}

impl Fingerprint {
    /// The serial number, unless it is blank.
    pub open spec fn serial_text(self) -> Option<Seq<char>> {
        match self.serial {
            Some(s) => if trimmed(s@).len() > 0 {
                Some(s@)
            } else {
                None
            },
            None => None,
        }
    }

    /// Vendor and product id.
    pub open spec fn ids(self) -> TierKey {
        seq![Some(self.vendor_id@), Some(self.product_id@)]
    }

    /// Release number, manufacturer and product string.
    pub open spec fn descriptor(self) -> TierKey {
        seq![
            self.bcd_device.deep_view(),
            self.manufacturer.deep_view(),
            self.product.deep_view(),
        ]
    }

    /// The attributes a portable tier compares, if the tier applies to the device.
    pub open spec fn key_of(self, tier: IdentitySource) -> Option<TierKey> {
        match (tier, self.serial_text()) {
            (IdentitySource::Serial, Some(serial)) => Some(self.ids().push(Some(serial))),
            (IdentitySource::SerialDescriptor, Some(serial)) => Some(
                self.ids().push(Some(serial)) + self.descriptor(),
            ),
            (IdentitySource::Descriptor, _) => Some(self.ids() + self.descriptor()),
            _ => None,
        }
    }

    /// The start of every name of the device.
    pub open spec fn prefix(self) -> Seq<char> {
        "usb-"@ + slug(self.vendor_id@) + "-"@ + slug(self.product_id@)
    }

    /// The readable label of a device without a serial number.
    pub open spec fn label(self) -> Seq<char> {
        match (self.product, self.manufacturer) {
            (Some(p), _) => p@,
            (None, Some(m)) => m@,
            (None, None) => Seq::empty(),
        }
    }

    /// The object name of the device in a portable tier, if the tier applies to it.
    pub open spec fn name_in(self, tier: IdentitySource) -> Option<Seq<char>> {
        match self.key_of(tier) {
            None => None,
            Some(key) => {
                let hash = hash_text(tier, texts_of(key));
                match tier {
                    IdentitySource::Serial => {
                        let serial = self.serial_text().unwrap();
                        if slug(serial) == serial && serial.len() > 0 {
                            Some(self.prefix() + "-"@ + serial)
                        } else {
                            Some(joined_name(self.prefix(), seq![slug(serial)], hash))
                        }
                    },
                    IdentitySource::SerialDescriptor => Some(
                        joined_name(self.prefix(), seq![slug(self.serial_text().unwrap())], hash),
                    ),
                    _ => Some(joined_name(self.prefix(), seq![slug(self.label())], hash)),
                }
            },
        }
    }

    /// The object name of the device on a port of a node.
    pub open spec fn name_at(self, node: Seq<char>, port_path: Seq<char>) -> Seq<char> {
        joined_name(
            self.prefix(),
            seq![slug(node), slug(port_path)],
            hash_text(
                IdentitySource::PortPath,
                seq![self.vendor_id@, self.product_id@, node, port_path],
            ),
        )
    }

    /// Whether two fingerprints hold the same texts.
    pub open spec fn same_as(self, other: Fingerprint) -> bool {
        &&& self.vendor_id@ == other.vendor_id@
        &&& self.product_id@ == other.product_id@
        &&& self.serial.deep_view() == other.serial.deep_view()
        &&& self.bcd_device.deep_view() == other.bcd_device.deep_view()
        &&& self.manufacturer.deep_view() == other.manufacturer.deep_view()
        &&& self.product.deep_view() == other.product.deep_view()
    }

    /// Whether two fingerprints hold the same texts.
    pub fn same(&self, other: &Fingerprint) -> (same: bool)
        ensures
            same == self.same_as(*other),
    {
        text_eq(&self.vendor_id, &other.vendor_id) && text_eq(&self.product_id, &other.product_id)
            && opt_eq(&self.serial, &other.serial) && opt_eq(&self.bcd_device, &other.bcd_device)
            && opt_eq(&self.manufacturer, &other.manufacturer) && opt_eq(
            &self.product,
            &other.product,
        )
    }

    /// The serial number, unless it is blank (which identifies nothing).
    pub fn serial(&self) -> (serial: Option<&str>)
        ensures
            serial.deep_view() == self.serial_text(),
    {
        match &self.serial {
            Some(s) => {
                let t = trim(s);
                if t.as_str().is_empty() {
                    None
                } else {
                    Some(s.as_str())
                }
            },
            None => None,
        }
    }

    /// Attribute tuple compared by a portable tier; `None` when the tier does not apply.
    pub fn tier_key(&self, tier: IdentitySource) -> (key: Option<Vec<Option<String>>>)
        ensures
            key.deep_view() == self.key_of(tier),
    {
        let mut key: Vec<Option<String>> = Vec::new();
        key.push(Some(self.vendor_id.clone()));
        key.push(Some(self.product_id.clone()));
        match tier {
            IdentitySource::Serial | IdentitySource::SerialDescriptor => {
                match self.serial() {
                    Some(s) => key.push(Some(s.to_string())),
                    None => return None,
                }
            },
            IdentitySource::Descriptor => {},
            IdentitySource::PortPath => return None,
        }
        match tier {
            IdentitySource::Serial => {},
            _ => {
                key.push(self.bcd_device.clone());
                key.push(self.manufacturer.clone());
                key.push(self.product.clone());
            },
        }
        assert(key.deep_view() =~= self.key_of(tier).unwrap());
        Some(key)
    }

    /// The start of every name of the device.
    fn name_prefix(&self) -> (prefix: String)
        ensures
            prefix@ == self.prefix(),
    {
        "usb-".to_string().concat(&slugify(&self.vendor_id)).concat("-").concat(
            &slugify(&self.product_id),
        )
    }

    /// Object name for a portable tier; `None` when the tier does not apply.
    pub fn portable_name(&self, tier: IdentitySource) -> (name: Option<String>)
        ensures
            name.deep_view() == self.name_in(tier),
            name matches Some(text) ==> valid_name(text@),
    {
        let key = match self.tier_key(tier) {
            Some(key) => key,
            None => return None,
        };
        let prefix = self.name_prefix();
        let mut texts: Vec<String> = Vec::new();
        for i in 0..key.len()
            invariant
                texts.deep_view() == texts_of(key.deep_view()).take(i as int),
        {
            let text = match &key[i] {
                Some(t) => t.clone(),
                None => String::new(),
            };
            assert(text@ == texts_of(key.deep_view())[i as int]);
            let ghost before = texts.deep_view();
            texts.push(text);
            assert(texts.deep_view() =~= before.push(text@));
        }
        assert(texts.deep_view() =~= texts_of(key.deep_view()));
        let hash = short_hash(tier, texts.as_slice());
        let label: String = match tier {
            IdentitySource::Descriptor => match (&self.product, &self.manufacturer) {
                (Some(p), _) => p.clone(),
                (None, Some(m)) => m.clone(),
                (None, None) => String::new(),
            },
            _ => match self.serial() {
                Some(s) => s.to_string(),
                None => return None,
            },
        };
        let readable = slugify(&label);
        if tier == IdentitySource::Serial && text_eq(&readable, &label) && !label.as_str().is_empty() {
            proof {
                lemma_plain_name_valid(*self, label@);
            }
            return Some(prefix.concat("-").concat(&label));
        }
        let parts: Vec<String> = vec![readable];
        assert(parts.deep_view() =~= seq![slug(label@)]);
        proof {
            lemma_joined_name_valid(*self, seq![label@], hash@);
            assert(seq![label@].map_values(|t: Seq<char>| slug(t)) =~= seq![slug(label@)]);
        }
        Some(join_name(&prefix, parts.as_slice(), &hash))
    }

    /// Object name of the device on a port of a node.
    pub fn port_name(&self, node: &str, port_path: &str) -> (name: String)
        ensures
            name@ == self.name_at(node@, port_path@),
            valid_name(name@),
            ends_with_hash(name@),
    {
        let texts: Vec<String> = vec![
            self.vendor_id.clone(),
            self.product_id.clone(),
            node.to_string(),
            port_path.to_string(),
        ];
        assert(texts.deep_view() =~= seq![self.vendor_id@, self.product_id@, node@, port_path@]);
        let hash = short_hash(IdentitySource::PortPath, texts.as_slice());
        let parts: Vec<String> = vec![slugify(node), slugify(port_path)];
        assert(parts.deep_view() =~= seq![slug(node@), slug(port_path@)]);
        proof {
            let texts = seq![node@, port_path@];
            lemma_joined_name_valid(*self, texts, hash@);
            assert(texts.map_values(|t: Seq<char>| slug(t)) =~= parts.deep_view());
            reveal_strlit("-");
        }
        let name = join_name(&self.name_prefix(), parts.as_slice(), &hash);
        proof {
            let n = name@.len() as int;
            assert forall|i: int| n - 8 <= i < n implies is_hex_char(#[trigger] name@[i]) by {
                assert(name@[i] == hash@[i - (n - 8)]);
            }
        }
        name
    }
}

} // verus!
