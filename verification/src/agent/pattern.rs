//! Which devices are never published.

use vstd::prelude::*;

use crate::identity::{normalize_usb_id, normalized_id};
use crate::sysfs::UsbDeviceInfo;
use crate::text::{debug_text, quote, split_at_first, split_once, text_eq, trim, trimmed};

verus! {

/// `vendor:product` pattern where either side may be `*`.
#[derive(Debug, PartialEq, Eq)]
pub struct DevicePattern {
    vendor_id: Option<String>,
    product_id: Option<String>,
}

/// What a [`DevicePattern`] holds: the ids wanted, if any.
pub struct PatternView {
    pub vendor_id: Option<Seq<char>>,
    pub product_id: Option<Seq<char>>,
}

impl View for DevicePattern {
    type V = PatternView;

    closed spec fn view(&self) -> PatternView {
        PatternView {
            vendor_id: self.vendor_id.deep_view(),
            product_id: self.product_id.deep_view(),
        }
    }
}

impl Clone for DevicePattern {
    fn clone(&self) -> (r: Self)
        ensures
            r == *self,
    {
        DevicePattern { vendor_id: self.vendor_id.clone(), product_id: self.product_id.clone() }
    }
}

/// What one side of a pattern stands for: nothing in particular, an id, or nothing at all.
pub enum SideView {
    Any,
    Id(Seq<char>),
    Bad,
}

/// What one side of a pattern stands for.
pub open spec fn side_of(text: Seq<char>) -> SideView {
    if text == "*"@ {
        SideView::Any
    } else {
        match normalized_id(text) {
            Some(id) => SideView::Id(id),
            None => SideView::Bad,
        }
    }
}

/// The id that one side of a pattern asks for.
pub open spec fn wanted(side: SideView) -> Option<Seq<char>> {
    match side {
        SideView::Id(id) => Some(id),
        _ => None,
    }
}

/// The message about a text that is no pattern, given its quoted form.
pub open spec fn form_message(quoted: Seq<char>) -> Seq<char> {
    quoted + ": expected VENDOR:PRODUCT"@
}

/// The message about one side of a pattern, given the quoted forms of both.
pub open spec fn side_message(quoted: Seq<char>, side: Seq<char>) -> Seq<char> {
    quoted + ": "@ + side + " is not a hex id or *"@
}

/// The pattern that a text stands for, or what is wrong with it.
pub open spec fn pattern_of(text: Seq<char>) -> Result<PatternView, Seq<char>> {
    match split_at_first(text, ':') {
        None => Err(form_message(debug_text(text))),
        Some((vendor, product)) => if side_of(vendor) is Bad {
            Err(side_message(debug_text(text), debug_text(vendor)))
        } else if side_of(product) is Bad {
            Err(side_message(debug_text(text), debug_text(product)))
        } else {
            Ok(
                PatternView {
                    vendor_id: wanted(side_of(vendor)),
                    product_id: wanted(side_of(product)),
                },
            )
        },
    }
}

impl PatternView {
    /// Whether a device has the ids wanted.
    pub open spec fn selects(self, device: UsbDeviceInfo) -> bool {
        (self.vendor_id matches Some(v) ==> v == device.vendor_id@) && (
        self.product_id matches Some(p) ==> p == device.product_id@)
    }
}

/// The message about a text that is no pattern, given its quoted form.
pub fn form_error(quoted: &str) -> (message: String)
    ensures
        message@ == form_message(quoted@),
{
    quoted.to_string().concat(": expected VENDOR:PRODUCT")
}

/// The message about one side of a pattern, given the quoted forms of both.
pub fn side_error(quoted: &str, side: &str) -> (message: String)
    ensures
        message@ == side_message(quoted@, side@),
{
    quoted.to_string().concat(": ").concat(side).concat(" is not a hex id or *")
}

/// The id that one side of a pattern asks for, or what is wrong with it.
fn parse_side(text: &str, side: &str) -> (r: Result<Option<String>, String>)
    ensures
        match r {
            Ok(id) => !(side_of(side@) is Bad) && id.deep_view() == wanted(side_of(side@)),
            Err(message) => side_of(side@) is Bad && message@ == side_message(
                debug_text(text@),
                debug_text(side@),
            ),
        },
{
    if text_eq(side, "*") {
        return Ok(None);
    }
    match normalize_usb_id(side) {
        Some(id) => Ok(Some(id)),
        None => Err(side_error(&quote(text), &quote(side))),
    }
}

impl DevicePattern {
    /// Reads a pattern.
    pub fn parse(s: &str) -> (r: Result<DevicePattern, String>)
        ensures
            match r {
                Ok(p) => pattern_of(s@) == Ok::<PatternView, Seq<char>>(p@),
                Err(message) => pattern_of(s@) == Err::<PatternView, Seq<char>>(message@),
            },
    {
        let (vendor, product) = match split_once(s, ':') {
            Some(sides) => sides,
            None => return Err(form_error(&quote(s))),
        };
        let vendor_id = match parse_side(s, &vendor) {
            Ok(id) => id,
            Err(message) => return Err(message),
        };
        let product_id = match parse_side(s, &product) {
            Ok(id) => id,
            Err(message) => return Err(message),
        };
        Ok(DevicePattern { vendor_id, product_id })
    }

    /// Whether a device has the ids wanted.
    pub fn matches(&self, device: &UsbDeviceInfo) -> (selected: bool)
        ensures
            selected == self@.selects(*device),
    {
        let vendor = match &self.vendor_id {
            Some(v) => text_eq(v, &device.vendor_id),
            None => true,
        };
        let product = match &self.product_id {
            Some(p) => text_eq(p, &device.product_id),
            None => true,
        };
        vendor && product
    }
}

impl std::str::FromStr for DevicePattern {
    type Err = String;

    fn from_str(s: &str) -> (r: Result<Self, String>)
        ensures
            match r {
                Ok(p) => pattern_of(s@) == Ok::<PatternView, Seq<char>>(p@),
                Err(message) => pattern_of(s@) == Err::<PatternView, Seq<char>>(message@),
            },
    {
        DevicePattern::parse(s)
    }
}

/// What some patterns hold.
pub open spec fn pattern_views(patterns: Seq<DevicePattern>) -> Seq<PatternView> {
    patterns.map_values(|p: DevicePattern| p@)
}

/// The patterns that some texts stand for, blank ones being skipped, or what is wrong with the
/// first that is none.
pub open spec fn patterns_of(texts: Seq<Seq<char>>) -> Result<Seq<PatternView>, Seq<char>>
    decreases texts.len(),
{
    if texts.len() == 0 {
        Ok(Seq::empty())
    } else {
        match patterns_of(texts.drop_last()) {
            Err(message) => Err(message),
            Ok(rest) => {
                let text = trimmed(texts.last());
                if text.len() == 0 {
                    Ok(rest)
                } else {
                    match pattern_of(text) {
                        Ok(p) => Ok(rest.push(p)),
                        Err(message) => Err(message),
                    }
                }
            },
        }
    }
}

/// An error is the same for more texts.
proof fn lemma_patterns_error(texts: Seq<Seq<char>>, n: int)
    requires
        0 <= n <= texts.len(),
        patterns_of(texts.take(n)) is Err,
    ensures
        patterns_of(texts) == patterns_of(texts.take(n)),
    decreases texts.len() - n,
{
    if n < texts.len() {
        assert(texts.take(n + 1).drop_last() =~= texts.take(n));
        lemma_patterns_error(texts, n + 1);
    } else {
        assert(texts.take(n) =~= texts);
    }
}

/// Reads the patterns of devices that are never published; white space around them and blank ones
/// are skipped.
pub fn parse_patterns(texts: &[String]) -> (r: Result<Vec<DevicePattern>, String>)
    ensures
        match r {
            Ok(list) => patterns_of(texts.deep_view()) == Ok::<Seq<PatternView>, Seq<char>>(
                pattern_views(list@),
            ),
            Err(message) => patterns_of(texts.deep_view()) == Err::<Seq<PatternView>, Seq<char>>(
                message@,
            ),
        },
{
    let ghost all = texts.deep_view();
    let mut list: Vec<DevicePattern> = Vec::new();
    assert(pattern_views(list@) =~= Seq::empty());
    assert(all.take(0) =~= Seq::empty());
    for i in 0..texts.len()
        invariant
            all == texts.deep_view(),
            patterns_of(all.take(i as int)) == Ok::<Seq<PatternView>, Seq<char>>(
                pattern_views(list@),
            ),
    {
        assert(all.take(i + 1).drop_last() =~= all.take(i as int));
        assert(all.take(i + 1).last() == texts@[i as int]@);
        let text = trim(&texts[i]);
        if !text.as_str().is_empty() {
            match DevicePattern::parse(&text) {
                Ok(p) => {
                    let ghost before = list@;
                    list.push(p);
                    assert(pattern_views(list@) =~= pattern_views(before).push(p@));
                },
                Err(message) => {
                    proof {
                        lemma_patterns_error(all, i + 1);
                    }
                    return Err(message);
                },
            }
        }
    }
    assert(all.take(all.len() as int) =~= all);
    Ok(list)
}

/// Whether a device is published: it is no hub, unless hubs are included, and matches none of the
/// patterns.
pub open spec fn published(
    device: UsbDeviceInfo,
    include_hubs: bool,
    ignore: Seq<PatternView>,
) -> bool {
    (include_hubs || device.device_class != crate::sysfs::CLASS_HUB) && !exists|i: int|
        0 <= i < ignore.len() && (#[trigger] ignore[i]).selects(device)
}

/// Whether a device is published.
pub fn is_published(device: &UsbDeviceInfo, include_hubs: bool, ignore: &[DevicePattern]) -> (r:
    bool)
    ensures
        r == published(*device, include_hubs, pattern_views(ignore@)),
{
    let ghost all = pattern_views(ignore@);
    if !include_hubs && device.is_hub() {
        return false;
    }
    for i in 0..ignore.len()
        invariant
            all == pattern_views(ignore@),
            forall|j: int| 0 <= j < i ==> !(#[trigger] all[j]).selects(*device),
    {
        assert(all[i as int] == ignore@[i as int]@);
        if ignore[i].matches(device) {
            assert(all[i as int].selects(*device));
            return false;
        }
    }
    true
}

} // verus!
