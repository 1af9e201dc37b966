//! USB device discovery: which serial device belongs to a vendor and product
//! id.

use crate::text::{
    comes_before, is_decimal_text, same_text, smaller_decimal, starts_with, trim,
};
use crate::time::{MILLISECOND, SECOND};
#[allow(unused_imports)]
use crate::text;
use vstd::prelude::*;

verus! {

/// How many levels of the device tree are searched for USB ids.
pub const SYSFS_LEVELS: usize = 8;

/// How often waiting for a device is logged.
pub const WAIT_LOG_INTERVAL: u64 = 10 * SECOND;

/// How long to sleep between two looks for a device.
pub const WAIT_POLL_INTERVAL: u64 = 500 * MILLISECOND;

/// The contents of the vendor and product files at one level of the device
/// tree.
#[derive(Debug)]
pub struct UsbIds {
    pub vendor: String,
    pub product: String,
}

/// A terminal device, and what stands at each level of the device tree from it
/// upwards: the USB ids, or nothing where the level has none.
#[derive(Debug)]
pub struct TtyEntry {
    pub name: String,
    pub levels: Vec<Option<UsbIds>>,
}

/// The ids that count: those of the first level that has any, within the
/// levels that are searched.
pub open spec fn usb_node(levels: Seq<Option<UsbIds>>, searched: nat) -> Option<UsbIds>
    decreases searched,
{
    if searched == 0 || levels.len() == 0 {
        None
    } else if levels[0] is Some {
        levels[0]
    } else {
        usb_node(levels.skip(1), (searched - 1) as nat)
    }
}

/// The device is a USB serial device with these ids.
pub open spec fn is_wanted(entry: TtyEntry, vid: Seq<char>, pid: Seq<char>) -> bool {
    &&& text::has_prefix(entry.name@, "ttyACM"@)
    &&& usb_node(entry.levels@, SYSFS_LEVELS as nat) matches Some(ids) && text::trimmed(
        ids.vendor@,
    ) == vid && text::trimmed(ids.product@) == pid
}

/// Whether a pair of ids is the wanted one.
pub fn same_usb_id(vendor: &str, product: &str, vid: &str, pid: &str) -> (same: bool)
    ensures
        same == (vendor@ == vid@ && product@ == pid@),
{
    same_text(vendor, vid) && same_text(product, pid)
}

fn entry_wanted(entry: &TtyEntry, vid: &str, pid: &str) -> (yes: bool)
    ensures
        yes == is_wanted(*entry, vid@, pid@),
{
    if !starts_with(entry.name.as_str(), "ttyACM") {
        return false;
    }
    let mut i: usize = 0;
    assert(entry.levels@.skip(0) =~= entry.levels@);
    while i < SYSFS_LEVELS && i < entry.levels.len()
        invariant
            i <= SYSFS_LEVELS,
            i <= entry.levels@.len(),
            text::has_prefix(entry.name@, "ttyACM"@),
            usb_node(entry.levels@.skip(i as int), (SYSFS_LEVELS - i) as nat) == usb_node(
                entry.levels@,
                SYSFS_LEVELS as nat,
            ),
        decreases SYSFS_LEVELS - i,
    {
        if let Some(ids) = &entry.levels[i] {
            // The USB node decides, whether it matches or not.
            return same_usb_id(
                trim(ids.vendor.as_str()),
                trim(ids.product.as_str()),
                vid,
                pid,
            );
        }
        assert(entry.levels@.skip(i as int).skip(1) =~= entry.levels@.skip(i + 1));
        i += 1;
    }
    false
}

/// The path of a device.
pub open spec fn device_path(name: Seq<char>) -> Seq<char> {
    "/dev/"@ + name
}

/// The number of a device: what the digits behind `ttyACM` spell.
pub open spec fn acm_number(name: Seq<char>) -> Option<nat> {
    let digits = name.skip("ttyACM"@.len() as int);
    if text::has_prefix(name, "ttyACM"@) && text::is_decimal(digits) {
        Some(text::digits_value(digits))
    } else {
        None
    }
}

/// The order in which devices are chosen: by their numbers, those without a
/// number last; else by name.
pub open spec fn acm_before(a: Seq<char>, b: Seq<char>) -> bool {
    match (acm_number(a), acm_number(b)) {
        (Some(m), Some(n)) => m < n || m == n && text::precedes(a, b),
        (Some(_), None) => true,
        (None, Some(_)) => false,
        (None, None) => text::precedes(a, b),
    }
}

proof fn lemma_acm_before_trans(a: Seq<char>, b: Seq<char>, c: Seq<char>)
    requires
        acm_before(a, b),
        acm_before(b, c),
    ensures
        acm_before(a, c),
{
    if text::precedes(a, b) && text::precedes(b, c) {
        text::lemma_precedes_trans(a, b, c);
    }
}

/// The lowest `ttyACMn` wins: a device with a smaller number is chosen before
/// one with a greater, whatever their names are as text.
pub proof fn law_lowest_number_wins(m: nat, n: nat)
    requires
        m < n,
    ensures
        acm_before("ttyACM"@ + text::decimal(m), "ttyACM"@ + text::decimal(n)),
        !acm_before("ttyACM"@ + text::decimal(n), "ttyACM"@ + text::decimal(m)),
{
    lemma_acm_number(m);
    lemma_acm_number(n);
}

proof fn lemma_acm_number(n: nat)
    ensures
        acm_number("ttyACM"@ + text::decimal(n)) == Some(n),
{
    let name = "ttyACM"@ + text::decimal(n);
    text::lemma_decimal(n);
    assert(name.skip("ttyACM"@.len() as int) =~= text::decimal(n));
    assert(name.take("ttyACM"@.len() as int) =~= "ttyACM"@);
}

/// The choice is never open: of two names that differ exactly one is chosen
/// before the other.
pub proof fn law_choice_is_definite(a: Seq<char>, b: Seq<char>)
    ensures
        a != b ==> acm_before(a, b) != acm_before(b, a),
        !acm_before(a, a),
{
    text::lemma_precedes_irreflexive(a);
    if a != b {
        text::lemma_precedes_total(a, b);
        if text::precedes(a, b) && text::precedes(b, a) {
            text::lemma_precedes_trans(a, b, a);
        }
    }
}

/// The digits behind `ttyACM`, where that is what stands there.
fn acm_digits(name: &str) -> (digits: Option<&str>)
    ensures
        match digits {
            Some(d) => text::is_decimal(d@) && acm_number(name@) == Some(text::digits_value(d@)),
            None => acm_number(name@) is None,
        },
{
    if !starts_with(name, "ttyACM") {
        return None;
    }
    let start: usize = "ttyACM".unicode_len();
    let len: usize = name.unicode_len();
    let digits: &str = name.substring_char(start, len);
    assert(digits@ =~= name@.skip(start as int));
    if is_decimal_text(digits) {
        Some(digits)
    } else {
        None
    }
}

fn comes_first(a: &str, b: &str) -> (yes: bool)
    ensures
        yes == acm_before(a@, b@),
{
    match (acm_digits(a), acm_digits(b)) {
        (Some(m), Some(n)) => match smaller_decimal(m, n) {
            Some(first) => first,
            None => comes_before(a, b),
        },
        (Some(_), None) => true,
        (None, Some(_)) => false,
        (None, None) => comes_before(a, b),
    }
}

/// Look among terminal devices for a `ttyACM*` device whose USB parent matches
/// `vid:pid`.
///
/// Returns the match as `"/dev/ttyACMn"`, or `None`; the lowest `ttyACMn` wins
/// where there are several.
///
/// The device tree is searched upward from each `ttyACM*` entry, up to eight
/// levels, until ids are found.  If they are those of a different device, the
/// search stops for that entry.
pub fn find_acm_by_usb_id(entries: &[TtyEntry], vid: &str, pid: &str) -> (path: Option<String>)
    ensures
        match path {
            Some(p) => exists|i: int|
                0 <= i < entries@.len() && is_wanted(#[trigger] entries@[i], vid@, pid@) && p@
                    == device_path(entries@[i].name@) && (forall|j: int|
                    0 <= j < entries@.len() && is_wanted(#[trigger] entries@[j], vid@, pid@)
                        ==> !acm_before(entries@[j].name@, entries@[i].name@)),
            None => forall|i: int|
                0 <= i < entries@.len() ==> !is_wanted(#[trigger] entries@[i], vid@, pid@),
        },
{
    let mut best: Option<usize> = None;
    let mut i: usize = 0;
    while i < entries.len()
        invariant
            i <= entries@.len(),
            match best {
                Some(b) => b < i && is_wanted(entries@[b as int], vid@, pid@) && (forall|j: int|
                    0 <= j < i && is_wanted(#[trigger] entries@[j], vid@, pid@)
                        ==> !acm_before(entries@[j].name@, entries@[b as int].name@)),
                None => forall|j: int|
                    0 <= j < i ==> !is_wanted(#[trigger] entries@[j], vid@, pid@),
            },
        decreases entries@.len() - i,
    {
        if entry_wanted(&entries[i], vid, pid) {
            match best {
                None => {
                    proof {
                        law_choice_is_definite(entries@[i as int].name@, entries@[i as int].name@);
                    }
                    best = Some(i);
                },
                Some(b) => {
                    if comes_first(entries[i].name.as_str(), entries[b].name.as_str()) {
                        proof {
                            let new = entries@[i as int].name@;
                            let old_best = entries@[b as int].name@;
                            law_choice_is_definite(new, new);
                            assert forall|j: int|
                                0 <= j <= i && is_wanted(#[trigger] entries@[j], vid@, pid@) implies
                                !acm_before(entries@[j].name@, new) by {
                                if j < i && acm_before(entries@[j].name@, new) {
                                    lemma_acm_before_trans(
                                        entries@[j].name@,
                                        new,
                                        old_best,
                                    );
                                }
                            }
                        }
                        best = Some(i);
                    }
                },
            }
        }
        i += 1;
    }
    match best {
        Some(b) => {
            let mut p: String = "/dev/".to_owned();
            p.append(entries[b].name.as_str());
            Some(p)
        },
        None => None,
    }
}

/// What to do while waiting for a device.
#[derive(Debug)]
pub enum WaitStep {
    /// It is there.
    Found(String),
    /// Log that it is not there yet, and look again later.
    LogAndSleep,
    /// Look again later.
    Sleep,
}

/// Waiting until a device appears.
pub struct AcmWait {
    last_log: Option<u64>,
}

impl View for AcmWait {
    type V = Option<u64>;

    /// When waiting was last logged.
    closed spec fn view(&self) -> Option<u64> {
        self.last_log
    }
}

impl AcmWait {
    /// Start to wait.
    pub fn new() -> (w: Self)
        ensures
            w@ is None,
    {
        AcmWait { last_log: None }
    }

    /// A look for the device is over.  Waiting is logged at once, and then
    /// every ten seconds.
    pub fn wait_for_acm(&mut self, found: Option<String>, now: u64) -> (step: WaitStep)
        requires
            old(self)@ matches Some(t) ==> t <= now,
        ensures
            match found {
                Some(dev) => step == WaitStep::Found(dev) && final(self)@ == old(self)@,
                None => if old(self)@ matches Some(t) && now - t < WAIT_LOG_INTERVAL {
                    step is Sleep && final(self)@ == old(self)@
                } else {
                    step is LogAndSleep && final(self)@ == Some(now)
                },
            },
    {
        if let Some(dev) = found {
            return WaitStep::Found(dev);
        }
        if let Some(t) = self.last_log {
            if now - t < WAIT_LOG_INTERVAL {
                return WaitStep::Sleep;
            }
        }
        self.last_log = Some(now);
        WaitStep::LogAndSleep
    }
}

/// The lowest level of the device tree that has ids decides, if it is among the
/// first eight: no level above it counts, and where none of the eight has ids
/// there are none.
pub proof fn law_lowest_level_decides(levels: Seq<Option<UsbIds>>, k: int)
    requires
        0 <= k,
        forall|i: int| 0 <= i < k && i < levels.len() ==> #[trigger] levels[i] is None,
        k < levels.len() ==> levels[k] is Some,
    ensures
        usb_node(levels, SYSFS_LEVELS as nat) == (if k < 8 && k < levels.len() {
            levels[k]
        } else {
            None
        }),
{
    lemma_usb_node(levels, 8, k);
}

proof fn lemma_usb_node(levels: Seq<Option<UsbIds>>, searched: nat, k: int)
    requires
        0 <= k,
        forall|i: int| 0 <= i < k && i < levels.len() ==> #[trigger] levels[i] is None,
        k < levels.len() ==> levels[k] is Some,
    ensures
        usb_node(levels, searched) == (if k < searched && k < levels.len() {
            levels[k]
        } else {
            None
        }),
    decreases searched,
{
    if searched > 0 && levels.len() > 0 && levels[0] is None {
        lemma_usb_node(levels.skip(1), (searched - 1) as nat, k - 1);
    }
}

/// A device is the wanted one just where it is named `ttyACM` and something,
/// and the ids that decide are, but for white space around them, the wanted
/// ones, both of them.
pub proof fn law_wanted_device(entry: TtyEntry, ids: UsbIds, vid: Seq<char>, pid: Seq<char>)
    requires
        usb_node(entry.levels@, SYSFS_LEVELS as nat) == Some(ids),
    ensures
        is_wanted(entry, vid, pid) <==> {
            &&& entry.name@.len() >= 6
            &&& entry.name@.take(6) == seq!['t', 't', 'y', 'A', 'C', 'M']
            &&& text::trimmed(ids.vendor@) == vid
            &&& text::trimmed(ids.product@) == pid
        },
{
    reveal_strlit("ttyACM");
    assert("ttyACM"@ =~= seq!['t', 't', 'y', 'A', 'C', 'M']);
}

/// A device without ids is never the wanted one.
pub proof fn law_device_without_ids_is_not_wanted(entry: TtyEntry, vid: Seq<char>, pid: Seq<char>)
    requires
        usb_node(entry.levels@, SYSFS_LEVELS as nat) is None,
    ensures
        !is_wanted(entry, vid, pid),
{
}

/// The path of a device is its name in `/dev`.
pub proof fn law_device_path(name: Seq<char>)
    ensures
        device_path(name) == seq!['/', 'd', 'e', 'v', '/'] + name,
{
    reveal_strlit("/dev/");
    assert("/dev/"@ =~= seq!['/', 'd', 'e', 'v', '/']);
}

/// Devices with a number come before those without, and among those without
/// the names decide.
pub proof fn law_numbered_devices_come_first(n: nat, other: Seq<char>, name: Seq<char>)
    requires
        acm_number(other) is None,
        acm_number(name) is None,
    ensures
        acm_before("ttyACM"@ + text::decimal(n), other),
        !acm_before(other, "ttyACM"@ + text::decimal(n)),
        acm_before(other, name) == text::precedes(other, name),
{
    lemma_acm_number(n);
}

} // verus!
