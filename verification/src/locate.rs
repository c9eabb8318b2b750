//! Finding the fan controller. On Linux it sits behind the I2C adapter "NVIDIA i2c adapter 1 at
//! ..." of a supported card, one of the entries of /sys/bus/i2c/devices; on Windows behind I2C
//! port 1 of a supported card among the GPUs NVAPI lists. Bus numbers can change between boots,
//! so they are looked up every time, never fixed in advance.

use vstd::prelude::*;
use crate::fanconnect::{card_with_ids, format_pci_ids, pci_ids_text, supported_card, supported_cards_list, SupportedCard, PORT};
use crate::text::{
    before, chars_of, copy_range, decimal, find_char, lemma_parse_decimal, join, joined_with, lemma_find_from,
    lower_hex_padded, parse_hex_u32, parse_hex_u32_chars, parse_u32, parse_u32_chars,
    push_decimal, push_lower_hex_padded, push_signed_decimal, push_str, signed_decimal,
    split_once, starts_with, starts_with_chars, strip_0x, strip_0x_chars, strip_prefix,
    strip_prefix_chars, string_views, trim, trim_chars,
};

verus! {

// ----- Linux: the I2C adapters in sysfs -----

/// How the adapter of the controller's port names itself, up to the address that follows.
pub open spec fn adapter_prefix() -> Seq<char> {
    "NVIDIA i2c adapter "@ + decimal(PORT as nat) + " at "@
}

/// What sysfs shows of one entry of /sys/bus/i2c/devices.
pub struct AdapterEntry {
    /// The entry's file name, e.g. `i2c-4`.
    pub file_name: String,
    /// The contents of its `name` file, empty if it could not be read.
    pub name: String,
    /// The PCI address of the device the adapter belongs to (the parent folder of the resolved
    /// entry), if the entry could be resolved.
    pub pci: Option<String>,
    /// The contents of that PCI device's `vendor`, `device`, `subsystem_vendor` and
    /// `subsystem_device` files, each empty if it could not be read.
    pub vendor: String,
    pub device: String,
    pub subsystem_vendor: String,
    pub subsystem_device: String,
}

/// The controller's adapter, found on a supported card.
pub struct I2cAdapter {
    /// The `N` of /dev/i2c-N.
    pub bus: u32,
    /// PCI address of the card, e.g. `0000:0a:00.0`.
    pub pci: String,
    pub card: SupportedCard,
}

/// The bus number of an entry named `i2c-<number>`.
pub open spec fn entry_bus(file_name: Seq<char>) -> Option<u32> {
    match strip_prefix(file_name, "i2c-"@) {
        Some(n) => parse_u32(n),
        None => None,
    }
}

/// The value of a sysfs PCI ID file: hexadecimal, with or without `0x`, around whitespace.
pub open spec fn sysfs_id_value(text: Seq<char>) -> Option<u32> {
    parse_hex_u32(strip_0x(trim(text)))
}

/// Two IDs as `high << 16 | low`, or 0 if either is missing.
pub open spec fn combined_id(high: Option<u32>, low: Option<u32>) -> u32 {
    match (high, low) {
        (Some(h), Some(l)) => (h << 16) | l,
        _ => 0,
    }
}

/// An entry that is the controller's adapter with a PCI device: its bus, PCI address, device ID
/// and subsystem ID.
pub open spec fn candidate(e: AdapterEntry) -> Option<(u32, Seq<char>, u32, u32)> {
    match entry_bus(e.file_name@) {
        None => None,
        Some(bus) => if !starts_with(trim(e.name@), adapter_prefix()) {
            None
        } else {
            match e.pci {
                None => None,
                Some(pci) => Some(
                    (
                        bus,
                        pci@,
                        combined_id(sysfs_id_value(e.device@), sysfs_id_value(e.vendor@)),
                        combined_id(
                            sysfs_id_value(e.subsystem_device@),
                            sysfs_id_value(e.subsystem_vendor@),
                        ),
                    ),
                ),
            }
        },
    }
}

pub open spec fn no_adapter_text() -> Seq<char> {
    "no \"NVIDIA i2c adapter "@ + decimal(PORT as nat)
        + " at\" found. Is the nvidia driver loaded and i2c-dev available (modprobe i2c-dev)?"@
}

pub open spec fn not_supported_text(unsupported: Seq<Seq<char>>) -> Seq<char> {
    "no supported graphics card found; not supported: "@ + joined_with(unsupported, "; "@)
}

/// The first candidate from entry `i` on that is on a supported card; `unsupported` describes the
/// candidates passed over so far.
pub open spec fn adapter_search(
    entries: Seq<AdapterEntry>,
    i: int,
    unsupported: Seq<Seq<char>>,
) -> Result<(u32, Seq<char>, SupportedCard), Seq<char>>
    decreases entries.len() - i,
{
    if i < 0 || i >= entries.len() {
        Err(
            if unsupported.len() == 0 {
                no_adapter_text()
            } else {
                not_supported_text(unsupported)
            },
        )
    } else {
        match candidate(entries[i]) {
            None => adapter_search(entries, i + 1, unsupported),
            Some((bus, pci, device_id, subsystem_id)) => match card_with_ids(
                supported_cards_list(),
                device_id,
                subsystem_id,
                0,
            ) {
                Some(card) => Ok((bus, pci, card)),
                None => adapter_search(
                    entries,
                    i + 1,
                    unsupported.push(pci + " ("@ + pci_ids_text(device_id, subsystem_id) + ")"@),
                ),
            },
        }
    }
}

/// The value of a sysfs PCI ID file.
pub fn sysfs_id(text: &str) -> (r: Option<u32>)
    ensures
        r == sysfs_id_value(text@),
{
    let v = chars_of(text);
    let t = trim_chars(v.as_slice());
    let d = strip_0x_chars(t.as_slice());
    parse_hex_u32_chars(d.as_slice())
}

fn entry_bus_of(file_name: &str) -> (r: Option<u32>)
    ensures
        r == entry_bus(file_name@),
{
    let v = chars_of(file_name);
    match strip_prefix_chars(v.as_slice(), "i2c-") {
        Some(n) => parse_u32_chars(n.as_slice()),
        None => None,
    }
}

fn combined_id_of(high: Option<u32>, low: Option<u32>) -> (r: u32)
    ensures
        r == combined_id(high, low),
{
    match (high, low) {
        (Some(h), Some(l)) => (h << 16) | l,
        _ => 0,
    }
}

fn adapter_prefix_text() -> (s: String)
    ensures
        s@ == adapter_prefix(),
{
    let mut s = String::new();
    push_str(&mut s, "NVIDIA i2c adapter ");
    push_decimal(&mut s, PORT as u128);
    push_str(&mut s, " at ");
    s
}

fn candidate_of(e: &AdapterEntry) -> (r: Option<(u32, String, u32, u32)>)
    ensures
        match candidate(*e) {
            Some((bus, pci, d, s)) => r matches Some(x) && x.0 == bus && x.1@ == pci && x.2 == d
                && x.3 == s,
            None => r is None,
        },
{
    let bus = match entry_bus_of(e.file_name.as_str()) {
        Some(b) => b,
        None => {
            return None;
        },
    };
    let prefix = adapter_prefix_text();
    let name = chars_of(e.name.as_str());
    let trimmed = trim_chars(name.as_slice());
    if !starts_with_chars(trimmed.as_slice(), prefix.as_str()) {
        return None;
    }
    match &e.pci {
        None => None,
        Some(pci) => {
            let device_id = combined_id_of(sysfs_id(e.device.as_str()), sysfs_id(e.vendor.as_str()));
            let subsystem_id = combined_id_of(
                sysfs_id(e.subsystem_device.as_str()),
                sysfs_id(e.subsystem_vendor.as_str()),
            );
            Some((bus, pci.clone(), device_id, subsystem_id))
        },
    }
}

/// Picks the controller's adapter among the sysfs entries, in their order: the first adapter of
/// the controller's port whose PCI device is a supported card.
pub fn locate(entries: &[AdapterEntry]) -> (r: Result<I2cAdapter, String>)
    ensures
        match adapter_search(entries@, 0, seq![]) {
            Ok((bus, pci, card)) => r matches Ok(a) && a.bus == bus && a.pci@ == pci && a.card
                == card,
            Err(m) => r matches Err(e) && e@ == m,
        },
{
    let mut unsupported: Vec<String> = Vec::new();
    let mut i: usize = 0;
    assert(string_views(unsupported@) =~= Seq::<Seq<char>>::empty());
    while i < entries.len()
        invariant
            i <= entries@.len(),
            adapter_search(entries@, 0, seq![]) == adapter_search(
                entries@,
                i as int,
                string_views(unsupported@),
            ),
        decreases entries@.len() - i,
    {
        match candidate_of(&entries[i]) {
            None => {},
            Some((bus, pci, device_id, subsystem_id)) => {
                match supported_card(device_id, subsystem_id) {
                    Some(card) => {
                        return Ok(I2cAdapter { bus, pci, card });
                    },
                    None => {
                        let mut m = String::new();
                        push_str(&mut m, pci.as_str());
                        push_str(&mut m, " (");
                        let ids = format_pci_ids(device_id, subsystem_id);
                        push_str(&mut m, ids.as_str());
                        push_str(&mut m, ")");
                        let ghost before_push = unsupported@;
                        unsupported.push(m);
                        assert(string_views(unsupported@) =~= string_views(before_push).push(
                            pci@ + " ("@ + pci_ids_text(device_id, subsystem_id) + ")"@,
                        ));
                    },
                }
            },
        }
        i = i + 1;
    }
    if unsupported.len() == 0 {
        let mut m = String::new();
        push_str(&mut m, "no \"NVIDIA i2c adapter ");
        push_decimal(&mut m, PORT as u128);
        push_str(
            &mut m,
            " at\" found. Is the nvidia driver loaded and i2c-dev available (modprobe i2c-dev)?",
        );
        Err(m)
    } else {
        let mut m = String::new();
        push_str(&mut m, "no supported graphics card found; not supported: ");
        let list = join(unsupported.as_slice(), "; ");
        push_str(&mut m, list.as_str());
        Err(m)
    }
}

/// The PCI bus number in a PCI address like `0000:0a:00.0`: the hexadecimal field after the
/// first colon, or 0.
pub open spec fn pci_bus_of(pci: Seq<char>) -> u32 {
    match split_once(pci, ':') {
        None => 0,
        Some((_, rest)) => match parse_hex_u32(before(rest, ':')) {
            Some(b) => b,
            None => 0,
        },
    }
}

pub fn bus_number(pci: &str) -> (r: u32)
    ensures
        r == pci_bus_of(pci@),
{
    let v = chars_of(pci);
    let j = find_char(v.as_slice(), ':');
    proof {
        lemma_find_from(v@, ':', 0);
    }
    if j == v.len() {
        return 0;
    }
    let rest = copy_range(v.as_slice(), j + 1, v.len());
    let k = find_char(rest.as_slice(), ':');
    let field = copy_range(rest.as_slice(), 0, k);
    match parse_hex_u32_chars(field.as_slice()) {
        Some(b) => b,
        None => 0,
    }
}

pub open spec fn i2c_location(bus: u32, pci: Seq<char>) -> Seq<char> {
    "i2c-"@ + decimal(bus as nat) + ", GPU "@ + pci
}

/// Where the controller is, for messages: e.g. `i2c-4, GPU 0000:0a:00.0`.
pub fn describe_i2c(bus: u32, pci: &str) -> (r: String)
    ensures
        r@ == i2c_location(bus, pci@),
{
    let mut s = String::new();
    push_str(&mut s, "i2c-");
    push_decimal(&mut s, bus as u128);
    push_str(&mut s, ", GPU ");
    push_str(&mut s, pci);
    s
}

// ----- Windows: the GPUs NVAPI lists -----

pub open spec fn no_nvapi_gpu_text() -> Seq<char> {
    "no NVIDIA graphics card found through NVAPI"@
}

/// The first GPU from index `i` on that is a supported card. A GPU whose PCI IDs could not be
/// read (`None`) is passed over; `unsupported` describes the other ones passed over so far.
pub open spec fn nvapi_search(
    ids: Seq<Option<(u32, u32)>>,
    i: int,
    unsupported: Seq<Seq<char>>,
) -> Result<(int, SupportedCard), Seq<char>>
    decreases ids.len() - i,
{
    if i < 0 || i >= ids.len() {
        Err(
            if unsupported.len() == 0 {
                no_nvapi_gpu_text()
            } else {
                not_supported_text(unsupported)
            },
        )
    } else {
        match ids[i] {
            None => nvapi_search(ids, i + 1, unsupported),
            Some((device_id, subsystem_id)) => match card_with_ids(
                supported_cards_list(),
                device_id,
                subsystem_id,
                0,
            ) {
                Some(card) => Ok((i, card)),
                None => nvapi_search(
                    ids,
                    i + 1,
                    unsupported.push(pci_ids_text(device_id, subsystem_id)),
                ),
            },
        }
    }
}

/// Picks the supported card among the GPUs NVAPI enumerated, given the device and subsystem ID
/// of each (`None` where reading them failed): its index and its entry in the supported list.
pub fn find_nvapi_card(ids: &[Option<(u32, u32)>]) -> (r: Result<(usize, SupportedCard), String>)
    ensures
        match nvapi_search(ids@, 0, seq![]) {
            Ok((index, card)) => r matches Ok(x) && x.0 == index && x.1 == card,
            Err(m) => r matches Err(e) && e@ == m,
        },
{
    let mut unsupported: Vec<String> = Vec::new();
    let mut i: usize = 0;
    assert(string_views(unsupported@) =~= Seq::<Seq<char>>::empty());
    while i < ids.len()
        invariant
            i <= ids@.len(),
            nvapi_search(ids@, 0, seq![]) == nvapi_search(ids@, i as int, string_views(unsupported@)),
        decreases ids@.len() - i,
    {
        match ids[i] {
            None => {},
            Some((device_id, subsystem_id)) => {
                match supported_card(device_id, subsystem_id) {
                    Some(card) => {
                        return Ok((i, card));
                    },
                    None => {
                        let ghost before_push = unsupported@;
                        unsupported.push(format_pci_ids(device_id, subsystem_id));
                        assert(string_views(unsupported@) =~= string_views(before_push).push(
                            pci_ids_text(device_id, subsystem_id),
                        ));
                    },
                }
            },
        }
        i = i + 1;
    }
    if unsupported.len() == 0 {
        let mut m = String::new();
        push_str(&mut m, "no NVIDIA graphics card found through NVAPI");
        Err(m)
    } else {
        let mut m = String::new();
        push_str(&mut m, "no supported graphics card found; not supported: ");
        let list = join(unsupported.as_slice(), "; ");
        push_str(&mut m, list.as_str());
        Err(m)
    }
}

/// NVAPI's status 0 is success; anything else fails the named call.
pub fn check(status: i32, what: &str) -> (r: Result<(), String>)
    ensures
        status == 0 ==> r is Ok,
        status != 0 ==> (r matches Err(m) && m@ == what@ + " failed with NVAPI status "@
            + signed_decimal(status as int)),
{
    if status == 0 {
        Ok(())
    } else {
        let mut m = String::new();
        push_str(&mut m, what);
        push_str(&mut m, " failed with NVAPI status ");
        push_signed_decimal(&mut m, status);
        Err(m)
    }
}

pub open spec fn nvapi_location(bus_id: u32) -> Seq<char> {
    "NVAPI I2C port "@ + decimal(PORT as nat) + ", GPU bus "@ + lower_hex_padded(bus_id as nat, 2)
}

/// Where the controller is, for messages: e.g. `NVAPI I2C port 1, GPU bus 0a`.
pub fn describe_nvapi(bus_id: u32) -> (r: String)
    ensures
        r@ == nvapi_location(bus_id),
{
    let mut s = String::new();
    push_str(&mut s, "NVAPI I2C port ");
    push_decimal(&mut s, PORT as u128);
    push_str(&mut s, ", GPU bus ");
    push_lower_hex_padded(&mut s, bus_id, 2);
    s
}

// ----- only supported cards -----

proof fn lemma_card_with_ids(cards: Seq<SupportedCard>, device_id: u32, subsystem_id: u32, i: int)
    ensures
        card_with_ids(cards, device_id, subsystem_id, i) matches Some(card) ==> cards.contains(card)
            && card.device_id == device_id && card.subsystem_id == subsystem_id,
    decreases cards.len() - i,
{
    if 0 <= i < cards.len() {
        if !(cards[i].device_id == device_id && cards[i].subsystem_id == subsystem_id) {
            lemma_card_with_ids(cards, device_id, subsystem_id, i + 1);
        }
    }
}

proof fn lemma_adapter_search(entries: Seq<AdapterEntry>, i: int, unsupported: Seq<Seq<char>>)
    ensures
        adapter_search(entries, i, unsupported) matches Ok((bus, pci, card)) ==> supported_cards_list().contains(card) && exists|k: int|
            0 <= k < entries.len() && candidate(#[trigger] entries[k]) == Some(
                (bus, pci, card.device_id, card.subsystem_id),
            ),
    decreases entries.len() - i,
{
    if 0 <= i < entries.len() {
        match candidate(entries[i]) {
            None => lemma_adapter_search(entries, i + 1, unsupported),
            Some((bus, pci, device_id, subsystem_id)) => {
                lemma_card_with_ids(supported_cards_list(), device_id, subsystem_id, 0);
                match card_with_ids(supported_cards_list(), device_id, subsystem_id, 0) {
                    Some(card) => {
                        assert(candidate(entries[i]) == Some(
                            (bus, pci, card.device_id, card.subsystem_id),
                        ));
                    },
                    None => lemma_adapter_search(
                        entries,
                        i + 1,
                        unsupported.push(pci + " ("@ + pci_ids_text(device_id, subsystem_id) + ")"@),
                    ),
                }
            },
        }
    }
}

/// The controller is only ever looked for on a supported card: a found adapter is the
/// controller's adapter of one of the entries, on a PCI device whose IDs are exactly those of a
/// supported card.
pub proof fn located_adapter_is_on_supported_card(entries: Seq<AdapterEntry>)
    ensures
        adapter_search(entries, 0, seq![]) matches Ok((bus, pci, card)) ==> supported_cards_list().contains(card) && exists|k: int|
            0 <= k < entries.len() && candidate(#[trigger] entries[k]) == Some(
                (bus, pci, card.device_id, card.subsystem_id),
            ),
{
    lemma_adapter_search(entries, 0, seq![]);
}

proof fn lemma_nvapi_search(ids: Seq<Option<(u32, u32)>>, i: int, unsupported: Seq<Seq<char>>)
    ensures
        nvapi_search(ids, i, unsupported) matches Ok((index, card)) ==> 0 <= index < ids.len()
            && supported_cards_list().contains(card) && ids[index] == Some(
            (card.device_id, card.subsystem_id),
        ),
    decreases ids.len() - i,
{
    if 0 <= i < ids.len() {
        match ids[i] {
            None => lemma_nvapi_search(ids, i + 1, unsupported),
            Some((device_id, subsystem_id)) => {
                lemma_card_with_ids(supported_cards_list(), device_id, subsystem_id, 0);
                if card_with_ids(supported_cards_list(), device_id, subsystem_id, 0) is None {
                    lemma_nvapi_search(ids, i + 1, unsupported.push(pci_ids_text(device_id, subsystem_id)));
                }
            },
        }
    }
}

/// Likewise on Windows: the GPU picked among NVAPI's is one whose IDs are exactly those of a
/// supported card.
pub proof fn nvapi_card_is_supported(ids: Seq<Option<(u32, u32)>>)
    ensures
        nvapi_search(ids, 0, seq![]) matches Ok((index, card)) ==> 0 <= index < ids.len()
            && supported_cards_list().contains(card) && ids[index] == Some(
            (card.device_id, card.subsystem_id),
        ),
{
    lemma_nvapi_search(ids, 0, seq![]);
}

/// The bus of the adapter `i2c-N` is the number `N` read in decimal, as the kernel names the
/// device `/dev/i2c-N`: for every bus number, the entry named after it gives that bus back, and
/// an entry whose name does not start with `i2c-` has no bus.
pub proof fn entry_bus_is_decimal(bus: u32, other: Seq<char>)
    ensures
        entry_bus("i2c-"@ + decimal(bus as nat)) == Some(bus),
        !(other.len() >= 4 && other.take(4) == "i2c-"@) ==> entry_bus(other) is None,
{
    reveal_strlit("i2c-");
    let name = "i2c-"@ + decimal(bus as nat);
    assert(name.take(4) =~= "i2c-"@);
    assert(name.skip(4) =~= decimal(bus as nat));
    lemma_parse_decimal(bus);
}

} // verus!
