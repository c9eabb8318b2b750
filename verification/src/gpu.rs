//! The NVIDIA cards as NVML reports them: identity and static data of every card (for
//! `gpu-fanctl detect` and the GUI), and which card the control loop reads the temperature of.

use vstd::prelude::*;
use crate::fanconnect::{card_with_ids, supported_card, supported_cards_list, SupportedCard};
use crate::text::{lower_hex_padded, push_lower_hex_padded, push_str};

verus! {

/// What NVML reported of one card; `None` where a query failed.
pub struct DeviceReport {
    pub name: Option<String>,
    /// PCI device ID as `device << 16 | vendor`.
    pub pci_device_id: u32,
    /// PCI subsystem ID as `subsystem device << 16 | subsystem vendor`.
    pub pci_sub_system_id: Option<u32>,
    /// PCI address as NVML reports it, e.g. `00000000:0A:00.0`.
    pub bus_id: String,
    pub bus: u32,
    pub vbios: Option<String>,
    /// Total memory in bytes.
    pub memory_total: Option<u64>,
}

/// Identity and static data of one NVIDIA card, read once.
pub struct GpuInfo {
    pub name: String,
    /// PCI device ID as `device << 16 | vendor`.
    pub device_id: u32,
    /// PCI subsystem ID as `subsystem device << 16 | subsystem vendor` (0 if unknown).
    pub subsystem_id: u32,
    /// PCI address as NVML reports it, e.g. `00000000:0A:00.0`.
    pub pci_address: String,
    pub pci_bus: u32,
    pub vbios: Option<String>,
    pub memory_bytes: Option<u64>,
    /// The matching entry of the supported-cards list, if this card is supported.
    pub supported: Option<SupportedCard>,
}

/// Driver version and all NVIDIA cards in this PC.
pub struct System {
    pub driver_version: Option<String>,
    pub gpus: Vec<GpuInfo>,
}

pub open spec fn opt_text(o: Option<String>) -> Option<Seq<char>> {
    match o {
        Some(s) => Some(s@),
        None => None,
    }
}

/// The card's information as a report gives it: a name in its place if NVML had none, subsystem
/// ID 0 if unknown, and the supported-list entry for its IDs.
pub open spec fn describes(g: GpuInfo, r: DeviceReport) -> bool {
    &&& g.name@ == (match r.name {
        Some(n) => n@,
        None => "Unknown NVIDIA GPU"@,
    })
    &&& g.device_id == r.pci_device_id
    &&& g.subsystem_id == (match r.pci_sub_system_id {
        Some(s) => s,
        None => 0,
    })
    &&& g.pci_address@ == r.bus_id@
    &&& g.pci_bus == r.bus
    &&& opt_text(g.vbios) == opt_text(r.vbios)
    &&& g.memory_bytes == r.memory_total
    &&& g.supported == card_with_ids(supported_cards_list(), g.device_id, g.subsystem_id, 0)
}

fn copy_text(o: &Option<String>) -> (r: Option<String>)
    ensures
        opt_text(r) == opt_text(*o),
{
    match o {
        Some(s) => Some(s.clone()),
        None => None,
    }
}

impl GpuInfo {
    pub fn from_report(r: &DeviceReport) -> (g: GpuInfo)
        ensures
            describes(g, *r),
    {
        let name = match &r.name {
            Some(n) => n.clone(),
            None => {
                let mut s = String::new();
                push_str(&mut s, "Unknown NVIDIA GPU");
                s
            },
        };
        let subsystem_id = match r.pci_sub_system_id {
            Some(s) => s,
            None => 0,
        };
        GpuInfo {
            name,
            device_id: r.pci_device_id,
            subsystem_id,
            pci_address: r.bus_id.clone(),
            pci_bus: r.bus,
            vbios: copy_text(&r.vbios),
            memory_bytes: r.memory_total,
            supported: supported_card(r.pci_device_id, subsystem_id),
        }
    }
}

/// The system as NVML reported it: the driver version and every card, in NVML's order.
pub fn detect(driver_version: Option<String>, reports: &[DeviceReport]) -> (s: System)
    ensures
        opt_text(s.driver_version) == opt_text(driver_version),
        s.gpus@.len() == reports@.len(),
        forall|i: int| 0 <= i < reports@.len() ==> describes(#[trigger] s.gpus@[i], reports@[i]),
{
    let mut gpus: Vec<GpuInfo> = Vec::new();
    let mut i: usize = 0;
    while i < reports.len()
        invariant
            i <= reports@.len(),
            gpus@.len() == i,
            forall|j: int| 0 <= j < i ==> describes(#[trigger] gpus@[j], reports@[j]),
        decreases reports@.len() - i,
    {
        gpus.push(GpuInfo::from_report(&reports[i]));
        i = i + 1;
    }
    System { driver_version, gpus }
}

/// The card to read the temperature of: a supported card, and on PCI bus `wanted` when one is
/// asked for (the card the fan controller was found on).
pub open spec fn wanted_card(device_id: u32, subsystem_id: Option<u32>, bus: u32, wanted: Option<u32>) -> bool {
    &&& card_with_ids(
        supported_cards_list(),
        device_id,
        match subsystem_id {
            Some(s) => s,
            None => 0,
        },
        0,
    ) is Some
    &&& match wanted {
        Some(b) => b == bus,
        None => true,
    }
}

pub fn is_wanted_card(device_id: u32, subsystem_id: Option<u32>, bus: u32, wanted: Option<u32>) -> (b: bool)
    ensures
        b == wanted_card(device_id, subsystem_id, bus, wanted),
{
    let sub = match subsystem_id {
        Some(s) => s,
        None => 0,
    };
    let supported = supported_card(device_id, sub).is_some();
    supported && match wanted {
        Some(w) => w == bus,
        None => true,
    }
}

pub open spec fn no_card_text(wanted: Option<u32>) -> Seq<char> {
    match wanted {
        Some(bus) => "NVML: no supported graphics card on PCI bus "@ + lower_hex_padded(bus as nat, 2),
        None => "NVML: no supported graphics card found"@,
    }
}

/// Why no card could be opened, when none of NVML's cards was the wanted one.
pub fn no_card_error(wanted: Option<u32>) -> (m: String)
    ensures
        m@ == no_card_text(wanted),
{
    let mut m = String::new();
    match wanted {
        Some(bus) => {
            push_str(&mut m, "NVML: no supported graphics card on PCI bus ");
            push_lower_hex_padded(&mut m, bus, 2);
        },
        None => push_str(&mut m, "NVML: no supported graphics card found"),
    }
    m
}

} // verus!
