//! The FanConnect II controller on supported cards (the ROG Strix RTX 2080 Ti): I2C device 0x2A
//! on the GPU's I2C port 1. Every register access goes through a `Transport`; the controller
//! keeps a record of the accesses it made, which the contracts speak of.

use vstd::prelude::*;
use crate::bus::LoggedBus;
use crate::text::{hex, push_hex, push_str};

verus! {

/// 7-bit I2C address of the controller.
pub const ADDRESS: u8 = 0x2a;
/// The GPU I2C port the controller sits on.
pub const PORT: u8 = 1;

pub const REG_MODE: u8 = 0x40;
pub const REG_DUTY: u8 = 0x41;
pub const REG_FAN1_ENABLE: u8 = 0x43;
pub const REG_FAN1_TACH: u8 = 0x44;
pub const REG_FAN1_STATUS: u8 = 0x45;
pub const REG_FAN2_ENABLE: u8 = 0x47;
pub const REG_FAN2_TACH: u8 = 0x48;
pub const REG_FAN2_STATUS: u8 = 0x49;

pub const MODE_AUTO: u8 = 0x00;
pub const MODE_HOST: u8 = 0x02;
pub const RPM_PER_TACH_UNIT: u32 = 30;

/// A graphics card whose FanConnect II protocol has been verified.
#[derive(Clone, Copy, Debug, PartialEq, Eq)]
pub struct SupportedCard {
    /// PCI device ID as `device << 16 | vendor`.
    pub device_id: u32,
    /// PCI subsystem ID as `subsystem device << 16 | subsystem vendor`.
    pub subsystem_id: u32,
    pub name: &'static str,
}

/// Cards this software controls. Only add a card after its protocol has been verified: a wrong
/// write can reach another chip on the same I2C bus.
pub open spec fn supported_cards_list() -> Seq<SupportedCard> {
    seq![
        SupportedCard {
            device_id: 0x1E07_10DE,
            subsystem_id: 0x866A_1043,
            name: "ASUS ROG Strix GeForce RTX 2080 Ti",
        },
    ]
}

pub fn supported_cards() -> (v: Vec<SupportedCard>)
    ensures
        v@ == supported_cards_list(),
{
    let v = vec![
        SupportedCard {
            device_id: 0x1E07_10DE,
            subsystem_id: 0x866A_1043,
            name: "ASUS ROG Strix GeForce RTX 2080 Ti",
        },
    ];
    assert(v@ =~= supported_cards_list());
    v
}

/// The first card of `cards` from index `i` on with both IDs.
pub open spec fn card_with_ids(cards: Seq<SupportedCard>, device_id: u32, subsystem_id: u32, i: int) -> Option<
    SupportedCard,
>
    decreases cards.len() - i,
{
    if i < 0 || i >= cards.len() {
        None
    } else if cards[i].device_id == device_id && cards[i].subsystem_id == subsystem_id {
        Some(cards[i])
    } else {
        card_with_ids(cards, device_id, subsystem_id, i + 1)
    }
}

/// The supported card with these PCI IDs, if any.
pub fn supported_card(device_id: u32, subsystem_id: u32) -> (r: Option<SupportedCard>)
    ensures
        r == card_with_ids(supported_cards_list(), device_id, subsystem_id, 0),
{
    let cards = supported_cards();
    let mut i: usize = 0;
    while i < cards.len()
        invariant
            i <= cards.len(),
            cards@ == supported_cards_list(),
            card_with_ids(cards@, device_id, subsystem_id, 0) == card_with_ids(
                cards@,
                device_id,
                subsystem_id,
                i as int,
            ),
        decreases cards.len() - i,
    {
        if cards[i].device_id == device_id && cards[i].subsystem_id == subsystem_id {
            return Some(cards[i]);
        }
        i = i + 1;
    }
    None
}

/// `vendor:device, subsystem vendor:device` in lower-case hexadecimal, four digits each.
pub open spec fn pci_ids_text(device_id: u32, subsystem_id: u32) -> Seq<char> {
    hex((device_id & 0xFFFF) as nat, 4, false) + seq![':'] + hex((device_id >> 16) as nat, 4, false)
        + ", subsystem "@ + hex((subsystem_id & 0xFFFF) as nat, 4, false) + seq![':'] + hex(
        (subsystem_id >> 16) as nat,
        4,
        false,
    )
}

/// PCI IDs in the usual `vendor:device, subsystem vendor:device` form, e.g.
/// `10de:1e07, subsystem 1043:866a`.
pub fn format_pci_ids(device_id: u32, subsystem_id: u32) -> (r: String)
    ensures
        r@ == pci_ids_text(device_id, subsystem_id),
{
    let mut s = String::new();
    push_hex(&mut s, device_id & 0xFFFF, 4, false);
    s.push(':');
    push_hex(&mut s, device_id >> 16, 4, false);
    push_str(&mut s, ", subsystem ");
    push_hex(&mut s, subsystem_id & 0xFFFF, 4, false);
    s.push(':');
    push_hex(&mut s, subsystem_id >> 16, 4, false);
    assert(s@ =~= pci_ids_text(device_id, subsystem_id));
    s
}

/// A failed register transfer, described.
#[derive(Debug)]
pub struct TransportError {
    pub message: String,
}

/// Register access to the controller, one byte per transfer.
pub trait Transport {
    fn read(&self, reg: u8) -> Result<u8, TransportError>;

    /// Only the writes the controller may make are ever asked for.
    fn write(&self, reg: u8, value: u8) -> Result<(), TransportError>
        requires
            allowed_write(reg, value),
    ;

    /// Where the controller is, for messages (e.g. "i2c-4, GPU 0000:0a:00.0").
    fn describe(&self) -> String;

    /// PCI bus number of the graphics card the controller belongs to.
    fn pci_bus(&self) -> u32;

    /// The supported card the controller was found on.
    fn card(&self) -> SupportedCard;
}

#[derive(Clone, Copy, Debug)]
pub struct Status {
    pub mode: u8,
    pub duty_reg: u8,
    pub fan1_rpm: u32,
    pub fan2_rpm: u32,
}

/// The status from the four registers: mode, duty and the two tachometers (30 RPM per unit).
pub open spec fn status_from(mode: u8, duty: u8, tach1: u8, tach2: u8) -> Status {
    Status {
        mode,
        duty_reg: duty,
        fan1_rpm: (tach1 * RPM_PER_TACH_UNIT) as u32,
        fan2_rpm: (tach2 * RPM_PER_TACH_UNIT) as u32,
    }
}

/// One register transfer the controller asked its transport for, and how it went.
pub ghost enum Access {
    Read(u8, u8),
    ReadFailed(u8),
    Write(u8, u8),
    WriteFailed(u8, u8),
}

/// The only writes the controller makes: host mode (never the card's auto mode), the duty, and
/// switching the two fan outputs on.
pub open spec fn allowed_write(reg: u8, value: u8) -> bool {
    ||| reg == REG_MODE && value == MODE_HOST
    ||| reg == REG_DUTY
    ||| (reg == REG_FAN1_ENABLE || reg == REG_FAN2_ENABLE) && value == 0x01
}

pub open spec fn access_allowed(a: Access) -> bool {
    match a {
        Access::Write(reg, value) => allowed_write(reg, value),
        Access::WriteFailed(reg, value) => allowed_write(reg, value),
        _ => true,
    }
}

/// What `take_control` writes, in order: host mode, then both outputs on.
pub open spec fn take_control_plan() -> Seq<(u8, u8)> {
    seq![(REG_MODE, MODE_HOST), (REG_FAN1_ENABLE, 0x01u8), (REG_FAN2_ENABLE, 0x01u8)]
}

/// Writes of `plan` in order, the first `n` done; if `failed`, the next one failed and the
/// rest was not tried.
pub open spec fn writes_of(plan: Seq<(u8, u8)>, n: int, failed: bool) -> Seq<Access> {
    Seq::new(n as nat, |i: int| Access::Write(plan[i].0, plan[i].1)) + if failed {
        seq![Access::WriteFailed(plan[n].0, plan[n].1)]
    } else {
        seq![]
    }
}

/// Full duty, the fail-safe the fans are left at whenever control ends.
pub const DUTY_FULL: u8 = 0xFF;

/// What `fail_safe` writes, in order: the control sequence, then full duty.
pub open spec fn fail_safe_plan() -> Seq<(u8, u8)> {
    take_control_plan().push((REG_DUTY, DUTY_FULL))
}

/// The registers read to identify the controller, in order: both fan status registers, then
/// the mode.
pub open spec fn identify_regs() -> Seq<u8> {
    seq![REG_FAN1_STATUS, REG_FAN2_STATUS, REG_MODE]
}

/// The registers `status` reads, in order: mode, duty, then both tachometers.
pub open spec fn status_regs() -> Seq<u8> {
    seq![REG_MODE, REG_DUTY, REG_FAN1_TACH, REG_FAN2_TACH]
}

/// The `i`-th transfer of `log` was a good read of `reg`.
pub open spec fn read_of(log: Seq<Access>, i: int, reg: u8) -> bool {
    log[i] matches Access::Read(r, _) && r == reg
}

/// `log` reads `regs` in order and stops at the first failed read: each transfer but the last
/// is a good read of the next register, and the last is a failed read of its register or, once
/// all of `regs` were read, a good one. Nothing is written.
pub open spec fn reads_in_order(regs: Seq<u8>, log: Seq<Access>) -> bool {
    &&& 1 <= log.len() <= regs.len()
    &&& forall|i: int| 0 <= i < log.len() - 1 ==> #[trigger] read_of(log, i, regs[i])
    &&& {
        ||| log.last() == Access::ReadFailed(regs[log.len() - 1])
        ||| log.len() == regs.len() && read_of(log, log.len() - 1, regs[log.len() - 1])
    }
}

/// Every register of `regs` was read, in order, and every read succeeded.
pub open spec fn read_all(regs: Seq<u8>, log: Seq<Access>) -> bool {
    &&& log.len() == regs.len()
    &&& forall|i: int| 0 <= i < log.len() ==> #[trigger] read_of(log, i, regs[i])
}

/// The value the `i`-th transfer of `log` read (0 unless it was a good read).
pub open spec fn value_read(log: Seq<Access>, i: int) -> u8 {
    match log[i] {
        Access::Read(_, v) => v,
        _ => 0,
    }
}

/// The transfers after `before`, where `after` goes on from `before`.
pub open spec fn since(before: Seq<Access>, after: Seq<Access>) -> Seq<Access> {
    after.skip(before.len() as int)
}

/// `after` keeps `before` as it was and may add to it.
pub open spec fn continues(before: Seq<Access>, after: Seq<Access>) -> bool {
    before.len() <= after.len() && after.take(before.len() as int) == before
}

#[derive(Debug)]
pub enum FanConnectError {
    Read { reg: u8, location: String, cause: TransportError },
    Write { reg: u8, value: u8, location: String, cause: TransportError },
    NotFanConnect { status1: u8, status2: u8, mode: u8, location: String },
}

/// `0x` and two upper-case hexadecimal digits.
pub open spec fn hex_byte(b: u8) -> Seq<char> {
    "0x"@ + hex(b as nat, 2, true)
}

pub open spec fn error_text(e: FanConnectError) -> Seq<char> {
    match e {
        FanConnectError::Read { reg, location, cause } => "reading register "@ + hex_byte(reg)
            + " ("@ + location@ + "): "@ + cause.message@,
        FanConnectError::Write { reg, value, location, cause } => "writing register "@ + hex_byte(
            reg,
        ) + "="@ + hex_byte(value) + " ("@ + location@ + "): "@ + cause.message@,
        FanConnectError::NotFanConnect { status1, status2, mode, location } => "device 0x2A ("@
            + location@ + ") does not look like FanConnect II (status "@ + hex_byte(status1)
            + "/"@ + hex_byte(status2) + ", mode "@ + hex_byte(mode)
            + "; expected 0x01/0x01 and mode 0x00 or 0x02)"@,
    }
}

fn push_hex_byte(s: &mut String, b: u8)
    ensures
        final(s)@ == old(s)@ + hex_byte(b),
{
    push_str(s, "0x");
    push_hex(s, b as u32, 2, true);
    assert(final(s)@ =~= old(s)@ + hex_byte(b));
}

impl FanConnectError {
    /// The error as one line of text.
    pub fn message(&self) -> (r: String)
        ensures
            r@ == error_text(*self),
    {
        let mut s = String::new();
        match self {
            FanConnectError::Read { reg, location, cause } => {
                push_str(&mut s, "reading register ");
                push_hex_byte(&mut s, *reg);
                push_str(&mut s, " (");
                push_str(&mut s, location.as_str());
                push_str(&mut s, "): ");
                push_str(&mut s, cause.message.as_str());
            },
            FanConnectError::Write { reg, value, location, cause } => {
                push_str(&mut s, "writing register ");
                push_hex_byte(&mut s, *reg);
                push_str(&mut s, "=");
                push_hex_byte(&mut s, *value);
                push_str(&mut s, " (");
                push_str(&mut s, location.as_str());
                push_str(&mut s, "): ");
                push_str(&mut s, cause.message.as_str());
            },
            FanConnectError::NotFanConnect { status1, status2, mode, location } => {
                push_str(&mut s, "device 0x2A (");
                push_str(&mut s, location.as_str());
                push_str(&mut s, ") does not look like FanConnect II (status ");
                push_hex_byte(&mut s, *status1);
                push_str(&mut s, "/");
                push_hex_byte(&mut s, *status2);
                push_str(&mut s, ", mode ");
                push_hex_byte(&mut s, *mode);
                push_str(&mut s, "; expected 0x01/0x01 and mode 0x00 or 0x02)");
            },
        }
        assert(s@ =~= error_text(*self));
        s
    }
}

/// The registers that identify the controller: both fan status registers read 0x01 and the
/// mode is the card's auto mode or host mode.
pub open spec fn looks_like_fanconnect(status1: u8, status2: u8, mode: u8) -> bool {
    status1 == 0x01 && status2 == 0x01 && (mode == MODE_AUTO || mode == MODE_HOST)
}

/// The three identifying reads all succeeded and their values look like the controller.
pub open spec fn identified(log: Seq<Access>) -> bool {
    read_all(identify_regs(), log) && looks_like_fanconnect(
        value_read(log, 0),
        value_read(log, 1),
        value_read(log, 2),
    )
}

/// Where an error happened, as the controller described its location.
pub open spec fn error_location(e: FanConnectError) -> Seq<char> {
    match e {
        FanConnectError::Read { location, .. } => location@,
        FanConnectError::Write { location, .. } => location@,
        FanConnectError::NotFanConnect { location, .. } => location@,
    }
}

pub struct FanConnect {
    bus: LoggedBus,
    /// The transport's description, PCI bus and card, asked once when the controller was found.
    location: String,
    pci_bus: u32,
    card: SupportedCard,
}

impl FanConnect {
    /// Where the controller was found, what card it is on and that card's PCI bus, as the
    /// transport told when the controller was made. They never change afterwards.
    pub closed spec fn identity(&self) -> (Seq<char>, u32, SupportedCard) {
        (self.location@, self.pci_bus, self.card)
    }

    /// Every register transfer made through this controller so far, in order.
    pub closed spec fn accesses(&self) -> Seq<Access> {
        self.bus.accesses()
    }

    /// Every write made so far was an allowed one.
    pub closed spec fn wf(&self) -> bool {
        forall|i: int|
            0 <= i < self.accesses().len() ==> access_allowed(#[trigger] self.accesses()[i])
    }

    fn read_reg(&mut self, reg: u8) -> (r: Result<u8, FanConnectError>)
        requires
            old(self).wf(),
        ensures
            final(self).wf(),
            final(self).identity() == old(self).identity(),
            r matches Err(e) ==> error_location(e) == final(self).identity().0,
            match r {
                Ok(v) => final(self).accesses() == old(self).accesses().push(Access::Read(reg, v)),
                Err(e) => final(self).accesses() == old(self).accesses().push(Access::ReadFailed(reg))
                    && (e matches FanConnectError::Read { reg: r2, .. } && r2 == reg),
            },
    {
        let r = match self.bus.read(reg) {
            Ok(v) => Ok(v),
            Err(cause) => Err(FanConnectError::Read { reg, location: self.location.clone(), cause }),
        };
        proof {
            assert forall|i: int| 0 <= i < self.accesses().len() implies access_allowed(
                #[trigger] self.accesses()[i],
            ) by {
                if i < old(self).accesses().len() {
                    assert(old(self).accesses()[i] == self.accesses()[i]);
                }
            }
        }
        r
    }

    fn write_reg(&mut self, reg: u8, value: u8) -> (r: Result<(), FanConnectError>)
        requires
            old(self).wf(),
            allowed_write(reg, value),
        ensures
            final(self).wf(),
            final(self).identity() == old(self).identity(),
            r matches Err(e) ==> error_location(e) == final(self).identity().0,
            match r {
                Ok(()) => final(self).accesses() == old(self).accesses().push(Access::Write(reg, value)),
                Err(e) => final(self).accesses() == old(self).accesses().push(
                    Access::WriteFailed(reg, value),
                ) && (e matches FanConnectError::Write { reg: r2, value: v2, .. } && r2 == reg && v2
                    == value),
            },
    {
        let r = match self.bus.write(reg, value) {
            Ok(()) => Ok(()),
            Err(cause) => Err(
                FanConnectError::Write { reg, value, location: self.location.clone(), cause },
            ),
        };
        proof {
            assert forall|i: int| 0 <= i < self.accesses().len() implies access_allowed(
                #[trigger] self.accesses()[i],
            ) by {
                if i < old(self).accesses().len() {
                    assert(old(self).accesses()[i] == self.accesses()[i]);
                }
            }
        }
        r
    }

    /// The controller behind `transport`, not yet identified, at the place the transport was
    /// found: its description, the PCI bus of its card, and the card. No register is touched.
    pub fn new(transport: Box<dyn Transport>, location: String, pci_bus: u32, card: SupportedCard) -> (fc:
        FanConnect)
        ensures
            fc.wf(),
            fc.accesses() == Seq::<Access>::empty(),
            fc.identity() == (location@, pci_bus, card),
    {
        FanConnect { bus: LoggedBus::new(transport), location, pci_bus, card }
    }

    /// Checks the registers that identify the controller before anything is written: reads
    /// both fan status registers and the mode, in that order, stopping at the first failed
    /// read. Nothing is written. Succeeds exactly when all three reads succeed and give
    /// 0x01, 0x01 and the card's auto mode or host mode.
    pub fn identify(&mut self) -> (r: Result<(), FanConnectError>)
        requires
            old(self).wf(),
        ensures
            final(self).wf(),
            final(self).identity() == old(self).identity(),
            continues(old(self).accesses(), final(self).accesses()),
            reads_in_order(identify_regs(), since(old(self).accesses(), final(self).accesses())),
            r is Ok <==> identified(since(old(self).accesses(), final(self).accesses())),
            r is Ok ==> {
                let got = since(old(self).accesses(), final(self).accesses());
                value_read(got, 0) == 0x01u8 && value_read(got, 1) == 0x01u8 && (value_read(got, 2)
                    == 0x00u8 || value_read(got, 2) == 0x02u8)
            },
            r matches Err(e) ==> error_location(e) == final(self).identity().0,
            r matches Err(FanConnectError::Read { reg, .. }) ==> since(
                old(self).accesses(),
                final(self).accesses(),
            ).last() == Access::ReadFailed(reg),
            r matches Err(FanConnectError::NotFanConnect { status1, status2, mode, .. }) ==> {
                let got = since(old(self).accesses(), final(self).accesses());
                read_all(identify_regs(), got) && status1 == value_read(got, 0) && status2
                    == value_read(got, 1) && mode == value_read(got, 2)
            },
            !(r matches Err(FanConnectError::Write { .. })),
    {
        let ghost start = self.accesses();
        let ghost regs = identify_regs();
        let s1 = match self.read_reg(REG_FAN1_STATUS) {
            Ok(v) => v,
            Err(e) => {
                proof {
                    let got = since(start, self.accesses());
                    assert(got =~= seq![Access::ReadFailed(REG_FAN1_STATUS)]);
                    assert(self.accesses().take(start.len() as int) =~= start);
                    assert(!read_of(got, 0, regs[0]));
                }
                return Err(e);
            },
        };
        let s2 = match self.read_reg(REG_FAN2_STATUS) {
            Ok(v) => v,
            Err(e) => {
                proof {
                    let got = since(start, self.accesses());
                    assert(got =~= seq![
                        Access::Read(REG_FAN1_STATUS, s1),
                        Access::ReadFailed(REG_FAN2_STATUS),
                    ]);
                    assert(self.accesses().take(start.len() as int) =~= start);
                    assert(read_of(got, 0, regs[0]));
                    assert(!read_of(got, 1, regs[1]));
                }
                return Err(e);
            },
        };
        let mode = match self.read_reg(REG_MODE) {
            Ok(v) => v,
            Err(e) => {
                proof {
                    let got = since(start, self.accesses());
                    assert(got =~= seq![
                        Access::Read(REG_FAN1_STATUS, s1),
                        Access::Read(REG_FAN2_STATUS, s2),
                        Access::ReadFailed(REG_MODE),
                    ]);
                    assert(self.accesses().take(start.len() as int) =~= start);
                    assert(read_of(got, 0, regs[0]));
                    assert(read_of(got, 1, regs[1]));
                    assert(!read_of(got, 2, regs[2]));
                }
                return Err(e);
            },
        };
        proof {
            let got = since(start, self.accesses());
            assert(got =~= seq![
                Access::Read(REG_FAN1_STATUS, s1),
                Access::Read(REG_FAN2_STATUS, s2),
                Access::Read(REG_MODE, mode),
            ]);
            assert(self.accesses().take(start.len() as int) =~= start);
            assert(read_of(got, 0, regs[0]));
            assert(read_of(got, 1, regs[1]));
            assert(read_of(got, 2, regs[2]));
            assert(read_all(regs, got));
            assert(value_read(got, 0) == s1 && value_read(got, 1) == s2 && value_read(got, 2)
                == mode);
        }
        if s1 != 0x01 || s2 != 0x01 || !(mode == MODE_AUTO || mode == MODE_HOST) {
            return Err(
                FanConnectError::NotFanConnect {
                    status1: s1,
                    status2: s2,
                    mode,
                    location: self.location.clone(),
                },
            );
        }
        Ok(())
    }

    /// Makes the controller behind `transport` at the given place (see `new`) and identifies it
    /// with `identify`, whose contract gives the transfers on every outcome. On success the controller has made exactly the
    /// three identifying reads and they identified it. A refusal carries values that do not fit,
    /// a read error names one of the three registers, and no write is ever attempted.
    pub fn open(transport: Box<dyn Transport>, location: String, pci_bus: u32, card: SupportedCard) -> (r:
        Result<FanConnect, FanConnectError>)
        ensures
            r matches Ok(fc) ==> fc.wf() && identified(fc.accesses()) && fc.identity() == (
                location@,
                pci_bus,
                card,
            ),
            r matches Err(e) ==> error_location(e) == location@,
            r matches Err(FanConnectError::NotFanConnect { status1, status2, mode, .. })
                ==> !looks_like_fanconnect(status1, status2, mode),
            r matches Err(FanConnectError::Read { reg, .. }) ==> identify_regs().contains(reg),
            !(r matches Err(FanConnectError::Write { .. })),
    {
        let mut fc = FanConnect::new(transport, location, pci_bus, card);
        match fc.identify() {
            Ok(()) => {
                assert(since(Seq::<Access>::empty(), fc.accesses()) =~= fc.accesses());
                Ok(fc)
            },
            Err(e) => {
                proof {
                    let got = since(Seq::<Access>::empty(), fc.accesses());
                    if let FanConnectError::Read { reg, .. } = e {
                        let k = got.len() - 1;
                        if got.last() != Access::ReadFailed(identify_regs()[k]) {
                            assert(read_of(got, k, identify_regs()[k]));
                        }
                        assert(identify_regs()[k] == reg);
                    }
                }
                Err(e)
            },
        }
    }

    /// Where the controller is, for messages (e.g. "i2c-4, GPU 0000:0a:00.0").
    pub fn describe(&self) -> (r: String)
        ensures
            r@ == self.identity().0,
    {
        self.location.clone()
    }

    /// PCI bus of the card, so the GPU temperature is read from the same card.
    pub fn pci_bus(&self) -> (r: u32)
        ensures
            r == self.identity().1,
    {
        self.pci_bus
    }

    /// The supported card the controller was found on.
    pub fn card(&self) -> (r: SupportedCard)
        ensures
            r == self.identity().2,
    {
        self.card
    }

    /// Reads mode, duty and both tachometers, in that order, stopping at the first failed read.
    /// Nothing is written. Succeeds exactly when all four reads succeed; the fan speeds are the
    /// tachometer values times 30 RPM.
    pub fn status(&mut self) -> (r: Result<Status, FanConnectError>)
        requires
            old(self).wf(),
        ensures
            final(self).wf(),
            final(self).identity() == old(self).identity(),
            continues(old(self).accesses(), final(self).accesses()),
            reads_in_order(status_regs(), since(old(self).accesses(), final(self).accesses())),
            r is Ok <==> read_all(status_regs(), since(old(self).accesses(), final(self).accesses())),
            r matches Ok(s) ==> {
                let got = since(old(self).accesses(), final(self).accesses());
                s == status_from(
                    value_read(got, 0),
                    value_read(got, 1),
                    value_read(got, 2),
                    value_read(got, 3),
                )
            },
            r matches Err(e) ==> error_location(e) == final(self).identity().0 && (e matches FanConnectError::Read { reg, .. }
                && since(old(self).accesses(), final(self).accesses()).last() == Access::ReadFailed(
                reg,
            )),
    {
        let ghost start = self.accesses();
        let ghost regs = status_regs();
        let mode = match self.read_reg(REG_MODE) {
            Ok(v) => v,
            Err(e) => {
                proof {
                    let got = since(start, self.accesses());
                    assert(got =~= seq![Access::ReadFailed(REG_MODE)]);
                    assert(self.accesses().take(start.len() as int) =~= start);
                    assert(!read_of(got, 0, regs[0]));
                }
                return Err(e);
            },
        };
        let duty = match self.read_reg(REG_DUTY) {
            Ok(v) => v,
            Err(e) => {
                proof {
                    let got = since(start, self.accesses());
                    assert(got =~= seq![Access::Read(REG_MODE, mode), Access::ReadFailed(REG_DUTY)]);
                    assert(self.accesses().take(start.len() as int) =~= start);
                    assert(read_of(got, 0, regs[0]));
                    assert(!read_of(got, 1, regs[1]));
                }
                return Err(e);
            },
        };
        let tach1 = match self.read_reg(REG_FAN1_TACH) {
            Ok(v) => v,
            Err(e) => {
                proof {
                    let got = since(start, self.accesses());
                    assert(got =~= seq![
                        Access::Read(REG_MODE, mode),
                        Access::Read(REG_DUTY, duty),
                        Access::ReadFailed(REG_FAN1_TACH),
                    ]);
                    assert(self.accesses().take(start.len() as int) =~= start);
                    assert(read_of(got, 0, regs[0]));
                    assert(read_of(got, 1, regs[1]));
                    assert(!read_of(got, 2, regs[2]));
                }
                return Err(e);
            },
        };
        let tach2 = match self.read_reg(REG_FAN2_TACH) {
            Ok(v) => v,
            Err(e) => {
                proof {
                    let got = since(start, self.accesses());
                    assert(got =~= seq![
                        Access::Read(REG_MODE, mode),
                        Access::Read(REG_DUTY, duty),
                        Access::Read(REG_FAN1_TACH, tach1),
                        Access::ReadFailed(REG_FAN2_TACH),
                    ]);
                    assert(self.accesses().take(start.len() as int) =~= start);
                    assert(read_of(got, 0, regs[0]));
                    assert(read_of(got, 1, regs[1]));
                    assert(read_of(got, 2, regs[2]));
                    assert(!read_of(got, 3, regs[3]));
                }
                return Err(e);
            },
        };
        let s = Status {
            mode,
            duty_reg: duty,
            fan1_rpm: tach1 as u32 * RPM_PER_TACH_UNIT,
            fan2_rpm: tach2 as u32 * RPM_PER_TACH_UNIT,
        };
        proof {
            let got = since(start, self.accesses());
            assert(got =~= seq![
                Access::Read(REG_MODE, mode),
                Access::Read(REG_DUTY, duty),
                Access::Read(REG_FAN1_TACH, tach1),
                Access::Read(REG_FAN2_TACH, tach2),
            ]);
            assert(self.accesses().take(start.len() as int) =~= start);
            assert(read_of(got, 0, regs[0]));
            assert(read_of(got, 1, regs[1]));
            assert(read_of(got, 2, regs[2]));
            assert(read_of(got, 3, regs[3]));
            assert(s == status_from(mode, duty, tach1, tach2));
        }
        Ok(s)
    }

    /// Reads the mode register.
    pub fn mode(&mut self) -> (r: Result<u8, FanConnectError>)
        requires
            old(self).wf(),
        ensures
            final(self).wf(),
            final(self).identity() == old(self).identity(),
            r matches Err(e) ==> error_location(e) == final(self).identity().0,
            match r {
                Ok(v) => final(self).accesses() == old(self).accesses().push(Access::Read(REG_MODE, v)),
                Err(_) => final(self).accesses() == old(self).accesses().push(
                    Access::ReadFailed(REG_MODE),
                ),
            },
    {
        self.read_reg(REG_MODE)
    }

    /// Reads the duty register.
    pub fn duty_reg(&mut self) -> (r: Result<u8, FanConnectError>)
        requires
            old(self).wf(),
        ensures
            final(self).wf(),
            final(self).identity() == old(self).identity(),
            r matches Err(e) ==> error_location(e) == final(self).identity().0,
            match r {
                Ok(v) => final(self).accesses() == old(self).accesses().push(Access::Read(REG_DUTY, v)),
                Err(_) => final(self).accesses() == old(self).accesses().push(
                    Access::ReadFailed(REG_DUTY),
                ),
            },
    {
        self.read_reg(REG_DUTY)
    }

    /// Host control with both outputs enabled, the sequence GPU Tweak III uses. Stops at the
    /// first failed write.
    pub fn take_control(&mut self) -> (r: Result<(), FanConnectError>)
        requires
            old(self).wf(),
        ensures
            final(self).wf(),
            final(self).identity() == old(self).identity(),
            r matches Err(e) ==> error_location(e) == final(self).identity().0,
            r is Ok ==> final(self).accesses() == old(self).accesses() + writes_of(
                take_control_plan(),
                3,
                false,
            ),
            r is Err ==> exists|n: int|
                0 <= n < 3 && final(self).accesses() == old(self).accesses() + writes_of(
                    take_control_plan(),
                    n,
                    true,
                ),
    {
        let ghost start = self.accesses();
        let ghost plan = take_control_plan();
        if let Err(e) = self.write_reg(REG_MODE, MODE_HOST) {
            assert(self.accesses() =~= start + writes_of(plan, 0, true));
            return Err(e);
        }
        if let Err(e) = self.write_reg(REG_FAN1_ENABLE, 0x01) {
            assert(self.accesses() =~= start + writes_of(plan, 1, true));
            return Err(e);
        }
        if let Err(e) = self.write_reg(REG_FAN2_ENABLE, 0x01) {
            assert(self.accesses() =~= start + writes_of(plan, 2, true));
            return Err(e);
        }
        assert(self.accesses() =~= start + writes_of(plan, 3, false));
        Ok(())
    }

    /// Writes the duty register (0-255 for 0-100 %).
    pub fn set_duty_reg(&mut self, value: u8) -> (r: Result<(), FanConnectError>)
        requires
            old(self).wf(),
        ensures
            final(self).wf(),
            final(self).identity() == old(self).identity(),
            r matches Err(e) ==> error_location(e) == final(self).identity().0,
            match r {
                Ok(()) => final(self).accesses() == old(self).accesses().push(
                    Access::Write(REG_DUTY, value),
                ),
                Err(_) => final(self).accesses() == old(self).accesses().push(
                    Access::WriteFailed(REG_DUTY, value),
                ),
            },
    {
        self.write_reg(REG_DUTY, value)
    }

    /// Leaves the fans at the fail-safe duty: takes host control with both outputs on, then
    /// writes full duty. Stops at the first failed write.
    pub fn fail_safe(&mut self) -> (r: Result<(), FanConnectError>)
        requires
            old(self).wf(),
        ensures
            final(self).wf(),
            final(self).identity() == old(self).identity(),
            r matches Err(e) ==> error_location(e) == final(self).identity().0,
            r is Ok ==> final(self).accesses() == old(self).accesses() + writes_of(
                fail_safe_plan(),
                4,
                false,
            ),
            r is Err ==> exists|n: int|
                0 <= n < 4 && final(self).accesses() == old(self).accesses() + writes_of(
                    fail_safe_plan(),
                    n,
                    true,
                ),
    {
        let ghost start = self.accesses();
        let ghost plan = fail_safe_plan();
        if let Err(e) = self.write_reg(REG_MODE, MODE_HOST) {
            assert(self.accesses() =~= start + writes_of(plan, 0, true));
            return Err(e);
        }
        if let Err(e) = self.write_reg(REG_FAN1_ENABLE, 0x01) {
            assert(self.accesses() =~= start + writes_of(plan, 1, true));
            return Err(e);
        }
        if let Err(e) = self.write_reg(REG_FAN2_ENABLE, 0x01) {
            assert(self.accesses() =~= start + writes_of(plan, 2, true));
            return Err(e);
        }
        if let Err(e) = self.write_reg(REG_DUTY, DUTY_FULL) {
            assert(self.accesses() =~= start + writes_of(plan, 3, true));
            return Err(e);
        }
        assert(self.accesses() =~= start + writes_of(plan, 4, false));
        Ok(())
    }
}

/// The controller never writes the card's auto mode, nor any register but the mode, the duty
/// and the two output switches: every write it ever made is an allowed one.
pub proof fn only_allowed_writes(fc: FanConnect)
    requires
        fc.wf(),
    ensures
        forall|i: int|
            0 <= i < fc.accesses().len() ==> access_allowed(#[trigger] fc.accesses()[i]),
        forall|i: int|
            0 <= i < fc.accesses().len() ==> !(#[trigger] fc.accesses()[i] == Access::Write(
                REG_MODE,
                MODE_AUTO,
            )),
{
}

/// A device counts as the controller only when both fan status registers (0x45 and 0x49) read
/// 0x01 and the mode register (0x40) reads the card's auto mode 0x00 or host mode 0x02, read in
/// that order with every read succeeding; any other answer refuses it.
pub proof fn identified_only_on_controller_values(log: Seq<Access>)
    ensures
        identified(log) <==> (log.len() == 3 && log[0] == Access::Read(0x45u8, 0x01u8) && log[1]
            == Access::Read(0x49u8, 0x01u8) && (log[2] == Access::Read(0x40u8, 0x00u8) || log[2]
            == Access::Read(0x40u8, 0x02u8))),
{
    if identified(log) {
        assert(read_of(log, 0, identify_regs()[0]));
        assert(read_of(log, 1, identify_regs()[1]));
        assert(read_of(log, 2, identify_regs()[2]));
    }
    if log.len() == 3 && log[0] == Access::Read(0x45u8, 0x01u8) && log[1] == Access::Read(
        0x49u8,
        0x01u8,
    ) && (log[2] == Access::Read(0x40u8, 0x00u8) || log[2] == Access::Read(0x40u8, 0x02u8)) {
        assert forall|i: int| 0 <= i < log.len() implies #[trigger] read_of(
            log,
            i,
            identify_regs()[i],
        ) by {
            if i == 0 {
            } else if i == 1 {
            } else {
            }
        }
    }
}

} // verus!
