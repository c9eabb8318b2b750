use std::cell::RefCell;
use std::rc::Rc;

use gpu_fanctl::fanconnect::{
    format_pci_ids, supported_card, supported_cards, FanConnect, FanConnectError, SupportedCard, Transport,
    TransportError, DUTY_FULL, MODE_AUTO, MODE_HOST,
};

/// A FanConnect II on a simulated bus: 256 registers, every transfer logged.
#[derive(Clone)]
struct FakeBus {
    regs: Rc<RefCell<[u8; 256]>>,
    log: Rc<RefCell<Vec<String>>>,
    broken: Rc<RefCell<Option<u8>>>,
}

impl FakeBus {
    fn new(status1: u8, status2: u8, mode: u8) -> FakeBus {
        let mut regs = [0u8; 256];
        regs[0x45] = status1;
        regs[0x49] = status2;
        regs[0x40] = mode;
        regs[0x41] = 0x80;
        regs[0x44] = 33;
        regs[0x48] = 34;
        FakeBus { regs: Rc::new(RefCell::new(regs)), log: Rc::new(RefCell::new(Vec::new())), broken: Rc::new(RefCell::new(None)) }
    }
}

impl Transport for FakeBus {
    fn read(&self, reg: u8) -> Result<u8, TransportError> {
        if *self.broken.borrow() == Some(reg) {
            return Err(TransportError { message: "bus error".to_string() });
        }
        self.log.borrow_mut().push(format!("r{reg:02x}"));
        Ok(self.regs.borrow()[reg as usize])
    }

    fn write(&self, reg: u8, value: u8) -> Result<(), TransportError> {
        if *self.broken.borrow() == Some(reg) {
            return Err(TransportError { message: "bus error".to_string() });
        }
        self.log.borrow_mut().push(format!("w{reg:02x}={value:02x}"));
        self.regs.borrow_mut()[reg as usize] = value;
        Ok(())
    }

    fn describe(&self) -> String {
        "i2c-4, GPU 0000:0a:00.0".to_string()
    }

    fn pci_bus(&self) -> u32 {
        10
    }

    fn card(&self) -> SupportedCard {
        supported_cards()[0]
    }
}

fn opened(bus: &FakeBus) -> FanConnect {
    match FanConnect::open(Box::new(bus.clone()), bus.describe(), bus.pci_bus(), bus.card()) {
        Ok(fc) => fc,
        Err(e) => panic!("{}", e.message()),
    }
}

#[test]
fn supported_cards_are_looked_up_by_both_ids() {
    assert_eq!(supported_card(0x1E07_10DE, 0x866A_1043).map(|c| c.name), Some("ASUS ROG Strix GeForce RTX 2080 Ti"));
    // Same GPU from another board maker, or another ASUS model: not supported.
    assert_eq!(supported_card(0x1E07_10DE, 0x1234_1462), None);
    assert_eq!(supported_card(0x1E04_10DE, 0x866A_1043), None);
}

#[test]
fn pci_ids_are_formatted_vendor_first() {
    assert_eq!(format_pci_ids(0x1E07_10DE, 0x866A_1043), "10de:1e07, subsystem 1043:866a");
}

#[test]
fn pci_ids_keep_leading_zeros() {
    assert_eq!(format_pci_ids(0x0001_0002, 0), "0002:0001, subsystem 0000:0000");
}

#[test]
fn open_identifies_without_writing() {
    for mode in [MODE_AUTO, MODE_HOST] {
        let bus = FakeBus::new(1, 1, mode);
        let fc = opened(&bus);
        assert_eq!(*bus.log.borrow(), vec!["r45", "r49", "r40"]);
        assert_eq!(fc.describe(), "i2c-4, GPU 0000:0a:00.0");
        assert_eq!(fc.pci_bus(), 10);
        assert_eq!(fc.card().name, "ASUS ROG Strix GeForce RTX 2080 Ti");
    }
}

#[test]
fn open_refuses_another_chip() {
    let bus = FakeBus::new(1, 0, MODE_AUTO);
    match FanConnect::open(Box::new(bus.clone()), bus.describe(), bus.pci_bus(), bus.card()) {
        Err(e @ FanConnectError::NotFanConnect { .. }) => assert_eq!(
            e.message(),
            "device 0x2A (i2c-4, GPU 0000:0a:00.0) does not look like FanConnect II (status 0x01/0x00, mode 0x00; expected 0x01/0x01 and mode 0x00 or 0x02)"
        ),
        _ => panic!("expected NotFanConnect"),
    }
    let bus = FakeBus::new(1, 1, 0x05);
    assert!(matches!(FanConnect::open(Box::new(bus.clone()), bus.describe(), bus.pci_bus(), bus.card()), Err(FanConnectError::NotFanConnect { mode: 0x05, .. })));
    assert!(bus.log.borrow().iter().all(|a| a.starts_with('r')));
}

#[test]
fn open_reports_a_failed_read() {
    let bus = FakeBus::new(1, 1, MODE_AUTO);
    *bus.broken.borrow_mut() = Some(0x49);
    match FanConnect::open(Box::new(bus.clone()), bus.describe(), bus.pci_bus(), bus.card()) {
        Err(e @ FanConnectError::Read { reg: 0x49, .. }) => {
            assert_eq!(e.message(), "reading register 0x49 (i2c-4, GPU 0000:0a:00.0): bus error")
        }
        _ => panic!("expected a read error"),
    }
}

#[test]
fn status_reads_mode_duty_and_tachometers() {
    let bus = FakeBus::new(1, 1, MODE_HOST);
    let mut fc = opened(&bus);
    bus.log.borrow_mut().clear();
    let s = fc.status().unwrap();
    assert_eq!((s.mode, s.duty_reg, s.fan1_rpm, s.fan2_rpm), (MODE_HOST, 0x80, 990, 1020));
    assert_eq!(*bus.log.borrow(), vec!["r40", "r41", "r44", "r48"]);
}

#[test]
fn take_control_writes_host_mode_and_enables_both_outputs() {
    let bus = FakeBus::new(1, 1, MODE_AUTO);
    let mut fc = opened(&bus);
    bus.log.borrow_mut().clear();
    fc.take_control().unwrap();
    assert_eq!(*bus.log.borrow(), vec!["w40=02", "w43=01", "w47=01"]);
    assert_eq!(fc.mode().unwrap(), MODE_HOST);
}

#[test]
fn take_control_stops_at_the_first_failed_write() {
    let bus = FakeBus::new(1, 1, MODE_AUTO);
    let mut fc = opened(&bus);
    bus.log.borrow_mut().clear();
    *bus.broken.borrow_mut() = Some(0x43);
    match fc.take_control() {
        Err(e @ FanConnectError::Write { reg: 0x43, value: 0x01, .. }) => {
            assert_eq!(e.message(), "writing register 0x43=0x01 (i2c-4, GPU 0000:0a:00.0): bus error")
        }
        _ => panic!("expected a write error"),
    }
    assert_eq!(*bus.log.borrow(), vec!["w40=02"]);
}

#[test]
fn duty_register_is_written_and_read_back() {
    let bus = FakeBus::new(1, 1, MODE_HOST);
    let mut fc = opened(&bus);
    fc.set_duty_reg(0x4D).unwrap();
    assert_eq!(fc.duty_reg().unwrap(), 0x4D);
    assert_eq!(bus.regs.borrow()[0x41], 0x4D);
}

#[test]
fn new_touches_no_register() {
    let bus = FakeBus::new(1, 1, MODE_AUTO);
    let fc = FanConnect::new(Box::new(bus.clone()), bus.describe(), bus.pci_bus(), bus.card());
    assert!(bus.log.borrow().is_empty());
    assert_eq!(fc.describe(), "i2c-4, GPU 0000:0a:00.0");
    assert_eq!(fc.pci_bus(), 10);
    assert_eq!(fc.card().name, "ASUS ROG Strix GeForce RTX 2080 Ti");
}

#[test]
fn identify_reads_both_status_registers_then_the_mode() {
    let bus = FakeBus::new(1, 1, MODE_HOST);
    let mut fc = FanConnect::new(Box::new(bus.clone()), bus.describe(), bus.pci_bus(), bus.card());
    assert!(fc.identify().is_ok());
    assert_eq!(*bus.log.borrow(), vec!["r45", "r49", "r40"]);
}

#[test]
fn identify_stops_at_the_first_failed_read_and_writes_nothing() {
    let bus = FakeBus::new(1, 1, MODE_AUTO);
    *bus.broken.borrow_mut() = Some(0x45);
    let mut fc = FanConnect::new(Box::new(bus.clone()), bus.describe(), bus.pci_bus(), bus.card());
    assert!(matches!(fc.identify(), Err(FanConnectError::Read { reg: 0x45, .. })));
    assert!(bus.log.borrow().is_empty());
    let bus = FakeBus::new(1, 1, 0x05);
    let mut fc = FanConnect::new(Box::new(bus.clone()), bus.describe(), bus.pci_bus(), bus.card());
    assert!(matches!(
        fc.identify(),
        Err(FanConnectError::NotFanConnect { status1: 1, status2: 1, mode: 0x05, .. })
    ));
    assert_eq!(*bus.log.borrow(), vec!["r45", "r49", "r40"]);
}

#[test]
fn status_fails_when_a_tachometer_read_fails() {
    let bus = FakeBus::new(1, 1, MODE_HOST);
    let mut fc = opened(&bus);
    bus.log.borrow_mut().clear();
    *bus.broken.borrow_mut() = Some(0x44);
    assert!(matches!(fc.status(), Err(FanConnectError::Read { reg: 0x44, .. })));
    assert_eq!(*bus.log.borrow(), vec!["r40", "r41"]);
}

#[test]
fn status_converts_tachometer_units_to_rpm() {
    let bus = FakeBus::new(1, 1, MODE_HOST);
    bus.regs.borrow_mut()[0x44] = 0x19;
    bus.regs.borrow_mut()[0x48] = 0x48;
    let mut fc = opened(&bus);
    let s = fc.status().unwrap();
    assert_eq!((s.fan1_rpm, s.fan2_rpm), (750, 2160));
}

#[test]
fn fail_safe_takes_control_then_writes_full_duty() {
    let bus = FakeBus::new(1, 1, MODE_AUTO);
    let mut fc = opened(&bus);
    bus.log.borrow_mut().clear();
    fc.fail_safe().unwrap();
    assert_eq!(*bus.log.borrow(), vec!["w40=02", "w43=01", "w47=01", "w41=ff"]);
    assert_eq!(bus.regs.borrow()[0x41], DUTY_FULL);
}

#[test]
fn fail_safe_stops_at_the_first_failed_write() {
    let bus = FakeBus::new(1, 1, MODE_AUTO);
    let mut fc = opened(&bus);
    bus.log.borrow_mut().clear();
    *bus.broken.borrow_mut() = Some(0x47);
    assert!(matches!(fc.fail_safe(), Err(FanConnectError::Write { reg: 0x47, value: 0x01, .. })));
    assert_eq!(*bus.log.borrow(), vec!["w40=02", "w43=01"]);
}
