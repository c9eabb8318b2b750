use std::cell::RefCell;
use std::rc::Rc;

use gpu_fanctl::config::{Config, Curve};
use gpu_fanctl::daemon::{
    describe, gpu_retry_due, other_controller_running, status_warning, FailureCount, TempNote, TempReading, TempWatch,
    Writer, WriterNote, MAX_I2C_FAILURES,
};
use gpu_fanctl::fanconnect::{supported_cards, FanConnect, SupportedCard, Transport, TransportError, MODE_AUTO, MODE_HOST};

#[derive(Clone)]
struct FakeBus {
    regs: Rc<RefCell<[u8; 256]>>,
    log: Rc<RefCell<Vec<String>>>,
    broken: Rc<RefCell<Option<u8>>>,
}

impl FakeBus {
    fn new(mode: u8) -> FakeBus {
        let mut regs = [0u8; 256];
        regs[0x45] = 1;
        regs[0x49] = 1;
        regs[0x40] = mode;
        FakeBus { regs: Rc::new(RefCell::new(regs)), log: Rc::new(RefCell::new(Vec::new())), broken: Rc::new(RefCell::new(None)) }
    }
}

impl Transport for FakeBus {
    fn read(&self, reg: u8) -> Result<u8, TransportError> {
        if *self.broken.borrow() == Some(reg) {
            return Err(TransportError { message: "bus error".to_string() });
        }
        self.log.borrow_mut().push(format!("r{reg:02x}"));
        Ok(self.regs.borrow()[reg as usize])
    }

    fn write(&self, reg: u8, value: u8) -> Result<(), TransportError> {
        if *self.broken.borrow() == Some(reg) {
            return Err(TransportError { message: "bus error".to_string() });
        }
        self.log.borrow_mut().push(format!("w{reg:02x}={value:02x}"));
        self.regs.borrow_mut()[reg as usize] = value;
        Ok(())
    }

    fn describe(&self) -> String {
        "fake".to_string()
    }

    fn pci_bus(&self) -> u32 {
        1
    }

    fn card(&self) -> SupportedCard {
        supported_cards()[0]
    }
}

fn opened(bus: &FakeBus) -> FanConnect {
    match FanConnect::open(Box::new(bus.clone()), bus.describe(), bus.pci_bus(), bus.card()) {
        Ok(fc) => fc,
        Err(e) => panic!("{}", e.message()),
    }
}

#[test]
fn each_write_checks_the_mode_and_reads_the_duty_back() {
    let bus = FakeBus::new(MODE_HOST);
    let mut fc = opened(&bus);
    bus.log.borrow_mut().clear();
    let mut writer = Writer::new();
    let mut notes = Vec::new();
    writer.apply(&mut fc, 0x4D, 1_000, &mut notes).unwrap();
    assert_eq!(*bus.log.borrow(), vec!["r40", "r41", "w41=4d"]);
    assert!(notes.is_empty());
    assert_eq!(writer.last_written, Some(0x4D));
}

#[test]
fn control_is_taken_again_when_the_mode_changed() {
    let bus = FakeBus::new(MODE_HOST);
    let mut fc = opened(&bus);
    let mut writer = Writer::new();
    let mut notes = Vec::new();
    writer.apply(&mut fc, 0x80, 1_000, &mut notes).unwrap();
    bus.regs.borrow_mut()[0x40] = MODE_AUTO;
    bus.log.borrow_mut().clear();
    writer.apply(&mut fc, 0x80, 2_000, &mut notes).unwrap();
    assert_eq!(*bus.log.borrow(), vec!["r40", "w40=02", "w43=01", "w47=01", "r41", "w41=80"]);
    assert_eq!(notes, vec![WriterNote::RetakingControl { mode: MODE_AUTO }]);
}

#[test]
fn another_writer_is_noticed_and_logged_once_a_minute() {
    let bus = FakeBus::new(MODE_HOST);
    let mut fc = opened(&bus);
    let mut writer = Writer::new();
    let mut notes = Vec::new();
    writer.apply(&mut fc, 0x80, 0, &mut notes).unwrap();
    bus.regs.borrow_mut()[0x41] = 0xFF;
    writer.apply(&mut fc, 0x80, 1_000, &mut notes).unwrap();
    assert_eq!(notes, vec![WriterNote::OtherWriter { current: 0xFF, last: 0x80 }]);
    assert_eq!(writer.other_writer_seen, Some(1_000));
    bus.regs.borrow_mut()[0x41] = 0xFF;
    writer.apply(&mut fc, 0x80, 30_000, &mut notes).unwrap();
    assert_eq!(notes.len(), 1, "not repeated within a minute");
    assert_eq!(writer.other_writer_seen, Some(30_000));
    bus.regs.borrow_mut()[0x41] = 0xFF;
    writer.apply(&mut fc, 0x80, 61_000, &mut notes).unwrap();
    assert_eq!(notes.len(), 2, "repeated after a minute");
    assert_eq!(
        writer.warning(62_000, None),
        Some("Another program is also setting the fan duty".to_string())
    );
    assert_eq!(
        writer.warning(62_000, other_controller_running(true)),
        Some("GPU Tweak III's external fan service (ASUSGPUFanServiceEx.exe) is also setting the fan duty".to_string())
    );
    assert_eq!(writer.warning(61_000 + 60_000, None), None);
}

#[test]
fn a_failed_write_keeps_the_last_written_value() {
    let bus = FakeBus::new(MODE_HOST);
    let mut fc = opened(&bus);
    let mut writer = Writer::new();
    let mut notes = Vec::new();
    writer.apply(&mut fc, 0x80, 0, &mut notes).unwrap();
    *bus.broken.borrow_mut() = Some(0x41);
    assert!(writer.apply(&mut fc, 0x90, 1_000, &mut notes).is_err());
    assert_eq!(writer.last_written, Some(0x80));
}

#[test]
fn gives_up_after_ten_failures_in_a_row() {
    let mut count = FailureCount::new();
    for _ in 0..9 {
        assert!(!count.record(false));
    }
    assert!(!count.record(true), "a success resets the count");
    assert_eq!(count.failures, 0);
    for _ in 0..(MAX_I2C_FAILURES - 1) {
        assert!(!count.record(false));
    }
    assert!(count.record(false));
    assert_eq!(count.failures, 10);
}

#[test]
fn temperature_changes_are_reported_once() {
    let mut watch = TempWatch::new();
    assert_eq!(watch.observe(TempReading::Read), None);
    assert_eq!(watch.observe(TempReading::Failed), Some(TempNote::Unreadable));
    assert_eq!(watch.observe(TempReading::NoGpu), None);
    assert_eq!(watch.observe(TempReading::Failed), None);
    assert_eq!(watch.observe(TempReading::Read), Some(TempNote::ReadableAgain));
    assert_eq!(watch.observe(TempReading::Read), None);
    assert_eq!(watch.observe(TempReading::NoGpu), None);
    assert_eq!(watch.observe(TempReading::Read), Some(TempNote::ReadableAgain));
}

#[test]
fn nvml_is_retried_every_five_seconds() {
    assert!(!gpu_retry_due(true, 10_000));
    assert!(!gpu_retry_due(false, 4_999));
    assert!(gpu_retry_due(false, 5_000));
}

#[test]
fn status_warning_prefers_the_unreadable_temperature() {
    assert_eq!(
        status_warning(false, Some("x".to_string())),
        Some("GPU temperature unreadable, fans at the fail-safe 100 %".to_string())
    );
    assert_eq!(status_warning(true, Some("x".to_string())), Some("x".to_string()));
    assert_eq!(status_warning(true, None), None);
}

#[test]
fn settings_are_described_for_the_log() {
    assert_eq!(describe(&Config::default()), "Auto curve, max temp 80 °C");
    let config = Config { max_temp: 85, curve: Curve::Custom(vec![(40, 30), (60, 50), (80, 100)]), remembered_custom: None };
    assert_eq!(describe(&config), "custom curve 40:30, 60:50, 80:100, max temp 85 °C");
}

#[test]
fn only_gpu_tweak_fan_service_is_known() {
    assert_eq!(
        other_controller_running(true),
        Some("GPU Tweak III's external fan service (ASUSGPUFanServiceEx.exe)")
    );
    assert_eq!(other_controller_running(false), None);
}

#[test]
fn a_write_cycle_that_fails_while_retaking_control_keeps_its_note() {
    let bus = FakeBus::new(MODE_AUTO);
    let mut fc = opened(&bus);
    bus.log.borrow_mut().clear();
    *bus.broken.borrow_mut() = Some(0x43);
    let mut writer = Writer::new();
    let mut notes = Vec::new();
    assert!(writer.apply(&mut fc, 0x80, 1_000, &mut notes).is_err());
    assert_eq!(*bus.log.borrow(), vec!["r40", "w40=02"]);
    assert_eq!(notes, vec![WriterNote::RetakingControl { mode: MODE_AUTO }]);
    assert_eq!(writer.last_written, None);
}
