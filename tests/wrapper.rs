use opentitanlib_app::builder::TransportWrapperBuilder;
use opentitanlib_app::config::{merge_field, FieldConflict, PinConfiguration, PinMode, PullMode, SpiConfiguration};
use opentitanlib_app::error::{InterfaceKind, TransportError};
use opentitanlib_app::file::{ConfigurationFile, PinEntry, SpiEntry, StrappingEntry, UartEntry};
use opentitanlib_app::pin::GpioPin;
use opentitanlib_app::transport::{Op, RecordingTransport};
use opentitanlib_app::wrapper::TransportWrapper;

fn pin(name: &str, alias_of: Option<&str>, mode: Option<PinMode>, level: Option<bool>, pull_mode: Option<PullMode>) -> PinEntry {
    PinEntry {
        name: name.to_string(),
        alias_of: alias_of.map(|a| a.to_string()),
        mode,
        level,
        pull_mode,
    }
}

fn file(pins: Vec<PinEntry>, strappings: Vec<StrappingEntry>, spi: Vec<SpiEntry>, uarts: Vec<UartEntry>) -> ConfigurationFile {
    ConfigurationFile { pins, strappings, spi, uarts }
}

fn build(files: Vec<ConfigurationFile>, transport: RecordingTransport) -> Result<TransportWrapper<RecordingTransport>, TransportError> {
    let mut b = TransportWrapperBuilder::new(transport);
    for f in files {
        b.add_configuration_file(f).unwrap();
    }
    b.build()
}

fn hardware_name(p: &GpioPin) -> String {
    match p {
        GpioPin::Hardware(n) => n.clone(),
        GpioPin::Null(_) => panic!("expected a backend pin"),
    }
}

fn set_pin_ops(w: &TransportWrapper<RecordingTransport>) -> Vec<(String, PinConfiguration)> {
    w.backend_ref()
        .ops()
        .iter()
        .filter_map(|o| match o {
            Op::SetPin(n, c) => Some((n.clone(), *c)),
            _ => None,
        })
        .collect()
}

fn same_conf(a: &PinConfiguration, b: &PinConfiguration) -> bool {
    a.mode == b.mode && a.level == b.level && a.pull_mode == b.pull_mode
}

#[test]
fn alias_chain_resolves_to_end() {
    let mut w = build(
        vec![file(
            vec![pin("A", Some("B"), None, None, None), pin("B", Some("C"), None, None, None)],
            vec![],
            vec![],
            vec![],
        )],
        RecordingTransport::new(),
    )
    .unwrap();
    assert_eq!(hardware_name(&w.gpio_pin("A").unwrap()), "C");
    assert_eq!(hardware_name(&w.gpio_pin("a").unwrap()), "C");
    assert_eq!(hardware_name(&w.gpio_pin("B").unwrap()), "C");
    assert_eq!(hardware_name(&w.gpio_pin("C").unwrap()), "C");
}

#[test]
fn unaliased_name_resolves_to_uppercase() {
    let mut w = build(vec![], RecordingTransport::new()).unwrap();
    assert_eq!(hardware_name(&w.gpio_pin("ioa0").unwrap()), "IOA0");
    assert_eq!(w.spi("spi0").unwrap(), "SPI0");
    assert_eq!(w.i2c("bus1").unwrap(), "BUS1");
    assert_eq!(w.uart("console").unwrap(), "CONSOLE");
}

#[test]
fn self_alias_is_canonical() {
    let mut w = build(vec![file(vec![pin("ioa1", Some("ioa1"), None, None, None)], vec![], vec![], vec![])], RecordingTransport::new()).unwrap();
    assert_eq!(hardware_name(&w.gpio_pin("IOA1").unwrap()), "IOA1");
}

#[test]
fn alias_cycle_is_reported() {
    let mut w = build(
        vec![file(
            vec![pin("A", Some("B"), None, None, None), pin("B", Some("A"), None, None, None)],
            vec![],
            vec![],
            vec![],
        )],
        RecordingTransport::new(),
    )
    .unwrap();
    match w.gpio_pin("a") {
        Err(TransportError::AliasCycle(InterfaceKind::Gpio, n)) => assert_eq!(n, "A"),
        _ => panic!("expected an alias cycle"),
    }
}

#[test]
fn alias_cycle_fails_build_of_declared_pin() {
    let r = build(
        vec![file(
            vec![pin("X", Some("Y"), Some(PinMode::Input), None, None), pin("Y", Some("X"), None, None, None)],
            vec![],
            vec![],
            vec![],
        )],
        RecordingTransport::new(),
    );
    assert!(matches!(r, Err(TransportError::AliasCycle(InterfaceKind::Gpio, _))));
}

#[test]
fn conflicting_modes_fail_build() {
    let r = build(
        vec![
            file(vec![pin("IOA0", None, Some(PinMode::PushPull), None, None)], vec![], vec![], vec![]),
            file(vec![pin("IOA0", None, Some(PinMode::OpenDrain), None, None)], vec![], vec![], vec![]),
        ],
        RecordingTransport::new(),
    );
    match r {
        Err(TransportError::InconsistentConf(InterfaceKind::Gpio, name, FieldConflict::Mode(a, b))) => {
            assert_eq!(name, "IOA0");
            assert_eq!(a, PinMode::PushPull);
            assert_eq!(b, PinMode::OpenDrain);
        }
        _ => panic!("expected a mode conflict"),
    }
}

#[test]
fn conflict_through_alias_names_canonical_pin() {
    let r = build(
        vec![file(
            vec![
                pin("RESET_N", Some("IOR8"), None, Some(true), None),
                pin("ior8", None, None, Some(false), None),
            ],
            vec![],
            vec![],
            vec![],
        )],
        RecordingTransport::new(),
    );
    match r {
        Err(TransportError::InconsistentConf(InterfaceKind::Gpio, name, FieldConflict::Level(true, false))) => assert_eq!(name, "IOR8"),
        _ => panic!("expected a level conflict"),
    }
}

#[test]
fn complementary_fields_merge() {
    let mut w = build(
        vec![
            file(vec![pin("IOA0", None, Some(PinMode::PushPull), None, None)], vec![], vec![], vec![]),
            file(vec![pin("ioa0", None, None, None, Some(PullMode::PullUp))], vec![], vec![], vec![]),
        ],
        RecordingTransport::new(),
    )
    .unwrap();
    w.apply_default_configuration().unwrap();
    let ops = set_pin_ops(&w);
    assert_eq!(ops.len(), 1);
    assert_eq!(ops[0].0, "IOA0");
    assert_eq!(ops[0].1.mode, Some(PinMode::PushPull));
    assert_eq!(ops[0].1.pull_mode, Some(PullMode::PullUp));
    assert_eq!(ops[0].1.level, None);
}

#[test]
fn merge_order_does_not_change_result() {
    let a = pin("P", None, Some(PinMode::Input), None, None);
    let b = pin("P", None, None, Some(true), None);
    let c = pin("P", None, None, None, Some(PullMode::WeakPullDown));
    let mut w1 = build(vec![file(vec![a.clone(), b.clone(), c.clone()], vec![], vec![], vec![])], RecordingTransport::new()).unwrap();
    let mut w2 = build(vec![file(vec![c, a, b], vec![], vec![], vec![])], RecordingTransport::new()).unwrap();
    w1.apply_default_configuration().unwrap();
    w2.apply_default_configuration().unwrap();
    let o1 = set_pin_ops(&w1);
    let o2 = set_pin_ops(&w2);
    assert_eq!(o1.len(), 1);
    assert_eq!(o2.len(), 1);
    assert!(same_conf(&o1[0].1, &o2[0].1));
}

#[test]
fn empty_declarations_create_no_entry() {
    let mut w = build(vec![file(vec![pin("IOB1", Some("IOB2"), None, None, None)], vec![], vec![], vec![])], RecordingTransport::new()).unwrap();
    w.apply_default_configuration().unwrap();
    assert_eq!(w.backend_ref().ops().len(), 0);
}

fn strapped_wrapper(transport: RecordingTransport) -> TransportWrapper<RecordingTransport> {
    build(
        vec![file(
            vec![
                pin("RESET_N", Some("IOR8"), Some(PinMode::OpenDrain), Some(true), None),
                pin("IOB0", None, Some(PinMode::Input), None, None),
            ],
            vec![StrappingEntry {
                name: "reset".to_string(),
                pins: vec![
                    pin("reset_n", None, None, Some(false), None),
                    pin("IOC5", None, None, Some(true), None),
                ],
            }],
            vec![],
            vec![UartEntry { name: "console".to_string(), alias_of: Some("uart0".to_string()) }],
        )],
        transport,
    )
    .unwrap()
}

#[test]
fn strapping_then_removal_restores_defaults() {
    let mut w = strapped_wrapper(RecordingTransport::new());
    w.apply_pin_strapping("RESET").unwrap();
    let ops = set_pin_ops(&w);
    assert_eq!(ops.len(), 2);
    assert_eq!(ops[0].0, "IOR8");
    assert_eq!(ops[0].1.level, Some(false));
    assert_eq!(ops[0].1.mode, None);
    assert_eq!(ops[1].0, "IOC5");
    w.remove_pin_strapping("RESET").unwrap();
    let ops = set_pin_ops(&w);
    assert_eq!(ops.len(), 3);
    assert_eq!(ops[2].0, "IOR8");
    assert_eq!(ops[2].1.level, Some(true));
    assert_eq!(ops[2].1.mode, Some(PinMode::OpenDrain));
}

#[test]
fn strapping_name_is_case_insensitive() {
    let mut w = strapped_wrapper(RecordingTransport::new());
    w.apply_pin_strapping("reset").unwrap();
    assert_eq!(w.backend_ref().ops().len(), 2);
}

#[test]
fn undefined_strapping_touches_nothing() {
    let mut w = strapped_wrapper(RecordingTransport::new());
    match w.apply_pin_strapping("UNDEFINED") {
        Err(TransportError::InvalidStrappingName(n)) => assert_eq!(n, "UNDEFINED"),
        _ => panic!("expected an invalid strapping name"),
    }
    assert!(matches!(w.remove_pin_strapping("UNDEFINED"), Err(TransportError::InvalidStrappingName(_))));
    assert_eq!(w.backend_ref().ops().len(), 0);
}

#[test]
fn strapping_stops_at_first_backend_failure() {
    let mut w = strapped_wrapper(RecordingTransport::failing_at(0));
    assert!(matches!(w.apply_pin_strapping("RESET"), Err(TransportError::Backend(_))));
    assert_eq!(w.backend_ref().ops().len(), 1);
}

#[test]
fn null_pin_reads_false_and_warns_once() {
    let mut w = build(vec![file(vec![pin("UNSUPPORTED", Some("NULL"), None, None, None)], vec![], vec![], vec![])], RecordingTransport::new()).unwrap();
    let mut p = w.gpio_pin("unsupported").unwrap();
    assert!(matches!(p, GpioPin::Null(_)));
    assert_eq!(w.read_pin(&mut p).unwrap(), false);
    w.write_pin(&mut p, true).unwrap();
    assert_eq!(w.read_pin(&mut p).unwrap(), false);
    assert_eq!(w.backend_ref().ops().len(), 0);
    let warnings = w.take_warnings();
    assert_eq!(warnings, vec!["unsupported".to_string()]);
    w.write_pin(&mut p, false).unwrap();
    assert_eq!(w.take_warnings().len(), 0);
}

#[test]
fn hardware_pin_reaches_backend() {
    let mut w = build(vec![], RecordingTransport::new()).unwrap();
    let mut p = w.gpio_pin("ioa2").unwrap();
    w.write_pin(&mut p, true).unwrap();
    w.read_pin(&mut p).unwrap();
    let ops = w.backend_ref().ops();
    assert_eq!(ops.len(), 3);
    assert!(matches!(&ops[0], Op::Open(InterfaceKind::Gpio, n) if n == "IOA2"));
    assert!(matches!(&ops[1], Op::WritePin(n, true) if n == "IOA2"));
    assert!(matches!(&ops[2], Op::ReadPin(n) if n == "IOA2"));
}

fn pauses(w: &TransportWrapper<RecordingTransport>) -> Vec<u64> {
    w.backend_ref()
        .ops()
        .iter()
        .filter_map(|o| match o {
            Op::Pause(ms) => Some(*ms),
            _ => None,
        })
        .collect()
}

#[test]
fn reset_performs_steps_in_order() {
    let mut w = strapped_wrapper(RecordingTransport::new());
    w.reset_target(10, true).unwrap();
    let ops = w.backend_ref().ops();
    assert_eq!(ops.len(), 7);
    assert!(matches!(&ops[0], Op::SetPin(n, c) if n == "IOR8" && c.level == Some(false)));
    assert!(matches!(&ops[1], Op::SetPin(n, _) if n == "IOC5"));
    assert!(matches!(&ops[2], Op::Pause(10)));
    assert!(matches!(&ops[3], Op::Open(InterfaceKind::Uart, n) if n == "UART0"));
    assert!(matches!(&ops[4], Op::ClearUartRx(n) if n == "UART0"));
    assert!(matches!(&ops[5], Op::SetPin(n, c) if n == "IOR8" && c.level == Some(true)));
    assert!(matches!(&ops[6], Op::Pause(10)));
}

#[test]
fn reset_without_uart_clear() {
    let mut w = strapped_wrapper(RecordingTransport::new());
    w.reset_target(25, false).unwrap();
    assert_eq!(pauses(&w), vec![25, 25]);
    let ops = w.backend_ref().ops();
    assert_eq!(ops.len(), 5);
    assert!(!ops.iter().any(|o| matches!(o, Op::ClearUartRx(_) | Op::Open(..))));
}

#[test]
fn reset_aborts_on_failed_step() {
    let mut w = strapped_wrapper(RecordingTransport::failing_at(3));
    match w.reset_target(10, true) {
        Err(TransportError::Backend(m)) => assert_eq!(m, "operation refused"),
        _ => panic!("expected the backend's error"),
    }
    assert_eq!(pauses(&w), vec![10]);
    assert_eq!(w.backend_ref().ops().len(), 4);
}

#[test]
fn reset_aborts_when_assert_fails() {
    let mut w = strapped_wrapper(RecordingTransport::failing_at(0));
    assert!(w.reset_target(10, true).is_err());
    assert_eq!(pauses(&w).len(), 0);
    assert_eq!(w.backend_ref().ops().len(), 1);
}

#[test]
fn reset_without_reset_strapping() {
    let mut w = build(vec![], RecordingTransport::new()).unwrap();
    assert!(matches!(w.reset_target(10, true), Err(TransportError::InvalidStrappingName(_))));
    assert_eq!(w.backend_ref().ops().len(), 0);
}

#[test]
fn accessor_passes_backend_error_on() {
    let mut w = build(vec![], RecordingTransport::failing_at(0)).unwrap();
    assert!(matches!(w.uart("console"), Err(TransportError::Backend(_))));
    assert!(matches!(&w.backend_ref().ops()[0], Op::Open(InterfaceKind::Uart, n) if n == "CONSOLE"));
}

#[test]
fn emulator_and_proxy_pass_through() {
    let mut w = build(vec![], RecordingTransport::failing_at(1)).unwrap();
    assert!(w.emulator().is_ok());
    assert!(matches!(w.proxy_ops(), Err(TransportError::Backend(_))));
    let ops = w.backend_ref().ops();
    assert!(matches!(&ops[0], Op::Emulator));
    assert!(matches!(&ops[1], Op::ProxyOps));
}

#[test]
fn capabilities_pass_through() {
    let mut w = build(vec![], RecordingTransport::new()).unwrap();
    let c = w.capabilities().unwrap();
    assert!(c.gpio && c.spi && c.uart && c.i2c);
}

#[test]
fn strapping_of_null_pins_succeeds() {
    let mut w = build(
        vec![file(
            vec![pin("UNSUPPORTED", Some("NULL"), None, None, None)],
            vec![StrappingEntry { name: "BOOT".to_string(), pins: vec![pin("unsupported", None, None, Some(true), None)] }],
            vec![],
            vec![],
        )],
        RecordingTransport::new(),
    )
    .unwrap();
    w.apply_pin_strapping("boot").unwrap();
    assert_eq!(w.backend_ref().ops().len(), 0);
    assert_eq!(w.take_warnings(), vec!["NULL".to_string()]);
}

#[test]
fn spi_speeds_applied() {
    let mut w = build(
        vec![file(
            vec![],
            vec![],
            vec![
                SpiEntry { name: "BOOTSTRAP".to_string(), alias_of: Some("spi0".to_string()), bits_per_sec: Some(1_000_000) },
                SpiEntry { name: "spi0".to_string(), alias_of: None, bits_per_sec: None },
            ],
            vec![],
        )],
        RecordingTransport::new(),
    )
    .unwrap();
    w.apply_default_configuration().unwrap();
    assert_eq!(w.spi("bootstrap").unwrap(), "SPI0");
    let ops = w.backend_ref().ops();
    assert_eq!(ops.len(), 2);
    assert!(matches!(&ops[0], Op::SetSpiMaxSpeed(n, 1_000_000) if n == "SPI0"));
    assert!(matches!(&ops[1], Op::Open(InterfaceKind::Spi, n) if n == "SPI0"));
}

#[test]
fn spi_speed_conflict() {
    let r = build(
        vec![file(
            vec![],
            vec![],
            vec![
                SpiEntry { name: "SPI0".to_string(), alias_of: None, bits_per_sec: Some(1) },
                SpiEntry { name: "spi0".to_string(), alias_of: None, bits_per_sec: Some(2) },
            ],
            vec![],
        )],
        RecordingTransport::new(),
    );
    assert!(matches!(r, Err(TransportError::InconsistentConf(InterfaceKind::Spi, _, FieldConflict::BitsPerSec(1, 2)))));
}

#[test]
fn merge_field_rules() {
    let mut f: Option<u32> = None;
    assert!(merge_field(&mut f, Some(3)).is_ok());
    assert_eq!(f, Some(3));
    assert!(merge_field(&mut f, None).is_ok());
    assert_eq!(f, Some(3));
    assert!(merge_field(&mut f, Some(3)).is_ok());
    assert!(merge_field(&mut f, Some(4)).is_err());
    assert_eq!(f, Some(3));
}

#[test]
fn pin_merge_conflict_keeps_target() {
    let mut a = PinConfiguration { mode: Some(PinMode::Input), level: Some(true), pull_mode: None };
    let b = PinConfiguration { mode: None, level: Some(false), pull_mode: Some(PullMode::PullDown) };
    assert!(matches!(a.merge(&b), Err(FieldConflict::Level(true, false))));
    assert_eq!(a.pull_mode, None);
    let mut s = SpiConfiguration { bits_per_sec: None };
    s.merge(&SpiConfiguration { bits_per_sec: Some(9) }).unwrap();
    assert_eq!(s.bits_per_sec, Some(9));
}
