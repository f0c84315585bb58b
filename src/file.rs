use vstd::prelude::*;
use crate::config::{PinMode, PullMode};

verus! {

/// One pin declaration of a configuration fragment.
#[derive(Clone, Debug)]
pub struct PinEntry {
    pub name: String,
    pub alias_of: Option<String>,
    pub mode: Option<PinMode>,
    pub level: Option<bool>,
    pub pull_mode: Option<PullMode>,
}

/// A named set of pin overrides.
#[derive(Clone, Debug)]
pub struct StrappingEntry {
    pub name: String,
    pub pins: Vec<PinEntry>,
}

/// One SPI bus declaration.
#[derive(Clone, Debug)]
pub struct SpiEntry {
    pub name: String,
    pub alias_of: Option<String>,
    pub bits_per_sec: Option<u32>,
}

/// One UART declaration.
#[derive(Clone, Debug)]
pub struct UartEntry {
    pub name: String,
    pub alias_of: Option<String>,
}

/// The declarations of one configuration fragment.
#[derive(Clone, Debug)]
pub struct ConfigurationFile {
    pub pins: Vec<PinEntry>,
    pub strappings: Vec<StrappingEntry>,
    pub spi: Vec<SpiEntry>,
    pub uarts: Vec<UartEntry>,
}

} // verus!
