use vstd::prelude::*;
use crate::config::FieldConflict;

verus! {

/// The kind of interface a name refers to.
#[derive(Clone, Copy, Debug, PartialEq, Eq, Structural)]
pub enum InterfaceKind {
    Gpio,
    Spi,
    Uart,
    I2c,
}

/// Errors raised while building the configuration or driving the transport.
#[derive(Debug)]
pub enum TransportError {
    /// Two declarations disagree on a field of the target with this canonical name.
    InconsistentConf(InterfaceKind, String, FieldConflict),
    /// Resolving a name met this alias a second time.
    AliasCycle(InterfaceKind, String),
    /// No strapping of this name was declared.
    InvalidStrappingName(String),
    /// An error reported by the backend, passed on unchanged.
    Backend(String),
}

/// The mathematical counterpart of `TransportError`.
pub enum ErrorView {
    InconsistentConf(InterfaceKind, Seq<char>, FieldConflict),
    AliasCycle(InterfaceKind, Seq<char>),
    InvalidStrappingName(Seq<char>),
    Backend(Seq<char>),
}

impl View for TransportError {
    type V = ErrorView;

    open spec fn view(&self) -> ErrorView {
        match self {
            TransportError::InconsistentConf(k, n, c) => ErrorView::InconsistentConf(*k, n@, *c),
            TransportError::AliasCycle(k, n) => ErrorView::AliasCycle(*k, n@),
            TransportError::InvalidStrappingName(n) => ErrorView::InvalidStrappingName(n@),
            TransportError::Backend(m) => ErrorView::Backend(m@),
        }
    }
}

} // verus!
