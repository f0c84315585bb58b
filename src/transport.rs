use vstd::prelude::*;
use crate::config::PinConfiguration;
use crate::error::{ErrorView, InterfaceKind, TransportError};

verus! {

/// The operations a backend performs on hardware.
#[derive(Clone, Debug)]
pub enum Op {
    SetPin(String, PinConfiguration),
    ReadPin(String),
    WritePin(String, bool),
    SetSpiMaxSpeed(String, u32),
    ClearUartRx(String),
    Open(InterfaceKind, String),
    Pause(u64),
    Emulator,
    ProxyOps,
}

/// The mathematical counterpart of `Op`.
pub enum OpView {
    SetPin(Seq<char>, PinConfiguration),
    ReadPin(Seq<char>),
    WritePin(Seq<char>, bool),
    SetSpiMaxSpeed(Seq<char>, u32),
    ClearUartRx(Seq<char>),
    Open(InterfaceKind, Seq<char>),
    Pause(u64),
    Emulator,
    ProxyOps,
}

impl View for Op {
    type V = OpView;

    open spec fn view(&self) -> OpView {
        match self {
            Op::SetPin(n, c) => OpView::SetPin(n@, *c),
            Op::ReadPin(n) => OpView::ReadPin(n@),
            Op::WritePin(n, v) => OpView::WritePin(n@, *v),
            Op::SetSpiMaxSpeed(n, b) => OpView::SetSpiMaxSpeed(n@, *b),
            Op::ClearUartRx(n) => OpView::ClearUartRx(n@),
            Op::Open(k, n) => OpView::Open(*k, n@),
            Op::Pause(ms) => OpView::Pause(*ms),
            Op::Emulator => OpView::Emulator,
            Op::ProxyOps => OpView::ProxyOps,
        }
    }
}

/// Which kinds of interface a backend offers.
#[derive(Clone, Copy, Debug)]
pub struct Capabilities {
    pub gpio: bool,
    pub spi: bool,
    pub uart: bool,
    pub i2c: bool,
}

/// What a backend call answered: `None` for success, else the error.
pub open spec fn outcome<T>(r: Result<T, TransportError>) -> Option<ErrorView> {
    match r {
        Ok(_) => None,
        Err(e) => Some(e@),
    }
}

/// A hardware backend, addressed by canonical names. `history` is the sequence
/// of operations the backend has been asked to perform, and `outcomes` what
/// each of them answered, in the same order.
pub trait Transport {
    spec fn history(&self) -> Seq<OpView>;

    spec fn outcomes(&self) -> Seq<Option<ErrorView>>;

    /// What `capabilities` answers.
    spec fn capabilities_spec(&self) -> Result<Capabilities, ErrorView>;

    fn capabilities(&self) -> (r: Result<Capabilities, TransportError>)
        ensures
            match r {
                Ok(c) => self.capabilities_spec() == Ok::<Capabilities, ErrorView>(c),
                Err(e) => self.capabilities_spec() == Err::<Capabilities, ErrorView>(e@),
            },
    ;

    fn set_pin(&mut self, name: &str, conf: PinConfiguration) -> (r: Result<(), TransportError>)
        ensures
            final(self).history() == old(self).history().push(OpView::SetPin(name@, conf)),
            final(self).outcomes() == old(self).outcomes().push(outcome(r)),
            final(self).capabilities_spec() == old(self).capabilities_spec(),
    ;

    fn read_pin(&mut self, name: &str) -> (r: Result<bool, TransportError>)
        ensures
            final(self).history() == old(self).history().push(OpView::ReadPin(name@)),
            final(self).outcomes() == old(self).outcomes().push(outcome(r)),
            final(self).capabilities_spec() == old(self).capabilities_spec(),
    ;

    fn write_pin(&mut self, name: &str, value: bool) -> (r: Result<(), TransportError>)
        ensures
            final(self).history() == old(self).history().push(OpView::WritePin(name@, value)),
            final(self).outcomes() == old(self).outcomes().push(outcome(r)),
            final(self).capabilities_spec() == old(self).capabilities_spec(),
    ;

    fn set_spi_max_speed(&mut self, name: &str, bits_per_sec: u32) -> (r: Result<(), TransportError>)
        ensures
            final(self).history() == old(self).history().push(OpView::SetSpiMaxSpeed(name@, bits_per_sec)),
            final(self).outcomes() == old(self).outcomes().push(outcome(r)),
            final(self).capabilities_spec() == old(self).capabilities_spec(),
    ;

    fn clear_uart_rx(&mut self, name: &str) -> (r: Result<(), TransportError>)
        ensures
            final(self).history() == old(self).history().push(OpView::ClearUartRx(name@)),
            final(self).outcomes() == old(self).outcomes().push(outcome(r)),
            final(self).capabilities_spec() == old(self).capabilities_spec(),
    ;

    /// Asks for the interface of this kind under its canonical name.
    fn open(&mut self, kind: InterfaceKind, name: &str) -> (r: Result<(), TransportError>)
        ensures
            final(self).history() == old(self).history().push(OpView::Open(kind, name@)),
            final(self).outcomes() == old(self).outcomes().push(outcome(r)),
            final(self).capabilities_spec() == old(self).capabilities_spec(),
    ;

    /// Asks for the backend's emulator control.
    fn emulator(&mut self) -> (r: Result<(), TransportError>)
        ensures
            final(self).history() == old(self).history().push(OpView::Emulator),
            final(self).outcomes() == old(self).outcomes().push(outcome(r)),
            final(self).capabilities_spec() == old(self).capabilities_spec(),
    ;

    /// Asks for the operations that only a proxy backend offers.
    fn proxy_ops(&mut self) -> (r: Result<(), TransportError>)
        ensures
            final(self).history() == old(self).history().push(OpView::ProxyOps),
            final(self).outcomes() == old(self).outcomes().push(outcome(r)),
            final(self).capabilities_spec() == old(self).capabilities_spec(),
    ;

    /// Blocks for `millis` milliseconds; a pause always succeeds.
    fn pause(&mut self, millis: u64)
        ensures
            final(self).history() == old(self).history().push(OpView::Pause(millis)),
            final(self).outcomes() == old(self).outcomes().push(None),
            final(self).capabilities_spec() == old(self).capabilities_spec(),
    ;
}

/// A backend that touches no hardware: it records each operation and can be
/// told to fail the operation with a given position in its record (a pause
/// never fails, and takes no time).
pub struct RecordingTransport {
    ops: Vec<Op>,
    fail_at: Option<usize>,
}

impl RecordingTransport {
    pub closed spec fn fail_at_spec(&self) -> Option<usize> {
        self.fail_at
    }

    /// A backend whose operations all succeed.
    pub fn new() -> (r: RecordingTransport)
        ensures
            r.history() == Seq::<OpView>::empty(),
            r.outcomes() == Seq::<Option<ErrorView>>::empty(),
            r.fail_at_spec() is None,
    {
        let r = RecordingTransport { ops: Vec::new(), fail_at: None };
        assert(r.history() =~= Seq::<OpView>::empty());
        assert(r.outcomes() =~= Seq::<Option<ErrorView>>::empty());
        r
    }

    /// A backend whose operation number `index` (counting from zero) fails.
    pub fn failing_at(index: usize) -> (r: RecordingTransport)
        ensures
            r.history() == Seq::<OpView>::empty(),
            r.outcomes() == Seq::<Option<ErrorView>>::empty(),
            r.fail_at_spec() == Some(index),
    {
        let r = RecordingTransport { ops: Vec::new(), fail_at: Some(index) };
        assert(r.history() =~= Seq::<OpView>::empty());
        assert(r.outcomes() =~= Seq::<Option<ErrorView>>::empty());
        r
    }

    /// The operations performed so far.
    pub fn ops(&self) -> (r: &Vec<Op>)
        ensures
            r@.map_values(|o: Op| o@) == self.history(),
    {
        &self.ops
    }

    fn record(&mut self, op: Op) -> (r: Result<(), TransportError>)
        ensures
            final(self).history() == old(self).history().push(op@),
            final(self).outcomes() == old(self).outcomes().push(outcome(r)),
            r matches Err(e) ==> e@ == refused(),
            final(self).fail_at_spec() == old(self).fail_at_spec(),
            op is Pause ==> r is Ok,
    {
        let is_pause = matches!(op, Op::Pause(_));
        let failed = !is_pause && match self.fail_at {
            Some(i) => i == self.ops.len(),
            None => false,
        };
        let ghost before = self.ops@;
        let ghost outs = self.outcomes();
        let ghost opv = op;
        self.ops.push(op);
        assert(forall|i: int| 0 <= i < before.len() ==> self.ops@[i] == before[i]);
        assert(self.ops@[before.len() as int] == opv);
        assert(is_pause == (opv is Pause));
        assert(self.ops@.map_values(|o: Op| o@) =~= before.map_values(|o: Op| o@).push(op@));
        if failed {
            let e = TransportError::Backend("operation refused".to_owned());
            assert(self.outcomes() =~= outs.push(Some(e@)));
            Err(e)
        } else {
            assert(self.outcomes() =~= outs.push(None));
            Ok(())
        }
    }
}

/// The error a `RecordingTransport` answers with.
pub open spec fn refused() -> ErrorView {
    ErrorView::Backend("operation refused"@)
}

impl Transport for RecordingTransport {
    closed spec fn history(&self) -> Seq<OpView> {
        self.ops@.map_values(|o: Op| o@)
    }

    closed spec fn outcomes(&self) -> Seq<Option<ErrorView>> {
        Seq::new(
            self.ops@.len(),
            |i: int|
                if self.fail_at == Some(i as usize) && !(self.ops@[i] is Pause) {
                    Some(refused())
                } else {
                    None
                },
        )
    }

    closed spec fn capabilities_spec(&self) -> Result<Capabilities, ErrorView> {
        Ok(Capabilities { gpio: true, spi: true, uart: true, i2c: true })
    }

    fn capabilities(&self) -> (r: Result<Capabilities, TransportError>) {
        Ok(Capabilities { gpio: true, spi: true, uart: true, i2c: true })
    }

    fn set_pin(&mut self, name: &str, conf: PinConfiguration) -> (r: Result<(), TransportError>) {
        self.record(Op::SetPin(name.to_owned(), conf))
    }

    fn read_pin(&mut self, name: &str) -> (r: Result<bool, TransportError>) {
        let r = self.record(Op::ReadPin(name.to_owned()));
        match r {
            Ok(()) => Ok(false),
            Err(e) => Err(e),
        }
    }

    fn write_pin(&mut self, name: &str, value: bool) -> (r: Result<(), TransportError>) {
        self.record(Op::WritePin(name.to_owned(), value))
    }

    fn set_spi_max_speed(&mut self, name: &str, bits_per_sec: u32) -> (r: Result<(), TransportError>) {
        self.record(Op::SetSpiMaxSpeed(name.to_owned(), bits_per_sec))
    }

    fn clear_uart_rx(&mut self, name: &str) -> (r: Result<(), TransportError>) {
        self.record(Op::ClearUartRx(name.to_owned()))
    }

    fn open(&mut self, kind: InterfaceKind, name: &str) -> (r: Result<(), TransportError>) {
        self.record(Op::Open(kind, name.to_owned()))
    }

    fn emulator(&mut self) -> (r: Result<(), TransportError>) {
        self.record(Op::Emulator)
    }

    fn proxy_ops(&mut self) -> (r: Result<(), TransportError>) {
        self.record(Op::ProxyOps)
    }

    fn pause(&mut self, millis: u64) {
        let r = self.record(Op::Pause(millis));
        assert(r is Ok);
    }
}

} // verus!
