use vstd::prelude::*;
use crate::alias::{resolve_spec, AliasMap};
use crate::config::{PinConfiguration, SpiConfiguration};
use crate::confmap::ConfMap;
use crate::error::{ErrorView, InterfaceKind, TransportError};
use crate::names::{
    find_last, keys_of, lemma_find_last_lookup, lemma_lookup_none, lemma_lookup_some, lookup, to_upper,
    upper_of,
};
use crate::pin::{GpioPin, NullPin};
use crate::transport::{outcome, Capabilities, OpView, Transport};

verus! {

/// The reserved canonical name of pins that the backend does not support.
pub open spec fn null_name() -> Seq<char> {
    "NULL"@
}

/// The backend operations that configuring the given pins, in order, asks for.
pub open spec fn pin_ops(pairs: Seq<(Seq<char>, PinConfiguration)>) -> Seq<OpView>
    decreases pairs.len(),
{
    if pairs.len() == 0 {
        Seq::empty()
    } else {
        pin_ops(pairs.drop_last()) + if pairs.last().0 == null_name() {
            Seq::<OpView>::empty()
        } else {
            seq![OpView::SetPin(pairs.last().0, pairs.last().1)]
        }
    }
}

/// How many of the given pins are the stand-in `NULL`: each raises one warning.
pub open spec fn null_count(pairs: Seq<(Seq<char>, PinConfiguration)>) -> nat
    decreases pairs.len(),
{
    if pairs.len() == 0 {
        0
    } else {
        null_count(pairs.drop_last()) + if pairs.last().0 == null_name() {
            1nat
        } else {
            0nat
        }
    }
}

/// The pins of a strapping that have a default configuration, each paired with it.
pub open spec fn restore_pairs(
    strap: Seq<(Seq<char>, PinConfiguration)>,
    defaults: Map<Seq<char>, PinConfiguration>,
) -> Seq<(Seq<char>, PinConfiguration)>
    decreases strap.len(),
{
    if strap.len() == 0 {
        Seq::empty()
    } else {
        restore_pairs(strap.drop_last(), defaults) + if defaults.contains_key(strap.last().0) {
            seq![(strap.last().0, defaults[strap.last().0])]
        } else {
            Seq::empty()
        }
    }
}

/// The configuration a pin was last set to in a history of operations.
pub open spec fn pin_state(h: Seq<OpView>, k: Seq<char>) -> Option<PinConfiguration>
    decreases h.len(),
{
    if h.len() == 0 {
        None
    } else {
        match h.last() {
            OpView::SetPin(n, c) => if n == k {
                Some(c)
            } else {
                pin_state(h.drop_last(), k)
            },
            _ => pin_state(h.drop_last(), k),
        }
    }
}

/// Restoring a strapping leaves each of its pins that has a default, other
/// than `NULL`, last set to that default; every other pin keeps the state it had.
pub proof fn lemma_restore_state(
    h: Seq<OpView>,
    strap: Seq<(Seq<char>, PinConfiguration)>,
    defaults: Map<Seq<char>, PinConfiguration>,
    k: Seq<char>,
)
    ensures
        pin_state(h + pin_ops(restore_pairs(strap, defaults)), k) == if keys_of(strap).contains(k)
            && defaults.contains_key(k) && k != null_name() {
            Some(defaults[k])
        } else {
            pin_state(h, k)
        },
    decreases strap.len(),
{
    if strap.len() == 0 {
        assert(h + pin_ops(restore_pairs(strap, defaults)) =~= h);
        assert(keys_of(strap) =~= Seq::<Seq<char>>::empty());
    } else {
        let t = strap.drop_last();
        let x = strap.last();
        lemma_restore_state(h, t, defaults, k);
        assert(keys_of(t) =~= keys_of(strap).drop_last());
        assert(keys_of(strap) =~= keys_of(t).push(x.0));
        let a = restore_pairs(t, defaults);
        let h1 = h + pin_ops(a);
        if defaults.contains_key(x.0) {
            let b = a.push((x.0, defaults[x.0]));
            assert(restore_pairs(strap, defaults) =~= b);
            assert(b.drop_last() =~= a);
            assert(pin_ops(b) == pin_ops(a) + if x.0 == null_name() {
                Seq::<OpView>::empty()
            } else {
                seq![OpView::SetPin(x.0, defaults[x.0])]
            });
            if x.0 == null_name() {
                assert(h + pin_ops(b) =~= h1);
            } else {
                let op = OpView::SetPin(x.0, defaults[x.0]);
                assert(h + pin_ops(b) =~= h1.push(op));
                assert(h1.push(op).drop_last() =~= h1);
                assert(pin_state(h1.push(op), k) == if x.0 == k {
                    Some(defaults[x.0])
                } else {
                    pin_state(h1, k)
                });
            }
        } else {
            assert(restore_pairs(strap, defaults) =~= a);
        }
        if keys_of(strap).contains(k) && !keys_of(t).contains(k) {
            assert(k == x.0);
        }
        if keys_of(t).contains(k) {
            let i = choose|i: int| 0 <= i < keys_of(t).len() && keys_of(t)[i] == k;
            assert(keys_of(strap)[i] == k);
        }
        assert(keys_of(strap)[strap.len() - 1] == x.0);
        assert(keys_of(strap).contains(k) <==> (keys_of(t).contains(k) || k == x.0));
        assert(pin_state(h1, k) == if keys_of(t).contains(k) && defaults.contains_key(k) && k != null_name() {
            Some(defaults[k])
        } else {
            pin_state(h, k)
        });
    }
}

/// Every call answered after the first `before.len()` succeeded.
pub open spec fn calls_ok(before: Seq<Option<ErrorView>>, after: Seq<Option<ErrorView>>) -> bool {
    &&& after.len() >= before.len()
    &&& after.subrange(0, before.len() as int) == before
    &&& forall|i: int| before.len() <= i < after.len() ==> #[trigger] after[i] is None
}

/// The calls answered after `before` succeeded, except the last, which answered `e`.
pub open spec fn failed_last(before: Seq<Option<ErrorView>>, after: Seq<Option<ErrorView>>, e: ErrorView) -> bool {
    &&& after.len() > before.len()
    &&& calls_ok(before, after.drop_last())
    &&& after.last() == Some(e)
}

/// Going from backend state `a` to `b` with result `r`: one outcome per
/// operation; `Ok` exactly when every call made succeeded; an error is the
/// answer of the last call made, passed on unchanged.
pub open spec fn answered<T: Transport, V>(a: T, b: T, r: Result<V, TransportError>) -> bool {
    &&& b.outcomes().len() - a.outcomes().len() == b.history().len() - a.history().len()
    &&& b.capabilities_spec() == a.capabilities_spec()
    &&& r is Ok ==> calls_ok(a.outcomes(), b.outcomes())
    &&& r matches Err(e) ==> failed_last(a.outcomes(), b.outcomes(), e@)
}

pub proof fn lemma_calls_ok_push(before: Seq<Option<ErrorView>>, mid: Seq<Option<ErrorView>>, x: Option<ErrorView>)
    requires
        calls_ok(before, mid),
    ensures
        x is None ==> calls_ok(before, mid.push(x)),
        mid.push(x).drop_last() == mid,
{
    assert(mid.push(x).drop_last() =~= mid);
    assert(mid.push(x).subrange(0, before.len() as int) =~= mid.subrange(0, before.len() as int));
    if x is None {
        assert forall|i: int| before.len() <= i < mid.push(x).len() implies #[trigger] mid.push(x)[i] is None by {
            if i < mid.len() {
                assert(mid.push(x)[i] == mid[i]);
            }
        }
    }
}

pub proof fn lemma_calls_ok_refl(a: Seq<Option<ErrorView>>)
    ensures
        calls_ok(a, a),
{
    assert(a.subrange(0, a.len() as int) =~= a);
}

pub proof fn lemma_calls_ok_trans(a: Seq<Option<ErrorView>>, b: Seq<Option<ErrorView>>, c: Seq<Option<ErrorView>>)
    requires
        calls_ok(a, b),
    ensures
        calls_ok(b, c) ==> calls_ok(a, c),
        forall|e: ErrorView| failed_last(b, c, e) ==> failed_last(a, c, e),
{
    assert forall|c2: Seq<Option<ErrorView>>| calls_ok(b, c2) implies calls_ok(a, c2) by {
        assert(c2.subrange(0, a.len() as int) =~= c2.subrange(0, b.len() as int).subrange(0, a.len() as int));
        assert forall|i: int| a.len() <= i < c2.len() implies #[trigger] c2[i] is None by {
            if i < b.len() {
                assert(c2[i] == c2.subrange(0, b.len() as int)[i]);
                assert(b[i] is None);
            }
        }
    }
    assert(calls_ok(b, c) ==> calls_ok(a, c));
    assert forall|e: ErrorView| failed_last(b, c, e) implies failed_last(a, c, e) by {
        assert(calls_ok(b, c.drop_last()));
    }
}

/// A name or an error, as its mathematical counterpart.
pub open spec fn name_result(r: Result<String, TransportError>) -> Result<Seq<char>, ErrorView> {
    match r {
        Ok(s) => Ok(s@),
        Err(e) => Err(e@),
    }
}

pub open spec fn pin_result(r: Result<GpioPin, TransportError>) -> Result<Seq<char>, ErrorView> {
    match r {
        Ok(GpioPin::Hardware(s)) => Ok(s@),
        Ok(GpioPin::Null(p)) => Ok(p.name_spec()),
        Err(e) => Err(e@),
    }
}

/// Opening an interface whose name resolved to `resolved` (if it did), going
/// from backend state `a` to `b` with result `r`: an unresolvable name fails
/// with no backend call; otherwise the backend is asked once under the
/// canonical name, and its answer decides the result.
pub open spec fn opened<T: Transport>(
    a: T,
    b: T,
    kind: InterfaceKind,
    resolved: Option<Seq<char>>,
    r: Result<Seq<char>, ErrorView>,
) -> bool {
    match resolved {
        None => r is Err && b == a,
        Some(c) => {
            &&& b.history() == a.history().push(OpView::Open(kind, c))
            &&& b.outcomes() == a.outcomes().push(
                match r {
                    Ok(_) => None,
                    Err(e) => Some(e),
                },
            )
            &&& b.capabilities_spec() == a.capabilities_spec()
            &&& r matches Ok(s) ==> s == c
        },
    }
}

fn is_null_name(s: &String) -> (r: bool)
    ensures
        r == (s@ == null_name()),
{
    let null = "NULL".to_owned();
    *s == null
}

/// Configures each pin of `confs`, in order, stopping at the first failure.
fn apply_pins<T: Transport>(
    transport: &mut T,
    warnings: &mut Vec<String>,
    confs: &ConfMap<PinConfiguration>,
) -> (r: Result<(), TransportError>)
    ensures
        r is Ok ==> final(transport).history() == old(transport).history() + pin_ops(confs.pairs()),
        r is Err ==> exists|j: int|
            0 <= j < confs.pairs().len() && final(transport).history() == old(transport).history()
                + pin_ops(#[trigger] confs.pairs().take(j + 1)),
        answered(*old(transport), *final(transport), r),
        r is Ok ==> final(warnings)@.len() == old(warnings)@.len() + null_count(confs.pairs()),
{
    let ghost h0 = transport.history();
    proof {
        lemma_calls_ok_refl(transport.outcomes());
    }
    let ghost p = confs.pairs();
    let mut i: usize = 0;
    while i < confs.len()
        invariant
            i <= p.len(),
            p == confs.pairs(),
            h0 == old(transport).history(),
            calls_ok(old(transport).outcomes(), transport.outcomes()),
            transport.outcomes().len() - old(transport).outcomes().len() == transport.history().len() - old(transport).history().len(),
            transport.capabilities_spec() == old(transport).capabilities_spec(),
            transport.history() == h0 + pin_ops(p.take(i as int)),
            warnings@.len() == old(warnings)@.len() + null_count(p.take(i as int)),
        decreases p.len() - i,
    {
        assert(p.take(i as int + 1).drop_last() =~= p.take(i as int));
        let name = confs.name_at(i);
        let conf = confs.value_at(i);
        let ghost before = transport.history();
        if is_null_name(name) {
            let mut pin = NullPin::new(name.as_str());
            pin.set(conf, warnings);
            assert(h0 + pin_ops(p.take(i as int + 1)) =~= before);
        } else {
            let ghost ob = transport.outcomes();
            let res = transport.set_pin(name.as_str(), conf);
            proof {
                lemma_calls_ok_push(old(transport).outcomes(), ob, outcome(res));
            }
            assert(h0 + pin_ops(p.take(i as int + 1)) =~= before.push(OpView::SetPin(name@, conf)));
            assert(transport.history() == h0 + pin_ops(confs.pairs().take(i as int + 1)));
            if res.is_err() {
                return res;
            }
        }
        i = i + 1;
    }
    assert(p.take(i as int) =~= p);
    proof {
        assert(calls_ok(old(transport).outcomes(), transport.outcomes()));
    }
    Ok(())
}

/// Configures, in order, each pin of `strap` that has a default configuration
/// to that default, stopping at the first failure.
fn restore_pins<T: Transport>(
    transport: &mut T,
    warnings: &mut Vec<String>,
    strap: &ConfMap<PinConfiguration>,
    defaults: &ConfMap<PinConfiguration>,
) -> (r: Result<(), TransportError>)
    ensures
        r is Ok ==> final(transport).history() == old(transport).history() + pin_ops(
            restore_pairs(strap.pairs(), defaults@),
        ),
        r is Err ==> exists|j: int|
            0 <= j < strap.pairs().len() && final(transport).history() == old(transport).history()
                + pin_ops(restore_pairs(#[trigger] strap.pairs().take(j + 1), defaults@)),
        answered(*old(transport), *final(transport), r),
        r is Ok ==> final(warnings)@.len() == old(warnings)@.len() + null_count(restore_pairs(strap.pairs(), defaults@)),
{
    let ghost h0 = transport.history();
    proof {
        lemma_calls_ok_refl(transport.outcomes());
    }
    let ghost p = strap.pairs();
    let mut i: usize = 0;
    while i < strap.len()
        invariant
            i <= p.len(),
            p == strap.pairs(),
            h0 == old(transport).history(),
            calls_ok(old(transport).outcomes(), transport.outcomes()),
            transport.outcomes().len() - old(transport).outcomes().len() == transport.history().len() - old(transport).history().len(),
            transport.capabilities_spec() == old(transport).capabilities_spec(),
            transport.history() == h0 + pin_ops(restore_pairs(p.take(i as int), defaults@)),
            warnings@.len() == old(warnings)@.len() + null_count(restore_pairs(p.take(i as int), defaults@)),
        decreases p.len() - i,
    {
        assert(p.take(i as int + 1).drop_last() =~= p.take(i as int));
        let name = strap.name_at(i);
        let ghost before = transport.history();
        let ghost rp = restore_pairs(p.take(i as int), defaults@);
        match defaults.get(name) {
            None => {
                assert(restore_pairs(p.take(i as int + 1), defaults@) =~= rp);
            },
            Some(conf) => {
                let ghost rp2 = restore_pairs(p.take(i as int + 1), defaults@);
                assert(rp2 =~= rp.push((name@, conf)));
                assert(rp2.drop_last() =~= rp);
                if is_null_name(name) {
                    let mut pin = NullPin::new(name.as_str());
                    pin.set(conf, warnings);
                    assert(h0 + pin_ops(rp2) =~= before);
                } else {
                    let ghost ob = transport.outcomes();
                    let res = transport.set_pin(name.as_str(), conf);
                    proof {
                        lemma_calls_ok_push(old(transport).outcomes(), ob, outcome(res));
                    }
                    assert(h0 + pin_ops(rp2) =~= before.push(OpView::SetPin(name@, conf)));
                    assert(transport.history() == h0 + pin_ops(restore_pairs(strap.pairs().take(i as int + 1), defaults@)));
                    if res.is_err() {
                        return res;
                    }
                }
            },
        }
        i = i + 1;
    }
    assert(p.take(i as int) =~= p);
    proof {
        assert(calls_ok(old(transport).outcomes(), transport.outcomes()));
    }
    Ok(())
}

/// The runtime facade: resolved maps that no longer change, the backend it
/// owns, and the warnings raised by stand-in pins.
pub struct TransportWrapper<T: Transport> {
    transport: T,
    pin_map: AliasMap,
    uart_map: AliasMap,
    spi_map: AliasMap,
    i2c_map: AliasMap,
    pin_conf_map: ConfMap<PinConfiguration>,
    spi_conf_map: ConfMap<SpiConfiguration>,
    strapping_conf_map: Vec<(String, ConfMap<PinConfiguration>)>,
    warnings: Vec<String>,
}

impl<T: Transport> TransportWrapper<T> {
    pub(crate) fn from_parts(
        transport: T,
        pin_map: AliasMap,
        uart_map: AliasMap,
        spi_map: AliasMap,
        i2c_map: AliasMap,
        pin_conf_map: ConfMap<PinConfiguration>,
        spi_conf_map: ConfMap<SpiConfiguration>,
        strapping_conf_map: Vec<(String, ConfMap<PinConfiguration>)>,
    ) -> (r: Self)
        ensures
            r.backend() == transport,
            r.pin_aliases() == pin_map@,
            r.uart_aliases() == uart_map@,
            r.spi_aliases() == spi_map@,
            r.i2c_aliases() == i2c_map@,
            r.default_pins() == pin_conf_map,
            r.default_spi() == spi_conf_map,
            r.strappings() == strapping_conf_map@.map_values(|e: (String, ConfMap<PinConfiguration>)| (e.0@, e.1)),
            r.warnings_spec() == Seq::<String>::empty(),
    {
        let r = TransportWrapper {
            transport,
            pin_map,
            uart_map,
            spi_map,
            i2c_map,
            pin_conf_map,
            spi_conf_map,
            strapping_conf_map,
            warnings: Vec::new(),
        };
        assert(r.warnings_spec() =~= Seq::<String>::empty());
        r
    }

    pub closed spec fn backend(&self) -> T {
        self.transport
    }

    pub closed spec fn pin_aliases(&self) -> Map<Seq<char>, Seq<char>> {
        self.pin_map@
    }

    pub closed spec fn spi_aliases(&self) -> Map<Seq<char>, Seq<char>> {
        self.spi_map@
    }

    pub closed spec fn uart_aliases(&self) -> Map<Seq<char>, Seq<char>> {
        self.uart_map@
    }

    pub closed spec fn i2c_aliases(&self) -> Map<Seq<char>, Seq<char>> {
        self.i2c_map@
    }

    pub closed spec fn default_pins(&self) -> ConfMap<PinConfiguration> {
        self.pin_conf_map
    }

    pub closed spec fn default_spi(&self) -> ConfMap<SpiConfiguration> {
        self.spi_conf_map
    }

    /// The strapping catalog, by uppercase name.
    pub closed spec fn strappings(&self) -> Seq<(Seq<char>, ConfMap<PinConfiguration>)> {
        self.strapping_conf_map@.map_values(|e: (String, ConfMap<PinConfiguration>)| (e.0@, e.1))
    }

    pub closed spec fn warnings_spec(&self) -> Seq<String> {
        self.warnings@
    }

    pub open spec fn strapping(&self, name: Seq<char>) -> Option<ConfMap<PinConfiguration>> {
        lookup(self.strappings(), upper_of(name))
    }

    /// What applying the strapping `name` did, going from `self` to `after` with result `r`:
    /// an unknown strapping is refused without a backend call; a known one has its
    /// pins configured in order, up to and including the first that fails.
    pub open spec fn strapping_applied(&self, after: &Self, name: Seq<char>, r: Result<(), TransportError>) -> bool {
        match self.strapping(name) {
            None => r matches Err(e) && e@ == ErrorView::InvalidStrappingName(name)
                && after.backend().history() == self.backend().history()
                && after.backend().outcomes() == self.backend().outcomes(),
            Some(s) => answered(self.backend(), after.backend(), r) && (r is Ok ==> after.backend().history() == self.backend().history()
                + pin_ops(s.pairs()) && after.warnings_spec().len() == self.warnings_spec().len() + null_count(s.pairs())) && (r is Err ==> exists|j: int|
                0 <= j < s.pairs().len() && after.backend().history()
                    == self.backend().history() + pin_ops(#[trigger] s.pairs().take(j + 1))),
        }
    }

    /// What removing the strapping `name` did: as `strapping_applied`, but each pin
    /// of the strapping that has a default configuration is set to that default.
    pub open spec fn strapping_removed(&self, after: &Self, name: Seq<char>, r: Result<(), TransportError>) -> bool {
        match self.strapping(name) {
            None => r matches Err(e) && e@ == ErrorView::InvalidStrappingName(name)
                && after.backend().history() == self.backend().history()
                && after.backend().outcomes() == self.backend().outcomes(),
            Some(s) => answered(self.backend(), after.backend(), r) && (r is Ok ==> after.backend().history() == self.backend().history()
                + pin_ops(restore_pairs(s.pairs(), self.default_pins()@)) && after.warnings_spec().len()
                == self.warnings_spec().len() + null_count(restore_pairs(s.pairs(), self.default_pins()@))) && (r is Err ==> exists|j: int|
                0 <= j < s.pairs().len() && after.backend().history()
                    == self.backend().history() + pin_ops(restore_pairs(#[trigger] s.pairs().take(j + 1), self.default_pins()@))),
        }
    }

    /// Everything but the backend and the warnings stays as it was.
    pub open spec fn same_config(&self, other: &Self) -> bool {
        &&& self.pin_aliases() == other.pin_aliases()
        &&& self.spi_aliases() == other.spi_aliases()
        &&& self.uart_aliases() == other.uart_aliases()
        &&& self.i2c_aliases() == other.i2c_aliases()
        &&& self.default_pins() == other.default_pins()
        &&& self.default_spi() == other.default_spi()
        &&& self.strappings() == other.strappings()
    }

    pub closed spec fn wf(&self) -> bool {
        self.pin_conf_map.wf() && self.spi_conf_map.wf() && forall|i: int|
            0 <= i < self.strapping_conf_map@.len() ==> (#[trigger] self.strapping_conf_map@[i]).1.wf()
    }

    /// Returns a `Capabilities` object to check the capabilities of this
    /// transport object.
    pub fn capabilities(&self) -> (r: Result<Capabilities, TransportError>)
        ensures
            match r {
                Ok(c) => self.backend().capabilities_spec() == Ok::<Capabilities, ErrorView>(c),
                Err(e) => self.backend().capabilities_spec() == Err::<Capabilities, ErrorView>(e@),
            },
    {
        self.transport.capabilities()
    }

    /// Opens a SPI bus by name: resolves the name, asks the backend once for the
    /// interface under its canonical name, and returns that name on success.
    pub fn spi(&mut self, name: &str) -> (r: Result<String, TransportError>)
        ensures
            final(self).same_config(old(self)),
            final(self).warnings_spec() == old(self).warnings_spec(),
            opened(old(self).backend(), final(self).backend(), InterfaceKind::Spi, resolve_spec(old(self).spi_aliases(), name@), name_result(r)),
    {
        let c = self.spi_map.resolve(name)?;
        match self.transport.open(InterfaceKind::Spi, c.as_str()) {
            Ok(()) => Ok(c),
            Err(e) => Err(e),
        }
    }

    /// Opens an I2C bus by name: resolves the name, asks the backend once for the
    /// interface under its canonical name, and returns that name on success.
    pub fn i2c(&mut self, name: &str) -> (r: Result<String, TransportError>)
        ensures
            final(self).same_config(old(self)),
            final(self).warnings_spec() == old(self).warnings_spec(),
            opened(old(self).backend(), final(self).backend(), InterfaceKind::I2c, resolve_spec(old(self).i2c_aliases(), name@), name_result(r)),
    {
        let c = self.i2c_map.resolve(name)?;
        match self.transport.open(InterfaceKind::I2c, c.as_str()) {
            Ok(()) => Ok(c),
            Err(e) => Err(e),
        }
    }

    /// Opens a UART by name: resolves the name, asks the backend once for the
    /// interface under its canonical name, and returns that name on success.
    pub fn uart(&mut self, name: &str) -> (r: Result<String, TransportError>)
        ensures
            final(self).same_config(old(self)),
            final(self).warnings_spec() == old(self).warnings_spec(),
            opened(old(self).backend(), final(self).backend(), InterfaceKind::Uart, resolve_spec(old(self).uart_aliases(), name@), name_result(r)),
    {
        let c = self.uart_map.resolve(name)?;
        match self.transport.open(InterfaceKind::Uart, c.as_str()) {
            Ok(()) => Ok(c),
            Err(e) => Err(e),
        }
    }

    /// Asks the backend once for its emulator control and passes its answer on.
    pub fn emulator(&mut self) -> (r: Result<(), TransportError>)
        ensures
            final(self).same_config(old(self)),
            final(self).warnings_spec() == old(self).warnings_spec(),
            final(self).backend().history() == old(self).backend().history().push(OpView::Emulator),
            final(self).backend().outcomes() == old(self).backend().outcomes().push(outcome(r)),
    {
        self.transport.emulator()
    }

    /// Asks the backend once for its proxy-only operations and passes its answer on.
    pub fn proxy_ops(&mut self) -> (r: Result<(), TransportError>)
        ensures
            final(self).same_config(old(self)),
            final(self).warnings_spec() == old(self).warnings_spec(),
            final(self).backend().history() == old(self).backend().history().push(OpView::ProxyOps),
            final(self).backend().outcomes() == old(self).backend().outcomes().push(outcome(r)),
    {
        self.transport.proxy_ops()
    }

    /// A pin by name: the stand-in when the name resolves to `NULL`, with no
    /// backend call; otherwise the backend is asked once for the pin under its
    /// canonical name.
    pub fn gpio_pin(&mut self, name: &str) -> (r: Result<GpioPin, TransportError>)
        ensures
            final(self).same_config(old(self)),
            final(self).warnings_spec() == old(self).warnings_spec(),
            resolve_spec(old(self).pin_aliases(), name@) == Some(null_name()) ==> final(self).backend() == old(
                self,
            ).backend() && (r matches Ok(GpioPin::Null(p)) && !p.warned() && p.name_spec() == name@),
            resolve_spec(old(self).pin_aliases(), name@) != Some(null_name()) ==> opened(
                old(self).backend(),
                final(self).backend(),
                InterfaceKind::Gpio,
                resolve_spec(old(self).pin_aliases(), name@),
                pin_result(r),
            ) && !(r matches Ok(GpioPin::Null(_))),
    {
        let resolved = self.pin_map.resolve(name)?;
        if is_null_name(&resolved) {
            Ok(GpioPin::Null(NullPin::new(name)))
        } else {
            match self.transport.open(InterfaceKind::Gpio, resolved.as_str()) {
                Ok(()) => Ok(GpioPin::Hardware(resolved)),
                Err(e) => Err(e),
            }
        }
    }

    /// Reads a pin. The stand-in reads `false` without touching the backend.
    pub fn read_pin(&mut self, pin: &mut GpioPin) -> (r: Result<bool, TransportError>)
        ensures
            final(self).same_config(old(self)),
            match *old(pin) {
                GpioPin::Hardware(n) => final(self).backend().history() == old(self).backend().history().push(OpView::ReadPin(n@))
                    && final(self).backend().outcomes() == old(self).backend().outcomes().push(outcome(r))
                    && final(self).warnings_spec() == old(self).warnings_spec() && *final(pin) == *old(pin),
                GpioPin::Null(p) => r == Ok::<bool, TransportError>(false) && final(self).backend() == old(self).backend()
                    && (*final(pin) matches GpioPin::Null(q) && p.warned_into(&q, old(self).warnings_spec(), final(self).warnings_spec())),
            },
    {
        match pin {
            GpioPin::Hardware(n) => self.transport.read_pin(n.as_str()),
            GpioPin::Null(p) => Ok(p.read(&mut self.warnings)),
        }
    }

    /// Drives a pin. The stand-in accepts the write without touching the backend.
    pub fn write_pin(&mut self, pin: &mut GpioPin, value: bool) -> (r: Result<(), TransportError>)
        ensures
            final(self).same_config(old(self)),
            match *old(pin) {
                GpioPin::Hardware(n) => final(self).backend().history() == old(self).backend().history().push(OpView::WritePin(n@, value))
                    && final(self).backend().outcomes() == old(self).backend().outcomes().push(outcome(r))
                    && final(self).warnings_spec() == old(self).warnings_spec() && *final(pin) == *old(pin),
                GpioPin::Null(p) => r is Ok && final(self).backend() == old(self).backend()
                    && (*final(pin) matches GpioPin::Null(q) && p.warned_into(&q, old(self).warnings_spec(), final(self).warnings_spec())),
            },
    {
        match pin {
            GpioPin::Hardware(n) => self.transport.write_pin(n.as_str(), value),
            GpioPin::Null(p) => {
                p.write(value, &mut self.warnings);
                Ok(())
            },
        }
    }

    /// The backend, for inspection.
    pub fn backend_ref(&self) -> (r: &T)
        ensures
            *r == self.backend(),
    {
        &self.transport
    }

    /// Takes the warnings raised so far, oldest first.
    pub fn take_warnings(&mut self) -> (r: Vec<String>)
        ensures
            r@ == old(self).warnings_spec(),
            final(self).warnings_spec() == Seq::<String>::empty(),
            final(self).same_config(old(self)),
            final(self).backend() == old(self).backend(),
    {
        let mut out: Vec<String> = Vec::new();
        std::mem::swap(&mut out, &mut self.warnings);
        out
    }

    /// Configures all pins as input/output, pullup, etc. as declared in configuration files,
    /// then the SPI buses' speeds.
    pub fn apply_default_configuration(&mut self) -> (r: Result<(), TransportError>)
        ensures
            final(self).same_config(old(self)),
            r is Ok ==> final(self).backend().history() == old(self).backend().history() + pin_ops(
                old(self).default_pins().pairs(),
            ) + spi_ops(old(self).default_spi().pairs()),
            r is Err ==> (exists|j: int|
                0 <= j < old(self).default_pins().pairs().len() && final(self).backend().history()
                    == old(self).backend().history() + pin_ops(
                    #[trigger] old(self).default_pins().pairs().take(j + 1),
                )) || (exists|j: int|
                0 <= j < old(self).default_spi().pairs().len() && final(self).backend().history()
                    == old(self).backend().history() + pin_ops(old(self).default_pins().pairs())
                    + spi_ops(#[trigger] old(self).default_spi().pairs().take(j + 1))),
            answered(old(self).backend(), final(self).backend(), r),
            r is Ok ==> final(self).warnings_spec().len() == old(self).warnings_spec().len() + null_count(
                old(self).default_pins().pairs(),
            ),
    {
        let ghost h0 = self.transport.history();
        let r = apply_pins(&mut self.transport, &mut self.warnings, &self.pin_conf_map);
        if r.is_err() {
            proof {
                let p = self.pin_conf_map.pairs();
                let j = choose|j: int| 0 <= j < p.len() && self.transport.history() == h0 + pin_ops(#[trigger] p.take(j + 1));
            }
            return r;
        }
        let ghost h1 = self.transport.history();
        let ghost o1 = self.transport.outcomes();
        let r2 = apply_spi(&mut self.transport, &self.spi_conf_map);
        proof {
            lemma_calls_ok_trans(old(self).transport.outcomes(), o1, self.transport.outcomes());
            let q = self.spi_conf_map.pairs();
            if r2 is Err {
                let j = choose|j: int| 0 <= j < q.len() && self.transport.history() == h1 + spi_ops(#[trigger] q.take(j + 1));
                assert(self.transport.history() == h0 + pin_ops(self.pin_conf_map.pairs()) + spi_ops(q.take(j + 1)));
            } else {
                assert(self.transport.history() == h0 + pin_ops(self.pin_conf_map.pairs()) + spi_ops(q));
            }
        }
        r2
    }

    fn find_strapping(&self, name: &str) -> (r: Option<usize>)
        ensures
            match r {
                Some(i) => i < self.strapping_conf_map@.len() && self.strapping(name@) == Some(
                    self.strapping_conf_map@[i as int].1,
                ),
                None => self.strapping(name@) is None,
            },
    {
        let key = to_upper(name);
        let r = find_last(&self.strapping_conf_map, &key);
        proof {
            match r {
                Some(i) => {
                    assert forall|j: int| i < j < self.strappings().len() implies self.strappings()[j].0 != key@ by {
                        assert(self.strappings()[j].0 == self.strapping_conf_map@[j].0@);
                    }
                    lemma_find_last_lookup(self.strappings(), key@, i as int);
                },
                None => {
                    assert forall|j: int| 0 <= j < self.strappings().len() implies self.strappings()[j].0 != key@ by {
                        assert(self.strappings()[j].0 == self.strapping_conf_map@[j].0@);
                    }
                    lemma_lookup_none(self.strappings(), key@);
                },
            }
        }
        r
    }

    /// Configures the pins of the strapping `strapping_name` (case-insensitive)
    /// as it declares them, in order, stopping at the first backend failure.
    /// An unknown strapping is refused before the backend is touched.
    pub fn apply_pin_strapping(&mut self, strapping_name: &str) -> (r: Result<(), TransportError>)
        ensures
            final(self).same_config(old(self)),
            old(self).strapping_applied(final(self), strapping_name@, r),
    {
        match self.find_strapping(strapping_name) {
            Some(i) => {
                let r = apply_pins(&mut self.transport, &mut self.warnings, &self.strapping_conf_map[i].1);
                proof {
                    let s = old(self).strapping(strapping_name@).unwrap();
                    if r is Err {
                        let j = choose|j: int|
                            0 <= j < s.pairs().len() && self.transport.history()
                                == old(self).transport.history() + pin_ops(#[trigger] s.pairs().take(j + 1));
                    }
                }
                r
            },
            None => Err(TransportError::InvalidStrappingName(strapping_name.to_owned())),
        }
    }

    /// Returns the pins of the strapping `strapping_name` to their default configuration,
    /// that is, to the configuration declared in the "pins" section of configuration
    /// files, outside of any "strappings" section. Pins without a default are left alone.
    pub fn remove_pin_strapping(&mut self, strapping_name: &str) -> (r: Result<(), TransportError>)
        ensures
            final(self).same_config(old(self)),
            old(self).strapping_removed(final(self), strapping_name@, r),
            r is Ok ==> forall|k: Seq<char>|
                #[trigger] pin_state(final(self).backend().history(), k) == if old(self).strapping(strapping_name@).unwrap()@.contains_key(k)
                    && old(self).default_pins()@.contains_key(k) && k != null_name() {
                    Some(old(self).default_pins()@[k])
                } else {
                    pin_state(old(self).backend().history(), k)
                },
    {
        match self.find_strapping(strapping_name) {
            Some(i) => {
                let r = restore_pins(&mut self.transport, &mut self.warnings, &self.strapping_conf_map[i].1, &self.pin_conf_map);
                proof {
                    let s = old(self).strapping(strapping_name@).unwrap();
                    if r is Err {
                        let j = choose|j: int|
                            0 <= j < s.pairs().len() && self.transport.history()
                                == old(self).transport.history() + pin_ops(restore_pairs(#[trigger] s.pairs().take(j + 1), old(self).pin_conf_map@));
                    } else {
                        assert forall|k: Seq<char>|
                            #[trigger] pin_state(self.transport.history(), k) == if s@.contains_key(k)
                                && old(self).pin_conf_map@.contains_key(k) && k != null_name() {
                                Some(old(self).pin_conf_map@[k])
                            } else {
                                pin_state(old(self).transport.history(), k)
                            } by {
                            lemma_restore_state(old(self).transport.history(), s.pairs(), old(self).pin_conf_map@, k);
                            lemma_lookup_some(s.pairs(), k);
                        }
                    }
                }
                r
            },
            None => Err(TransportError::InvalidStrappingName(strapping_name.to_owned())),
        }
    }
}

/// The backend operations that configuring the given SPI buses asks for.
pub open spec fn spi_ops(pairs: Seq<(Seq<char>, SpiConfiguration)>) -> Seq<OpView>
    decreases pairs.len(),
{
    if pairs.len() == 0 {
        Seq::empty()
    } else {
        spi_ops(pairs.drop_last()) + match pairs.last().1.bits_per_sec {
            Some(b) => seq![OpView::SetSpiMaxSpeed(pairs.last().0, b)],
            None => Seq::<OpView>::empty(),
        }
    }
}

fn apply_spi<T: Transport>(transport: &mut T, confs: &ConfMap<SpiConfiguration>) -> (r: Result<(), TransportError>)
    ensures
        r is Ok ==> final(transport).history() == old(transport).history() + spi_ops(confs.pairs()),
        r is Err ==> exists|j: int|
            0 <= j < confs.pairs().len() && final(transport).history() == old(transport).history()
                + spi_ops(#[trigger] confs.pairs().take(j + 1)),
        answered(*old(transport), *final(transport), r),
{
    let ghost h0 = transport.history();
    proof {
        lemma_calls_ok_refl(transport.outcomes());
    }
    let ghost p = confs.pairs();
    let mut i: usize = 0;
    while i < confs.len()
        invariant
            i <= p.len(),
            p == confs.pairs(),
            h0 == old(transport).history(),
            calls_ok(old(transport).outcomes(), transport.outcomes()),
            transport.outcomes().len() - old(transport).outcomes().len() == transport.history().len() - old(transport).history().len(),
            transport.capabilities_spec() == old(transport).capabilities_spec(),
            transport.history() == h0 + spi_ops(p.take(i as int)),
        decreases p.len() - i,
    {
        assert(p.take(i as int + 1).drop_last() =~= p.take(i as int));
        let name = confs.name_at(i);
        let conf = confs.value_at(i);
        let ghost before = transport.history();
        match conf.bits_per_sec {
            Some(b) => {
                let ghost ob = transport.outcomes();
                let res = transport.set_spi_max_speed(name.as_str(), b);
                proof {
                    lemma_calls_ok_push(old(transport).outcomes(), ob, outcome(res));
                }
                assert(h0 + spi_ops(p.take(i as int + 1)) =~= before.push(OpView::SetSpiMaxSpeed(name@, b)));
                assert(transport.history() == h0 + spi_ops(confs.pairs().take(i as int + 1)));
                if res.is_err() {
                    return res;
                }
            },
            None => {
                assert(h0 + spi_ops(p.take(i as int + 1)) =~= before);
            },
        }
        i = i + 1;
    }
    assert(p.take(i as int) =~= p);
    proof {
        assert(calls_ok(old(transport).outcomes(), transport.outcomes()));
    }
    Ok(())
}

impl<T: Transport> TransportWrapper<T> {
    /// Clears the receive buffer of the UART `name`: opens it, then asks the
    /// backend to clear it.
    pub fn clear_uart_rx(&mut self, name: &str) -> (r: Result<(), TransportError>)
        ensures
            final(self).same_config(old(self)),
            final(self).warnings_spec() == old(self).warnings_spec(),
            match resolve_spec(old(self).uart_aliases(), name@) {
                None => r is Err && final(self).backend() == old(self).backend(),
                Some(c) => {
                    &&& answered(old(self).backend(), final(self).backend(), r)
                    &&& r is Ok ==> final(self).backend().history() == old(self).backend().history() + uart_clear_ops(c)
                    &&& r is Err ==> final(self).backend().history() == old(self).backend().history() + uart_clear_ops(c)
                        || final(self).backend().history() == old(self).backend().history().push(OpView::Open(InterfaceKind::Uart, c))
                },
            },
    {
        let ghost o0 = self.transport.outcomes();
        let ghost h0 = self.transport.history();
        proof {
            lemma_calls_ok_refl(o0);
        }
        let uart = match self.uart(name) {
            Ok(u) => u,
            Err(e) => {
                proof {
                    if resolve_spec(old(self).uart_aliases(), name@) is Some {
                        lemma_calls_ok_push(o0, o0, Some(e@));
                    }
                }
                return Err(e);
            },
        };
        let ghost o1 = self.transport.outcomes();
        proof {
            lemma_calls_ok_push(o0, o0, None);
        }
        let r = self.transport.clear_uart_rx(uart.as_str());
        proof {
            lemma_calls_ok_push(o0, o1, outcome(r));
            assert(self.transport.history() =~= h0 + uart_clear_ops(uart@));
        }
        r
    }

    /// Resets the target: asserts the `RESET` strapping, pauses for `delay_ms`,
    /// optionally clears the receive buffer of the UART `console`, removes the
    /// strapping and pauses again. The first step that fails ends the sequence
    /// with its error, and no later step, pause included, is taken.
    pub fn reset_target(&mut self, delay_ms: u64, clear_uart_rx: bool) -> (r: Result<(), TransportError>)
        ensures
            final(self).same_config(old(self)),
            match old(self).strapping("RESET"@) {
                None => r matches Err(e) && e@ == ErrorView::InvalidStrappingName("RESET"@)
                    && final(self).backend().history() == old(self).backend().history()
                    && final(self).backend().outcomes() == old(self).backend().outcomes(),
                Some(s) => {
                    let h0 = old(self).backend().history();
                    let h1 = final(self).backend().history();
                    let o0 = old(self).backend().outcomes();
                    let o1 = final(self).backend().outcomes();
                    let a = pin_ops(s.pairs());
                    let pz = seq![OpView::Pause(delay_ms)];
                    let u = reset_uart_ops(old(self).uart_aliases(), clear_uart_rx);
                    let c = resolve_spec(old(self).uart_aliases(), "console"@).unwrap();
                    let dflt = old(self).default_pins()@;
                    &&& o1.len() - o0.len() == h1.len() - h0.len()
                    &&& r is Ok ==> calls_ok(o0, o1) && h1 == h0 + a + pz + u + pin_ops(restore_pairs(s.pairs(), dflt)) + pz
                    &&& r matches Err(e) ==> (failed_last(o0, o1, e@) && ((exists|j: int|
                        0 <= j < s.pairs().len() && h1 == h0 + pin_ops(#[trigger] s.pairs().take(j + 1)))
                        || (clear_uart_rx && h1 == h0 + a + pz + seq![OpView::Open(InterfaceKind::Uart, c)])
                        || (clear_uart_rx && h1 == h0 + a + pz + uart_clear_ops(c))
                        || (exists|j: int|
                        0 <= j < s.pairs().len() && h1 == h0 + a + pz + u + pin_ops(
                            restore_pairs(#[trigger] s.pairs().take(j + 1), dflt),
                        )))) || (clear_uart_rx && resolve_spec(old(self).uart_aliases(), "console"@) is None
                        && calls_ok(o0, o1) && h1 == h0 + a + pz)
                },
            },
    {
        let ghost o0 = self.transport.outcomes();
        let ghost h0 = self.transport.history();
        let r1 = self.apply_pin_strapping("RESET");
        if r1.is_err() {
            return r1;
        }
        let ghost o1 = self.transport.outcomes();
        self.transport.pause(delay_ms);
        proof {
            lemma_calls_ok_push(o0, o1, None);
        }
        let ghost o2 = self.transport.outcomes();
        let ghost h2 = self.transport.history();
        if clear_uart_rx {
            let c = self.clear_uart_rx("console");
            proof {
                if resolve_spec(old(self).uart_aliases(), "console"@) is Some {
                    lemma_calls_ok_trans(o0, o2, self.transport.outcomes());
                }
            }
            if c.is_err() {
                return c;
            }
        } else {
            assert(h2 + reset_uart_ops(old(self).uart_aliases(), clear_uart_rx) =~= h2);
        }
        let ghost o3 = self.transport.outcomes();
        let r3 = self.remove_pin_strapping("RESET");
        proof {
            lemma_calls_ok_trans(o0, o3, self.transport.outcomes());
        }
        if r3.is_err() {
            return r3;
        }
        let ghost o4 = self.transport.outcomes();
        self.transport.pause(delay_ms);
        proof {
            lemma_calls_ok_push(o0, o4, None);
        }
        Ok(())
    }
}

/// Opening the UART `c` and clearing its receive buffer.
pub open spec fn uart_clear_ops(c: Seq<char>) -> Seq<OpView> {
    seq![OpView::Open(InterfaceKind::Uart, c), OpView::ClearUartRx(c)]
}

/// The UART operations of a reset: clearing the console's receive buffer when asked.
pub open spec fn reset_uart_ops(uarts: Map<Seq<char>, Seq<char>>, clear_uart_rx: bool) -> Seq<OpView> {
    if clear_uart_rx {
        uart_clear_ops(resolve_spec(uarts, "console"@).unwrap())
    } else {
        Seq::empty()
    }
}

} // verus!
