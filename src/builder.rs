use vstd::prelude::*;
use crate::alias::AliasMap;
use crate::config::{PinConfiguration, SpiConfiguration};
use crate::confmap::ConfMap;
use crate::consolidate::{
    consolidate_pin_conf_map, consolidate_pins_spec, consolidate_spi_conf_map,
    consolidate_spi_spec, decl_view,
};
use crate::error::{ErrorView, InterfaceKind, TransportError};
use crate::file::{ConfigurationFile, PinEntry, SpiEntry, StrappingEntry, UartEntry};
use crate::names::{to_upper, upper_of};
use crate::transport::Transport;
use crate::wrapper::TransportWrapper;

verus! {

pub open spec fn entry_conf(e: PinEntry) -> PinConfiguration {
    PinConfiguration { mode: e.mode, level: e.level, pull_mode: e.pull_mode }
}

/// The pin declarations that carry some field, as (name, configuration) pairs.
pub open spec fn pin_records(pins: Seq<PinEntry>) -> Seq<(Seq<char>, PinConfiguration)>
    decreases pins.len(),
{
    if pins.len() == 0 {
        Seq::empty()
    } else {
        pin_records(pins.drop_last()) + if entry_conf(pins.last()).is_unset() {
            Seq::empty()
        } else {
            seq![(pins.last().name@, entry_conf(pins.last()))]
        }
    }
}

/// The SPI declarations that carry a speed, as (name, configuration) pairs.
pub open spec fn spi_records(buses: Seq<SpiEntry>) -> Seq<(Seq<char>, SpiConfiguration)>
    decreases buses.len(),
{
    if buses.len() == 0 {
        Seq::empty()
    } else {
        spi_records(buses.drop_last()) + if buses.last().bits_per_sec is None {
            Seq::empty()
        } else {
            seq![(buses.last().name@, SpiConfiguration { bits_per_sec: buses.last().bits_per_sec })]
        }
    }
}

/// The alias map after recording, in order, each (name, alias target) declaration.
pub open spec fn alias_updates(
    m: Map<Seq<char>, Seq<char>>,
    ds: Seq<(Seq<char>, Option<String>)>,
) -> Map<Seq<char>, Seq<char>>
    decreases ds.len(),
{
    if ds.len() == 0 {
        m
    } else {
        let m2 = alias_updates(m, ds.drop_last());
        match ds.last().1 {
            Some(a) => m2.insert(upper_of(ds.last().0), a@),
            None => m2,
        }
    }
}

pub open spec fn pin_aliases_of(pins: Seq<PinEntry>) -> Seq<(Seq<char>, Option<String>)> {
    pins.map_values(|e: PinEntry| (e.name@, e.alias_of))
}

pub open spec fn spi_aliases_of(buses: Seq<SpiEntry>) -> Seq<(Seq<char>, Option<String>)> {
    buses.map_values(|e: SpiEntry| (e.name@, e.alias_of))
}

pub open spec fn uart_aliases_of(uarts: Seq<UartEntry>) -> Seq<(Seq<char>, Option<String>)> {
    uarts.map_values(|e: UartEntry| (e.name@, e.alias_of))
}

/// Strapping pin declarations, as (uppercase strapping name, pin name, configuration).
pub open spec fn strap_records(straps: Seq<StrappingEntry>) -> Seq<(Seq<char>, Seq<char>, PinConfiguration)>
    decreases straps.len(),
{
    if straps.len() == 0 {
        Seq::empty()
    } else {
        let s = straps.last();
        strap_records(straps.drop_last()) + pin_records(s.pins@).map_values(
            |r: (Seq<char>, PinConfiguration)| (upper_of(s.name@), r.0, r.1),
        )
    }
}

/// The list of strapping names after adding those of `straps` not yet in it.
pub open spec fn strap_names(names: Seq<Seq<char>>, straps: Seq<StrappingEntry>) -> Seq<Seq<char>>
    decreases straps.len(),
{
    if straps.len() == 0 {
        names
    } else {
        let n2 = strap_names(names, straps.drop_last());
        let k = upper_of(straps.last().name@);
        if n2.contains(k) {
            n2
        } else {
            n2.push(k)
        }
    }
}

/// The declarations of strapping `s`, in order.
pub open spec fn strap_decls(
    list: Seq<(Seq<char>, Seq<char>, PinConfiguration)>,
    s: Seq<char>,
) -> Seq<(Seq<char>, PinConfiguration)>
    decreases list.len(),
{
    if list.len() == 0 {
        Seq::empty()
    } else {
        strap_decls(list.drop_last(), s) + if list.last().0 == s {
            seq![(list.last().1, list.last().2)]
        } else {
            Seq::empty()
        }
    }
}

/// The first error met while consolidating the strappings, in the order of `names`.
pub open spec fn straps_error(
    m: Map<Seq<char>, Seq<char>>,
    names: Seq<Seq<char>>,
    list: Seq<(Seq<char>, Seq<char>, PinConfiguration)>,
) -> Option<ErrorView>
    decreases names.len(),
{
    if names.len() == 0 {
        None
    } else {
        match straps_error(m, names.drop_last(), list) {
            Some(e) => Some(e),
            None => match consolidate_pins_spec(m, InterfaceKind::Gpio, strap_decls(list, names.last())) {
                Err(e) => Some(e),
                Ok(_) => None,
            },
        }
    }
}

proof fn lemma_straps_error_sticky(
    m: Map<Seq<char>, Seq<char>>,
    names: Seq<Seq<char>>,
    list: Seq<(Seq<char>, Seq<char>, PinConfiguration)>,
    j: int,
)
    requires
        0 <= j <= names.len(),
        straps_error(m, names.take(j), list) is Some,
    ensures
        straps_error(m, names, list) == straps_error(m, names.take(j), list),
    decreases names.len() - j,
{
    if j == names.len() {
        assert(names.take(j) =~= names);
    } else {
        assert(names.take(j + 1).drop_last() =~= names.take(j));
        lemma_straps_error_sticky(m, names, list, j + 1);
    }
}

pub open spec fn triple_view(
    list: Seq<(String, String, PinConfiguration)>,
) -> Seq<(Seq<char>, Seq<char>, PinConfiguration)> {
    list.map_values(|e: (String, String, PinConfiguration)| (e.0@, e.1@, e.2))
}

/// The declarations of one strapping, in order.
fn strap_list(list: &Vec<(String, String, PinConfiguration)>, s: &String) -> (r: Vec<(String, PinConfiguration)>)
    ensures
        decl_view(r@) == strap_decls(triple_view(list@), s@),
{
    let mut r: Vec<(String, PinConfiguration)> = Vec::new();
    let mut i: usize = 0;
    while i < list.len()
        invariant
            i <= list@.len(),
            decl_view(r@) == strap_decls(triple_view(list@).take(i as int), s@),
        decreases list@.len() - i,
    {
        assert(triple_view(list@).take(i as int + 1).drop_last() =~= triple_view(list@).take(i as int));
        let ghost before = decl_view(r@);
        if list[i].0 == *s {
            r.push((list[i].1.clone(), list[i].2));
            assert(decl_view(r@) =~= before.push((list@[i as int].1@, list@[i as int].2)));
        }
        i = i + 1;
    }
    assert(triple_view(list@).take(i as int) =~= triple_view(list@));
    r
}

fn record_pin_conf(list: &mut Vec<(String, PinConfiguration)>, pin: &PinEntry)
    ensures
        decl_view(final(list)@) == decl_view(old(list)@) + if entry_conf(*pin).is_unset() {
            Seq::empty()
        } else {
            seq![(pin.name@, entry_conf(*pin))]
        },
{
    let conf = PinConfiguration { mode: pin.mode, level: pin.level, pull_mode: pin.pull_mode };
    let ghost before = decl_view(list@);
    if !conf.is_empty() {
        list.push((pin.name.clone(), conf));
        assert(decl_view(list@) =~= before.push((pin.name@, conf)));
    } else {
        assert(decl_view(list@) =~= before + Seq::empty());
    }
}

fn record_spi_conf(list: &mut Vec<(String, SpiConfiguration)>, bus: &SpiEntry)
    ensures
        decl_view(final(list)@) == decl_view(old(list)@) + if bus.bits_per_sec is None {
            Seq::empty()
        } else {
            seq![(bus.name@, SpiConfiguration { bits_per_sec: bus.bits_per_sec })]
        },
{
    let ghost before = decl_view(list@);
    if bus.bits_per_sec.is_some() {
        list.push((bus.name.clone(), SpiConfiguration { bits_per_sec: bus.bits_per_sec }));
        assert(decl_view(list@) =~= before.push((bus.name@, SpiConfiguration { bits_per_sec: bus.bits_per_sec })));
    } else {
        assert(decl_view(list@) =~= before + Seq::empty());
    }
}

fn record_alias(map: &mut AliasMap, name: &String, alias_of: &Option<String>)
    ensures
        final(map)@ == match *alias_of {
            Some(a) => old(map)@.insert(upper_of(name@), a@),
            None => old(map)@,
        },
        final(map).kind_spec() == old(map).kind_spec(),
{
    match alias_of {
        Some(a) => map.insert(name.as_str(), a.as_str()),
        None => {},
    }
}

fn contains_string(v: &Vec<String>, s: &String) -> (r: bool)
    ensures
        r == v@.map_values(|x: String| x@).contains(s@),
{
    let mut i: usize = 0;
    while i < v.len()
        invariant
            i <= v@.len(),
            forall|j: int| 0 <= j < i ==> v@[j]@ != s@,
        decreases v@.len() - i,
    {
        if v[i] == *s {
            assert(v@.map_values(|x: String| x@)[i as int] == s@);
            return true;
        }
        i = i + 1;
    }
    proof {
        let vv = v@.map_values(|x: String| x@);
        if vv.contains(s@) {
            let j = choose|j: int| 0 <= j < vv.len() && #[trigger] vv[j] == s@;
            assert(v@[j]@ == s@);
        }
    }
    false
}

pub struct TransportWrapperBuilder<T: Transport> {
    transport: T,
    pin_alias_map: AliasMap,
    uart_map: AliasMap,
    spi_map: AliasMap,
    i2c_map: AliasMap,
    pin_conf_list: Vec<(String, PinConfiguration)>,
    spi_conf_list: Vec<(String, SpiConfiguration)>,
    strapping_names: Vec<String>,
    strapping_conf_list: Vec<(String, String, PinConfiguration)>,
}

impl<T: Transport> TransportWrapperBuilder<T> {
    pub closed spec fn backend(&self) -> T {
        self.transport
    }

    pub closed spec fn pin_aliases(&self) -> Map<Seq<char>, Seq<char>> {
        self.pin_alias_map@
    }

    pub closed spec fn spi_aliases(&self) -> Map<Seq<char>, Seq<char>> {
        self.spi_map@
    }

    pub closed spec fn uart_aliases(&self) -> Map<Seq<char>, Seq<char>> {
        self.uart_map@
    }

    pub closed spec fn i2c_aliases(&self) -> Map<Seq<char>, Seq<char>> {
        self.i2c_map@
    }

    /// Recorded pin declarations, in load order.
    pub closed spec fn pin_decls(&self) -> Seq<(Seq<char>, PinConfiguration)> {
        decl_view(self.pin_conf_list@)
    }

    /// Recorded SPI declarations, in load order.
    pub closed spec fn spi_decls(&self) -> Seq<(Seq<char>, SpiConfiguration)> {
        decl_view(self.spi_conf_list@)
    }

    /// Declared strapping names, uppercase, in order of first declaration.
    pub closed spec fn strapping_names_spec(&self) -> Seq<Seq<char>> {
        self.strapping_names@.map_values(|s: String| s@)
    }

    /// Recorded strapping pin declarations, in load order.
    pub closed spec fn strap_decls_spec(&self) -> Seq<(Seq<char>, Seq<char>, PinConfiguration)> {
        self.strapping_conf_list@.map_values(|e: (String, String, PinConfiguration)| (e.0@, e.1@, e.2))
    }

    pub closed spec fn wf(&self) -> bool {
        &&& self.pin_alias_map.kind_spec() == InterfaceKind::Gpio
        &&& self.spi_map.kind_spec() == InterfaceKind::Spi
        &&& self.uart_map.kind_spec() == InterfaceKind::Uart
        &&& self.i2c_map.kind_spec() == InterfaceKind::I2c
        &&& self.strapping_names_spec().no_duplicates()
    }

    /// The first error that `build` meets, if any.
    pub open spec fn build_error(&self) -> Option<ErrorView> {
        match consolidate_pins_spec(self.pin_aliases(), InterfaceKind::Gpio, self.pin_decls()) {
            Err(e) => Some(e),
            Ok(_) => match straps_error(self.pin_aliases(), self.strapping_names_spec(), self.strap_decls_spec()) {
                Some(e) => Some(e),
                None => match consolidate_spi_spec(self.spi_aliases(), InterfaceKind::Spi, self.spi_decls()) {
                    Err(e) => Some(e),
                    Ok(_) => None,
                },
            },
        }
    }

    pub fn new(transport: T) -> (r: Self)
        ensures
            r.wf(),
            r.backend() == transport,
            r.pin_aliases() == Map::<Seq<char>, Seq<char>>::empty(),
            r.spi_aliases() == Map::<Seq<char>, Seq<char>>::empty(),
            r.uart_aliases() == Map::<Seq<char>, Seq<char>>::empty(),
            r.i2c_aliases() == Map::<Seq<char>, Seq<char>>::empty(),
            r.pin_decls() == Seq::<(Seq<char>, PinConfiguration)>::empty(),
            r.spi_decls() == Seq::<(Seq<char>, SpiConfiguration)>::empty(),
            r.strapping_names_spec() == Seq::<Seq<char>>::empty(),
            r.strap_decls_spec() == Seq::<(Seq<char>, Seq<char>, PinConfiguration)>::empty(),
    {
        let r = TransportWrapperBuilder {
            transport,
            pin_alias_map: AliasMap::new(InterfaceKind::Gpio),
            uart_map: AliasMap::new(InterfaceKind::Uart),
            spi_map: AliasMap::new(InterfaceKind::Spi),
            i2c_map: AliasMap::new(InterfaceKind::I2c),
            pin_conf_list: Vec::new(),
            spi_conf_list: Vec::new(),
            strapping_names: Vec::new(),
            strapping_conf_list: Vec::new(),
        };
        assert(r.pin_decls() =~= Seq::<(Seq<char>, PinConfiguration)>::empty());
        assert(r.spi_decls() =~= Seq::<(Seq<char>, SpiConfiguration)>::empty());
        assert(r.strapping_names_spec() =~= Seq::<Seq<char>>::empty());
        assert(r.strap_decls_spec() =~= Seq::<(Seq<char>, Seq<char>, PinConfiguration)>::empty());
        r
    }
}

impl<T: Transport> TransportWrapperBuilder<T> {
    /// Records the declarations of one configuration fragment: alias entries,
    /// pin, strapping and SPI declarations that carry some field, and UART aliases.
    pub fn add_configuration_file(&mut self, file: ConfigurationFile) -> (r: Result<(), TransportError>)
        requires
            old(self).wf(),
        ensures
            r is Ok,
            final(self).wf(),
            final(self).backend() == old(self).backend(),
            final(self).pin_aliases() == alias_updates(old(self).pin_aliases(), pin_aliases_of(file.pins@)),
            final(self).pin_decls() == old(self).pin_decls() + pin_records(file.pins@),
            final(self).strapping_names_spec() == strap_names(old(self).strapping_names_spec(), file.strappings@),
            final(self).strap_decls_spec() == old(self).strap_decls_spec() + strap_records(file.strappings@),
            final(self).spi_aliases() == alias_updates(old(self).spi_aliases(), spi_aliases_of(file.spi@)),
            final(self).spi_decls() == old(self).spi_decls() + spi_records(file.spi@),
            final(self).uart_aliases() == alias_updates(old(self).uart_aliases(), uart_aliases_of(file.uarts@)),
            final(self).i2c_aliases() == old(self).i2c_aliases(),
    {
        let pins = &file.pins;
        let mut i: usize = 0;
        while i < pins.len()
            invariant
                i <= pins@.len(),
                self.wf(),
                self.backend() == old(self).backend(),
                self.pin_aliases() == alias_updates(old(self).pin_aliases(), pin_aliases_of(pins@.take(i as int))),
                self.pin_decls() == old(self).pin_decls() + pin_records(pins@.take(i as int)),
                self.strapping_names_spec() == old(self).strapping_names_spec(),
                self.strap_decls_spec() == old(self).strap_decls_spec(),
                self.spi_aliases() == old(self).spi_aliases(),
                self.spi_decls() == old(self).spi_decls(),
                self.uart_aliases() == old(self).uart_aliases(),
                self.i2c_aliases() == old(self).i2c_aliases(),
            decreases pins@.len() - i,
        {
            assert(pins@.take(i as int + 1).drop_last() =~= pins@.take(i as int));
            assert(pin_aliases_of(pins@.take(i as int + 1)).drop_last() =~= pin_aliases_of(pins@.take(i as int)));
            let ghost d0 = self.pin_decls();
            record_alias(&mut self.pin_alias_map, &pins[i].name, &pins[i].alias_of);
            record_pin_conf(&mut self.pin_conf_list, &pins[i]);
            assert(self.pin_decls() =~= old(self).pin_decls() + pin_records(pins@.take(i as int + 1)));
            i = i + 1;
        }
        assert(pins@.take(i as int) =~= pins@);
        let straps = &file.strappings;
        let mut j: usize = 0;
        while j < straps.len()
            invariant
                j <= straps@.len(),
                self.wf(),
                self.backend() == old(self).backend(),
                self.pin_aliases() == alias_updates(old(self).pin_aliases(), pin_aliases_of(file.pins@)),
                self.pin_decls() == old(self).pin_decls() + pin_records(file.pins@),
                self.strapping_names_spec() == strap_names(old(self).strapping_names_spec(), straps@.take(j as int)),
                self.strap_decls_spec() == old(self).strap_decls_spec() + strap_records(straps@.take(j as int)),
                self.spi_aliases() == old(self).spi_aliases(),
                self.spi_decls() == old(self).spi_decls(),
                self.uart_aliases() == old(self).uart_aliases(),
                self.i2c_aliases() == old(self).i2c_aliases(),
            decreases straps@.len() - j,
        {
            assert(straps@.take(j as int + 1).drop_last() =~= straps@.take(j as int));
            let st = &straps[j];
            let key = to_upper(st.name.as_str());
            if !contains_string(&self.strapping_names, &key) {
                let ghost before = self.strapping_names_spec();
                self.strapping_names.push(key.clone());
                assert(self.strapping_names_spec() =~= before.push(key@));
                assert forall|a: int, b: int| 0 <= a < b < self.strapping_names_spec().len()
                    implies self.strapping_names_spec()[a] != self.strapping_names_spec()[b] by {
                    if b == before.len() {
                        assert(before[a] == self.strapping_names_spec()[a]);
                    }
                }
            }
            let ghost base = self.strap_decls_spec();
            let mut k: usize = 0;
            while k < st.pins.len()
                invariant
                    k <= st.pins@.len(),
                    self.strap_decls_spec() == base + pin_records(st.pins@.take(k as int)).map_values(
                        |r: (Seq<char>, PinConfiguration)| (upper_of(st.name@), r.0, r.1),
                    ),
                    key@ == upper_of(st.name@),
                    self.wf(),
                    self.backend() == old(self).backend(),
                    self.pin_aliases() == alias_updates(old(self).pin_aliases(), pin_aliases_of(file.pins@)),
                    self.pin_decls() == old(self).pin_decls() + pin_records(file.pins@),
                    self.strapping_names_spec() == strap_names(old(self).strapping_names_spec(), straps@.take(j as int + 1)),
                    self.spi_aliases() == old(self).spi_aliases(),
                    self.spi_decls() == old(self).spi_decls(),
                    self.uart_aliases() == old(self).uart_aliases(),
                    self.i2c_aliases() == old(self).i2c_aliases(),
                decreases st.pins@.len() - k,
            {
                assert(st.pins@.take(k as int + 1).drop_last() =~= st.pins@.take(k as int));
                let p = &st.pins[k];
                let ghost before = self.strap_decls_spec();
                let conf = PinConfiguration { mode: p.mode, level: p.level, pull_mode: p.pull_mode };
                if !conf.is_empty() {
                    self.strapping_conf_list.push((key.clone(), p.name.clone(), conf));
                    assert(self.strap_decls_spec() =~= before.push((key@, p.name@, conf)));
                }
                assert(self.strap_decls_spec() =~= base + pin_records(st.pins@.take(k as int + 1)).map_values(
                    |r: (Seq<char>, PinConfiguration)| (upper_of(st.name@), r.0, r.1),
                ));
                k = k + 1;
            }
            assert(st.pins@.take(k as int) =~= st.pins@);
            assert(self.strap_decls_spec() =~= old(self).strap_decls_spec() + strap_records(straps@.take(j as int + 1)));
            j = j + 1;
        }
        assert(straps@.take(j as int) =~= straps@);
        let buses = &file.spi;
        let mut i: usize = 0;
        while i < buses.len()
            invariant
                i <= buses@.len(),
                self.wf(),
                self.backend() == old(self).backend(),
                self.pin_aliases() == alias_updates(old(self).pin_aliases(), pin_aliases_of(file.pins@)),
                self.pin_decls() == old(self).pin_decls() + pin_records(file.pins@),
                self.strapping_names_spec() == strap_names(old(self).strapping_names_spec(), file.strappings@),
                self.strap_decls_spec() == old(self).strap_decls_spec() + strap_records(file.strappings@),
                self.spi_aliases() == alias_updates(old(self).spi_aliases(), spi_aliases_of(buses@.take(i as int))),
                self.spi_decls() == old(self).spi_decls() + spi_records(buses@.take(i as int)),
                self.uart_aliases() == old(self).uart_aliases(),
                self.i2c_aliases() == old(self).i2c_aliases(),
            decreases buses@.len() - i,
        {
            assert(buses@.take(i as int + 1).drop_last() =~= buses@.take(i as int));
            assert(spi_aliases_of(buses@.take(i as int + 1)).drop_last() =~= spi_aliases_of(buses@.take(i as int)));
            record_alias(&mut self.spi_map, &buses[i].name, &buses[i].alias_of);
            record_spi_conf(&mut self.spi_conf_list, &buses[i]);
            assert(self.spi_decls() =~= old(self).spi_decls() + spi_records(buses@.take(i as int + 1)));
            i = i + 1;
        }
        assert(buses@.take(i as int) =~= buses@);
        let uarts = &file.uarts;
        let mut i: usize = 0;
        while i < uarts.len()
            invariant
                i <= uarts@.len(),
                self.wf(),
                self.backend() == old(self).backend(),
                self.pin_aliases() == alias_updates(old(self).pin_aliases(), pin_aliases_of(file.pins@)),
                self.pin_decls() == old(self).pin_decls() + pin_records(file.pins@),
                self.strapping_names_spec() == strap_names(old(self).strapping_names_spec(), file.strappings@),
                self.strap_decls_spec() == old(self).strap_decls_spec() + strap_records(file.strappings@),
                self.spi_aliases() == alias_updates(old(self).spi_aliases(), spi_aliases_of(file.spi@)),
                self.spi_decls() == old(self).spi_decls() + spi_records(file.spi@),
                self.uart_aliases() == alias_updates(old(self).uart_aliases(), uart_aliases_of(uarts@.take(i as int))),
                self.i2c_aliases() == old(self).i2c_aliases(),
            decreases uarts@.len() - i,
        {
            assert(uart_aliases_of(uarts@.take(i as int + 1)).drop_last() =~= uart_aliases_of(uarts@.take(i as int)));
            record_alias(&mut self.uart_map, &uarts[i].name, &uarts[i].alias_of);
            i = i + 1;
        }
        assert(uarts@.take(i as int) =~= uarts@);
        Ok(())
    }
}

impl<T: Transport> TransportWrapperBuilder<T> {
    /// Consolidates the default pin map, each strapping (in order of first
    /// declaration) and the default SPI map, and hands the result and the
    /// backend to a new wrapper. The first alias cycle or conflict aborts it.
    pub fn build(self) -> (r: Result<TransportWrapper<T>, TransportError>)
        requires
            self.wf(),
        ensures
            r is Err <==> self.build_error() is Some,
            r matches Err(e) ==> self.build_error() == Some(e@),
            r matches Ok(w) ==> {
                &&& w.backend() == self.backend()
                &&& w.pin_aliases() == self.pin_aliases()
                &&& w.spi_aliases() == self.spi_aliases()
                &&& w.uart_aliases() == self.uart_aliases()
                &&& w.i2c_aliases() == self.i2c_aliases()
                &&& w.default_pins().wf()
                &&& w.default_spi().wf()
                &&& consolidate_pins_spec(self.pin_aliases(), InterfaceKind::Gpio, self.pin_decls())
                    == Ok::<_, ErrorView>(w.default_pins()@)
                &&& consolidate_spi_spec(self.spi_aliases(), InterfaceKind::Spi, self.spi_decls())
                    == Ok::<_, ErrorView>(w.default_spi()@)
                &&& w.strappings().len() == self.strapping_names_spec().len()
                &&& forall|i: int| 0 <= i < w.strappings().len() ==> (#[trigger] w.strappings()[i]).1.wf()
                &&& forall|i: int, j: int|
                    0 <= i < j < w.strappings().len() ==> (#[trigger] w.strappings()[i]).0 != (#[trigger] w.strappings()[j]).0
                &&& forall|i: int|
                    0 <= i < w.strappings().len() ==> (#[trigger] w.strappings()[i]).0
                        == self.strapping_names_spec()[i] && consolidate_pins_spec(
                        self.pin_aliases(),
                        InterfaceKind::Gpio,
                        strap_decls(self.strap_decls_spec(), self.strapping_names_spec()[i]),
                    ) == Ok::<_, ErrorView>(w.strappings()[i].1@)
            },
    {
        let pin_conf_map = consolidate_pin_conf_map(&self.pin_alias_map, &self.pin_conf_list)?;
        let ghost names = self.strapping_names_spec();
        let mut strapping_conf_map: Vec<(String, ConfMap<PinConfiguration>)> = Vec::new();
        let mut i: usize = 0;
        while i < self.strapping_names.len()
            invariant
                i <= names.len(),
                names == self.strapping_names_spec(),
                self.wf(),
                consolidate_pins_spec(self.pin_aliases(), InterfaceKind::Gpio, self.pin_decls()) == Ok::<_, ErrorView>(pin_conf_map@),
                straps_error(self.pin_aliases(), names.take(i as int), self.strap_decls_spec()) is None,
                strapping_conf_map@.len() == i,
                forall|k: int| 0 <= k < i ==> (#[trigger] strapping_conf_map@[k]).1.wf(),
                forall|k: int|
                    0 <= k < i ==> (#[trigger] strapping_conf_map@[k]).0@ == names[k]
                        && consolidate_pins_spec(
                        self.pin_aliases(),
                        InterfaceKind::Gpio,
                        strap_decls(self.strap_decls_spec(), names[k]),
                    ) == Ok::<_, ErrorView>(strapping_conf_map@[k].1@),
            decreases names.len() - i,
        {
            assert(names.take(i as int + 1).drop_last() =~= names.take(i as int));
            let name = &self.strapping_names[i];
            let list = strap_list(&self.strapping_conf_list, name);
            assert(triple_view(self.strapping_conf_list@) == self.strap_decls_spec());
            match consolidate_pin_conf_map(&self.pin_alias_map, &list) {
                Ok(m) => {
                    strapping_conf_map.push((name.clone(), m));
                },
                Err(e) => {
                    proof {
                        assert(names.take(i as int + 1).last() == names[i as int]);
                        lemma_straps_error_sticky(self.pin_aliases(), names, self.strap_decls_spec(), i as int + 1);
                    }
                    return Err(e);
                },
            }
            i = i + 1;
        }
        assert(names.take(i as int) =~= names);
        let spi_conf_map = consolidate_spi_conf_map(&self.spi_map, &self.spi_conf_list)?;
        let w = TransportWrapper::from_parts(
            self.transport,
            self.pin_alias_map,
            self.uart_map,
            self.spi_map,
            self.i2c_map,
            pin_conf_map,
            spi_conf_map,
            strapping_conf_map,
        );
        assert forall|k: int| 0 <= k < w.strappings().len() implies (#[trigger] w.strappings()[k]).0 == names[k]
            && w.strappings()[k].1.wf() by {
            assert(w.strappings()[k].0 == strapping_conf_map@[k].0@);
            assert(strapping_conf_map@[k].1.wf());
        }
        assert(names.no_duplicates());
        Ok(w)
    }
}

} // verus!
