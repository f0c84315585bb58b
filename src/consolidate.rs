use vstd::prelude::*;
use crate::alias::{cycle_name, resolve_spec, AliasMap};
use crate::config::{PartialConf, PinConfiguration, SpiConfiguration};
use crate::confmap::ConfMap;
use crate::error::{ErrorView, InterfaceKind, TransportError};

verus! {

pub open spec fn decl_view<C>(list: Seq<(String, C)>) -> Seq<(Seq<char>, C)> {
    list.map_values(|e: (String, C)| (e.0@, e.1))
}

/// Folds declarations, in order, into one configuration per canonical name
/// (see `conf_step`). Declarations with no field set are skipped; the first
/// alias cycle or conflict met is the result.
pub open spec fn consolidate_spec<C: PartialConf>(
    m: Map<Seq<char>, Seq<char>>,
    kind: InterfaceKind,
    decls: Seq<(Seq<char>, C)>,
) -> Result<Map<Seq<char>, C>, ErrorView>
    decreases decls.len(),
{
    if decls.len() == 0 {
        Ok(Map::empty())
    } else {
        conf_step(m, kind, consolidate_spec(m, kind, decls.drop_last()), decls.last())
    }
}

/// Folding one more declaration into a consolidation result.
pub open spec fn conf_step<C: PartialConf>(
    m: Map<Seq<char>, Seq<char>>,
    kind: InterfaceKind,
    acc: Result<Map<Seq<char>, C>, ErrorView>,
    e: (Seq<char>, C),
) -> Result<Map<Seq<char>, C>, ErrorView> {
    match acc {
        Err(err) => Err(err),
        Ok(a) => {
            if e.1.unset() {
                Ok(a)
            } else {
                match resolve_spec(m, e.0) {
                    None => Err(ErrorView::AliasCycle(kind, cycle_name(m, e.0))),
                    Some(k) => {
                        let cur = if a.contains_key(k) {
                            a[k]
                        } else {
                            C::blank()
                        };
                        if cur.fits(e.1) {
                            Ok(a.insert(k, cur.joined(e.1)))
                        } else {
                            Err(ErrorView::InconsistentConf(kind, k, cur.clash_with(e.1)))
                        }
                    },
                }
            }
        },
    }
}

/// The consolidation of pin declarations.
pub open spec fn consolidate_pins_spec(
    m: Map<Seq<char>, Seq<char>>,
    kind: InterfaceKind,
    decls: Seq<(Seq<char>, PinConfiguration)>,
) -> Result<Map<Seq<char>, PinConfiguration>, ErrorView> {
    consolidate_spec(m, kind, decls)
}

/// The consolidation of SPI declarations.
pub open spec fn consolidate_spi_spec(
    m: Map<Seq<char>, Seq<char>>,
    kind: InterfaceKind,
    decls: Seq<(Seq<char>, SpiConfiguration)>,
) -> Result<Map<Seq<char>, SpiConfiguration>, ErrorView> {
    consolidate_spec(m, kind, decls)
}

proof fn lemma_err_sticky<C: PartialConf>(
    m: Map<Seq<char>, Seq<char>>,
    kind: InterfaceKind,
    d: Seq<(Seq<char>, C)>,
    j: int,
)
    requires
        0 <= j <= d.len(),
        consolidate_spec(m, kind, d.take(j)) is Err,
    ensures
        consolidate_spec(m, kind, d) == consolidate_spec(m, kind, d.take(j)),
    decreases d.len() - j,
{
    if j == d.len() {
        assert(d.take(j) =~= d);
    } else {
        assert(d.take(j + 1).drop_last() =~= d.take(j));
        lemma_err_sticky(m, kind, d, j + 1);
    }
}

/// Resolves every declared pin name through `aliases` and merges all
/// declarations that reach the same canonical name.
pub fn consolidate_pin_conf_map(aliases: &AliasMap, list: &Vec<(String, PinConfiguration)>) -> (r:
    Result<ConfMap<PinConfiguration>, TransportError>)
    ensures
        r matches Ok(c) ==> c.wf() && consolidate_pins_spec(aliases@, aliases.kind_spec(), decl_view(list@)) == Ok::<_, ErrorView>(c@),
        r matches Err(e) ==> consolidate_pins_spec(aliases@, aliases.kind_spec(), decl_view(list@)) == Err::<Map<Seq<char>, PinConfiguration>, _>(e@),
{
    let mut acc: ConfMap<PinConfiguration> = ConfMap::new();
    let mut i: usize = 0;
    while i < list.len()
        invariant
            i <= list@.len(),
            acc.wf(),
            consolidate_pins_spec(aliases@, aliases.kind_spec(), decl_view(list@).take(i as int)) == Ok::<_, ErrorView>(acc@),
        decreases list@.len() - i,
    {
        let ghost d = decl_view(list@).take(i as int + 1);
        assert(d.drop_last() =~= decl_view(list@).take(i as int));
        let conf = list[i].1;
        if !conf.is_empty() {
            let name = match aliases.resolve(list[i].0.as_str()) {
                Ok(name) => name,
                Err(e) => {
                    proof {
                        lemma_err_sticky::<PinConfiguration>(aliases@, aliases.kind_spec(), decl_view(list@), i as int + 1);
                    }
                    return Err(e);
                },
            };
            let mut cur = match acc.get(&name) {
                Some(c) => c,
                None => PinConfiguration::empty(),
            };
            match cur.merge(&conf) {
                Ok(()) => {},
                Err(c) => {
                    proof {
                        lemma_err_sticky::<PinConfiguration>(aliases@, aliases.kind_spec(), decl_view(list@), i as int + 1);
                    }
                    return Err(TransportError::InconsistentConf(aliases.kind(), name, c));
                },
            }
            acc.put(name, cur);
        }
        i = i + 1;
    }
    assert(decl_view(list@).take(i as int) =~= decl_view(list@));
    Ok(acc)
}

/// Resolves every declared SPI bus name through `aliases` and merges all
/// declarations that reach the same canonical name.
pub fn consolidate_spi_conf_map(aliases: &AliasMap, list: &Vec<(String, SpiConfiguration)>) -> (r:
    Result<ConfMap<SpiConfiguration>, TransportError>)
    ensures
        r matches Ok(c) ==> c.wf() && consolidate_spi_spec(aliases@, aliases.kind_spec(), decl_view(list@)) == Ok::<_, ErrorView>(c@),
        r matches Err(e) ==> consolidate_spi_spec(aliases@, aliases.kind_spec(), decl_view(list@)) == Err::<Map<Seq<char>, SpiConfiguration>, _>(e@),
{
    let mut acc: ConfMap<SpiConfiguration> = ConfMap::new();
    let mut i: usize = 0;
    while i < list.len()
        invariant
            i <= list@.len(),
            acc.wf(),
            consolidate_spi_spec(aliases@, aliases.kind_spec(), decl_view(list@).take(i as int)) == Ok::<_, ErrorView>(acc@),
        decreases list@.len() - i,
    {
        let ghost d = decl_view(list@).take(i as int + 1);
        assert(d.drop_last() =~= decl_view(list@).take(i as int));
        let conf = list[i].1;
        if !conf.is_empty() {
            let name = match aliases.resolve(list[i].0.as_str()) {
                Ok(name) => name,
                Err(e) => {
                    proof {
                        lemma_err_sticky::<SpiConfiguration>(aliases@, aliases.kind_spec(), decl_view(list@), i as int + 1);
                    }
                    return Err(e);
                },
            };
            let mut cur = match acc.get(&name) {
                Some(c) => c,
                None => SpiConfiguration::empty(),
            };
            match cur.merge(&conf) {
                Ok(()) => {},
                Err(c) => {
                    proof {
                        lemma_err_sticky::<SpiConfiguration>(aliases@, aliases.kind_spec(), decl_view(list@), i as int + 1);
                    }
                    return Err(TransportError::InconsistentConf(aliases.kind(), name, c));
                },
            }
            acc.put(name, cur);
        }
        i = i + 1;
    }
    assert(decl_view(list@).take(i as int) =~= decl_view(list@));
    Ok(acc)
}

proof fn lemma_push<C: PartialConf>(
    m: Map<Seq<char>, Seq<char>>,
    kind: InterfaceKind,
    d: Seq<(Seq<char>, C)>,
    e: (Seq<char>, C),
)
    ensures
        consolidate_spec(m, kind, d.push(e)) == conf_step(m, kind, consolidate_spec(m, kind, d), e),
{
    assert(d.push(e).drop_last() =~= d);
}

proof fn lemma_step_commute<C: PartialConf>(
    m: Map<Seq<char>, Seq<char>>,
    kind: InterfaceKind,
    a: Map<Seq<char>, C>,
    x: (Seq<char>, C),
    y: (Seq<char>, C),
)
    requires
        conf_step(m, kind, conf_step(m, kind, Ok(a), x), y) is Ok,
    ensures
        conf_step(m, kind, conf_step(m, kind, Ok(a), y), x) == conf_step(m, kind, conf_step(m, kind, Ok(a), x), y),
{
    if !x.1.unset() && !y.1.unset() {
        let kx = resolve_spec(m, x.0).unwrap();
        let ky = resolve_spec(m, y.0).unwrap();
        if kx != ky {
            let ax = conf_step(m, kind, Ok(a), x)->Ok_0;
            let ay = conf_step(m, kind, Ok(a), y)->Ok_0;
            assert(ax.insert(ky, conf_step(m, kind, Ok(ax), y)->Ok_0[ky]) == conf_step(m, kind, Ok(ax), y)->Ok_0);
            assert(conf_step(m, kind, Ok(ay), x)->Ok_0 =~= conf_step(m, kind, Ok(ax), y)->Ok_0);
        } else {
            let cur = if a.contains_key(kx) {
                a[kx]
            } else {
                C::blank()
            };
            C::lemma_join_swap(cur, x.1, y.1);
            assert(a.insert(kx, cur.joined(y.1)).insert(kx, cur.joined(y.1).joined(x.1)) =~= a.insert(kx, cur.joined(x.1)).insert(kx, cur.joined(x.1).joined(y.1)));
        }
    }
}

/// Moving one declaration to the end leaves a successful consolidation unchanged.
proof fn lemma_move_last<C: PartialConf>(
    m: Map<Seq<char>, Seq<char>>,
    kind: InterfaceKind,
    s: Seq<(Seq<char>, C)>,
    i: int,
)
    requires
        0 <= i < s.len(),
        consolidate_spec(m, kind, s) is Ok,
    ensures
        consolidate_spec(m, kind, s.remove(i).push(s[i])) == consolidate_spec(m, kind, s),
    decreases s.len(),
{
    if i == s.len() - 1 {
        assert(s.remove(i).push(s[i]) =~= s);
    } else {
        let t = s.drop_last();
        let y = s.last();
        let x = s[i];
        assert(t.push(y) =~= s);
        lemma_push(m, kind, t, y);
        lemma_move_last(m, kind, t, i);
        let r = t.remove(i);
        assert(t[i] == x);
        lemma_push(m, kind, r, x);
        assert(s.remove(i) =~= r.push(y));
        lemma_push(m, kind, r.push(y), x);
        lemma_push(m, kind, r, y);
        lemma_push(m, kind, r.push(x), y);
        let a = consolidate_spec(m, kind, r);
        assert(a is Ok);
        lemma_step_commute(m, kind, a->Ok_0, x, y);
    }
}

proof fn lemma_order_independent<C: PartialConf>(
    m: Map<Seq<char>, Seq<char>>,
    kind: InterfaceKind,
    d1: Seq<(Seq<char>, C)>,
    d2: Seq<(Seq<char>, C)>,
)
    requires
        d1.to_multiset() == d2.to_multiset(),
        consolidate_spec(m, kind, d1) is Ok,
    ensures
        consolidate_spec(m, kind, d2) == consolidate_spec(m, kind, d1),
    decreases d2.len(),
{
    broadcast use vstd::seq_lib::group_to_multiset_ensures, vstd::multiset::group_multiset_axioms;

    if d2.len() == 0 {
        d1.to_multiset_ensures();
        d2.to_multiset_ensures();
        assert(d1.to_multiset().len() == d2.to_multiset().len());
        assert(d1.len() == 0);
        assert(d1 =~= d2);
    } else {
        let x = d2.last();
        let t2 = d2.drop_last();
        assert(t2.push(x) =~= d2);
        assert(d2.to_multiset().count(x) > 0);
        assert(d1.contains(x));
        let i = choose|i: int| 0 <= i < d1.len() && d1[i] == x;
        let t1 = d1.remove(i);
        assert(t1.to_multiset() =~= d1.to_multiset().remove(x));
        assert(t2.to_multiset() =~= d2.to_multiset().remove(x));
        lemma_move_last(m, kind, d1, i);
        lemma_push(m, kind, t1, x);
        lemma_push(m, kind, t2, x);
        lemma_order_independent(m, kind, t1, t2);
    }
}

/// Consolidation does not depend on the order of the declarations: any
/// rearrangement of a list of pin declarations that consolidates without
/// error consolidates to the same map.
pub proof fn lemma_consolidation_order_independent(
    m: Map<Seq<char>, Seq<char>>,
    kind: InterfaceKind,
    d1: Seq<(Seq<char>, PinConfiguration)>,
    d2: Seq<(Seq<char>, PinConfiguration)>,
)
    requires
        d1.to_multiset() == d2.to_multiset(),
        consolidate_pins_spec(m, kind, d1) is Ok,
    ensures
        consolidate_pins_spec(m, kind, d2) == consolidate_pins_spec(m, kind, d1),
{
    lemma_order_independent(m, kind, d1, d2);
}

/// SPI consolidation does not depend on the order of the declarations either.
pub proof fn lemma_spi_consolidation_order_independent(
    m: Map<Seq<char>, Seq<char>>,
    kind: InterfaceKind,
    d1: Seq<(Seq<char>, SpiConfiguration)>,
    d2: Seq<(Seq<char>, SpiConfiguration)>,
)
    requires
        d1.to_multiset() == d2.to_multiset(),
        consolidate_spi_spec(m, kind, d1) is Ok,
    ensures
        consolidate_spi_spec(m, kind, d2) == consolidate_spi_spec(m, kind, d1),
{
    lemma_order_independent(m, kind, d1, d2);
}

} // verus!
