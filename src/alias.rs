use vstd::prelude::*;
use crate::error::{ErrorView, InterfaceKind, TransportError};
use crate::names::{
    find_last, keys_of, lemma_find_last_lookup, lemma_lookup_some, lookup, to_upper, upper_of,
};

verus! {

/// A name is canonical when it has no alias entry or its entry names itself.
pub open spec fn is_fixed(m: Map<Seq<char>, Seq<char>>, x: Seq<char>) -> bool {
    !m.contains_key(x) || upper_of(m[x]) == x
}

/// One alias hop; a canonical name stays where it is.
pub open spec fn hop(m: Map<Seq<char>, Seq<char>>, x: Seq<char>) -> Seq<char> {
    if is_fixed(m, x) {
        x
    } else {
        upper_of(m[x])
    }
}

/// The name reached from `n` after `k` hops.
pub open spec fn chain(m: Map<Seq<char>, Seq<char>>, n: Seq<char>, k: nat) -> Seq<char>
    decreases k,
{
    if k == 0 {
        upper_of(n)
    } else {
        hop(m, chain(m, n, (k - 1) as nat))
    }
}

/// The chain from `n` first meets a canonical name after `k` hops.
pub open spec fn resolves_at(m: Map<Seq<char>, Seq<char>>, n: Seq<char>, k: nat) -> bool {
    is_fixed(m, chain(m, n, k)) && forall|j: nat| j < k ==> !is_fixed(m, #[trigger] chain(m, n, j))
}

/// The canonical name of `n`, if its chain of aliases reaches one.
pub open spec fn resolve_spec(m: Map<Seq<char>, Seq<char>>, n: Seq<char>) -> Option<Seq<char>> {
    if exists|k: nat| resolves_at(m, n, k) {
        Some(chain(m, n, choose|k: nat| resolves_at(m, n, k)))
    } else {
        None
    }
}

/// After `i` hops the chain from `n` returns to a name it has already met.
pub open spec fn repeats_at(m: Map<Seq<char>, Seq<char>>, n: Seq<char>, i: nat) -> bool {
    exists|j: nat| j < i && chain(m, n, j) == chain(m, n, i)
}

pub open spec fn first_repeat(m: Map<Seq<char>, Seq<char>>, n: Seq<char>, i: nat) -> bool {
    repeats_at(m, n, i) && forall|i2: nat| i2 < i ==> !#[trigger] repeats_at(m, n, i2)
}

/// The first name that the chain from `n` meets twice.
pub open spec fn cycle_name(m: Map<Seq<char>, Seq<char>>, n: Seq<char>) -> Seq<char> {
    chain(m, n, choose|i: nat| first_repeat(m, n, i))
}

proof fn lemma_resolves_at_unique(m: Map<Seq<char>, Seq<char>>, n: Seq<char>, k1: nat, k2: nat)
    requires
        resolves_at(m, n, k1),
        resolves_at(m, n, k2),
    ensures
        k1 == k2,
{
    if k1 < k2 {
        assert(!is_fixed(m, chain(m, n, k1)));
    } else if k2 < k1 {
        assert(!is_fixed(m, chain(m, n, k2)));
    }
}

proof fn lemma_chain_shift(m: Map<Seq<char>, Seq<char>>, n: Seq<char>, j: nat, i: nat, t: nat)
    requires
        chain(m, n, j) == chain(m, n, i),
    ensures
        chain(m, n, j + t) == chain(m, n, i + t),
    decreases t,
{
    if t > 0 {
        lemma_chain_shift(m, n, j, i, (t - 1) as nat);
        assert(chain(m, n, j + t) == hop(m, chain(m, n, (j + t - 1) as nat)));
        assert(chain(m, n, i + t) == hop(m, chain(m, n, (i + t - 1) as nat)));
    }
}

/// A chain that returns to a name before reaching a canonical one never reaches one.
proof fn lemma_cycle_never_fixed(m: Map<Seq<char>, Seq<char>>, n: Seq<char>, j: nat, i: nat, k: nat)
    requires
        j < i,
        chain(m, n, j) == chain(m, n, i),
        forall|l: nat| l < i ==> !is_fixed(m, #[trigger] chain(m, n, l)),
    ensures
        !is_fixed(m, chain(m, n, k)),
    decreases k,
{
    if k >= i {
        let d = (i - j) as nat;
        let k2 = (k - d) as nat;
        lemma_chain_shift(m, n, j, i, (k - i) as nat);
        assert(j + (k - i) == k2);
        lemma_cycle_never_fixed(m, n, j, i, k2);
    }
}

/// Names that a table of aliases maps onward.
pub struct AliasMap {
    kind: InterfaceKind,
    entries: Vec<(String, String)>,
}

impl View for AliasMap {
    type V = Map<Seq<char>, Seq<char>>;

    open spec fn view(&self) -> Map<Seq<char>, Seq<char>> {
        Map::new(|k: Seq<char>| lookup(self.pairs(), k) is Some, |k: Seq<char>| lookup(self.pairs(), k).unwrap())
    }
}

impl AliasMap {
    pub closed spec fn pairs(&self) -> Seq<(Seq<char>, Seq<char>)> {
        self.entries@.map_values(|e: (String, String)| (e.0@, e.1@))
    }

    pub closed spec fn kind_spec(&self) -> InterfaceKind {
        self.kind
    }

    pub fn new(kind: InterfaceKind) -> (r: AliasMap)
        ensures
            r@ == Map::<Seq<char>, Seq<char>>::empty(),
            r.kind_spec() == kind,
    {
        let r = AliasMap { kind, entries: Vec::new() };
        assert(r@ =~= Map::<Seq<char>, Seq<char>>::empty());
        r
    }

    pub fn kind(&self) -> (r: InterfaceKind)
        ensures
            r == self.kind_spec(),
    {
        self.kind
    }

    /// Records that `name` (case-insensitive) stands for `target`, replacing an
    /// earlier entry for the same name.
    pub fn insert(&mut self, name: &str, target: &str)
        ensures
            final(self)@ == old(self)@.insert(upper_of(name@), target@),
            final(self).kind_spec() == old(self).kind_spec(),
    {
        let key = to_upper(name);
        let value = target.to_owned();
        let ghost before = self.pairs();
        self.entries.push((key, value));
        assert(self.pairs() =~= before.push((upper_of(name@), target@)));
        assert(self@ =~= old(self)@.insert(upper_of(name@), target@)) by {
            assert forall|k: Seq<char>| #![auto] lookup(self.pairs(), k) == if k == upper_of(name@) {
                Some(target@)
            } else {
                lookup(before, k)
            } by {
                assert(self.pairs().drop_last() =~= before);
            }
        }
    }

    /// The entry for an already uppercased name, if any.
    fn get(&self, key: &String) -> (r: Option<&String>)
        ensures
            match r {
                Some(v) => self@.contains_key(key@) && self@[key@] == v@,
                None => !self@.contains_key(key@),
            },
    {
        match find_last(&self.entries, key) {
            Some(i) => {
                proof {
                    lemma_find_last_lookup(self.pairs(), key@, i as int);
                }
                Some(&self.entries[i].1)
            },
            None => {
                proof {
                    crate::names::lemma_lookup_none(self.pairs(), key@);
                }
                None
            },
        }
    }

    /// Resolves `name` to its canonical name: uppercase it, then follow alias
    /// entries until a name has none or names itself. A name met twice on the
    /// way is reported as a cycle.
    pub fn resolve(&self, name: &str) -> (r: Result<String, TransportError>)
        ensures
            r matches Ok(s) ==> resolve_spec(self@, name@) == Some(s@),
            r matches Err(e) ==> resolve_spec(self@, name@) is None && e@ == ErrorView::AliasCycle(
                self.kind_spec(),
                cycle_name(self@, name@),
            ),
            r is Ok <==> resolve_spec(self@, name@) is Some,
    {
        let ghost m = self@;
        let ghost n = name@;
        let mut cur = to_upper(name);
        let mut visited: Vec<String> = Vec::new();
        loop
            invariant
                cur@ == chain(m, n, visited@.len() as nat),
                m == self@,
                n == name@,
                forall|j: int| 0 <= j < visited@.len() ==> #[trigger] visited@[j]@ == chain(m, n, j as nat),
                forall|j: nat| j < visited@.len() ==> !is_fixed(m, #[trigger] chain(m, n, j)),
                forall|i: nat| i < visited@.len() ==> !#[trigger] repeats_at(m, n, i),
                visited@.len() <= self.entries@.len(),
            decreases self.entries@.len() - visited@.len(),
        {
            let k = visited.len();
            let target = match self.get(&cur) {
                None => None,
                Some(t) => {
                    let up = to_upper(t.as_str());
                    if up == cur {
                        None
                    } else {
                        Some(up)
                    }
                },
            };
            match target {
                None => {
                    proof {
                        assert(resolves_at(m, n, k as nat));
                        assert forall|k2: nat| resolves_at(m, n, k2) implies k2 == k by {
                            lemma_resolves_at_unique(m, n, k as nat, k2);
                        }
                        let kk = choose|k2: nat| resolves_at(m, n, k2);
                        assert(kk == k);
                        assert(resolve_spec(m, n) == Some(cur@));
                    }
                    return Ok(cur);
                },
                Some(next) => {
                    let mut idx: usize = 0;
                    while idx < visited.len()
                        invariant
                            idx <= visited@.len(),
                            k == visited@.len(),
                            m == self@,
                            n == name@,
                            cur@ == chain(m, n, k as nat),
                            forall|j: int| 0 <= j < visited@.len() ==> #[trigger] visited@[j]@ == chain(m, n, j as nat),
                            forall|j: nat| j < visited@.len() ==> !is_fixed(m, #[trigger] chain(m, n, j)),
                            forall|i: nat| i < visited@.len() ==> !#[trigger] repeats_at(m, n, i),
                            !is_fixed(m, cur@),
                            forall|j: int| 0 <= j < idx ==> visited@[j]@ != cur@,
                        decreases visited@.len() - idx,
                    {
                        if visited[idx] == cur {
                            proof {
                                let jn = idx as nat;
                                assert(visited@[idx as int]@ == chain(m, n, jn));
                                assert(chain(m, n, jn) == chain(m, n, k as nat));
                                assert(repeats_at(m, n, k as nat));
                                assert(first_repeat(m, n, k as nat));
                                assert forall|i: nat| first_repeat(m, n, i) implies i == k by {
                                    if i < k {
                                        assert(!repeats_at(m, n, i));
                                    } else if i > k {
                                        assert(!repeats_at(m, n, k as nat));
                                    }
                                }
                                assert(!is_fixed(m, chain(m, n, k as nat)));
                                assert forall|k2: nat| !resolves_at(m, n, k2) by {
                                    lemma_cycle_never_fixed(m, n, jn, k as nat, k2);
                                }
                                let ii = choose|i: nat| first_repeat(m, n, i);
                                assert(ii == k);
                                assert(cycle_name(m, n) == cur@);
                                assert(resolve_spec(m, n) is None);
                            }
                            return Err(TransportError::AliasCycle(self.kind, cur));
                        }
                        idx = idx + 1;
                    }
                    proof {
                        assert(!repeats_at(m, n, k as nat)) by {
                            if repeats_at(m, n, k as nat) {
                                let j = choose|j: nat| j < k && chain(m, n, j) == chain(m, n, k as nat);
                                assert(visited@[j as int]@ == cur@);
                            }
                        }
                        let vs = visited@.map_values(|s: String| s@).push(cur@);
                        let ks = keys_of(self.pairs());
                        assert forall|a: int, b: int| 0 <= a < b < vs.len() implies vs[a] != vs[b] by {
                            if b < k {
                                assert(!repeats_at(m, n, b as nat));
                                assert(vs[a] == chain(m, n, a as nat));
                            } else {
                                assert(vs[a] == visited@[a]@);
                            }
                        }
                        assert(vs.no_duplicates());
                        vs.unique_seq_to_set();
                        assert forall|x: Seq<char>| vs.to_set().contains(x) implies ks.to_set().contains(x) by {
                            let a = choose|a: int| 0 <= a < vs.len() && vs[a] == x;
                            if a < k {
                                assert(vs[a] == chain(m, n, a as nat));
                                assert(!is_fixed(m, chain(m, n, a as nat)));
                            }
                            lemma_lookup_some(self.pairs(), x);
                        }
                        ks.lemma_cardinality_of_set();
                        vstd::set_lib::lemma_len_subset(vs.to_set(), ks.to_set());
                        assert(ks.len() == self.entries@.len());
                    }
                    visited.push(cur);
                    cur = next;
                },
            }
        }
    }
}

/// A name that is canonical resolves to itself (uppercased); in particular a
/// name with no alias entry does.
pub proof fn lemma_resolve_canonical(m: Map<Seq<char>, Seq<char>>, n: Seq<char>)
    requires
        is_fixed(m, upper_of(n)),
    ensures
        resolve_spec(m, n) == Some(upper_of(n)),
{
    assert(resolves_at(m, n, 0));
    assert forall|k2: nat| resolves_at(m, n, k2) implies k2 == 0 by {
        lemma_resolves_at_unique(m, n, 0, k2);
    }
}

proof fn lemma_chain_hop(m: Map<Seq<char>, Seq<char>>, a: Seq<char>, k: nat)
    requires
        !is_fixed(m, upper_of(a)),
    ensures
        chain(m, a, k + 1) == chain(m, m[upper_of(a)], k),
    decreases k,
{
    assert(chain(m, a, 1) == hop(m, chain(m, a, 0)));
    if k > 0 {
        lemma_chain_hop(m, a, (k - 1) as nat);
        assert(chain(m, a, k + 1) == hop(m, chain(m, a, k)));
        assert(chain(m, m[upper_of(a)], k) == hop(m, chain(m, m[upper_of(a)], (k - 1) as nat)));
    }
}

/// Following one alias hop does not change what a name resolves to.
pub proof fn lemma_resolve_hop(m: Map<Seq<char>, Seq<char>>, a: Seq<char>)
    requires
        !is_fixed(m, upper_of(a)),
    ensures
        resolve_spec(m, a) == resolve_spec(m, m[upper_of(a)]),
{
    let b = m[upper_of(a)];
    assert forall|k: nat| #[trigger] resolves_at(m, a, k + 1) <==> resolves_at(m, b, k) by {
        lemma_chain_hop(m, a, k);
        if resolves_at(m, b, k) {
            assert forall|j: nat| j < k + 1 implies !is_fixed(m, #[trigger] chain(m, a, j)) by {
                if j > 0 {
                    lemma_chain_hop(m, a, (j - 1) as nat);
                }
            }
        }
        if resolves_at(m, a, k + 1) {
            assert forall|j: nat| j < k implies !is_fixed(m, #[trigger] chain(m, b, j)) by {
                lemma_chain_hop(m, a, j);
                assert(!is_fixed(m, chain(m, a, j + 1)));
            }
        }
    }
    assert(!resolves_at(m, a, 0));
    if exists|k: nat| resolves_at(m, a, k) {
        let ka = choose|k: nat| resolves_at(m, a, k);
        assert(ka > 0);
        assert(resolves_at(m, a, ((ka - 1) as nat) + 1));
        assert(resolves_at(m, b, (ka - 1) as nat));
        let kb = choose|k: nat| resolves_at(m, b, k);
        assert(resolves_at(m, a, kb + 1));
        lemma_resolves_at_unique(m, a, ka, kb + 1);
        lemma_chain_hop(m, a, kb);
    } else if exists|k: nat| resolves_at(m, b, k) {
        let kb = choose|k: nat| resolves_at(m, b, k);
        assert(resolves_at(m, a, kb + 1));
    }
}

/// Two alias hops to a canonical name: the start and the end of the chain
/// resolve alike, and the end resolves to itself.
pub proof fn lemma_resolve_two_hops(m: Map<Seq<char>, Seq<char>>, a: Seq<char>, c: Seq<char>)
    requires
        !is_fixed(m, upper_of(a)),
        !is_fixed(m, upper_of(m[upper_of(a)])),
        m[upper_of(m[upper_of(a)])] == c,
        is_fixed(m, upper_of(c)),
    ensures
        resolve_spec(m, a) == resolve_spec(m, c),
        resolve_spec(m, c) == Some(upper_of(c)),
{
    lemma_resolve_hop(m, a);
    lemma_resolve_hop(m, m[upper_of(a)]);
    lemma_resolve_canonical(m, c);
}

} // verus!
