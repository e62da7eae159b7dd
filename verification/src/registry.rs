//! The registry of known peer addresses: normalized, de-duplicated, and
//! filled all-or-nothing from a batch of candidate address strings.

use vstd::prelude::*;

verus! {

/// The normalized serialization that URL parsing assigns to an address
/// string, or `None` where the string is not a well-formed absolute URL.
pub uninterp spec fn node_url_of(s: Seq<char>) -> Option<Seq<char>>;

/// Relies on `url::Url::parse` and `url::Url::as_str`: whether a string
/// parses, and the normalized serialization it parses to, depend on the
/// characters alone.
#[verifier::external_body]
fn parse_node_url(s: &str) -> (r: Option<String>)
    ensures
        match r {
            Some(u) => node_url_of(s@) == Some(u@),
            None => node_url_of(s@) is None,
        },
{
    match url::Url::parse(s) {
        Ok(u) => Some(u.as_str().to_string()),
        Err(_) => None,
    }
}

/// Why a batch of peer addresses was rejected.
#[derive(Debug, PartialEq, Eq, Structural)]
pub enum RegistryError {
    InvalidNodeUrl,
}

/// The normalized forms of a batch of address strings (meaningful only
/// where every entry parses).
pub open spec fn normalized_batch(ns: Seq<Seq<char>>) -> Seq<Seq<char>> {
    ns.map_values(|s: Seq<char>| node_url_of(s)->Some_0)
}

/// A set of known peer addresses; membership only, no order relied upon.
#[derive(Debug)]
pub struct NodeRegistry {
    pub addresses: Vec<String>,
}

impl NodeRegistry {
    /// The registry's invariant: no duplicate addresses.
    pub open spec fn wf(self) -> bool {
        forall|i: int, j: int|
            0 <= i < j < self.addresses.deep_view().len() ==> self.addresses.deep_view()[i]
                != self.addresses.deep_view()[j]
    }

    /// An empty registry.
    pub fn new() -> (r: NodeRegistry)
        ensures
            r.wf(),
            r.addresses@.len() == 0,
    {
        NodeRegistry { addresses: Vec::new() }
    }

    /// The registered addresses.
    pub fn list(&self) -> (r: &Vec<String>)
        ensures
            r@ == self.addresses@,
            r.deep_view() == self.addresses.deep_view(),
    {
        &self.addresses
    }

    /// Whether `a` is already registered.
    pub fn contains(&self, a: &String) -> (r: bool)
        ensures
            r == self.addresses.deep_view().contains(a@),
    {
        let mut i: usize = 0;
        while i < self.addresses.len()
            invariant
                i <= self.addresses.len(),
                forall|j: int| 0 <= j < i ==> self.addresses.deep_view()[j] != a@,
            decreases self.addresses.len() - i,
        {
            if self.addresses[i].eq(a) {
                proof {
                    assert(self.addresses.deep_view()[i as int] == a@);
                }
                return true;
            }
            i = i + 1;
        }
        proof {
            if self.addresses.deep_view().contains(a@) {
                let j = choose|j: int|
                    0 <= j < self.addresses.deep_view().len() && self.addresses.deep_view()[j]
                        == a@;
                assert(self.addresses.deep_view()[j] != a@);
            }
        }
        false
    }

    /// Adds one normalized address; registering a known address is a no-op.
    pub fn register(&mut self, address: String)
        requires
            old(self).wf(),
        ensures
            final(self).wf(),
            final(self).addresses.deep_view().to_set() == old(self).addresses.deep_view().to_set().insert(address@),
            old(self).addresses.deep_view().contains(address@) ==> final(self).addresses
                == old(self).addresses,
            !old(self).addresses.deep_view().contains(address@) ==> final(self).addresses.deep_view() == old(self).addresses.deep_view().push(address@),
    {
        let ghost a0 = self.addresses.deep_view();
        if self.contains(&address) {
            proof {
                assert(a0.to_set() =~= a0.to_set().insert(address@));
            }
            return ;
        }
        self.addresses.push(address);
        proof {
            let a1 = self.addresses.deep_view();
            assert(a1 =~= a0.push(address@));
            assert(a1.to_set() =~= a0.to_set().insert(address@)) by {
                assert forall|x: Seq<char>| a1.contains(x) implies a0.contains(x) || x
                    == address@ by {
                    let i = choose|i: int| 0 <= i < a1.len() && a1[i] == x;
                    if i < a0.len() {
                        assert(a0[i] == x);
                    }
                }
                assert forall|x: Seq<char>| a0.contains(x) implies a1.contains(x) by {
                    let i = choose|i: int| 0 <= i < a0.len() && a0[i] == x;
                    assert(a1[i] == x);
                }
                assert(a1[a0.len() as int] == address@);
                assert(a1.contains(address@));
            }
        }
    }

    /// Validates a whole batch of address strings and registers the
    /// normalized form of every entry, all-or-nothing: one malformed entry
    /// rejects the batch and leaves the registry untouched. On success
    /// returns the total number of registered addresses.
    pub fn register_all(&mut self, nodes: &Vec<String>) -> (r: Result<usize, RegistryError>)
        requires
            old(self).wf(),
        ensures
            final(self).wf(),
            r is Ok <==> (forall|i: int|
                0 <= i < nodes.deep_view().len() ==> node_url_of(
                    #[trigger] nodes.deep_view()[i],
                ) is Some),
            r is Err ==> r == Err::<usize, RegistryError>(RegistryError::InvalidNodeUrl) && final(self).addresses == old(self).addresses,
            r is Ok ==> final(self).addresses.deep_view().to_set() == old(self).addresses.deep_view().to_set() + normalized_batch(nodes.deep_view()).to_set()
                && r == Ok::<usize, RegistryError>(final(self).addresses.len()),
    {
        let ghost ns = nodes.deep_view();
        let mut parsed: Vec<String> = Vec::new();
        let mut i: usize = 0;
        while i < nodes.len()
            invariant
                i <= nodes.len(),
                ns == nodes.deep_view(),
                *self == *old(self),
                self.wf(),
                parsed.deep_view().len() == i,
                forall|j: int| 0 <= j < i ==> node_url_of(#[trigger] ns[j]) is Some,
                forall|j: int|
                    0 <= j < i ==> #[trigger] parsed.deep_view()[j] == node_url_of(
                        ns[j],
                    )->Some_0,
            decreases nodes.len() - i,
        {
            match parse_node_url(nodes[i].as_str()) {
                Some(u) => {
                    proof {
                        assert(node_url_of(ns[i as int]) == Some(u@));
                    }
                    let ghost pd = parsed.deep_view();
                    let ghost uv = u@;
                    parsed.push(u);
                    proof {
                        assert(parsed.deep_view() =~= pd.push(uv));
                    }
                },
                None => {
                    proof {
                        assert(node_url_of(ns[i as int]) is None);
                    }
                    return Err(RegistryError::InvalidNodeUrl);
                },
            }
            i = i + 1;
        }
        let ghost a0 = self.addresses.deep_view();
        let mut k: usize = 0;
        while k < parsed.len()
            invariant
                k <= parsed.len(),
                parsed.deep_view().len() == ns.len(),
                forall|j: int| 0 <= j < ns.len() ==> node_url_of(#[trigger] ns[j]) is Some,
                forall|j: int|
                    0 <= j < ns.len() ==> #[trigger] parsed.deep_view()[j] == node_url_of(
                        ns[j],
                    )->Some_0,
                self.wf(),
                self.addresses.deep_view().to_set() == a0.to_set() + parsed.deep_view().take(
                    k as int,
                ).to_set(),
            decreases parsed.len() - k,
        {
            let addr = parsed[k].clone();
            proof {
                assert(addr@ == parsed.deep_view()[k as int]);
            }
            let ghost before = self.addresses.deep_view().to_set();
            self.register(addr);
            proof {
                let pk = parsed.deep_view();
                let t0 = pk.take(k as int);
                let t1 = pk.take(k + 1 as int);
                assert(t1 =~= t0.push(pk[k as int]));
                assert(t1.to_set() =~= t0.to_set().insert(pk[k as int])) by {
                    assert forall|x: Seq<char>| t1.contains(x) implies t0.contains(x) || x
                        == pk[k as int] by {
                        let i2 = choose|i2: int| 0 <= i2 < t1.len() && t1[i2] == x;
                        if i2 < k {
                            assert(t0[i2] == x);
                        }
                    }
                    assert forall|x: Seq<char>| t0.contains(x) implies t1.contains(x) by {
                        let i2 = choose|i2: int| 0 <= i2 < t0.len() && t0[i2] == x;
                        assert(t1[i2] == x);
                    }
                    assert(t1[k as int] == pk[k as int]);
                    assert(t1.contains(pk[k as int]));
                }
                assert(self.addresses.deep_view().to_set() =~= a0.to_set() + t1.to_set());
            }
            k = k + 1;
        }
        proof {
            let pk = parsed.deep_view();
            assert(pk.take(pk.len() as int) =~= pk);
            assert(pk =~= normalized_batch(ns));
        }
        Ok(self.addresses.len())
    }
}

} // verus!
