//! The wallet registry: addresses mapped to key pairs. Reading and
//! writing the registry file stays outside; the surrounding program
//! restores entries through `add_wallet`.

use vstd::prelude::*;
use vstd::string::StringExecFns;

use crate::codec::str_eq;
use crate::wallet::{spec_validate_address, Wallet};

verus! {

/// The first registered wallet under the given address.
pub open spec fn spec_wallets_find(es: Seq<(Seq<char>, Wallet)>, a: Seq<char>) -> Option<Wallet>
    decreases es.len(),
{
    if es.len() == 0 {
        None
    } else if es[0].0 == a {
        Some(es[0].1)
    } else {
        spec_wallets_find(es.drop_first(), a)
    }
}

/// A collection of wallets, keyed by address.
pub struct Wallets {
    entries: Vec<(String, Wallet)>,
}

impl Wallets {
    /// The held entries: address text and wallet, in insertion order.
    pub closed spec fn spec_entries(&self) -> Seq<(Seq<char>, Wallet)> {
        Seq::new(self.entries@.len(), |i: int| (self.entries@[i].0@, self.entries@[i].1))
    }

    /// An empty registry; the surrounding program refills it from disk.
    pub fn new() -> (r: Wallets)
        ensures
            r.spec_entries() == Seq::<(Seq<char>, Wallet)>::empty(),
    {
        let r = Wallets { entries: Vec::new() };
        proof {
            assert(r.spec_entries() =~= Seq::<(Seq<char>, Wallet)>::empty());
        }
        r
    }

    /// Generates a fresh wallet, registers it under its address and
    /// returns the address, which always validates. `None` only when the
    /// key generator fails.
    pub fn create_wallet(&mut self) -> (r: Option<String>)
        ensures
            match r {
                Some(a) => {
                    &&& spec_validate_address(a@)
                    &&& final(self).spec_entries().len() == old(self).spec_entries().len() + 1
                    &&& final(self).spec_entries().last().0 == a@
                    &&& final(self).spec_entries().take(old(self).spec_entries().len() as int)
                        == old(self).spec_entries()
                },
                None => final(self).spec_entries() == old(self).spec_entries(),
            },
    {
        let wallet = match Wallet::new() {
            Some(w) => w,
            None => {
                return None;
            },
        };
        let address = wallet.get_address();
        let out = String::from_str(address.as_str());
        let ghost prev = self.spec_entries();
        self.entries.push((address, wallet));
        proof {
            assert(self.spec_entries().take(prev.len() as int) =~= prev);
        }
        Some(out)
    }

    /// Registers a restored wallet under the given address.
    pub fn add_wallet(&mut self, address: String, wallet: Wallet)
        ensures
            final(self).spec_entries() == old(self).spec_entries().push((address@, wallet)),
    {
        let ghost prev = self.spec_entries();
        let ghost av = address@;
        let ghost wv = wallet;
        self.entries.push((address, wallet));
        proof {
            assert(self.spec_entries() =~= prev.push((av, wv)));
        }
    }

    /// Every registered address, in insertion order.
    pub fn get_addresses(&self) -> (r: Vec<String>)
        ensures
            r.deep_view() == Seq::new(
                self.spec_entries().len(),
                |i: int| self.spec_entries()[i].0,
            ),
    {
        let mut addresses: Vec<String> = Vec::new();
        let n = self.entries.len();
        let mut i: usize = 0;
        while i < n
            invariant
                n == self.entries@.len(),
                i <= n,
                addresses.deep_view() =~= Seq::new(i as nat, |j: int| self.spec_entries()[j].0),
            decreases n - i,
        {
            let ghost prev = addresses.deep_view();
            addresses.push(self.entries[i].0.clone());
            proof {
                assert(addresses.deep_view() =~= prev.push(self.spec_entries()[i as int].0));
            }
            i = i + 1;
        }
        addresses
    }

    /// The wallet registered under the given address, if any.
    pub fn get_wallet(&self, address: &str) -> (r: Option<&Wallet>)
        ensures
            match r {
                Some(w) => spec_wallets_find(self.spec_entries(), address@) == Some(*w),
                None => spec_wallets_find(self.spec_entries(), address@) is None,
            },
    {
        let n = self.entries.len();
        let mut i: usize = 0;
        while i < n
            invariant
                n == self.entries@.len(),
                i <= n,
                forall|j: int| 0 <= j < i ==> (#[trigger] self.spec_entries()[j]).0 != address@,
            decreases n - i,
        {
            if str_eq(self.entries[i].0.as_str(), address) {
                proof {
                    lemma_wallets_find_at(self.spec_entries(), address@, i as int);
                }
                return Some(&self.entries[i].1);
            }
            i = i + 1;
        }
        proof {
            lemma_wallets_find_none(self.spec_entries(), address@);
        }
        None
    }

    pub fn len(&self) -> (r: usize)
        ensures
            r == self.spec_entries().len(),
    {
        self.entries.len()
    }
}

proof fn lemma_wallets_find_at(es: Seq<(Seq<char>, Wallet)>, a: Seq<char>, i: int)
    requires
        0 <= i < es.len(),
        es[i].0 == a,
        forall|j: int| 0 <= j < i ==> (#[trigger] es[j]).0 != a,
    ensures
        spec_wallets_find(es, a) == Some(es[i].1),
    decreases i,
{
    if i > 0 {
        assert forall|j: int| 0 <= j < i - 1 implies (#[trigger] es.drop_first()[j]).0 != a by {
            assert(es.drop_first()[j] == es[j + 1]);
        }
        lemma_wallets_find_at(es.drop_first(), a, i - 1);
        assert(es.drop_first()[i - 1] == es[i]);
    }
}

proof fn lemma_wallets_find_none(es: Seq<(Seq<char>, Wallet)>, a: Seq<char>)
    requires
        forall|j: int| 0 <= j < es.len() ==> (#[trigger] es[j]).0 != a,
    ensures
        spec_wallets_find(es, a) is None,
    decreases es.len(),
{
    if es.len() > 0 {
        assert forall|j: int|
            0 <= j < es.drop_first().len() implies (#[trigger] es.drop_first()[j]).0 != a by {
            assert(es.drop_first()[j] == es[j + 1]);
        }
        lemma_wallets_find_none(es.drop_first(), a);
    }
}

} // verus!
