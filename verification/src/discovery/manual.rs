//! The address book: addresses that the user typed, each under a label of its own.

use vstd::prelude::*;

use crate::config::settings::ManualAddress;
use crate::strmap::StrMap;

verus! {

/// The addresses, by their label.
pub struct ManualAddressBook {
    addresses: StrMap<ManualAddress>,
}

impl View for ManualAddressBook {
    type V = Map<Seq<char>, ManualAddress>;

    closed spec fn view(&self) -> Map<Seq<char>, ManualAddress> {
        self.addresses@
    }
}

impl ManualAddressBook {
    /// The labels in the order of [`ManualAddressBook::list`].
    pub closed spec fn order(&self) -> Seq<Seq<char>> {
        self.addresses.order()
    }

    /// An empty book.
    pub fn new() -> (r: Self)
        ensures
            r@ == Map::<Seq<char>, ManualAddress>::empty(),
    {
        ManualAddressBook { addresses: StrMap::new() }
    }

    /// Puts an address in, in place of one with the same label.
    pub fn add(&mut self, addr: ManualAddress)
        ensures
            final(self)@ == old(self)@.insert(addr.label@, addr),
    {
        let k = addr.label.clone();
        let _ = self.addresses.insert(k, addr);
    }

    /// Takes an address out and returns whether it was in.
    pub fn remove(&mut self, label: &str) -> (r: bool)
        ensures
            final(self)@ == old(self)@.remove(label@),
            r == old(self)@.dom().contains(label@),
    {
        self.addresses.remove(label).is_some()
    }

    /// All addresses, each once.
    pub fn list(&self) -> (r: Vec<ManualAddress>)
        ensures
            self.order().no_duplicates(),
            self.order().to_set() == self@.dom(),
            r@.len() == self.order().len(),
            forall|i: int| 0 <= i < r@.len() ==> #[trigger] r@[i] == self@[self.order()[i]],
    {
        let mut out: Vec<ManualAddress> = Vec::new();
        let n: usize = self.addresses.len();
        let mut i: usize = 0;
        while i < n
            invariant
                i <= n,
                n == self.addresses.order().len(),
                out@.len() == i,
                forall|k: int| 0 <= k < i ==> #[trigger] out@[k] == self@[self.order()[k]],
            decreases n - i,
        {
            let a = self.addresses.at(i).1.clone();
            out.push(a);
            i += 1;
        }
        out
    }

    /// The address under a label.
    pub fn get(&self, label: &str) -> (r: Option<&ManualAddress>)
        ensures
            match r {
                Some(a) => self@.dom().contains(label@) && *a == self@[label@],
                None => !self@.dom().contains(label@),
            },
    {
        self.addresses.get(label)
    }

    /// The number of addresses.
    pub fn len(&self) -> (r: usize)
        ensures
            r == self@.dom().len(),
    {
        self.addresses.len()
    }

    /// Whether there is no address.
    pub fn is_empty(&self) -> (r: bool)
        ensures
            r == (self@ == Map::<Seq<char>, ManualAddress>::empty()),
    {
        self.addresses.is_empty()
    }
}

impl Default for ManualAddressBook {
    fn default() -> (r: Self)
        ensures
            r@ == Map::<Seq<char>, ManualAddress>::empty(),
    {
        ManualAddressBook::new()
    }
}

} // verus!
