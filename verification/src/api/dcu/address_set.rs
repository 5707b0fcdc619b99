//! Sets of PCI addresses, kept in ascending order.

use crate::api::dcu::pci::PciAddress;
use vstd::prelude::*;

verus! {

/// Whether each address stands before all that follow it in the order of addresses.
pub open spec fn is_ascending(list: Seq<PciAddress>) -> bool {
    forall|i: int, j: int| 0 <= i < j < list.len() ==> list[i].rank() < list[j].rank()
}

/// Whether a list names the members of a set in ascending order.
pub open spec fn lists(list: Seq<PciAddress>, set: Set<PciAddress>) -> bool {
    &&& is_ascending(list)
    &&& forall|a: PciAddress| list.contains(a) <==> set.contains(a)
}

/// The members of a set in ascending order.
pub open spec fn ascending(set: Set<PciAddress>) -> Seq<PciAddress> {
    choose|list: Seq<PciAddress>| lists(list, set)
}

/// There is one ascending list of a set's members.
pub proof fn ascending_is(list: Seq<PciAddress>, set: Set<PciAddress>)
    requires
        lists(list, set),
    ensures
        ascending(set) == list,
{
    same_members_same_list(ascending(set), list, set);
}

proof fn same_members_same_list(a: Seq<PciAddress>, b: Seq<PciAddress>, set: Set<PciAddress>)
    requires
        lists(a, set),
        lists(b, set),
    ensures
        a == b,
    decreases a.len(),
{
    if a.len() == 0 {
        if b.len() > 0 {
            assert(b.contains(b[0]));
            assert(a.contains(b[0]));
        }
        assert(a =~= b);
    } else {
        assert(a.contains(a.last()));
        assert(b.contains(a.last()));
        assert(b.contains(b.last()));
        assert(a.contains(b.last()));
        let i = choose|i: int| 0 <= i < b.len() && b[i] == a.last();
        let j = choose|j: int| 0 <= j < a.len() && a[j] == b.last();
        assert(a.last().rank() <= b.last().rank());
        assert(b.last().rank() <= a.last().rank());
        a.last().rank_tells_apart(b.last());
        let top = a.last();
        without_last(a, set);
        without_last(b, set);
        same_members_same_list(a.drop_last(), b.drop_last(), set.remove(top));
        assert(a =~= a.drop_last().push(top));
        assert(b =~= b.drop_last().push(top));
    }
}

proof fn without_last(list: Seq<PciAddress>, set: Set<PciAddress>)
    requires
        list.len() > 0,
        lists(list, set),
    ensures
        lists(list.drop_last(), set.remove(list.last())),
{
    let shorter = list.drop_last();
    let rest = set.remove(list.last());
    assert forall|a: PciAddress| shorter.contains(a) <==> rest.contains(a) by {
        if shorter.contains(a) {
            let i = choose|i: int| 0 <= i < shorter.len() && shorter[i] == a;
            assert(list[i] == a);
            assert(list[i].rank() < list[list.len() - 1].rank());
        }
        if rest.contains(a) {
            assert(list.contains(a));
            let i = choose|i: int| 0 <= i < list.len() && list[i] == a;
            assert(shorter[i] == a);
        }
    }
}

/// A set of PCI addresses.
#[derive(Debug)]
pub struct PciAddressSet {
    members: Vec<PciAddress>,
}

impl View for PciAddressSet {
    type V = Set<PciAddress>;

    closed spec fn view(&self) -> Set<PciAddress> {
        self.members@.to_set()
    }
}

impl PciAddressSet {
    #[verifier::type_invariant]
    closed spec fn ordered(self) -> bool {
        is_ascending(self.members@)
    }

    /// The empty set.
    pub fn new() -> (res: PciAddressSet)
        ensures
            res@ == Set::<PciAddress>::empty(),
    {
        let res = PciAddressSet { members: Vec::new() };
        assert(res@ =~= Set::<PciAddress>::empty());
        res
    }

    /// The set of the given addresses.
    pub fn from_list(list: &[PciAddress]) -> (res: PciAddressSet)
        ensures
            res@ == list@.to_set(),
    {
        let mut res = PciAddressSet::new();
        for i in 0..list.len()
            invariant
                res@ == list@.take(i as int).to_set(),
        {
            let ghost earlier = list@.take(i as int);
            res.insert(list[i]);
            proof {
                assert(list@.take(i + 1) =~= earlier.push(list@[i as int]));
                earlier.lemma_push_to_set_commute(list@[i as int]);
            }
        }
        assert(list@.take(list@.len() as int) =~= list@);
        res
    }

    /// Adds an address; says whether it was not there before.
    pub fn insert(&mut self, address: PciAddress) -> (added: bool)
        ensures
            final(self)@ == old(self)@.insert(address),
            added == !old(self)@.contains(address),
    {
        proof {
            use_type_invariant(&*self);
        }
        let mut members: Vec<PciAddress> = Vec::new();
        std::mem::swap(&mut members, &mut self.members);
        let ghost before = members@;
        let rank = address.exec_rank();
        let mut at: usize = 0;
        while at < members.len() && members[at].exec_rank() < rank
            invariant
                at <= members@.len(),
                members@ == before,
                rank == address.rank(),
                forall|j: int| 0 <= j < at ==> members@[j].rank() < rank,
            decreases members@.len() - at,
        {
            at += 1;
        }
        let added: bool = at == members.len() || members[at].exec_rank() != rank;
        if added {
            members.insert(at, address);
            proof {
                assert(members@ =~= before.insert(at as int, address));
                assert forall|a: PciAddress| members@.contains(a) <==> before.contains(a) || a
                    == address by {
                    if before.contains(a) {
                        let i = choose|i: int| 0 <= i < before.len() && before[i] == a;
                        assert(members@[if i < at { i } else { i + 1 }] == a);
                    }
                    if members@.contains(a) {
                        let i = choose|i: int| 0 <= i < members@.len() && members@[i] == a;
                        if i < at {
                            assert(before[i] == a);
                        } else if i > at {
                            assert(before[i - 1] == a);
                        }
                    }
                    assert(members@[at as int] == address);
                }
                if before.contains(address) {
                    let i = choose|i: int| 0 <= i < before.len() && before[i] == address;
                    assert(i >= at);
                    assert(before[at as int].rank() <= before[i].rank());
                    assert(before[at as int].rank() == address.rank());
                }
            }
        } else {
            proof {
                before[at as int].rank_tells_apart(address);
                assert(before.contains(address));
            }
        }
        assert(is_ascending(members@));
        assert(members@.to_set() =~= before.to_set().insert(address));
        self.members = members;
        added
    }

    /// Whether the address is in the set.
    pub fn contains(&self, address: &PciAddress) -> (res: bool)
        ensures
            res == self@.contains(*address),
    {
        for i in 0..self.members.len()
            invariant
                forall|j: int| 0 <= j < i ==> self.members@[j] != *address,
        {
            if self.members[i] == *address {
                assert(self.members@.contains(*address));
                return true;
            }
        }
        false
    }

    /// How many addresses are in the set.
    pub fn len(&self) -> (res: usize)
        ensures
            res == self@.len(),
    {
        proof {
            use_type_invariant(self);
            assert(self.members@.no_duplicates());
            self.members@.unique_seq_to_set();
        }
        self.members.len()
    }

    /// Whether there is no address in the set.
    pub fn is_empty(&self) -> (res: bool)
        ensures
            res == (self@ == Set::<PciAddress>::empty()),
    {
        proof {
            if self.members@.len() == 0 {
                assert(self@ =~= Set::<PciAddress>::empty());
            } else {
                assert(self@.contains(self.members@[0]));
            }
        }
        self.members.len() == 0
    }

    /// The members in ascending order.
    pub fn members(&self) -> (res: &Vec<PciAddress>)
        ensures
            res@ == ascending(self@),
            lists(res@, self@),
            forall|i: int, j: int|
                0 <= i < j < res@.len() ==> res@[i].rank() < res@[j].rank(),
            forall|a: PciAddress| res@.contains(a) <==> self@.contains(a),
    {
        proof {
            use_type_invariant(self);
            assert(lists(self.members@, self@));
            ascending_is(self.members@, self@);
        }
        &self.members
    }
}

} // verus!
