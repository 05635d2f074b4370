use crate::memory_address::MemoryAddress;
use crate::scan_value::{ScanValue, ScanValueView};
use vstd::prelude::*;

verus! {

/// What the editor shows of a pinned address: its last value read, if any.
pub open spec fn pinned_view(p: (MemoryAddress, Option<ScanValue>)) -> (
    MemoryAddress,
    Option<ScanValueView>,
) {
    (
        p.0,
        match p.1 {
            Some(v) => Some(v@),
            None => None,
        },
    )
}

/// No address is pinned twice.
pub open spec fn no_duplicate_addresses(s: Seq<(MemoryAddress, Option<ScanValueView>)>) -> bool {
    forall|i: int, j: int| 0 <= i < j < s.len() ==> s[i].0 != s[j].0
}

/// Whether `address` is among the pinned addresses.
pub open spec fn is_pinned(s: Seq<(MemoryAddress, Option<ScanValueView>)>, address: MemoryAddress) -> bool {
    exists|i: int| 0 <= i < s.len() && (#[trigger] s[i]).0 == address
}

/// The addresses that the user pinned to watch and edit, each with its last value read.
pub struct MemoryEditor {
    pinned_addresses: Vec<(MemoryAddress, Option<ScanValue>)>,
}

impl View for MemoryEditor {
    type V = Seq<(MemoryAddress, Option<ScanValueView>)>;

    closed spec fn view(&self) -> Seq<(MemoryAddress, Option<ScanValueView>)> {
        self.pinned_addresses@.map_values(|p: (MemoryAddress, Option<ScanValue>)| pinned_view(p))
    }
}

impl MemoryEditor {
    /// An editor with nothing pinned.
    pub fn new() -> (r: Self)
        ensures
            r@ == Seq::<(MemoryAddress, Option<ScanValueView>)>::empty(),
    {
        Self { pinned_addresses: Vec::new() }
    }

    /// The pinned addresses with their last values read.
    pub fn pinned(&self) -> (r: &Vec<(MemoryAddress, Option<ScanValue>)>)
        ensures
            r@.map_values(|p: (MemoryAddress, Option<ScanValue>)| pinned_view(p)) == self@,
    {
        &self.pinned_addresses
    }

    /// Pins `address`, with no value read yet, unless it is pinned already.
    pub fn pin_address(&mut self, address: MemoryAddress)
        ensures
            is_pinned(old(self)@, address) ==> final(self)@ == old(self)@,
            !is_pinned(old(self)@, address) ==> final(self)@ == old(self)@.push(
                (address, None::<ScanValueView>),
            ),
    {
        let mut i: usize = 0;
        while i < self.pinned_addresses.len()
            invariant
                i <= self.pinned_addresses.len(),
                forall|k: int| 0 <= k < i ==> (#[trigger] self@[k]).0 != address,
            decreases self.pinned_addresses.len() - i,
        {
            if self.pinned_addresses[i].0 == address {
                assert(self@[i as int].0 == address);
                return;
            }
            i = i + 1;
        }
        let ghost before = self@;
        self.pinned_addresses.push((address, None));
        assert(self@ =~= before.push((address, None::<ScanValueView>)));
    }

    /// The address at the selected position of the list, if one is selected.
    pub fn get_selected(&self, selected: Option<usize>) -> (r: Option<MemoryAddress>)
        requires
            selected matches Some(i) ==> i < self@.len(),
        ensures
            r == (match selected {
                Some(i) => Some(self@[i as int].0),
                None => None,
            }),
    {
        match selected {
            Some(i) => Some(self.pinned_addresses[i].0),
            None => None,
        }
    }

    /// Unpins the address at the selected position, if one is selected.
    pub fn unpin_selected(&mut self, selected: Option<usize>)
        requires
            selected matches Some(i) ==> i < old(self)@.len(),
        ensures
            final(self)@ == (match selected {
                Some(i) => old(self)@.remove(i as int),
                None => old(self)@,
            }),
    {
        match selected {
            Some(i) => {
                let ghost before = self.pinned_addresses@;
                self.pinned_addresses.remove(i);
                assert(self.pinned_addresses@ =~= before.remove(i as int));
                assert(self@ =~= before.map_values(
                    |p: (MemoryAddress, Option<ScanValue>)| pinned_view(p),
                ).remove(i as int));
            },
            None => {},
        }
    }

    /// Records the values just read at the pinned addresses, one for each in
    /// order (`None` where the read failed).
    pub fn update_values(&mut self, values: Vec<Option<ScanValue>>)
        requires
            values.len() == old(self)@.len(),
        ensures
            final(self)@.len() == old(self)@.len(),
            forall|i: int|
                0 <= i < old(self)@.len() ==> (#[trigger] final(self)@[i]).0 == old(self)@[i].0
                    && final(self)@[i].1 == (match values@[i] {
                    Some(v) => Some(v@),
                    None => None,
                }),
    {
        let ghost vals = values@;
        let ghost before = self@;
        let mut updated: Vec<(MemoryAddress, Option<ScanValue>)> = Vec::new();
        let mut rest = values;
        let n = self.pinned_addresses.len();
        let mut i: usize = 0;
        while i < n
            invariant
                n == self.pinned_addresses.len(),
                n == before.len(),
                self@ == before,
                i <= n,
                rest@.len() == n - i,
                vals.len() == n,
                rest@ == vals.subrange(i as int, n as int),
                updated@.len() == i,
                forall|k: int|
                    0 <= k < i ==> (#[trigger] updated@[k]).0 == before[k].0 && pinned_view(
                        updated@[k],
                    ).1 == (match vals[k] {
                        Some(v) => Some(v@),
                        None => None,
                    }),
            decreases n - i,
        {
            let v = rest.remove(0);
            assert(rest@ =~= vals.subrange(i + 1, n as int));
            assert(v == vals[i as int]);
            updated.push((self.pinned_addresses[i].0, v));
            i = i + 1;
        }
        self.pinned_addresses = updated;
    }
}

/// Pinning keeps every address pinned at most once.
pub proof fn lemma_pin_keeps_addresses_distinct(
    before: Seq<(MemoryAddress, Option<ScanValueView>)>,
    after: Seq<(MemoryAddress, Option<ScanValueView>)>,
    address: MemoryAddress,
)
    requires
        no_duplicate_addresses(before),
        is_pinned(before, address) ==> after == before,
        !is_pinned(before, address) ==> after == before.push((address, None::<ScanValueView>)),
    ensures
        no_duplicate_addresses(after),
        is_pinned(after, address),
{
    if !is_pinned(before, address) {
        assert(after[after.len() - 1].0 == address);
        assert forall|i: int, j: int| 0 <= i < j < after.len() implies after[i].0 != after[j].0 by {
            if j == after.len() - 1 {
                assert(before[i].0 == after[i].0);
            }
        }
    }
}

} // verus!
