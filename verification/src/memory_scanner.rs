use crate::kmp::{kmp_search, lemma_occurrences_exact, lists_all_occurrences, occurrences, occurs_at};
use crate::memory_address::{bytes_eq, MemoryAddress};
use crate::scan_value::{value_bytes, value_type, ScanSettings, ScanValue, ScanValueType};
use vstd::prelude::*;

verus! {

/// A stretch of another process's memory, read from address `start` on.
pub struct MemoryRegion {
    pub start: usize,
    pub bytes: Vec<u8>,
}

/// What backs a mapping of a process's memory.
#[derive(Clone, Copy, Debug, PartialEq, Eq, Structural)]
pub enum MapKind {
    Heap,
    Stack,
    Anonymous,
    /// A file, a thread's stack, or any other mapping.
    Other,
}

/// Whether a first scan searches a mapping: only the heap, the stack and
/// anonymous mappings hold the program's values.
pub fn is_scanned_mapping(kind: MapKind) -> (r: bool)
    ensures
        r == (kind == MapKind::Heap || kind == MapKind::Stack || kind == MapKind::Anonymous),
{
    match kind {
        MapKind::Heap | MapKind::Stack | MapKind::Anonymous => true,
        MapKind::Other => false,
    }
}

/// Why a next scan cannot narrow the current results.
#[derive(Clone, Copy, Debug, PartialEq, Eq, Structural)]
pub enum ScanError {
    /// There are no addresses from an earlier scan.
    NoAddresses,
    /// The earlier scan was of another process.
    ProcessMismatch,
}

/// The addresses, in increasing order, at which the bytes `pat` lie within
/// `bytes` read from address `start` of process `pid`.
pub open spec fn region_matches(
    start: usize,
    bytes: Seq<u8>,
    pat: Seq<u8>,
    pid: i32,
    t: ScanValueType,
) -> Seq<MemoryAddress> {
    occurrences(bytes, pat).map_values(
        |k: usize| MemoryAddress { pid, address: (start + k) as usize, val_type: t },
    )
}

/// The matches of every region, region after region.
pub open spec fn scan_regions(
    regions: Seq<MemoryRegion>,
    pat: Seq<u8>,
    pid: i32,
    t: ScanValueType,
) -> Seq<MemoryAddress>
    decreases regions.len(),
{
    if regions.len() == 0 {
        seq![]
    } else {
        scan_regions(regions.drop_last(), pat, pid, t) + region_matches(
            regions.last().start,
            regions.last().bytes@,
            pat,
            pid,
            t,
        )
    }
}

/// What a read at an address gave: the bytes read, or nothing when the address
/// could not be reached.
pub open spec fn read_view(r: Option<Vec<u8>>) -> Option<Seq<u8>> {
    match r {
        Some(b) => Some(b@),
        None => None,
    }
}

/// What each read gave.
pub open spec fn reads_view(reads: Seq<Option<Vec<u8>>>) -> Seq<Option<Seq<u8>>> {
    reads.map_values(|b: Option<Vec<u8>>| read_view(b))
}

/// The first `n` addresses, less those whose read did not give exactly `pat`.
pub open spec fn still_matching(
    addrs: Seq<MemoryAddress>,
    reads: Seq<Option<Seq<u8>>>,
    pat: Seq<u8>,
    n: nat,
) -> Seq<MemoryAddress>
    decreases n,
{
    if n == 0 {
        seq![]
    } else {
        let prev = still_matching(addrs, reads, pat, (n - 1) as nat);
        if reads[n - 1] == Some(pat) {
            prev.push(addrs[n - 1])
        } else {
            prev
        }
    }
}

/// The addresses that a scan found, and that later scans narrow down.
pub struct MemoryScanner {
    matching_addresses: Vec<MemoryAddress>,
}

impl View for MemoryScanner {
    type V = Seq<MemoryAddress>;

    closed spec fn view(&self) -> Seq<MemoryAddress> {
        self.matching_addresses@
    }
}

impl MemoryScanner {
    /// A scanner with no addresses.
    pub fn new() -> (r: Self)
        ensures
            r@ == Seq::<MemoryAddress>::empty(),
    {
        Self { matching_addresses: Vec::new() }
    }

    /// The addresses found so far.
    pub fn addresses(&self) -> (r: &Vec<MemoryAddress>)
        ensures
            r@ == self@,
    {
        &self.matching_addresses
    }

    /// The address at the selected position of the list, if one is selected.
    pub fn get_selected(&self, selected: Option<usize>) -> (r: Option<MemoryAddress>)
        requires
            selected matches Some(i) ==> i < self@.len(),
        ensures
            r == (match selected {
                Some(i) => Some(self@[i as int]),
                None => None,
            }),
    {
        match selected {
            Some(i) => Some(self.matching_addresses[i]),
            None => None,
        }
    }

    /// Searches `memory`, read from address `start_offset` of process `pid`,
    /// for the bytes of `val`: the addresses of every occurrence, in increasing
    /// order, each with the type of `val`.
    pub fn kmp(memory: &[u8], val: &ScanValue, pid: i32, start_offset: usize) -> (r: Vec<
        MemoryAddress,
    >)
        requires
            value_bytes(val@).len() > 0,
            start_offset + memory.len() <= usize::MAX,
        ensures
            r@ == region_matches(start_offset, memory@, value_bytes(val@), pid, value_type(val@)),
            forall|i: int|
                0 <= i < r.len() ==> {
                    &&& (#[trigger] r[i]).pid == pid
                    &&& r[i].val_type == value_type(val@)
                    &&& start_offset <= r[i].address
                    &&& occurs_at(memory@, value_bytes(val@), r[i].address - start_offset)
                },
            forall|i: int, j: int| 0 <= i < j < r.len() ==> r[i].address < r[j].address,
            forall|k: int|
                occurs_at(memory@, value_bytes(val@), k) ==> exists|i: int|
                    0 <= i < r.len() && #[trigger] r[i].address == start_offset + k,
    {
        let pattern = val.as_bytes();
        let val_type = ScanValueType::from_value(val);
        let positions = kmp_search(memory, pattern.as_slice());
        let ghost pat = value_bytes(val@);
        let ghost expected = region_matches(start_offset, memory@, pat, pid, val_type);
        let mut r: Vec<MemoryAddress> = Vec::new();
        let mut i: usize = 0;
        while i < positions.len()
            invariant
                i <= positions.len(),
                positions@ == occurrences(memory@, pat),
                lists_all_occurrences(memory@, pat, positions@),
                expected == region_matches(start_offset, memory@, pat, pid, val_type),
                start_offset + memory.len() <= usize::MAX,
                r@ == expected.subrange(0, i as int),
            decreases positions.len() - i,
        {
            let k = positions[i];
            assert(occurs_at(memory@, pat, positions@[i as int] as int));
            r.push(MemoryAddress::new(pid, start_offset + k, val_type));
            i = i + 1;
            assert(r@ =~= expected.subrange(0, i as int));
        }
        proof {
            assert(r@ =~= expected);
            assert forall|k: int| occurs_at(memory@, pat, k) implies exists|i: int|
                0 <= i < r.len() && #[trigger] r[i].address == start_offset + k by {
                let w = choose|w: int| 0 <= w < positions@.len() && positions@[w] == k as usize;
                assert(r[w].address == start_offset + k);
            }
        }
        r
    }

    /// The first scan of a process: the addresses, region after region, at
    /// which the bytes of the value to look for lie in the regions read from
    /// the process to scan.
    pub fn first_scan(&mut self, scan_settings: &ScanSettings, regions: &Vec<MemoryRegion>)
        requires
            value_bytes(scan_settings.target_value()).len() > 0,
            forall|i: int|
                0 <= i < regions.len() ==> #[trigger] regions[i].start + regions[i].bytes.len()
                    <= usize::MAX,
        ensures
            final(self)@ == scan_regions(
                regions@,
                value_bytes(scan_settings.target_value()),
                scan_settings.target_pid(),
                value_type(scan_settings.target_value()),
            ),
            forall|i: int, k: int|
                0 <= i < regions.len() && #[trigger] occurs_at(
                    regions[i].bytes@,
                    value_bytes(scan_settings.target_value()),
                    k,
                ) ==> final(self)@.contains(
                    MemoryAddress {
                        pid: scan_settings.target_pid(),
                        address: (regions[i].start + k) as usize,
                        val_type: value_type(scan_settings.target_value()),
                    },
                ),
            forall|x: int|
                0 <= x < final(self)@.len() ==> {
                    let a = #[trigger] final(self)@[x];
                    &&& a.pid == scan_settings.target_pid()
                    &&& a.val_type == value_type(scan_settings.target_value())
                    &&& exists|i: int|
                        0 <= i < regions.len() && regions[i].start <= a.address
                            && #[trigger] occurs_at(
                            regions[i].bytes@,
                            value_bytes(scan_settings.target_value()),
                            a.address - regions[i].start,
                        )
                },
    {
        let value = scan_settings.value();
        let pid = scan_settings.process();
        let ghost pat = value_bytes(value@);
        let ghost t = value_type(value@);
        let mut addresses: Vec<MemoryAddress> = Vec::new();
        let mut i: usize = 0;
        while i < regions.len()
            invariant
                i <= regions.len(),
                value_bytes(value@).len() > 0,
                pat == value_bytes(value@),
                t == value_type(value@),
                forall|j: int|
                    0 <= j < regions.len() ==> #[trigger] regions[j].start + regions[j].bytes.len()
                        <= usize::MAX,
                addresses@ == scan_regions(regions@.subrange(0, i as int), pat, pid, t),
            decreases regions.len() - i,
        {
            let region = &regions[i];
            let mut found = Self::kmp(region.bytes.as_slice(), value, pid, region.start);
            addresses.append(&mut found);
            proof {
                let pre = regions@.subrange(0, i + 1);
                assert(pre.drop_last() =~= regions@.subrange(0, i as int));
                assert(pre.last() == regions@[i as int]);
            }
            i = i + 1;
        }
        assert(regions@.subrange(0, regions.len() as int) =~= regions@);
        proof {
            assert forall|j: int|
                0 <= j < regions@.len() implies #[trigger] regions@[j].start
                    + regions@[j].bytes@.len() <= usize::MAX by {
                assert(regions@[j] == regions[j]);
            }
            lemma_first_scan_exact(regions@, pat, pid, t);
        }
        self.matching_addresses = addresses;
    }

    /// Whether the current results can be narrowed by a scan of process `pid`.
    pub fn check_next_scan(&self, pid: i32) -> (r: Result<(), ScanError>)
        ensures
            self@.len() == 0 ==> r == Err::<(), ScanError>(ScanError::NoAddresses),
            self@.len() > 0 && self@[0].pid != pid ==> r == Err::<(), ScanError>(
                ScanError::ProcessMismatch,
            ),
            self@.len() > 0 && self@[0].pid == pid ==> r is Ok,
    {
        if self.matching_addresses.len() == 0 {
            return Err(ScanError::NoAddresses);
        }
        if self.matching_addresses[0].pid != pid {
            return Err(ScanError::ProcessMismatch);
        }
        Ok(())
    }

    /// The next scan: keeps, in order, the addresses whose read (`reads[i]`
    /// for the address at position `i`) gave exactly the bytes of the value to
    /// look for. The results are left alone when there are none, or when they
    /// are of another process than the one to scan.
    pub fn next_scan(&mut self, scan_settings: &ScanSettings, reads: &Vec<Option<Vec<u8>>>) -> (r:
        Result<(), ScanError>)
        requires
            reads.len() == old(self)@.len(),
        ensures
            old(self)@.len() == 0 ==> r == Err::<(), ScanError>(ScanError::NoAddresses),
            old(self)@.len() > 0 && old(self)@[0].pid != scan_settings.target_pid() ==> r == Err::<
                (),
                ScanError,
            >(ScanError::ProcessMismatch),
            old(self)@.len() > 0 && old(self)@[0].pid == scan_settings.target_pid() ==> r is Ok,
            r is Err ==> final(self)@ == old(self)@,
            r is Ok ==> old(self)@.len() > 0 && old(self)@[0].pid == scan_settings.target_pid()
                && final(self)@ == still_matching(
                old(self)@,
                reads@.map_values(|b: Option<Vec<u8>>| read_view(b)),
                value_bytes(scan_settings.target_value()),
                old(self)@.len(),
            ),
            r is Ok ==> exists|ix: Seq<int>|
                #[trigger] kept_at(
                    old(self)@,
                    reads_view(reads@),
                    value_bytes(scan_settings.target_value()),
                    old(self)@.len(),
                    final(self)@,
                    ix,
                ),
    {
        let value = scan_settings.value();
        let pid = scan_settings.process();
        let check = self.check_next_scan(pid);
        if check.is_err() {
            return check;
        }
        let pattern = value.as_bytes();
        let ghost rv = reads@.map_values(|b: Option<Vec<u8>>| read_view(b));
        let ghost old_addrs = self@;
        let mut kept: Vec<MemoryAddress> = Vec::new();
        let mut i: usize = 0;
        while i < self.matching_addresses.len()
            invariant
                i <= self.matching_addresses.len(),
                self@ == old_addrs,
                reads.len() == old_addrs.len(),
                rv == reads@.map_values(|b: Option<Vec<u8>>| read_view(b)),
                pattern@ == value_bytes(value@),
                kept@ == still_matching(old_addrs, rv, pattern@, i as nat),
            decreases self.matching_addresses.len() - i,
        {
            let keep = match &reads[i] {
                Some(buf) => bytes_eq(buf.as_slice(), pattern.as_slice()),
                None => false,
            };
            assert(rv[i as int] == read_view(reads@[i as int]));
            if keep {
                kept.push(self.matching_addresses[i]);
            }
            i = i + 1;
        }
        proof {
            lemma_next_scan_is_filter(old_addrs, rv, pattern@, old_addrs.len());
            assert(rv == reads_view(reads@));
        }
        self.matching_addresses = kept;
        Ok(())
    }

    /// Forgets every address.
    pub fn clear(&mut self)
        ensures
            final(self)@ == Seq::<MemoryAddress>::empty(),
    {
        self.matching_addresses = Vec::new();
    }
}

/// A first scan finds the value's bytes at every address it lists, and at no
/// address it leaves out: within each region, in increasing order.
pub proof fn lemma_region_matches_exact(
    start: usize,
    bytes: Seq<u8>,
    pat: Seq<u8>,
    pid: i32,
    t: ScanValueType,
)
    requires
        pat.len() > 0,
        start + bytes.len() <= usize::MAX,
    ensures
        forall|i: int|
            0 <= i < region_matches(start, bytes, pat, pid, t).len() ==> {
                let a = #[trigger] region_matches(start, bytes, pat, pid, t)[i];
                &&& a.pid == pid
                &&& a.val_type == t
                &&& occurs_at(bytes, pat, a.address - start)
            },
        forall|k: int|
            occurs_at(bytes, pat, k) ==> exists|i: int|
                0 <= i < region_matches(start, bytes, pat, pid, t).len() && #[trigger] region_matches(
                    start,
                    bytes,
                    pat,
                    pid,
                    t,
                )[i].address == start + k,
{
    lemma_occurrences_exact(bytes, pat);
    let occ = occurrences(bytes, pat);
    let rm = region_matches(start, bytes, pat, pid, t);
    assert forall|i: int| 0 <= i < rm.len() implies {
        let a = #[trigger] rm[i];
        &&& a.pid == pid
        &&& a.val_type == t
        &&& occurs_at(bytes, pat, a.address - start)
    } by {
        assert(occurs_at(bytes, pat, occ[i] as int));
    }
    assert forall|k: int| occurs_at(bytes, pat, k) implies exists|i: int|
        0 <= i < rm.len() && #[trigger] rm[i].address == start + k by {
        let w = choose|w: int| 0 <= w < occ.len() && occ[w] == k as usize;
        assert(rm[w].address == start + k);
    }
}

/// A first scan lists exactly the places where the value's bytes lie: every
/// occurrence of `pat` anywhere in the bytes of any region, at offset `k` of
/// the region read from `start`, is listed as address `start + k`; and every
/// listed address, of process `pid` and type `t`, is such an occurrence in
/// some region.
pub proof fn lemma_first_scan_exact(
    regions: Seq<MemoryRegion>,
    pat: Seq<u8>,
    pid: i32,
    t: ScanValueType,
)
    requires
        pat.len() > 0,
        forall|i: int|
            0 <= i < regions.len() ==> #[trigger] regions[i].start + regions[i].bytes@.len()
                <= usize::MAX,
    ensures
        forall|i: int, k: int|
            0 <= i < regions.len() && #[trigger] occurs_at(regions[i].bytes@, pat, k) ==> scan_regions(
                regions,
                pat,
                pid,
                t,
            ).contains(MemoryAddress { pid, address: (regions[i].start + k) as usize, val_type: t }),
        forall|x: int|
            0 <= x < scan_regions(regions, pat, pid, t).len() ==> {
                let a = #[trigger] scan_regions(regions, pat, pid, t)[x];
                &&& a.pid == pid
                &&& a.val_type == t
                &&& exists|i: int|
                    0 <= i < regions.len() && regions[i].start <= a.address && #[trigger] occurs_at(
                        regions[i].bytes@,
                        pat,
                        a.address - regions[i].start,
                    )
            },
    decreases regions.len(),
{
    if regions.len() > 0 {
        let p = regions.drop_last();
        let last = regions.last();
        let n = regions.len() - 1;
        assert forall|i: int|
            0 <= i < p.len() implies #[trigger] p[i].start + p[i].bytes@.len() <= usize::MAX by {
            assert(p[i] == regions[i]);
        }
        lemma_first_scan_exact(p, pat, pid, t);
        assert(regions[n] == last);
        lemma_region_matches_exact(last.start, last.bytes@, pat, pid, t);
        let before = scan_regions(p, pat, pid, t);
        let rm = region_matches(last.start, last.bytes@, pat, pid, t);
        let res = scan_regions(regions, pat, pid, t);
        assert(res == before + rm);
        assert forall|i: int, k: int|
            0 <= i < regions.len() && #[trigger] occurs_at(regions[i].bytes@, pat, k) implies res.contains(
            MemoryAddress { pid, address: (regions[i].start + k) as usize, val_type: t },
        ) by {
            let a = MemoryAddress { pid, address: (regions[i].start + k) as usize, val_type: t };
            if i < n {
                assert(p[i] == regions[i]);
                assert(occurs_at(p[i].bytes@, pat, k));
                assert(before.contains(a));
                let w = choose|w: int| 0 <= w < before.len() && before[w] == a;
                assert(res[w] == a);
            } else {
                let j = choose|j: int| 0 <= j < rm.len() && #[trigger] rm[j].address == last.start + k;
                assert(rm[j].pid == pid && rm[j].val_type == t);
                assert(rm[j] == a);
                assert(res[before.len() + j] == a);
            }
        }
        assert forall|x: int| 0 <= x < res.len() implies {
            let a = #[trigger] res[x];
            &&& a.pid == pid
            &&& a.val_type == t
            &&& exists|i: int|
                0 <= i < regions.len() && regions[i].start <= a.address && #[trigger] occurs_at(
                    regions[i].bytes@,
                    pat,
                    a.address - regions[i].start,
                )
        } by {
            if x < before.len() {
                assert(res[x] == before[x]);
                let a = before[x];
                let i = choose|i: int|
                    0 <= i < p.len() && p[i].start <= a.address && #[trigger] occurs_at(
                        p[i].bytes@,
                        pat,
                        a.address - p[i].start,
                    );
                assert(p[i] == regions[i]);
            } else {
                let j = x - before.len();
                assert(res[x] == rm[j]);
                assert(occurs_at(regions[n].bytes@, pat, rm[j].address - regions[n].start));
            }
        }
    }
}

/// Where a region was read from only shifts the addresses found in it: the
/// same bytes read from `start` give the addresses found from `0`, each moved
/// up by `start`, in the same order.
pub proof fn lemma_start_only_shifts(
    start: usize,
    bytes: Seq<u8>,
    pat: Seq<u8>,
    pid: i32,
    t: ScanValueType,
)
    requires
        pat.len() > 0,
        start + bytes.len() <= usize::MAX,
    ensures
        region_matches(start, bytes, pat, pid, t).len() == region_matches(0, bytes, pat, pid, t).len(),
        forall|i: int|
            0 <= i < region_matches(start, bytes, pat, pid, t).len() ==> #[trigger] region_matches(
                start,
                bytes,
                pat,
                pid,
                t,
            )[i] == (MemoryAddress {
                address: (region_matches(0, bytes, pat, pid, t)[i].address + start) as usize,
                ..region_matches(0, bytes, pat, pid, t)[i]
            }),
{
    lemma_occurrences_exact(bytes, pat);
    let occ = occurrences(bytes, pat);
    assert forall|i: int| 0 <= i < occ.len() implies occ[i] + start <= usize::MAX by {
        assert(occurs_at(bytes, pat, occ[i] as int));
    }
}

/// A next scan only narrows: it keeps no more addresses than there were, each
/// one of them, in their order, and only those whose read gave the pattern.
pub proof fn lemma_next_scan_narrows(
    addrs: Seq<MemoryAddress>,
    reads: Seq<Option<Seq<u8>>>,
    pat: Seq<u8>,
    n: nat,
)
    requires
        n <= addrs.len(),
        n <= reads.len(),
    ensures
        still_matching(addrs, reads, pat, n).len() <= n,
        forall|x: int|
            0 <= x < still_matching(addrs, reads, pat, n).len() ==> exists|i: int|
                0 <= i < n && addrs[i] == #[trigger] still_matching(addrs, reads, pat, n)[x]
                    && reads[i] == Some(pat),
    decreases n,
{
    if n > 0 {
        lemma_next_scan_narrows(addrs, reads, pat, (n - 1) as nat);
        let prev = still_matching(addrs, reads, pat, (n - 1) as nat);
        let cur = still_matching(addrs, reads, pat, n);
        assert forall|x: int| 0 <= x < cur.len() implies exists|i: int|
            0 <= i < n && addrs[i] == #[trigger] cur[x] && reads[i] == Some(pat) by {
            if x < prev.len() {
                let w = choose|w: int|
                    0 <= w < n - 1 && addrs[w] == #[trigger] prev[x] && reads[w] == Some(pat);
                assert(cur[x] == prev[x]);
            } else {
                assert(cur[x] == addrs[n - 1]);
            }
        }
    }
}

/// When every read still gives the pattern, a next scan keeps every address.
pub proof fn lemma_next_scan_keeps_unchanged(
    addrs: Seq<MemoryAddress>,
    reads: Seq<Option<Seq<u8>>>,
    pat: Seq<u8>,
    n: nat,
)
    requires
        n <= addrs.len(),
        n <= reads.len(),
        forall|i: int| 0 <= i < n ==> reads[i] == Some(pat),
    ensures
        still_matching(addrs, reads, pat, n) == addrs.subrange(0, n as int),
    decreases n,
{
    if n > 0 {
        lemma_next_scan_keeps_unchanged(addrs, reads, pat, (n - 1) as nat);
        assert(addrs.subrange(0, n as int) =~= addrs.subrange(0, n - 1).push(addrs[n - 1]));
    } else {
        assert(addrs.subrange(0, 0) =~= Seq::<MemoryAddress>::empty());
    }
}

/// `kept` holds, in order, the addresses at the positions `ix` of `addrs`:
/// exactly the positions below `n` whose read gave `pat`, each once, in
/// increasing order.
pub open spec fn kept_at(
    addrs: Seq<MemoryAddress>,
    reads: Seq<Option<Seq<u8>>>,
    pat: Seq<u8>,
    n: nat,
    kept: Seq<MemoryAddress>,
    ix: Seq<int>,
) -> bool {
    &&& ix.len() == kept.len()
    &&& forall|x: int|
        0 <= x < ix.len() ==> 0 <= #[trigger] ix[x] < n && reads[ix[x]] == Some(pat) && kept[x]
            == addrs[ix[x]]
    &&& forall|x: int, y: int| 0 <= x < y < ix.len() ==> ix[x] < ix[y]
    &&& forall|i: int|
        0 <= i < n && #[trigger] reads[i] == Some(pat) ==> exists|x: int|
            0 <= x < ix.len() && ix[x] == i
}

/// A next scan keeps the address at position `i` if and only if the read at
/// position `i` gave exactly the value's bytes, whatever the other reads gave,
/// and keeps the kept addresses in their order.
pub proof fn lemma_next_scan_is_filter(
    addrs: Seq<MemoryAddress>,
    reads: Seq<Option<Seq<u8>>>,
    pat: Seq<u8>,
    n: nat,
)
    requires
        n <= addrs.len(),
        n <= reads.len(),
    ensures
        exists|ix: Seq<int>| #[trigger] kept_at(addrs, reads, pat, n, still_matching(addrs, reads, pat, n), ix),
    decreases n,
{
    if n == 0 {
        assert(kept_at(addrs, reads, pat, 0, still_matching(addrs, reads, pat, 0), Seq::<int>::empty()));
    } else {
        lemma_next_scan_is_filter(addrs, reads, pat, (n - 1) as nat);
        let prev = still_matching(addrs, reads, pat, (n - 1) as nat);
        let pix = choose|ix: Seq<int>| #[trigger] kept_at(addrs, reads, pat, (n - 1) as nat, prev, ix);
        let cur = still_matching(addrs, reads, pat, n);
        if reads[n - 1] == Some(pat) {
            let ix = pix.push(n - 1);
            assert forall|i: int| 0 <= i < n && #[trigger] reads[i] == Some(pat) implies exists|x: int|
                0 <= x < ix.len() && ix[x] == i by {
                if i < n - 1 {
                    let x = choose|x: int| 0 <= x < pix.len() && pix[x] == i;
                    assert(ix[x] == i);
                } else {
                    assert(ix[ix.len() - 1] == i);
                }
            }
            assert(kept_at(addrs, reads, pat, n, cur, ix));
        } else {
            assert forall|i: int| 0 <= i < n && #[trigger] reads[i] == Some(pat) implies exists|x: int|
                0 <= x < pix.len() && pix[x] == i by {
                assert(i != n - 1);
            }
            assert(kept_at(addrs, reads, pat, n, cur, pix));
        }
    }
}

/// Repeating a next scan on unchanged memory keeps everything that the first
/// one kept: when rereading each kept address gives what the first scan read
/// there, the second scan keeps the same addresses, in the same order.
pub proof fn lemma_next_scan_repeated(
    addrs: Seq<MemoryAddress>,
    reads: Seq<Option<Seq<u8>>>,
    rereads: Seq<Option<Seq<u8>>>,
    pat: Seq<u8>,
)
    requires
        reads.len() == addrs.len(),
        rereads.len() == still_matching(addrs, reads, pat, addrs.len()).len(),
        forall|x: int, i: int|
            0 <= x < rereads.len() && 0 <= i < addrs.len() && addrs[i] == still_matching(
                addrs,
                reads,
                pat,
                addrs.len(),
            )[x] && reads[i] == Some(pat) ==> #[trigger] rereads[x] == #[trigger] reads[i],
    ensures
        ({
            let kept = still_matching(addrs, reads, pat, addrs.len());
            still_matching(kept, rereads, pat, kept.len()) == kept
        }),
{
    let kept = still_matching(addrs, reads, pat, addrs.len());
    lemma_next_scan_narrows(addrs, reads, pat, addrs.len());
    assert forall|x: int| 0 <= x < kept.len() implies rereads[x] == Some(pat) by {
        let i = choose|i: int| 0 <= i < addrs.len() && addrs[i] == #[trigger] kept[x] && reads[i] == Some(pat);
        assert(rereads[x] == reads[i]);
    }
    lemma_next_scan_keeps_unchanged(kept, rereads, pat, kept.len());
    assert(kept.subrange(0, kept.len() as int) =~= kept);
}

} // verus!
