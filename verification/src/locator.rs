//! Table locator: walks the checksummed chain from the root pointer
//! to the fixed description table and the definition blocks.

use vstd::prelude::*;
use vstd::bytes::{spec_u32_from_le_bytes, spec_u64_from_le_bytes, u32_from_le_bytes,
    u64_from_le_bytes};
use vstd::slice::{slice_index_get, slice_subrange, slice_to_vec};
use crate::rsdp::{Rsdp, RsdpError, rsdp_valid, rsdp_error_of};
use crate::sdt::{SdtHeader, SdtError, sdt_valid, sdt_error_of, sdt_length, SDT_HEADER_LENGTH,
    rsdt_sig, xsdt_sig, fadt_sig, ssdt_sig, dsdt_sig, rsdt_signature, xsdt_signature,
    dsdt_signature};
use crate::fadt::{Fadt, fadt_matches, FADT_MIN_LENGTH};
use crate::system::{SystemHandles, spec_root_pointer};

verus! {

/// A snapshot of one physical memory range.
#[derive(Clone, Debug)]
pub struct MemoryRegion {
    pub base: u64,
    pub bytes: Vec<u8>,
}

/// The whole byte range lies inside the region.
pub open spec fn region_has(r: MemoryRegion, addr: u64, len: int) -> bool {
    r.base <= addr && addr + len <= r.base + r.bytes@.len()
}

/// First region holding the byte range, or `-1`.
pub open spec fn find_region(m: Seq<MemoryRegion>, addr: u64, len: int) -> int
    decreases m.len(),
{
    if m.len() == 0 {
        -1
    } else if region_has(m.first(), addr, len) {
        0
    } else if find_region(m.drop_first(), addr, len) < 0 {
        -1
    } else {
        1 + find_region(m.drop_first(), addr, len)
    }
}

/// The bytes a read of `len` bytes at `addr` returns, if any region
/// holds the whole range.
pub open spec fn mem_read(m: Seq<MemoryRegion>, addr: u64, len: int) -> Option<Seq<u8>> {
    let i = find_region(m, addr, len);
    if i >= 0 {
        Some(m[i].bytes@.subrange(addr - m[i].base, addr - m[i].base + len))
    } else {
        None
    }
}

/// `find_region` returns the first region holding the range.
pub proof fn lemma_find_region(m: Seq<MemoryRegion>, addr: u64, len: int)
    ensures
        find_region(m, addr, len) < 0 ==> forall|i: int|
            0 <= i < m.len() ==> !region_has(#[trigger] m[i], addr, len),
        find_region(m, addr, len) >= 0 ==> 0 <= find_region(m, addr, len) < m.len() && region_has(
            m[find_region(m, addr, len)],
            addr,
            len,
        ) && forall|i: int|
            0 <= i < find_region(m, addr, len) ==> !region_has(#[trigger] m[i], addr, len),
    decreases m.len(),
{
    if m.len() > 0 && !region_has(m.first(), addr, len) {
        lemma_find_region(m.drop_first(), addr, len);
        assert(forall|i: int| 0 <= i < m.drop_first().len() ==> m.drop_first()[i] == m[i + 1]);
        let f = find_region(m.drop_first(), addr, len);
        if f < 0 {
            assert forall|i: int| 0 <= i < m.len() implies !region_has(#[trigger] m[i], addr, len)
            by {
                if i > 0 {
                    assert(!region_has(m.drop_first()[i - 1], addr, len));
                }
            }
        } else {
            assert forall|i: int| 0 <= i < find_region(m, addr, len) implies !region_has(
                #[trigger] m[i],
                addr,
                len,
            ) by {
                if i > 0 {
                    assert(!region_has(m.drop_first()[i - 1], addr, len));
                }
            }
        }
    }
}

/// A set of memory snapshots standing in for the firmware-owned
/// physical ranges the tables live in.
#[derive(Clone, Debug)]
pub struct PhysMemory {
    pub regions: Vec<MemoryRegion>,
}

impl PhysMemory {
    /// A view with no ranges at all.
    pub fn new() -> (m: PhysMemory)
        ensures
            m.regions@ == Seq::<MemoryRegion>::empty(),
    {
        PhysMemory { regions: Vec::new() }
    }

    /// Makes the byte range starting at `base` readable.
    pub fn add_region(&mut self, base: u64, bytes: Vec<u8>)
        ensures
            final(self).regions@.len() == old(self).regions@.len() + 1,
            final(self).regions@.last().base == base,
            final(self).regions@.last().bytes@ == bytes@,
            forall|i: int|
                0 <= i < old(self).regions@.len() ==> final(self).regions@[i] == old(
                    self,
                ).regions@[i],
    {
        self.regions.push(MemoryRegion { base, bytes });
    }

    /// Copies `len` bytes starting at physical address `addr` out of
    /// the first region holding the whole range.
    pub fn read(&self, addr: u64, len: usize) -> (r: Option<Vec<u8>>)
        ensures
            r is Some <==> mem_read(self.regions@, addr, len as int) is Some,
            r matches Some(v) ==> Some(v@) == mem_read(self.regions@, addr, len as int),
    {
        proof {
            lemma_find_region(self.regions@, addr, len as int);
        }
        let n = self.regions.len();
        let mut j: usize = 0;
        while j < n
            invariant
                n == self.regions@.len(),
                0 <= j <= n,
                forall|t: int| 0 <= t < j ==> !region_has(#[trigger] self.regions@[t], addr, len as int),
            decreases n - j,
        {
            let base = self.regions[j].base;
            let rlen = self.regions[j].bytes.len();
            if base <= addr {
                let off = addr - base;
                if off <= rlen as u64 && len as u64 <= rlen as u64 - off {
                    proof {
                        assert(region_has(self.regions@[j as int], addr, len as int));
                        lemma_find_region(self.regions@, addr, len as int);
                        let f = find_region(self.regions@, addr, len as int);
                        assert(f == j) by {
                            if f < j {
                                assert(!region_has(self.regions@[f], addr, len as int));
                            }
                            if f > j {
                                assert(!region_has(self.regions@[j as int], addr, len as int));
                            }
                        }
                    }
                    let out = slice_to_vec(
                        slice_subrange(
                            self.regions[j].bytes.as_slice(),
                            off as usize,
                            off as usize + len,
                        ),
                    );
                    return Some(out);
                }
            }
            proof {
                assert(!region_has(self.regions@[j as int], addr, len as int));
            }
            j = j + 1;
        }
        None
    }

    /// Reads a whole system description table at `addr`: first its
    /// header, then as many bytes as the header declares.
    pub fn read_table(&self, addr: u64) -> (r: Option<Vec<u8>>)
        ensures
            r is Some <==> spec_table_at(self.regions@, addr) is Some,
            r matches Some(v) ==> Some(v@) == spec_table_at(self.regions@, addr),
    {
        let head = match self.read(addr, SDT_HEADER_LENGTH) {
            None => {
                return None;
            },
            Some(v) => v,
        };
        proof {
            lemma_find_region(self.regions@, addr, SDT_HEADER_LENGTH as int);
            let h = mem_read(self.regions@, addr, SDT_HEADER_LENGTH as int).unwrap();
            assert(head@ == h);
            assert(h.len() == SDT_HEADER_LENGTH) by {
                let i = find_region(self.regions@, addr, SDT_HEADER_LENGTH as int);
                assert(region_has(self.regions@[i], addr, SDT_HEADER_LENGTH as int));
                assert(h == self.regions@[i].bytes@.subrange(
                    addr - self.regions@[i].base,
                    addr - self.regions@[i].base + SDT_HEADER_LENGTH,
                ));
            }
        }
        let l = u32_from_le_bytes(slice_subrange(head.as_slice(), 4, 8));
        proof {
            assert(head@.subrange(4, 8) =~= mem_read(
                self.regions@,
                addr,
                SDT_HEADER_LENGTH as int,
            ).unwrap().subrange(4, 8));
        }
        if l < SDT_HEADER_LENGTH as u32 {
            return None;
        }
        self.read(addr, l as usize)
    }
}

/// The bytes of a whole table at `addr`: the header is read first,
/// and the table exists when its declared length covers at least the
/// header and the whole declared range is readable.
pub open spec fn spec_table_at(m: Seq<MemoryRegion>, addr: u64) -> Option<Seq<u8>> {
    match mem_read(m, addr, SDT_HEADER_LENGTH as int) {
        None => None,
        Some(h) => {
            let l = sdt_length(h);
            if l < SDT_HEADER_LENGTH {
                None
            } else {
                mem_read(m, addr, l)
            }
        },
    }
}

/// Why the table chain could not be walked.
#[derive(Clone, Copy, PartialEq, Eq, Debug)]
pub enum TableError {
    RootPointerNotFound,
    RootPointer(RsdpError),
    Table(SdtError),
    FadtNotFound,
}

/// The validated tables the boot sequence needs: the fixed
/// description table, the primary definition block's byte code, and
/// the secondary definition blocks in table order.
#[derive(Clone, Debug)]
pub struct TableSet {
    pub fadt: Fadt,
    pub dsdt: Option<Vec<u8>>,
    pub ssdts: Vec<Vec<u8>>,
}

/// The root pointer bytes the locator examines: twenty bytes, or the
/// full extended image when the revision byte says there is one.
pub open spec fn spec_rsdp_bytes(m: Seq<MemoryRegion>, addr: u64) -> Option<Seq<u8>> {
    match mem_read(m, addr, 20) {
        None => None,
        Some(h) => if h[15] == 0 {
            Some(h)
        } else {
            mem_read(m, addr, 36)
        },
    }
}

/// Where the root table lives, by revision.
pub open spec fn spec_root_table_addr(rb: Seq<u8>) -> u64 {
    if rb[15] == 0 {
        spec_u32_from_le_bytes(rb.subrange(16, 20)) as u64
    } else {
        spec_u64_from_le_bytes(rb.subrange(24, 32))
    }
}

/// The signature the root table must carry, by revision.
pub open spec fn spec_root_sig(rb: Seq<u8>) -> Seq<u8> {
    if rb[15] == 0 {
        rsdt_sig()
    } else {
        xsdt_sig()
    }
}

/// Width of one root-table entry, by revision.
pub open spec fn spec_entry_size(rb: Seq<u8>) -> int {
    if rb[15] == 0 {
        4
    } else {
        8
    }
}

/// How many entries the root table holds.
pub open spec fn spec_entry_count(root: Seq<u8>, esz: int) -> int {
    (sdt_length(root) - SDT_HEADER_LENGTH) / esz
}

/// The address stored in entry `i` of the root table.
pub open spec fn spec_entry_addr(root: Seq<u8>, esz: int, i: int) -> u64 {
    if esz == 4 {
        spec_u32_from_le_bytes(
            root.subrange(SDT_HEADER_LENGTH + 4 * i, SDT_HEADER_LENGTH + 4 * i + 4),
        ) as u64
    } else {
        spec_u64_from_le_bytes(
            root.subrange(SDT_HEADER_LENGTH + 8 * i, SDT_HEADER_LENGTH + 8 * i + 8),
        )
    }
}

/// What scanning the first `n` root-table entries finds: the first
/// fixed description table, and the bodies of the secondary
/// definition blocks in entry order.  Every listed table is read
/// whole and validated against its own signature.
pub open spec fn spec_scan(m: Seq<MemoryRegion>, root: Seq<u8>, esz: int, n: int) -> Result<
    (Option<Seq<u8>>, Seq<Seq<u8>>),
    SdtError,
>
    decreases n,
{
    if n <= 0 {
        Ok((None, Seq::empty()))
    } else {
        match spec_scan(m, root, esz, n - 1) {
            Err(e) => Err(e),
            Ok((found, ssdts)) => {
                let a = spec_entry_addr(root, esz, n - 1);
                match spec_table_at(m, a) {
                    None => Err(SdtError::Truncated),
                    Some(tb) => {
                        let own = tb.subrange(0, 4);
                        if !sdt_valid(tb, own) {
                            Err(sdt_error_of(tb, own))
                        } else if own =~= fadt_sig() && found is None {
                            Ok((Some(tb), ssdts))
                        } else if own =~= ssdt_sig() {
                            Ok((found, ssdts.push(tb.subrange(SDT_HEADER_LENGTH as int, sdt_length(tb)))))
                        } else {
                            Ok((found, ssdts))
                        }
                    },
                }
            },
        }
    }
}

/// The whole locator chain at the specification level.
pub open spec fn spec_locate(h: SystemHandles, m: Seq<MemoryRegion>) -> Result<
    (Seq<u8>, Option<Seq<u8>>, Seq<Seq<u8>>),
    TableError,
> {
    match spec_root_pointer(h) {
        None => Err(TableError::RootPointerNotFound),
        Some(addr) => match spec_rsdp_bytes(m, addr) {
            None => Err(TableError::RootPointer(RsdpError::NoValidRsdp)),
            Some(rb) => if !rsdp_valid(rb) {
                Err(TableError::RootPointer(rsdp_error_of(rb)))
            } else {
                let ra = spec_root_table_addr(rb);
                let rsig = spec_root_sig(rb);
                let esz = spec_entry_size(rb);
                match spec_table_at(m, ra) {
                    None => Err(TableError::Table(SdtError::Truncated)),
                    Some(root) => if !sdt_valid(root, rsig) {
                        Err(TableError::Table(sdt_error_of(root, rsig)))
                    } else {
                        match spec_scan(m, root, esz, spec_entry_count(root, esz)) {
                            Err(e) => Err(TableError::Table(e)),
                            Ok((None, _)) => Err(TableError::FadtNotFound),
                            Ok((Some(fb), ssdts)) => if sdt_length(fb) < FADT_MIN_LENGTH {
                                Err(TableError::Table(SdtError::Truncated))
                            } else {
                                let da = spec_u32_from_le_bytes(fb.subrange(40, 44)) as u64;
                                if da == 0 {
                                    Ok((fb, None, ssdts))
                                } else {
                                    match spec_table_at(m, da) {
                                        None => Err(TableError::Table(SdtError::Truncated)),
                                        Some(db) => if !sdt_valid(db, dsdt_sig()) {
                                            Err(TableError::Table(sdt_error_of(db, dsdt_sig())))
                                        } else {
                                            Ok(
                                                (
                                                    fb,
                                                    Some(
                                                        db.subrange(
                                                            SDT_HEADER_LENGTH as int,
                                                            sdt_length(db),
                                                        ),
                                                    ),
                                                    ssdts,
                                                ),
                                            )
                                        },
                                    }
                                }
                            },
                        }
                    },
                }
            },
        },
    }
}

fn sig_bytes_of(tb: &Vec<u8>) -> (own: [u8; 4])
    requires
        tb@.len() >= 4,
    ensures
        own@ =~= tb@.subrange(0, 4),
{
    let own: [u8; 4] = [tb[0], tb[1], tb[2], tb[3]];
    proof {
        assert(own@ =~= tb@.subrange(0, 4));
    }
    own
}

fn sig_is(own: &[u8; 4], a: u8, b: u8, c: u8, d: u8) -> (r: bool)
    ensures
        r == (own@ =~= seq![a, b, c, d]),
{
    let r = own[0] == a && own[1] == b && own[2] == c && own[3] == d;
    proof {
        if r {
            assert(own@ =~= seq![a, b, c, d]);
        } else {
            assert(!(own@ =~= seq![a, b, c, d]));
        }
    }
    r
}

/// A scan that has failed stays failed however many more entries are
/// taken.
proof fn lemma_scan_err_persists(m: Seq<MemoryRegion>, root: Seq<u8>, esz: int, j: int, n: int)
    requires
        0 <= j <= n,
        spec_scan(m, root, esz, j) is Err,
    ensures
        spec_scan(m, root, esz, n) == spec_scan(m, root, esz, j),
    decreases n - j,
{
    if n > j {
        lemma_scan_err_persists(m, root, esz, j, n - 1);
    }
}

/// Scans the root-table entries: reads each listed table whole,
/// validates it against its own signature, keeps the first fixed
/// description table and every secondary definition block body.
#[verifier::rlimit(60)]
fn scan_entries(mem: &PhysMemory, root: &Vec<u8>, esz: usize, count: usize) -> (r: Result<
    (Option<Vec<u8>>, Vec<Vec<u8>>),
    SdtError,
>)
    requires
        esz == 4 || esz == 8,
        count == spec_entry_count(root@, esz as int),
        SDT_HEADER_LENGTH + esz * count <= root@.len(),
        root@.len() <= usize::MAX,
    ensures
        match r {
            Ok((found, ssdts)) => spec_scan(mem.regions@, root@, esz as int, count as int)
                == Ok::<_, SdtError>((found.deep_view(), ssdts.deep_view())),
            Err(e) => spec_scan(mem.regions@, root@, esz as int, count as int) == Err::<
                (Option<Seq<u8>>, Seq<Seq<u8>>),
                _,
            >(e),
        },
{
    let mut found: Option<Vec<u8>> = None;
    let mut ssdts: Vec<Vec<u8>> = Vec::new();
    let mut i: usize = 0;
    proof {
        assert(found.deep_view() == Option::<Seq<u8>>::None);
        assert(ssdts.deep_view() =~= Seq::<Seq<u8>>::empty());
    }
    while i < count
        invariant
            esz == 4 || esz == 8,
            0 <= i <= count,
            count == spec_entry_count(root@, esz as int),
            SDT_HEADER_LENGTH + esz * count <= root@.len(),
            root@.len() <= usize::MAX,
            spec_scan(mem.regions@, root@, esz as int, i as int) == Ok::<_, SdtError>(
                (found.deep_view(), ssdts.deep_view()),
            ),
        decreases count - i,
    {
        let ghost found0 = found.deep_view();
        let ghost ssdts0 = ssdts.deep_view();
        proof {
            assert(esz * (i + 1) <= esz * count) by (nonlinear_arith)
                requires
                    i + 1 <= count,
                    esz >= 1,
            ;
            assert(esz * i + esz == esz * (i + 1)) by (nonlinear_arith);
            assert(esz * i >= 0) by (nonlinear_arith)
                requires
                    esz >= 0,
                    i >= 0,
            ;
        }
        let off = SDT_HEADER_LENGTH + esz * i;
        let ea: u64 = if esz == 4 {
            u32_from_le_bytes(slice_subrange(root.as_slice(), off, off + 4)) as u64
        } else {
            u64_from_le_bytes(slice_subrange(root.as_slice(), off, off + 8))
        };
        proof {
            assert(ea == spec_entry_addr(root@, esz as int, i as int));
        }
        let tb = match mem.read_table(ea) {
            None => {
                proof {
                    lemma_scan_err_persists(
                        mem.regions@,
                        root@,
                        esz as int,
                        i + 1,
                        count as int,
                    );
                }
                return Err(SdtError::Truncated);
            },
            Some(v) => v,
        };
        proof {
            let m = mem.regions@;
            let h36 = mem_read(m, ea, SDT_HEADER_LENGTH as int).unwrap();
            let l = sdt_length(h36);
            assert(spec_table_at(m, ea) == mem_read(m, ea, l));
            lemma_find_region(m, ea, l);
            let ri = find_region(m, ea, l);
            assert(region_has(m[ri], ea, l));
            assert(tb@ == m[ri].bytes@.subrange(ea - m[ri].base, ea - m[ri].base + l));
            assert(tb@.len() == l);
            assert(tb@.len() >= SDT_HEADER_LENGTH);
        }
        let own = sig_bytes_of(&tb);
        match SdtHeader::validate(tb.as_slice(), &own) {
            Err(e) => {
                proof {
                    assert(tb@.subrange(0, 4) =~= own@);
                    lemma_scan_err_persists(
                        mem.regions@,
                        root@,
                        esz as int,
                        i + 1,
                        count as int,
                    );
                }
                return Err(e);
            },
            Ok(_) => {},
        };
        proof {
            assert(tb@.subrange(0, 4) =~= own@);
            assert(sdt_valid(tb@, own@));
        }
        let is_facp = sig_is(&own, 0x46, 0x41, 0x43, 0x50);
        let is_ssdt = sig_is(&own, 0x53, 0x53, 0x44, 0x54);
        proof {
            assert(fadt_sig() =~= seq![0x46u8, 0x41u8, 0x43u8, 0x50u8]);
            assert(ssdt_sig() =~= seq![0x53u8, 0x53u8, 0x44u8, 0x54u8]);
            assert(is_facp == (tb@.subrange(0, 4) =~= fadt_sig()));
            assert(is_ssdt == (tb@.subrange(0, 4) =~= ssdt_sig()));
        }
        if is_facp && found.is_none() {
            found = Some(tb);
        } else if is_ssdt {
            let l = u32_from_le_bytes(slice_subrange(tb.as_slice(), 4, 8));
            proof {
                assert(l == sdt_length(tb@));
                assert(SDT_HEADER_LENGTH <= sdt_length(tb@) <= tb@.len());
            }
            let body = slice_to_vec(slice_subrange(tb.as_slice(), SDT_HEADER_LENGTH, l as usize));
            ssdts.push(body);
        }
        proof {
            let m = mem.regions@;
            let e = esz as int;
            let next = spec_scan(m, root@, e, i + 1);
            let a = spec_entry_addr(root@, e, i as int);
            let tbs = spec_table_at(m, a).unwrap();
            assert(tbs == tb@);
            let own_s = tbs.subrange(0, 4);
            assert(own_s == tb@.subrange(0, 4));
            assert(sdt_valid(tbs, own_s));
            if is_facp && found0 is None {
                assert(own_s =~= fadt_sig());
                assert(found.deep_view() == Some(tb@));
                assert(ssdts.deep_view() =~= ssdts0);
                assert(next == Ok::<_, SdtError>((found.deep_view(), ssdts.deep_view())));
            } else if !is_facp && is_ssdt {
                assert(own_s =~= ssdt_sig());
                assert(!(own_s =~= fadt_sig()));
                assert(found.deep_view() == found0);
                assert(ssdts.deep_view() =~~= ssdts0.push(
                    tbs.subrange(SDT_HEADER_LENGTH as int, sdt_length(tbs)),
                ));
                assert(next == Ok::<_, SdtError>((found.deep_view(), ssdts.deep_view())));
            } else {
                assert(found.deep_view() == found0);
                assert(ssdts.deep_view() =~= ssdts0);
                if is_facp {
                    assert(!(own_s =~= ssdt_sig()));
                }
                assert(next == Ok::<_, SdtError>((found.deep_view(), ssdts.deep_view())));
            }
        }
        i = i + 1;
    }
    Ok((found, ssdts))
}

/// The fixed description table a successful scan hands back was read
/// whole and validated against the fixed table signature.
proof fn lemma_scan_fadt_valid(m: Seq<MemoryRegion>, root: Seq<u8>, esz: int, n: int)
    requires
        spec_scan(m, root, esz, n) matches Ok((f, _)) && f is Some,
    ensures
        spec_scan(m, root, esz, n) matches Ok((f, _)) && f matches Some(fb) && sdt_valid(
            fb,
            fadt_sig(),
        ),
    decreases n,
{
    if n > 0 {
        let prev = spec_scan(m, root, esz, n - 1);
        if prev matches Ok((f0, _)) && f0 is Some {
            lemma_scan_fadt_valid(m, root, esz, n - 1);
        }
    }
}

/// Walks the table chain: picks the preferred root pointer, validates
/// it, validates the root table it names, scans the entries for the
/// fixed description table and the secondary definition blocks, and
/// reads the primary definition block the fixed table names.  Every
/// validation failure surfaces as the typed error of the failing
/// check; nothing unvalidated is returned.
#[verifier::rlimit(60)]
pub fn locate(handles: &SystemHandles, mem: &PhysMemory) -> (r: Result<TableSet, TableError>)
    ensures
        ({
            let sl = spec_locate(*handles, mem.regions@);
            match r {
                Ok(ts) => sl matches Ok(t) && fadt_matches(ts.fadt, t.0) && ts.dsdt.deep_view()
                    == t.1 && ts.ssdts.deep_view() == t.2,
                Err(e) => sl matches Err(e2) && e == e2,
            }
        }),
{
    let addr = match handles.root_pointer() {
        None => {
            return Err(TableError::RootPointerNotFound);
        },
        Some(a) => a,
    };
    let head = match mem.read(addr, 20) {
        None => {
            return Err(TableError::RootPointer(RsdpError::NoValidRsdp));
        },
        Some(v) => v,
    };
    proof {
        lemma_find_region(mem.regions@, addr, 20);
        let h = mem_read(mem.regions@, addr, 20).unwrap();
        let i = find_region(mem.regions@, addr, 20);
        assert(region_has(mem.regions@[i], addr, 20));
        assert(h == mem.regions@[i].bytes@.subrange(
            addr - mem.regions@[i].base,
            addr - mem.regions@[i].base + 20,
        ));
        assert(head@.len() == 20);
    }
    let rb: Vec<u8> = if head[15] == 0 {
        head
    } else {
        match mem.read(addr, 36) {
            None => {
                return Err(TableError::RootPointer(RsdpError::NoValidRsdp));
            },
            Some(v) => v,
        }
    };
    proof {
        assert(Some(rb@) == spec_rsdp_bytes(mem.regions@, addr));
    }
    let rsdp = match Rsdp::validate(rb.as_slice()) {
        Err(e) => {
            return Err(TableError::RootPointer(e));
        },
        Ok(p) => p,
    };
    let root_addr: u64;
    let esz: usize;
    let rsig: [u8; 4];
    if rsdp.revision == 0 {
        root_addr = rsdp.rsdt_address as u64;
        esz = 4;
        rsig = rsdt_signature();
    } else {
        root_addr = rsdp.xsdt_address;
        esz = 8;
        rsig = xsdt_signature();
    }
    proof {
        assert(root_addr == spec_root_table_addr(rb@));
        assert(esz as int == spec_entry_size(rb@));
        assert(rsig@ =~= spec_root_sig(rb@));
    }
    let root = match mem.read_table(root_addr) {
        None => {
            return Err(TableError::Table(SdtError::Truncated));
        },
        Some(v) => v,
    };
    let root_hdr = match SdtHeader::validate(root.as_slice(), &rsig) {
        Err(e) => {
            return Err(TableError::Table(e));
        },
        Ok(h) => h,
    };
    let count = ((root_hdr.length as usize) - SDT_HEADER_LENGTH) / esz;
    proof {
        assert(count == spec_entry_count(root@, esz as int));
        vstd::arithmetic::div_mod::lemma_fundamental_div_mod(
            sdt_length(root@) - SDT_HEADER_LENGTH,
            esz as int,
        );
        assert(esz * count <= sdt_length(root@) - SDT_HEADER_LENGTH);
        assert(sdt_length(root@) <= root@.len());
    }
    let root_len = root.len();
    proof {
        assert(root@.len() == root_len);
    }
    let (found, ssdts) = match scan_entries(mem, &root, esz, count) {
        Err(e) => {
            return Err(TableError::Table(e));
        },
        Ok(p) => p,
    };
    let ghost sfound = found.deep_view();
    let ghost sssdts = ssdts.deep_view();
    proof {
        if found is Some {
            lemma_scan_fadt_valid(
                mem.regions@,
                root@,
                esz as int,
                spec_entry_count(root@, esz as int),
            );
        }
    }
    if found.is_none() {
        return Err(TableError::FadtNotFound);
    }
    let fb = found.unwrap();
    proof {
        assert(sfound == Some(fb@));
        assert(sdt_valid(fb@, fadt_sig()));
    }
    let fadt = match Fadt::parse(fb.as_slice()) {
        Err(e) => {
            return Err(TableError::Table(e));
        },
        Ok(f) => f,
    };
    let dsdt: Option<Vec<u8>> = if fadt.dsdt_address == 0 {
        None
    } else {
        let db = match mem.read_table(fadt.dsdt_address as u64) {
            None => {
                return Err(TableError::Table(SdtError::Truncated));
            },
            Some(v) => v,
        };
        let dsig = dsdt_signature();
        match SdtHeader::validate(db.as_slice(), &dsig) {
            Err(e) => {
                return Err(TableError::Table(e));
            },
            Ok(h) => {
                proof {
                    let m = mem.regions@;
                    let da = fadt.dsdt_address as u64;
                    let h36 = mem_read(m, da, SDT_HEADER_LENGTH as int).unwrap();
                    let l = sdt_length(h36);
                    lemma_find_region(m, da, l);
                    let ri = find_region(m, da, l);
                    assert(region_has(m[ri], da, l));
                    assert(db@ == m[ri].bytes@.subrange(da - m[ri].base, da - m[ri].base + l));
                    assert(db@.len() == l);
                    assert(h.length == sdt_length(db@));
                    assert(SDT_HEADER_LENGTH <= sdt_length(db@) <= db@.len());
                }
                let body = slice_to_vec(
                    slice_subrange(db.as_slice(), SDT_HEADER_LENGTH, h.length as usize),
                );
                proof {
                    assert(body.deep_view() =~= db@.subrange(
                        SDT_HEADER_LENGTH as int,
                        sdt_length(db@),
                    ));
                }
                Some(body)
            },
        }
    };
    proof {
        let m = mem.regions@;
        let e = esz as int;
        assert(spec_root_pointer(*handles) == Some(addr));
        assert(spec_rsdp_bytes(m, addr) == Some(rb@));
        assert(rsdp_valid(rb@));
        assert(spec_table_at(m, spec_root_table_addr(rb@)) == Some(root@));
        assert(sdt_valid(root@, spec_root_sig(rb@)));
        let n = spec_entry_count(root@, e);
        assert(spec_scan(m, root@, e, n) == Ok::<_, SdtError>((sfound, sssdts)));
        assert(sfound == Some(fb@));
        assert(sdt_length(fb@) >= FADT_MIN_LENGTH);
        let da = spec_u32_from_le_bytes(fb@.subrange(40, 44)) as u64;
        assert(da == fadt.dsdt_address as u64);
        let sl = spec_locate(*handles, m);
        assert(sl matches Ok(t) && t.0 == fb@ && t.2 == sssdts);
        assert(ssdts.deep_view() == sssdts);
        if dsdt is Some {
            assert(dsdt.deep_view() matches Some(b) && Some(b) == sl.unwrap().1);
        } else {
            assert(sl.unwrap().1 is None);
        }
    }
    Ok(TableSet { fadt, dsdt, ssdts })
}

} // verus!
