//! The 28-byte file header and everything derived from it: pointer width,
//! page geometry, and the partitioning of a key hash into page index,
//! table slot and external hash.

use vstd::prelude::*;

use crate::bitbash::{
    all_set, le_bytes, le_value, lemma_le_bytes_len, lemma_le_round_trip, lemma_le_value_bound,
    pow256, read_u32, read_u64, seq_splice, write_u32, write_u64, zero_vec,
};
use crate::read::NCDReadAccessor;
use crate::util::{wrap_io_error, NCDError};

verus! {

/// The file magic, chosen so the first byte on disk is `0xFE`.
pub const MAGIC_NUMBER: u32 = 0x4E00C0FE;

/// Size of the serialized header in bytes.
pub const HEADER_SIZE: usize = 28;

/// The parsed file header. `version` encodes the pointer width
/// (1 means 2-byte table pointers, 0 means 4-byte ones).
#[derive(Clone, Copy, Debug)]
pub struct NCDHeader {
    pub version: u32,
    pub number_of_pages: u64,
    pub heap_size: u32,
    pub table_size: u32,
    pub stamp: u32,
}

/// The narrowest pointer width the page geometry admits: 2 when the
/// whole page laid out with 2-byte pointers (heap, two bytes per slot,
/// stamp) stays under 65536 bytes, else 4.
pub open spec fn min_pointer_size(heap_size: u32, table_size: u32) -> int {
    if heap_size + 2 * table_size + 4 < 65536 {
        2
    } else {
        4
    }
}

/// The pointer width the constructor settles on: a forced width may widen
/// the minimum but never narrow it.
pub open spec fn effective_pointer_size(force: Option<u32>, heap_size: u32, table_size: u32) -> int {
    let m = min_pointer_size(heap_size, table_size);
    match force {
        Some(f) => if f > m {
            f as int
        } else {
            m
        },
        None => m,
    }
}

/// When the constructor accepts a geometry: the settled pointer width is
/// one the version field can encode, and the page and file sizes fit
/// their offsets.
pub open spec fn spec_new_ok(
    number_of_pages: u64,
    heap_size: u32,
    table_size: u32,
    force: Option<u32>,
) -> bool {
    let eff = effective_pointer_size(force, heap_size, table_size);
    let ps = 4 + table_size * eff + heap_size;
    &&& (eff == 2 || eff == 4)
    &&& ps <= 0xFFFFFFFF
    &&& number_of_pages * ps <= u64::MAX
}

/// Multiplying both sides of `a <= b` by a nonnegative `c` keeps the order.
pub proof fn lemma_mul_le(a: int, b: int, c: int)
    requires
        0 <= a <= b,
        0 <= c,
    ensures
        a * c <= b * c,
{
    assert(a * c <= b * c) by (nonlinear_arith)
        requires
            0 <= a <= b,
            0 <= c,
    {
    }
}

/// One more multiplicand adds one more summand.
pub proof fn lemma_mul_succ(a: int, c: int)
    ensures
        (a + 1) * c == a * c + c,
{
    assert((a + 1) * c == a * c + c) by (nonlinear_arith)
    {
    }
}

impl NCDHeader {
    /// A page always holds at least its trailing stamp.
    pub proof fn lemma_page_size_pos(&self)
        ensures
            self.spec_page_size() >= 4 + self.heap_size,
    {
        assert(self.table_size * self.spec_pl() >= 0) by (nonlinear_arith)
            requires
                self.table_size >= 0,
                self.spec_pl() >= 0,
        {
        }
    }

    /// The table pointer width in bytes, encoded by the version field.
    pub open spec fn spec_pl(&self) -> int {
        if self.version == 1 {
            2
        } else {
            4
        }
    }

    /// Bytes per page: heap, table, and the 4-byte table stamp.
    pub open spec fn spec_page_size(&self) -> int {
        4 + self.table_size * self.spec_pl() + self.heap_size
    }

    /// Bytes of the structured region: all pages, without the overflow area.
    pub open spec fn spec_structured_size(&self) -> int {
        self.number_of_pages * self.spec_page_size()
    }

    /// Internal consistency: a known version, a page size that fits in 32
    /// bits, and a structured region whose size fits in a file offset.
    pub open spec fn wf(&self) -> bool {
        &&& self.version <= 1
        &&& self.spec_page_size() <= 0xFFFFFFFF
        &&& self.number_of_pages * self.spec_page_size() <= u64::MAX
    }

    /// The page index a hash falls into; 0 for a file with no slots or
    /// no pages.
    pub open spec fn spec_hash_page_index(&self, hash: u64) -> int {
        if self.table_size == 0 || self.number_of_pages == 0 {
            0
        } else {
            ((hash / self.table_size as u64) % self.number_of_pages as u64) as int
        }
    }

    /// The table slot a hash starts probing at.
    pub open spec fn spec_hash_page_slot(&self, hash: u64) -> int
        recommends
            self.table_size > 0,
    {
        hash as int % self.table_size as int
    }

    /// The 32-bit residue stored with an external entry.
    pub open spec fn spec_hash_ext(&self, hash: u64) -> int {
        if self.table_size == 0 || self.number_of_pages == 0 {
            0
        } else {
            ((hash / self.table_size as u64 / self.number_of_pages) % 0x100000000) as int
        }
    }

    /// The serialized form: magic, version, page count, heap size, table
    /// size and stamp, each little-endian.
    pub open spec fn spec_bytes(&self) -> Seq<u8> {
        le_bytes(MAGIC_NUMBER as int, 4) + le_bytes(self.version as int, 4) + le_bytes(
            self.number_of_pages as int,
            8,
        ) + le_bytes(self.heap_size as int, 4) + le_bytes(self.table_size as int, 4) + le_bytes(
            self.stamp as int,
            4,
        )
    }

    /// Build a header, choosing the pointer width from the geometry and
    /// the optional forced width, and refusing configurations the format
    /// cannot carry.
    pub fn new(
        number_of_pages: u64,
        heap_size: u32,
        table_size: u32,
        force_header_size: Option<u32>,
        stamp: u32,
    ) -> (r: Result<NCDHeader, NCDError>)
        ensures
            r is Ok <==> spec_new_ok(number_of_pages, heap_size, table_size, force_header_size),
            r is Ok ==> ({
                let h = r->Ok_0;
                &&& h.wf()
                &&& h.number_of_pages == number_of_pages
                &&& h.heap_size == heap_size
                &&& h.table_size == table_size
                &&& h.stamp == stamp
                &&& h.spec_pl() == effective_pointer_size(force_header_size, heap_size, table_size)
            }),
            r is Err ==> r->Err_0 is BadConfiguration,
    {
        let min_header_size: u32 = if (heap_size as u64) + 2 * (table_size as u64) + 4 < 65536 {
            2
        } else {
            4
        };
        let header_size: u32 = match force_header_size {
            Some(f) => if f > min_header_size {
                f
            } else {
                min_header_size
            },
            None => min_header_size,
        };
        let version: u32 = match header_size {
            2 => 1,
            4 => 0,
            _ => {
                return Err(NCDError::BadConfiguration("unsupported header size".to_owned()));
            },
        };
        let out = NCDHeader { version, number_of_pages, heap_size, table_size, stamp };
        let pl: u64 = if version == 1 {
            2
        } else {
            4
        };
        proof {
            assert((table_size as int) * (pl as int) <= 0xFFFFFFFF * 4) by (nonlinear_arith)
                requires
                    0 <= table_size <= 0xFFFFFFFFu32,
                    0 <= pl <= 4u64,
            {
            }
        }
        let page_size: u64 = 4 + (table_size as u64) * pl + (heap_size as u64);
        if page_size > 0xFFFFFFFF {
            return Err(NCDError::BadConfiguration("page size too large".to_owned()));
        }
        proof {
            assert((number_of_pages as int) * (page_size as int)
                < 0x100000000000000000000000000000000) by (nonlinear_arith)
                requires
                    number_of_pages <= 0xFFFFFFFFFFFFFFFFu64,
                    page_size <= 0xFFFFFFFFu64,
            {
            }
        }
        if (number_of_pages as u128) * (page_size as u128) > u64::MAX as u128 {
            return Err(NCDError::BadConfiguration("file size too large".to_owned()));
        }
        Ok(out)
    }

    /// The table pointer width in bytes: 2 or 4.
    pub fn pointer_length(&self) -> (r: usize)
        ensures
            r == self.spec_pl(),
    {
        if self.version == 1 {
            2
        } else {
            4
        }
    }

    /// Number of slots in each page's hash table.
    pub fn table_size_entries(&self) -> (r: u32)
        ensures
            r == self.table_size,
    {
        self.table_size
    }

    /// Number of pages in the file.
    pub fn number_of_pages(&self) -> (r: u64)
        ensures
            r == self.number_of_pages,
    {
        self.number_of_pages
    }

    /// Bytes per page.
    pub fn page_size(&self) -> (r: u32)
        requires
            self.wf(),
        ensures
            r == self.spec_page_size(),
    {
        4 + self.table_size * (self.pointer_length() as u32) + self.heap_size
    }

    /// Bytes reserved for the heap at the start of every page.
    pub fn heap_size(&self) -> (r: u32)
        ensures
            r == self.heap_size,
    {
        self.heap_size
    }

    /// The generation stamp this header carries.
    pub fn stamp(&self) -> (r: u32)
        ensures
            r == self.stamp,
    {
        self.stamp
    }

    /// The all-ones sentinel marking an unused table slot.
    pub fn unused_value(&self) -> (r: Result<u64, NCDError>)
        ensures
            r is Ok,
            r->Ok_0 == pow256(self.spec_pl() as nat) - 1,
    {
        all_set(self.pointer_length())
    }

    /// File offset of page `page_index`.
    pub fn page_offset(&self, page_index: u64) -> (r: u64)
        requires
            self.wf(),
            page_index <= self.number_of_pages,
        ensures
            r == page_index * self.spec_page_size(),
    {
        proof {
            self.lemma_page_size_pos();
            lemma_mul_le(page_index as int, self.number_of_pages as int, self.spec_page_size());
        }
        page_index * (self.page_size() as u64)
    }

    /// File offset of the hash table inside page `page_index`.
    pub fn table_offset(&self, page_index: u64) -> (r: u64)
        requires
            self.wf(),
            page_index < self.number_of_pages,
        ensures
            r == page_index * self.spec_page_size() + self.heap_size,
    {
        proof {
            self.lemma_page_size_pos();
            lemma_mul_succ(page_index as int, self.spec_page_size());
            lemma_mul_le(page_index + 1, self.number_of_pages as int, self.spec_page_size());
        }
        self.page_offset(page_index) + (self.heap_size as u64)
    }

    /// File offset of the 4-byte table stamp at the end of page `page_index`.
    pub fn stamp_offset(&self, page_index: u64) -> (r: u64)
        requires
            self.wf(),
            page_index < self.number_of_pages,
        ensures
            r == (page_index + 1) * self.spec_page_size() - 4,
    {
        proof {
            self.lemma_page_size_pos();
            lemma_mul_succ(page_index as int, self.spec_page_size());
            lemma_mul_le(1, page_index + 1, self.spec_page_size());
            lemma_mul_le(page_index + 1, self.number_of_pages as int, self.spec_page_size());
        }
        self.page_offset(page_index + 1) - 4
    }

    /// The page a hash falls into.
    pub fn hash_page_index(&self, hash: u64) -> (r: u64)
        ensures
            r == self.spec_hash_page_index(hash),
    {
        if self.table_size == 0 || self.number_of_pages == 0 {
            return 0;
        }
        (hash / self.table_size as u64) % self.number_of_pages
    }

    /// The slot a hash starts probing at.
    pub fn hash_page_slot(&self, hash: u64) -> (r: u32)
        requires
            self.table_size > 0,
        ensures
            r == self.spec_hash_page_slot(hash),
    {
        (hash % self.table_size as u64) as u32
    }

    /// The 32-bit residue compared against an external entry's stored hash.
    pub fn hash_ext(&self, hash: u64) -> (r: u32)
        ensures
            r == self.spec_hash_ext(hash),
    {
        if self.table_size == 0 || self.number_of_pages == 0 {
            return 0;
        }
        ((hash / self.table_size as u64 / self.number_of_pages) % 0x100000000) as u32
    }

    /// Total size of the structured region: all pages, no overflow area.
    pub fn structured_size(&self) -> (r: u64)
        requires
            self.wf(),
        ensures
            r == self.spec_structured_size(),
    {
        proof {
            assert(self.number_of_pages * self.spec_page_size() == self.spec_structured_size());
        }
        self.page_offset(self.number_of_pages)
    }

    /// Serialize the header into its 28 bytes.
    pub fn to_bytes(&self) -> (r: Vec<u8>)
        ensures
            r@ == self.spec_bytes(),
            r@.len() == HEADER_SIZE,
    {
        proof {
            lemma_header_bytes_len(*self);
        }
        let mut bytes = zero_vec(HEADER_SIZE);
        let mut offset: usize = 0;
        let r1 = write_u32(&mut bytes, &mut offset, MAGIC_NUMBER);
        let r2 = write_u32(&mut bytes, &mut offset, self.version);
        let r3 = write_u64(&mut bytes, &mut offset, self.number_of_pages);
        let r4 = write_u32(&mut bytes, &mut offset, self.heap_size);
        let r5 = write_u32(&mut bytes, &mut offset, self.table_size);
        let r6 = write_u32(&mut bytes, &mut offset, self.stamp);
        proof {
            assert(r1 is Ok && r2 is Ok && r3 is Ok && r4 is Ok && r5 is Ok && r6 is Ok);
            lemma_le_bytes_len(MAGIC_NUMBER as int, 4);
            lemma_le_bytes_len(self.version as int, 4);
            lemma_le_bytes_len(self.number_of_pages as int, 8);
            lemma_le_bytes_len(self.heap_size as int, 4);
            lemma_le_bytes_len(self.table_size as int, 4);
            lemma_le_bytes_len(self.stamp as int, 4);
            assert(bytes@ =~= self.spec_bytes());
        }
        bytes
    }

    /// Parse a header out of raw bytes, verifying magic, version and
    /// geometry; every violation is `CorruptNCDFile`.
    pub fn parse(bytes: &[u8]) -> (r: Result<NCDHeader, NCDError>)
        ensures
            r is Ok <==> spec_header_ok(bytes@),
            r is Ok ==> r->Ok_0 == spec_parse_header(bytes@) && r->Ok_0.wf(),
            r is Err ==> r->Err_0 is CorruptNCDFile,
    {
        let mut offset: usize = 0;
        let magic_number = match read_u32(bytes, &mut offset) {
            Ok(v) => v,
            Err(e) => { return Err(e); },
        };
        let version = match read_u32(bytes, &mut offset) {
            Ok(v) => v,
            Err(e) => { return Err(e); },
        };
        let number_of_pages = match read_u64(bytes, &mut offset) {
            Ok(v) => v,
            Err(e) => { return Err(e); },
        };
        let heap_size = match read_u32(bytes, &mut offset) {
            Ok(v) => v,
            Err(e) => { return Err(e); },
        };
        let table_size = match read_u32(bytes, &mut offset) {
            Ok(v) => v,
            Err(e) => { return Err(e); },
        };
        let stamp = match read_u32(bytes, &mut offset) {
            Ok(v) => v,
            Err(e) => { return Err(e); },
        };
        proof {
            lemma_le_value_bound(bytes@.subrange(0, 4));
            lemma_le_value_bound(bytes@.subrange(4, 8));
            lemma_le_value_bound(bytes@.subrange(8, 16));
            lemma_le_value_bound(bytes@.subrange(16, 20));
            lemma_le_value_bound(bytes@.subrange(20, 24));
            lemma_le_value_bound(bytes@.subrange(24, 28));
            reveal_with_fuel(pow256, 9);
        }
        if magic_number != MAGIC_NUMBER {
            return Err(NCDError::CorruptNCDFile("bad magic number, not an NCD file".to_owned()));
        }
        if version > 1 {
            return Err(NCDError::CorruptNCDFile("unsupported version".to_owned()));
        }
        let out = NCDHeader { version, number_of_pages, heap_size, table_size, stamp };
        let page_size_check: u64 = (table_size as u64) * (if version == 1 {
            2u64
        } else {
            4u64
        }) + (heap_size as u64) + 4;
        if page_size_check > 0xFFFFFFFF {
            return Err(NCDError::CorruptNCDFile("pages too big".to_owned()));
        }
        proof {
            assert((number_of_pages as int) * (page_size_check as int)
                < 0x100000000000000000000000000000000) by (nonlinear_arith)
                requires
                    number_of_pages <= 0xFFFFFFFFFFFFFFFFu64,
                    page_size_check <= 0xFFFFFFFFu64,
            {
            }
        }
        if (number_of_pages as u128) * (page_size_check as u128) > u64::MAX as u128 {
            return Err(NCDError::CorruptNCDFile("file too big".to_owned()));
        }
        Ok(out)
    }

    /// Read and parse the header at the start of the file behind `accessor`.
    pub fn read<A: NCDReadAccessor>(accessor: &mut A) -> (r: Result<NCDHeader, NCDError>)
        ensures
            r is Ok ==> r->Ok_0.wf(),
            r is Err ==> (r->Err_0 is CorruptNCDFile || r->Err_0 is IOError),
    {
        let vec = wrap_io_error(accessor.read(0, HEADER_SIZE as u64))?;
        NCDHeader::parse(vec.as_slice())
    }
}

/// The conditions under which bytes parse as a header: long enough, the
/// magic in place, a known version, and a geometry the format can carry.
pub open spec fn spec_header_ok(s: Seq<u8>) -> bool {
    let h = spec_parse_header(s);
    &&& s.len() >= 28
    &&& le_value(s.subrange(0, 4)) == MAGIC_NUMBER
    &&& h.version <= 1
    &&& h.spec_page_size() <= 0xFFFFFFFF
    &&& h.number_of_pages * h.spec_page_size() <= u64::MAX
}

/// The header encoded in the first 28 bytes, field by field.
pub open spec fn spec_parse_header(s: Seq<u8>) -> NCDHeader {
    NCDHeader {
        version: le_value(s.subrange(4, 8)) as u32,
        number_of_pages: le_value(s.subrange(8, 16)) as u64,
        heap_size: le_value(s.subrange(16, 20)) as u32,
        table_size: le_value(s.subrange(20, 24)) as u32,
        stamp: le_value(s.subrange(24, 28)) as u32,
    }
}

pub proof fn lemma_header_bytes_len(h: NCDHeader)
    ensures
        h.spec_bytes().len() == 28,
{
    lemma_le_bytes_len(MAGIC_NUMBER as int, 4);
    lemma_le_bytes_len(h.version as int, 4);
    lemma_le_bytes_len(h.number_of_pages as int, 8);
    lemma_le_bytes_len(h.heap_size as int, 4);
    lemma_le_bytes_len(h.table_size as int, 4);
    lemma_le_bytes_len(h.stamp as int, 4);
}

/// The first four bytes of any serialized header are `FE C0 00 4E`: the
/// little-endian magic.
pub proof fn lemma_header_magic(h: NCDHeader)
    ensures
        h.spec_bytes().len() == 28,
        h.spec_bytes()[0] == 0xfe,
        h.spec_bytes()[1] == 0xc0,
        h.spec_bytes()[2] == 0x00,
        h.spec_bytes()[3] == 0x4e,
{
    lemma_header_bytes_len(h);
    reveal_with_fuel(le_bytes, 5);
    assert(le_bytes(MAGIC_NUMBER as int, 4) =~= seq![0xfeu8, 0xc0u8, 0x00u8, 0x4eu8]);
    assert(h.spec_bytes()[0] == le_bytes(MAGIC_NUMBER as int, 4)[0]);
    assert(h.spec_bytes()[1] == le_bytes(MAGIC_NUMBER as int, 4)[1]);
    assert(h.spec_bytes()[2] == le_bytes(MAGIC_NUMBER as int, 4)[2]);
    assert(h.spec_bytes()[3] == le_bytes(MAGIC_NUMBER as int, 4)[3]);
}

/// Serializing a well-formed header and parsing the bytes back yields the
/// header again, and the bytes pass every parse-time check.
pub proof fn lemma_header_round_trip(h: NCDHeader)
    requires
        h.wf(),
    ensures
        spec_header_ok(h.spec_bytes()),
        spec_parse_header(h.spec_bytes()) == h,
{
    let s = h.spec_bytes();
    lemma_header_bytes_len(h);
    lemma_le_bytes_len(MAGIC_NUMBER as int, 4);
    lemma_le_bytes_len(h.version as int, 4);
    lemma_le_bytes_len(h.number_of_pages as int, 8);
    lemma_le_bytes_len(h.heap_size as int, 4);
    lemma_le_bytes_len(h.table_size as int, 4);
    lemma_le_bytes_len(h.stamp as int, 4);
    reveal_with_fuel(pow256, 9);
    assert(s.subrange(0, 4) =~= le_bytes(MAGIC_NUMBER as int, 4));
    assert(s.subrange(4, 8) =~= le_bytes(h.version as int, 4));
    assert(s.subrange(8, 16) =~= le_bytes(h.number_of_pages as int, 8));
    assert(s.subrange(16, 20) =~= le_bytes(h.heap_size as int, 4));
    assert(s.subrange(20, 24) =~= le_bytes(h.table_size as int, 4));
    assert(s.subrange(24, 28) =~= le_bytes(h.stamp as int, 4));
    lemma_le_round_trip(MAGIC_NUMBER as int, 4);
    lemma_le_round_trip(h.version as int, 4);
    lemma_le_round_trip(h.number_of_pages as int, 8);
    lemma_le_round_trip(h.heap_size as int, 4);
    lemma_le_round_trip(h.table_size as int, 4);
    lemma_le_round_trip(h.stamp as int, 4);
}

} // verus!
