//! The reader: fetch one page for a key's hash, probe its open-addressed
//! table, parse entry records out of the page heap, and resolve external
//! entries from the overflow region.

use vstd::prelude::*;
use vstd::slice::slice_to_vec;

use crate::bitbash::{
    bounds_check, bytes_equal, compute_hash, hash_of, l2_len, l2_ok, l2_val, le_value,
    lesqlite2_read, pow256, read_bytes, read_u32, read_uvar,
};
use crate::header::{lemma_mul_le, lemma_mul_succ, NCDHeader};
use crate::util::{wrap_io_error, NCDError};

verus! {

/// How many times `get` re-reads the header after a stamp mismatch before
/// giving up; each retry corresponds to the file being replaced underneath
/// the reader once more.
pub const STAMP_RETRY_LIMIT: usize = 16;

/// A random-access source of file bytes. `read(offset, length)` should
/// return the `length` bytes starting at `offset`; implementations over
/// short files may return fewer. The reader is verified to cope with
/// whatever bytes come back, so nothing is assumed of implementations.
pub trait NCDReadAccessor {
    fn read(&mut self, offset: u64, length: u64) -> Result<Vec<u8>, std::io::Error>;
}

/// An accessor over an in-memory file image; reads past the end are
/// truncated, as a file read would be.
pub struct VecNCDReadAccessor {
    pub data: Vec<u8>,
}

impl VecNCDReadAccessor {
    /// Wrap an in-memory file image.
    pub fn new(data: Vec<u8>) -> (r: VecNCDReadAccessor)
        ensures
            r.data == data,
    {
        VecNCDReadAccessor { data }
    }
}

impl NCDReadAccessor for VecNCDReadAccessor {
    fn read(&mut self, offset: u64, length: u64) -> Result<Vec<u8>, std::io::Error> {
        let len: u64 = self.data.len() as u64;
        let start: u64 = if offset < len {
            offset
        } else {
            len
        };
        let end: u64 = if length > len - start {
            len
        } else {
            start + length
        };
        let mut out: Vec<u8> = Vec::new();
        let mut i: usize = start as usize;
        let stop: usize = end as usize;
        while i < stop
            invariant
                i <= stop <= self.data.len(),
        decreases stop - i,
        {
            out.push(self.data[i]);
            i = i + 1;
        }
        Ok(out)
    }
}

/// One probed table slot, as the reader sees it: a whole key/value record
/// in the page heap, a pointer into the overflow region, or an unused slot.
#[derive(Debug, PartialEq, Eq)]
pub enum NCDLookupResult {
    Internal(Vec<u8>, Vec<u8>),
    External(u64, u64, u32),
    Empty,
}

/// What a probed slot means for the running lookup: the value is found,
/// the slot is foreign and probing continues, or probing is over.
#[derive(Debug, PartialEq, Eq)]
pub enum NCDLookupEntry {
    Value(Vec<u8>),
    Skip,
    Finish,
}

/// The mathematical shadow of `NCDLookupResult`, over sequences and
/// unbounded integers.
pub enum NCDEntrySpec {
    Internal(Seq<u8>, Seq<u8>),
    External(int, int, int),
    Empty,
}

/// The mathematical value of a lookup result.
pub open spec fn abs_entry(r: NCDLookupResult) -> NCDEntrySpec {
    match r {
        NCDLookupResult::Internal(k, v) => NCDEntrySpec::Internal(k@, v@),
        NCDLookupResult::External(o, l, h) => NCDEntrySpec::External(o as int, l as int, h as int),
        NCDLookupResult::Empty => NCDEntrySpec::Empty,
    }
}

/// The entry record encoded at `off` in `heap`, if a whole one is there:
/// either an internal record (key length plus one, key bytes, value
/// length, value bytes) or an external pointer record (a zero length tag,
/// overflow offset, overflow length, 32-bit hash residue).
pub open spec fn parse_entry_spec(heap: Seq<u8>, off: int) -> Option<NCDEntrySpec> {
    if !l2_ok(heap, off) {
        None
    } else {
        let klen1 = l2_val(heap, off);
        let p1 = off + l2_len(heap, off);
        if klen1 == 0 {
            if !l2_ok(heap, p1) {
                None
            } else {
                let eo = l2_val(heap, p1);
                let p2 = p1 + l2_len(heap, p1);
                if !l2_ok(heap, p2) {
                    None
                } else {
                    let el = l2_val(heap, p2);
                    let p3 = p2 + l2_len(heap, p2);
                    if p3 + 4 <= heap.len() {
                        Some(
                            NCDEntrySpec::External(eo, el, le_value(heap.subrange(p3, p3 + 4))),
                        )
                    } else {
                        None
                    }
                }
            }
        } else {
            let klen = klen1 - 1;
            let p2 = p1 + klen;
            if p2 <= heap.len() && l2_ok(heap, p2) {
                let vlen = l2_val(heap, p2);
                let p3 = p2 + l2_len(heap, p2);
                if p3 + vlen <= heap.len() {
                    Some(
                        NCDEntrySpec::Internal(
                            heap.subrange(p1, p2),
                            heap.subrange(p3, p3 + vlen),
                        ),
                    )
                } else {
                    None
                }
            } else {
                None
            }
        }
    }
}

/// Parse the entry record at `offset` in a page heap (or in an overflow
/// read). Succeeds exactly when a whole record is there, and returns
/// exactly the record the bytes encode.
pub fn parse_entry(heap: &[u8], offset: usize) -> (r: Result<NCDLookupResult, NCDError>)
    ensures
        r is Ok <==> parse_entry_spec(heap@, offset as int) is Some,
        r is Ok ==> abs_entry(r->Ok_0) == parse_entry_spec(heap@, offset as int)->0,
        r is Err ==> r->Err_0 is CorruptNCDFile,
{
    let mut off: usize = offset;
    let key_len: u64 = match lesqlite2_read(heap, &mut off) {
        Ok(v) => v,
        Err(e) => { return Err(e); },
    };
    if key_len == 0 {
        let ext_offset: u64 = match lesqlite2_read(heap, &mut off) {
            Ok(v) => v,
            Err(e) => { return Err(e); },
        };
        let ext_length: u64 = match lesqlite2_read(heap, &mut off) {
            Ok(v) => v,
            Err(e) => { return Err(e); },
        };
        match bounds_check(heap, off, 4) {
            Ok(()) => {},
            Err(e) => { return Err(e); },
        }
        let hash: u32 = match read_u32(heap, &mut off) {
            Ok(v) => v,
            Err(e) => { return Err(e); },
        };
        Ok(NCDLookupResult::External(ext_offset, ext_length, hash))
    } else {
        let klen64: u64 = key_len - 1;
        if klen64 > heap.len() as u64 {
            return Err(NCDError::CorruptNCDFile("bad heap reference".to_owned()));
        }
        let klen: usize = klen64 as usize;
        match bounds_check(heap, off, klen) {
            Ok(()) => {},
            Err(e) => { return Err(e); },
        }
        let key: Vec<u8> = match read_bytes(heap, &mut off, klen) {
            Ok(s) => slice_to_vec(s),
            Err(e) => { return Err(e); },
        };
        let vlen64: u64 = match lesqlite2_read(heap, &mut off) {
            Ok(v) => v,
            Err(e) => { return Err(e); },
        };
        if vlen64 > heap.len() as u64 {
            return Err(NCDError::CorruptNCDFile("bad heap reference".to_owned()));
        }
        let vlen: usize = vlen64 as usize;
        match bounds_check(heap, off, vlen) {
            Ok(()) => {},
            Err(e) => { return Err(e); },
        }
        let value: Vec<u8> = match read_bytes(heap, &mut off, vlen) {
            Ok(s) => slice_to_vec(s),
            Err(e) => { return Err(e); },
        };
        Ok(NCDLookupResult::Internal(key, value))
    }
}

/// Round trip of one entry: an internal record serialized anywhere into
/// a heap parses back to exactly its key and value.
pub proof fn lemma_internal_record_round_trip(
    key: Seq<u8>,
    value: Seq<u8>,
    heap: Seq<u8>,
    off: int,
)
    requires
        0 <= off,
        key.len() + 1 < crate::bitbash::pow256(8),
        value.len() < crate::bitbash::pow256(8),
        off + crate::write::internal_record_enc(key, value).len() <= heap.len(),
        heap.subrange(off, off + crate::write::internal_record_enc(key, value).len())
            == crate::write::internal_record_enc(key, value),
    ensures
        parse_entry_spec(heap, off) == Some(NCDEntrySpec::Internal(key, value)),
{
    let e1 = crate::bitbash::lesqlite2_enc(key.len() + 1 as int);
    let e2 = crate::bitbash::lesqlite2_enc(value.len() as int);
    let rec = crate::write::internal_record_enc(key, value);
    reveal_with_fuel(crate::bitbash::pow256, 9);
    crate::bitbash::lemma_lesqlite2_enc_len(key.len() + 1 as int);
    crate::bitbash::lemma_lesqlite2_enc_len(value.len() as int);
    crate::bitbash::lemma_lesqlite2_round_trip((key.len() + 1) as u64);
    crate::bitbash::lemma_lesqlite2_round_trip(value.len() as u64);
    assert(rec.len() == e1.len() + key.len() + e2.len() + value.len());
    assert(forall|i: int| 0 <= i < rec.len() ==> heap[off + i] == #[trigger] rec[i]) by {
        assert(forall|i: int|
            0 <= i < rec.len() ==> heap.subrange(off, off + rec.len())[i] == #[trigger] rec[i]);
    }
    let p1 = off + e1.len();
    let p2 = p1 + key.len();
    let p3 = p2 + e2.len();
    assert(heap.subrange(off, p1) =~= e1);
    assert(heap[off] == e1[0]);
    assert(l2_ok(heap, off) && l2_len(heap, off) == e1.len() && l2_val(heap, off) == key.len()
        + 1);
    assert forall|i: int| 0 <= i < key.len() implies heap.subrange(p1, p2)[i] == key[i] by {
        assert(heap[off + (e1.len() + i)] == rec[e1.len() + i]);
        assert(rec[e1.len() + i] == key[i]);
    }
    assert(heap.subrange(p1, p2) =~= key);
    assert forall|i: int| 0 <= i < e2.len() implies heap.subrange(p2, p3)[i] == e2[i] by {
        assert(heap[off + (e1.len() + key.len() + i)] == rec[e1.len() + key.len() + i]);
        assert(rec[e1.len() + key.len() + i] == e2[i]);
    }
    assert(heap.subrange(p2, p3) =~= e2);
    assert(heap[p2] == e2[0]);
    assert(l2_ok(heap, p2) && l2_len(heap, p2) == e2.len() && l2_val(heap, p2) == value.len());
    assert forall|i: int|
        0 <= i < value.len() implies heap.subrange(p3, p3 + value.len())[i] == value[i] by {
        assert(heap[off + (e1.len() + key.len() + e2.len() + i)] == rec[e1.len() + key.len()
            + e2.len() + i]);
        assert(rec[e1.len() + key.len() + e2.len() + i] == value[i]);
    }
    assert(heap.subrange(p3, p3 + value.len()) =~= value);
}

/// Round trip of an external pointer record: serialized anywhere into a
/// heap it parses back to exactly its offset, length and hash residue.
pub proof fn lemma_external_record_round_trip(eo: u64, el: u64, eh: u32, heap: Seq<u8>, off: int)
    requires
        0 <= off,
        off + crate::write::ext_record_enc(eo as int, el as int, eh as int).len() <= heap.len(),
        heap.subrange(off, off + crate::write::ext_record_enc(eo as int, el as int, eh as int).len())
            == crate::write::ext_record_enc(eo as int, el as int, eh as int),
    ensures
        parse_entry_spec(heap, off) == Some(NCDEntrySpec::External(eo as int, el as int, eh as int)),
{
    let e1 = crate::bitbash::lesqlite2_enc(eo as int);
    let e2 = crate::bitbash::lesqlite2_enc(el as int);
    let e3 = crate::bitbash::le_bytes(eh as int, 4);
    let rec = crate::write::ext_record_enc(eo as int, el as int, eh as int);
    reveal_with_fuel(crate::bitbash::pow256, 9);
    crate::bitbash::lemma_lesqlite2_enc_len(eo as int);
    crate::bitbash::lemma_lesqlite2_enc_len(el as int);
    crate::bitbash::lemma_lesqlite2_round_trip(eo);
    crate::bitbash::lemma_lesqlite2_round_trip(el);
    crate::bitbash::lemma_le_bytes_len(eh as int, 4);
    crate::bitbash::lemma_le_round_trip(eh as int, 4);
    assert(rec.len() == 1 + e1.len() + e2.len() + 4);
    assert(forall|i: int| 0 <= i < rec.len() ==> heap[off + i] == #[trigger] rec[i]) by {
        assert(forall|i: int|
            0 <= i < rec.len() ==> heap.subrange(off, off + rec.len())[i] == #[trigger] rec[i]);
    }
    assert(rec[0] == 0u8);
    assert(heap[off] == 0);
    assert(l2_ok(heap, off) && l2_len(heap, off) == 1 && l2_val(heap, off) == 0) by {
        assert(heap.subrange(off, off + 1) =~= seq![0u8]);
    }
    let p1 = off + 1;
    let p2 = p1 + e1.len();
    let p3 = p2 + e2.len();
    assert forall|i: int| 0 <= i < e1.len() implies heap.subrange(p1, p2)[i] == e1[i] by {
        assert(heap[off + (1 + i)] == rec[1 + i]);
        assert(rec[1 + i] == e1[i]);
    }
    assert(heap.subrange(p1, p2) =~= e1);
    assert(heap[p1] == e1[0]);
    assert(l2_ok(heap, p1) && l2_len(heap, p1) == e1.len() && l2_val(heap, p1) == eo);
    assert forall|i: int| 0 <= i < e2.len() implies heap.subrange(p2, p3)[i] == e2[i] by {
        assert(heap[off + (1 + e1.len() + i)] == rec[1 + e1.len() + i]);
        assert(rec[1 + e1.len() + i] == e2[i]);
    }
    assert(heap.subrange(p2, p3) =~= e2);
    assert(heap[p2] == e2[0]);
    assert(l2_ok(heap, p2) && l2_len(heap, p2) == e2.len() && l2_val(heap, p2) == el);
    assert forall|i: int| 0 <= i < 4 implies heap.subrange(p3, p3 + 4)[i] == e3[i] by {
        assert(heap[off + (1 + e1.len() + e2.len() + i)] == rec[1 + e1.len() + e2.len() + i]);
        assert(rec[1 + e1.len() + e2.len() + i] == e3[i]);
    }
    assert(heap.subrange(p3, p3 + 4) =~= e3);
}

/// Round trip of one write: after a pair's record is stored at offset
/// `thr` of page `q`'s heap in a file image, parsing that page's heap at
/// `thr` yields the pair again.
pub proof fn lemma_added_record_parses(
    key: Seq<u8>,
    value: Seq<u8>,
    img: Seq<u8>,
    h: NCDHeader,
    q: int,
    thr: int,
)
    requires
        h.wf(),
        0 <= q < h.number_of_pages,
        0 <= thr,
        key.len() + 1 < crate::bitbash::pow256(8),
        value.len() < crate::bitbash::pow256(8),
        thr + crate::write::internal_record_enc(key, value).len() <= h.heap_size,
        h.spec_structured_size() <= img.len(),
        img.subrange(
            q * h.spec_page_size() + thr,
            q * h.spec_page_size() + thr + crate::write::internal_record_enc(key, value).len(),
        ) == crate::write::internal_record_enc(key, value),
    ensures
        parse_entry_spec(
            img.subrange(q * h.spec_page_size(), q * h.spec_page_size() + h.heap_size),
            thr,
        ) == Some(NCDEntrySpec::Internal(key, value)),
{
    let ps = h.spec_page_size();
    let rec = crate::write::internal_record_enc(key, value);
    h.lemma_page_size_pos();
    lemma_mul_le(0, q, ps);
    lemma_mul_succ(q, ps);
    lemma_mul_le(q + 1, h.number_of_pages as int, ps);
    let heap = img.subrange(q * ps, q * ps + h.heap_size);
    assert(heap.subrange(thr, thr + rec.len()) =~= img.subrange(
        q * ps + thr,
        q * ps + thr + rec.len(),
    ));
    lemma_internal_record_round_trip(key, value, heap, thr);
}

/// What probing a page decides without touching the overflow region:
/// the value of the matching internal record, a definite miss, a slot
/// that fails to parse, or an external record whose stored hash matches
/// (only the overflow bytes can settle that one).
pub enum NCDProbeOutcome {
    Found(Seq<u8>),
    NotFound,
    Failed,
    Undecided,
}

/// Walk the probe sequence from `slot` for at most `steps` slots, as
/// the scan does: stop with the value at an internal record whose key
/// matches, with a miss at the first unused slot or after a whole wrap,
/// with a failure at a slot that does not parse, and undecided at an
/// external record whose hash residue matches the key's.
pub open spec fn spec_probe_from(
    heap: Seq<u8>,
    table: Seq<Option<u64>>,
    h: NCDHeader,
    key: Seq<u8>,
    khash: u64,
    slot: int,
    steps: int,
) -> NCDProbeOutcome
    decreases steps,
{
    if steps <= 0 {
        NCDProbeOutcome::NotFound
    } else if !(0 <= slot < table.len()) {
        NCDProbeOutcome::Failed
    } else {
        match table[slot] {
            None => NCDProbeOutcome::NotFound,
            Some(off) => match parse_entry_spec(heap, off as int) {
                None => NCDProbeOutcome::Failed,
                Some(e) => match e {
                    NCDEntrySpec::Internal(k, v) => if k == key {
                        NCDProbeOutcome::Found(v)
                    } else {
                        spec_probe_from(
                            heap,
                            table,
                            h,
                            key,
                            khash,
                            crate::write::next_slot(slot, table.len() as int),
                            steps - 1,
                        )
                    },
                    NCDEntrySpec::External(o, l, eh) => if eh != h.spec_hash_ext(khash) {
                        spec_probe_from(
                            heap,
                            table,
                            h,
                            key,
                            khash,
                            crate::write::next_slot(slot, table.len() as int),
                            steps - 1,
                        )
                    } else {
                        NCDProbeOutcome::Undecided
                    },
                    NCDEntrySpec::Empty => NCDProbeOutcome::Failed,
                },
            },
        }
    }
}

/// Round trip of one insertion: after a pair whose record stays internal
/// is added to a page whose table slots were all still unused, probing
/// that page of the resulting image (its heap and its parsed table, as
/// the page reader assembles them) finds exactly the pair's value.
pub proof fn lemma_added_pair_is_found(
    pre: crate::write::NCDWriteAttempt,
    post: crate::write::NCDWriteAttempt,
    key: Seq<u8>,
    value: Seq<u8>,
)
    requires
        pre.wf(),
        pre.good(),
        post.header == pre.header,
        crate::write::spec_add_ok(pre, key, value),
        crate::write::spec_add_effect(pre, post, key, value),
        crate::write::internal_record_enc(key, value).len() <= pre.threshold,
        key.len() + 1 < crate::bitbash::pow256(8),
        value.len() < crate::bitbash::pow256(8),
        pre.header.heap_size < crate::bitbash::pow256(pre.header.spec_pl() as nat) - 1,
        post.image@.len() >= pre.header.spec_structured_size(),
        forall|j: int|
            0 <= j < pre.header.table_size ==> crate::write::slot_unused(
                pre.header,
                pre.image@,
                pre.header.spec_hash_page_index(hash_of(key)),
                j,
            ),
    ensures
        ({
            let h = pre.header;
            let ps = h.spec_page_size();
            let q = h.spec_hash_page_index(hash_of(key));
            let page_bytes = post.image@.subrange(q * ps, q * ps + ps);
            let heap = page_bytes.subrange(0, h.heap_size as int);
            let table = Seq::new(
                h.table_size as nat,
                |k: int| spec_slot(h, page_bytes, k),
            );
            spec_probe_from(
                heap,
                table,
                h,
                key,
                hash_of(key),
                h.spec_hash_page_slot(hash_of(key)),
                h.table_size as int,
            ) == NCDProbeOutcome::Found(value)
        }),
{
    let h = pre.header;
    let ps = h.spec_page_size();
    let q = h.spec_hash_page_index(hash_of(key));
    let hash = hash_of(key);
    let slot0 = h.spec_hash_page_slot(hash);
    let thr = pre.aux@[q] as int;
    let rec = crate::write::internal_record_enc(key, value);
    let page_bytes = post.image@.subrange(q * ps, q * ps + ps);
    let heap = page_bytes.subrange(0, h.heap_size as int);
    let table = Seq::new(h.table_size as nat, |k: int| spec_slot(h, page_bytes, k));
    h.lemma_page_size_pos();
    lemma_mul_le(0, q, ps);
    lemma_mul_succ(q, ps);
    lemma_mul_le(q + 1, h.number_of_pages as int, ps);
    crate::bitbash::lemma_pow256_pos(h.spec_pl() as nat);
    // the first probed slot was unused, so the add used exactly it
    assert(crate::write::first_unused_from(h, pre.image@, q, slot0, h.table_size as int)
        == slot0);
    // the page's parsed table is the image's slots
    assert forall|k: int| 0 <= k < h.table_size implies table[k] == ({
        let v = crate::write::spec_table_slot(h, post.image@, q, k);
        if v == crate::bitbash::pow256(h.spec_pl() as nat) - 1 {
            None
        } else {
            Some(v as u64)
        }
    }) by {
        lemma_mul_succ(k, h.spec_pl());
        lemma_mul_le(0, k, h.spec_pl());
        lemma_mul_le(k + 1, h.table_size as int, h.spec_pl());
        let lo = h.heap_size + k * h.spec_pl();
        assert(page_bytes.subrange(lo, lo + h.spec_pl()) =~= post.image@.subrange(
            q * ps + lo,
            q * ps + lo + h.spec_pl(),
        ));
        crate::bitbash::lemma_le_value_bound(post.image@.subrange(
            q * ps + lo,
            q * ps + lo + h.spec_pl(),
        ));
        crate::bitbash::lemma_pow256_increases(h.spec_pl() as nat, 8nat);
        reveal_with_fuel(crate::bitbash::pow256, 9);
    }
    // the written slot holds the record's offset; the rest stayed unused
    assert(thr % crate::bitbash::pow256(h.spec_pl() as nat) == thr) by (nonlinear_arith)
        requires
            0 <= thr < crate::bitbash::pow256(h.spec_pl() as nat),
    {
    }
    assert(crate::write::spec_table_slot(h, post.image@, q, slot0) == thr);
    assert(table[slot0] == Some(thr as u64));
    assert forall|j: int| 0 <= j < h.table_size && j != slot0 implies table[j] is None by {
        assert(crate::write::slot_unused(h, pre.image@, q, j));
    }
    // the record parses back out of the page heap
    assert(heap =~= post.image@.subrange(q * ps, q * ps + h.heap_size));
    assert(heap.subrange(thr, thr + rec.len()) =~= post.image@.subrange(
        q * ps + thr,
        q * ps + thr + rec.len(),
    ));
    lemma_internal_record_round_trip(key, value, heap, thr);
    // one probe step finds it
    assert(spec_probe_from(heap, table, h, key, hash, slot0, h.table_size as int)
        == NCDProbeOutcome::Found(value));
}

/// One page, split into its bump-allocated heap and its parsed table of
/// slot pointers (`None` for the unused sentinel).
pub struct NCDPage {
    pub heap: Vec<u8>,
    pub table: Vec<Option<u64>>,
}

/// The slot value encoded at table position `k` of a raw page: `None` for
/// the all-ones sentinel, the heap offset otherwise.
pub open spec fn spec_slot(h: NCDHeader, bytes: Seq<u8>, k: int) -> Option<u64> {
    let pl = h.spec_pl();
    let v = le_value(bytes.subrange(h.heap_size + k * pl, h.heap_size + k * pl + pl));
    if v == pow256(pl as nat) - 1 {
        None
    } else {
        Some(v as u64)
    }
}

/// The stamp stored in the trailing 4 bytes of a raw page.
pub open spec fn spec_page_stamp(h: NCDHeader, bytes: Seq<u8>) -> int {
    le_value(bytes.subrange(h.spec_page_size() - 4, h.spec_page_size()))
}

impl NCDPage {
    /// Split raw page bytes into heap and table, verifying the page's
    /// trailing stamp against the header's.
    pub fn from_bytes(header: &NCDHeader, bytes: &[u8]) -> (r: Result<NCDPage, NCDError>)
        requires
            header.wf(),
            header.table_size > 0,
        ensures
            r is Ok <==> (header.spec_page_size() <= bytes@.len() && spec_page_stamp(
                *header,
                bytes@,
            ) == header.stamp),
            r is Ok ==> ({
                let p = r->Ok_0;
                &&& p.heap@ == bytes@.subrange(0, header.heap_size as int)
                &&& p.table@.len() == header.table_size
                &&& forall|k: int|
                    0 <= k < header.table_size ==> p.table@[k] == spec_slot(*header, bytes@, k)
            }),
            r is Err ==> (r->Err_0 is CorruptNCDFile || r->Err_0 is WrongStamp),
            (header.spec_page_size() <= bytes@.len() && spec_page_stamp(*header, bytes@)
                != header.stamp) ==> r is Err && r->Err_0 is WrongStamp,
    {
        proof {
            header.lemma_page_size_pos();
            lemma_mul_le(1, header.table_size as int, header.spec_pl());
        }
        let ps: u32 = header.page_size();
        let pl: usize = header.pointer_length();
        let t: u32 = header.table_size_entries();
        let unused: u64 = match header.unused_value() {
            Ok(v) => v,
            Err(e) => { return Err(e); },
        };
        let mut table: Vec<Option<u64>> = Vec::new();
        let mut offset: usize = header.heap_size() as usize;
        let mut k: u32 = 0;
        while k < t
            invariant
                k <= t,
                t == header.table_size,
                pl == header.spec_pl(),
                header.wf(),
                unused == pow256(header.spec_pl() as nat) - 1,
                offset == header.heap_size + k * header.spec_pl(),
                offset + (t - k) * header.spec_pl() + 4 <= header.spec_page_size(),
                table@.len() == k,
                forall|j: int| 0 <= j < k ==> table@[j] == spec_slot(*header, bytes@, j),
            decreases t - k,
        {
            proof {
                lemma_mul_succ(k as int, header.spec_pl());
                lemma_mul_succ((t - k - 1) as int, header.spec_pl());
            }
            let value: u64 = match read_uvar(bytes, &mut offset, pl) {
                Ok(v) => v,
                Err(e) => { return Err(e); },
            };
            let entry: Option<u64> = if value == unused {
                None
            } else {
                Some(value)
            };
            table.push(entry);
            k = k + 1;
        }
        let mut soff: usize = (ps - 4) as usize;
        let stamp: u32 = match read_u32(bytes, &mut soff) {
            Ok(v) => v,
            Err(e) => { return Err(e); },
        };
        if stamp != header.stamp() {
            return Err(NCDError::WrongStamp);
        }
        let heap_slice: &[u8] = match read_bytes(bytes, &mut { 0usize }, header.heap_size() as usize) {
            Ok(s) => s,
            Err(e) => { return Err(e); },
        };
        Ok(NCDPage { heap: slice_to_vec(heap_slice), table })
    }

    /// Read page `index` through the accessor and split it. With no table
    /// slots there is nothing to read and the empty page comes back.
    pub fn read<A: NCDReadAccessor>(accessor: &mut A, header: &NCDHeader, index: u64) -> (r: Result<
        NCDPage,
        NCDError,
    >)
        requires
            header.wf(),
            index <= header.number_of_pages,
        ensures
            r is Ok ==> r->Ok_0.table@.len() == header.table_size,
            header.table_size == 0 ==> r is Ok,
            r is Err ==> (r->Err_0 is CorruptNCDFile || r->Err_0 is WrongStamp || r->Err_0
                is IOError),
    {
        if header.table_size_entries() == 0 {
            return Ok(NCDPage { heap: Vec::new(), table: Vec::new() });
        }
        let offset: u64 = header.page_offset(index);
        let vec = wrap_io_error(accessor.read(offset, header.page_size() as u64))?;
        NCDPage::from_bytes(header, vec.as_slice())
    }

    /// Fetch and parse the entry behind table slot `index`.
    pub fn lookup(&self, index: u32) -> (r: Result<NCDLookupResult, NCDError>)
        ensures
            index < self.table@.len() && self.table@[index as int] is None ==> r is Ok && r->Ok_0
                is Empty,
            index < self.table@.len() && self.table@[index as int] is Some ==> ({
                let off = self.table@[index as int]->0;
                &&& (r is Ok <==> parse_entry_spec(self.heap@, off as int) is Some)
                &&& (r is Ok ==> abs_entry(r->Ok_0) == parse_entry_spec(self.heap@, off as int)->0)
            }),
            index >= self.table@.len() ==> r is Err,
            r is Err ==> r->Err_0 is CorruptNCDFile,
    {
        if index as usize >= self.table.len() {
            return Err(NCDError::CorruptNCDFile("bad index".to_owned()));
        }
        let offset: Option<u64> = self.table[index as usize];
        match offset {
            None => Ok(NCDLookupResult::Empty),
            Some(off) => {
                if off > self.heap.len() as u64 {
                    return Err(NCDError::CorruptNCDFile("bad heap reference".to_owned()));
                }
                parse_entry(self.heap.as_slice(), off as usize)
            },
        }
    }

    /// Probe the table from the hash's starting slot, wrapping once around
    /// at most: stop with the value on a key match, with nothing at the
    /// first unused slot or after a whole wrap.
    pub fn scan<A: NCDReadAccessor>(
        &self,
        reader: &mut NCDFileReader<A>,
        key: &[u8],
        hash: u64,
    ) -> (r: Result<Option<Vec<u8>>, NCDError>)
        requires
            old(reader).wf(),
            self.table@.len() == old(reader).header.table_size,
            hash == hash_of(key@),
        ensures
            final(reader).wf(),
            final(reader).header == old(reader).header,
            old(reader).header.table_size == 0 ==> r is Ok && r->Ok_0 is None,
            old(reader).header.table_size > 0 ==> ({
                let oc = spec_probe_from(
                    self.heap@,
                    self.table@,
                    old(reader).header,
                    key@,
                    hash,
                    old(reader).header.spec_hash_page_slot(hash),
                    old(reader).header.table_size as int,
                );
                &&& (oc matches NCDProbeOutcome::Found(v) ==> r is Ok && r->Ok_0 is Some
                    && r->Ok_0->0@ == v)
                &&& (oc is NotFound ==> r is Ok && r->Ok_0 is None)
                &&& (oc is Failed ==> r is Err && r->Err_0 is CorruptNCDFile)
            }),
            r is Err ==> (r->Err_0 is CorruptNCDFile || r->Err_0 is IOError),
    {
        let t: u32 = reader.header.table_size_entries();
        if t == 0 {
            return Ok(None);
        }
        let first: u32 = reader.header.hash_page_slot(hash);
        let ghost h = old(reader).header;
        let ghost oc = spec_probe_from(
            self.heap@,
            self.table@,
            h,
            key@,
            hash,
            first as int,
            t as int,
        );
        let mut slot: u32 = first;
        let mut step: u32 = 0;
        while step < t
            invariant
                step <= t,
                slot < t,
                t == old(reader).header.table_size,
                self.table@.len() == t,
                reader.wf(),
                reader.header == old(reader).header,
                h == old(reader).header,
                first == old(reader).header.spec_hash_page_slot(hash),
                hash == hash_of(key@),
                oc == spec_probe_from(self.heap@, self.table@, h, key@, hash, first as int, t as int),
                oc is Undecided || oc == spec_probe_from(
                    self.heap@,
                    self.table@,
                    h,
                    key@,
                    hash,
                    slot as int,
                    t - step,
                ),
            decreases t - step,
        {
            let ghost cur = spec_probe_from(self.heap@, self.table@, h, key@, hash, slot as int, t - step);
            let result = match self.lookup(slot) {
                Ok(v) => v,
                Err(e) => {
                    proof {
                        assert(cur is Failed);
                    }
                    return Err(e);
                },
            };
            let ghost rentry = abs_entry(result);
            let entry = match result.resolve(reader, key) {
                Ok(v) => v,
                Err(e) => {
                    proof {
                        assert(result is External);
                        assert(self.table@[slot as int] is Some);
                        assert(rentry matches NCDEntrySpec::External(o, l, eh) && eh
                            == h.spec_hash_ext(hash));
                        assert(cur is Undecided);
                    }
                    return Err(e);
                },
            };
            proof {
                match rentry {
                    NCDEntrySpec::Internal(k, v) => {
                        if k == key@ {
                            assert(cur matches NCDProbeOutcome::Found(fv) && fv == v);
                        } else {
                            assert(entry is Skip);
                        }
                    },
                    NCDEntrySpec::External(o, l, eh) => {
                        if eh == h.spec_hash_ext(hash) {
                            assert(cur is Undecided);
                        }
                    },
                    NCDEntrySpec::Empty => {
                        assert(cur is NotFound);
                    },
                }
            }
            match entry {
                NCDLookupEntry::Value(value) => { return Ok(Some(value)); },
                NCDLookupEntry::Finish => { return Ok(None); },
                NCDLookupEntry::Skip => {},
            }
            step = step + 1;
            slot = if slot + 1 == t {
                0
            } else {
                slot + 1
            };
        }
        Ok(None)
    }
}

/// Decide what bytes fetched from the overflow region mean for `key`:
/// they must parse as a whole internal record; its value is returned on
/// a key match and skipped otherwise; anything else (no whole record, or
/// a recursive external record) is corruption.
pub fn resolve_external(key: &[u8], bytes: &[u8]) -> (r: Result<NCDLookupEntry, NCDError>)
    ensures
        parse_entry_spec(bytes@, 0) is None ==> r is Err,
        (parse_entry_spec(bytes@, 0) matches Some(NCDEntrySpec::Internal(k, v)) ==> (if k
            == key@ {
            r is Ok && r->Ok_0 is Value && r->Ok_0->Value_0@ == v
        } else {
            r is Ok && r->Ok_0 is Skip
        })),
        (parse_entry_spec(bytes@, 0) matches Some(NCDEntrySpec::External(o, l, eh)) ==> r
            is Err),
        r is Err ==> r->Err_0 is CorruptNCDFile,
{
    let entry = match parse_entry(bytes, 0) {
        Ok(e) => e,
        Err(e) => { return Err(e); },
    };
    match entry {
        NCDLookupResult::Internal(k, v) => {
            if bytes_equal(k.as_slice(), key) {
                Ok(NCDLookupEntry::Value(v))
            } else {
                Ok(NCDLookupEntry::Skip)
            }
        },
        NCDLookupResult::Empty => {
            proof {
                assert(false);
            }
            Err(NCDError::CorruptNCDFile("recursive external reference".to_owned()))
        },
        NCDLookupResult::External(_, _, _) => Err(
            NCDError::CorruptNCDFile("recursive external reference".to_owned()),
        ),
    }
}

impl NCDLookupResult {
    /// Decide what a probed slot means for `key`: compare keys of internal
    /// records directly; for an external record compare the stored hash
    /// residue first and fetch the overflow record only on a match. A
    /// fetched overflow record must be internal.
    pub fn resolve<A: NCDReadAccessor>(
        self,
        reader: &mut NCDFileReader<A>,
        key: &[u8],
    ) -> (r: Result<NCDLookupEntry, NCDError>)
        requires
            old(reader).wf(),
        ensures
            final(reader).wf(),
            final(reader).header == old(reader).header,
            self is Internal ==> r is Ok && (if self->Internal_0@ == key@ {
                r->Ok_0 is Value && r->Ok_0->Value_0@ == self->Internal_1@
            } else {
                r->Ok_0 is Skip
            }),
            self is Empty ==> r is Ok && r->Ok_0 is Finish,
            (self is External && self->External_2 != old(reader).header.spec_hash_ext(
                hash_of(key@),
            )) ==> r is Ok && r->Ok_0 is Skip,
            self is External ==> !(r is Ok && r->Ok_0 is Finish),
            r is Err ==> (r->Err_0 is CorruptNCDFile || r->Err_0 is IOError),
    {
        match self {
            NCDLookupResult::Internal(k, v) => {
                if bytes_equal(k.as_slice(), key) {
                    Ok(NCDLookupEntry::Value(v))
                } else {
                    Ok(NCDLookupEntry::Skip)
                }
            },
            NCDLookupResult::Empty => Ok(NCDLookupEntry::Finish),
            NCDLookupResult::External(offset, size, hash) => {
                let key_hash64: u64 = match compute_hash(key) {
                    Ok(h) => h,
                    Err(e) => { return Err(e); },
                };
                let key_hash: u32 = reader.header.hash_ext(key_hash64);
                if key_hash != hash {
                    return Ok(NCDLookupEntry::Skip);
                }
                let bytes = wrap_io_error(reader.reader.read(offset, size))?;
                resolve_external(key, bytes.as_slice())
            },
        }
    }
}

/// A reader: an accessor over the file bytes and the parsed header.
pub struct NCDFileReader<A: NCDReadAccessor> {
    pub reader: Box<A>,
    pub header: NCDHeader,
}

impl<A: NCDReadAccessor> NCDFileReader<A> {
    /// A reader is usable while its cached header is well formed.
    pub open spec fn wf(&self) -> bool {
        self.header.wf()
    }

    /// Open a reader over a boxed accessor: read and check the header.
    pub fn new_box(reader: Box<A>) -> (r: Result<NCDFileReader<A>, NCDError>)
        ensures
            r is Ok ==> r->Ok_0.wf(),
    {
        let mut reader = reader;
        let header = NCDHeader::read(&mut *reader)?;
        Ok(NCDFileReader { reader, header })
    }

    /// Open a reader over an accessor: read and check the header.
    pub fn new(reader: A) -> (r: Result<NCDFileReader<A>, NCDError>)
        ensures
            r is Ok ==> r->Ok_0.wf(),
    {
        Self::new_box(Box::new(reader))
    }

    /// The accessor, for callers that read other parts of the file.
    pub fn accessor(&mut self) -> &mut A {
        &mut *self.reader
    }

    /// The cached header.
    pub fn header(&self) -> (r: &NCDHeader)
        ensures
            *r == self.header,
    {
        &self.header
    }

    /// Read page `index` through the accessor.
    pub fn page(&mut self, index: u64) -> (r: Result<NCDPage, NCDError>)
        requires
            old(self).wf(),
            index <= old(self).header.number_of_pages,
        ensures
            final(self).wf(),
            final(self).header == old(self).header,
            r is Ok ==> r->Ok_0.table@.len() == old(self).header.table_size,
            old(self).header.table_size == 0 ==> r is Ok,
            r is Err ==> (r->Err_0 is CorruptNCDFile || r->Err_0 is WrongStamp || r->Err_0
                is IOError),
    {
        let header = self.header;
        NCDPage::read(&mut *self.reader, &header, index)
    }

    /// Look the key up: hash it, read its page, and probe. `Ok(None)`
    /// means the key is absent; a stamp mismatch surfaces as `WrongStamp`.
    pub fn lookup(&mut self, key: &[u8]) -> (r: Result<Option<Vec<u8>>, NCDError>)
        requires
            old(self).wf(),
        ensures
            final(self).wf(),
            final(self).header == old(self).header,
            old(self).header.table_size == 0 ==> r is Ok && r->Ok_0 is None,
            r is Err ==> (r->Err_0 is CorruptNCDFile || r->Err_0 is WrongStamp || r->Err_0
                is IOError),
    {
        let hash: u64 = match compute_hash(key) {
            Ok(h) => h,
            Err(e) => { return Err(e); },
        };
        let page_index: u64 = self.header.hash_page_index(hash);
        proof {
            assert(page_index <= self.header.number_of_pages);
        }
        let page = match self.page(page_index) {
            Ok(p) => p,
            Err(e) => { return Err(e); },
        };
        page.scan(self, key, hash)
    }

    /// The stamp-recovery decision: a freshly re-read header replaces the
    /// cached one only when its stamp differs (the file was rebuilt);
    /// an unchanged stamp means the mismatch is real.
    pub fn stamp_retry_decision(current: &NCDHeader, renewed: &NCDHeader) -> (r: Option<NCDHeader>)
        ensures
            r is Some <==> renewed.stamp != current.stamp,
            r is Some ==> r->0 == *renewed,
    {
        if renewed.stamp() == current.stamp() {
            None
        } else {
            Some(*renewed)
        }
    }

    /// Like `lookup`, but when a page's stamp does not match the cached
    /// header, re-read the header and apply `stamp_retry_decision`: a
    /// changed stamp means the file was rebuilt, so the new header is
    /// cached and the lookup retried; an unchanged one surfaces the
    /// mismatch. Bounded retries keep a file that is being rewritten
    /// continuously from wedging the reader.
    pub fn get(&mut self, key: &[u8]) -> (r: Result<Option<Vec<u8>>, NCDError>)
        requires
            old(self).wf(),
        ensures
            final(self).wf(),
            r is Err ==> (r->Err_0 is CorruptNCDFile || r->Err_0 is WrongStamp || r->Err_0
                is IOError),
    {
        let mut retries: usize = STAMP_RETRY_LIMIT;
        while retries > 0
            invariant
                self.wf(),
            decreases retries,
        {
            match self.lookup(key) {
                Err(NCDError::WrongStamp) => {
                    let new_header = NCDHeader::read(&mut *self.reader)?;
                    match Self::stamp_retry_decision(&self.header, &new_header) {
                        None => {
                            return Err(NCDError::WrongStamp);
                        },
                        Some(h) => {
                            self.header = h;
                        },
                    }
                },
                x => { return x; },
            }
            retries = retries - 1;
        }
        Err(NCDError::WrongStamp)
    }
}

} // verus!
