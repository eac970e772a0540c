//! One build attempt: lay out a blank file image, stream key/value
//! entries into pages (spilling oversized records into the overflow
//! region), and keep every page's table and trailing stamp consistent.
//!
//! The attempt works on an in-memory image of the output file; writing
//! that image to disk is the caller's business.

use vstd::prelude::*;
use vstd::slice::{slice_subrange, slice_to_vec};

use crate::bitbash::{
    compute_hash, hash_of, le_bytes, le_value, lemma_le_bytes_len, lemma_lesqlite2_enc_len, lesqlite2_enc,
    lesqlite2_write, pow256, read_uvar, write_bytes, write_u32, write_uvar, zero_vec,
    MAX_LESQLITE2_BYTES,
};
use crate::header::{lemma_mul_le, lemma_mul_succ, NCDHeader, HEADER_SIZE};
use crate::util::{wrap_io_error, NCDError};

verus! {

/// A finite supply of key/value byte pairs to build a file from. Each
/// call yields the whole sequence afresh; the builder scans it once for
/// statistics and once per attempt.
pub trait NCDValueSource {
    fn pairs(&self) -> Result<Vec<(Vec<u8>, Vec<u8>)>, std::io::Error>;
}

/// `s` with `sub` written at `off`, growing the sequence (zero-filling
/// any gap) exactly as a positioned write grows a file.
pub open spec fn spec_store(s: Seq<u8>, off: int, sub: Seq<u8>) -> Seq<u8> {
    let n = if s.len() >= off + sub.len() {
        s.len() as int
    } else {
        off + sub.len()
    };
    Seq::new(
        n as nat,
        |i: int|
            if off <= i < off + sub.len() {
                sub[i - off]
            } else if i < s.len() {
                s[i]
            } else {
                0u8
            },
    )
}

/// Write `data` into the image at `offset`, zero-filling and growing as a
/// positioned file write would. Fails only when the result could not be
/// indexed in memory.
pub fn store_bytes_at(image: &mut Vec<u8>, offset: u64, data: &[u8]) -> (r: Result<(), NCDError>)
    ensures
        r is Ok <==> offset + data@.len() <= usize::MAX,
        r is Ok ==> final(image)@ == spec_store(old(image)@, offset as int, data@),
        r is Err ==> final(image)@ == old(image)@ && r->Err_0 is BadConfiguration,
{
    let dl: u64 = data.len() as u64;
    if dl > usize::MAX as u64 || offset > usize::MAX as u64 - dl {
        return Err(NCDError::BadConfiguration("image too large".to_owned()));
    }
    let off: usize = offset as usize;
    while image.len() < off
        invariant
            image@.len() <= off || image@.len() == old(image)@.len(),
            image@.len() >= old(image)@.len(),
            forall|j: int|
                0 <= j < image@.len() ==> image@[j] == (if j < old(image)@.len() {
                    old(image)@[j]
                } else {
                    0u8
                }),
        decreases off - image@.len(),
    {
        image.push(0);
    }
    let ghost padded = image@;
    let dlen: usize = data.len();
    let mut i: usize = 0;
    while i < dlen
        invariant
            i <= dlen,
            dlen == data@.len(),
            off + dlen <= usize::MAX,
            off <= padded.len(),
            image@.len() == (if padded.len() >= off + i {
                padded.len() as int
            } else {
                off + i
            }),
            forall|j: int|
                0 <= j < image@.len() ==> image@[j] == (if off <= j < off + i {
                    data@[j - off]
                } else {
                    padded[j]
                }),
        decreases dlen - i,
    {
        let pos: usize = off + i;
        if pos < image.len() {
            image.set(pos, data[i]);
        } else {
            image.push(data[i]);
        }
        i = i + 1;
    }
    proof {
        assert(image@ =~= spec_store(old(image)@, offset as int, data@));
    }
    Ok(())
}

/// The 4 stamp bytes at the tail of page `p`.
pub open spec fn spec_stamp_at(img: Seq<u8>, h: NCDHeader, p: int) -> Seq<u8> {
    img.subrange((p + 1) * h.spec_page_size() - 4, (p + 1) * h.spec_page_size())
}

/// Every page's trailing 4 bytes hold the header's stamp.
pub open spec fn stamps_ok(img: Seq<u8>, h: NCDHeader) -> bool {
    forall|p: int|
        0 <= p < h.number_of_pages ==> #[trigger] spec_stamp_at(img, h, p) == le_bytes(
            h.stamp as int,
            4,
        )
}

/// A byte range `[off, end)` that cannot overlap the stamp of page `p`.
pub open spec fn clear_of_stamp(h: NCDHeader, off: int, end: int, p: int) -> bool {
    end <= (p + 1) * h.spec_page_size() - 4 || (p + 1) * h.spec_page_size() <= off
}

/// The integer stored in slot `s` of page `q`'s table in the image.
pub open spec fn spec_table_slot(h: NCDHeader, img: Seq<u8>, q: int, s: int) -> int {
    le_value(
        img.subrange(
            q * h.spec_page_size() + h.heap_size + s * h.spec_pl(),
            q * h.spec_page_size() + h.heap_size + s * h.spec_pl() + h.spec_pl(),
        ),
    )
}

/// Whether slot `s` of page `q` holds the all-ones unused sentinel.
pub open spec fn slot_unused(h: NCDHeader, img: Seq<u8>, q: int, s: int) -> bool {
    spec_table_slot(h, img, q, s) == pow256(h.spec_pl() as nat) - 1
}

/// The slot after `s` in the probe order: one step, wrapping at `t`.
pub open spec fn next_slot(s: int, t: int) -> int {
    if s + 1 == t {
        0
    } else {
        s + 1
    }
}

/// The first unused slot reached from `s` within `steps` probes of page
/// `q`'s table, or -1 when every probed slot is taken.
pub open spec fn first_unused_from(h: NCDHeader, img: Seq<u8>, q: int, s: int, steps: int) -> int
    decreases steps,
{
    if steps <= 0 {
        -1
    } else if slot_unused(h, img, q, s) {
        s
    } else {
        first_unused_from(h, img, q, next_slot(s, h.table_size as int), steps - 1)
    }
}

/// A write that stays clear of every page's stamp bytes keeps every
/// stamp in place.
pub proof fn lemma_stamps_preserved(img: Seq<u8>, h: NCDHeader, off: int, data: Seq<u8>)
    requires
        h.wf(),
        stamps_ok(img, h),
        0 <= off,
        h.spec_structured_size() <= img.len(),
        forall|p: int|
            0 <= p < h.number_of_pages ==> #[trigger] clear_of_stamp(h, off, off + data.len(), p),
    ensures
        stamps_ok(spec_store(img, off, data), h),
{
    let stored = spec_store(img, off, data);
    assert forall|p: int| 0 <= p < h.number_of_pages implies #[trigger] spec_stamp_at(
        stored,
        h,
        p,
    ) == le_bytes(h.stamp as int, 4) by {
        h.lemma_page_size_pos();
        lemma_mul_le(1, p + 1, h.spec_page_size());
        lemma_mul_le(p + 1, h.number_of_pages as int, h.spec_page_size());
        assert(clear_of_stamp(h, off, off + data.len(), p));
        assert(spec_stamp_at(stored, h, p) =~= spec_stamp_at(img, h, p));
    }
}

/// Fill every page's table with the unused sentinel and its trailing 4
/// bytes with the header stamp. Touches only bytes at or above each
/// page's table offset, so the start of page 0's heap (where the header
/// lives) is untouched.
pub fn write_blank_tables(header: &NCDHeader, image: &mut Vec<u8>) -> (r: Result<(), NCDError>)
    requires
        header.wf(),
        old(image)@.len() >= header.spec_structured_size(),
    ensures
        r is Ok,
        final(image)@.len() == old(image)@.len(),
        stamps_ok(final(image)@, *header),
        forall|p: int, s: int|
            0 <= p < header.number_of_pages && 0 <= s < header.table_size
                ==> #[trigger] slot_unused(*header, final(image)@, p, s),
        forall|p: int, j: int|
            #![trigger final(image)@[p * header.spec_page_size() + j]]
            0 <= p < header.number_of_pages && 0 <= j < header.heap_size
                ==> final(image)@[p * header.spec_page_size() + j] == old(image)@[p
                * header.spec_page_size() + j],
        forall|i: int|
            0 <= i < header.heap_size && i < old(image)@.len() ==> final(image)@[i] == old(
                image,
            )@[i],
{
    let n: u64 = header.number_of_pages();
    proof {
        header.lemma_page_size_pos();
    }
    let unset_len: usize = (header.page_size() as usize) - (header.heap_size() as usize);
    let fill: usize = unset_len - 4;
    let mut unset: Vec<u8> = Vec::new();
    let mut i: usize = 0;
    while i < fill
        invariant
            i <= fill,
            unset@.len() == i,
            forall|j: int| 0 <= j < i ==> unset@[j] == 0xFFu8,
        decreases fill - i,
    {
        unset.push(0xFF);
        i = i + 1;
    }
    let mut stamp_bytes: Vec<u8> = zero_vec(4);
    let mut soff: usize = 0;
    let rs = write_u32(&mut stamp_bytes, &mut soff, header.stamp());
    proof {
        assert(rs is Ok);
        lemma_le_bytes_len(header.stamp as int, 4);
        assert(stamp_bytes@ =~= le_bytes(header.stamp as int, 4));
    }
    let image_len: usize = image.len();
    let mut page_num: u64 = 0;
    while page_num < n
        invariant
            page_num <= n,
            n == header.number_of_pages,
            header.wf(),
            unset@.len() == fill,
            forall|j: int| 0 <= j < fill ==> unset@[j] == 0xFFu8,
            fill + 4 == header.spec_page_size() - header.heap_size,
            stamp_bytes@ == le_bytes(header.stamp as int, 4),
            stamp_bytes@.len() == 4,
            image@.len() == old(image)@.len(),
            old(image)@.len() == image_len,
            old(image)@.len() >= header.spec_structured_size(),
            forall|p: int|
                0 <= p < page_num ==> #[trigger] spec_stamp_at(image@, *header, p) == le_bytes(
                    header.stamp as int,
                    4,
                ),
            forall|p: int, s: int|
                0 <= p < page_num && 0 <= s < header.table_size ==> #[trigger] slot_unused(
                    *header,
                    image@,
                    p,
                    s,
                ),
            forall|p: int, j: int|
                #![trigger image@[p * header.spec_page_size() + j]]
                0 <= p < header.number_of_pages && 0 <= j < header.heap_size ==> image@[p
                    * header.spec_page_size() + j] == old(image)@[p * header.spec_page_size()
                    + j],
            forall|i: int|
                0 <= i < header.heap_size && i < old(image)@.len() ==> image@[i] == old(
                    image,
                )@[i],
        decreases n - page_num,
    {
        proof {
            header.lemma_page_size_pos();
            lemma_mul_succ(page_num as int, header.spec_page_size());
            lemma_mul_le(0, page_num as int, header.spec_page_size());
            lemma_mul_le(page_num + 1, n as int, header.spec_page_size());
        }
        let ghost before = image@;
        let table_off: u64 = header.table_offset(page_num);
        let r1 = store_bytes_at(image, table_off, unset.as_slice());
        let stamp_off: u64 = header.stamp_offset(page_num);
        let r2 = store_bytes_at(image, stamp_off, stamp_bytes.as_slice());
        proof {
            assert(r1 is Ok && r2 is Ok);
            let h = *header;
            let ps = h.spec_page_size();
            assert(image@.len() == before.len());
            assert forall|p: int| 0 <= p < page_num + 1 implies #[trigger] spec_stamp_at(
                image@,
                h,
                p,
            ) == le_bytes(h.stamp as int, 4) by {
                lemma_mul_le(1, p + 1, ps);
                if p < page_num {
                    lemma_mul_le(p + 1, page_num as int, ps);
                    assert(spec_stamp_at(image@, h, p) =~= spec_stamp_at(before, h, p));
                } else {
                    assert(spec_stamp_at(image@, h, p) =~= stamp_bytes@);
                }
            }
            let pn = page_num as int;
            let ghost mid1 = spec_store(before, table_off as int, unset@);
            assert(image@ == spec_store(mid1, stamp_off as int, stamp_bytes@));
            assert((h.table_size as int) * h.spec_pl() == fill as int);
            assert forall|p: int, s: int|
                0 <= p < pn + 1 && 0 <= s < h.table_size implies #[trigger] slot_unused(
                h,
                image@,
                p,
                s,
            ) by {
                lemma_mul_succ(s, h.spec_pl());
                lemma_mul_le(0, s, h.spec_pl());
                lemma_mul_le(s + 1, h.table_size as int, h.spec_pl());
                lemma_mul_le(0, p, ps);
                lemma_mul_succ(p, ps);
                lemma_mul_le(p + 1, pn + 1, ps);
                let lo = p * ps + h.heap_size + s * h.spec_pl();
                let hi = lo + h.spec_pl();
                if p < pn {
                    lemma_mul_le(p + 1, pn, ps);
                    assert forall|i: int| lo <= i < hi implies image@[i] == before[i] by {
                        assert(i < table_off as int);
                        assert(mid1[i] == before[i]);
                    }
                    assert(image@.subrange(lo, hi) =~= before.subrange(lo, hi));
                    assert(slot_unused(h, before, p, s));
                } else {
                    assert(lo >= table_off as int);
                    assert(hi <= table_off as int + fill as int);
                    assert forall|i: int| lo <= i < hi implies image@[i] == 0xFFu8 by {
                        assert(i < stamp_off as int);
                        assert(i < mid1.len());
                        assert(mid1[i] == unset@[i - table_off as int]);
                        assert(unset@[i - table_off as int] == 0xFFu8);
                    }
                    crate::bitbash::lemma_le_value_all_ones(image@.subrange(lo, hi));
                }
            }
            assert forall|p: int, j: int|
                0 <= p < h.number_of_pages && 0 <= j < h.heap_size implies #[trigger] image@[p
                * ps + j] == old(image)@[p * ps + j] by {
                lemma_mul_le(0, p, ps);
                lemma_mul_succ(p, ps);
                lemma_mul_le(p + 1, n as int, ps);
                let x = p * ps + j;
                if p < pn {
                    lemma_mul_le(p + 1, pn, ps);
                    assert(x < table_off as int);
                } else if p > pn {
                    lemma_mul_le(pn + 1, p, ps);
                    assert(x >= (pn + 1) * ps);
                } else {
                    assert(x < table_off as int);
                }
                assert(mid1[x] == before[x]);
                assert(image@[x] == mid1[x]);
                assert(before[x] == old(image)@[x]);
            }
        }
        page_num = page_num + 1;
    }
    Ok(())
}

/// In-bounds writes are the same whether seen as a splice or a store.
pub proof fn lemma_splice_is_store(s: Seq<u8>, off: int, sub: Seq<u8>)
    requires
        0 <= off,
        off + sub.len() <= s.len(),
    ensures
        crate::bitbash::seq_splice(s, off, sub) == spec_store(s, off, sub),
{
    assert(crate::bitbash::seq_splice(s, off, sub) =~= spec_store(s, off, sub));
}

/// A window inside page `q` that ends before the page's stamp is clear of
/// every page's stamp.
pub proof fn lemma_window_in_page_clear(h: NCDHeader, q: int, off: int, end: int)
    requires
        h.wf(),
        0 <= q < h.number_of_pages,
        q * h.spec_page_size() <= off <= end,
        end <= (q + 1) * h.spec_page_size() - 4,
    ensures
        forall|p: int| 0 <= p < h.number_of_pages ==> #[trigger] clear_of_stamp(h, off, end, p),
{
    let ps = h.spec_page_size();
    h.lemma_page_size_pos();
    assert forall|p: int| 0 <= p < h.number_of_pages implies #[trigger] clear_of_stamp(
        h,
        off,
        end,
        p,
    ) by {
        if p < q {
            lemma_mul_le(p + 1, q, ps);
        } else if p > q {
            lemma_mul_le(q + 1, p, ps);
            lemma_mul_succ(p, ps);
        }
    }
}

/// A window at or past the structured region is clear of every page's
/// stamp.
pub proof fn lemma_window_past_pages_clear(h: NCDHeader, off: int, end: int)
    requires
        h.wf(),
        h.spec_structured_size() <= off <= end,
    ensures
        forall|p: int| 0 <= p < h.number_of_pages ==> #[trigger] clear_of_stamp(h, off, end, p),
{
    let ps = h.spec_page_size();
    h.lemma_page_size_pos();
    assert forall|p: int| 0 <= p < h.number_of_pages implies #[trigger] clear_of_stamp(
        h,
        off,
        end,
        p,
    ) by {
        lemma_mul_le(p + 1, h.number_of_pages as int, ps);
    }
}

/// Whether position `i` of the image lies in the already-written part of
/// page `p`'s heap, given that page's write cursor.
pub open spec fn in_used_heap(h: NCDHeader, aux: Seq<u64>, p: int, i: int) -> bool {
    0 <= p < h.number_of_pages && p * h.spec_page_size() <= i < p * h.spec_page_size() + aux[p]
}

/// Between two attempt states, no byte of any page's already-written
/// heap (as of the first state's cursors) changed.
pub open spec fn preserves_used_heap(pre: NCDWriteAttempt, post: NCDWriteAttempt) -> bool {
    forall|p: int, i: int|
        #![trigger in_used_heap(pre.header, pre.aux@, p, i)]
        in_used_heap(pre.header, pre.aux@, p, i) && i < pre.image@.len() ==> post.image@[i]
            == pre.image@[i]
}

/// A store whose window avoids page `q`'s table region leaves every slot
/// of page `q` as it was.
pub proof fn lemma_slots_preserved(img: Seq<u8>, h: NCDHeader, q: int, off: int, data: Seq<u8>)
    requires
        h.wf(),
        0 <= q < h.number_of_pages,
        0 <= off,
        h.spec_structured_size() <= img.len(),
        off + data.len() <= q * h.spec_page_size() + h.heap_size || (q + 1) * h.spec_page_size()
            - 4 <= off,
    ensures
        forall|j: int|
            0 <= j < h.table_size ==> #[trigger] spec_table_slot(h, spec_store(img, off, data), q, j)
                == spec_table_slot(h, img, q, j),
{
    let ps = h.spec_page_size();
    h.lemma_page_size_pos();
    lemma_mul_succ(q, ps);
    lemma_mul_le(0, q, ps);
    lemma_mul_le(q + 1, h.number_of_pages as int, ps);
    assert forall|j: int|
        0 <= j < h.table_size implies #[trigger] spec_table_slot(h, spec_store(img, off, data), q, j)
        == spec_table_slot(h, img, q, j) by {
        lemma_mul_succ(j, h.spec_pl());
        lemma_mul_le(0, j, h.spec_pl());
        lemma_mul_le(j + 1, h.table_size as int, h.spec_pl());
        let lo = q * ps + h.heap_size + j * h.spec_pl();
        let hi = lo + h.spec_pl();
        assert(spec_store(img, off, data).subrange(lo, hi) =~= img.subrange(lo, hi));
    }
}

/// Probing sees only the slots, so two images whose slots of page `q`
/// agree have the same first unused slot.
pub proof fn lemma_first_unused_congruent(
    h: NCDHeader,
    img1: Seq<u8>,
    img2: Seq<u8>,
    q: int,
    s: int,
    steps: int,
)
    requires
        forall|j: int|
            0 <= j < h.table_size ==> #[trigger] spec_table_slot(h, img1, q, j) == spec_table_slot(
                h,
                img2,
                q,
                j,
            ),
        0 <= s < h.table_size,
    ensures
        first_unused_from(h, img1, q, s, steps) == first_unused_from(h, img2, q, s, steps),
    decreases steps,
{
    if steps > 0 && !slot_unused(h, img1, q, s) {
        lemma_first_unused_congruent(h, img1, img2, q, next_slot(s, h.table_size as int), steps - 1);
    }
}

/// The record a pair ends up as in the page heap: the serialized record
/// itself when it is within the external threshold, the external pointer
/// record for it otherwise.
pub open spec fn spec_chosen_record(
    h: NCDHeader,
    ext_off: u64,
    ext_hash: u32,
    threshold: u64,
    bytes: Seq<u8>,
) -> Seq<u8> {
    if bytes.len() > threshold {
        ext_record_enc(h.spec_structured_size() + ext_off, bytes.len() as int, ext_hash as int)
    } else {
        bytes
    }
}

/// When placing a record succeeds: an internal record must fit the free
/// heap; an oversized one must fit the overflow region's offsets, have a
/// pointer record the scratch buffer can hold, and that pointer record
/// must fit the free heap.
pub open spec fn spec_add_data_fits(
    h: NCDHeader,
    ext_off: u64,
    ext_hash: u32,
    threshold: u64,
    heap_threshold: u64,
    bytes: Seq<u8>,
) -> bool {
    if bytes.len() > threshold {
        let off_abs = h.spec_structured_size() + ext_off;
        &&& off_abs + bytes.len() <= usize::MAX
        &&& 5 + lesqlite2_enc(off_abs).len() + lesqlite2_enc(bytes.len() as int).len() <= 2
            * MAX_LESQLITE2_BYTES + 4
        &&& heap_threshold + ext_record_enc(off_abs, bytes.len() as int, ext_hash as int).len()
            <= h.heap_size
    } else {
        heap_threshold + bytes.len() <= h.heap_size
    }
}

/// How many heap bytes are still free before `heap_size`, given the
/// page's next write offset.
pub open spec fn spec_heap_room(h: NCDHeader, heap_threshold: u64) -> int {
    if heap_threshold > h.heap_size {
        0
    } else {
        h.heap_size - heap_threshold
    }
}

/// The per-page state of one build attempt: which page, where the next
/// heap write goes, and the record size above which entries go external.
pub struct NCDPageWriter {
    pub index: u64,
    pub heap_threshold: u64,
    pub threshold: u64,
}

/// One build attempt over an in-memory file image.
pub struct NCDWriteAttempt {
    pub header: NCDHeader,
    pub image: Vec<u8>,
    pub aux: Vec<u64>,
    pub external_offset: u64,
    pub threshold: u64,
}

impl NCDWriteAttempt {
    /// The attempt's pages are laid out sanely: under a header whose page
    /// 0 heap can hold the file header, the image is exactly the
    /// structured region plus the overflow bytes written so far, it
    /// starts with the serialized header, and every page carries the
    /// header's stamp in its trailing 4 bytes.
    pub open spec fn good(&self) -> bool {
        self.header.number_of_pages > 0 && self.header.heap_size >= 28
    }

    pub open spec fn wf(&self) -> bool {
        let h = self.header;
        &&& h.wf()
        &&& self.aux@.len() == h.number_of_pages
        &&& h.spec_structured_size() + self.external_offset <= usize::MAX
        &&& self.image@.len() >= h.spec_structured_size()
        &&& forall|p: int| 0 <= p < h.number_of_pages ==> #[trigger] self.aux@[p] <= 28 + h.heap_size
        &&& (self.good() ==> {
            &&& self.image@.len() == h.spec_structured_size() + self.external_offset
            &&& self.image@.subrange(0, 28) == h.spec_bytes()
            &&& stamps_ok(self.image@, h)
            &&& forall|p: int| 0 <= p < h.number_of_pages ==> #[trigger] self.aux@[p] <= h.heap_size
            &&& self.aux@[0] >= 28
        })
        &&& (h.number_of_pages == 0 ==> self.external_offset == 0 && self.image@.len() == 28)
    }
}

impl NCDPageWriter {
    /// Pick up the per-page state of `index` from the attempt's
    /// bookkeeping.
    pub fn new(aux: &Vec<u64>, index: u64, threshold: u64) -> (r: NCDPageWriter)
        requires
            index < aux@.len(),
        ensures
            r.index == index,
            r.heap_threshold == aux@[index as int],
            r.threshold == threshold,
    {
        let count: usize = aux.len();
        proof {
            assert(index < count);
        }
        NCDPageWriter { index, heap_threshold: aux[index as usize], threshold }
    }

    /// How many heap bytes of this page are still free.
    pub fn heap_room(&self, header: &NCDHeader) -> (r: u64)
        ensures
            r == spec_heap_room(*header, self.heap_threshold),
    {
        let heap: u64 = header.heap_size() as u64;
        if self.heap_threshold > heap {
            0
        } else {
            heap - self.heap_threshold
        }
    }

    /// Write a record into this page's heap, bump the heap cursor, and
    /// return the record's page-local offset. Fails with `HeapFull` when
    /// the heap cannot take the record.
    fn add_internal(&mut self, attempt: &mut NCDWriteAttempt, bytes: &[u8]) -> (r: Result<
        u64,
        NCDError,
    >)
        requires
            old(attempt).wf(),
            old(self).index < old(attempt).header.number_of_pages,
            old(attempt).good() ==> (old(self).index == 0 ==> old(self).heap_threshold >= 28),
            old(attempt).good() ==> old(self).heap_threshold >= old(attempt).aux@[old(
                self,
            ).index as int],
        ensures
            final(attempt).wf(),
            final(attempt).header == old(attempt).header,
            final(attempt).aux == old(attempt).aux,
            final(attempt).external_offset == old(attempt).external_offset,
            final(attempt).threshold == old(attempt).threshold,
            final(self).index == old(self).index,
            final(self).threshold == old(self).threshold,
            old(attempt).good() ==> preserves_used_heap(*old(attempt), *final(attempt)),
            forall|j: int|
                0 <= j < old(attempt).header.table_size ==> #[trigger] spec_table_slot(
                    old(attempt).header,
                    final(attempt).image@,
                    old(self).index as int,
                    j,
                ) == spec_table_slot(
                    old(attempt).header,
                    old(attempt).image@,
                    old(self).index as int,
                    j,
                ),
            r is Ok <==> old(self).heap_threshold + bytes@.len() <= old(attempt).header.heap_size,
            r is Ok ==> ({
                &&& r->Ok_0 == old(self).heap_threshold
                &&& final(self).heap_threshold == old(self).heap_threshold + bytes@.len()
                &&& final(attempt).image@ == spec_store(
                    old(attempt).image@,
                    old(self).index * old(attempt).header.spec_page_size()
                        + old(self).heap_threshold,
                    bytes@,
                )
            }),
            r is Err ==> *final(self) == *old(self) && final(attempt).image@ == old(
                attempt,
            ).image@ && r->Err_0 is HeapFull,
    {
        let heap: u64 = attempt.header.heap_size() as u64;
        if self.heap_threshold > heap || bytes.len() as u64 > heap - self.heap_threshold {
            return Err(NCDError::HeapFull);
        }
        let ghost h = attempt.header;
        let ghost ps = h.spec_page_size();
        let ghost q = self.index as int;
        proof {
            h.lemma_page_size_pos();
            lemma_mul_succ(q, ps);
            lemma_mul_le(q + 1, h.number_of_pages as int, ps);
        }
        let page_off: u64 = attempt.header.page_offset(self.index);
        let target: u64 = page_off + self.heap_threshold;
        let rs = store_bytes_at(&mut attempt.image, target, bytes);
        proof {
            assert(rs is Ok);
            lemma_slots_preserved(old(attempt).image@, h, q, target as int, bytes@);
            if attempt.good() {
                if q > 0 {
                    lemma_mul_le(1, q, ps);
                }
                lemma_window_in_page_clear(h, q, target as int, target + bytes@.len());
                lemma_stamps_preserved(
                    old(attempt).image@,
                    h,
                    target as int,
                    bytes@,
                );
                assert(attempt.image@.subrange(0, 28) =~= old(attempt).image@.subrange(0, 28));
                assert forall|p: int, i: int|
                    in_used_heap(h, old(attempt).aux@, p, i) && i < old(
                        attempt,
                    ).image@.len() implies attempt.image@[i] == old(attempt).image@[i] by {
                    if p < q {
                        lemma_mul_le(p + 1, q, ps);
                        lemma_mul_succ(p, ps);
                    } else if p > q {
                        lemma_mul_le(q + 1, p, ps);
                        lemma_mul_succ(p, ps);
                    }
                }
            }
            assert(attempt.image@.len() == old(attempt).image@.len());
        }
        let out: u64 = self.heap_threshold;
        self.heap_threshold = self.heap_threshold + bytes.len() as u64;
        Ok(out)
    }

    /// Append a record to the overflow region past the structured pages
    /// and return its absolute file offset.
    fn add_external_bytes(&mut self, attempt: &mut NCDWriteAttempt, bytes: &[u8]) -> (r: Result<
        u64,
        NCDError,
    >)
        requires
            old(attempt).wf(),
            old(attempt).header.number_of_pages > 0,
            old(self).index < old(attempt).header.number_of_pages,
        ensures
            final(attempt).wf(),
            final(attempt).header == old(attempt).header,
            final(attempt).aux == old(attempt).aux,
            final(attempt).threshold == old(attempt).threshold,
            *final(self) == *old(self),
            forall|j: int|
                0 <= j < old(attempt).header.table_size ==> #[trigger] spec_table_slot(
                    old(attempt).header,
                    final(attempt).image@,
                    old(self).index as int,
                    j,
                ) == spec_table_slot(
                    old(attempt).header,
                    old(attempt).image@,
                    old(self).index as int,
                    j,
                ),
            r is Ok ==> final(attempt).image@.len() >= old(attempt).header.spec_structured_size()
                + old(attempt).external_offset + bytes@.len(),
            r is Ok <==> old(attempt).header.spec_structured_size() + old(attempt).external_offset
                + bytes@.len() <= usize::MAX,
            r is Ok ==> ({
                &&& r->Ok_0 == old(attempt).header.spec_structured_size() + old(
                    attempt,
                ).external_offset
                &&& final(attempt).external_offset == old(attempt).external_offset + bytes@.len()
                &&& final(attempt).image@ == spec_store(
                    old(attempt).image@,
                    old(attempt).header.spec_structured_size() + old(attempt).external_offset,
                    bytes@,
                )
            }),
            r is Err ==> *final(attempt) == *old(attempt) && r->Err_0 is BadConfiguration,
    {
        let structured: u64 = attempt.header.structured_size();
        let offset: u64 = structured + attempt.external_offset;
        let dl: u64 = bytes.len() as u64;
        if dl > usize::MAX as u64 - offset {
            return Err(NCDError::BadConfiguration("image too large".to_owned()));
        }
        let ghost h = attempt.header;
        let rs = store_bytes_at(&mut attempt.image, offset, bytes);
        proof {
            assert(rs is Ok);
            h.lemma_page_size_pos();
            lemma_mul_succ(old(self).index as int, h.spec_page_size());
            lemma_mul_le(old(self).index + 1, h.number_of_pages as int, h.spec_page_size());
            lemma_slots_preserved(
                old(attempt).image@,
                h,
                old(self).index as int,
                offset as int,
                bytes@,
            );
            if attempt.good() {
                lemma_window_past_pages_clear(h, offset as int, offset + bytes@.len());
                lemma_stamps_preserved(
                    old(attempt).image@,
                    h,
                    offset as int,
                    bytes@,
                );
                h.lemma_page_size_pos();
                lemma_mul_le(1, h.number_of_pages as int, h.spec_page_size());
                assert(attempt.image@.subrange(0, 28) =~= old(attempt).image@.subrange(0, 28));
                assert forall|p: int, i: int|
                    in_used_heap(h, old(attempt).aux@, p, i) && i < old(
                        attempt,
                    ).image@.len() implies attempt.image@[i] == old(attempt).image@[i] by {
                    lemma_mul_le(p + 1, h.number_of_pages as int, h.spec_page_size());
                    lemma_mul_succ(p, h.spec_page_size());
                }
            }
        }
        let out: u64 = attempt.external_offset;
        attempt.external_offset = attempt.external_offset + dl;
        Ok(structured + out)
    }

    /// Serialize an external pointer record: a zero length tag, the
    /// overflow offset and length as varints, and the 32-bit hash residue.
    pub fn make_external_pointer(&self, start: u64, size: u64, ext_hash: u32) -> (r: Result<
        Vec<u8>,
        NCDError,
    >)
        ensures
            r is Ok <==> 5 + lesqlite2_enc(start as int).len() + lesqlite2_enc(size as int).len()
                <= 2 * MAX_LESQLITE2_BYTES + 4,
            r is Ok ==> r->Ok_0@ == ext_record_enc(start as int, size as int, ext_hash as int),
            r is Err ==> r->Err_0 is CorruptNCDFile,
    {
        proof {
            crate::bitbash::lemma_pow256_increases(0nat, 8nat);
            reveal_with_fuel(crate::bitbash::pow256, 9);
            lemma_lesqlite2_enc_len(start as int);
            lemma_lesqlite2_enc_len(size as int);
            lemma_le_bytes_len(ext_hash as int, 4);
        }
        let mut bytes = zero_vec(2 * MAX_LESQLITE2_BYTES + 4);
        let mut offset: usize = 1;
        match lesqlite2_write(&mut bytes, &mut offset, start) {
            Ok(()) => {},
            Err(e) => { return Err(e); },
        }
        match lesqlite2_write(&mut bytes, &mut offset, size) {
            Ok(()) => {},
            Err(e) => { return Err(e); },
        }
        match write_u32(&mut bytes, &mut offset, ext_hash) {
            Ok(()) => {},
            Err(e) => { return Err(e); },
        }
        let out = slice_to_vec(slice_subrange(bytes.as_slice(), 0, offset));
        proof {
            assert(out@ =~= ext_record_enc(start as int, size as int, ext_hash as int));
        }
        Ok(out)
    }

    /// Ship an oversized record to the overflow region and put a pointer
    /// record for it into this page's heap.
    fn add_external(&mut self, attempt: &mut NCDWriteAttempt, ext_hash: u32, bytes: &[u8]) -> (r:
        Result<u64, NCDError>)
        requires
            old(attempt).wf(),
            old(attempt).header.number_of_pages > 0,
            old(self).index < old(attempt).header.number_of_pages,
            old(attempt).good() ==> (old(self).index == 0 ==> old(self).heap_threshold >= 28),
            old(attempt).good() ==> old(self).heap_threshold >= old(attempt).aux@[old(
                self,
            ).index as int],
        ensures
            final(attempt).wf(),
            final(attempt).header == old(attempt).header,
            final(attempt).aux == old(attempt).aux,
            final(attempt).threshold == old(attempt).threshold,
            final(self).index == old(self).index,
            final(self).threshold == old(self).threshold,
            final(self).heap_threshold >= old(self).heap_threshold,
            final(attempt).external_offset >= old(attempt).external_offset,
            old(attempt).good() ==> preserves_used_heap(*old(attempt), *final(attempt)),
            forall|j: int|
                0 <= j < old(attempt).header.table_size ==> #[trigger] spec_table_slot(
                    old(attempt).header,
                    final(attempt).image@,
                    old(self).index as int,
                    j,
                ) == spec_table_slot(
                    old(attempt).header,
                    old(attempt).image@,
                    old(self).index as int,
                    j,
                ),
            r is Ok ==> final(attempt).image@.len() >= old(attempt).header.spec_structured_size()
                + old(attempt).external_offset + bytes@.len(),
            r is Ok <==> ({
                let h = old(attempt).header;
                let off_abs = h.spec_structured_size() + old(attempt).external_offset;
                let rec = ext_record_enc(off_abs, bytes@.len() as int, ext_hash as int);
                &&& off_abs + bytes@.len() <= usize::MAX
                &&& 5 + lesqlite2_enc(off_abs).len() + lesqlite2_enc(bytes@.len() as int).len()
                    <= 2 * MAX_LESQLITE2_BYTES + 4
                &&& old(self).heap_threshold + rec.len() <= h.heap_size
            }),
            r is Ok ==> ({
                let h = old(attempt).header;
                let q = old(self).index as int;
                let thr = old(self).heap_threshold as int;
                let off_abs = h.spec_structured_size() + old(attempt).external_offset;
                let rec = ext_record_enc(off_abs, bytes@.len() as int, ext_hash as int);
                &&& r->Ok_0 == old(self).heap_threshold
                &&& final(self).heap_threshold == old(self).heap_threshold + rec.len()
                &&& final(self).heap_threshold <= h.heap_size
                &&& final(attempt).external_offset == old(attempt).external_offset + bytes@.len()
                &&& final(attempt).image@.subrange(off_abs, off_abs + bytes@.len()) == bytes@
                &&& final(attempt).image@.subrange(
                    q * h.spec_page_size() + thr,
                    q * h.spec_page_size() + thr + rec.len(),
                ) == rec
            }),
            r is Err ==> (r->Err_0 is HeapFull || r->Err_0 is BadConfiguration || r->Err_0
                is CorruptNCDFile),
    {
        let ghost h = old(attempt).header;
        let ghost ps = h.spec_page_size();
        let ghost q = old(self).index as int;
        let ghost thr = old(self).heap_threshold as int;
        let ghost off_abs = h.spec_structured_size() + old(attempt).external_offset;
        let offset: u64 = match self.add_external_bytes(attempt, bytes) {
            Ok(v) => v,
            Err(e) => { return Err(e); },
        };
        let ghost mid = *attempt;
        let pointer: Vec<u8> = match self.make_external_pointer(
            offset,
            bytes.len() as u64,
            ext_hash,
        ) {
            Ok(v) => v,
            Err(e) => { return Err(e); },
        };
        let out = self.add_internal(attempt, pointer.as_slice());
        proof {
            if out is Ok {
                h.lemma_page_size_pos();
                lemma_mul_succ(q, ps);
                lemma_mul_le(0, q, ps);
                lemma_mul_le(q + 1, h.number_of_pages as int, ps);
                assert(attempt.image@.subrange(off_abs, off_abs + bytes@.len())
                    =~= mid.image@.subrange(off_abs, off_abs + bytes@.len()));
                assert(attempt.image@.subrange(q * ps + thr, q * ps + thr + pointer@.len())
                    =~= pointer@);
            }
        }
        out
    }

    /// Place a record: into the overflow region when it is longer than
    /// the external threshold, into the page heap otherwise.
    fn add_data(&mut self, attempt: &mut NCDWriteAttempt, ext_hash: u32, bytes: &[u8]) -> (r:
        Result<u64, NCDError>)
        requires
            old(attempt).wf(),
            old(attempt).header.number_of_pages > 0,
            old(self).index < old(attempt).header.number_of_pages,
            old(attempt).good() ==> (old(self).index == 0 ==> old(self).heap_threshold >= 28),
            old(attempt).good() ==> old(self).heap_threshold >= old(attempt).aux@[old(
                self,
            ).index as int],
        ensures
            final(attempt).wf(),
            final(attempt).header == old(attempt).header,
            final(attempt).aux == old(attempt).aux,
            final(attempt).threshold == old(attempt).threshold,
            final(self).index == old(self).index,
            final(self).threshold == old(self).threshold,
            final(self).heap_threshold >= old(self).heap_threshold,
            final(attempt).external_offset >= old(attempt).external_offset,
            old(attempt).good() ==> preserves_used_heap(*old(attempt), *final(attempt)),
            forall|j: int|
                0 <= j < old(attempt).header.table_size ==> #[trigger] spec_table_slot(
                    old(attempt).header,
                    final(attempt).image@,
                    old(self).index as int,
                    j,
                ) == spec_table_slot(
                    old(attempt).header,
                    old(attempt).image@,
                    old(self).index as int,
                    j,
                ),
            r is Ok ==> r->Ok_0 == old(self).heap_threshold && final(self).heap_threshold
                <= old(attempt).header.heap_size,
            r is Ok <==> spec_add_data_fits(
                old(attempt).header,
                old(attempt).external_offset,
                ext_hash,
                old(self).threshold,
                old(self).heap_threshold,
                bytes@,
            ),
            r is Ok ==> ({
                let h = old(attempt).header;
                let q = old(self).index as int;
                let thr = old(self).heap_threshold as int;
                let chosen = spec_chosen_record(
                    h,
                    old(attempt).external_offset,
                    ext_hash,
                    old(self).threshold,
                    bytes@,
                );
                &&& final(self).heap_threshold == old(self).heap_threshold + chosen.len()
                &&& final(attempt).image@.subrange(
                    q * h.spec_page_size() + thr,
                    q * h.spec_page_size() + thr + chosen.len(),
                ) == chosen
                &&& (bytes@.len() > old(self).threshold ==> final(attempt).image@.subrange(
                    h.spec_structured_size() + old(attempt).external_offset,
                    h.spec_structured_size() + old(attempt).external_offset + bytes@.len(),
                ) == bytes@ && final(attempt).external_offset == old(attempt).external_offset
                    + bytes@.len())
                &&& (bytes@.len() <= old(self).threshold ==> final(attempt).external_offset
                    == old(attempt).external_offset)
                &&& (bytes@.len() > old(self).threshold ==> final(attempt).image@.len()
                    >= h.spec_structured_size() + old(attempt).external_offset + bytes@.len())
            }),
            (r is Ok && bytes@.len() <= old(self).threshold) ==> ({
                &&& old(self).heap_threshold + bytes@.len() <= old(attempt).header.heap_size
                &&& final(attempt).image@ == spec_store(
                    old(attempt).image@,
                    old(self).index * old(attempt).header.spec_page_size()
                        + old(self).heap_threshold,
                    bytes@,
                )
            }),
            r is Err ==> (r->Err_0 is HeapFull || r->Err_0 is BadConfiguration || r->Err_0
                is CorruptNCDFile),
    {
        if bytes.len() as u64 > self.threshold {
            self.add_external(attempt, ext_hash, bytes)
        } else {
            self.add_internal(attempt, bytes)
        }
    }

    /// Probe this page's table from `hash` with linear probing and write
    /// `value` into the first unused slot; `TableFull` after a whole wrap.
    fn write_hash(&mut self, header: &NCDHeader, image: &mut Vec<u8>, hash: u32, value: u64) -> (r:
        Result<(), NCDError>)
        requires
            header.wf(),
            self.index < header.number_of_pages,
            header.table_size > 0,
            hash < header.table_size,
            old(image)@.len() >= header.spec_structured_size(),
        ensures
            *final(self) == *old(self),
            final(image)@.len() == old(image)@.len(),
            stamps_ok(old(image)@, *header) ==> stamps_ok(final(image)@, *header),
            forall|i: int|
                0 <= i < old(image)@.len() && !(old(self).index * header.spec_page_size()
                    + header.heap_size <= i < (old(self).index + 1) * header.spec_page_size()
                    - 4) ==> final(image)@[i] == old(image)@[i],
            r is Ok <==> first_unused_from(
                *header,
                old(image)@,
                old(self).index as int,
                hash as int,
                header.table_size as int,
            ) >= 0,
            r is Ok ==> ({
                let q = old(self).index as int;
                let s = first_unused_from(
                    *header,
                    old(image)@,
                    q,
                    hash as int,
                    header.table_size as int,
                );
                &&& 0 <= s < header.table_size
                &&& spec_table_slot(*header, final(image)@, q, s) == value as int % pow256(
                    header.spec_pl() as nat,
                )
                &&& forall|j: int|
                    0 <= j < header.table_size && j != s ==> #[trigger] spec_table_slot(
                        *header,
                        final(image)@,
                        q,
                        j,
                    ) == spec_table_slot(*header, old(image)@, q, j)
            }),
            r is Err ==> final(image)@ == old(image)@ && r->Err_0 is TableFull,
    {
        let ghost h = *header;
        let ghost ps = h.spec_page_size();
        let ghost q = self.index as int;
        proof {
            h.lemma_page_size_pos();
            lemma_mul_succ(q, ps);
            lemma_mul_le(0, q, ps);
            lemma_mul_le(q + 1, h.number_of_pages as int, ps);
        }
        let im_len: usize = image.len();
        let plen: usize = header.pointer_length();
        let t: u32 = header.table_size_entries();
        let table_off: u64 = header.table_offset(self.index);
        let unused: u64 = match header.unused_value() {
            Ok(v) => v,
            Err(e) => { return Err(e); },
        };
        let ghost target = first_unused_from(h, old(image)@, q, hash as int, t as int);
        let mut slot: u32 = hash;
        let mut step: u32 = 0;
        while step < t
            invariant
                step <= t,
                slot < t,
                t == h.table_size,
                plen == h.spec_pl(),
                h == *header,
                h.wf(),
                q == self.index as int,
                ps == h.spec_page_size(),
                0 <= q < h.number_of_pages,
                table_off == q * ps + h.heap_size,
                (q + 1) * ps == q * ps + ps,
                (q + 1) * ps <= h.spec_structured_size(),
                unused == pow256(h.spec_pl() as nat) - 1,
                image@ == old(image)@,
                old(image)@.len() == im_len,
                old(image)@.len() >= h.spec_structured_size(),
                target == first_unused_from(h, old(image)@, q, hash as int, t as int),
                target == first_unused_from(h, old(image)@, q, slot as int, t - step),
            decreases t - step,
        {
            proof {
                lemma_mul_succ(slot as int, h.spec_pl());
                lemma_mul_le(slot + 1, t as int, h.spec_pl());
                lemma_mul_le(1, t as int, h.spec_pl());
                lemma_mul_le(0, slot as int, h.spec_pl());
            }
            let slot_base: usize = (table_off + (slot as u64) * (plen as u64)) as usize;
            let mut entry_off: usize = slot_base;
            let ghost eoff = slot_base as int;
            let entry: u64 = match read_uvar(image.as_slice(), &mut entry_off, plen) {
                Ok(v) => v,
                Err(e) => {
                    proof {
                        assert(false);
                    }
                    return Err(e);
                },
            };
            proof {
                assert(entry == spec_table_slot(h, image@, q, slot as int));
            }
            if entry == unused {
                let mut woff: usize = slot_base;
                let rs = write_uvar(image, &mut woff, value, plen);
                proof {
                    assert(rs is Ok);
                    assert(target == slot as int);
                    lemma_le_bytes_len(value as int, plen as nat);
                    lemma_splice_is_store(old(image)@, eoff, le_bytes(value as int, plen as nat));
                    if stamps_ok(old(image)@, h) {
                        lemma_window_in_page_clear(h, q, eoff, eoff + plen);
                        lemma_stamps_preserved(
                            old(image)@,
                            h,
                            eoff,
                            le_bytes(value as int, plen as nat),
                        );
                    }
                    crate::bitbash::lemma_le_value_bytes_mod(value as int, plen as nat);
                    assert(image@.subrange(eoff, eoff + plen) =~= le_bytes(
                        value as int,
                        plen as nat,
                    ));
                    assert(spec_table_slot(h, image@, q, slot as int) == value as int % pow256(
                        h.spec_pl() as nat,
                    ));
                    assert forall|j: int|
                        0 <= j < h.table_size && j != slot as int implies #[trigger] spec_table_slot(
                        h,
                        image@,
                        q,
                        j,
                    ) == spec_table_slot(h, old(image)@, q, j) by {
                        lemma_mul_succ(j, h.spec_pl());
                        lemma_mul_le(0, j, h.spec_pl());
                        lemma_mul_le(j + 1, t as int, h.spec_pl());
                        if j < slot as int {
                            lemma_mul_le(j + 1, slot as int, h.spec_pl());
                        } else {
                            lemma_mul_le(slot + 1, j, h.spec_pl());
                        }
                        assert(image@.subrange(
                            q * ps + h.heap_size + j * h.spec_pl(),
                            q * ps + h.heap_size + j * h.spec_pl() + h.spec_pl(),
                        ) =~= old(image)@.subrange(
                            q * ps + h.heap_size + j * h.spec_pl(),
                            q * ps + h.heap_size + j * h.spec_pl() + h.spec_pl(),
                        ));
                    }
                }
                return Ok(());
            }
            step = step + 1;
            slot = if slot + 1 == t {
                0
            } else {
                slot + 1
            };
        }
        proof {
            assert(target == -1);
        }
        Err(NCDError::TableFull)
    }

    /// Place one serialized record for this page and point a table slot
    /// at it, then write the page's bookkeeping back into the attempt.
    fn add(&mut self, attempt: &mut NCDWriteAttempt, slot_hash: u32, ext_hash: u32, bytes: &[u8]) -> (r:
        Result<(), NCDError>)
        requires
            old(attempt).wf(),
            old(attempt).header.number_of_pages > 0,
            old(attempt).header.table_size > 0,
            slot_hash < old(attempt).header.table_size,
            old(self).index < old(attempt).header.number_of_pages,
            old(self).heap_threshold == old(attempt).aux@[old(self).index as int],
        ensures
            final(attempt).wf(),
            final(attempt).header == old(attempt).header,
            final(attempt).threshold == old(attempt).threshold,
            final(attempt).external_offset >= old(attempt).external_offset,
            (r is Ok && bytes@.len() <= old(self).threshold) ==> ({
                let h = old(attempt).header;
                let q = old(self).index as int;
                let thr = old(self).heap_threshold as int;
                &&& thr + bytes@.len() <= h.heap_size
                &&& final(attempt).image@.subrange(
                    q * h.spec_page_size() + thr,
                    q * h.spec_page_size() + thr + bytes@.len(),
                ) == bytes@
            }),
            r is Ok <==> (spec_add_data_fits(
                old(attempt).header,
                old(attempt).external_offset,
                ext_hash,
                old(self).threshold,
                old(self).heap_threshold,
                bytes@,
            ) && first_unused_from(
                old(attempt).header,
                old(attempt).image@,
                old(self).index as int,
                slot_hash as int,
                old(attempt).header.table_size as int,
            ) >= 0),
            r is Ok ==> ({
                let h = old(attempt).header;
                let q = old(self).index as int;
                let thr = old(self).heap_threshold as int;
                let chosen = spec_chosen_record(
                    h,
                    old(attempt).external_offset,
                    ext_hash,
                    old(self).threshold,
                    bytes@,
                );
                let s = first_unused_from(
                    h,
                    old(attempt).image@,
                    q,
                    slot_hash as int,
                    h.table_size as int,
                );
                &&& final(attempt).image@.subrange(
                    q * h.spec_page_size() + thr,
                    q * h.spec_page_size() + thr + chosen.len(),
                ) == chosen
                &&& (bytes@.len() > old(self).threshold ==> final(attempt).image@.subrange(
                    h.spec_structured_size() + old(attempt).external_offset,
                    h.spec_structured_size() + old(attempt).external_offset + bytes@.len(),
                ) == bytes@ && final(attempt).external_offset == old(attempt).external_offset
                    + bytes@.len())
                &&& (bytes@.len() <= old(self).threshold ==> final(attempt).external_offset
                    == old(attempt).external_offset)
                &&& 0 <= s < h.table_size
                &&& spec_table_slot(h, final(attempt).image@, q, s) == thr as int % pow256(
                    h.spec_pl() as nat,
                )
                &&& forall|j: int|
                    0 <= j < h.table_size && j != s ==> #[trigger] spec_table_slot(
                        h,
                        final(attempt).image@,
                        q,
                        j,
                    ) == spec_table_slot(h, old(attempt).image@, q, j)
                &&& final(attempt).aux@.len() == old(attempt).aux@.len()
                &&& final(attempt).aux@[q] == thr + chosen.len()
                &&& forall|p: int|
                    0 <= p < old(attempt).aux@.len() && p != q
                        ==> #[trigger] final(attempt).aux@[p] == old(attempt).aux@[p]
            }),
            old(attempt).good() ==> ({
                &&& forall|p: int, i: int|
                    #![trigger in_used_heap(old(attempt).header, old(attempt).aux@, p, i)]
                    in_used_heap(old(attempt).header, old(attempt).aux@, p, i)
                        && i < old(attempt).image@.len()
                        ==> final(attempt).image@[i] == old(attempt).image@[i]
                &&& forall|p: int|
                    0 <= p < old(attempt).header.number_of_pages
                        ==> #[trigger] final(attempt).aux@[p] >= old(attempt).aux@[p]
            }),
            r is Err ==> (r->Err_0 is HeapFull || r->Err_0 is TableFull || r->Err_0
                is BadConfiguration || r->Err_0 is CorruptNCDFile),
    {
        let ghost pre = *old(attempt);
        let offset: u64 = match self.add_data(attempt, ext_hash, bytes) {
            Ok(v) => v,
            Err(e) => {
                proof {
                    if spec_add_data_fits(
                        pre.header,
                        pre.external_offset,
                        ext_hash,
                        old(self).threshold,
                        old(self).heap_threshold,
                        bytes@,
                    ) {
                        assert(false);
                    }
                }
                return Err(e);
            },
        };
        let ghost mid = *attempt;
        let header: NCDHeader = attempt.header;
        let wh = self.write_hash(&header, &mut attempt.image, slot_hash, offset);
        proof {
            let h = attempt.header;
            let ps = h.spec_page_size();
            let q = old(self).index as int;
            let thr = old(self).heap_threshold as int;
            let chosen = spec_chosen_record(
                h,
                pre.external_offset,
                ext_hash,
                old(self).threshold,
                bytes@,
            );
            h.lemma_page_size_pos();
            lemma_mul_le(0, q, ps);
            lemma_mul_succ(q, ps);
            lemma_mul_le(q + 1, h.number_of_pages as int, ps);
            assert forall|j: int|
                0 <= j < h.table_size implies #[trigger] spec_table_slot(h, mid.image@, q, j)
                == spec_table_slot(h, pre.image@, q, j) by {
                assert(spec_table_slot(pre.header, mid.image@, q, j) == spec_table_slot(
                    pre.header,
                    pre.image@,
                    q,
                    j,
                ));
            }
            lemma_first_unused_congruent(
                h,
                mid.image@,
                pre.image@,
                q,
                slot_hash as int,
                h.table_size as int,
            );
            if mid.good() {
                lemma_mul_le(1, h.number_of_pages as int, ps);
                assert(attempt.image@.subrange(0, 28) =~= mid.image@.subrange(0, 28));
            }
            if wh is Ok {
                assert(mid.image@.subrange(q * ps + thr, q * ps + thr + chosen.len())
                    =~= chosen);
                assert(attempt.image@.subrange(q * ps + thr, q * ps + thr + chosen.len())
                    =~= chosen);
                if bytes@.len() > old(self).threshold {
                    let lo = h.spec_structured_size() + pre.external_offset;
                    assert(mid.image@.len() >= lo + bytes@.len());
                    assert(mid.image@.subrange(lo, lo + bytes@.len()) =~= bytes@);
                    assert forall|i: int|
                        lo <= i < lo + bytes@.len() implies attempt.image@[i]
                        == mid.image@[i] by {
                        assert(i < mid.image@.len());
                        assert(i >= (q + 1) * ps);
                    }
                    assert(attempt.image@.subrange(lo, lo + bytes@.len()) =~= bytes@);
                }
                if bytes@.len() <= old(self).threshold {
                    assert(mid.image@.subrange(q * ps + thr, q * ps + thr + bytes@.len())
                        =~= bytes@);
                    assert(attempt.image@.subrange(q * ps + thr, q * ps + thr + bytes@.len())
                        =~= bytes@);
                }
            }
        }
        match wh {
            Ok(()) => {},
            Err(e) => { return Err(e); },
        }
        let aux_len: usize = attempt.aux.len();
        let ghost before_aux = attempt.aux@;
        attempt.aux.set(self.index as usize, self.heap_threshold);
        proof {
            let h = attempt.header;
            let q = self.index as int;
            assert forall|p: int| 0 <= p < h.number_of_pages implies #[trigger] attempt.aux@[p]
                <= 28 + h.heap_size by {
                if p != q {
                    assert(attempt.aux@[p] == before_aux[p]);
                }
            }
            if attempt.good() {
                assert forall|p: int| 0 <= p < h.number_of_pages implies #[trigger] attempt.aux@[p]
                    <= h.heap_size by {
                    if p != q {
                        assert(attempt.aux@[p] == before_aux[p]);
                    }
                }
            }
            assert(attempt.wf());
            let pre = *old(attempt);
            let ps = h.spec_page_size();
            if pre.good() {
                h.lemma_page_size_pos();
                assert forall|p: int, i: int|
                    #![trigger in_used_heap(pre.header, pre.aux@, p, i)]
                    in_used_heap(pre.header, pre.aux@, p, i) && i < pre.image@.len() implies
                    attempt.image@[i] == pre.image@[i] by {
                    lemma_mul_succ(p, ps);
                    lemma_mul_succ(q, ps);
                    lemma_mul_le(0, p, ps);
                    if p < q {
                        lemma_mul_le(p + 1, q, ps);
                    } else if p > q {
                        lemma_mul_le(q + 1, p, ps);
                    }
                    assert(mid.image@[i] == pre.image@[i]);
                    assert(attempt.image@[i] == mid.image@[i]);
                }
                assert forall|p: int|
                    0 <= p < h.number_of_pages implies #[trigger] attempt.aux@[p]
                    >= pre.aux@[p] by {
                    if p != q {
                        assert(attempt.aux@[p] == before_aux[p]);
                    }
                }
            }
        }
        Ok(())
    }
}

/// When adding a pair succeeds: the file has pages and slots, the record
/// is buildable, the chosen record fits the hashed page's heap, and that
/// page's probe sequence still has an unused slot.
pub open spec fn spec_add_ok(a: NCDWriteAttempt, key: Seq<u8>, value: Seq<u8>) -> bool {
    let h = a.header;
    let hash = hash_of(key);
    let q = h.spec_hash_page_index(hash);
    let rec = internal_record_enc(key, value);
    &&& h.table_size > 0
    &&& h.number_of_pages > 0
    &&& value.len() <= usize::MAX - 2 * MAX_LESQLITE2_BYTES
    &&& key.len() <= usize::MAX - 2 * MAX_LESQLITE2_BYTES - value.len()
    &&& spec_add_data_fits(
        h,
        a.external_offset,
        h.spec_hash_ext(hash) as u32,
        a.threshold,
        a.aux@[q],
        rec,
    )
    &&& first_unused_from(
        h,
        a.image@,
        q,
        h.spec_hash_page_slot(hash),
        h.table_size as int,
    ) >= 0
}

/// What adding a pair did: the chosen record (the serialized pair, or an
/// external pointer record carrying the pair's hash residue while the
/// pair itself went to the overflow region) stands at the page's old
/// cursor, the first unused probed slot now points at it, and only that
/// page's cursor moved.
pub open spec fn spec_add_effect(
    pre: NCDWriteAttempt,
    post: NCDWriteAttempt,
    key: Seq<u8>,
    value: Seq<u8>,
) -> bool {
    let h = pre.header;
    let hash = hash_of(key);
    let q = h.spec_hash_page_index(hash);
    let thr = pre.aux@[q] as int;
    let rec = internal_record_enc(key, value);
    let eh = h.spec_hash_ext(hash) as u32;
    let chosen = spec_chosen_record(h, pre.external_offset, eh, pre.threshold, rec);
    let s = first_unused_from(h, pre.image@, q, h.spec_hash_page_slot(hash), h.table_size as int);
    &&& thr + chosen.len() <= h.heap_size
    &&& post.image@.subrange(
        q * h.spec_page_size() + thr,
        q * h.spec_page_size() + thr + chosen.len(),
    ) == chosen
    &&& (rec.len() > pre.threshold ==> post.image@.subrange(
        h.spec_structured_size() + pre.external_offset,
        h.spec_structured_size() + pre.external_offset + rec.len(),
    ) == rec && post.external_offset == pre.external_offset + rec.len())
    &&& (rec.len() <= pre.threshold ==> post.external_offset == pre.external_offset)
    &&& 0 <= s < h.table_size
    &&& spec_table_slot(h, post.image@, q, s) == thr % pow256(h.spec_pl() as nat)
    &&& forall|j: int|
        0 <= j < h.table_size && j != s ==> #[trigger] spec_table_slot(h, post.image@, q, j)
            == spec_table_slot(h, pre.image@, q, j)
    &&& post.aux@.len() == pre.aux@.len()
    &&& post.aux@[q] == thr + chosen.len()
    &&& forall|p: int|
        0 <= p < pre.aux@.len() && p != q ==> #[trigger] post.aux@[p] == pre.aux@[p]
}

impl NCDWriteAttempt {
    /// Start an attempt for `header`: allocate the structured region,
    /// write the header, blank every table, and stamp every page.
    /// Records longer than `threshold` bytes will go external.
    pub fn new(header: &NCDHeader, threshold: u64) -> (r: Result<NCDWriteAttempt, NCDError>)
        requires
            header.wf(),
        ensures
            r is Ok <==> header.spec_structured_size() <= usize::MAX,
            r is Ok ==> ({
                let a = r->Ok_0;
                &&& a.wf()
                &&& a.header == *header
                &&& a.threshold == threshold
                &&& a.external_offset == 0
                &&& (header.number_of_pages > 0 ==> a.aux@[0] == 28)
                &&& forall|p: int| 1 <= p < header.number_of_pages ==> #[trigger] a.aux@[p] == 0
                &&& forall|p: int, s: int|
                    0 <= p < header.number_of_pages && 0 <= s < header.table_size
                        ==> #[trigger] slot_unused(*header, a.image@, p, s)
                &&& forall|p: int, j: int|
                    #![trigger a.image@[p * header.spec_page_size() + j]]
                    0 <= p < header.number_of_pages && 0 <= j < header.heap_size && p
                        * header.spec_page_size() + j >= 28 ==> a.image@[p
                        * header.spec_page_size() + j] == 0
            }),
            r is Err ==> r->Err_0 is BadConfiguration,
    {
        let structured: u64 = header.structured_size();
        if structured > usize::MAX as u64 {
            return Err(NCDError::BadConfiguration("image too large".to_owned()));
        }
        let mut image: Vec<u8> = zero_vec(structured as usize);
        let header_bytes: Vec<u8> = header.to_bytes();
        let rs = store_bytes_at(&mut image, 0, header_bytes.as_slice());
        proof {
            assert(rs is Ok);
        }
        let ghost header_stored = image@;
        let rb = write_blank_tables(header, &mut image);
        proof {
            assert(rb is Ok);
        }
        let n: u64 = header.number_of_pages();
        proof {
            header.lemma_page_size_pos();
            assert(4 * (n as int) <= header.spec_structured_size()) by (nonlinear_arith)
                requires
                    header.spec_page_size() >= 4,
                    header.spec_structured_size() == n * header.spec_page_size(),
                    n >= 0,
            {
            }
        }
        let n_us: usize = n as usize;
        let mut aux: Vec<u64> = Vec::new();
        let mut i: usize = 0;
        while i < n_us
            invariant
                i <= n_us,
                aux@.len() == i,
                forall|j: int| 0 <= j < i ==> aux@[j] == 0u64,
            decreases n_us - i,
        {
            aux.push(0);
            i = i + 1;
        }
        if n_us > 0 {
            aux.set(0, HEADER_SIZE as u64);
        }
        let out = NCDWriteAttempt {
            header: *header,
            image,
            aux,
            external_offset: 0,
            threshold,
        };
        proof {
            let h = *header;
            assert(out.aux@.len() == h.number_of_pages);
            assert(out.image@.len() >= h.spec_structured_size());
            assert(forall|p: int|
                0 <= p < h.number_of_pages ==> #[trigger] out.aux@[p] <= 28 + h.heap_size);
            if out.good() {
                h.lemma_page_size_pos();
                lemma_mul_le(1, h.number_of_pages as int, h.spec_page_size());
                assert(h.spec_structured_size() >= h.spec_page_size());
                assert(out.image@.len() == h.spec_structured_size());
                assert(out.image@.subrange(0, 28) =~= header_bytes@);
                assert(stamps_ok(out.image@, h));
                assert(forall|p: int|
                    0 <= p < h.number_of_pages ==> #[trigger] out.aux@[p] <= h.heap_size);
                assert(out.aux@[0] >= 28);
            }
            if h.number_of_pages == 0 {
                assert(h.spec_structured_size() == 0) by (nonlinear_arith)
                    requires
                        h.spec_structured_size() == h.number_of_pages * h.spec_page_size(),
                        h.number_of_pages == 0,
                {
                }
            }
            assert(out.wf());
            let ps = h.spec_page_size();
            h.lemma_page_size_pos();
            assert forall|p: int, j: int|
                #![trigger out.image@[p * ps + j]]
                0 <= p < h.number_of_pages && 0 <= j < h.heap_size && p * ps + j
                    >= 28 implies out.image@[p * ps + j] == 0 by {
                lemma_mul_le(0, p, ps);
                lemma_mul_succ(p, ps);
                lemma_mul_le(p + 1, h.number_of_pages as int, ps);
                let x = p * ps + j;
                assert(x < h.spec_structured_size());
                assert(image@[x] == header_stored[x]);
                assert(header_stored[x] == 0);
            }
        }
        Ok(out)
    }

    /// Add one key/value pair: serialize the internal record, pick the
    /// page by hash, place the record (externally if oversized), and
    /// point a table slot at it.
    pub fn add(&mut self, key: &[u8], value: &[u8]) -> (r: Result<(), NCDError>)
        requires
            old(self).wf(),
        ensures
            final(self).wf(),
            final(self).header == old(self).header,
            final(self).threshold == old(self).threshold,
            final(self).external_offset >= old(self).external_offset,
            old(self).good() ==> ({
                &&& preserves_used_heap(*old(self), *final(self))
                &&& forall|p: int|
                    0 <= p < old(self).header.number_of_pages
                        ==> #[trigger] final(self).aux@[p] >= old(self).aux@[p]
            }),
            r is Ok <==> spec_add_ok(*old(self), key@, value@),
            r is Ok ==> spec_add_effect(*old(self), *final(self), key@, value@),
            r is Err ==> (r->Err_0 is HeapFull || r->Err_0 is TableFull || r->Err_0
                is BadConfiguration || r->Err_0 is CorruptNCDFile),
    {
        let hash: u64 = match compute_hash(key) {
            Ok(h) => h,
            Err(_) => {
                return Err(NCDError::BadConfiguration("hashing failed".to_owned()));
            },
        };
        let t: u32 = self.header.table_size_entries();
        let n: u64 = self.header.number_of_pages();
        if t == 0 || n == 0 {
            return Err(NCDError::BadConfiguration("no table space".to_owned()));
        }
        let page_hash: u64 = self.header.hash_page_index(hash);
        if value.len() > usize::MAX - 2 * MAX_LESQLITE2_BYTES || key.len() > usize::MAX - 2
            * MAX_LESQLITE2_BYTES - value.len() {
            return Err(NCDError::BadConfiguration("record too large".to_owned()));
        }
        let record: Vec<u8> = make_internal_record(key, value);
        let entry: &[u8] = record.as_slice();
        let mut page_writer = NCDPageWriter::new(&self.aux, page_hash, self.threshold);
        let slot_hash: u32 = self.header.hash_page_slot(hash);
        let ext_hash: u32 = self.header.hash_ext(hash);
        let out = page_writer.add(self, slot_hash, ext_hash, entry);
        proof {
            if out is Ok {
                assert(spec_add_effect(*old(self), *self, key@, value@));
            }
        }
        match out {
            Ok(()) => Ok(()),
            Err(e) => Err(e),
        }
    }

    /// Stream every pair of the source into the file image.
    pub fn add_all<S: NCDValueSource>(&mut self, source: &S) -> (r: Result<(), NCDError>)
        requires
            old(self).wf(),
        ensures
            final(self).wf(),
            final(self).header == old(self).header,
            final(self).threshold == old(self).threshold,
            old(self).good() ==> ({
                &&& preserves_used_heap(*old(self), *final(self))
                &&& forall|p: int|
                    0 <= p < old(self).header.number_of_pages
                        ==> #[trigger] final(self).aux@[p] >= old(self).aux@[p]
            }),
            r is Err ==> (r->Err_0 is HeapFull || r->Err_0 is TableFull || r->Err_0
                is BadConfiguration || r->Err_0 is CorruptNCDFile || r->Err_0 is IOError),
    {
        let pairs: Vec<(Vec<u8>, Vec<u8>)> = match wrap_io_error(source.pairs()) {
            Ok(p) => p,
            Err(e) => { return Err(e); },
        };
        let count: usize = pairs.len();
        let mut i: usize = 0;
        while i < count
            invariant
                i <= count,
                count == pairs@.len(),
                old(self).wf(),
                self.wf(),
                self.header == old(self).header,
                self.threshold == old(self).threshold,
                self.external_offset >= old(self).external_offset,
                old(self).good() ==> ({
                    &&& preserves_used_heap(*old(self), *self)
                    &&& forall|p: int|
                        0 <= p < old(self).header.number_of_pages
                            ==> #[trigger] self.aux@[p] >= old(self).aux@[p]
                }),
            decreases count - i,
        {
            let ghost before = *self;
            let pair: &(Vec<u8>, Vec<u8>) = vstd::slice::slice_index_get(pairs.as_slice(), i);
            match self.add(pair.0.as_slice(), pair.1.as_slice()) {
                Ok(()) => {},
                Err(e) => {
                    proof {
                        if old(self).good() {
                            lemma_used_heap_chain(*old(self), before, *self);
                        }
                    }
                    return Err(e);
                },
            }
            proof {
                if old(self).good() {
                    lemma_used_heap_chain(*old(self), before, *self);
                }
            }
            i = i + 1;
        }
        Ok(())
    }

    /// Hand the finished file image over.
    pub fn into_image(self) -> (r: Vec<u8>)
        ensures
            r == self.image,
    {
        self.image
    }
}

/// Serialize one key/value pair as an internal entry record: the key
/// length plus one, the key, the value length, the value.
pub fn make_internal_record(key: &[u8], value: &[u8]) -> (r: Vec<u8>)
    requires
        key@.len() + value@.len() + 2 * MAX_LESQLITE2_BYTES <= usize::MAX,
    ensures
        r@ == internal_record_enc(key@, value@),
{
    let cap: usize = key.len() + value.len() + 2 * MAX_LESQLITE2_BYTES;
    let mut record: Vec<u8> = zero_vec(cap);
    let mut start: usize = 0;
    proof {
        reveal_with_fuel(pow256, 9);
        lemma_lesqlite2_enc_len(key@.len() + 1 as int);
        lemma_lesqlite2_enc_len(value@.len() as int);
    }
    let r1 = lesqlite2_write(&mut record, &mut start, key.len() as u64 + 1);
    proof {
        assert(r1 is Ok);
    }
    let r2 = write_bytes(&mut record, &mut start, key);
    proof {
        assert(r2 is Ok);
    }
    let r3 = lesqlite2_write(&mut record, &mut start, value.len() as u64);
    proof {
        assert(r3 is Ok);
    }
    let r4 = write_bytes(&mut record, &mut start, value);
    proof {
        assert(r4 is Ok);
    }
    let out = slice_to_vec(slice_subrange(record.as_slice(), 0, start));
    proof {
        assert(out@ =~= internal_record_enc(key@, value@));
    }
    out
}

/// Preservation of the already-written heaps composes across two steps
/// whose cursors only grew.
pub proof fn lemma_used_heap_chain(base: NCDWriteAttempt, mid: NCDWriteAttempt, post: NCDWriteAttempt)
    requires
        base.good(),
        base.wf(),
        mid.wf(),
        mid.header == base.header,
        post.header == base.header,
        mid.external_offset >= base.external_offset,
        preserves_used_heap(base, mid),
        forall|p: int|
            0 <= p < base.header.number_of_pages ==> #[trigger] mid.aux@[p] >= base.aux@[p],
        preserves_used_heap(mid, post),
        forall|p: int|
            0 <= p < base.header.number_of_pages ==> #[trigger] post.aux@[p] >= mid.aux@[p],
    ensures
        preserves_used_heap(base, post),
        forall|p: int|
            0 <= p < base.header.number_of_pages ==> #[trigger] post.aux@[p] >= base.aux@[p],
{
    let h = base.header;
    assert forall|p: int, i: int|
        #![trigger in_used_heap(h, base.aux@, p, i)]
        in_used_heap(h, base.aux@, p, i) && i < base.image@.len() implies post.image@[i]
        == base.image@[i] by {
        assert(mid.aux@[p] >= base.aux@[p]);
        assert(in_used_heap(h, mid.aux@, p, i));
        assert(mid.image@[i] == base.image@[i]);
        assert(base.image@.len() == h.spec_structured_size() + base.external_offset);
        assert(mid.image@.len() == h.spec_structured_size() + mid.external_offset);
        assert(i < mid.image@.len());
        assert(post.image@[i] == mid.image@[i]);
    }
    assert forall|p: int|
        0 <= p < h.number_of_pages implies #[trigger] post.aux@[p] >= base.aux@[p] by {
        assert(mid.aux@[p] >= base.aux@[p]);
    }
}

/// The serialized external pointer record for an overflow record at
/// absolute offset `o` with length `l` and hash residue `h`.
pub open spec fn ext_record_enc(o: int, l: int, h: int) -> Seq<u8> {
    seq![0u8] + lesqlite2_enc(o) + lesqlite2_enc(l) + le_bytes(h, 4)
}

/// The serialized internal record for a key/value pair.
pub open spec fn internal_record_enc(key: Seq<u8>, value: Seq<u8>) -> Seq<u8> {
    lesqlite2_enc(key.len() + 1 as int) + key + lesqlite2_enc(value.len() as int) + value
}

} // verus!
