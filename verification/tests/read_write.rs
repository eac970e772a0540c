use std::cell::RefCell;
use std::collections::HashMap;
use std::rc::Rc;

use ncd::{
    NCDError, NCDFileReader, NCDHashMapValueSource, NCDHashMapValueSourceIterator, NCDHeader,
    NCDLookupResult, NCDReadAccessor, NCDValueSource, NCDWriteAttempt, VecNCDReadAccessor,
    wrap_io_error, HEADER_SIZE,
};

fn numeric_key_values(limit: u32) -> HashMap<Vec<u8>, Vec<u8>> {
    let mut out = HashMap::new();
    for i in 0..limit {
        let k = format!("{}", i).as_bytes().to_vec();
        let v = if i % 10 == 0 {
            format!("----------{}----------", limit - i).as_bytes().to_vec()
        } else {
            format!("{}", limit - i).as_bytes().to_vec()
        };
        out.insert(k, v);
    }
    out
}

const COUNT: u32 = 1000;

fn build_image(
    header: &NCDHeader,
    threshold: u64,
    kv: &HashMap<Vec<u8>, Vec<u8>>,
) -> Result<Vec<u8>, NCDError> {
    let mut writer = NCDWriteAttempt::new(header, threshold)?;
    let source = NCDHashMapValueSource::new(kv.clone());
    writer.add_all(&source)?;
    Ok(writer.into_image())
}

fn do_file_write_smoke() -> Result<(), NCDError> {
    for size in &[None, Some(2), Some(4)] {
        let header = NCDHeader::new(64, 512 - 64, 64, *size, 0x12345678)?;
        let kv = numeric_key_values(COUNT);
        let image = build_image(&header, 10, &kv)?;
        let mut reader = NCDFileReader::new(VecNCDReadAccessor::new(image))?;
        let mut k_sorted = kv.keys().collect::<Vec<_>>();
        k_sorted.sort();
        for k in k_sorted.iter() {
            let v = kv.get(*k).unwrap().to_vec();
            let value = reader.lookup(k)?;
            assert_eq!(Some(v), value);
        }
    }
    Ok(())
}

#[test]
fn file_write_smoke() {
    do_file_write_smoke().unwrap();
}

fn do_file_write_big_zero_smoke() -> Result<(), NCDError> {
    for size in &[None, Some(2), Some(4)] {
        let header = NCDHeader::new(64, 512 - 64, 64, *size, 0x12345678)?;
        let image = build_image(&header, 10, &numeric_key_values(0))?;
        let mut reader = NCDFileReader::new(VecNCDReadAccessor::new(image))?;
        let kv = numeric_key_values(COUNT);
        for k in kv.keys() {
            let value = reader.lookup(k)?;
            assert_eq!(None, value);
        }
    }
    Ok(())
}

fn do_file_write_small_zero_smoke() -> Result<(), NCDError> {
    for size in &[None, Some(2), Some(4)] {
        let header = NCDHeader::new(0, 0, 0, *size, 0x12345678)?;
        let image = build_image(&header, 10, &numeric_key_values(0))?;
        let mut reader = NCDFileReader::new(VecNCDReadAccessor::new(image))?;
        let kv = numeric_key_values(COUNT);
        for k in kv.keys() {
            let value = reader.lookup(k)?;
            assert_eq!(None, value);
        }
    }
    Ok(())
}

#[test]
fn file_write_big_zero_smoke() {
    do_file_write_big_zero_smoke().unwrap();
}

#[test]
fn file_write_small_zero_smoke() {
    do_file_write_small_zero_smoke().unwrap();
}

/// The first four bytes of any built file are the little-endian magic.
#[test]
fn test_magic_layout() {
    let header = NCDHeader::new(4, 256, 16, None, 7).unwrap();
    let image = build_image(&header, 16, &numeric_key_values(20)).unwrap();
    assert_eq!(0xFE, image[0]);
    assert_eq!(0xC0, image[1]);
    assert_eq!(0x00, image[2]);
    assert_eq!(0x4E, image[3]);
    let page_size = header.page_size() as u64;
    assert!(page_size * header.number_of_pages() <= image.len() as u64);
}

/// Every page of a built file carries the header stamp in its last 4 bytes.
#[test]
fn test_stamp_consistency() {
    let stamp: u32 = 0xDEADBEEF;
    let header = NCDHeader::new(6, 300, 20, None, stamp).unwrap();
    let image = build_image(&header, 20, &numeric_key_values(50)).unwrap();
    for p in 0..header.number_of_pages() {
        let off = header.stamp_offset(p) as usize;
        let got = u32::from_le_bytes([image[off], image[off + 1], image[off + 2], image[off + 3]]);
        assert_eq!(stamp, got);
    }
}

/// Header parsing rejects a tampered magic, version or geometry.
#[test]
fn test_header_corruption() {
    let header = NCDHeader::new(2, 100, 8, None, 1).unwrap();
    let good = header.to_bytes();
    assert!(NCDHeader::parse(&good).is_ok());
    let mut bad_magic = good.clone();
    bad_magic[0] = 0x00;
    match NCDHeader::parse(&bad_magic) {
        Err(NCDError::CorruptNCDFile(_)) => {},
        _ => assert!(false),
    }
    let mut bad_version = good.clone();
    bad_version[4] = 9;
    match NCDHeader::parse(&bad_version) {
        Err(NCDError::CorruptNCDFile(_)) => {},
        _ => assert!(false),
    }
    match NCDHeader::parse(&good[0..20]) {
        Err(NCDError::CorruptNCDFile(_)) => {},
        _ => assert!(false),
    }
}

/// A value at least a tenth of the heap is stored externally: its on-page
/// record starts with a zero tag, and it still reads back.
#[test]
fn test_external_entries() {
    let heap_size: u32 = 300;
    let header = NCDHeader::new(1, heap_size, 8, None, 3).unwrap();
    let threshold = (heap_size / 10) as u64;
    let mut kv = HashMap::new();
    let big_value = vec![7u8; 120];
    kv.insert(b"big".to_vec(), big_value.clone());
    let image = build_image(&header, threshold, &kv).unwrap();
    let mut reader = NCDFileReader::new(VecNCDReadAccessor::new(image)).unwrap();
    let page = reader.page(0).unwrap();
    let mut found_external = false;
    for slot in 0..8 {
        match page.lookup(slot).unwrap() {
            NCDLookupResult::External(_, _, _) => {
                found_external = true;
            },
            NCDLookupResult::Empty => {},
            NCDLookupResult::Internal(_, _) => {
                assert!(false);
            },
        }
    }
    assert!(found_external);
    assert_eq!(Some(big_value), reader.lookup(b"big").unwrap());
}

/// An accessor that counts its reads, to observe which bytes a lookup
/// touches.
struct CountingAccessor {
    data: Vec<u8>,
    reads: usize,
}

impl NCDReadAccessor for CountingAccessor {
    fn read(&mut self, offset: u64, length: u64) -> Result<Vec<u8>, std::io::Error> {
        self.reads += 1;
        let start = (offset as usize).min(self.data.len());
        let end = (start + length as usize).min(self.data.len());
        Ok(self.data[start..end].to_vec())
    }
}

/// A lookup reads one page, plus one overflow range when the match is
/// external, and nothing else.
#[test]
fn test_page_independence() {
    let kv = numeric_key_values(100);
    let header = NCDHeader::new(8, 1024, 32, None, 5).unwrap();
    let image = build_image(&header, 1000, &kv).unwrap();
    let mut reader =
        NCDFileReader::new(CountingAccessor { data: image.clone(), reads: 0 }).unwrap();
    assert_eq!(1, reader.accessor().reads);
    let v = reader.lookup(b"17").unwrap();
    assert!(v.is_some());
    assert_eq!(2, reader.accessor().reads);
    // an external entry needs exactly one more read
    let mut kv2 = HashMap::new();
    kv2.insert(b"big".to_vec(), vec![9u8; 200]);
    let header2 = NCDHeader::new(1, 300, 8, None, 5).unwrap();
    let image2 = build_image(&header2, 30, &kv2).unwrap();
    let mut reader2 =
        NCDFileReader::new(CountingAccessor { data: image2, reads: 0 }).unwrap();
    assert_eq!(1, reader2.accessor().reads);
    let v2 = reader2.lookup(b"big").unwrap();
    assert!(v2.is_some());
    assert_eq!(3, reader2.accessor().reads);
}

/// An accessor over an image that can be swapped out underneath the
/// reader, as a file rewritten in place would be.
struct SharedAccessor {
    data: Rc<RefCell<Vec<u8>>>,
}

impl NCDReadAccessor for SharedAccessor {
    fn read(&mut self, offset: u64, length: u64) -> Result<Vec<u8>, std::io::Error> {
        let data = self.data.borrow();
        let start = (offset as usize).min(data.len());
        let end = (start + length as usize).min(data.len());
        Ok(data[start..end].to_vec())
    }
}

fn smoke_map() -> HashMap<Vec<u8>, Vec<u8>> {
    let mut kv = HashMap::new();
    kv.insert(b"hello".to_vec(), b"world".to_vec());
    kv.insert(b"goodbye".to_vec(), b"mars".to_vec());
    kv.insert(b"e".to_vec(), b"f".to_vec());
    kv
}

fn do_test_stamp_change(
    update_table: bool,
    update_header: bool,
    success: bool,
) -> Result<(), NCDError> {
    let header = NCDHeader::new(1, 400, 16, Some(4), 0x1111)?;
    let image = build_image(&header, 40, &smoke_map())?;
    let shared = Rc::new(RefCell::new(image));
    let mut reader = NCDFileReader::new(SharedAccessor { data: shared.clone() })?;
    if update_header {
        let new_header = NCDHeader::new(
            header.number_of_pages(),
            header.heap_size(),
            header.table_size_entries(),
            Some(4),
            12345,
        )?;
        let bytes = new_header.to_bytes();
        shared.borrow_mut()[0..HEADER_SIZE].copy_from_slice(&bytes);
    }
    if update_table {
        let off = header.stamp_offset(0) as usize;
        shared.borrow_mut()[off..off + 4].copy_from_slice(&12345u32.to_le_bytes());
    }
    let v = reader.get(b"hello");
    println!("{:?}", v);
    let ok = match reader.get(b"1") {
        Ok(_) => success,
        Err(NCDError::WrongStamp) => !success,
        _ => false,
    };
    assert!(ok);
    Ok(())
}

#[test]
fn test_stamp_change() {
    do_test_stamp_change(false, false, true).unwrap();
    do_test_stamp_change(true, false, false).unwrap();
    do_test_stamp_change(true, true, true).unwrap();
}

/// Build file A, open a reader, replace the bytes with file B (other
/// data, other stamp): `get` serves B's data after recovering, and keys
/// only in A are gone.
#[test]
fn test_stamp_race() {
    let header_a = NCDHeader::new(2, 400, 16, Some(4), 0x1111).unwrap();
    let mut kv_a = HashMap::new();
    kv_a.insert(b"only-in-a".to_vec(), b"1".to_vec());
    kv_a.insert(b"shared".to_vec(), b"from-a".to_vec());
    let image_a = build_image(&header_a, 40, &kv_a).unwrap();

    let header_b = NCDHeader::new(3, 500, 24, Some(4), 0x2222).unwrap();
    let mut kv_b = HashMap::new();
    kv_b.insert(b"only-in-b".to_vec(), b"2".to_vec());
    kv_b.insert(b"shared".to_vec(), b"from-b".to_vec());
    let image_b = build_image(&header_b, 50, &kv_b).unwrap();

    let shared = Rc::new(RefCell::new(image_a));
    let mut reader = NCDFileReader::new(SharedAccessor { data: shared.clone() }).unwrap();
    assert_eq!(Some(b"from-a".to_vec()), reader.get(b"shared").unwrap());

    *shared.borrow_mut() = image_b;
    assert_eq!(Some(b"2".to_vec()), reader.get(b"only-in-b").unwrap());
    assert_eq!(Some(b"from-b".to_vec()), reader.get(b"shared").unwrap());
    assert_eq!(None, reader.get(b"only-in-a").unwrap());
}

/// The smoke scenario: three pairs built with the default configuration.
#[test]
fn test_smoke_lookup() {
    let kv = smoke_map();
    let source = NCDHashMapValueSource::new(kv.clone());
    let mut builder =
        ncd::NCDBuild::new(&ncd::NCDBuildConfig::new(), &source).unwrap();
    loop {
        if builder.attempt().unwrap() {
            break;
        }
    }
    let image = builder.image().clone().unwrap();
    let mut reader = NCDFileReader::new(VecNCDReadAccessor::new(image)).unwrap();
    assert_eq!(Some(b"world".to_vec()), reader.lookup(b"hello").unwrap());
    assert_eq!(Some(b"mars".to_vec()), reader.lookup(b"goodbye").unwrap());
    assert_eq!(Some(b"f".to_vec()), reader.lookup(b"e").unwrap());
    assert_eq!(None, reader.lookup(b"missing").unwrap());
}

/// Overfilling a one-slot table fails the attempt with `TableFull`;
/// overfilling a heap with `HeapFull`.
#[test]
fn test_overflow_errors() {
    let header = NCDHeader::new(1, 1000, 1, None, 0).unwrap();
    let mut writer = NCDWriteAttempt::new(&header, 1000).unwrap();
    let mut first_err = None;
    for i in 0..3u8 {
        if let Err(e) = writer.add(&[i], b"x") {
            first_err = Some(e);
            break;
        }
    }
    match first_err {
        Some(NCDError::TableFull) => {},
        _ => assert!(false),
    }
    let header = NCDHeader::new(1, 28, 3, None, 0).unwrap();
    let mut writer = NCDWriteAttempt::new(&header, 1000).unwrap();
    match writer.add(b"k", b"v") {
        Err(NCDError::HeapFull) => {},
        _ => assert!(false),
    }
}

/// The hash-map source yields every entry exactly once.
#[test]
fn test_hashmap_source_iterator() {
    let kv = smoke_map();
    let source = NCDHashMapValueSource::new(kv.clone());
    let mut iter = NCDHashMapValueSourceIterator::new(&source);
    let mut seen = HashMap::new();
    while let Some((k, v)) = iter.next() {
        assert!(seen.insert(k, v).is_none());
    }
    assert_eq!(kv, seen);
    let pairs = source.pairs().unwrap();
    assert_eq!(3, pairs.len());
}

/// A header claiming table slots but no pages is accepted with
/// empty-file semantics; looking a key up fails cleanly, never crashes.
#[test]
fn test_lookup_zero_pages_with_slots() {
    let h = NCDHeader::new(0, 0, 5, None, 9).unwrap();
    let image = h.to_bytes();
    let mut reader = NCDFileReader::new(VecNCDReadAccessor::new(image)).unwrap();
    match reader.lookup(b"k") {
        Ok(None) | Err(NCDError::CorruptNCDFile(_)) | Err(NCDError::WrongStamp) => {},
        _ => assert!(false),
    }
}

#[test]
fn test_wrap_io_error() {
    assert_eq!(5, wrap_io_error(Ok::<u32, std::io::Error>(5)).unwrap());
    let err: Result<u32, std::io::Error> =
        Err(std::io::Error::new(std::io::ErrorKind::Other, "boom"));
    match wrap_io_error(err) {
        Err(NCDError::IOError(_)) => {},
        _ => assert!(false),
    }
}
