use std::collections::HashMap;

use ncd::builder::initial_header_guess;
use ncd::{
    NCDBuild, NCDBuildConfig, NCDError, NCDFileReader, NCDHashMapValueSource, NCDHeader, NCDStats,
    VecNCDReadAccessor,
};

fn numeric_key_values(limit: u32) -> HashMap<Vec<u8>, Vec<u8>> {
    let mut out = HashMap::new();
    for i in 0..limit {
        let k = format!("{}", i).as_bytes().to_vec();
        let v = if i % 10 == 0 {
            format!("----------{}----------", limit - i).as_bytes().to_vec()
        } else {
            format!("{}", limit - i).as_bytes().to_vec()
        };
        out.insert(k, v);
    }
    out
}

const COUNT: u32 = 1000;

fn do_test_build_run(break_table: bool, break_heap: bool) -> Result<(), NCDError> {
    let source = NCDHashMapValueSource::new(numeric_key_values(COUNT));
    let mut builder = NCDBuild::new(&NCDBuildConfig::new().target_page_size(1024), &source)?;
    let header = &builder.header;
    if break_table {
        builder.header = NCDHeader::new(
            header.number_of_pages(),
            header.heap_size(),
            10,
            None,
            header.stamp(),
        )?;
    }
    let header = &builder.header;
    if break_heap {
        builder.header = NCDHeader::new(
            header.number_of_pages(),
            64,
            header.table_size_entries(),
            None,
            header.stamp(),
        )?;
    }
    loop {
        println!("Attempting to build: {}", builder.describe_attempt());
        let success = builder.attempt()?;
        if success {
            break;
        }
    }
    let image = builder.image().clone().unwrap();
    let mut reader = NCDFileReader::new(VecNCDReadAccessor::new(image))?;
    let kv = numeric_key_values(COUNT);
    let mut k_sorted = kv.keys().collect::<Vec<_>>();
    k_sorted.sort();
    for k in k_sorted.iter() {
        let v = kv.get(*k).unwrap().to_vec();
        let value = reader.lookup(k)?;
        assert_eq!(Some(v), value);
    }
    Ok(())
}

fn do_test_build() -> Result<(), NCDError> {
    do_test_build_run(false, false)?;
    do_test_build_run(true, false)?;
    do_test_build_run(false, true)?;
    Ok(())
}

#[test]
fn build_smoke() {
    do_test_build().unwrap();
}

fn do_test_build_zero() -> Result<(), NCDError> {
    let source = NCDHashMapValueSource::new(numeric_key_values(0));
    let mut builder = NCDBuild::new(&NCDBuildConfig::new().target_page_size(1024), &source)?;
    loop {
        println!("Attempting to build: {}", builder.describe_attempt());
        let success = builder.attempt()?;
        if success {
            break;
        }
    }
    let image = builder.image().clone().unwrap();
    assert_eq!(1, builder.header.number_of_pages());
    assert_eq!(28, builder.header.heap_size());
    assert_eq!(0, builder.header.table_size_entries());
    let mut reader = NCDFileReader::new(VecNCDReadAccessor::new(image))?;
    let kv = numeric_key_values(COUNT);
    for k in kv.keys() {
        let value = reader.lookup(k)?;
        assert_eq!(None, value);
    }
    Ok(())
}

#[test]
fn test_build_zero() {
    do_test_build_zero().unwrap();
}

fn do_test_header_size_override(set: Option<u32>, expect: u32, big_page: bool) -> Result<
    (),
    NCDError,
> {
    let source = NCDHashMapValueSource::new(numeric_key_values(1000));
    let page_size = if big_page { 100000 } else { 10000 };
    let config = NCDBuildConfig::new().force_header_size(set).target_page_size(page_size);
    let builder = NCDBuild::new(&config, &source)?;
    assert_eq!(expect, builder.header.pointer_length() as u32);
    // pointer width 4 is persisted as version 0, width 2 as version 1
    assert_eq!(if expect == 4 { 0 } else { 1 }, builder.header.version);
    Ok(())
}

#[test]
fn test_header_size_override() {
    do_test_header_size_override(None, 4, true).unwrap();
    do_test_header_size_override(None, 2, false).unwrap();
    do_test_header_size_override(Some(2), 4, true).unwrap();
    do_test_header_size_override(Some(2), 2, false).unwrap();
    do_test_header_size_override(Some(4), 4, true).unwrap();
    do_test_header_size_override(Some(4), 4, false).unwrap();
}

fn do_test_stamp() -> Result<(), NCDError> {
    let source = NCDHashMapValueSource::new(numeric_key_values(COUNT));
    let mut builder = NCDBuild::new(&NCDBuildConfig::new().target_page_size(1024), &source)?;
    loop {
        println!("Attempting to build: {}", builder.describe_attempt());
        let success = builder.attempt()?;
        if success {
            break;
        }
    }
    let image = builder.image().clone().unwrap();
    let mut reader = NCDFileReader::new(VecNCDReadAccessor::new(image))?;
    let header = &reader.header;
    reader.header = NCDHeader::new(
        header.number_of_pages(),
        header.heap_size(),
        header.table_size_entries(),
        None,
        0x99999999,
    )?;
    let kv = numeric_key_values(COUNT);
    let mut k_sorted = kv.keys().collect::<Vec<_>>();
    k_sorted.sort();
    for k in k_sorted.iter() {
        let v = kv.get(*k).unwrap().to_vec();
        let value = reader.lookup(k)?;
        assert_eq!(Some(v), value);
    }
    Ok(())
}

#[test]
fn test_stamp() {
    match do_test_stamp() {
        Err(NCDError::WrongStamp) => {},
        _ => {
            assert!(false);
        },
    }
}

fn header_test(
    config: &NCDBuildConfig,
    number_of_keys: u64,
    length_each: u64,
) -> Result<(u64, u32, u32, u64), NCDError> {
    let stats = NCDStats::new_values(number_of_keys, number_of_keys * length_each);
    let (header, threshold) = initial_header_guess(config, &stats, 0)?;
    if header.table_size_entries() > 0 {
        assert_eq!(32768, header.page_size());
    }
    Ok((header.number_of_pages(), header.heap_size(), header.table_size_entries(), threshold))
}

fn do_test_header() -> Result<(), NCDError> {
    let config = NCDBuildConfig::new();
    assert_eq!((395, 31750, 507, 3175), header_test(&config, 100000, 100)?);
    assert_eq!((1, 28, 0, 0), header_test(&config, 0, 0)?);
    assert_eq!((1, 32758, 3, 3275), header_test(&config, 1, 0)?);
    assert_eq!((1, 32722, 21, 3272), header_test(&config, 10, 10)?);
    assert_eq!((1, 32362, 201, 3236), header_test(&config, 100, 100)?);
    assert_eq!((39, 32758, 3, 3275), header_test(&config, 10, 100000)?);
    assert_eq!((17, 9234, 11765, 923), header_test(&config, 100000, 1)?);
    Ok(())
}

#[test]
fn test_header() {
    do_test_header().unwrap()
}

#[test]
fn test_min_pointer_width_counts_slot_bytes() {
    // heap 0, 40000 slots: the 2-byte layout is 80004 bytes, so the
    // minimum width must be 4
    let h = NCDHeader::new(1, 0, 40000, None, 0).unwrap();
    assert_eq!(4, h.pointer_length());
    // one slot fewer than the boundary stays at width 2
    let h = NCDHeader::new(1, 0, 32765, None, 0).unwrap();
    assert_eq!(2, h.pointer_length());
}

#[test]
fn test_zero_page_header_parses() {
    // table slots with no pages get empty-file semantics, not a parse error
    let h = NCDHeader::new(0, 0, 5, None, 9).unwrap();
    let parsed = NCDHeader::parse(&h.to_bytes()).unwrap();
    assert_eq!(5, parsed.table_size_entries());
    assert_eq!(0, parsed.number_of_pages());
    assert_eq!(0, parsed.hash_page_index(12345));
    assert_eq!(0, parsed.hash_ext(12345));
}

#[test]
fn test_bad_forced_width() {
    match NCDHeader::new(1, 100, 10, Some(3), 0) {
        Err(NCDError::BadConfiguration(_)) => {},
        _ => {
            assert!(false);
        },
    }
}

#[test]
fn test_overflow_retry_grows_pages() {
    let source = NCDHashMapValueSource::new(numeric_key_values(COUNT));
    let mut builder =
        NCDBuild::new(&NCDBuildConfig::new().target_page_size(1024), &source).unwrap();
    builder.header = NCDHeader::new(
        builder.header.number_of_pages(),
        builder.header.heap_size(),
        10,
        None,
        builder.header.stamp(),
    )
    .unwrap();
    let pages_before = builder.header.number_of_pages();
    let heap_before = builder.header.heap_size();
    let table_before = builder.header.table_size_entries();
    let ok = builder.attempt().unwrap();
    assert!(!ok);
    assert_eq!("table overflow", builder.result());
    // ceil(pages * 6/5), with heap and table sizes kept
    assert_eq!((pages_before * 6 + 4) / 5, builder.header.number_of_pages());
    assert_eq!(heap_before, builder.header.heap_size());
    assert_eq!(table_before, builder.header.table_size_entries());
}
