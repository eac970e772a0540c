use ncd::{
    all_set, bounds_check, compute_hash, lesqlite2_read, lesqlite2_write, read_bytes, read_u16,
    read_u32, read_u64, read_uvar, write_bytes, write_u16, write_u32, write_u64, write_uvar,
    NCDError, MAX_LESQLITE2_BYTES,
};

fn do_test_hash() -> Result<(), NCDError> {
    assert_eq!(0x5b1e906a48ae1d19, compute_hash(b"hello")?);
    assert_eq!(0, compute_hash(b"")?);
    Ok(())
}

#[test]
fn test_hash() {
    do_test_hash().unwrap()
}

#[test]
fn test_bounds_check() -> Result<(), NCDError> {
    let heap = vec![0; 123];
    assert!(bounds_check(&heap, 0, 123).is_ok());
    assert!(bounds_check(&heap, 1, 123).is_err());
    assert!(bounds_check(&heap, 0, 124).is_err());
    let heap = vec![];
    assert!(bounds_check(&heap, 0, 0).is_ok());
    assert!(bounds_check(&heap, 0, 1).is_err());
    Ok(())
}

fn test_lesqlite2_value(bytes: &mut Vec<u8>, value: u64) -> Result<(), NCDError> {
    let mut start = 0;
    lesqlite2_write(bytes, &mut start, value)?;
    let mut start = 0;
    let out = lesqlite2_read(bytes, &mut start)?;
    assert_eq!(value, out);
    Ok(())
}

fn do_test_lesqlite2() -> Result<(), NCDError> {
    let mut bytes = vec![0; MAX_LESQLITE2_BYTES];
    for i in 0..1000000 {
        test_lesqlite2_value(&mut bytes, i)?;
    }
    for bits in 6..60 {
        for wiggle in 0..9 {
            let value = (1 << bits) + wiggle - 4;
            test_lesqlite2_value(&mut bytes, value)?;
        }
    }
    Ok(())
}

#[test]
fn test_lesqlite2() {
    do_test_lesqlite2().unwrap();
}

fn do_test_read_write_bytes() -> Result<(), NCDError> {
    let mut bytes = vec![0; 20];
    let mut offset = 0;
    write_bytes(&mut bytes, &mut offset, &[0, 1, 2, 3, 4, 5, 6, 7, 8, 9])?;
    for i in 0..10 {
        assert_eq!(i as u8, bytes[i]);
    }
    let mut offset = 0;
    let cmp = read_bytes(&bytes, &mut offset, 10)?;
    assert_eq!(10, cmp.len());
    for i in 0..10 {
        assert_eq!(i as u8, cmp[i]);
    }
    write_bytes(&mut bytes, &mut offset, &[10, 11, 12, 13])?;
    let mut offset = 0;
    let cmp = read_bytes(&bytes, &mut offset, 14)?;
    assert_eq!(14, cmp.len());
    for i in 0..14 {
        assert_eq!(i as u8, cmp[i]);
    }
    assert_eq!(14, offset);
    let mut offset = 4;
    write_bytes(&mut bytes, &mut offset, &[])?;
    for i in 0..10 {
        assert_eq!(i as u8, bytes[i]);
    }
    Ok(())
}

#[test]
fn test_read_write_bytes() {
    do_test_read_write_bytes().unwrap();
}

fn do_test_read_write(size: usize) -> Result<(), NCDError> {
    let mut bytes = vec![0; 8];
    let mut offset = 0;
    let value = 0x123456789ABCDEF;
    write_uvar(&mut bytes, &mut offset, value, size)?;
    assert_eq!(size, offset);
    for b in 0..8 {
        let cmp = ((value >> (b * 8)) & 0xFF) as u8;
        if b < size {
            assert_eq!(cmp, bytes[b]);
        } else {
            assert_eq!(0, bytes[b]);
        }
    }
    let mut offset = 0;
    let v = read_uvar(&bytes, &mut offset, size)?;
    assert_eq!(value & all_set(size)?, v);
    Ok(())
}

#[test]
fn test_read_write() {
    for size in [2, 4, 8] {
        do_test_read_write(size).unwrap();
    }
}

#[test]
fn test_premature_eof_read() {
    const X: usize = 6;

    for b in 0..8 {
        let bytes = vec![0; b + X];
        let mut offset = X;
        assert_eq!(b == 8, read_u64(&bytes, &mut offset).is_ok());
    }
    for b in 0..4 {
        let bytes = vec![0; b + X];
        let mut offset = X;
        assert_eq!(b == 4, read_u32(&bytes, &mut offset).is_ok());
    }
    for b in 0..2 {
        let bytes = vec![0; b + X];
        let mut offset = X;
        assert_eq!(b == 2, read_u16(&bytes, &mut offset).is_ok());
    }
    let bytes = vec![0; 9 + X];
    let mut offset = X;
    assert!(read_bytes(&bytes, &mut offset, 9).is_ok());
    assert!(read_bytes(&bytes, &mut offset, 10).is_err());
}

#[test]
fn test_premature_eof_write() {
    const X: usize = 6;

    for b in 0..8 {
        let mut bytes = vec![0; b + X];
        let mut offset = X;
        assert_eq!(b == 8, write_u64(&mut bytes, &mut offset, 0x0123456789ABCDEF).is_ok());
    }
    for b in 0..4 {
        let mut bytes = vec![0; b + X];
        let mut offset = X;
        assert_eq!(b == 4, write_u32(&mut bytes, &mut offset, 0x01234567).is_ok());
    }
    for b in 0..2 {
        let mut bytes = vec![0; b + X];
        let mut offset = X;
        assert_eq!(b == 2, write_u16(&mut bytes, &mut offset, 0x0123).is_ok());
    }
    let mut bytes = vec![0; 9 + X];
    let mut offset = X;
    assert!(write_bytes(&mut bytes, &mut offset, &[0, 1, 2, 3, 4, 5, 6, 7, 8]).is_ok());
    assert!(write_bytes(&mut bytes, &mut offset, &[0, 1, 2, 3, 4, 5, 6, 7, 8, 9]).is_err());
}
