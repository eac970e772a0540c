use std::collections::HashMap;

use rand::Rng;

use ncd::{
    write_u32, NCDBuild, NCDBuildConfig, NCDError, NCDFileReader, NCDHashMapValueSource,
    VecNCDReadAccessor, MAGIC_NUMBER,
};

fn numeric_key_values(limit: u32) -> HashMap<Vec<u8>, Vec<u8>> {
    let mut out = HashMap::new();
    for i in 0..limit {
        let k = format!("{}", i).as_bytes().to_vec();
        let v = if i % 10 == 0 {
            format!("----------{}----------", limit - i).as_bytes().to_vec()
        } else {
            format!("{}", limit - i).as_bytes().to_vec()
        };
        out.insert(k, v);
    }
    out
}

fn fuzz_scratch() -> Vec<u8> {
    let len = rand::random::<u16>() as usize;
    let mut out = vec![0; len];
    for i in 0..len {
        out[i] = rand::random::<u8>()
    }
    out
}

fn example_file() -> Result<Vec<u8>, NCDError> {
    const COUNT: u32 = 1000;

    let source = NCDHashMapValueSource::new(numeric_key_values(COUNT));
    let mut builder = NCDBuild::new(&NCDBuildConfig::new().target_page_size(1024), &source)?;
    loop {
        println!("Attempting to build: {}", builder.describe_attempt());
        let success = builder.attempt()?;
        if success {
            break;
        }
    }
    Ok(builder.image().clone().unwrap())
}

fn tinker_with_data(data: &mut [u8]) {
    let mut rng = rand::thread_rng();
    for _ in 0..rng.gen::<u16>() {
        data[rng.gen_range(0..data.len())] = rng.gen::<u8>();
    }
}

const ROUNDS: usize = 100;

fn do_fuzz_write_scratch() -> Result<(), NCDError> {
    let mut data = fuzz_scratch();
    if data.len() > 8 {
        // Set magic number to make it more of a challenge!
        let short = data.len() % 3 == 0;
        let mut offset = 0;
        write_u32(&mut data, &mut offset, MAGIC_NUMBER)?;
        write_u32(&mut data, &mut offset, if short { 1 } else { 0 })?;
    }
    let mut reader = NCDFileReader::new(VecNCDReadAccessor::new(data))?;
    let page = reader.page(0)?;
    page.lookup(1)?;
    Ok(())
}

fn do_fuzz_write_tinker(pure: &[u8], tinker: bool) -> Result<(), NCDError> {
    let mut tinkered = pure.to_vec();
    if tinker {
        tinker_with_data(&mut tinkered);
    }
    let mut reader = NCDFileReader::new(VecNCDReadAccessor::new(tinkered))?;
    let page = reader.page(0)?;
    page.lookup(1)?;
    Ok(())
}

#[test]
fn fuzz_write_scratch() {
    for _ in 0..ROUNDS {
        do_fuzz_write_scratch().ok();
    }
}

fn fuzz_write_tinker_loop() -> Result<(), NCDError> {
    let data = example_file()?;
    assert!(do_fuzz_write_tinker(&data, false).is_ok());
    for _ in 0..ROUNDS {
        do_fuzz_write_tinker(&data, true).ok();
    }
    Ok(())
}

#[test]
fn fuzz_write_tinker() {
    fuzz_write_tinker_loop().unwrap();
}
