use squid_vm::bytesize::{string_to_bytesize, MAGNITUDE_ERR, SUFFIX_ERR};

#[test]
fn test_argsdef() {
    let realmaxmem = "sdgsdfgsdfs".to_string();
    match string_to_bytesize(realmaxmem) {
        Ok(mem) => {
            assert_eq!(mem, 100usize);
        }
        Err(err) => {
            println!("{}", err);
        }
    }

    let realmaxmem = "sdgsdfgsdfsB".to_string();
    match string_to_bytesize(realmaxmem) {
        Ok(mem) => {
            assert_eq!(mem, 100usize);
        }
        Err(err) => {
            println!("{}", err);
        }
    }

    let realmaxmem = "sdgsdfgsdfsKB".to_string();
    match string_to_bytesize(realmaxmem) {
        Ok(mem) => {
            assert_eq!(mem, 100usize);
        }
        Err(err) => {
            println!("{}", err);
        }
    }

    let realmaxmem = "sdgsdfgsdfsMB".to_string();
    match string_to_bytesize(realmaxmem) {
        Ok(mem) => {
            assert_eq!(mem, 100usize);
        }
        Err(err) => {
            println!("{}", err);
        }
    }

    let realmaxmem = "sdgsdfgsdfsGB".to_string();
    match string_to_bytesize(realmaxmem) {
        Ok(mem) => {
            assert_eq!(mem, 100usize);
        }
        Err(err) => {
            println!("{}", err);
        }
    }

    let realmaxmem = "100B".to_string();
    match string_to_bytesize(realmaxmem) {
        Ok(mem) => {
            assert_eq!(mem, 100usize);
        }
        Err(err) => {
            panic!("{}", err);
        }
    }

    let realmaxmem = "100KB".to_string();
    match string_to_bytesize(realmaxmem) {
        Ok(mem) => {
            assert_eq!(mem, 102400usize);
        }
        Err(err) => {
            panic!("{}", err);
        }
    }

    let realmaxmem = "1GB".to_string();
    match string_to_bytesize(realmaxmem) {
        Ok(mem) => {
            assert_eq!(mem, 1073741824usize);
        }
        Err(err) => {
            panic!("{}", err);
        }
    }
}

#[test]
fn bytesize_units_scale_exactly() {
    assert_eq!(string_to_bytesize("512MB".to_string()), Ok(536870912));
    assert_eq!(string_to_bytesize("100MB".to_string()), Ok(104857600));
    assert_eq!(string_to_bytesize("3KB".to_string()), Ok(3072));
    assert_eq!(string_to_bytesize("0B".to_string()), Ok(0));
    assert_eq!(string_to_bytesize("+7B".to_string()), Ok(7));
    assert_eq!(string_to_bytesize("2GB".to_string()), Ok(2147483648));
    assert_eq!(string_to_bytesize("1.5GB".to_string()), Ok(1610612736));
    assert_eq!(string_to_bytesize(".5KB".to_string()), Ok(512));
    assert_eq!(string_to_bytesize("1.KB".to_string()), Ok(1024));
    assert_eq!(string_to_bytesize("0.1KB".to_string()), Ok(102));
    assert_eq!(string_to_bytesize("0.25MB".to_string()), Ok(262144));
}

#[test]
fn bytesize_rejects_bad_input() {
    assert_eq!(string_to_bytesize("100".to_string()), Err(SUFFIX_ERR));
    assert_eq!(string_to_bytesize("".to_string()), Err(SUFFIX_ERR));
    assert_eq!(string_to_bytesize("GB".to_string()), Err(MAGNITUDE_ERR));
    assert_eq!(string_to_bytesize("1x0MB".to_string()), Err(MAGNITUDE_ERR));
    assert_eq!(string_to_bytesize("-1KB".to_string()), Err(MAGNITUDE_ERR));
    assert_eq!(string_to_bytesize("1.5B".to_string()), Err(MAGNITUDE_ERR));
    assert_eq!(string_to_bytesize(".KB".to_string()), Err(MAGNITUDE_ERR));
    assert_eq!(string_to_bytesize("1.2.3KB".to_string()), Err(MAGNITUDE_ERR));
    assert_eq!(
        string_to_bytesize("99999999999999999999999B".to_string()),
        Err(MAGNITUDE_ERR)
    );
    assert_eq!(
        string_to_bytesize("18446744073709551615GB".to_string()),
        Err(MAGNITUDE_ERR)
    );
    assert_eq!(
        string_to_bytesize("18446744073709551615B".to_string()),
        Ok(18446744073709551615usize)
    );
}
