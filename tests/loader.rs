use squid_vm::immediates::Immediates;
use squid_vm::loader::{normalize_path, release_channel, FileReader, LoadError, Loaded, VmVersion};

fn vm() -> VmVersion {
    VmVersion { major: 1, minor: 2 }
}

fn header(major: u32, minor: u16) -> Vec<u8> {
    let mut b = vec![1u8];
    b.extend_from_slice(&major.to_le_bytes());
    b.extend_from_slice(&minor.to_le_bytes());
    b.extend_from_slice(&3u16.to_le_bytes());
    b.push(1);
    b.extend_from_slice(&[b'x'; 22]);
    b
}

fn program(loaded: Loaded) -> FileReader {
    match loaded {
        Loaded::Program(_, p) => p,
        _ => panic!("no program"),
    }
}

#[test]
fn headerless_file_decodes_from_start() {
    let mut b = vec![0x0A, 0x02];
    b.extend_from_slice(&10i64.to_le_bytes());
    b.extend_from_slice(&[0x0A, 0x03]);
    b.extend_from_slice(&7u64.to_le_bytes());
    b.extend_from_slice(&[0x01, 0x0E, 0x00, 0x0E]);
    let p = program(FileReader::from_bytes(&b, false, false, vm()).unwrap());
    assert_eq!(p.instructions, vec![0x0A, 0x0A, 0x01, 0x0E, 0x00]);
    assert!(matches!(p.data[0], Immediates::Integer(10)));
    assert!(matches!(p.data[1], Immediates::UInteger(7)));
    assert!(matches!(p.data[2], Immediates::Null));
    assert_eq!(p.data.len(), 5);
}

#[test]
fn operands_of_every_tag() {
    let mut b = vec![0x0A, 0x00, 0x0A, 0x01, 0x01, 0x0A, 0x04];
    b.extend_from_slice(&2.5f64.to_bits().to_le_bytes());
    b.extend_from_slice(&[0x0A, 0x0F, 2, b'h', b'i', 0x0A, 0x1F, 1, 0, b'z']);
    b.push(0x0C);
    b.extend_from_slice(&3u64.to_le_bytes());
    b.extend_from_slice(&[0x19, 0x01, 0x1A, 0x00, 0x18]);
    let p = program(FileReader::from_bytes(&b, false, false, vm()).unwrap());
    assert_eq!(p.instructions, vec![0x0A, 0x0A, 0x0A, 0x0A, 0x0A, 0x0C, 0x19, 0x1A, 0x18]);
    assert!(matches!(p.data[0], Immediates::Null));
    assert!(matches!(p.data[1], Immediates::Boolean(true)));
    assert!(matches!(p.data[2], Immediates::Float(x) if x == 2.5f64.to_bits()));
    assert!(matches!(&p.data[3], Immediates::MutStr(s) if s == "hi"));
    assert!(matches!(&p.data[4], Immediates::MutStr(s) if s == "z"));
    assert!(matches!(p.data[5], Immediates::UInteger(3)));
    assert!(matches!(p.data[6], Immediates::Boolean(true)));
    assert!(matches!(p.data[7], Immediates::Boolean(false)));
    assert!(matches!(p.data[8], Immediates::Null));
}

#[test]
fn decode_errors() {
    assert_eq!(FileReader::from_bytes(&vec![], false, false, vm()).err(), Some(LoadError::Truncated));
    assert_eq!(
        FileReader::from_bytes(&vec![0x0A, 0x02, 1, 2], false, false, vm()).err(),
        Some(LoadError::Truncated)
    );
    assert_eq!(
        FileReader::from_bytes(&vec![0x0A, 0x77], false, false, vm()).err(),
        Some(LoadError::InvalidData)
    );
    assert_eq!(
        FileReader::from_bytes(&vec![0x0A, 0x0F, 1, 0xFF], false, false, vm()).err(),
        Some(LoadError::InvalidData)
    );
    assert_eq!(
        FileReader::from_bytes(&vec![0x19, 0x05], false, false, vm()).err(),
        Some(LoadError::InvalidData)
    );
    assert_eq!(
        FileReader::from_bytes(&vec![1u8, 0, 0], false, false, vm()).err(),
        Some(LoadError::Metadata)
    );
}

#[test]
fn header_version_policy() {
    let mut same = header(1, 2);
    same.extend_from_slice(&[0x00]);
    match FileReader::from_bytes(&same, false, false, vm()).unwrap() {
        Loaded::Program(Some(m), p) => {
            assert_eq!((m.major, m.minor, m.patch, m.details), (1, 2, 3, 1));
            assert_eq!(m.compiler, vec![b'x'; 22]);
            assert_eq!(p.instructions, vec![0x00]);
        }
        _ => panic!("expected a program"),
    }
    let newer_major = header(2, 0);
    assert!(matches!(
        FileReader::from_bytes(&newer_major, false, false, vm()).unwrap(),
        Loaded::TooNew(_)
    ));
    assert!(matches!(
        FileReader::from_bytes(&newer_major, false, true, vm()).unwrap(),
        Loaded::Program(Some(_), _)
    ));
    let newer_minor = header(1, 3);
    assert!(matches!(
        FileReader::from_bytes(&newer_minor, false, false, vm()).unwrap(),
        Loaded::TooNew(_)
    ));
    let older = header(0, 9);
    assert!(matches!(
        FileReader::from_bytes(&older, false, false, vm()).unwrap(),
        Loaded::Program(Some(_), _)
    ));
    assert!(matches!(
        FileReader::from_bytes(&newer_major, true, false, vm()).unwrap(),
        Loaded::VersionInfo(Some(_))
    ));
    assert!(matches!(
        FileReader::from_bytes(&vec![0x00], true, false, vm()).unwrap(),
        Loaded::VersionInfo(None)
    ));
    assert_eq!(release_channel(1), "alpha");
    assert_eq!(release_channel(9), "unknown");
}

#[test]
fn paths_get_the_extension() {
    assert_eq!(normalize_path("prog".to_string()), "prog.sqd");
    assert_eq!(normalize_path("prog.sqd".to_string()), "prog.sqd");
    assert_eq!(normalize_path("dir/prog/".to_string()), "dir/prog.sqd");
    assert_eq!(normalize_path("a\\".to_string()), "a.sqd");
}
