use goatos::ata::AtaError;
use goatos::fs::{self, FileSystem, FsError, ReadStep, HELLO_TXT_CONTENTS, HELLO_TXT_NAME, MAX_FILE_SIZE};

fn superblock(version: u32, count: u32) -> Vec<u8> {
    let mut s = vec![0u8; 512];
    s[0..8].copy_from_slice(b"GOATFS01");
    s[8..12].copy_from_slice(&version.to_le_bytes());
    s[12..16].copy_from_slice(&count.to_le_bytes());
    s
}

fn directory(entries: &[(&[u8], u32, u32)]) -> Vec<u8> {
    let mut d = vec![0u8; 512];
    for (i, (name, size, lba)) in entries.iter().enumerate() {
        let off = i * 64;
        d[off..off + name.len()].copy_from_slice(name);
        d[off + 32..off + 36].copy_from_slice(&size.to_le_bytes());
        d[off + 36..off + 40].copy_from_slice(&lba.to_le_bytes());
    }
    d
}

fn mounted() -> FileSystem {
    let mut f = FileSystem::new();
    let dir = directory(&[(b"hello.txt", 29, 2), (b"big.bin", 4096, 3), (b"empty", 0, 11)]);
    assert_eq!(f.mount_directory(&dir, 3), Ok(3));
    f
}

#[test]
fn superblock_checks() {
    assert_eq!(fs::check_superblock(&superblock(1, 3)), Ok(3));
    assert_eq!(fs::check_superblock(&superblock(2, 3)), Err(FsError::BadSuperblock));
    assert_eq!(fs::check_superblock(&superblock(1, 9)), Err(FsError::BadSuperblock));
    let mut bad = superblock(1, 1);
    bad[7] = b'2';
    assert_eq!(fs::check_superblock(&bad), Err(FsError::BadSuperblock));
}

#[test]
fn directory_entries_are_validated() {
    let mut f = FileSystem::new();
    assert_eq!(f.mount_directory(&directory(&[(b"", 1, 2)]), 1), Err(FsError::BadDirectory));
    assert!(!f.is_mounted());
    assert_eq!(f.mount_directory(&directory(&[(b"a b", 1, 2)]), 1), Err(FsError::BadDirectory));
    assert_eq!(f.mount_directory(&directory(&[(b"a", 4097, 2)]), 1), Err(FsError::BadDirectory));
    assert_eq!(f.mount_directory(&directory(&[(b"a", 1, 1)]), 1), Err(FsError::BadDirectory));
    let long = [b'n'; 32];
    assert_eq!(f.mount_directory(&directory(&[(&long, 1, 2)]), 1), Ok(1));
    assert!(f.is_mounted());
}

#[test]
fn lookup_answers() {
    let f = mounted();
    assert_eq!(f.lookup(b"hello.txt", 4096), Ok((29, 2050)));
    assert_eq!(f.lookup(b"big.bin", 4096), Ok((4096, 2051)));
    assert_eq!(f.lookup(b"big.bin", 100), Err(FsError::TooLarge));
    assert_eq!(f.lookup(b"empty", 0), Ok((0, 2059)));
    assert_eq!(f.lookup(b"missing", 4096), Err(FsError::NotFound));
    assert_eq!(f.lookup(b"", 4096), Err(FsError::NotFound));
    assert_eq!(f.lookup(&[b'x'; 33], 4096), Err(FsError::NotFound));
    assert_eq!(FileSystem::new().lookup(b"hello.txt", 4096), Err(FsError::NotMounted));
}

#[test]
fn transfer_and_copy() {
    assert_eq!(fs::transfer_bytes(29), 512);
    assert_eq!(fs::transfer_bytes(512), 512);
    assert_eq!(fs::transfer_bytes(513), 1024);
    assert_eq!(fs::transfer_bytes(0), 0);
    let scratch = vec![7u8; 512];
    let mut buf = vec![1u8; 10];
    fs::copy_out(&scratch, 4, &mut buf);
    assert_eq!(buf, vec![7, 7, 7, 7, 1, 1, 1, 1, 1, 1]);
}

#[test]
fn banner_details() {
    let b = fs::banner(Ok(3));
    assert!(b.mounted);
    assert_eq!(b.file_count, 3);
    assert_eq!(b.detail, "mounted");
    assert_eq!(fs::banner(Err(FsError::Ata(AtaError::NotPresent))).detail, "no ata drive");
    assert_eq!(fs::banner(Err(FsError::Ata(AtaError::Timeout))).detail, "ata timeout");
    assert_eq!(fs::banner(Err(FsError::BadSuperblock)).detail, "bad superblock");
    assert_eq!(fs::banner(Err(FsError::BadDirectory)).detail, "mount failed");
    assert!(!fs::banner(Err(FsError::BadDirectory)).mounted);
}

#[test]
fn self_test_verdicts() {
    let mut buf = vec![0u8; 4096];
    buf[..HELLO_TXT_CONTENTS.len()].copy_from_slice(HELLO_TXT_CONTENTS.as_bytes());
    let ok = fs::self_test(Ok(HELLO_TXT_CONTENTS.len()), &buf);
    assert!(ok.ok);
    assert_eq!(ok.detail, "hello.txt ok");
    buf[0] = b'g';
    let bad = fs::self_test(Ok(HELLO_TXT_CONTENTS.len()), &buf);
    assert!(!bad.ok);
    assert_eq!(bad.detail, "hello.txt contents mismatch");
    assert_eq!(fs::self_test(Err(FsError::NotMounted), &buf).detail, "not mounted");
    assert_eq!(fs::self_test(Err(FsError::NotFound), &buf).detail, "hello.txt missing");
    assert_eq!(fs::self_test(Err(FsError::Ata(AtaError::DriveError)), &buf).detail, "read failed");
    assert_eq!(HELLO_TXT_NAME, "hello.txt");
}

#[test]
fn ata_errors_convert() {
    let e: FsError = AtaError::Timeout.into();
    assert_eq!(e, FsError::Ata(AtaError::Timeout));
    assert_eq!(FsError::TooLarge.describe(), "file too large");
    assert_eq!(FsError::Ata(AtaError::Timeout).describe(), "ata");
}

#[test]
fn read_steps() {
    assert!(matches!(fs::read_step(Err(FsError::NotFound)), ReadStep::Done(Err(FsError::NotFound))));
    assert!(matches!(fs::read_step(Ok((0, 700))), ReadStep::Done(Ok(0))));
    assert!(matches!(
        fs::read_step(Ok((MAX_FILE_SIZE + 1, 700))),
        ReadStep::Done(Err(FsError::TooLarge))
    ));
    match fs::read_step(Ok((600, 700))) {
        ReadStep::Transfer { lba, bytes, size } => {
            assert_eq!(lba, 700);
            assert_eq!(bytes, 1024);
            assert_eq!(size, 600);
        }
        _ => panic!("a non-empty file needs a transfer"),
    }
}

#[test]
fn finishing_a_read() {
    let scratch = vec![7u8; 1024];
    let mut buf = vec![1u8; 10];
    assert_eq!(fs::finish_read(4, Ok(()), &scratch, &mut buf), Ok(4));
    assert_eq!(buf, vec![7, 7, 7, 7, 1, 1, 1, 1, 1, 1]);
    let mut other = vec![1u8; 10];
    assert_eq!(
        fs::finish_read(4, Err(AtaError::Timeout), &scratch, &mut other),
        Err(FsError::Ata(AtaError::Timeout))
    );
    assert_eq!(other, vec![1u8; 10]);
    let mut small = vec![1u8; 3];
    assert_eq!(fs::finish_read(4, Ok(()), &scratch, &mut small), Err(FsError::TooLarge));
    assert_eq!(small, vec![1u8; 3]);
}
