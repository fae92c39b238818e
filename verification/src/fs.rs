//! GOATFS: a tiny read-only file system on the boot disk.
//!
//! Layout, in 512-byte sectors from [`FS_BASE_LBA`]:
//!
//! ```text
//! sector 0  superblock: "GOATFS01", version (u32 LE), file count (u32 LE)
//! sector 1  directory: up to 8 entries of 64 bytes:
//!             name[32] (NUL-padded printable ASCII), size (u32 LE),
//!             first sector relative to the base (u32 LE), reserved
//! sector 2+ file data, each file contiguous
//! ```
//!
//! This module checks and parses the sectors and answers lookups; the
//! caller reads the sectors off the disk.
use vstd::prelude::*;

use super::ata::AtaError;
use super::memory::map::le_u32;
use vstd::string::StringSliceAdditionalSpecFns;

verus! {

/// Sector where the file system starts on the disk.
pub const FS_BASE_LBA: u32 = 2048;

/// The superblock's first eight bytes.
pub const MAGIC: [u8; 8] = [0x47, 0x4f, 0x41, 0x54, 0x46, 0x53, 0x30, 0x31];

/// The only format version there is.
pub const VERSION: u32 = 1;

/// Most files the directory holds.
pub const MAX_FILES: usize = 8;

/// Largest file.
pub const MAX_FILE_SIZE: usize = 4096;

/// Bytes of a name field.
pub const NAME_LEN: usize = 32;

/// Bytes of a directory entry.
pub const DIR_ENTRY_SIZE: usize = 64;

/// Sector of the superblock, relative to the base.
pub const SUPERBLOCK_SECTOR: u32 = 0;

/// Sector of the directory, relative to the base.
pub const DIRECTORY_SECTOR: u32 = 1;

/// The file the self-test reads.
pub const HELLO_TXT_NAME: &'static str = "hello.txt";

/// What that file must hold.
pub const HELLO_TXT_CONTENTS: &'static str = "GOATos says hello from disk!\n";

/// Why a file-system operation failed.
#[derive(Clone, Copy, Debug, PartialEq, Eq, Structural)]
pub enum FsError {
    Ata(AtaError),
    BadSuperblock,
    BadDirectory,
    NotMounted,
    NotFound,
    TooLarge,
}

impl From<AtaError> for FsError {
    fn from(value: AtaError) -> (e: FsError)
        ensures
            e == FsError::Ata(value),
    {
        FsError::Ata(value)
    }
}

impl vstd::std_specs::convert::FromSpecImpl<AtaError> for FsError {
    open spec fn obeys_from_spec() -> bool {
        true
    }

    open spec fn from_spec(value: AtaError) -> FsError {
        FsError::Ata(value)
    }
}

impl FsError {
    /// A short description, as the boot banner prints it (an ATA error's
    /// own description follows "ata: ").
    pub fn describe(&self) -> (s: &'static str)
        ensures
            !(*self is Ata) ==> s == match *self {
                FsError::BadSuperblock => "bad superblock",
                FsError::BadDirectory => "bad directory",
                FsError::NotMounted => "not mounted",
                FsError::NotFound => "not found",
                _ => "file too large",
            },
            *self is Ata ==> s == "ata",
    {
        match self {
            FsError::Ata(_) => "ata",
            FsError::BadSuperblock => "bad superblock",
            FsError::BadDirectory => "bad directory",
            FsError::NotMounted => "not mounted",
            FsError::NotFound => "not found",
            FsError::TooLarge => "file too large",
        }
    }
}

/// The boot-banner line about the file system.
pub struct Banner {
    pub mounted: bool,
    pub file_count: usize,
    pub detail: &'static str,
}

/// Outcome of [`self_test`].
pub struct SelfTest {
    pub ok: bool,
    pub detail: &'static str,
}

/// The file count a superblock declares, if it is a valid one: the magic,
/// version 1, and at most [`MAX_FILES`] files.
pub open spec fn superblock_files(sb: Seq<u8>) -> Option<int> {
    if sb.len() >= 16 && sb.subrange(0, 8) == MAGIC@ && le_u32(sb, 8) == VERSION && le_u32(sb, 12)
        <= MAX_FILES {
        Some(le_u32(sb, 12))
    } else {
        None
    }
}

/// Checks the superblock sector and returns the file count it declares.
pub fn check_superblock(sector: &[u8]) -> (r: Result<usize, FsError>)
    requires
        sector@.len() == 512,
    ensures
        r == match superblock_files(sector@) {
            Some(n) => Ok(n as usize),
            None => Err(FsError::BadSuperblock),
        },
{
    let mut i: usize = 0;
    while i < 8
        invariant
            i <= 8,
            sector@.len() == 512,
            forall|j: int| 0 <= j < i ==> sector@[j] == MAGIC@[j],
        decreases 8 - i,
    {
        if sector[i] != MAGIC[i] {
            assert(sector@.subrange(0, 8)[i as int] != MAGIC@[i as int]);
            return Err(FsError::BadSuperblock);
        }
        i += 1;
    }
    assert(sector@.subrange(0, 8) =~= MAGIC@);
    let version = read_u32(sector, 8);
    let file_count = read_u32(sector, 12);
    if version != VERSION || file_count as usize > MAX_FILES {
        return Err(FsError::BadSuperblock);
    }
    Ok(file_count as usize)
}

fn read_u32(b: &[u8], off: usize) -> (v: u32)
    requires
        off + 4 <= b@.len(),
    ensures
        v == le_u32(b@, off as int),
{
    (b[off] as u32) + (b[off + 1] as u32) * 0x100 + (b[off + 2] as u32) * 0x1_0000 + (b[off
        + 3] as u32) * 0x100_0000
}

/// Length of the name in the entry at byte `off`: bytes up to the first
/// NUL from `j` on, or to the end of the field.
pub open spec fn name_len_from(sec: Seq<u8>, off: int, j: int) -> int
    decreases NAME_LEN - j,
{
    if j >= NAME_LEN {
        NAME_LEN as int
    } else if sec[off + j] == 0 {
        j
    } else {
        name_len_from(sec, off, j + 1)
    }
}

/// Byte offset of directory entry `i`.
pub open spec fn entry_off(i: int) -> int {
    i * DIR_ENTRY_SIZE
}

/// A file, as its directory entry describes it.
#[derive(Debug)]
pub struct DirEntry {
    name: Vec<u8>,
    size: u32,
    lba_off: u32,
}

impl View for DirEntry {
    /// `(name, size, first sector relative to the base)`.
    type V = (Seq<u8>, u32, u32);

    closed spec fn view(&self) -> Self::V {
        (self.name@, self.size, self.lba_off)
    }
}

/// Directory entry `i` of sector `sec`, whether or not it is valid.
pub open spec fn entry_at(sec: Seq<u8>, i: int) -> (Seq<u8>, u32, u32) {
    let off = entry_off(i);
    (
        sec.subrange(off, off + name_len_from(sec, off, 0)),
        le_u32(sec, off + 32) as u32,
        le_u32(sec, off + 36) as u32,
    )
}

/// Whether directory entry `i` of `sec` is one to accept: a non-empty
/// printable name, at most [`MAX_FILE_SIZE`] bytes, and data after the
/// superblock and directory.
pub open spec fn entry_valid(sec: Seq<u8>, i: int) -> bool {
    let e = entry_at(sec, i);
    &&& e.0.len() > 0
    &&& forall|k: int| 0 <= k < e.0.len() ==> 0x21 <= #[trigger] e.0[k] <= 0x7e
    &&& e.1 <= MAX_FILE_SIZE
    &&& e.2 >= 2
}

proof fn lemma_name_len(sec: Seq<u8>, off: int, j: int)
    requires
        0 <= j <= 32,
        0 <= off,
        off + 32 <= sec.len(),
    ensures
        j <= name_len_from(sec, off, j) <= 32,
        forall|k: int| j <= k < name_len_from(sec, off, j) ==> #[trigger] sec[off + k] != 0,
        name_len_from(sec, off, j) < 32 ==> sec[off + name_len_from(sec, off, j)] == 0,
    decreases 32 - j,
{
    if j < 32 && sec[off + j] != 0 {
        lemma_name_len(sec, off, j + 1);
    }
}

/// A directory entry's name is its first bytes up to the first NUL, at most
/// 32; and the entry is accepted exactly when that name is non-empty and
/// made of the visible ASCII characters '!' (0x21) through '~' (0x7e) --
/// letters, digits and punctuation alike --, the size field (bytes 32..36,
/// little-endian) is at most 4096, and the first-sector field (bytes
/// 36..40) is 2 or more.
pub proof fn lemma_entry_rule(sec: Seq<u8>, i: int)
    requires
        sec.len() == 512,
        0 <= i < MAX_FILES,
    ensures
        ({
            let name = entry_at(sec, i).0;
            &&& name.len() <= 32
            &&& forall|k: int| 0 <= k < name.len() ==> name[k] == #[trigger] sec[64 * i + k] && sec[64 * i
                + k] != 0
            &&& name.len() < 32 ==> sec[64 * i + name.len()] == 0
            &&& entry_valid(sec, i) <==> (name.len() > 0 && (forall|k: int|
                0 <= k < name.len() ==> 0x21 <= #[trigger] sec[64 * i + k] <= 0x7e) && le_u32(
                sec,
                64 * i + 32,
            ) <= 4096 && le_u32(sec, 64 * i + 36) >= 2)
        }),
{
    let off = 64 * i;
    lemma_name_len(sec, off, 0);
    let name = entry_at(sec, i).0;
    assert(name.len() == name_len_from(sec, off, 0));
    assert forall|k: int| 0 <= k < name.len() implies name[k] == #[trigger] sec[64 * i + k] by {}
    assert(0 <= le_u32(sec, off + 32) < 0x1_0000_0000);
    assert(0 <= le_u32(sec, off + 36) < 0x1_0000_0000);
    if entry_valid(sec, i) {
        assert forall|k: int| 0 <= k < name.len() implies 0x21 <= #[trigger] sec[64 * i + k] <= 0x7e by {
            assert(name[k] == sec[64 * i + k]);
        }
    }
    if name.len() > 0 && (forall|k: int| 0 <= k < name.len() ==> 0x21 <= #[trigger] sec[64 * i + k]
        <= 0x7e) {
        assert forall|k: int| 0 <= k < name.len() implies 0x21 <= #[trigger] name[k] <= 0x7e by {
            assert(name[k] == sec[64 * i + k]);
        }
    }
}

/// The mounted file system: its files, or nothing before a mount succeeds.
pub struct FileSystem {
    mounted: bool,
    files: Vec<DirEntry>,
}

impl View for FileSystem {
    /// The files, in directory order, once mounted; `None` before.
    type V = Option<Seq<(Seq<u8>, u32, u32)>>;

    closed spec fn view(&self) -> Self::V {
        if self.mounted {
            Some(Seq::new(self.files@.len(), |i: int| self.files@[i]@))
        } else {
            None
        }
    }
}

/// Index of the first file named `name` in `files`, from `i` on.
pub open spec fn find_from(files: Seq<(Seq<u8>, u32, u32)>, name: Seq<u8>, i: int) -> Option<int>
    decreases files.len() - i,
{
    if i >= files.len() || i < 0 {
        None
    } else if files[i].0 == name {
        Some(i)
    } else {
        find_from(files, name, i + 1)
    }
}

/// What reading file `name` into a buffer of `cap` bytes should do: the
/// error, or `(size, first sector on the disk)`.
pub open spec fn read_answer(fs: Option<Seq<(Seq<u8>, u32, u32)>>, name: Seq<u8>, cap: int) -> Result<
    (int, u32),
    FsError,
> {
    match fs {
        None => Err(FsError::NotMounted),
        Some(files) => if name.len() == 0 || name.len() > NAME_LEN {
            Err(FsError::NotFound)
        } else {
            match find_from(files, name, 0) {
                None => Err(FsError::NotFound),
                Some(i) => if files[i].1 > cap || files[i].1 > MAX_FILE_SIZE {
                    Err(FsError::TooLarge)
                } else {
                    Ok((files[i].1 as int, ((FS_BASE_LBA + files[i].2) % 0x1_0000_0000) as u32))
                },
            }
        },
    }
}

impl FileSystem {
    /// Not mounted.
    pub fn new() -> (fs: FileSystem)
        ensures
            fs@ is None,
    {
        FileSystem { mounted: false, files: Vec::new() }
    }

    pub fn is_mounted(&self) -> (b: bool)
        ensures
            b == self@ is Some,
    {
        self.mounted
    }

    /// Parses the directory sector for `file_count` files (as the superblock
    /// declared) and mounts them. On a bad entry nothing is mounted.
    pub fn mount_directory(&mut self, sector: &[u8], file_count: usize) -> (r: Result<usize, FsError>)
        requires
            sector@.len() == 512,
            file_count <= MAX_FILES,
        ensures
            (forall|i: int| 0 <= i < file_count ==> entry_valid(sector@, i)) ==> r == Ok::<usize, FsError>(file_count)
                && final(self)@ == Some(Seq::new(file_count as nat, |i: int| entry_at(sector@, i))),
            !(forall|i: int| 0 <= i < file_count ==> entry_valid(sector@, i)) ==> r == Err::<usize, FsError>(
                FsError::BadDirectory,
            ) && final(self)@ is None,
    {
        self.mounted = false;
        let mut files: Vec<DirEntry> = Vec::new();
        let mut i: usize = 0;
        while i < file_count
            invariant
                i <= file_count <= MAX_FILES,
                sector@.len() == 512,
                !self.mounted,
                files@.len() == i,
                forall|j: int| 0 <= j < i ==> entry_valid(sector@, j),
                forall|j: int| 0 <= j < i ==> (#[trigger] files@[j])@ == entry_at(sector@, j),
            decreases file_count - i,
        {
            let off = i * DIR_ENTRY_SIZE;
            let mut name_len: usize = 0;
            while name_len < NAME_LEN && sector[off + name_len] != 0
                invariant
                    name_len <= NAME_LEN,
                    off == i * 64,
                    i < MAX_FILES,
                    sector@.len() == 512,
                    name_len_from(sector@, off as int, 0) == name_len_from(
                        sector@,
                        off as int,
                        name_len as int,
                    ),
                decreases NAME_LEN - name_len,
            {
                name_len += 1;
            }
            let ghost e = entry_at(sector@, i as int);
            assert(name_len == name_len_from(sector@, off as int, 0));
            assert(e.0 =~= sector@.subrange(off as int, off + name_len));
            if name_len == 0 {
                assert(!entry_valid(sector@, i as int));
                return Err(FsError::BadDirectory);
            }
            let mut name: Vec<u8> = Vec::new();
            let mut k: usize = 0;
            while k < name_len
                invariant
                    !self.mounted,
                    i < file_count <= MAX_FILES,
                    k <= name_len <= NAME_LEN,
                    off == i * 64,
                    i < MAX_FILES,
                    sector@.len() == 512,
                    e == entry_at(sector@, i as int),
                    e.0 == sector@.subrange(off as int, off + name_len),
                    off + name_len <= 512,
                    name_len == e.0.len(),
                    name@ == e.0.subrange(0, k as int),
                    forall|m: int| 0 <= m < k ==> 0x21 <= #[trigger] e.0[m] <= 0x7e,
                decreases name_len - k,
            {
                let b = sector[off + k];
                assert(b == e.0[k as int]);
                if !(0x21 <= b && b <= 0x7e) {
                    assert(!entry_valid(sector@, i as int));
                    return Err(FsError::BadDirectory);
                }
                name.push(b);
                k += 1;
                assert(name@ =~= e.0.subrange(0, k as int));
            }
            assert(name@ =~= e.0);
            let size = read_u32(sector, off + 32);
            let lba_off = read_u32(sector, off + 36);
            if size as usize > MAX_FILE_SIZE || lba_off < 2 {
                assert(!entry_valid(sector@, i as int));
                return Err(FsError::BadDirectory);
            }
            assert(entry_valid(sector@, i as int));
            files.push(DirEntry { name, size, lba_off });
            i += 1;
        }
        self.files = files;
        self.mounted = true;
        assert(self@->0 =~= Seq::new(file_count as nat, |j: int| entry_at(sector@, j)));
        Ok(file_count)
    }

    /// Looks up file `name` for a read into a buffer of `cap` bytes: the
    /// file's size and the disk sector its data starts at.
    pub fn lookup(&self, name: &[u8], cap: usize) -> (r: Result<(usize, u32), FsError>)
        ensures
            match read_answer(self@, name@, cap as int) {
                Ok((size, lba)) => r == Ok::<(usize, u32), FsError>((size as usize, lba)),
                Err(e) => r == Err::<(usize, u32), FsError>(e),
            },
    {
        if !self.mounted {
            return Err(FsError::NotMounted);
        }
        if name.len() == 0 || name.len() > NAME_LEN {
            return Err(FsError::NotFound);
        }
        let ghost files = self@->0;
        let mut i: usize = 0;
        while i < self.files.len()
            invariant
                self.mounted,
                files == self@->0,
                0 < name@.len() <= NAME_LEN,
                i <= self.files@.len(),
                find_from(files, name@, 0) == find_from(files, name@, i as int),
            decreases self.files@.len() - i,
        {
            let entry = &self.files[i];
            assert(files[i as int] == self.files@[i as int]@);
            if bytes_equal(entry.name.as_slice(), name) {
                assert(files[i as int].0 == name@);
                assert(find_from(files, name@, i as int) == Some(i as int));
                if entry.size as usize > cap || entry.size as usize > MAX_FILE_SIZE {
                    return Err(FsError::TooLarge);
                }
                let lba = if entry.lba_off <= u32::MAX - FS_BASE_LBA {
                    FS_BASE_LBA + entry.lba_off
                } else {
                    entry.lba_off - (u32::MAX - FS_BASE_LBA) - 1
                };
                return Ok((entry.size as usize, lba));
            }
            i += 1;
        }
        Err(FsError::NotFound)
    }
}

fn bytes_equal(a: &[u8], b: &[u8]) -> (eq: bool)
    ensures
        eq == (a@ == b@),
{
    if a.len() != b.len() {
        return false;
    }
    let mut i: usize = 0;
    while i < a.len()
        invariant
            i <= a@.len(),
            a@.len() == b@.len(),
            forall|j: int| 0 <= j < i ==> a@[j] == b@[j],
        decreases a@.len() - i,
    {
        if a[i] != b[i] {
            return false;
        }
        i += 1;
    }
    assert(a@ =~= b@);
    true
}

/// Sectors a read of `size` bytes transfers: whole sectors.
pub open spec fn transfer_len(size: int) -> int {
    (size + 511) / 512 * 512
}

/// Bytes of whole sectors that hold `size` bytes of file data.
pub fn transfer_bytes(size: usize) -> (n: usize)
    requires
        size <= MAX_FILE_SIZE,
    ensures
        n == transfer_len(size as int),
        n <= MAX_FILE_SIZE,
{
    (size + 511) / 512 * 512
}

/// Copies the first `size` bytes the disk returned into the caller's buffer.
pub fn copy_out(scratch: &[u8], size: usize, buf: &mut [u8])
    requires
        size <= scratch@.len(),
        size <= old(buf)@.len(),
    ensures
        final(buf)@.len() == old(buf)@.len(),
        final(buf)@.subrange(0, size as int) == scratch@.subrange(0, size as int),
        final(buf)@.subrange(size as int, final(buf)@.len() as int) == old(buf)@.subrange(
            size as int,
            old(buf)@.len() as int,
        ),
{
    let mut i: usize = 0;
    while i < size
        invariant
            i <= size,
            size <= scratch@.len(),
            buf@.len() == old(buf)@.len(),
            size <= buf@.len(),
            forall|j: int| 0 <= j < i ==> buf@[j] == scratch@[j],
            forall|j: int| i <= j < buf@.len() ==> buf@[j] == old(buf)@[j],
        decreases size - i,
    {
        buf[i] = scratch[i];
        i += 1;
    }
    assert(buf@.subrange(0, size as int) =~= scratch@.subrange(0, size as int));
    assert(buf@.subrange(size as int, buf@.len() as int) =~= old(buf)@.subrange(
        size as int,
        old(buf)@.len() as int,
    ));
}

/// What a read does once the file has been looked up.
pub enum ReadStep {
    /// The read's answer, with nothing to transfer.
    Done(Result<usize, FsError>),
    /// Transfer `bytes` bytes (whole sectors) starting at sector `lba`, then
    /// keep the first `size` of them.
    Transfer { lba: u32, bytes: usize, size: usize },
}

/// The next step of a read after the lookup answered `found`: its error, an
/// empty file answered without touching the disk, or the sectors to transfer.
pub fn read_step(found: Result<(usize, u32), FsError>) -> (s: ReadStep)
    ensures
        s == match found {
            Err(e) => ReadStep::Done(Err(e)),
            Ok((size, lba)) => if size > MAX_FILE_SIZE {
                ReadStep::Done(Err(FsError::TooLarge))
            } else if size == 0 {
                ReadStep::Done(Ok(0))
            } else {
                (ReadStep::Transfer { lba, bytes: transfer_len(size as int) as usize, size })
            },
        },
{
    match found {
        Err(e) => ReadStep::Done(Err(e)),
        Ok((size, lba)) => {
            if size > MAX_FILE_SIZE {
                ReadStep::Done(Err(FsError::TooLarge))
            } else if size == 0 {
                ReadStep::Done(Ok(0))
            } else {
                ReadStep::Transfer { lba, bytes: transfer_bytes(size), size }
            }
        },
    }
}

/// The answer to a read of `size` bytes once the transfer into `scratch`
/// answered `read`: too large when `size` does not fit `scratch` or `buf`,
/// else the drive's error, or the size, with the data copied into the front
/// of `buf`.
pub fn finish_read(size: usize, read: Result<(), AtaError>, scratch: &[u8], buf: &mut [u8]) -> (r:
    Result<usize, FsError>)
    ensures
        final(buf)@.len() == old(buf)@.len(),
        size > scratch@.len() || size > old(buf)@.len() ==> r == Err::<usize, FsError>(
            FsError::TooLarge,
        ) && final(buf)@ == old(buf)@,
        size <= scratch@.len() && size <= old(buf)@.len() ==> match read {
            Err(e) => r == Err::<usize, FsError>(FsError::Ata(e)) && final(buf)@ == old(buf)@,
            Ok(_) => r == Ok::<usize, FsError>(size) && final(buf)@.subrange(0, size as int)
                == scratch@.subrange(0, size as int) && final(buf)@.subrange(
                size as int,
                final(buf)@.len() as int,
            ) == old(buf)@.subrange(size as int, old(buf)@.len() as int),
        },
{
    if size > scratch.len() || size > buf.len() {
        return Err(FsError::TooLarge);
    }
    match read {
        Err(e) => Err(FsError::Ata(e)),
        Ok(_) => {
            copy_out(scratch, size, buf);
            Ok(size)
        },
    }
}

/// The banner for what mounting answered.
pub fn banner(mounted: Result<usize, FsError>) -> (b: Banner)
    ensures
        b.mounted == mounted is Ok,
        b.file_count == match mounted {
            Ok(n) => n,
            Err(_) => 0,
        },
        b.detail == match mounted {
            Ok(_) => "mounted",
            Err(FsError::Ata(AtaError::NotPresent)) => "no ata drive",
            Err(FsError::Ata(AtaError::Timeout)) => "ata timeout",
            Err(FsError::BadSuperblock) => "bad superblock",
            Err(_) => "mount failed",
        },
{
    match mounted {
        Ok(count) => Banner { mounted: true, file_count: count, detail: "mounted" },
        Err(FsError::Ata(AtaError::NotPresent)) => Banner {
            mounted: false,
            file_count: 0,
            detail: "no ata drive",
        },
        Err(FsError::Ata(AtaError::Timeout)) => Banner {
            mounted: false,
            file_count: 0,
            detail: "ata timeout",
        },
        Err(FsError::BadSuperblock) => Banner {
            mounted: false,
            file_count: 0,
            detail: "bad superblock",
        },
        Err(_) => Banner { mounted: false, file_count: 0, detail: "mount failed" },
    }
}

/// The self-test verdict for reading `hello.txt`: what the read answered
/// and the buffer it filled.
pub fn self_test(read: Result<usize, FsError>, buf: &[u8]) -> (t: SelfTest)
    ensures
        t.ok == match read {
            Ok(n) => n == HELLO_TXT_CONTENTS.spec_bytes().len() && n <= buf@.len() && buf@.subrange(0, n as int)
                == HELLO_TXT_CONTENTS.spec_bytes(),
            Err(_) => false,
        },
        t.detail == match read {
            Ok(_) => if t.ok {
                "hello.txt ok"
            } else {
                "hello.txt contents mismatch"
            },
            Err(FsError::NotMounted) => "not mounted",
            Err(FsError::NotFound) => "hello.txt missing",
            Err(_) => "read failed",
        },
{
    let expected = HELLO_TXT_CONTENTS.as_bytes();
    match read {
        Ok(n) => {
            if n == expected.len() && n <= buf.len() && bytes_equal(&buf[0..n], expected) {
                SelfTest { ok: true, detail: "hello.txt ok" }
            } else {
                SelfTest { ok: false, detail: "hello.txt contents mismatch" }
            }
        },
        Err(FsError::NotMounted) => SelfTest { ok: false, detail: "not mounted" },
        Err(FsError::NotFound) => SelfTest { ok: false, detail: "hello.txt missing" },
        Err(_) => SelfTest { ok: false, detail: "read failed" },
    }
}

} // verus!
