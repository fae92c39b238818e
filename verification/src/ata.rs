//! ATA PIO driver for the primary master drive: the decisions around the
//! port I/O. What a status byte means, which registers a 28-bit LBA read
//! programs, whether a read request is well-formed, and how the data words
//! land in the caller's buffer.
use vstd::prelude::*;

verus! {

pub const DATA: u16 = 0x1f0;
pub const SECTOR_COUNT: u16 = 0x1f2;
pub const LBA_LO: u16 = 0x1f3;
pub const LBA_MID: u16 = 0x1f4;
pub const LBA_HI: u16 = 0x1f5;
pub const DRIVE_HEAD: u16 = 0x1f6;
pub const STATUS_CMD: u16 = 0x1f7;

/// Status: the last command failed.
pub const STATUS_ERR: u8 = 0x01;
/// Status: the drive has data to transfer.
pub const STATUS_DRQ: u8 = 0x08;
/// Status: drive fault.
pub const STATUS_DF: u8 = 0x20;
/// Status: the drive is busy.
pub const STATUS_BSY: u8 = 0x80;

/// READ SECTORS (PIO, 28-bit LBA).
pub const CMD_READ_SECTORS: u8 = 0x20;

/// Bytes per sector.
pub const SECTOR_SIZE: usize = 512;

/// Status polls before a wait gives up.
pub const SPIN_LIMIT: u32 = 2_000_000;

/// Drive/head register value selecting the master drive in LBA mode.
pub const DRIVE_MASTER_LBA: u8 = 0xe0;

/// Why a disk operation failed.
#[derive(Clone, Copy, Debug, PartialEq, Eq, Structural)]
pub enum AtaError {
    NotPresent,
    Timeout,
    DriveError,
    BadArgument,
}

impl AtaError {
    /// A short description, as the boot banner prints it.
    pub fn describe(&self) -> (s: &'static str)
        ensures
            s == match *self {
                AtaError::NotPresent => "not present",
                AtaError::Timeout => "timeout",
                AtaError::DriveError => "drive error",
                AtaError::BadArgument => "bad argument",
            },
    {
        match self {
            AtaError::NotPresent => "not present",
            AtaError::Timeout => "timeout",
            AtaError::DriveError => "drive error",
            AtaError::BadArgument => "bad argument",
        }
    }
}

/// What one status poll says about a wait.
#[derive(Clone, Copy, Debug, PartialEq, Eq, Structural)]
pub enum Poll {
    /// The condition waited for holds.
    Ready,
    /// Keep polling.
    Spin,
    /// Give up with this error.
    Fail(AtaError),
}

/// A wait for the drive, bounded by [`SPIN_LIMIT`] status polls.
pub struct Waiter {
    polls: u32,
}

impl Waiter {
    /// Status polls that said to keep waiting so far.
    pub closed spec fn polls_spec(&self) -> int {
        self.polls as int
    }

    /// A wait that has not polled yet.
    pub fn new() -> (w: Waiter)
        ensures
            w.polls_spec() == 0,
    {
        Waiter { polls: 0 }
    }

    /// Takes the verdict of one status poll: the wait's result once the
    /// condition holds or the drive failed, a timeout once the
    /// [`SPIN_LIMIT`]th poll still says to wait, and `None` to poll again.
    pub fn next(&mut self, poll: Poll) -> (r: Option<Result<(), AtaError>>)
        ensures
            match poll {
                Poll::Ready => r == Some(Ok::<(), AtaError>(())),
                Poll::Fail(e) => r == Some(Err::<(), AtaError>(e)),
                Poll::Spin => if old(self).polls_spec() + 1 >= SPIN_LIMIT {
                    r == Some(Err::<(), AtaError>(AtaError::Timeout))
                } else {
                    r is None && final(self).polls_spec() == old(self).polls_spec() + 1
                },
            },
    {
        match poll {
            Poll::Ready => Some(Ok(())),
            Poll::Fail(e) => Some(Err(e)),
            Poll::Spin => {
                if self.polls >= SPIN_LIMIT - 1 {
                    Some(Err(AtaError::Timeout))
                } else {
                    self.polls += 1;
                    None
                }
            },
        }
    }
}

/// Index, counted in 16-bit words of the whole transfer, of word `word`
/// (of the 256 in a sector) of sector `sector`.
pub fn sector_word(sector: usize, word: usize) -> (i: usize)
    requires
        word < 256,
        sector * 512 + 512 <= usize::MAX,
    ensures
        i == sector * 256 + word,
        2 * i + 1 < sector * 512 + 512,
{
    sector * 256 + word
}

/// A poll while waiting for `status & mask` to stop equalling `value`. A
/// floating bus reads 0xff: there is no drive.
pub fn wait_while_step(status: u8, mask: u8, value: u8) -> (p: Poll)
    ensures
        p == if status == 0xff {
            Poll::Fail(AtaError::NotPresent)
        } else if status & mask != value {
            Poll::Ready
        } else {
            Poll::Spin
        },
{
    if status == 0xff {
        return Poll::Fail(AtaError::NotPresent);
    }
    if status & mask != value {
        return Poll::Ready;
    }
    Poll::Spin
}

/// Bit `b` (a single-bit mask) is set in `status`.
pub open spec fn has(status: u8, b: u8) -> bool {
    status & b != 0
}

/// A poll while waiting for the drive to have data ready: busy keeps
/// waiting, an error or fault fails, DRQ is ready.
pub fn drq_step(status: u8) -> (p: Poll)
    ensures
        p == if status == 0xff {
            Poll::Fail(AtaError::NotPresent)
        } else if has(status, STATUS_BSY) {
            Poll::Spin
        } else if has(status, STATUS_ERR) || has(status, STATUS_DF) {
            Poll::Fail(AtaError::DriveError)
        } else if has(status, STATUS_DRQ) {
            Poll::Ready
        } else {
            Poll::Spin
        },
{
    if status == 0xff {
        return Poll::Fail(AtaError::NotPresent);
    }
    if status & STATUS_BSY != 0 {
        return Poll::Spin;
    }
    assert(status & (0x01u8 | 0x20u8) != 0 <==> (status & 0x01u8 != 0 || status & 0x20u8 != 0))
        by (bit_vector);
    if status & (STATUS_ERR | STATUS_DF) != 0 {
        return Poll::Fail(AtaError::DriveError);
    }
    if status & STATUS_DRQ != 0 {
        return Poll::Ready;
    }
    Poll::Spin
}

/// Whether a status read before a sector's data reports an error or fault.
pub fn status_failed(status: u8) -> (b: bool)
    ensures
        b == (has(status, STATUS_ERR) || has(status, STATUS_DF)),
{
    assert(status & (0x01u8 | 0x20u8) != 0 <==> (status & 0x01u8 != 0 || status & 0x20u8 != 0))
        by (bit_vector);
    status & (STATUS_ERR | STATUS_DF) != 0
}

/// The answer to a read of `len` bytes at `lba`: the sector count, or
/// `BadArgument` unless it is a whole, non-zero number of sectors, at most
/// 256, within 28-bit addressing.
pub open spec fn read_request(lba: u32, len: usize) -> Result<usize, AtaError> {
    if len == 0 || len % 512 != 0 || len / 512 > 256 || lba >= 0x1000_0000 {
        Err(AtaError::BadArgument)
    } else {
        Ok((len / 512) as usize)
    }
}

/// Checks a read of `len` bytes at `lba`; returns the sector count.
pub fn check_read(lba: u32, len: usize) -> (r: Result<usize, AtaError>)
    ensures
        r == read_request(lba, len),
{
    if len == 0 || len % SECTOR_SIZE != 0 {
        return Err(AtaError::BadArgument);
    }
    let sector_count = len / SECTOR_SIZE;
    assert(lba & !0x0fff_ffffu32 != 0 <==> lba >= 0x1000_0000) by (bit_vector);
    if sector_count > 256 || (lba & !0x0fff_ffff) != 0 {
        return Err(AtaError::BadArgument);
    }
    if sector_count == 0 {
        return Err(AtaError::BadArgument);
    }
    Ok(sector_count)
}

/// The register values a READ SECTORS of `sector_count` sectors at `lba`
/// programs: drive/head (master, LBA mode, LBA bits 24-27), sector count
/// (256 as 0), and LBA bits 0-7, 8-15 and 16-23.
pub fn command_registers(lba: u32, sector_count: usize) -> (regs: (u8, u8, u8, u8, u8))
    requires
        1 <= sector_count <= 256,
        lba < 0x1000_0000,
    ensures
        regs.0 == 0xe0 + lba / 0x100_0000,
        regs.1 == sector_count % 256,
        regs.2 == lba % 0x100,
        regs.3 == (lba / 0x100) % 0x100,
        regs.4 == (lba / 0x1_0000) % 0x100,
{
    let count_byte = if sector_count == 256 {
        0u8
    } else {
        sector_count as u8
    };
    assert(lba < 0x1000_0000 ==> 0xe0u8 | (((lba >> 24u32) as u8) & 0x0fu8) == 0xe0 + lba / 0x100_0000)
        by (bit_vector);
    assert(lba as u8 == lba % 0x100 && (lba >> 8u32) as u8 == (lba / 0x100) % 0x100 && (lba
        >> 16u32) as u8 == (lba / 0x1_0000) % 0x100) by (bit_vector);
    (
        DRIVE_MASTER_LBA | ((lba >> 24) as u8 & 0x0f),
        count_byte,
        lba as u8,
        (lba >> 8) as u8,
        (lba >> 16) as u8,
    )
}

/// Stores data word `value` read from the drive as bytes `2 * word` and
/// `2 * word + 1` of `buf`, low byte first.
pub fn store_word(buf: &mut [u8], word: usize, value: u16)
    requires
        2 * word + 1 < old(buf)@.len(),
    ensures
        final(buf)@ == old(buf)@.update(2 * word, (value % 256) as u8).update(
            2 * word + 1,
            (value / 256) as u8,
        ),
{
    assert(value as u8 == value % 256 && (value >> 8u16) as u8 == value / 256) by (bit_vector);
    buf[2 * word] = value as u8;
    buf[2 * word + 1] = (value >> 8) as u8;
}

/// Whether the drive answered the probe: the status after selecting it is
/// not a floating bus, and the busy wait ended.
pub fn probe_present(status: u8, busy_wait: Result<(), AtaError>) -> (present: bool)
    ensures
        present == (status != 0xff && busy_wait is Ok),
{
    if status == 0xff {
        return false;
    }
    busy_wait.is_ok()
}

/// Whether a drive answered at probe time.
pub struct Controller {
    present: bool,
}

impl Controller {
    pub closed spec fn present_spec(&self) -> bool {
        self.present
    }

    /// A controller probed with `present` as the answer.
    pub fn new(present: bool) -> (c: Controller)
        ensures
            c.present_spec() == present,
    {
        Controller { present }
    }

    pub fn is_present(&self) -> (b: bool)
        ensures
            b == self.present_spec(),
    {
        self.present
    }

    /// The checks a sector read makes before touching the drive: a well-formed
    /// request to a present drive. Returns the sector count.
    pub fn check(&self, lba: u32, len: usize) -> (r: Result<usize, AtaError>)
        ensures
            r == match read_request(lba, len) {
                Ok(n) => if self.present_spec() {
                    Ok(n)
                } else {
                    Err(AtaError::NotPresent)
                },
                Err(e) => Err(e),
            },
    {
        let n = check_read(lba, len)?;
        if !self.present {
            return Err(AtaError::NotPresent);
        }
        Ok(n)
    }
}

} // verus!
