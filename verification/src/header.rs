//! The header of a TZif data block.

use crate::bytes;
use crate::bytes::from_be_bytes_u32_to_usize;
use crate::error::{Error, Fault, HeaderFault};
use vstd::prelude::*;

verus! {

/// The number of bytes in a header.
pub const HEADER_LEN: usize = 44;

/// The header for a TZif formatted file.
///
/// V2+ TZif format have two headers: one for V1 data, and then a second
/// following the V1 data block that describes another data block which uses
/// 64-bit timestamps. The two headers both have the same format and both
/// use 32-bit big-endian encoded integers.
#[derive(Debug)]
pub struct Header {
    /// The size of the timestamps encoded in the data block.
    ///
    /// This is guaranteed to be either 4 (for V1) or 8 (for the 64-bit header
    /// block in V2+).
    pub time_size: usize,
    /// The file format version.
    ///
    /// Note that this is either a NUL byte (for version 1), or an ASCII byte
    /// corresponding to the version number. That is, `0x32` for `2`, `0x33`
    /// for `3` or `0x34` for `4`.
    pub version: u8,
    /// Number of UT/local indicators stored in the file.
    ///
    /// This is checked to be either equal to `0` or equal to `tzh_typecnt`.
    pub tzh_ttisutcnt: usize,
    /// The number of standard/wall indicators stored in the file.
    ///
    /// This is checked to be either equal to `0` or equal to `tzh_typecnt`.
    pub tzh_ttisstdcnt: usize,
    /// The number of leap seconds for which data entries are stored in the
    /// file.
    pub tzh_leapcnt: usize,
    /// The number of transition times for which data entries are stored in
    /// the file.
    pub tzh_timecnt: usize,
    /// The number of local time types for which data entries are stored in the
    /// file.
    ///
    /// This is checked to be at least `1`.
    pub tzh_typecnt: usize,
    /// The number of bytes of time zone abbreviation strings stored in the
    /// file.
    ///
    /// This is checked to be at least `1`.
    pub tzh_charcnt: usize,
}

/// The four bytes that a header starts with, `TZif`.
pub open spec fn magic() -> Seq<u8> {
    seq![0x54u8, 0x5au8, 0x69u8, 0x66u8]
}

/// The `i`th of the six counts in a header. They follow the magic bytes, the
/// version and fifteen reserved bytes, four bytes each.
pub open spec fn count(b: Seq<u8>, i: int) -> nat {
    bytes::be_uint(b.subrange(20 + 4 * i, 24 + 4 * i))
}

/// The header at the start of `b`, or what is wrong with it. Each count fits
/// in a `usize`, which has at least 32 bits.
pub open spec fn header_of(time_size: usize, b: Seq<u8>) -> Result<Header, HeaderFault> {
    let isutcnt = count(b, 0);
    let isstdcnt = count(b, 1);
    let leapcnt = count(b, 2);
    let timecnt = count(b, 3);
    let typecnt = count(b, 4);
    let charcnt = count(b, 5);
    if b.len() < HEADER_LEN {
        Err(HeaderFault::TooShort)
    } else if b.take(4) != magic() {
        Err(HeaderFault::Magic)
    } else if isutcnt != 0 && isutcnt != typecnt {
        Err(HeaderFault::UtLocalCount { isutcnt, typecnt })
    } else if isstdcnt != 0 && isstdcnt != typecnt {
        Err(HeaderFault::StandardWallCount { isstdcnt, typecnt })
    } else if typecnt < 1 {
        Err(HeaderFault::NoTypes { typecnt })
    } else if charcnt < 1 {
        Err(HeaderFault::NoDesignations { charcnt })
    } else {
        Ok(
            Header {
                time_size,
                version: b[4],
                tzh_ttisutcnt: isutcnt as usize,
                tzh_ttisstdcnt: isstdcnt as usize,
                tzh_leapcnt: leapcnt as usize,
                tzh_timecnt: timecnt as usize,
                tzh_typecnt: typecnt as usize,
                tzh_charcnt: charcnt as usize,
            },
        )
    }
}

/// Reads the `i`th of the six counts in a header. The `context` starts the
/// message of the error that is returned where the count is not a `usize`.
fn read_count(context: &str, bytes: &[u8], i: usize) -> (r: Result<usize, Error>)
    requires
        bytes@.len() >= HEADER_LEN,
        i < 6,
    ensures
        match r {
            Ok(n) => n == count(bytes@, i as int),
            Err(e) => count(bytes@, i as int) > usize::MAX && e@ == context@ + (Fault::Integer {
                n: count(bytes@, i as int),
            }).text(),
        },
        count(bytes@, i as int) <= u32::MAX,
{
    let (_, tail) = bytes.split_at(20 + 4 * i);
    let (count_bytes, _) = tail.split_at(4);
    assert(count_bytes@ =~= bytes@.subrange(20 + 4 * i, 24 + 4 * i));
    proof {
        bytes::lemma_be_uint_4(count_bytes@);
    }
    match from_be_bytes_u32_to_usize(count_bytes) {
        Ok(n) => Ok(n),
        Err(e) => Err(Error::within(context, e)),
    }
}

impl Header {
    /// What every header satisfies that was parsed.
    pub open spec fn wf(&self) -> bool {
        &&& self.time_size == 4 || self.time_size == 8
        &&& self.tzh_ttisutcnt == 0 || self.tzh_ttisutcnt == self.tzh_typecnt
        &&& self.tzh_ttisstdcnt == 0 || self.tzh_ttisstdcnt == self.tzh_typecnt
        &&& self.tzh_typecnt >= 1
        &&& self.tzh_charcnt >= 1
    }

    /// The number of bytes that the transition times take.
    pub open spec fn times_len(&self) -> nat {
        self.tzh_timecnt as nat * self.time_size as nat
    }

    /// The number of bytes that the local time types take.
    pub open spec fn types_len(&self) -> nat {
        self.tzh_typecnt as nat * 6
    }

    /// The number of bytes that the leap second records take.
    pub open spec fn leaps_len(&self) -> nat {
        self.tzh_leapcnt as nat * (self.time_size as nat + 4)
    }

    /// The number of bytes that the data block takes.
    pub open spec fn data_len(&self) -> nat {
        self.times_len() + self.tzh_timecnt as nat + self.types_len() + self.tzh_charcnt as nat
            + self.leaps_len() + self.tzh_ttisstdcnt as nat + self.tzh_ttisutcnt as nat
    }

    /// What is wrong with the size of the data block, if anything: it, or a
    /// part of it, has more bytes than a `usize` can count.
    pub open spec fn data_len_fault(&self) -> Option<Fault> {
        if self.times_len() > usize::MAX {
            Some(Fault::TimeCount { count: self.tzh_timecnt as nat })
        } else if self.types_len() > usize::MAX {
            Some(Fault::TypeCount { count: self.tzh_typecnt as nat })
        } else if self.leaps_len() > usize::MAX {
            Some(Fault::LeapCount { count: self.tzh_leapcnt as nat })
        } else if self.data_len() > usize::MAX {
            Some(Fault::BlockTooBig { version: self.version as nat })
        } else {
            None
        }
    }

    /// Parse the header record from the given bytes.
    ///
    /// Upon success, return the header and all bytes after the header.
    ///
    /// The given `time_size` must be 4 or 8, corresponding to either the
    /// V1 header block or the V2+ header block, respectively.
    pub fn parse(time_size: usize, bytes: &[u8]) -> (r: Result<(Header, &[u8]), Error>)
        requires
            time_size == 4 || time_size == 8,
        ensures
            match header_of(time_size, bytes@) {
                Ok(h) => r matches Ok((header, rest)) && header == h && header.wf() && rest@
                    == bytes@.skip(HEADER_LEN as int),
                Err(fault) => r matches Err(e) && e@ == fault.text(),
            },
    {
        if bytes.len() < HEADER_LEN {
            return Err(Error::fixed("invalid header: too short"));
        }
        if bytes[0] != 0x54 || bytes[1] != 0x5a || bytes[2] != 0x69 || bytes[3] != 0x66 {
            assert(bytes@.take(4) != magic());
            return Err(Error::fixed("invalid header: magic bytes mismatch"));
        }
        assert(bytes@.take(4) =~= magic());
        let version: u8 = bytes[4];
        let tzh_ttisutcnt: usize = read_count("failed to parse tzh_ttisutcnt: ", bytes, 0)?;
        let tzh_ttisstdcnt: usize = read_count("failed to parse tzh_ttisstdcnt: ", bytes, 1)?;
        let tzh_leapcnt: usize = read_count("failed to parse tzh_leapcnt: ", bytes, 2)?;
        let tzh_timecnt: usize = read_count("failed to parse tzh_timecnt: ", bytes, 3)?;
        let tzh_typecnt: usize = read_count("failed to parse tzh_typecnt: ", bytes, 4)?;
        let tzh_charcnt: usize = read_count("failed to parse tzh_charcnt: ", bytes, 5)?;
        let (_, rest) = bytes.split_at(HEADER_LEN);

        if tzh_ttisutcnt != 0 && tzh_ttisutcnt != tzh_typecnt {
            return Err(Error::ut_local_count(tzh_ttisutcnt, tzh_typecnt));
        }
        if tzh_ttisstdcnt != 0 && tzh_ttisstdcnt != tzh_typecnt {
            return Err(Error::standard_wall_count(tzh_ttisstdcnt, tzh_typecnt));
        }
        if tzh_typecnt < 1 {
            return Err(Error::no_types(tzh_typecnt));
        }
        if tzh_charcnt < 1 {
            return Err(Error::no_designations(tzh_charcnt));
        }
        let header = Header {
            time_size,
            version,
            tzh_ttisutcnt,
            tzh_ttisstdcnt,
            tzh_leapcnt,
            tzh_timecnt,
            tzh_typecnt,
            tzh_charcnt,
        };
        Ok((header, rest))
    }

    /// Returns true if this header is for a 32-bit data block.
    ///
    /// When false, it is guaranteed that this header is for a 64-bit data
    /// block.
    pub fn is_32bit(&self) -> (r: bool)
        ensures
            r == (self.time_size == 4),
            self.wf() && !r ==> self.time_size == 8,
    {
        self.time_size == 4
    }

    /// Returns the size of the data block, in bytes, for this header.
    ///
    /// This returns an error if the arithmetic required to compute the
    /// length would overflow.
    ///
    /// This is useful for, e.g., skipping over the 32-bit V1 data block in
    /// V2+ TZif formatted files.
    pub fn data_block_len(&self) -> (r: Result<usize, Error>)
        requires
            self.time_size + 4 <= usize::MAX,
        ensures
            match self.data_len_fault() {
                None => r matches Ok(n) && n == self.data_len(),
                Some(fault) => r matches Err(e) && e@ == fault.text(),
            },
    {
        let a: usize = self.transition_times_len()?;
        let b: usize = self.transition_types_len()?;
        let c: usize = self.local_time_types_len()?;
        let d: usize = self.time_zone_designations_len()?;
        let e: usize = self.leap_second_len()?;
        let f: usize = self.standard_wall_len()?;
        let g: usize = self.ut_local_len()?;
        let sum: u128 = a as u128 + b as u128 + c as u128 + d as u128 + e as u128 + f as u128
            + g as u128;
        if sum <= usize::MAX as u128 {
            Ok(sum as usize)
        } else {
            Err(Error::block_too_big(self.version))
        }
    }

    /// Returns the number of bytes that the transition times take, or an
    /// error if it is not a `usize`.
    pub fn transition_times_len(&self) -> (r: Result<usize, Error>)
        ensures
            match r {
                Ok(n) => n == self.times_len(),
                Err(e) => self.times_len() > usize::MAX && e@ == (Fault::TimeCount {
                    count: self.tzh_timecnt as nat,
                }).text(),
            },
    {
        match self.tzh_timecnt.checked_mul(self.time_size) {
            Some(n) => Ok(n),
            None => Err(Error::time_count(self.tzh_timecnt)),
        }
    }

    /// Returns the number of bytes that the transition types take.
    pub fn transition_types_len(&self) -> (r: Result<usize, Error>)
        ensures
            r == Ok::<usize, Error>(self.tzh_timecnt),
    {
        Ok(self.tzh_timecnt)
    }

    /// Returns the number of bytes that the local time types take, or an
    /// error if it is not a `usize`.
    pub fn local_time_types_len(&self) -> (r: Result<usize, Error>)
        ensures
            match r {
                Ok(n) => n == self.types_len(),
                Err(e) => self.types_len() > usize::MAX && e@ == (Fault::TypeCount {
                    count: self.tzh_typecnt as nat,
                }).text(),
            },
    {
        match self.tzh_typecnt.checked_mul(6) {
            Some(n) => Ok(n),
            None => Err(Error::type_count(self.tzh_typecnt)),
        }
    }

    /// Returns the number of bytes that the designations take.
    pub fn time_zone_designations_len(&self) -> (r: Result<usize, Error>)
        ensures
            r == Ok::<usize, Error>(self.tzh_charcnt),
    {
        Ok(self.tzh_charcnt)
    }

    /// Returns the number of bytes that the leap second records take, or an
    /// error if it is not a `usize`.
    pub fn leap_second_len(&self) -> (r: Result<usize, Error>)
        requires
            self.time_size + 4 <= usize::MAX,
        ensures
            match r {
                Ok(n) => n == self.leaps_len(),
                Err(e) => self.leaps_len() > usize::MAX && e@ == (Fault::LeapCount {
                    count: self.tzh_leapcnt as nat,
                }).text(),
            },
    {
        let record_len: usize = self.time_size + 4;
        match self.tzh_leapcnt.checked_mul(record_len) {
            Some(n) => Ok(n),
            None => Err(Error::leap_count(self.tzh_leapcnt)),
        }
    }

    /// Returns the number of bytes that the standard/wall indicators take.
    pub fn standard_wall_len(&self) -> (r: Result<usize, Error>)
        ensures
            r == Ok::<usize, Error>(self.tzh_ttisstdcnt),
    {
        Ok(self.tzh_ttisstdcnt)
    }

    /// Returns the number of bytes that the UT/local indicators take.
    pub fn ut_local_len(&self) -> (r: Result<usize, Error>)
        ensures
            r == Ok::<usize, Error>(self.tzh_ttisutcnt),
    {
        Ok(self.tzh_ttisutcnt)
    }
}

} // verus!
