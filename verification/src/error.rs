//! Why data is refused, and the message that says so.

use crate::text;
use vstd::prelude::*;

verus! {

/// What is wrong with a header.
pub enum HeaderFault {
    /// There are fewer bytes than a header has.
    TooShort,
    /// The first four bytes are not `TZif`.
    Magic,
    /// The UT/local indicators are neither none nor one for each type.
    UtLocalCount { isutcnt: nat, typecnt: nat },
    /// The standard/wall indicators are neither none nor one for each type.
    StandardWallCount { isstdcnt: nat, typecnt: nat },
    /// There is no local time type.
    NoTypes { typecnt: nat },
    /// There are no designations.
    NoDesignations { charcnt: nat },
}

impl HeaderFault {
    /// The message for this fault.
    pub open spec fn text(self) -> Seq<char> {
        match self {
            HeaderFault::TooShort => "invalid header: too short"@,
            HeaderFault::Magic => "invalid header: magic bytes mismatch"@,
            HeaderFault::UtLocalCount { isutcnt, typecnt } => {
                "expected tzh_ttisutcnt="@ + text::decimal(isutcnt)
                    + " to be zero or equal to tzh_typecnt="@ + text::decimal(typecnt)
            },
            HeaderFault::StandardWallCount { isstdcnt, typecnt } => {
                "expected tzh_ttisstdcnt="@ + text::decimal(isstdcnt)
                    + " to be zero or equal to tzh_typecnt="@ + text::decimal(typecnt)
            },
            HeaderFault::NoTypes { typecnt } => {
                "expected tzh_typecnt="@ + text::decimal(typecnt) + " to be at least 1"@
            },
            HeaderFault::NoDesignations { charcnt } => {
                "expected tzh_charcnt="@ + text::decimal(charcnt) + " to be at least 1"@
            },
        }
    }
}

/// What is wrong with TZif data.
pub enum Fault {
    /// The header of the 32-bit data block is invalid.
    Header32 { fault: HeaderFault },
    /// The header of the 64-bit data block is invalid.
    Header64 { fault: HeaderFault },
    /// An integer does not fit in a `usize`.
    Integer { n: nat },
    /// The transition times take more bytes than a `usize` can count.
    TimeCount { count: nat },
    /// The local time types take more bytes than a `usize` can count.
    TypeCount { count: nat },
    /// The leap second records take more bytes than a `usize` can count.
    LeapCount { count: nat },
    /// The data block takes more bytes than a `usize` can count.
    BlockTooBig { version: nat },
    /// There are fewer bytes left than `what` takes.
    TooFewBytes { what: Seq<char>, at: nat, len: nat },
    /// A transition refers to a local time type that does not exist.
    TypeIndex { index: nat, typecnt: nat },
    /// The offset of a local time type is not in the supported range.
    Offset { offset: int },
    /// The designations are not valid UTF-8.
    NotUtf8 { bytes: Seq<u8> },
    /// The designation of a local time type starts at no character.
    DesignationStart { i: nat, start: nat, len: nat },
    /// The designation of a local time type does not end.
    DesignationUnterminated { i: nat, start: nat, designations: Seq<char> },
    /// The designation of a local time type ends too far away.
    DesignationEnd { i: nat, start: nat, end: nat },
    /// A UT/local indicator is set though no standard/wall indicator is.
    UtWithoutStandard { byte: nat, i: nat },
    /// A standard/wall indicator is neither 0 nor 1.
    StandardWall { byte: nat, i: nat },
    /// The indicators of a local time type say UT and wall.
    UtWall { i: nat },
    /// An indicator of a local time type is neither 0 nor 1.
    Indicators { i: nat },
    /// The data ends where the footer should start.
    FooterMissing,
    /// The footer does not start with a line feed.
    FooterStart { found: u8 },
    /// The footer does not end in the bytes that are scanned for its end.
    FooterUnterminated { scanned: Seq<u8> },
    /// The TZ string in the footer is not a POSIX TZ string.
    PosixTz { message: Seq<char> },
    /// The TZ string in the footer has DST but does not say when.
    DstWithoutRule { tz: Seq<u8> },
}

impl Fault {
    /// The message for this fault.
    pub open spec fn text(self) -> Seq<char> {
        match self {
            Fault::Header32 { fault } => "failed to parse 32-bit header: "@ + fault.text(),
            Fault::Header64 { fault } => "failed to parse 64-bit header: "@ + fault.text(),
            Fault::Integer { n } => {
                "failed to parse integer "@ + text::decimal(n) + " (too big, max allowed is "@
                    + text::decimal(usize::MAX as nat)
            },
            Fault::TimeCount { count } => {
                "tzh_timecnt value "@ + text::decimal(count) + " is too big"@
            },
            Fault::TypeCount { count } => {
                "tzh_typecnt value "@ + text::decimal(count) + " is too big"@
            },
            Fault::LeapCount { count } => {
                "tzh_leapcnt value "@ + text::decimal(count) + " is too big"@
            },
            Fault::BlockTooBig { version } => {
                "length of data block in V"@ + text::decimal(version) + " tzfile is too big"@
            },
            Fault::TooFewBytes { what, at, len } => {
                "expected at least "@ + text::decimal(at) + " bytes for "@ + what
                    + ", but found only "@ + text::decimal(len) + " bytes"@
            },
            Fault::TypeIndex { index, typecnt } => {
                "found transition type index "@ + text::decimal(index)
                    + ",\n                     but there are only "@ + text::decimal(typecnt)
                    + " local time types"@
            },
            Fault::Offset { offset } => {
                "found local time type with out-of-bounds offset: "@ + text::signed_decimal(offset)
            },
            Fault::NotUtf8 { bytes } => {
                "time zone designations are not valid UTF-8: \""@ + text::bytes_text(bytes) + "\""@
            },
            Fault::DesignationStart { i, start, len } => {
                "local time type "@ + text::decimal(i) + " has designation index of "@
                    + text::decimal(start) + ", but cannot be more than "@ + text::decimal(len)
            },
            Fault::DesignationUnterminated { i, start, designations } => {
                "local time type "@ + text::decimal(i) + " has designation index of "@
                    + text::decimal(start)
                    + ", but could not find NUL terminator after it in designations: "@
                    + text::debug_text(designations)
            },
            Fault::DesignationEnd { i, start, end } => {
                "local time type "@ + text::decimal(i) + " has designation range of "@
                    + text::decimal(start) + ".."@ + text::decimal(end) + ", but end is too big"@
            },
            Fault::UtWithoutStandard { byte, i } => {
                "found UT/local indicator '"@ + text::decimal(byte) + "' for local time type "@
                    + text::decimal(i)
                    + ", but it must be 0 since all std/wall indicators are 0"@
            },
            Fault::StandardWall { byte, i } => {
                "found invalid std/wall indicator '"@ + text::decimal(byte)
                    + "' for local time type "@ + text::decimal(i) + ", it must be 0 or 1"@
            },
            Fault::UtWall { i } => {
                "found illegal ut-wall combination for local time type "@ + text::decimal(i)
                    + ", only local-wall, local-standard and ut-standard are allowed"@
            },
            Fault::Indicators { i } => {
                "found illegal std/wall or ut/local value for local time type "@ + text::decimal(i)
                    + ", each must be 0 or 1"@
            },
            Fault::FooterMissing => {
                "invalid V2+ TZif footer, expected \\n, but found unexpected end of data"@
            },
            Fault::FooterStart { found } => {
                "invalid V2+ TZif footer, expected "@ + text::byte_text(0x0a) + ", but found "@
                    + text::byte_text(found)
            },
            Fault::FooterUnterminated { scanned } => {
                "invalid V2 TZif footer, could not find "@ + text::byte_text(0x0a)
                    + " terminator in: \""@ + text::bytes_text(scanned) + "\""@
            },
            Fault::PosixTz { message } => message,
            Fault::DstWithoutRule { tz } => {
                "TZ string `"@ + text::bytes_text(tz)
                    + "` in v3+ tzfile has DST but no transition rules"@
            },
        }
    }
}

/// An error that can be returned when parsing: a message that says why the
/// data is refused.
#[derive(Debug)]
pub struct Error(String);

impl View for Error {
    type V = Seq<char>;

    /// The message.
    closed spec fn view(&self) -> Seq<char> {
        self.0@
    }
}

/// `start`, followed by a number.
fn start_with_decimal(start: &str, n: u64) -> (out: String)
    ensures
        out@ == start@ + text::decimal(n as nat),
{
    let mut out = String::new();
    out.append(start);
    text::push_decimal(&mut out, n);
    assert(out@ =~= start@ + text::decimal(n as nat));
    out
}

impl Error {
    /// The error with the given message.
    pub(crate) fn new(message: String) -> (e: Error)
        ensures
            e@ == message@,
    {
        Error(message)
    }

    /// The message of this error.
    pub fn message(&self) -> (message: &str)
        ensures
            message@ == self@,
    {
        self.0.as_str()
    }

    /// The error whose message is a fixed text.
    pub(crate) fn fixed(message: &str) -> (e: Error)
        ensures
            e@ == message@,
    {
        let mut out = String::new();
        out.append(message);
        assert(out@ =~= message@);
        Error(out)
    }

    /// The error that says in what context `cause` came up.
    pub(crate) fn within(context: &str, cause: Error) -> (e: Error)
        ensures
            e@ == context@ + cause@,
    {
        let mut out = String::new();
        out.append(context);
        out.append(cause.0.as_str());
        assert(out@ =~= context@ + cause@);
        Error(out)
    }

    /// See `HeaderFault::UtLocalCount`.
    pub(crate) fn ut_local_count(isutcnt: usize, typecnt: usize) -> (e: Error)
        ensures
            e@ == (HeaderFault::UtLocalCount {
                isutcnt: isutcnt as nat,
                typecnt: typecnt as nat,
            }).text(),
    {
        let mut out = start_with_decimal("expected tzh_ttisutcnt=", isutcnt as u64);
        out.append(" to be zero or equal to tzh_typecnt=");
        text::push_decimal(&mut out, typecnt as u64);
        Error(out)
    }

    /// See `HeaderFault::StandardWallCount`.
    pub(crate) fn standard_wall_count(isstdcnt: usize, typecnt: usize) -> (e: Error)
        ensures
            e@ == (HeaderFault::StandardWallCount {
                isstdcnt: isstdcnt as nat,
                typecnt: typecnt as nat,
            }).text(),
    {
        let mut out = start_with_decimal("expected tzh_ttisstdcnt=", isstdcnt as u64);
        out.append(" to be zero or equal to tzh_typecnt=");
        text::push_decimal(&mut out, typecnt as u64);
        Error(out)
    }

    /// See `HeaderFault::NoTypes`.
    pub(crate) fn no_types(typecnt: usize) -> (e: Error)
        ensures
            e@ == (HeaderFault::NoTypes { typecnt: typecnt as nat }).text(),
    {
        let mut out = start_with_decimal("expected tzh_typecnt=", typecnt as u64);
        out.append(" to be at least 1");
        Error(out)
    }

    /// See `HeaderFault::NoDesignations`.
    pub(crate) fn no_designations(charcnt: usize) -> (e: Error)
        ensures
            e@ == (HeaderFault::NoDesignations { charcnt: charcnt as nat }).text(),
    {
        let mut out = start_with_decimal("expected tzh_charcnt=", charcnt as u64);
        out.append(" to be at least 1");
        Error(out)
    }

    /// See `Fault::Integer`.
    pub(crate) fn integer(n: u32) -> (e: Error)
        ensures
            e@ == (Fault::Integer { n: n as nat }).text(),
    {
        let mut out = start_with_decimal("failed to parse integer ", n as u64);
        out.append(" (too big, max allowed is ");
        text::push_decimal(&mut out, usize::MAX as u64);
        Error(out)
    }

    /// See `Fault::TimeCount`.
    pub(crate) fn time_count(count: usize) -> (e: Error)
        ensures
            e@ == (Fault::TimeCount { count: count as nat }).text(),
    {
        let mut out = start_with_decimal("tzh_timecnt value ", count as u64);
        out.append(" is too big");
        Error(out)
    }

    /// See `Fault::TypeCount`.
    pub(crate) fn type_count(count: usize) -> (e: Error)
        ensures
            e@ == (Fault::TypeCount { count: count as nat }).text(),
    {
        let mut out = start_with_decimal("tzh_typecnt value ", count as u64);
        out.append(" is too big");
        Error(out)
    }

    /// See `Fault::LeapCount`.
    pub(crate) fn leap_count(count: usize) -> (e: Error)
        ensures
            e@ == (Fault::LeapCount { count: count as nat }).text(),
    {
        let mut out = start_with_decimal("tzh_leapcnt value ", count as u64);
        out.append(" is too big");
        Error(out)
    }

    /// See `Fault::BlockTooBig`.
    pub(crate) fn block_too_big(version: u8) -> (e: Error)
        ensures
            e@ == (Fault::BlockTooBig { version: version as nat }).text(),
    {
        let mut out = start_with_decimal("length of data block in V", version as u64);
        out.append(" tzfile is too big");
        Error(out)
    }

    /// See `Fault::TooFewBytes`.
    pub(crate) fn too_few_bytes(what: &str, at: usize, len: usize) -> (e: Error)
        ensures
            e@ == (Fault::TooFewBytes { what: what@, at: at as nat, len: len as nat }).text(),
    {
        let mut out = start_with_decimal("expected at least ", at as u64);
        out.append(" bytes for ");
        out.append(what);
        out.append(", but found only ");
        text::push_decimal(&mut out, len as u64);
        out.append(" bytes");
        Error(out)
    }

    /// See `Fault::TypeIndex`.
    pub(crate) fn type_index(index: u8, typecnt: usize) -> (e: Error)
        ensures
            e@ == (Fault::TypeIndex { index: index as nat, typecnt: typecnt as nat }).text(),
    {
        let mut out = start_with_decimal("found transition type index ", index as u64);
        out.append(",\n                     but there are only ");
        text::push_decimal(&mut out, typecnt as u64);
        out.append(" local time types");
        Error(out)
    }

    /// See `Fault::Offset`.
    pub(crate) fn offset(offset: i32) -> (e: Error)
        ensures
            e@ == (Fault::Offset { offset: offset as int }).text(),
    {
        let mut out = String::new();
        out.append("found local time type with out-of-bounds offset: ");
        text::push_signed_decimal(&mut out, offset);
        assert(out@ =~= (Fault::Offset { offset: offset as int }).text());
        Error(out)
    }

    /// See `Fault::NotUtf8`.
    pub(crate) fn not_utf8(bytes: &[u8]) -> (e: Error)
        ensures
            e@ == (Fault::NotUtf8 { bytes: bytes@ }).text(),
    {
        let shown = text::bytes_string(bytes);
        let mut out = String::new();
        out.append("time zone designations are not valid UTF-8: \"");
        out.append(shown.as_str());
        out.append("\"");
        assert(out@ =~= (Fault::NotUtf8 { bytes: bytes@ }).text());
        Error(out)
    }

    /// See `Fault::DesignationStart`.
    pub(crate) fn designation_start(i: usize, start: usize, len: usize) -> (e: Error)
        ensures
            e@ == (Fault::DesignationStart {
                i: i as nat,
                start: start as nat,
                len: len as nat,
            }).text(),
    {
        let mut out = start_with_decimal("local time type ", i as u64);
        out.append(" has designation index of ");
        text::push_decimal(&mut out, start as u64);
        out.append(", but cannot be more than ");
        text::push_decimal(&mut out, len as u64);
        Error(out)
    }

    /// See `Fault::DesignationUnterminated`.
    pub(crate) fn designation_unterminated(i: usize, start: usize, designations: &str) -> (e: Error)
        ensures
            e@ == (Fault::DesignationUnterminated {
                i: i as nat,
                start: start as nat,
                designations: designations@,
            }).text(),
    {
        let shown = text::debug_string(designations);
        let mut out = start_with_decimal("local time type ", i as u64);
        out.append(" has designation index of ");
        text::push_decimal(&mut out, start as u64);
        out.append(", but could not find NUL terminator after it in designations: ");
        out.append(shown.as_str());
        Error(out)
    }

    /// See `Fault::DesignationEnd`.
    pub(crate) fn designation_end(i: usize, start: usize, end: usize) -> (e: Error)
        ensures
            e@ == (Fault::DesignationEnd {
                i: i as nat,
                start: start as nat,
                end: end as nat,
            }).text(),
    {
        let mut out = start_with_decimal("local time type ", i as u64);
        out.append(" has designation range of ");
        text::push_decimal(&mut out, start as u64);
        out.append("..");
        text::push_decimal(&mut out, end as u64);
        out.append(", but end is too big");
        Error(out)
    }

    /// See `Fault::UtWithoutStandard`.
    pub(crate) fn ut_without_standard(byte: u8, i: usize) -> (e: Error)
        ensures
            e@ == (Fault::UtWithoutStandard { byte: byte as nat, i: i as nat }).text(),
    {
        let mut out = start_with_decimal("found UT/local indicator '", byte as u64);
        out.append("' for local time type ");
        text::push_decimal(&mut out, i as u64);
        out.append(", but it must be 0 since all std/wall indicators are 0");
        Error(out)
    }

    /// See `Fault::StandardWall`.
    pub(crate) fn standard_wall(byte: u8, i: usize) -> (e: Error)
        ensures
            e@ == (Fault::StandardWall { byte: byte as nat, i: i as nat }).text(),
    {
        let mut out = start_with_decimal("found invalid std/wall indicator '", byte as u64);
        out.append("' for local time type ");
        text::push_decimal(&mut out, i as u64);
        out.append(", it must be 0 or 1");
        Error(out)
    }

    /// See `Fault::UtWall`.
    pub(crate) fn ut_wall(i: usize) -> (e: Error)
        ensures
            e@ == (Fault::UtWall { i: i as nat }).text(),
    {
        let mut out = start_with_decimal(
            "found illegal ut-wall combination for local time type ",
            i as u64,
        );
        out.append(", only local-wall, local-standard and ut-standard are allowed");
        Error(out)
    }

    /// See `Fault::Indicators`.
    pub(crate) fn indicators(i: usize) -> (e: Error)
        ensures
            e@ == (Fault::Indicators { i: i as nat }).text(),
    {
        let mut out = start_with_decimal(
            "found illegal std/wall or ut/local value for local time type ",
            i as u64,
        );
        out.append(", each must be 0 or 1");
        Error(out)
    }

    /// See `Fault::FooterStart`.
    pub(crate) fn footer_start(found: u8) -> (e: Error)
        ensures
            e@ == (Fault::FooterStart { found }).text(),
    {
        let expected = text::byte_string(0x0a);
        let shown = text::byte_string(found);
        let mut out = String::new();
        out.append("invalid V2+ TZif footer, expected ");
        out.append(expected.as_str());
        out.append(", but found ");
        out.append(shown.as_str());
        assert(out@ =~= (Fault::FooterStart { found }).text());
        Error(out)
    }

    /// See `Fault::FooterUnterminated`.
    pub(crate) fn footer_unterminated(scanned: &[u8]) -> (e: Error)
        ensures
            e@ == (Fault::FooterUnterminated { scanned: scanned@ }).text(),
    {
        let expected = text::byte_string(0x0a);
        let found = text::bytes_string(scanned);
        let mut out = String::new();
        out.append("invalid V2 TZif footer, could not find ");
        out.append(expected.as_str());
        out.append(" terminator in: \"");
        out.append(found.as_str());
        out.append("\"");
        assert(out@ =~= (Fault::FooterUnterminated { scanned: scanned@ }).text());
        Error(out)
    }

    /// See `Fault::DstWithoutRule`.
    pub(crate) fn dst_without_rule(tz: &[u8]) -> (e: Error)
        ensures
            e@ == (Fault::DstWithoutRule { tz: tz@ }).text(),
    {
        let shown = text::bytes_string(tz);
        let mut out = String::new();
        out.append("TZ string `");
        out.append(shown.as_str());
        out.append("` in v3+ tzfile has DST but no transition rules");
        assert(out@ =~= (Fault::DstWithoutRule { tz: tz@ }).text());
        Error(out)
    }
}

} // verus!
