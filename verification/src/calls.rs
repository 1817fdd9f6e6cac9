//! What calls of the functions of this library return, in terms of the bytes
//! that they are given.
//!
//! Each law is about every call: it requires that a call with some arguments
//! may return some result, and says what that result is.

use crate::bytes;
use crate::bytes::{
    from_be_bytes_i32, from_be_bytes_i64, from_be_bytes_u32, from_be_bytes_u32_to_usize,
    try_split_at,
};
use crate::error::Error;
use crate::header;
use crate::header::Header;
use crate::raw;
use crate::text;
use vstd::prelude::*;

verus! {

/// What a decimal number says: each digit has ten times the weight of the
/// next one.
pub open spec fn decimal_value(s: Seq<char>) -> int
    decreases s.len(),
{
    if s.len() == 0 {
        0
    } else {
        decimal_value(s.drop_last()) * 10 + (s.last() as int - 0x30)
    }
}

/// A number in a message can be read back: it consists of digits, does not
/// start with a zero unless it is zero, and has the right value.
pub proof fn law_decimal_reads_back(n: nat)
    ensures
        decimal_value(text::decimal(n)) == n,
        text::decimal(n).len() >= 1,
        forall|i: int|
            0 <= i < text::decimal(n).len() ==> 0x30 <= #[trigger] text::decimal(n)[i] as int
                <= 0x39,
        n > 0 ==> text::decimal(n)[0] as int != 0x30,
        n < 10 ==> text::decimal(n).len() == 1,
    decreases n,
{
    lemma_digit(n % 10);
    let s = text::decimal(n);
    if n < 10 {
        lemma_digit(n);
        assert(s.drop_last() =~= Seq::empty());
        assert(decimal_value(s.drop_last()) == 0);
    } else {
        law_decimal_reads_back(n / 10);
        assert(s.drop_last() =~= text::decimal(n / 10));
        assert(s.last() == text::digit(n % 10)[0]);
    }
}

proof fn lemma_digit(d: nat)
    requires
        d < 10,
    ensures
        text::digit(d).len() == 1,
        text::digit(d)[0] as int == 0x30 + d,
{
    reveal_strlit("0");
    reveal_strlit("1");
    reveal_strlit("2");
    reveal_strlit("3");
    reveal_strlit("4");
    reveal_strlit("5");
    reveal_strlit("6");
    reveal_strlit("7");
    reveal_strlit("8");
    reveal_strlit("9");
}

/// A signed number in a message can be read back: what is negative has a
/// minus sign in front of its opposite, anything else is a plain number.
pub proof fn law_signed_decimal_reads_back(n: int)
    ensures
        ({
            let s = text::signed_decimal(n);
            if n < 0 {
                &&& s[0] == '-'
                &&& decimal_value(s.skip(1)) == -n
            } else {
                &&& s[0] != '-'
                &&& decimal_value(s) == n
            }
        }),
{
    reveal_strlit("-");
    if n < 0 {
        law_decimal_reads_back((-n) as nat);
        assert(text::signed_decimal(n).skip(1) =~= text::decimal((-n) as nat));
    } else {
        law_decimal_reads_back(n as nat);
        assert(0x30 <= text::decimal(n as nat)[0] as int);
    }
}

/// How a message shows a byte: a backslash and a letter or the byte itself
/// for a tab, a carriage return, a line feed, a quote and a backslash; the
/// byte itself where it is otherwise printable; and a backslash, an `x` and
/// two hexadecimal digits, whose values make up the byte, for the rest.
pub proof fn law_shown_byte(b: u8)
    ensures
        ({
            let s = text::byte_text(b);
            if b == 9 {
                s == seq!['\\', 't']
            } else if b == 13 {
                s == seq!['\\', 'r']
            } else if b == 10 {
                s == seq!['\\', 'n']
            } else if b == 34 || b == 39 || b == 92 {
                s == seq!['\\', b as char]
            } else if 32 <= b <= 126 {
                s == seq![b as char]
            } else {
                &&& s.len() == 4
                &&& s[0] == '\\'
                &&& s[1] == 'x'
                &&& hex_value(s[2]) * 16 + hex_value(s[3]) == b
            }
        }),
{
    let s = text::byte_text(b);
    if b == 9 {
        assert(s =~= seq!['\\', 't']);
    } else if b == 13 {
        assert(s =~= seq!['\\', 'r']);
    } else if b == 10 {
        assert(s =~= seq!['\\', 'n']);
    } else if b == 34 || b == 39 || b == 92 {
        assert(s =~= seq!['\\', b as char]);
    } else if 32 <= b <= 126 {
        assert(s =~= seq![b as char]);
    }
}

/// The value of a hexadecimal digit.
pub open spec fn hex_value(c: char) -> int {
    if '0' <= c <= '9' {
        c as int - '0' as int
    } else if 'a' <= c <= 'f' {
        c as int - 'a' as int + 10
    } else {
        -1000
    }
}

/// A byte string is shown byte by byte.
pub proof fn law_shown_bytes(a: Seq<u8>, b: Seq<u8>)
    ensures
        text::bytes_text(a + b) == text::bytes_text(a) + text::bytes_text(b),
        a.len() == 1 ==> text::bytes_text(a) == text::byte_text(a[0]),
    decreases b.len(),
{
    if a.len() == 1 {
        assert(a.drop_last() =~= Seq::empty());
        assert(text::escaped(a.drop_last()) =~= Seq::empty());
        assert(text::escaped(a) =~= text::escaped_byte(a[0]));
    }
    if b.len() == 0 {
        assert(a + b =~= a);
        assert(text::bytes_text(a + b) =~= text::bytes_text(a) + text::bytes_text(b));
    } else {
        law_shown_bytes(a, b.drop_last());
        assert((a + b).drop_last() =~= a + b.drop_last());
        assert(text::bytes_text(a + b) =~= text::bytes_text(a + b.drop_last())
            + text::byte_text(b.last()));
        assert(text::bytes_text(b) =~= text::bytes_text(b.drop_last()) + text::byte_text(
            b.last(),
        ));
        assert(text::bytes_text(a) + (text::bytes_text(b.drop_last()) + text::byte_text(b.last()))
            =~= text::bytes_text(a) + text::bytes_text(b.drop_last()) + text::byte_text(
            b.last(),
        ));
    }
}

/// The message of an error is all that there is to it.
pub proof fn law_message(e: &Error, m: &str)
    requires
        call_ensures(Error::message, (e,), m),
    ensures
        m@ == e@,
{
}

/// `from_be_bytes_u32` gives back any 32-bit integer from its bytes.
pub proof fn law_u32_comes_back(v: int, bytes: &[u8], n: u32)
    requires
        0 <= v < 0x1_0000_0000,
        bytes@.len() == 4,
        raw::encodes_32(bytes@, 0, v),
        call_ensures(from_be_bytes_u32, (bytes,), n),
    ensures
        n == v,
{
    raw::law_four_bytes(bytes@, 0, v);
    raw::lemma_u32_at(bytes@, 0);
    assert(bytes@.subrange(0, 4) =~= bytes@);
}

/// `from_be_bytes_u32_to_usize` gives back any unsigned 32-bit integer from its
/// bytes. It does not fail.
pub proof fn law_usize_comes_back(v: int, bytes: &[u8], r: Result<usize, Error>)
    requires
        0 <= v < 0x1_0000_0000,
        bytes@.len() == 4,
        raw::encodes_32(bytes@, 0, v),
        call_ensures(from_be_bytes_u32_to_usize, (bytes,), r),
    ensures
        r matches Ok(n) && n == v,
{
    raw::law_four_bytes(bytes@, 0, v);
    raw::lemma_u32_at(bytes@, 0);
    assert(bytes@.subrange(0, 4) =~= bytes@);
}

/// `from_be_bytes_i32` gives back any signed 32-bit integer from its bytes.
pub proof fn law_i32_comes_back(v: int, bytes: &[u8], n: i32)
    requires
        -0x8000_0000 <= v < 0x8000_0000,
        bytes@.len() == 4,
        raw::encodes_32(bytes@, 0, v),
        call_ensures(from_be_bytes_i32, (bytes,), n),
    ensures
        n == v,
{
    raw::law_four_bytes(bytes@, 0, v);
    raw::lemma_u32_at(bytes@, 0);
    assert(bytes@.subrange(0, 4) =~= bytes@);
}

/// `from_be_bytes_i64` gives back any signed 64-bit integer from its bytes.
pub proof fn law_i64_comes_back(v: int, bytes: &[u8], n: i64)
    requires
        -0x8000_0000_0000_0000 <= v < 0x8000_0000_0000_0000,
        bytes@.len() == 8,
        raw::encodes_64(bytes@, 0, v),
        call_ensures(from_be_bytes_i64, (bytes,), n),
    ensures
        n == v,
{
    raw::law_eight_bytes(bytes@, 0, v);
    raw::lemma_i64_at(bytes@, 0);
    assert(bytes@.subrange(0, 8) =~= bytes@);
}

/// `try_split_at` succeeds exactly where there are enough bytes. The two
/// pieces make up the whole, and the first one has the size asked for. The
/// message of its error says what was to be split, and both sizes.
pub proof fn law_split(
    what: &'static str,
    bytes: &[u8],
    at: usize,
    r: Result<(&[u8], &[u8]), Error>,
)
    requires
        call_ensures(try_split_at, (what, bytes, at), r),
    ensures
        match r {
            Ok((head, tail)) => {
                &&& at <= bytes@.len()
                &&& head@ + tail@ == bytes@
                &&& head@.len() == at
            },
            Err(e) => {
                &&& at > bytes@.len()
                &&& e@ == "expected at least "@ + text::decimal(at as nat) + " bytes for "@ + what@
                    + ", but found only "@ + text::decimal(bytes@.len()) + " bytes"@
            },
        },
{
}

/// What `Header::parse` reads: the first four bytes are `TZif`, the fifth is
/// the version, whatever it is, and the six counts follow fifteen more bytes.
/// The counts go together. What follows the 44 bytes is left over.
pub proof fn law_header_read(time_size: usize, bytes: &[u8], h: Header, rest: &[u8])
    requires
        time_size == 4 || time_size == 8,
        call_ensures(
            Header::parse,
            (time_size, bytes),
            Ok::<(Header, &[u8]), Error>((h, rest)),
        ),
    ensures
        ({
            let b = bytes@;
            &&& b.len() >= 44
            &&& b[0] == 'T' as u8 && b[1] == 'Z' as u8 && b[2] == 'i' as u8 && b[3] == 'f' as u8
            &&& h.time_size == time_size
            &&& h.version == b[4]
            &&& h.tzh_ttisutcnt == raw::u32_at(b, 20)
            &&& h.tzh_ttisstdcnt == raw::u32_at(b, 24)
            &&& h.tzh_leapcnt == raw::u32_at(b, 28)
            &&& h.tzh_timecnt == raw::u32_at(b, 32)
            &&& h.tzh_typecnt == raw::u32_at(b, 36)
            &&& h.tzh_charcnt == raw::u32_at(b, 40)
            &&& h.tzh_ttisutcnt == 0 || h.tzh_ttisutcnt == h.tzh_typecnt
            &&& h.tzh_ttisstdcnt == 0 || h.tzh_ttisstdcnt == h.tzh_typecnt
            &&& h.tzh_typecnt >= 1
            &&& h.tzh_charcnt >= 1
            &&& h.wf()
            &&& b == b.take(44) + rest@
        }),
{
    lemma_header_raw(time_size, bytes@);
    assert(bytes@ =~= bytes@.take(44) + rest@);
}

/// The header at the start of `b`, in terms of its bytes.
pub proof fn lemma_header_raw(time_size: usize, b: Seq<u8>)
    requires
        time_size == 4 || time_size == 8,
    ensures
        header::header_of(time_size, b) is Ok <==> raw::is_header(b, 0),
        header::header_of(time_size, b) matches Ok(h) ==> {
            &&& h.time_size == time_size
            &&& h.version == b[4]
            &&& h.tzh_ttisutcnt == raw::u32_at(b, 20)
            &&& h.tzh_ttisstdcnt == raw::u32_at(b, 24)
            &&& h.tzh_leapcnt == raw::u32_at(b, 28)
            &&& h.tzh_timecnt == raw::u32_at(b, 32)
            &&& h.tzh_typecnt == raw::u32_at(b, 36)
            &&& h.tzh_charcnt == raw::u32_at(b, 40)
            &&& h.wf()
        },
        b.len() >= 44 ==> {
            &&& b.take(4) == header::magic() <==> b[0] == 0x54 && b[1] == 0x5a && b[2] == 0x69
                && b[3] == 0x66
            &&& header::count(b, 0) == raw::u32_at(b, 20)
            &&& header::count(b, 1) == raw::u32_at(b, 24)
            &&& header::count(b, 4) == raw::u32_at(b, 36)
            &&& header::count(b, 5) == raw::u32_at(b, 40)
        },
{
    if b.len() >= 44 {
        raw::lemma_u32_at(b, 20);
        raw::lemma_u32_at(b, 24);
        raw::lemma_u32_at(b, 28);
        raw::lemma_u32_at(b, 32);
        raw::lemma_u32_at(b, 36);
        raw::lemma_u32_at(b, 40);
        let m = header::magic();
        if b[0] == 0x54 && b[1] == 0x5a && b[2] == 0x69 && b[3] == 0x66 {
            assert(b.take(4) =~= m);
        } else if b.take(4) == m {
            assert(b.take(4)[0] == m[0]);
            assert(b.take(4)[1] == m[1]);
            assert(b.take(4)[2] == m[2]);
            assert(b.take(4)[3] == m[3]);
        }
    }
}

/// When `Header::parse` fails, and with what message: there are fewer than 44
/// bytes, or they do not start with `TZif`, or, in this order, a count of
/// indicators is neither zero nor that of the types, there are no types, or
/// there are no designations. In all other cases it succeeds.
pub proof fn law_header_refused(time_size: usize, bytes: &[u8], r: Result<(Header, &[u8]), Error>)
    requires
        time_size == 4 || time_size == 8,
        call_ensures(Header::parse, (time_size, bytes), r),
    ensures
        ({
            let b = bytes@;
            let ut = raw::u32_at(b, 20);
            let std = raw::u32_at(b, 24);
            let types = raw::u32_at(b, 36);
            let chars = raw::u32_at(b, 40);
            if b.len() < 44 {
                r matches Err(e) && e@ == "invalid header: too short"@
            } else if !(b[0] == 'T' as u8 && b[1] == 'Z' as u8 && b[2] == 'i' as u8 && b[3]
                == 'f' as u8) {
                r matches Err(e) && e@ == "invalid header: magic bytes mismatch"@
            } else if ut != 0 && ut != types {
                r matches Err(e) && e@ == "expected tzh_ttisutcnt="@ + text::decimal(ut as nat)
                    + " to be zero or equal to tzh_typecnt="@ + text::decimal(types as nat)
            } else if std != 0 && std != types {
                r matches Err(e) && e@ == "expected tzh_ttisstdcnt="@ + text::decimal(std as nat)
                    + " to be zero or equal to tzh_typecnt="@ + text::decimal(types as nat)
            } else if types == 0 {
                r matches Err(e) && e@ == "expected tzh_typecnt="@ + text::decimal(0)
                    + " to be at least 1"@
            } else if chars == 0 {
                r matches Err(e) && e@ == "expected tzh_charcnt="@ + text::decimal(0)
                    + " to be at least 1"@
            } else {
                r is Ok
            }
        }),
{
    lemma_header_raw(time_size, bytes@);
    if bytes@.len() >= 44 {
        raw::lemma_u32_at(bytes@, 20);
        raw::lemma_u32_at(bytes@, 24);
        raw::lemma_u32_at(bytes@, 36);
        raw::lemma_u32_at(bytes@, 40);
    }
}

/// What a header is valid for: `wf` asks for what the counts owe each other,
/// and for no more.
pub proof fn law_header_validity(h: Header)
    ensures
        h.wf() <==> {
            &&& h.time_size == 4 || h.time_size == 8
            &&& h.tzh_ttisutcnt == 0 || h.tzh_ttisutcnt == h.tzh_typecnt
            &&& h.tzh_ttisstdcnt == 0 || h.tzh_ttisstdcnt == h.tzh_typecnt
            &&& h.tzh_typecnt >= 1
            &&& h.tzh_charcnt >= 1
        },
{
}

/// A header is for 32-bit timestamps exactly where they have four bytes.
pub proof fn law_is_32bit(h: &Header, r: bool)
    requires
        call_ensures(Header::is_32bit, (h,), r),
    ensures
        r <==> h.time_size == 4,
{
}

/// The number of bytes that each part of a data block takes, with one entry
/// after the other, and where it is too great for a `usize`.
pub proof fn law_part_lengths(
    h: &Header,
    times: Result<usize, Error>,
    indices: Result<usize, Error>,
    types: Result<usize, Error>,
    designations: Result<usize, Error>,
    leaps: Result<usize, Error>,
    std: Result<usize, Error>,
    ut: Result<usize, Error>,
)
    requires
        h.time_size + 4 <= usize::MAX,
        call_ensures(Header::transition_times_len, (h,), times),
        call_ensures(Header::transition_types_len, (h,), indices),
        call_ensures(Header::local_time_types_len, (h,), types),
        call_ensures(Header::time_zone_designations_len, (h,), designations),
        call_ensures(Header::leap_second_len, (h,), leaps),
        call_ensures(Header::standard_wall_len, (h,), std),
        call_ensures(Header::ut_local_len, (h,), ut),
    ensures
        match times {
            Ok(n) => n == h.tzh_timecnt * h.time_size,
            Err(e) => h.tzh_timecnt * h.time_size > usize::MAX && e@ == "tzh_timecnt value "@
                + text::decimal(h.tzh_timecnt as nat) + " is too big"@,
        },
        indices matches Ok(n) && n == h.tzh_timecnt,
        match types {
            Ok(n) => n == h.tzh_typecnt * 6,
            Err(e) => h.tzh_typecnt * 6 > usize::MAX && e@ == "tzh_typecnt value "@
                + text::decimal(h.tzh_typecnt as nat) + " is too big"@,
        },
        designations matches Ok(n) && n == h.tzh_charcnt,
        match leaps {
            Ok(n) => n == h.tzh_leapcnt * (h.time_size + 4),
            Err(e) => h.tzh_leapcnt * (h.time_size + 4) > usize::MAX && e@
                == "tzh_leapcnt value "@ + text::decimal(h.tzh_leapcnt as nat)
                + " is too big"@,
        },
        std matches Ok(n) && n == h.tzh_ttisstdcnt,
        ut matches Ok(n) && n == h.tzh_ttisutcnt,
{
}

/// The number of bytes that a data block takes is the sum of those that its
/// parts take. Where a part has too many to count, the error is that of the
/// part; where only the sum does, the error says so.
pub proof fn law_block_length(
    h: &Header,
    block: Result<usize, Error>,
    times: Result<usize, Error>,
    types: Result<usize, Error>,
    leaps: Result<usize, Error>,
)
    requires
        h.time_size + 4 <= usize::MAX,
        call_ensures(Header::data_block_len, (h,), block),
        call_ensures(Header::transition_times_len, (h,), times),
        call_ensures(Header::local_time_types_len, (h,), types),
        call_ensures(Header::leap_second_len, (h,), leaps),
    ensures
        match (times, types, leaps) {
            (Ok(a), Ok(b), Ok(c)) => {
                let sum = a + h.tzh_timecnt + b + h.tzh_charcnt + c + h.tzh_ttisstdcnt
                    + h.tzh_ttisutcnt;
                if sum <= usize::MAX {
                    block matches Ok(n) && n == sum
                } else {
                    block matches Err(e) && e@ == "length of data block in V"@ + text::decimal(
                        h.version as nat,
                    ) + " tzfile is too big"@
                }
            },
            (Err(x), _, _) => block matches Err(e) && e@ == x@,
            (_, Err(x), _) => block matches Err(e) && e@ == x@,
            (_, _, Err(x)) => block matches Err(e) && e@ == x@,
        },
{
}

} // verus!
