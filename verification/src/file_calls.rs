//! What calls of the functions that parse a data block or all of the data
//! return, in terms of the bytes that they are given.

use crate::bytes::try_split_at;
use crate::calls;
use crate::error::Error;
use crate::header;
use crate::header::Header;
use crate::laws;
use crate::layout;
use crate::model;
use crate::parse;
use crate::raw;
use crate::text;
use crate::zone::{PosixTimeZone, TzifIndicator, TzifOwned};
use vstd::prelude::*;
use vstd::utf8;

verus! {

/// What decides which of the two data blocks is read is the byte behind the
/// first four, and nothing else. Where it is 0, the data is a header and the
/// data block with 32-bit times behind it. Where it is anything else, that
/// data block is stepped over: a second header follows it, whose version is
/// the one that is kept, and then a data block with 64-bit times and a footer.
/// The checksum is that of all these bytes, and of no others. The name is the
/// one that was given.
pub proof fn law_which_block_is_read<
    C: Fn(&[u8]) -> u32,
    P: Fn(&[u8]) -> Result<PosixTimeZone, String>,
>(
    name: Option<String>,
    bytes: &[u8],
    checksum: &C,
    parse_posix: &P,
    t: TzifOwned,
)
    requires
        call_ensures(
            TzifOwned::parse::<C, P>,
            (name, bytes, checksum, parse_posix),
            Ok::<TzifOwned, Error>(t),
        ),
    ensures
        t.fixed.name == name,
        bytes@.len() >= 44,
        bytes@[0] == 'T' as u8 && bytes@[1] == 'Z' as u8 && bytes@[2] == 'i' as u8 && bytes@[3]
            == 'f' as u8,
        bytes@[4] == 0 ==> {
            let b = bytes@;
            let end = 44 + 5 * raw::u32_at(b, 32) + 6 * raw::u32_at(b, 36) + raw::u32_at(b, 40) + 8
                * raw::u32_at(b, 28) + raw::u32_at(b, 24) + raw::u32_at(b, 20);
            &&& end <= b.len()
            &&& t.fixed.version == 0
            &&& t.fixed.posix_tz is None
            &&& t.transitions@.len() == raw::u32_at(b, 32) + 1
            &&& t.types@.len() == raw::u32_at(b, 36)
            &&& exists|s: &[u8]|
                s@ == b.take(end) && #[trigger] checksum.ensures((s,), t.fixed.checksum)
        },
        bytes@[4] != 0 ==> {
            let b = bytes@;
            let m = 44 + 5 * raw::u32_at(b, 32) + 6 * raw::u32_at(b, 36) + raw::u32_at(b, 40) + 8
                * raw::u32_at(b, 28) + raw::u32_at(b, 24) + raw::u32_at(b, 20);
            let end = m + 44 + 9 * raw::u32_at(b, m + 32) + 6 * raw::u32_at(b, m + 36)
                + raw::u32_at(b, m + 40) + 12 * raw::u32_at(b, m + 28) + raw::u32_at(b, m + 24)
                + raw::u32_at(b, m + 20);
            &&& m + 44 <= end < b.len()
            &&& b[m] == 'T' as u8 && b[m + 1] == 'Z' as u8 && b[m + 2] == 'i' as u8 && b[m + 3]
                == 'f' as u8
            &&& t.fixed.version == b[m + 4]
            &&& t.transitions@.len() == raw::u32_at(b, m + 32) + 1
            &&& t.types@.len() == raw::u32_at(b, m + 36)
            &&& exists|s: &[u8], n: int|
                {
                    &&& #[trigger] raw::is_footer(b, end, n)
                    &&& s@ == b.take(end + n + 2)
                    &&& #[trigger] checksum.ensures((s,), t.fixed.checksum)
                }
        },
{
    let b = bytes@;
    assert(bytes.len() == b.len());
    let c = model::contents(b)->Ok_0;
    layout::lemma_which_block(b);
    assert(parse::checksum_returned(checksum, b.take(c.len as int), t.fixed.checksum));
    let s = choose|s: &[u8]|
        s@ == b.take(c.len as int) && #[trigger] checksum.ensures((s,), t.fixed.checksum);
    assert(checksum.ensures((s,), t.fixed.checksum));
}

/// What is read as the transitions. The first one is at the least timestamp
/// and of the local time type 0. Each one behind it has the type index in the
/// byte that is as far behind the times as its time is into them, and the time
/// that its four or eight bytes stand for, where that is supported; otherwise
/// it has the nearest one that is.
pub proof fn law_transition_read<
    C: Fn(&[u8]) -> u32,
    P: Fn(&[u8]) -> Result<PosixTimeZone, String>,
>(
    name: Option<String>,
    bytes: &[u8],
    checksum: &C,
    parse_posix: &P,
    t: TzifOwned,
    i: int,
)
    requires
        call_ensures(
            TzifOwned::parse::<C, P>,
            (name, bytes, checksum, parse_posix),
            Ok::<TzifOwned, Error>(t),
        ),
    ensures
        t.transitions@.len() == raw::main_counts(bytes@).time + 1,
        t.transitions@[0].timestamp == -377705023201,
        t.transitions@[0].type_index == 0,
        0 <= i < raw::main_counts(bytes@).time ==> {
            let b = bytes@;
            let at = raw::main_header(b) + 44;
            let times = raw::main_counts(b).time;
            let got = t.transitions@[i + 1];
            let v = if b[4] == 0 {
                raw::i32_at(b, at + 4 * i)
            } else {
                raw::i64_at(b, at + 8 * i)
            };
            &&& b[4] == 0 ==> got.type_index == b[at + 4 * times + i]
            &&& b[4] != 0 ==> got.type_index == b[at + 8 * times + i]
            &&& got.type_index < t.types@.len()
            &&& -377705023201 <= v <= 253402207200 ==> got.timestamp == v
            &&& v < -377705023201 ==> got.timestamp == -377705023201
            &&& v > 253402207200 ==> got.timestamp == 253402207200
        },
{
    assert(bytes.len() == bytes@.len());
    layout::lemma_transition_read(bytes@, i);
}

/// A transition time that was encoded comes back: where the eight bytes of the
/// `i`th time of 64-bit data, or its four bytes in data of version 1, are
/// those of `v`, the transition behind the `i`th one is at `v`, if that is
/// supported, or else at the nearest timestamp that is.
pub proof fn law_timestamp_comes_back<
    C: Fn(&[u8]) -> u32,
    P: Fn(&[u8]) -> Result<PosixTimeZone, String>,
>(
    name: Option<String>,
    bytes: &[u8],
    checksum: &C,
    parse_posix: &P,
    t: TzifOwned,
    i: int,
    v: int,
)
    requires
        call_ensures(
            TzifOwned::parse::<C, P>,
            (name, bytes, checksum, parse_posix),
            Ok::<TzifOwned, Error>(t),
        ),
        0 <= i < raw::main_counts(bytes@).time,
        bytes@[4] == 0 ==> raw::encodes_32(bytes@, 44 + 4 * i, v) && -0x8000_0000 <= v
            < 0x8000_0000,
        bytes@[4] != 0 ==> raw::encodes_64(bytes@, raw::main_header(bytes@) + 44 + 8 * i, v)
            && -0x8000_0000_0000_0000 <= v < 0x8000_0000_0000_0000,
    ensures
        -377705023201 <= v <= 253402207200 ==> t.transitions@[i + 1].timestamp == v,
        v < -377705023201 ==> t.transitions@[i + 1].timestamp == -377705023201,
        v > 253402207200 ==> t.transitions@[i + 1].timestamp == 253402207200,
{
    law_transition_read(name, bytes, checksum, parse_posix, t, i);
    if bytes@[4] == 0 {
        raw::law_four_bytes(bytes@, 44 + 4 * i, v);
    } else {
        raw::law_eight_bytes(bytes@, raw::main_header(bytes@) + 44 + 8 * i, v);
    }
}

/// What is read as the `i`th local time type. Its offset is the signed integer
/// in the first four bytes of the `i`th record of six, sign and all; it is
/// daylight saving time exactly where the next byte is 1; its designation
/// starts where the last byte says and ends at the first NUL from there on;
/// and its indicators say how transition times were given, with those that are
/// not in the data counting as 0.
pub proof fn law_local_time_type_read<
    C: Fn(&[u8]) -> u32,
    P: Fn(&[u8]) -> Result<PosixTimeZone, String>,
>(
    name: Option<String>,
    bytes: &[u8],
    checksum: &C,
    parse_posix: &P,
    t: TzifOwned,
    i: int,
)
    requires
        call_ensures(
            TzifOwned::parse::<C, P>,
            (name, bytes, checksum, parse_posix),
            Ok::<TzifOwned, Error>(t),
        ),
    ensures
        t.types@.len() == raw::main_counts(bytes@).types >= 1,
        0 <= i < raw::main_counts(bytes@).types ==> {
            let b = bytes@;
            let c = raw::main_counts(b);
            let at = raw::main_header(b) + 44;
            let size = if b[4] == 0 {
                4int
            } else {
                8
            };
            let record = at + c.time * size + c.time + 6 * i;
            let d = at + c.time * size + c.time + 6 * c.types;
            let std_at = d + c.chars + c.leap * (size + 4);
            let std = if c.std == 0 {
                0
            } else {
                b[std_at + i] as int
            };
            let ut = if c.ut == 0 {
                0
            } else {
                b[std_at + c.std + i] as int
            };
            let got = t.types@[i];
            let start = got.designation.0 as int;
            let end = got.designation.1 as int;
            &&& got.offset == raw::i32_at(b, record)
            &&& -93599 <= got.offset <= 93599
            &&& got.is_dst <==> b[record + 4] == 1
            &&& start == b[record + 5]
            &&& start <= end < c.chars
            &&& !(0x80 <= b[d + start] <= 0xbf)
            &&& b[d + end] == 0
            &&& forall|k: int| d + start <= k < d + end ==> #[trigger] b[k] != 0
            &&& ut <= std <= 1
            &&& std == 0 ==> got.indicator == TzifIndicator::LocalWall
            &&& std == 1 && ut == 0 ==> got.indicator == TzifIndicator::LocalStandard
            &&& std == 1 && ut == 1 ==> got.indicator == TzifIndicator::UTStandard
        },
{
    assert(bytes.len() == bytes@.len());
    layout::lemma_local_time_type_read(bytes@, i);
}

/// An offset that was encoded comes back, sign and all: where the first four
/// bytes of the `i`th record are those of `v`, the offset of the `i`th local
/// time type is `v`.
pub proof fn law_offset_comes_back<
    C: Fn(&[u8]) -> u32,
    P: Fn(&[u8]) -> Result<PosixTimeZone, String>,
>(
    name: Option<String>,
    bytes: &[u8],
    checksum: &C,
    parse_posix: &P,
    t: TzifOwned,
    i: int,
    v: int,
)
    requires
        call_ensures(
            TzifOwned::parse::<C, P>,
            (name, bytes, checksum, parse_posix),
            Ok::<TzifOwned, Error>(t),
        ),
        0 <= i < raw::main_counts(bytes@).types,
        raw::encodes_32(
            bytes@,
            raw::main_header(bytes@) + 44 + raw::main_counts(bytes@).records() + 6 * i,
            v,
        ),
        -0x8000_0000 <= v < 0x8000_0000,
    ensures
        t.types@[i].offset == v,
{
    law_local_time_type_read(name, bytes, checksum, parse_posix, t, i);
    raw::law_four_bytes(
        bytes@,
        raw::main_header(bytes@) + 44 + raw::main_counts(bytes@).records() + 6 * i,
        v,
    );
}

/// What is read as the designations: the string whose UTF-8 is in the data,
/// behind the local time types.
pub proof fn law_designations_read<
    C: Fn(&[u8]) -> u32,
    P: Fn(&[u8]) -> Result<PosixTimeZone, String>,
>(
    name: Option<String>,
    bytes: &[u8],
    checksum: &C,
    parse_posix: &P,
    t: TzifOwned,
)
    requires
        call_ensures(
            TzifOwned::parse::<C, P>,
            (name, bytes, checksum, parse_posix),
            Ok::<TzifOwned, Error>(t),
        ),
    ensures
        ({
            let b = bytes@;
            let c = raw::main_counts(b);
            let at = raw::main_header(b) + 44;
            let size = if b[4] == 0 {
                4int
            } else {
                8
            };
            let d = at + c.time * size + c.time + 6 * c.types;
            &&& d + c.chars <= b.len()
            &&& utf8::encode_utf8(t.fixed.designations@) == b.subrange(d, d + c.chars)
        }),
{
    assert(bytes.len() == bytes@.len());
    layout::lemma_designations_read(bytes@);
}

/// What is read from a footer with a TZ string of `n` bytes. Where there is
/// none, there is nothing. Otherwise `parse_posix` was given the bytes between
/// the line feeds, and the time zone that it returned is the one that is kept,
/// with nothing in it changed. Where it has daylight saving time, it has a
/// rule.
pub proof fn law_posix_tz_kept<
    C: Fn(&[u8]) -> u32,
    P: Fn(&[u8]) -> Result<PosixTimeZone, String>,
>(
    name: Option<String>,
    bytes: &[u8],
    checksum: &C,
    parse_posix: &P,
    t: TzifOwned,
    n: int,
)
    requires
        call_ensures(
            TzifOwned::parse::<C, P>,
            (name, bytes, checksum, parse_posix),
            Ok::<TzifOwned, Error>(t),
        ),
        bytes@[4] != 0,
        raw::is_footer(
            bytes@,
            raw::main_header(bytes@) + 44 + raw::main_counts(bytes@).size(),
            n,
        ),
    ensures
        n == 0 ==> t.fixed.posix_tz is None,
        n > 0 ==> {
            let b = bytes@;
            let at = raw::main_header(b) + 44 + raw::main_counts(b).size();
            &&& t.fixed.posix_tz is Some
            &&& exists|s: &[u8]|
                {
                    &&& s@ == b.subrange(at + 1, at + 1 + n)
                    &&& #[trigger] parse_posix.ensures(
                        (s,),
                        Ok::<PosixTimeZone, String>(t.fixed.posix_tz->0),
                    )
                }
            &&& t.fixed.posix_tz->0.dst is Some ==> t.fixed.posix_tz->0.dst->0.rule is Some
        },
{
    let b = bytes@;
    assert(bytes.len() == b.len());
    let h = layout::lemma_accepted(b);
    let c = model::contents(b)->Ok_0;
    let at = raw::main_header(b) + 44 + raw::main_counts(b).size();
    layout::lemma_one_footer(b, at, n, c.tz.len() as int);
    if n > 0 {
        let result: Result<Option<PosixTimeZone>, Seq<char>> = Ok(t.fixed.posix_tz);
        assert(parse::posix_result(parse_posix, c.tz, result));
        let parsed = choose|parsed: Result<PosixTimeZone, String>|
            #[trigger] parse::posix_returned(parse_posix, c.tz, parsed) && result
                == parse::posix_of(c.tz, parsed);
        let s = choose|s: &[u8]| s@ == c.tz && #[trigger] parse_posix.ensures((s,), parsed);
        assert(parse_posix.ensures((s,), parsed));
        assert(parsed == Ok::<PosixTimeZone, String>(t.fixed.posix_tz->0));
    }
}

/// When data is accepted: exactly where its bytes are in order and, where the
/// footer has a TZ string, what `parse_posix` returned for it is too. If not,
/// the error is the one of `parse_posix`, or quotes the TZ string.
pub proof fn law_accepted<C: Fn(&[u8]) -> u32, P: Fn(&[u8]) -> Result<PosixTimeZone, String>>(
    name: Option<String>,
    bytes: &[u8],
    checksum: &C,
    parse_posix: &P,
    r: Result<TzifOwned, Error>,
    n: int,
)
    requires
        call_ensures(TzifOwned::parse::<C, P>, (name, bytes, checksum, parse_posix), r),
    ensures
        ({
            let b = bytes@;
            let end = raw::main_header(b) + 44 + raw::main_counts(b).size();
            &&& r is Ok ==> raw::is_file(b)
            &&& raw::is_file(b) && b[4] == 0 ==> r is Ok
            &&& raw::is_file(b) && b[4] != 0 && raw::is_footer(b, end, n) && n == 0 ==> r is Ok
            &&& raw::is_file(b) && b[4] != 0 && raw::is_footer(b, end, n) && n > 0 ==> exists|
                s: &[u8],
                parsed: Result<PosixTimeZone, String>,
            |
                {
                    &&& s@ == b.subrange(end + 1, end + 1 + n)
                    &&& #[trigger] parse_posix.ensures((s,), parsed)
                    &&& match parsed {
                        Err(message) => r matches Err(e) && e@ == message@,
                        Ok(p) => if p.dst is Some && p.dst->0.rule is None {
                            r matches Err(e) && e@ == "TZ string `"@ + text::bytes_text(s@)
                                + "` in v3+ tzfile has DST but no transition rules"@
                        } else {
                            r matches Ok(t) && t.fixed.posix_tz == Some(p)
                        },
                    }
                }
        }),
{
    let b = bytes@;
    assert(bytes.len() == b.len());
    let end = raw::main_header(b) + 44 + raw::main_counts(b).size();
    layout::lemma_file_iff(b);
    if raw::is_file(b) {
        let tz = model::contents(b)->Ok_0.tz;
        layout::lemma_file_tz(b);
        if b[4] != 0 && raw::is_footer(b, end, n) {
            layout::lemma_one_footer(b, end, n, tz.len() as int);
            if n > 0 {
                let result = match r {
                    Ok(t) => Ok(t.fixed.posix_tz),
                    Err(e) => Err(e@),
                };
                assert(parse::posix_result(parse_posix, tz, result));
                let parsed = choose|parsed: Result<PosixTimeZone, String>|
                    #[trigger] parse::posix_returned(parse_posix, tz, parsed) && result
                        == parse::posix_of(tz, parsed);
                let s = choose|s: &[u8]| s@ == tz && #[trigger] parse_posix.ensures((s,), parsed);
                assert(parse_posix.ensures((s,), parsed));
            }
        }
    }
}

/// `parse_posix` gives the same answer whenever it is given the same TZ
/// string.
pub open spec fn consistent<P: Fn(&[u8]) -> Result<PosixTimeZone, String>>(
    parse_posix: &P,
) -> bool {
    forall|
        s: &[u8],
        t: &[u8],
        p: Result<PosixTimeZone, String>,
        q: Result<PosixTimeZone, String>,
    |
        s@ == t@ && #[trigger] parse_posix.ensures((s,), p) && #[trigger] parse_posix.ensures(
            (t,),
            q,
        ) ==> p == q
}

/// Parsing is parsing the first header and then, by the byte behind its first
/// four, the rest as data of version 1 or of a later version: it succeeds
/// exactly where they do, with what they give, and fails with their messages.
/// That of the header says what was parsed.
pub proof fn law_parse_in_steps<
    C: Fn(&[u8]) -> u32,
    P: Fn(&[u8]) -> Result<PosixTimeZone, String>,
>(
    name: Option<String>,
    bytes: &[u8],
    checksum: &C,
    parse_posix: &P,
    r: Result<TzifOwned, Error>,
    header: Result<(Header, &[u8]), Error>,
    data: Result<(TzifOwned, &[u8]), Error>,
)
    requires
        consistent(parse_posix),
        call_ensures(TzifOwned::parse::<C, P>, (name, bytes, checksum, parse_posix), r),
        call_ensures(Header::parse, (4usize, bytes), header),
        bytes@[4] == 0 ==> (header matches Ok((h, rest)) ==> call_ensures(
            TzifOwned::parse32,
            (name, h, rest),
            data,
        )),
        bytes@[4] != 0 ==> (header matches Ok((h, rest)) ==> call_ensures(
            TzifOwned::parse64::<P>,
            (name, h, rest, parse_posix),
            data,
        )),
    ensures
        match header {
            Err(x) => r matches Err(e) && e@ == "failed to parse 32-bit header: "@ + x@,
            Ok(_) => match data {
                Err(x) => r matches Err(e) && e@ == x@,
                Ok((z, _)) => {
                    &&& r matches Ok(t)
                    &&& t.fixed.name == z.fixed.name
                    &&& t.fixed.version == z.fixed.version
                    &&& t.fixed.designations@ == z.fixed.designations@
                    &&& t.fixed.posix_tz == z.fixed.posix_tz
                    &&& t.types@ == z.types@
                    &&& t.transitions@ == z.transitions@
                },
            },
        },
{
    let b = bytes@;
    calls::lemma_header_raw(4, b);
    if let Ok((h, rest)) = header {
        assert(h.version == b[4]);
        assert(rest@ == b.skip(44));
        if b[4] != 0 {
            let tz = match model::contents64(h, b.skip(44)) {
                Ok(c) => c.tz,
                Err(_) => Seq::empty(),
            };
            let x = match r {
                Ok(t) => Ok(t.fixed.posix_tz),
                Err(e) => Err(e@),
            };
            let y = match data {
                Ok((t, _)) => Ok(t.fixed.posix_tz),
                Err(e) => Err(e@),
            };
            if model::contents64(h, b.skip(44)) is Ok && tz.len() > 0 {
                lemma_consistent(parse_posix, tz, x, y);
            }
        }
    }
}

/// What becomes of a TZ string is settled where the answers are.
proof fn lemma_consistent<P: Fn(&[u8]) -> Result<PosixTimeZone, String>>(
    parse_posix: &P,
    tz: Seq<u8>,
    x: Result<Option<PosixTimeZone>, Seq<char>>,
    y: Result<Option<PosixTimeZone>, Seq<char>>,
)
    requires
        consistent(parse_posix),
        parse::posix_result(parse_posix, tz, x),
        parse::posix_result(parse_posix, tz, y),
    ensures
        x == y,
{
    let p = choose|p: Result<PosixTimeZone, String>| #[trigger]
        parse::posix_returned(parse_posix, tz, p) && x == parse::posix_of(tz, p);
    let q = choose|q: Result<PosixTimeZone, String>| #[trigger]
        parse::posix_returned(parse_posix, tz, q) && y == parse::posix_of(tz, q);
    let s = choose|s: &[u8]| s@ == tz && #[trigger] parse_posix.ensures((s,), p);
    let t = choose|t: &[u8]| t@ == tz && #[trigger] parse_posix.ensures((t,), q);
    assert(parse_posix.ensures((s,), p));
    assert(parse_posix.ensures((t,), q));
}

/// Parsing data of version 1 behind its header is parsing the six parts of its
/// data block in their order, starting with nothing: it succeeds exactly where
/// all of them do, with what they leave behind, and otherwise fails with the
/// message of the first that fails. The name and the version are those given,
/// and there is neither a checksum nor a TZ string yet.
#[verifier::rlimit(80)]
pub proof fn law_block_in_steps(
    name: Option<String>,
    header: &Header,
    bytes: &[u8],
    r: Result<(TzifOwned, &[u8]), Error>,
    z1: &mut TzifOwned,
    z2: &mut TzifOwned,
    z3: &mut TzifOwned,
    z4: &mut TzifOwned,
    z5: &mut TzifOwned,
    z6: &mut TzifOwned,
    r1: Result<&[u8], Error>,
    r2: Result<&[u8], Error>,
    r3: Result<&[u8], Error>,
    r4: Result<&[u8], Error>,
    r5: Result<&[u8], Error>,
    r6: Result<&[u8], Error>,
)
    requires
        header.wf(),
        call_ensures(TzifOwned::parse32, (name, *header, bytes), r),
        old(z1).types@.len() == 0,
        old(z1).transitions@.len() == 0,
        *old(z2) == *final(z1),
        *old(z3) == *final(z2),
        *old(z4) == *final(z3),
        *old(z5) == *final(z4),
        *old(z6) == *final(z5),
        call_ensures(TzifOwned::parse_transitions, (z1, header, bytes), r1),
        r1 matches Ok(b1) ==> call_ensures(
            TzifOwned::parse_transition_types,
            (z2, header, b1),
            r2,
        ),
        r2 matches Ok(b2) ==> call_ensures(
            TzifOwned::parse_local_time_types,
            (z3, header, b2),
            r3,
        ),
        r3 matches Ok(b3) ==> call_ensures(
            TzifOwned::parse_time_zone_designations,
            (z4, header, b3),
            r4,
        ),
        r4 matches Ok(b4) ==> call_ensures(TzifOwned::parse_leap_seconds, (z5, header, b4), r5),
        r5 matches Ok(b5) ==> call_ensures(TzifOwned::parse_indicators, (z6, header, b5), r6),
    ensures
        if r1 is Err {
            r matches Err(e) && e@ == r1->Err_0@
        } else if r2 is Err {
            r matches Err(e) && e@ == r2->Err_0@
        } else if r3 is Err {
            r matches Err(e) && e@ == r3->Err_0@
        } else if r4 is Err {
            r matches Err(e) && e@ == r4->Err_0@
        } else if r5 is Err {
            r matches Err(e) && e@ == r5->Err_0@
        } else if r6 is Err {
            r matches Err(e) && e@ == r6->Err_0@
        } else {
            &&& r matches Ok((t, rest))
            &&& rest@ == r6->Ok_0@
            &&& t.fixed.name == name
            &&& t.fixed.version == header.version
            &&& t.fixed.checksum == 0
            &&& t.fixed.posix_tz is None
            &&& t.fixed.designations@ == final(z6).fixed.designations@
            &&& t.types@ == final(z6).types@
            &&& t.transitions@ == final(z6).transitions@
        },
{
    let h = *header;
    let b = bytes@;
    if r1 is Ok && r2 is Ok {
        let b2 = r2->Ok_0@;
        assert(r1->Ok_0@ == b.skip(model::indices_at(h)));
        assert(b2 =~= b.skip(model::types_at(h)));
        if r3 is Ok {
            let bare = final(z3).types@;
            assert(bare =~= model::bare_types(b2, h.tzh_typecnt as nat));
            let b3 = r3->Ok_0@;
            assert(b3 =~= b.skip(model::designations_at(h)));
            let d = model::designation_bytes(h, b);
            let starts = model::starts_of(bare);
            model::lemma_first(
                starts.len(),
                |i: int| model::designation_fault(d, i, starts[i] as int) is Some,
            );
            if r4 is Ok {
                let b4 = r4->Ok_0@;
                assert(b4 =~= b.skip(model::leaps_at(h)));
                if r5 is Ok {
                    let b5 = r5->Ok_0@;
                    assert(b5 =~= b.skip(model::indicators_at(h)));
                    let std = model::standard_wall(h, b5);
                    let ut = model::ut_local(h, b5);
                    model::lemma_first(
                        model::indicated(std, ut),
                        |i: int| model::indicator_fault(std, ut, i) is Some,
                    );
                    if r6 is Ok {
                        assert(model::block_fault(h, b) is None);
                        let block = model::block_of(h, b);
                        assert(r6->Ok_0@ =~= b.skip(h.data_len() as int));
                        assert(final(z6).transitions@ =~= block.transitions);
                        let types = final(z6).types@;
                        assert forall|i: int| 0 <= i < h.tzh_typecnt implies types[i]
                            == #[trigger] block.types[i] by {
                            assert(bare[i] == model::bare_type(b2, i));
                            assert(types[i] == model::type_at(h, b, i));
                        }
                        assert(types =~= block.types);
                    }
                }
            }
        }
    }
}

/// Parsing data of a later version behind its first header is stepping over as
/// many bytes as the data block of that header takes, parsing a header for
/// 64-bit data, the data block behind it as if it were data of version 1, and
/// the footer behind that: it succeeds exactly where all of these do, with
/// what they give, and otherwise fails with the message of the first that
/// fails. That of the header says what was parsed. The version is that of the
/// second header.
#[verifier::rlimit(80)]
pub proof fn law_later_version_in_steps<P: Fn(&[u8]) -> Result<PosixTimeZone, String>>(
    name: Option<String>,
    header: &Header,
    bytes: &[u8],
    parse_posix: &P,
    r: Result<(TzifOwned, &[u8]), Error>,
    len: Result<usize, Error>,
    split: Result<(&[u8], &[u8]), Error>,
    second: Result<(Header, &[u8]), Error>,
    block: Result<(TzifOwned, &[u8]), Error>,
    z: &mut TzifOwned,
    footer: Result<&[u8], Error>,
)
    requires
        consistent(parse_posix),
        header.wf(),
        call_ensures(TzifOwned::parse64::<P>, (name, *header, bytes, parse_posix), r),
        call_ensures(Header::data_block_len, (header,), len),
        len matches Ok(n) ==> call_ensures(
            try_split_at,
            ("V1 TZif data block", bytes, n),
            split,
        ),
        split matches Ok((_, rest)) ==> call_ensures(Header::parse, (8usize, rest), second),
        second matches Ok((h, rest)) ==> call_ensures(TzifOwned::parse32, (name, h, rest), block),
        old(z).fixed.posix_tz is None,
        second matches Ok((h, _)) ==> (block matches Ok((_, rest)) ==> call_ensures(
            TzifOwned::parse_footer::<P>,
            (z, &h, rest, parse_posix),
            footer,
        )),
    ensures
        if len is Err {
            r matches Err(e) && e@ == len->Err_0@
        } else if split is Err {
            r matches Err(e) && e@ == split->Err_0@
        } else if second is Err {
            r matches Err(e) && e@ == "failed to parse 64-bit header: "@ + second->Err_0@
        } else if block is Err {
            r matches Err(e) && e@ == block->Err_0@
        } else if footer is Err {
            r matches Err(e) && e@ == footer->Err_0@
        } else {
            let t = block->Ok_0.0;
            &&& r matches Ok((got, rest))
            &&& rest@ == footer->Ok_0@
            &&& got.fixed.name == name
            &&& got.fixed.version == second->Ok_0.0.version
            &&& got.fixed.checksum == 0
            &&& got.fixed.designations@ == t.fixed.designations@
            &&& got.types@ == t.types@
            &&& got.transitions@ == t.transitions@
            &&& got.fixed.posix_tz == final(z).fixed.posix_tz
        },
{
    let h = *header;
    let b = bytes@;
    if len is Ok && split is Ok && second is Ok {
        let b1 = split->Ok_0.1@;
        assert(b1 == b.skip(h.data_len() as int));
        let h64 = second->Ok_0.0;
        let b2 = second->Ok_0.1@;
        assert(b2 == b1.skip(44));
        assert(header::header_of(8, b1) is Ok);
        if block is Ok {
            let b3 = block->Ok_0.1@;
            assert(b3 == b2.skip(h64.data_len() as int));
            if model::footer_fault(b3) is None {
                laws::lemma_footer_len(b3);
                let tz = model::footer_tz(b3);
                let x = match r {
                    Ok((t, _)) => Ok(t.fixed.posix_tz),
                    Err(e) => Err(e@),
                };
                let y = match footer {
                    Ok(_) => Ok(final(z).fixed.posix_tz),
                    Err(e) => Err(e@),
                };
                if tz.len() > 0 {
                    lemma_consistent(parse_posix, tz, x, y);
                }
                let n = h.data_len() as int + 44 + h64.data_len() as int + tz.len() as int + 2;
                laws::lemma_block_wf(h64, b2);
                assert(b3.skip(tz.len() as int + 2) =~= b.skip(n));
            }
        }
    }
}

/// Any bytes can be parsed, under any name: all that is asked for is that the
/// two functions that are passed take any bytes.
pub proof fn law_any_bytes<C: Fn(&[u8]) -> u32, P: Fn(&[u8]) -> Result<PosixTimeZone, String>>(
    name: Option<String>,
    header: Header,
    bytes: &[u8],
    checksum: &C,
    parse_posix: &P,
)
    requires
        forall|s: &[u8]| checksum.requires((s,)),
        forall|s: &[u8]| parse_posix.requires((s,)),
    ensures
        call_requires(TzifOwned::parse::<C, P>, (name, bytes, checksum, parse_posix)),
        call_requires(Header::parse, (4usize, bytes)),
        call_requires(Header::parse, (8usize, bytes)),
        header.wf() ==> call_requires(TzifOwned::parse32, (name, header, bytes)),
        header.wf() ==> call_requires(
            TzifOwned::parse64::<P>,
            (name, header, bytes, parse_posix),
        ),
{
}

} // verus!
