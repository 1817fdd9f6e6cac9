//! What calls of the functions that parse one part of a data block do, in
//! terms of the bytes that they are given.

use crate::error::Error;
use crate::header::Header;
use crate::laws;
use crate::model;
use crate::parse;
use crate::parse::check_posix_tz;
use crate::raw;
use crate::text;
use crate::zone::{PosixTimeZone, TzifIndicator, TzifOwned};
use vstd::prelude::*;
use vstd::utf8;

verus! {

/// The timestamp that the `i`th transition time of a data block stands for,
/// clamped.
pub proof fn lemma_time_raw(h: Header, b: Seq<u8>, i: int)
    requires
        h.wf(),
        0 <= i < h.tzh_timecnt,
        h.times_len() <= b.len(),
    ensures
        0 <= i * h.time_size,
        i * h.time_size + h.time_size <= h.times_len(),
        h.time_size == 4 ==> model::time_at(h, b, i) == raw::i32_at(b, 4 * i) && 4 * i + 4
            <= h.times_len(),
        h.time_size == 8 ==> model::time_at(h, b, i) == raw::i64_at(b, 8 * i) && 8 * i + 8
            <= h.times_len(),
{
    model::lemma_chunk(i, h.tzh_timecnt as int, h.time_size as int);
    if h.time_size == 4 {
        raw::lemma_u32_at(b, 4 * i);
    } else {
        raw::lemma_i64_at(b, 8 * i);
    }
}

/// What `parse_transitions` does. It succeeds exactly where all times are
/// there. Then it appends a transition at the least timestamp, and one for
/// each time, in order, which keeps the time as it is encoded where it is
/// supported, and the nearest supported one where it is not.
pub proof fn law_transitions_call(
    z: &mut TzifOwned,
    header: &Header,
    bytes: &[u8],
    r: Result<&[u8], Error>,
    i: int,
)
    requires
        header.wf(),
        call_ensures(TzifOwned::parse_transitions, (z, header, bytes), r),
    ensures
        final(z).fixed == old(z).fixed,
        final(z).types == old(z).types,
        ({
            let b = bytes@;
            let n = header.tzh_timecnt;
            let size = header.tzh_timecnt * header.time_size;
            let before = old(z).transitions@;
            let after = final(z).transitions@;
            match r {
                Ok(rest) => {
                    &&& size <= b.len()
                    &&& b == b.take(size) + rest@
                    &&& after.len() == before.len() + 1 + n
                    &&& after.take(before.len() as int) == before
                    &&& after[before.len() as int].timestamp == -377705023201
                    &&& after[before.len() as int].type_index == 0
                    &&& 0 <= i < n ==> {
                        let t = after[before.len() + 1 + i];
                        let v = if header.time_size == 4 {
                            raw::i32_at(b, 4 * i)
                        } else {
                            raw::i64_at(b, 8 * i)
                        };
                        &&& t.type_index == 0
                        &&& -377705023201 <= v <= 253402207200 ==> t.timestamp == v
                        &&& v < -377705023201 ==> t.timestamp == -377705023201
                        &&& v > 253402207200 ==> t.timestamp == 253402207200
                    }
                },
                Err(e) => {
                    &&& final(z).transitions == old(z).transitions
                    &&& b.len() < size
                    &&& if size > usize::MAX {
                        e@ == "tzh_timecnt value "@ + text::decimal(n as nat) + " is too big"@
                    } else {
                        e@ == "expected at least "@ + text::decimal(size as nat) + " bytes for "@
                            + "transition times data block"@ + ", but found only "@
                            + text::decimal(b.len()) + " bytes"@
                    }
                },
            }
        }),
{
    let b = bytes@;
    assert(bytes.len() == b.len());
    if let Ok(rest) = r {
        let before = old(z).transitions@;
        let after = final(z).transitions@;
        assert(b =~= b.take(header.times_len() as int) + rest@);
        assert(after.take(before.len() as int) =~= before);
        if 0 <= i < header.tzh_timecnt {
            lemma_time_raw(*header, b, i);
            assert(after[before.len() + 1 + i] == model::timed_transitions(*header, b)[i]);
        }
    }
}

/// What `parse_transition_types` does where it succeeds: there is an index for
/// each transition, all below the number of local time types; the transition
/// behind the first one gets the first index, and so on for every one of
/// them; nothing else changes.
pub proof fn law_type_indices_call(
    z: &mut TzifOwned,
    header: &Header,
    bytes: &[u8],
    rest: &[u8],
    i: int,
)
    requires
        call_ensures(
            TzifOwned::parse_transition_types,
            (z, header, bytes),
            Ok::<&[u8], Error>(rest),
        ),
    ensures
        final(z).fixed == old(z).fixed,
        final(z).types == old(z).types,
        ({
            let b = bytes@;
            let n = header.tzh_timecnt;
            let before = old(z).transitions@;
            let after = final(z).transitions@;
            &&& n <= b.len()
            &&& b == b.take(n as int) + rest@
            &&& after.len() == before.len()
            &&& 0 <= i < n ==> b[i] < header.tzh_typecnt
            &&& 0 <= i < n && i + 1 < before.len() ==> after[i + 1].type_index == b[i]
                && after[i + 1].timestamp == before[i + 1].timestamp
            &&& (i == 0 || n < i < before.len()) && i < before.len() ==> after[i] == before[i]
        }),
{
    let b = bytes@;
    assert(b =~= b.take(header.tzh_timecnt as int) + rest@);
    let bad = |k: int| b[k] >= header.tzh_typecnt;
    model::lemma_first(header.tzh_timecnt as nat, bad);
    if 0 <= i < header.tzh_timecnt {
        assert(!bad(i));
    }
}

/// When `parse_transition_types` fails: there are too few indices, or one that
/// no local time type has. The message names the first such index, and the
/// indices before it, but not it or those behind it, were given out.
pub proof fn law_type_indices_refused(
    z: &mut TzifOwned,
    header: &Header,
    bytes: &[u8],
    r: Result<&[u8], Error>,
    k: int,
    i: int,
)
    requires
        call_ensures(TzifOwned::parse_transition_types, (z, header, bytes), r),
    ensures
        final(z).fixed == old(z).fixed,
        final(z).types == old(z).types,
        ({
            let b = bytes@;
            let n = header.tzh_timecnt;
            let before = old(z).transitions@;
            let after = final(z).transitions@;
            if b.len() < n {
                &&& r matches Err(e) && e@ == "expected at least "@ + text::decimal(n as nat)
                    + " bytes for "@ + "transition types data block"@ + ", but found only "@
                    + text::decimal(b.len()) + " bytes"@
                &&& after == before
            } else {
                &&& (forall|j: int| 0 <= j < n ==> #[trigger] b[j] < header.tzh_typecnt)
                    ==> r is Ok
                &&& (0 <= k < n && b[k] >= header.tzh_typecnt && (forall|j: int|
                    0 <= j < k ==> #[trigger] b[j] < header.tzh_typecnt)) ==> {
                    &&& r matches Err(e) && e@ == "found transition type index "@ + text::decimal(
                        b[k] as nat,
                    ) + ",\n                     but there are only "@ + text::decimal(
                        header.tzh_typecnt as nat,
                    ) + " local time types"@
                    &&& after.len() == before.len()
                    &&& 1 <= i <= k && i < before.len() ==> after[i].type_index == b[i - 1]
                        && after[i].timestamp == before[i].timestamp
                    &&& (i == 0 || k < i) && 0 <= i < before.len() ==> after[i] == before[i]
                }
            }
        }),
{
    let b = bytes@;
    let n = header.tzh_timecnt as nat;
    let bad = |j: int| b[j] >= header.tzh_typecnt;
    if b.len() < n {
        assert(final(z).transitions@ =~= old(z).transitions@);
    } else {
        model::lemma_first(n, bad);
        if model::bad_index(*header, b) is Some {
            assert(bad(model::bad_index(*header, b)->0));
        }
        if 0 <= k < n && b[k] >= header.tzh_typecnt && (forall|j: int|
            0 <= j < k ==> #[trigger] b[j] < header.tzh_typecnt) {
            assert forall|j: int| 0 <= j < k implies !#[trigger] bad(j) by {
                assert(b[j] < header.tzh_typecnt);
            }
            model::lemma_first_is(n, bad, k);
        }
    }
}

/// What `parse_local_time_types` does where it succeeds: it appends a local
/// time type for each record, in order. The offset is the signed integer in
/// the first four bytes, sign and all; the next byte is 1 for daylight saving
/// time; the last byte is where the designation starts.
pub proof fn law_local_time_types_call(
    z: &mut TzifOwned,
    header: &Header,
    bytes: &[u8],
    rest: &[u8],
    i: int,
)
    requires
        call_ensures(
            TzifOwned::parse_local_time_types,
            (z, header, bytes),
            Ok::<&[u8], Error>(rest),
        ),
    ensures
        final(z).fixed == old(z).fixed,
        final(z).transitions == old(z).transitions,
        ({
            let b = bytes@;
            let n = header.tzh_typecnt;
            let before = old(z).types@;
            let after = final(z).types@;
            &&& 6 * n <= b.len()
            &&& b == b.take(6 * n) + rest@
            &&& after.len() == before.len() + n
            &&& after.take(before.len() as int) == before
            &&& 0 <= i < n ==> {
                let t = after[before.len() + i];
                &&& t.offset == raw::i32_at(b, 6 * i)
                &&& -93599 <= t.offset <= 93599
                &&& t.is_dst <==> b[6 * i + 4] == 1
                &&& t.designation == (b[6 * i + 5], b[6 * i + 5])
                &&& t.indicator == TzifIndicator::LocalWall
            }
        }),
{
    let b = bytes@;
    let before = old(z).types@;
    let after = final(z).types@;
    assert(b =~= b.take(6 * header.tzh_typecnt) + rest@);
    assert(after.take(before.len() as int) =~= before);
    let bad = |j: int| !(-93599 <= model::offset_at(b, j) <= 93599);
    model::lemma_first(header.tzh_typecnt as nat, bad);
    if 0 <= i < header.tzh_typecnt {
        raw::lemma_u32_at(b, 6 * i);
        assert(!bad(i));
        assert(after[before.len() + i] == model::bare_type(b, i));
    }
}

/// When `parse_local_time_types` fails: there are too few records, or one
/// whose offset is not supported. The message names the first such offset,
/// and the records before it were appended.
pub proof fn law_local_time_types_refused(
    z: &mut TzifOwned,
    header: &Header,
    bytes: &[u8],
    r: Result<&[u8], Error>,
    k: int,
    i: int,
)
    requires
        call_ensures(TzifOwned::parse_local_time_types, (z, header, bytes), r),
    ensures
        final(z).fixed == old(z).fixed,
        final(z).transitions == old(z).transitions,
        ({
            let b = bytes@;
            let n = header.tzh_typecnt;
            let before = old(z).types@;
            let after = final(z).types@;
            if b.len() < 6 * n {
                &&& r matches Err(e) && if 6 * n > usize::MAX {
                    e@ == "tzh_typecnt value "@ + text::decimal(n as nat) + " is too big"@
                } else {
                    e@ == "expected at least "@ + text::decimal((6 * n) as nat) + " bytes for "@
                        + "local time types data block"@ + ", but found only "@ + text::decimal(
                        b.len(),
                    ) + " bytes"@
                }
                &&& after == before
            } else {
                &&& (forall|j: int|
                    0 <= j < n ==> -93599 <= #[trigger] raw::i32_at(b, 6 * j) <= 93599)
                    ==> r is Ok
                &&& (0 <= k < n && !(-93599 <= raw::i32_at(b, 6 * k) <= 93599) && (forall|j: int|
                    0 <= j < k ==> -93599 <= #[trigger] raw::i32_at(b, 6 * j) <= 93599)) ==> {
                    &&& r matches Err(e) && e@
                        == "found local time type with out-of-bounds offset: "@
                        + text::signed_decimal(raw::i32_at(b, 6 * k))
                    &&& after.len() == before.len() + k
                    &&& after.take(before.len() as int) == before
                    &&& 0 <= i < k ==> {
                        let t = after[before.len() + i];
                        &&& t.offset == raw::i32_at(b, 6 * i)
                        &&& t.is_dst <==> b[6 * i + 4] == 1
                        &&& t.designation == (b[6 * i + 5], b[6 * i + 5])
                        &&& t.indicator == TzifIndicator::LocalWall
                    }
                }
            }
        }),
{
    let b = bytes@;
    assert(bytes.len() == b.len());
    let n = header.tzh_typecnt as nat;
    let before = old(z).types@;
    let after = final(z).types@;
    if b.len() < 6 * n {
        assert(after =~= before);
    } else {
        let bad = |j: int| !(-93599 <= model::offset_at(b, j) <= 93599);
        assert forall|j: int| 0 <= j < n implies #[trigger] model::offset_at(b, j) == raw::i32_at(
            b,
            6 * j,
        ) by {
            raw::lemma_u32_at(b, 6 * j);
        }
        model::lemma_first(n, bad);
        if model::bad_offset(*header, b) is Some {
            let j = model::bad_offset(*header, b)->0;
            assert(bad(j));
            assert(model::offset_at(b, j) == raw::i32_at(b, 6 * j));
        }
        if 0 <= k < n && !(-93599 <= raw::i32_at(b, 6 * k) <= 93599) && (forall|j: int|
            0 <= j < k ==> -93599 <= #[trigger] raw::i32_at(b, 6 * j) <= 93599) {
            assert forall|j: int| 0 <= j < k implies !#[trigger] bad(j) by {
                assert(model::offset_at(b, j) == raw::i32_at(b, 6 * j));
            }
            assert(model::offset_at(b, k) == raw::i32_at(b, 6 * k));
            model::lemma_first_is(n, bad, k);
            assert(after.take(before.len() as int) =~= before);
            if 0 <= i < k {
                raw::lemma_u32_at(b, 6 * i);
                assert(after[before.len() + i] == model::bare_type(b, i));
            }
        }
    }
}

/// Stepping over leap seconds changes nothing. It succeeds exactly where all
/// records are there.
pub proof fn law_leap_seconds_call(
    z: &mut TzifOwned,
    header: &Header,
    bytes: &[u8],
    r: Result<&[u8], Error>,
)
    requires
        header.wf(),
        call_ensures(TzifOwned::parse_leap_seconds, (z, header, bytes), r),
    ensures
        *final(z) == *old(z),
        ({
            let b = bytes@;
            let size = header.tzh_leapcnt * (header.time_size + 4);
            match r {
                Ok(rest) => size <= b.len() && b == b.take(size) + rest@,
                Err(e) => b.len() < size && if size > usize::MAX {
                    e@ == "tzh_leapcnt value "@ + text::decimal(header.tzh_leapcnt as nat)
                        + " is too big"@
                } else {
                    e@ == "expected at least "@ + text::decimal(size as nat) + " bytes for "@
                        + "leap seconds data block"@ + ", but found only "@ + text::decimal(
                        b.len(),
                    ) + " bytes"@
                },
            }
        }),
{
    assert(bytes.len() == bytes@.len());
    if let Ok(rest) = r {
        assert(bytes@ =~= bytes@.take(header.leaps_len() as int) + rest@);
    }
}

/// What is wrong with the designation of a local time type, in terms of the
/// bytes: it must start where a character does, or at the end, and what else
/// is wrong depends on the first NUL from there on.
pub proof fn lemma_designation_raw(d: Seq<u8>, i: int, start: int)
    requires
        utf8::valid_utf8(d),
        0 <= start,
    ensures
        utf8::is_char_boundary(d, start) <==> start <= d.len() && (start == d.len() || !(0x80
            <= d[start] <= 0xbf)),
        start <= d.len() ==> match model::nul_after(d, start) {
            Some(k) => {
                &&& 0 <= k
                &&& start + k < d.len()
                &&& d[start + k] == 0
                &&& forall|j: int| start <= j < start + k ==> #[trigger] d[j] != 0
            },
            None => forall|j: int| start <= j < d.len() ==> #[trigger] d[j] != 0,
        },
{
    if start > d.len() {
        if utf8::is_char_boundary(d, start) {
            model::lemma_char_boundary_in_range(d, start);
        }
    } else {
        if start == d.len() {
            utf8::is_char_boundary_start_end_of_seq(d);
        } else {
            utf8::is_char_boundary_iff_not_is_continuation_byte(d, start);
        }
        let nul = |k: int| d[start + k] == 0;
        model::lemma_first((d.len() - start) as nat, nul);
        match model::nul_after(d, start) {
            Some(k) => {
                assert forall|j: int| start <= j < start + k implies #[trigger] d[j] != 0 by {
                    assert(!nul(j - start));
                }
            },
            None => {
                assert forall|j: int| start <= j < d.len() implies #[trigger] d[j] != 0 by {
                    assert(!nul(j - start));
                }
            },
        }
    }
}

/// What `parse_time_zone_designations` does where it succeeds: the string it
/// keeps is the one that the bytes are the UTF-8 of. The designation of each
/// local time type still starts where it did, which is no place inside a
/// character, and now ends at the first NUL from there on. Nothing else
/// changes.
pub proof fn law_designations_call(
    z: &mut TzifOwned,
    header: &Header,
    bytes: &[u8],
    rest: &[u8],
    i: int,
)
    requires
        call_ensures(
            TzifOwned::parse_time_zone_designations,
            (z, header, bytes),
            Ok::<&[u8], Error>(rest),
        ),
    ensures
        final(z).transitions == old(z).transitions,
        final(z).fixed.name == old(z).fixed.name,
        final(z).fixed.version == old(z).fixed.version,
        final(z).fixed.checksum == old(z).fixed.checksum,
        final(z).fixed.posix_tz == old(z).fixed.posix_tz,
        ({
            let b = bytes@;
            let n = header.tzh_charcnt;
            let before = old(z).types@;
            let after = final(z).types@;
            &&& n <= b.len()
            &&& b == b.take(n as int) + rest@
            &&& utf8::encode_utf8(final(z).fixed.designations@) == b.take(n as int)
            &&& after.len() == before.len()
            &&& 0 <= i < before.len() ==> {
                let t = after[i];
                let start = before[i].designation.0 as int;
                let end = t.designation.1 as int;
                &&& t.offset == before[i].offset
                &&& t.is_dst == before[i].is_dst
                &&& t.indicator == before[i].indicator
                &&& t.designation.0 == start
                &&& start <= end < n
                &&& b[end] == 0
                &&& forall|j: int| start <= j < end ==> #[trigger] b[j] != 0
                &&& !(0x80 <= b[start] <= 0xbf)
            }
        }),
{
    let b = bytes@;
    let n = header.tzh_charcnt as int;
    let d = b.take(n);
    assert(b =~= d + rest@);
    let starts = model::starts_of(old(z).types@);
    utf8::decode_utf8_encode_utf8(d);
    let bad = |j: int| model::designation_fault(d, j, starts[j] as int) is Some;
    model::lemma_first(starts.len(), bad);
    if 0 <= i < starts.len() {
        let start = starts[i] as int;
        assert(!bad(i));
        lemma_designation_raw(d, i, start);
        let end = model::designation_end(d, start);
        assert(d[end] == b[end]);
        assert(d[start] == b[start]);
        assert forall|j: int| start <= j < end implies #[trigger] b[j] != 0 by {
            assert(d[j] == b[j]);
        }
    }
}

/// The designation that starts at `start` is in order: see
/// `law_designations_refused`.
pub open spec fn designation_in_order(d: Seq<u8>, start: int) -> bool {
    &&& start <= d.len()
    &&& start == d.len() || !(0x80 <= d[start] <= 0xbf)
    &&& exists|end: int| start <= end < d.len() && end <= 255 && #[trigger] d[end] == 0
}

/// When `parse_time_zone_designations` fails: there are too few bytes; they
/// are not UTF-8; or the designation of a local time type, the first one in
/// this case, starts beyond the end or inside a character, does not end, or
/// ends behind the byte at 255. The string is kept where it is one. The
/// designations before the bad one were given their ends; the local time types
/// from it on are as they were.
pub proof fn law_designations_refused(
    z: &mut TzifOwned,
    header: &Header,
    bytes: &[u8],
    r: Result<&[u8], Error>,
    k: int,
    i: int,
    end: int,
)
    requires
        call_ensures(TzifOwned::parse_time_zone_designations, (z, header, bytes), r),
    ensures
        final(z).transitions == old(z).transitions,
        final(z).fixed.name == old(z).fixed.name,
        final(z).fixed.version == old(z).fixed.version,
        final(z).fixed.checksum == old(z).fixed.checksum,
        final(z).fixed.posix_tz == old(z).fixed.posix_tz,
        ({
            let b = bytes@;
            let n = header.tzh_charcnt;
            let d = b.take(n as int);
            let before = old(z).types@;
            let after = final(z).types@;
            if b.len() < n {
                &&& r matches Err(e) && e@ == "expected at least "@ + text::decimal(n as nat)
                    + " bytes for "@ + "time zone designations data block"@ + ", but found only "@
                    + text::decimal(b.len()) + " bytes"@
                &&& final(z).fixed == old(z).fixed
                &&& after == before
            } else if !utf8::valid_utf8(d) {
                &&& r matches Err(e) && e@ == "time zone designations are not valid UTF-8: \""@
                    + text::bytes_text(d) + "\""@
                &&& final(z).fixed == old(z).fixed
                &&& after == before
            } else {
                &&& utf8::encode_utf8(final(z).fixed.designations@) == d
                &&& (forall|j: int|
                    0 <= j < before.len() ==> designation_in_order(
                        d,
                        (#[trigger] before[j]).designation.0 as int,
                    )) ==> r is Ok
                &&& (0 <= k < before.len() && !designation_in_order(
                    d,
                    before[k].designation.0 as int,
                ) && (forall|j: int|
                    0 <= j < k ==> designation_in_order(
                        d,
                        (#[trigger] before[j]).designation.0 as int,
                    ))) ==> {
                    let start = before[k].designation.0 as int;
                    &&& r is Err
                    &&& after.len() == before.len()
                    &&& k <= i < before.len() ==> after[i] == before[i]
                    &&& 0 <= i < k ==> {
                        let from = before[i].designation.0 as int;
                        let to = after[i].designation.1 as int;
                        &&& after[i].offset == before[i].offset
                        &&& after[i].is_dst == before[i].is_dst
                        &&& after[i].indicator == before[i].indicator
                        &&& after[i].designation.0 == from
                        &&& from <= to < n
                        &&& d[to] == 0
                        &&& forall|j: int| from <= j < to ==> #[trigger] d[j] != 0
                    }
                    &&& if start > d.len() || (start < d.len() && 0x80 <= d[start] <= 0xbf) {
                        r->Err_0@ == "local time type "@ + text::decimal(k as nat)
                            + " has designation index of "@ + text::decimal(start as nat)
                            + ", but cannot be more than "@ + text::decimal(d.len())
                    } else {
                        &&& (forall|j: int| start <= j < d.len() ==> #[trigger] d[j] != 0)
                            ==> r->Err_0@ == "local time type "@ + text::decimal(k as nat)
                            + " has designation index of "@ + text::decimal(start as nat)
                            + ", but could not find NUL terminator after it in designations: "@
                            + text::debug_text(final(z).fixed.designations@)
                        &&& (start <= end < d.len() && d[end] == 0 && (forall|j: int|
                            start <= j < end ==> #[trigger] d[j] != 0)) ==> r->Err_0@
                            == "local time type "@ + text::decimal(k as nat)
                            + " has designation range of "@ + text::decimal(start as nat) + ".."@
                            + text::decimal(end as nat) + ", but end is too big"@
                    }
                }
            }
        }),
{
    let b = bytes@;
    let n = header.tzh_charcnt as int;
    let d = b.take(n);
    let before = old(z).types@;
    let after = final(z).types@;
    let starts = model::starts_of(before);
    if b.len() < n || !utf8::valid_utf8(d) {
        assert(after =~= before);
    } else {
        utf8::decode_utf8_encode_utf8(d);
        let bad = |j: int| model::designation_fault(d, j, starts[j] as int) is Some;
        assert forall|j: int| 0 <= j < before.len() implies #[trigger] bad(j)
            == !designation_in_order(d, before[j].designation.0 as int) by {
            lemma_in_order(d, j, starts[j] as int);
        }
        model::lemma_first(starts.len(), bad);
        if model::bad_designation(d, starts) is Some {
            assert(bad(model::bad_designation(d, starts)->0));
        }
        if 0 <= k < before.len() && !designation_in_order(d, before[k].designation.0 as int) && (
        forall|j: int|
            0 <= j < k ==> designation_in_order(d, (#[trigger] before[j]).designation.0 as int)) {
            assert forall|j: int| 0 <= j < k implies !#[trigger] bad(j) by {
                assert(designation_in_order(d, before[j].designation.0 as int));
            }
            assert(bad(k));
            model::lemma_first_is(starts.len(), bad, k);
            lemma_designation_raw(d, k, starts[k] as int);
            let start = starts[k] as int;
            if 0 <= i < k {
                assert(!bad(i));
                lemma_designation_raw(d, i, starts[i] as int);
            }
            if start <= end < d.len() && d[end] == 0 && (forall|j: int|
                start <= j < end ==> #[trigger] d[j] != 0) && utf8::is_char_boundary(d, start) {
                let m = model::nul_after(d, start);
                assert(m is Some);
                assert(start + m->0 == end);
            }
        }
    }
}

proof fn lemma_in_order(d: Seq<u8>, i: int, start: int)
    requires
        utf8::valid_utf8(d),
        0 <= start,
    ensures
        model::designation_fault(d, i, start) is None <==> designation_in_order(d, start),
{
    lemma_designation_raw(d, i, start);
    if start <= d.len() {
        match model::nul_after(d, start) {
            Some(k) => {
                assert(d[start + k] == 0);
            },
            None => {},
        }
    }
}

/// The standard/wall indicator of the `i`th local time type, in the bytes of
/// the indicators. It is 0 where there are none.
pub open spec fn std_in(header: Header, b: Seq<u8>, i: int) -> int {
    if header.tzh_ttisstdcnt == 0 {
        0
    } else {
        b[i] as int
    }
}

/// The UT/local indicator of the `i`th local time type, in the bytes of the
/// indicators. It is 0 where there are none.
pub open spec fn ut_in(header: Header, b: Seq<u8>, i: int) -> int {
    if header.tzh_ttisutcnt == 0 {
        0
    } else {
        b[header.tzh_ttisstdcnt + i] as int
    }
}

/// What `parse_indicators` does where it succeeds: each local time type is
/// given what its two indicators say together, where there are standard/wall
/// indicators. Without them the local time types stay as they are. A UT/local
/// indicator is 1 only where the standard/wall indicator is, and none is
/// greater.
pub proof fn law_indicators_call(
    z: &mut TzifOwned,
    header: &Header,
    bytes: &[u8],
    rest: &[u8],
    i: int,
)
    requires
        header.wf(),
        call_ensures(
            TzifOwned::parse_indicators,
            (z, header, bytes),
            Ok::<&[u8], Error>(rest),
        ),
    ensures
        final(z).fixed == old(z).fixed,
        final(z).transitions == old(z).transitions,
        ({
            let b = bytes@;
            let n = header.tzh_ttisstdcnt + header.tzh_ttisutcnt;
            let before = old(z).types@;
            let after = final(z).types@;
            let std = std_in(*header, b, i);
            let ut = ut_in(*header, b, i);
            &&& n <= b.len()
            &&& b == b.take(n) + rest@
            &&& after.len() == before.len()
            &&& 0 <= i < header.tzh_typecnt ==> ut <= std <= 1
            &&& 0 <= i < before.len() ==> {
                &&& after[i].offset == before[i].offset
                &&& after[i].is_dst == before[i].is_dst
                &&& after[i].designation == before[i].designation
                &&& i >= header.tzh_ttisstdcnt ==> after[i].indicator == before[i].indicator
                &&& i < header.tzh_ttisstdcnt ==> {
                    &&& std == 0 ==> after[i].indicator == TzifIndicator::LocalWall
                    &&& std == 1 && ut == 0 ==> after[i].indicator == TzifIndicator::LocalStandard
                    &&& std == 1 && ut == 1 ==> after[i].indicator == TzifIndicator::UTStandard
                }
            }
        }),
{
    let b = bytes@;
    let n = header.tzh_ttisstdcnt + header.tzh_ttisutcnt;
    let std = model::standard_wall(*header, b);
    let ut = model::ut_local(*header, b);
    let bad = |j: int| model::indicator_fault(std, ut, j) is Some;
    model::lemma_first(model::indicated(std, ut), bad);
    assert(b =~= b.take(n) + rest@);
    if 0 <= i < header.tzh_typecnt && n > 0 {
        assert(!bad(i));
    }
}

/// When `parse_indicators` fails: there are too few bytes, or the indicators
/// of a local time type do not go together. The message is about the first
/// one in this case. The local time types before it were given theirs, where
/// there are standard/wall indicators; the others are as they were.
pub proof fn law_indicators_refused(
    z: &mut TzifOwned,
    header: &Header,
    bytes: &[u8],
    r: Result<&[u8], Error>,
    k: int,
    i: int,
)
    requires
        header.wf(),
        call_ensures(TzifOwned::parse_indicators, (z, header, bytes), r),
    ensures
        final(z).fixed == old(z).fixed,
        final(z).transitions == old(z).transitions,
        ({
            let h = *header;
            let b = bytes@;
            let before = old(z).types@;
            let after = final(z).types@;
            if b.len() < h.tzh_ttisstdcnt {
                &&& r matches Err(e) && e@ == "expected at least "@ + text::decimal(
                    h.tzh_ttisstdcnt as nat,
                ) + " bytes for "@ + "standard/wall indicators data block"@ + ", but found only "@
                    + text::decimal(b.len()) + " bytes"@
                &&& after == before
            } else if b.len() < h.tzh_ttisstdcnt + h.tzh_ttisutcnt {
                &&& r matches Err(e) && e@ == "expected at least "@ + text::decimal(
                    h.tzh_ttisutcnt as nat,
                ) + " bytes for "@ + "UT/local indicators data block"@ + ", but found only "@
                    + text::decimal((b.len() - h.tzh_ttisstdcnt) as nat) + " bytes"@
                &&& after == before
            } else {
                &&& (forall|j: int|
                    0 <= j < h.tzh_typecnt ==> ut_in(h, b, j) <= #[trigger] std_in(h, b, j) <= 1)
                    ==> r is Ok
                &&& (0 <= k < h.tzh_typecnt && !(ut_in(h, b, k) <= std_in(h, b, k) <= 1) && (
                forall|j: int|
                    0 <= j < k ==> ut_in(h, b, j) <= #[trigger] std_in(h, b, j) <= 1)) ==> {
                    let std = std_in(h, b, k);
                    let ut = ut_in(h, b, k);
                    let at = text::decimal(k as nat);
                    &&& r is Err
                    &&& if h.tzh_ttisstdcnt == 0 {
                        r->Err_0@ == "found UT/local indicator '"@ + text::decimal(ut as nat)
                            + "' for local time type "@ + at
                            + ", but it must be 0 since all std/wall indicators are 0"@
                    } else if h.tzh_ttisutcnt == 0 {
                        r->Err_0@ == "found invalid std/wall indicator '"@ + text::decimal(
                            std as nat,
                        ) + "' for local time type "@ + at + ", it must be 0 or 1"@
                    } else if std == 0 && ut == 1 {
                        r->Err_0@ == "found illegal ut-wall combination for local time type "@ + at
                            + ", only local-wall, local-standard and ut-standard are allowed"@
                    } else {
                        r->Err_0@
                            == "found illegal std/wall or ut/local value for local time type "@
                            + at + ", each must be 0 or 1"@
                    }
                    &&& after.len() == before.len()
                    &&& 0 <= i < before.len() ==> {
                        &&& after[i].offset == before[i].offset
                        &&& after[i].is_dst == before[i].is_dst
                        &&& after[i].designation == before[i].designation
                        &&& i >= k || h.tzh_ttisstdcnt == 0 ==> after[i].indicator
                            == before[i].indicator
                        &&& i < k && h.tzh_ttisstdcnt > 0 ==> {
                            &&& std_in(h, b, i) == 0 ==> after[i].indicator
                                == TzifIndicator::LocalWall
                            &&& std_in(h, b, i) == 1 && ut_in(h, b, i) == 0 ==> after[i].indicator
                                == TzifIndicator::LocalStandard
                            &&& std_in(h, b, i) == 1 && ut_in(h, b, i) == 1 ==> after[i].indicator
                                == TzifIndicator::UTStandard
                        }
                    }
                }
            }
        }),
{
    let h = *header;
    let b = bytes@;
    let std = model::standard_wall(h, b);
    let ut = model::ut_local(h, b);
    let before = old(z).types@;
    let after = final(z).types@;
    if b.len() < h.tzh_ttisstdcnt + h.tzh_ttisutcnt {
        assert(after =~= before);
    } else {
        let n = model::indicated(std, ut);
        let bad = |j: int| model::indicator_fault(std, ut, j) is Some;
        assert forall|j: int| 0 <= j < n implies #[trigger] bad(j) == !(ut_in(h, b, j) <= std_in(
            h,
            b,
            j,
        ) <= 1) by {}
        model::lemma_first(n, bad);
        if model::bad_indicator(std, ut) is Some {
            assert(bad(model::bad_indicator(std, ut)->0));
        }
        if 0 <= k < h.tzh_typecnt && !(ut_in(h, b, k) <= std_in(h, b, k) <= 1) && (forall|j: int|
            0 <= j < k ==> ut_in(h, b, j) <= #[trigger] std_in(h, b, j) <= 1) {
            assert forall|j: int| 0 <= j < k implies !#[trigger] bad(j) by {
                assert(ut_in(h, b, j) <= std_in(h, b, j) <= 1);
            }
            assert(bad(k));
            model::lemma_first_is(n, bad, k);
        }
    }
}

/// What `check_posix_tz` returns: the message of a failure as it is; an error
/// that quotes the TZ string where there is daylight saving time without a
/// rule; and otherwise the time zone itself, with nothing in it changed.
pub proof fn law_posix_tz_checked(
    tz: &[u8],
    parsed: Result<PosixTimeZone, String>,
    r: Result<PosixTimeZone, Error>,
)
    requires
        call_ensures(check_posix_tz, (tz, parsed), r),
    ensures
        match parsed {
            Err(message) => r matches Err(e) && e@ == message@,
            Ok(p) => if p.dst is Some && p.dst->0.rule is None {
                r matches Err(e) && e@ == "TZ string `"@ + text::bytes_text(tz@)
                    + "` in v3+ tzfile has DST but no transition rules"@
            } else {
                r == Ok::<PosixTimeZone, Error>(p)
            },
        },
{
}

/// What `parse_footer` does with a footer whose TZ string has `n` bytes.
/// Where `n` is 0, nothing changes. Otherwise `parse_posix` was given the
/// bytes between the line feeds, and what it returned decides: its failure is
/// the failure, and its time zone is the one that is kept, with nothing in it
/// changed, but for one that has daylight saving time without a rule, which
/// is an error.
pub proof fn law_footer_call<P: Fn(&[u8]) -> Result<PosixTimeZone, String>>(
    z: &mut TzifOwned,
    header: &Header,
    bytes: &[u8],
    parse_posix: &P,
    r: Result<&[u8], Error>,
    n: int,
)
    requires
        call_ensures(TzifOwned::parse_footer::<P>, (z, header, bytes, parse_posix), r),
        raw::is_footer(bytes@, 0, n),
    ensures
        final(z).types == old(z).types,
        final(z).transitions == old(z).transitions,
        final(z).fixed.name == old(z).fixed.name,
        final(z).fixed.version == old(z).fixed.version,
        final(z).fixed.checksum == old(z).fixed.checksum,
        final(z).fixed.designations == old(z).fixed.designations,
        r is Err ==> final(z).fixed.posix_tz == old(z).fixed.posix_tz,
        r matches Ok(rest) ==> bytes@ == bytes@.take(n + 2) + rest@,
        n == 0 ==> r is Ok && final(z).fixed.posix_tz == old(z).fixed.posix_tz,
        n > 0 ==> exists|s: &[u8], parsed: Result<PosixTimeZone, String>|
            {
                &&& s@ == bytes@.subrange(1, 1 + n)
                &&& #[trigger] parse_posix.ensures((s,), parsed)
                &&& match parsed {
                    Err(message) => r matches Err(e) && e@ == message@,
                    Ok(p) => if p.dst is Some && p.dst->0.rule is None {
                        r matches Err(e) && e@ == "TZ string `"@ + text::bytes_text(s@)
                            + "` in v3+ tzfile has DST but no transition rules"@
                    } else {
                        r is Ok && final(z).fixed.posix_tz == Some(p)
                    },
                }
            },
{
    let b = bytes@;
    lemma_footer_raw(b, n);
    let tz = b.subrange(1, 1 + n);
    if r is Ok {
        assert(b =~= b.take(n + 2) + r->Ok_0@);
    }
    if n > 0 {
        let result = match r {
            Ok(_) => Ok(final(z).fixed.posix_tz),
            Err(e) => Err(e@),
        };
        assert(parse::posix_result(parse_posix, tz, result));
        let parsed = choose|parsed: Result<PosixTimeZone, String>|
            #[trigger] parse::posix_returned(parse_posix, tz, parsed) && result
                == parse::posix_of(tz, parsed);
        let s = choose|s: &[u8]| s@ == tz && #[trigger] parse_posix.ensures((s,), parsed);
        assert(parse_posix.ensures((s,), parsed));
    }
}

/// A footer at the start of `b`, in terms of its bytes.
pub proof fn lemma_footer_raw(b: Seq<u8>, n: int)
    requires
        raw::is_footer(b, 0, n),
    ensures
        model::footer_fault(b) is None,
        model::footer_tz(b) == b.subrange(1, 1 + n),
        model::tz_len(b) == Some(n),
{
    let scan = model::footer_scan(b);
    let hit = |i: int| model::footer_scan(b)[i] == 0x0a;
    assert(scan[n] == b[1 + n]);
    assert(hit(n));
    assert forall|j: int| 0 <= j < n implies !#[trigger] hit(j) by {
        assert(scan[j] == b[1 + j]);
    }
    model::lemma_first_is(scan.len(), hit, n);
}

/// When `parse_footer` fails before there is a TZ string: there is nothing;
/// it does not start with a line feed; or none follows within 1024 bytes.
/// Nothing changes then.
pub proof fn law_footer_refused<P: Fn(&[u8]) -> Result<PosixTimeZone, String>>(
    z: &mut TzifOwned,
    header: &Header,
    bytes: &[u8],
    parse_posix: &P,
    r: Result<&[u8], Error>,
)
    requires
        call_ensures(TzifOwned::parse_footer::<P>, (z, header, bytes, parse_posix), r),
        !exists|n: int| #[trigger] raw::is_footer(bytes@, 0, n),
    ensures
        *final(z) == *old(z),
        ({
            let b = bytes@;
            let to = if b.len() < 1025 {
                b.len() as int
            } else {
                1025
            };
            &&& r is Err
            &&& if b.len() == 0 {
                r->Err_0@
                    == "invalid V2+ TZif footer, expected \\n, but found unexpected end of data"@
            } else if b[0] != 10 {
                r->Err_0@ == "invalid V2+ TZif footer, expected "@ + text::byte_text(10)
                    + ", but found "@ + text::byte_text(b[0])
            } else {
                r->Err_0@ == "invalid V2 TZif footer, could not find "@ + text::byte_text(10)
                    + " terminator in: \""@ + text::bytes_text(b.subrange(1, to)) + "\""@
            }
        }),
{
    let b = bytes@;
    if b.len() > 0 && b[0] == 10 {
        let scan = model::footer_scan(b);
        if model::tz_len(b) is Some {
            laws::lemma_footer_len(b);
            assert(raw::is_footer(b, 0, model::tz_len(b)->0));
        }
        assert(b.len() < 1025 ==> scan =~= b.subrange(1, b.len() as int));
    }
}

/// The parts of a data block can be parsed whatever their bytes are: those
/// that add to what is there always, and those that fill it in wherever there
/// is enough of it.
pub proof fn law_parts_callable<P: Fn(&[u8]) -> Result<PosixTimeZone, String>>(
    z: &mut TzifOwned,
    header: &Header,
    bytes: &[u8],
    parse_posix: &P,
)
    requires
        header.wf(),
        forall|s: &[u8]| parse_posix.requires((s,)),
    ensures
        call_requires(TzifOwned::parse_transitions, (z, header, bytes)),
        header.tzh_timecnt < old(z).transitions@.len() ==> call_requires(
            TzifOwned::parse_transition_types,
            (z, header, bytes),
        ),
        call_requires(TzifOwned::parse_local_time_types, (z, header, bytes)),
        call_requires(TzifOwned::parse_time_zone_designations, (z, header, bytes)),
        call_requires(TzifOwned::parse_leap_seconds, (z, header, bytes)),
        header.tzh_typecnt <= old(z).types@.len() ==> call_requires(
            TzifOwned::parse_indicators,
            (z, header, bytes),
        ),
        call_requires(TzifOwned::parse_footer::<P>, (z, header, bytes, parse_posix)),
{
    let b = bytes@;
    model::lemma_first(header.tzh_timecnt as nat, |i: int| b[i] >= header.tzh_typecnt);
    let std = model::standard_wall(*header, b);
    let ut = model::ut_local(*header, b);
    model::lemma_first(
        model::indicated(std, ut),
        |i: int| model::indicator_fault(std, ut, i) is Some,
    );
}

} // verus!
