//! What holds of TZif data and of the time zones that are parsed from it.

use crate::bytes;
use crate::error::HeaderFault;
use crate::header;
use crate::header::{Header, HEADER_LEN};
use crate::model;
use crate::parse;
use crate::zone::{
    PosixTimeZone, TzifIndicator, OFFSET_MAX, OFFSET_MIN, TIMESTAMP_MAX, TIMESTAMP_MIN,
};
use vstd::prelude::*;
use vstd::utf8;

verus! {

/// Predicates that agree below `n` have the same first hit.
proof fn lemma_first_same(n: nat, p: spec_fn(int) -> bool, q: spec_fn(int) -> bool)
    requires
        forall|i: int| 0 <= i < n ==> #[trigger] p(i) == q(i),
    ensures
        model::first(n, p) == model::first(n, q),
    decreases n,
{
    if n > 0 {
        lemma_first_same((n - 1) as nat, p, q);
        assert(p(n - 1) == q(n - 1));
    }
}

/// The two byte strings are the same as far as a part of `n` bytes goes that
/// they start with.
pub open spec fn same_part(n: nat, b: Seq<u8>, c: Seq<u8>) -> bool {
    if n <= b.len() && n <= c.len() {
        b.take(n as int) == c.take(n as int)
    } else {
        b.len() == c.len()
    }
}

proof fn lemma_same_index(n: nat, b: Seq<u8>, c: Seq<u8>, i: int)
    requires
        same_part(n, b, c),
        n <= b.len(),
        n <= c.len(),
        0 <= i < n,
    ensures
        b[i] == c[i],
{
    assert(b.take(n as int)[i] == c.take(n as int)[i]);
}

proof fn lemma_same_subrange(n: nat, b: Seq<u8>, c: Seq<u8>, i: int, j: int)
    requires
        same_part(n, b, c),
        n <= b.len(),
        n <= c.len(),
        0 <= i <= j <= n,
    ensures
        b.subrange(i, j) == c.subrange(i, j),
{
    assert(b.subrange(i, j) =~= b.take(n as int).subrange(i, j));
    assert(c.subrange(i, j) =~= c.take(n as int).subrange(i, j));
}

proof fn lemma_indices_local(h: Header, b: Seq<u8>, c: Seq<u8>)
    requires
        same_part(h.tzh_timecnt as nat, b, c),
    ensures
        model::indices_fault(h, b) == model::indices_fault(h, c),
{
    let n = h.tzh_timecnt as nat;
    if n <= b.len() && n <= c.len() {
        let p = |i: int| b[i] >= h.tzh_typecnt;
        let q = |i: int| c[i] >= h.tzh_typecnt;
        assert forall|i: int| 0 <= i < n implies #[trigger] p(i) == q(i) by {
            lemma_same_index(n, b, c, i);
        }
        lemma_first_same(n, p, q);
        model::lemma_first(n, p);
        if let Some(i) = model::bad_index(h, b) {
            lemma_same_index(n, b, c, i);
        }
    }
}

proof fn lemma_types_local(h: Header, b: Seq<u8>, c: Seq<u8>)
    requires
        same_part(h.types_len(), b, c),
    ensures
        model::types_fault(h, b) == model::types_fault(h, c),
        h.types_len() <= b.len() && h.types_len() <= c.len() ==> forall|i: int|
            0 <= i < h.tzh_typecnt ==> #[trigger] model::bare_type(b, i) == model::bare_type(c, i),
{
    let n = h.types_len();
    if n <= b.len() && n <= c.len() {
        let p = |i: int| !(OFFSET_MIN <= model::offset_at(b, i) <= OFFSET_MAX);
        let q = |i: int| !(OFFSET_MIN <= model::offset_at(c, i) <= OFFSET_MAX);
        assert forall|i: int| 0 <= i < h.tzh_typecnt implies model::offset_at(b, i)
            == #[trigger] model::offset_at(c, i) by {
            lemma_same_subrange(n, b, c, 6 * i, 6 * i + 4);
        }
        assert forall|i: int| 0 <= i < h.tzh_typecnt implies #[trigger] p(i) == q(i) by {
            assert(model::offset_at(b, i) == model::offset_at(c, i));
        }
        lemma_first_same(h.tzh_typecnt as nat, p, q);
        model::lemma_first(h.tzh_typecnt as nat, p);
        assert forall|i: int| 0 <= i < h.tzh_typecnt implies #[trigger] model::bare_type(b, i)
            == model::bare_type(c, i) by {
            assert(model::offset_at(b, i) == model::offset_at(c, i));
            lemma_same_index(n, b, c, 6 * i + 4);
            lemma_same_index(n, b, c, 6 * i + 5);
        }
    }
}

proof fn lemma_indicators_local(h: Header, b: Seq<u8>, c: Seq<u8>)
    requires
        same_part((h.tzh_ttisstdcnt + h.tzh_ttisutcnt) as nat, b, c),
    ensures
        model::indicators_fault(h, b) == model::indicators_fault(h, c),
        h.tzh_ttisstdcnt + h.tzh_ttisutcnt <= b.len() && h.tzh_ttisstdcnt + h.tzh_ttisutcnt
            <= c.len() ==> model::standard_wall(h, b) == model::standard_wall(h, c)
            && model::ut_local(h, b) == model::ut_local(h, c),
{
    let n = (h.tzh_ttisstdcnt + h.tzh_ttisutcnt) as nat;
    if n <= b.len() && n <= c.len() {
        let k = h.tzh_ttisstdcnt as int;
        lemma_same_subrange(n, b, c, 0, k);
        lemma_same_subrange(n, b, c, k, n as int);
        assert(model::ut_local(h, b) =~= b.subrange(k, n as int));
        assert(model::ut_local(h, c) =~= c.subrange(k, n as int));
    }
}

/// Whether a data block has a fault, and what it says, depends on the bytes of
/// its parts alone, those of the leap second records left out.
proof fn lemma_block_local(h: Header, b: Seq<u8>, c: Seq<u8>)
    requires
        h.wf(),
        b.len() == c.len() || (h.data_len() <= b.len() && h.data_len() <= c.len()),
        forall|i: int|
            0 <= i < h.data_len() && i < b.len() && !(model::leaps_at(h) <= i
                < model::indicators_at(h)) ==> #[trigger] b[i] == c[i],
    ensures
        model::block_fault(h, b) == model::block_fault(h, c),
        model::block_fault(h, b) is None ==> model::block_of(h, b) == model::block_of(h, c),
{
    let timecnt = h.tzh_timecnt as nat;
    if h.times_len() <= usize::MAX && h.times_len() <= b.len() {
        assert(model::times_fault(h, b) is None && model::times_fault(h, c) is None);
        assert forall|i: int| 0 <= i < timecnt implies model::time_at(h, b, i)
            == #[trigger] model::time_at(h, c, i) by {
            model::lemma_chunk(i, timecnt as int, h.time_size as int);
            let from = i * h.time_size;
            let to = i * h.time_size + h.time_size;
            assert(b.subrange(from, to) =~= c.subrange(from, to));
        }
        let b1 = b.skip(model::indices_at(h));
        let c1 = c.skip(model::indices_at(h));
        assert(same_part(timecnt, b1, c1)) by {
            if timecnt <= b1.len() && timecnt <= c1.len() {
                assert(b1.take(timecnt as int) =~= c1.take(timecnt as int));
            }
        }
        lemma_indices_local(h, b1, c1);
        if model::indices_fault(h, b1) is None {
            let b2 = b.skip(model::types_at(h));
            let c2 = c.skip(model::types_at(h));
            assert(same_part(h.types_len(), b2, c2)) by {
                if h.types_len() <= b2.len() && h.types_len() <= c2.len() {
                    assert(b2.take(h.types_len() as int) =~= c2.take(h.types_len() as int));
                }
            }
            lemma_types_local(h, b2, c2);
            if model::types_fault(h, b2) is None {
                lemma_block_local_tail(h, b, c);
            }
        }
    }
}

/// The rest of `lemma_block_local`, once the local time types are known to be
/// the same.
proof fn lemma_block_local_tail(h: Header, b: Seq<u8>, c: Seq<u8>)
    requires
        h.wf(),
        b.len() == c.len() || (h.data_len() <= b.len() && h.data_len() <= c.len()),
        forall|i: int|
            0 <= i < h.data_len() && i < b.len() && !(model::leaps_at(h) <= i
                < model::indicators_at(h)) ==> #[trigger] b[i] == c[i],
        model::times_fault(h, b) is None,
        model::indices_fault(h, b.skip(model::indices_at(h))) is None,
        model::types_fault(h, b.skip(model::types_at(h))) is None,
        model::times_fault(h, c) is None,
        model::indices_fault(h, c.skip(model::indices_at(h))) is None,
        model::types_fault(h, c.skip(model::types_at(h))) is None,
        forall|i: int|
            0 <= i < h.tzh_timecnt ==> model::time_at(h, b, i) == #[trigger] model::time_at(
                h,
                c,
                i,
            ),
        forall|i: int|
            0 <= i < h.tzh_typecnt ==> #[trigger] model::bare_type(b.skip(model::types_at(h)), i)
                == model::bare_type(c.skip(model::types_at(h)), i),
    ensures
        model::block_fault(h, b) == model::block_fault(h, c),
        model::block_fault(h, b) is None ==> model::block_of(h, b) == model::block_of(h, c),
{
    let bt = b.skip(model::types_at(h));
    let ct = c.skip(model::types_at(h));
    let starts = model::starts_of(model::bare_types(bt, h.tzh_typecnt as nat));
    assert(starts =~= model::starts_of(model::bare_types(ct, h.tzh_typecnt as nat))) by {
        assert forall|i: int| 0 <= i < h.tzh_typecnt implies #[trigger] starts[i]
            == model::starts_of(model::bare_types(ct, h.tzh_typecnt as nat))[i] by {
            assert(model::bare_type(bt, i) == model::bare_type(ct, i));
        }
    }
    let b3 = b.skip(model::designations_at(h));
    let c3 = c.skip(model::designations_at(h));
    let charcnt = h.tzh_charcnt as int;
    if charcnt <= b3.len() && charcnt <= c3.len() {
        assert(b3.take(charcnt) =~= c3.take(charcnt));
        assert(model::designations_fault(h, starts, b3) == model::designations_fault(
            h,
            starts,
            c3,
        ));
        let b4 = b.skip(model::leaps_at(h));
        let c4 = c.skip(model::leaps_at(h));
        if h.leaps_len() <= usize::MAX && h.leaps_len() <= b4.len() && h.leaps_len()
            <= c4.len() {
            let b5 = b.skip(model::indicators_at(h));
            let c5 = c.skip(model::indicators_at(h));
            let n = (h.tzh_ttisstdcnt + h.tzh_ttisutcnt) as nat;
            assert(same_part(n, b5, c5)) by {
                if n <= b5.len() && n <= c5.len() {
                    assert(b5.take(n as int) =~= c5.take(n as int));
                }
            }
            lemma_indicators_local(h, b5, c5);
            if model::block_fault(h, b) is None {
                let x = model::block_of(h, b);
                let y = model::block_of(h, c);
                assert(x.transitions =~= y.transitions) by {
                    assert forall|i: int| 0 <= i < x.transitions.len() implies (
                    #[trigger] x.transitions[i]) == y.transitions[i] by {
                        if i > 0 {
                            assert(model::time_at(h, b, i - 1) == model::time_at(h, c, i - 1));
                        }
                    }
                }
                assert(x.types =~= y.types) by {
                    assert forall|i: int| 0 <= i < x.types.len() implies #[trigger] x.types[i]
                        == y.types[i] by {
                        assert(model::bare_type(bt, i) == model::bare_type(ct, i));
                    }
                }
            }
        }
    }
}

/// A data block without faults is all there, and well-formed.
pub proof fn lemma_block_wf(h: Header, b: Seq<u8>)
    requires
        h.wf(),
        model::block_fault(h, b) is None,
    ensures
        h.data_len() <= b.len(),
        model::block_of(h, b).wf(),
{
    let block = model::block_of(h, b);
    let indices = b.skip(model::indices_at(h));
    let types = b.skip(model::types_at(h));
    let d = model::designation_bytes(h, b);
    let starts = model::starts_of(model::bare_types(types, h.tzh_typecnt as nat));
    utf8::decode_utf8_encode_utf8(d);
    let bad_index = |i: int| indices[i] >= h.tzh_typecnt;
    model::lemma_first(h.tzh_timecnt as nat, bad_index);
    assert forall|i: int| 0 <= i < block.transitions.len() implies {
        &&& TIMESTAMP_MIN <= (#[trigger] block.transitions[i]).timestamp <= TIMESTAMP_MAX
        &&& block.transitions[i].type_index < block.types.len()
    } by {
        if i > 0 {
            assert(!bad_index(i - 1));
        }
    }
    let bad_offset = |i: int| !(OFFSET_MIN <= model::offset_at(types, i) <= OFFSET_MAX);
    model::lemma_first(h.tzh_typecnt as nat, bad_offset);
    let bad_designation = |i: int| model::designation_fault(d, i, starts[i] as int) is Some;
    model::lemma_first(starts.len(), bad_designation);
    assert forall|i: int| 0 <= i < block.types.len() implies {
        let typ = #[trigger] block.types[i];
        &&& OFFSET_MIN <= typ.offset <= OFFSET_MAX
        &&& model::is_designation(d, typ.designation.0 as int, typ.designation.1 as int)
    } by {
        assert(!bad_offset(i));
        assert(!bad_designation(i));
        lemma_designation(d, i, starts[i] as int);
    }
}

/// A designation without faults is one.
pub proof fn lemma_designation(d: Seq<u8>, i: int, start: int)
    requires
        utf8::valid_utf8(d),
        model::designation_fault(d, i, start) is None,
    ensures
        model::is_designation(d, start, model::designation_end(d, start)),
        model::designation_end(d, start) <= u8::MAX,
{
    model::lemma_char_boundary_in_range(d, start);
    let nul = |k: int| d[start + k] == 0;
    model::lemma_first((d.len() - start) as nat, nul);
    let end = model::designation_end(d, start);
    assert forall|k: int| start <= k < end implies #[trigger] d[k] != 0 by {
        assert(!nul(k - start));
    }
    utf8::is_char_boundary_iff_not_is_continuation_byte(d, end);
}

/// The header that starts valid data satisfies what headers do.
pub proof fn lemma_header_wf(time_size: usize, b: Seq<u8>)
    requires
        time_size == 4 || time_size == 8,
        header::header_of(time_size, b) is Ok,
    ensures
        b.len() >= HEADER_LEN,
        header::header_of(time_size, b)->Ok_0.wf(),
        header::header_of(time_size, b)->Ok_0.time_size == time_size,
{
    assert forall|i: int| 0 <= i < 6 implies #[trigger] header::count(b, i) <= u32::MAX by {
        bytes::lemma_be_uint_4(b.subrange(20 + 4 * i, 24 + 4 * i));
    }
    assert(header::count(b, 0) <= u32::MAX);
    assert(header::count(b, 1) <= u32::MAX);
    assert(header::count(b, 4) <= u32::MAX);
    assert(header::count(b, 5) <= u32::MAX);
}

/// A footer without faults is all there, and its TZ string is short.
pub proof fn lemma_footer_len(b: Seq<u8>)
    requires
        model::footer_fault(b) is None,
    ensures
        model::tz_len(b) matches Some(n) && 0 <= n < model::FOOTER_SCAN && n + 2 <= b.len(),
        model::footer_tz(b).len() + 2 <= b.len(),
        b[1 + model::tz_len(b)->0] == 0x0a,
        forall|i: int| 1 <= i <= model::tz_len(b)->0 ==> #[trigger] b[i] != 0x0a,
{
    let hit = |i: int| model::footer_scan(b)[i] == 0x0a;
    model::lemma_first(model::footer_scan(b).len(), hit);
    assert forall|i: int| 1 <= i <= model::tz_len(b)->0 implies #[trigger] b[i] != 0x0a by {
        assert(!hit(i - 1));
    }
}

/// The data never takes more bytes than are given.
pub proof fn law_length(b: Seq<u8>)
    requires
        model::contents(b) is Ok,
    ensures
        model::contents(b)->Ok_0.len <= b.len(),
{
    if header::header_of(4, b)->Ok_0.version == 0 {
        law_parts_of_version_1(b);
    } else {
        law_parts_of_later_versions(b);
    }
}

/// Data of version 1 is a header and the data block that it announces. It has
/// no TZ string.
pub proof fn law_parts_of_version_1(b: Seq<u8>)
    requires
        model::contents(b) is Ok,
        header::header_of(4, b)->Ok_0.version == 0,
    ensures
        ({
            let c = model::contents(b)->Ok_0;
            let h = header::header_of(4, b)->Ok_0;
            &&& c.len == HEADER_LEN + h.data_len() <= b.len()
            &&& c.version == 0
            &&& c.tz.len() == 0
        }),
{
    lemma_header_wf(4, b);
    lemma_block_wf(header::header_of(4, b)->Ok_0, b.skip(HEADER_LEN as int));
}

/// The second header of data of a later version. It follows the data block
/// that the first header announces.
pub open spec fn second_header(b: Seq<u8>) -> Header {
    let h = header::header_of(4, b)->Ok_0;
    header::header_of(8, b.skip(HEADER_LEN as int).skip(h.data_len() as int))->Ok_0
}

/// Where the footer of data of a later version starts.
pub open spec fn footer_at(b: Seq<u8>) -> int {
    HEADER_LEN + header::header_of(4, b)->Ok_0.data_len() + HEADER_LEN + second_header(
        b,
    ).data_len()
}

/// Data of a later version is a header, the data block that it announces, a
/// second header, its data block, and a footer. The footer is the TZ string
/// between two line feeds.
#[verifier::rlimit(40)]
pub proof fn law_parts_of_later_versions(b: Seq<u8>)
    requires
        model::contents(b) is Ok,
        header::header_of(4, b)->Ok_0.version != 0,
    ensures
        ({
            let c = model::contents(b)->Ok_0;
            let at = footer_at(b);
            &&& c.len == at + c.tz.len() + 2 <= b.len()
            &&& c.version == second_header(b).version
            &&& b[at] == 0x0a
            &&& c.tz == b.subrange(at + 1, at + 1 + c.tz.len())
            &&& b[at + 1 + c.tz.len()] == 0x0a
            &&& c.tz.len() < model::FOOTER_SCAN
        }),
{
    lemma_later_version(b);
    let h = header::header_of(4, b)->Ok_0;
    lemma_second_length(second_header(b), b, HEADER_LEN + h.data_len() + HEADER_LEN);
}

pub proof fn lemma_skip_skip(b: Seq<u8>, m: int, n: int)
    requires
        0 <= m,
        0 <= n,
        m + n <= b.len(),
    ensures
        b.skip(m).skip(n) == b.skip(m + n),
{
    assert(b.skip(m).skip(n) =~= b.skip(m + n));
}

/// Where the second data block of data of a later version starts, and that it
/// and the footer behind it say what the data says.
#[verifier::rlimit(40)]
pub proof fn lemma_later_version(b: Seq<u8>)
    requires
        model::contents(b) is Ok,
        header::header_of(4, b)->Ok_0.version != 0,
    ensures
        ({
            let h = header::header_of(4, b)->Ok_0;
            let second = HEADER_LEN + h.data_len();
            let at = second + HEADER_LEN;
            &&& header::header_of(4, b) is Ok
            &&& h.wf()
            &&& at <= b.len()
            &&& header::header_of(8, b.skip(second)) == Ok::<Header, HeaderFault>(second_header(b))
            &&& second_header(b).wf()
            &&& model::contents(b) == model::behind(
                at as nat,
                model::second_contents(second_header(b), b.skip(at)),
            )
        }),
{
    lemma_header_wf(4, b);
    let h = header::header_of(4, b)->Ok_0;
    let second = HEADER_LEN + h.data_len();
    assert(second <= b.len());
    lemma_skip_skip(b, HEADER_LEN as int, h.data_len() as int);
    lemma_header_wf(8, b.skip(second));
    lemma_skip_skip(b, second, HEADER_LEN as int);
}

pub proof fn lemma_second_length(h: Header, b: Seq<u8>, at: int)
    requires
        h.wf(),
        0 <= at <= b.len(),
        model::second_contents(h, b.skip(at)) is Ok,
    ensures
        ({
            let c = model::second_contents(h, b.skip(at))->Ok_0;
            let footer = at + h.data_len();
            &&& c.len == h.data_len() + c.tz.len() + 2 <= b.len() - at
            &&& c.version == h.version
            &&& b[footer] == 0x0a
            &&& c.tz == b.subrange(footer + 1, footer + 1 + c.tz.len())
            &&& b[footer + 1 + c.tz.len()] == 0x0a
            &&& c.tz.len() < model::FOOTER_SCAN
        }),
{
    lemma_block_wf(h, b.skip(at));
    lemma_skip_skip(b, at, h.data_len() as int);
    let from = at + h.data_len();
    let footer = b.skip(from);
    lemma_footer_len(footer);
    let n = model::tz_len(footer)->0;
    assert(footer[0] == b[from]);
    assert(footer[1 + n] == b[from + 1 + n]);
    assert(model::footer_tz(footer) =~= b.subrange(from + 1, from + 1 + n));
}

/// Whatever data is accepted, what it says is well-formed: there are local
/// time types and transitions; the first transition is at the least
/// timestamp and of the first local time type; all timestamps and offsets are
/// supported; each transition refers to a local time type; each designation
/// is a range of the designations that a NUL ends.
pub proof fn law_well_formed(b: Seq<u8>)
    requires
        model::contents(b) is Ok,
    ensures
        model::contents(b)->Ok_0.block.wf(),
{
    let h = header::header_of(4, b)->Ok_0;
    lemma_header_wf(4, b);
    let rest = b.skip(HEADER_LEN as int);
    if h.version == 0 {
        lemma_block_wf(h, rest);
    } else {
        let second = rest.skip(h.data_len() as int);
        lemma_header_wf(8, second);
        lemma_block_wf(header::header_of(8, second)->Ok_0, second.skip(HEADER_LEN as int));
    }
}

/// What is parsed takes no more room than the data it is parsed from: five
/// bytes for each transition but the first, six for each local time type, and
/// the designations and the TZ string themselves.
pub proof fn law_resources_bounded(b: Seq<u8>)
    requires
        model::contents(b) is Ok,
    ensures
        ({
            let c = model::contents(b)->Ok_0;
            5 * (c.block.transitions.len() - 1) + 6 * c.block.types.len() + utf8::encode_utf8(
                c.block.designations,
            ).len() + c.tz.len() < b.len()
        }),
{
    let h = header::header_of(4, b)->Ok_0;
    lemma_header_wf(4, b);
    if h.version == 0 {
        law_parts_of_version_1(b);
        lemma_block_room(h, b.skip(HEADER_LEN as int));
    } else {
        law_parts_of_later_versions(b);
        let second = b.skip(HEADER_LEN as int).skip(h.data_len() as int);
        lemma_header_wf(8, second);
        lemma_block_room(second_header(b), second.skip(HEADER_LEN as int));
    }
}

proof fn lemma_block_room(h: Header, b: Seq<u8>)
    requires
        h.wf(),
        model::block_fault(h, b) is None,
    ensures
        ({
            let block = model::block_of(h, b);
            5 * (block.transitions.len() - 1) + 6 * block.types.len() + utf8::encode_utf8(
                block.designations,
            ).len() <= h.data_len()
        }),
{
    utf8::decode_utf8_encode_utf8(model::designation_bytes(h, b));
    assert(h.times_len() >= 4 * h.tzh_timecnt) by (nonlinear_arith)
        requires
            h.times_len() == h.tzh_timecnt * h.time_size,
            h.time_size >= 4,
            h.tzh_timecnt >= 0,
    ;
}

/// A header depends on its own bytes alone, the reserved ones left out.
proof fn lemma_header_local(time_size: usize, b: Seq<u8>, c: Seq<u8>)
    requires
        b.len() >= HEADER_LEN,
        c.len() >= HEADER_LEN,
        forall|i: int| 0 <= i < HEADER_LEN && !(5 <= i < 20) ==> #[trigger] b[i] == c[i],
    ensures
        header::header_of(time_size, b) == header::header_of(time_size, c),
{
    assert(b.take(4) =~= c.take(4));
    assert forall|i: int| 0 <= i < 6 implies #[trigger] header::count(b, i) == header::count(
        c,
        i,
    ) by {
        assert(b.subrange(20 + 4 * i, 24 + 4 * i) =~= c.subrange(20 + 4 * i, 24 + 4 * i));
    }
    assert(header::count(b, 0) == header::count(c, 0));
    assert(header::count(b, 1) == header::count(c, 1));
    assert(header::count(b, 2) == header::count(c, 2));
    assert(header::count(b, 3) == header::count(c, 3));
    assert(header::count(b, 4) == header::count(c, 4));
    assert(header::count(b, 5) == header::count(c, 5));
}

/// A footer without faults depends on its own bytes alone.
proof fn lemma_footer_local(b: Seq<u8>, c: Seq<u8>)
    requires
        model::footer_fault(b) is None,
        model::footer_tz(b).len() + 2 <= c.len(),
        forall|i: int| 0 <= i < model::footer_tz(b).len() + 2 ==> #[trigger] b[i] == c[i],
    ensures
        model::footer_fault(c) is None,
        model::footer_tz(c) == model::footer_tz(b),
{
    lemma_footer_len(b);
    let n = model::tz_len(b)->0;
    let hit = |i: int| model::footer_scan(c)[i] == 0x0a;
    assert(c[0] == b[0]);
    assert(c[n + 1] == b[n + 1]);
    assert(hit(n));
    assert forall|j: int| 0 <= j < n implies !#[trigger] hit(j) by {
        assert(b[1 + j] == c[1 + j]);
        assert(b[1 + j] != 0x0a);
    }
    model::lemma_first_is(model::footer_scan(c).len(), hit, n);
    assert(model::footer_tz(c) =~= model::footer_tz(b)) by {
        assert forall|i: int| 0 <= i < n implies #[trigger] model::footer_tz(c)[i]
            == model::footer_tz(b)[i] by {
            assert(b[1 + i] == c[1 + i]);
        }
    }
}

/// What follows the data is ignored: whatever `c` holds behind the bytes that
/// the data in `b` takes, it says the same.
#[verifier::rlimit(40)]
pub proof fn law_trailing_bytes_ignored(b: Seq<u8>, c: Seq<u8>)
    requires
        model::contents(b) is Ok,
        model::contents(b)->Ok_0.len <= c.len(),
        b.take(model::contents(b)->Ok_0.len as int) == c.take(model::contents(b)->Ok_0.len as int),
    ensures
        model::contents(c) == model::contents(b),
{
    law_length(b);
    let len = model::contents(b)->Ok_0.len as int;
    assert forall|i: int| 0 <= i < len implies #[trigger] b[i] == c[i] by {
        assert(b.take(len)[i] == c.take(len)[i]);
    }
    let h = header::header_of(4, b)->Ok_0;
    lemma_header_wf(4, b);
    lemma_header_local(4, b, c);
    let b1 = b.skip(HEADER_LEN as int);
    let c1 = c.skip(HEADER_LEN as int);
    if h.version == 0 {
        lemma_block_wf(h, b1);
        lemma_block_local(h, b1, c1);
    } else {
        law_parts_of_later_versions(b);
        let b2 = b1.skip(h.data_len() as int);
        let c2 = c1.skip(h.data_len() as int);
        lemma_header_wf(8, b2);
        lemma_header_local(8, b2, c2);
        let h64 = header::header_of(8, b2)->Ok_0;
        let b3 = b2.skip(HEADER_LEN as int);
        let c3 = c2.skip(HEADER_LEN as int);
        lemma_block_wf(h64, b3);
        lemma_block_local(h64, b3, c3);
        let b4 = b3.skip(h64.data_len() as int);
        let c4 = c3.skip(h64.data_len() as int);
        lemma_footer_local(b4, c4);
    }
}

/// Truncated data is refused: no proper prefix of the bytes that valid data
/// takes is valid.
pub proof fn law_truncated_data_refused(b: Seq<u8>, n: int)
    requires
        model::contents(b) is Ok,
        0 <= n < model::contents(b)->Ok_0.len,
    ensures
        model::contents(b.take(n)) is Err,
{
    law_length(b);
    let short = b.take(n);
    if model::contents(short) is Ok {
        law_length(short);
        let len = model::contents(short)->Ok_0.len as int;
        assert(short.take(len) =~= b.take(len));
        law_trailing_bytes_ignored(short, b);
    }
}

/// The reserved bytes of the first header are ignored.
pub proof fn law_reserved_bytes_ignored(b: Seq<u8>, c: Seq<u8>)
    requires
        b.len() == c.len(),
        forall|i: int| 0 <= i < b.len() && !(5 <= i < 20) ==> #[trigger] b[i] == c[i],
    ensures
        model::contents(b) == model::contents(c),
{
    if b.len() >= HEADER_LEN {
        lemma_header_local(4, b, c);
        assert(b.skip(HEADER_LEN as int) =~= c.skip(HEADER_LEN as int));
    }
}

/// In data of later versions the data block of the first header is skipped:
/// whatever it holds, the data says the same, or has the same fault.
pub proof fn law_first_data_block_ignored(b: Seq<u8>, c: Seq<u8>)
    requires
        header::header_of(4, b) matches Ok(h) && h.version != 0,
        b.len() == c.len(),
        forall|i: int|
            0 <= i < b.len() && !(HEADER_LEN <= i < HEADER_LEN + header::header_of(
                4,
                b,
            )->Ok_0.data_len()) ==> #[trigger] b[i] == c[i],
    ensures
        model::contents(b) == model::contents(c),
{
    let h = header::header_of(4, b)->Ok_0;
    lemma_header_local(4, b, c);
    let b1 = b.skip(HEADER_LEN as int);
    let c1 = c.skip(HEADER_LEN as int);
    if h.data_len() <= b1.len() {
        assert(b1.skip(h.data_len() as int) =~= c1.skip(h.data_len() as int));
    }
}

/// Leap seconds are ignored in data of version 1: whatever the leap second
/// records hold, the data says the same, or has the same fault.
pub proof fn law_leap_seconds_ignored_in_version_1(b: Seq<u8>, c: Seq<u8>)
    requires
        header::header_of(4, b) matches Ok(h) && h.version == 0,
        b.len() == c.len(),
        ({
            let h = header::header_of(4, b)->Ok_0;
            let from = HEADER_LEN + model::leaps_at(h);
            let to = from + h.leaps_len();
            forall|i: int| 0 <= i < b.len() && !(from <= i < to) ==> #[trigger] b[i] == c[i]
        }),
    ensures
        model::contents(b) == model::contents(c),
{
    let h = header::header_of(4, b)->Ok_0;
    lemma_header_wf(4, b);
    lemma_header_local(4, b, c);
    lemma_block_local(h, b.skip(HEADER_LEN as int), c.skip(HEADER_LEN as int));
}

/// Leap seconds are ignored in data of later versions: whatever the leap
/// second records of the second data block hold, the data says the same, or
/// has the same fault.
#[verifier::rlimit(40)]
pub proof fn law_leap_seconds_ignored_in_later_versions(b: Seq<u8>, c: Seq<u8>)
    requires
        header::header_of(4, b) matches Ok(h) && h.version != 0 && HEADER_LEN + h.data_len()
            <= b.len() && header::header_of(8, b.skip(HEADER_LEN + h.data_len())) is Ok,
        b.len() == c.len(),
        ({
            let h = header::header_of(4, b)->Ok_0;
            let second = HEADER_LEN + h.data_len();
            let h64 = header::header_of(8, b.skip(second))->Ok_0;
            let from = second + HEADER_LEN + model::leaps_at(h64);
            let to = from + h64.leaps_len();
            forall|i: int| 0 <= i < b.len() && !(from <= i < to) ==> #[trigger] b[i] == c[i]
        }),
    ensures
        model::contents(b) == model::contents(c),
{
    let h = header::header_of(4, b)->Ok_0;
    let second = HEADER_LEN + h.data_len();
    let h64 = header::header_of(8, b.skip(second))->Ok_0;
    lemma_header_wf(4, b);
    lemma_header_wf(8, b.skip(second));
    lemma_header_local(4, b, c);
    lemma_header_local(8, b.skip(second), c.skip(second));
    lemma_contents_later(b, h, h64);
    lemma_contents_later(c, h, h64);
    lemma_second_local(h64, b, c, second + HEADER_LEN);
}

/// What data of a later version says, given its two headers.
#[verifier::rlimit(40)]
pub proof fn lemma_contents_later(b: Seq<u8>, h: Header, h64: Header)
    requires
        header::header_of(4, b) == Ok::<Header, HeaderFault>(h),
        h.version != 0,
        HEADER_LEN + h.data_len() <= b.len(),
        header::header_of(8, b.skip(HEADER_LEN + h.data_len())) == Ok::<Header, HeaderFault>(h64),
    ensures
        model::contents(b) == match h.data_len_fault() {
            Some(fault) => Err(fault),
            None => model::behind(
                (HEADER_LEN + h.data_len() + HEADER_LEN) as nat,
                model::second_contents(h64, b.skip(HEADER_LEN + h.data_len() + HEADER_LEN)),
            ),
        },
{
    let second = HEADER_LEN + h.data_len();
    lemma_header_wf(8, b.skip(second));
    lemma_skip_skip(b, HEADER_LEN as int, h.data_len() as int);
    lemma_skip_skip(b, second, HEADER_LEN as int);
}

proof fn lemma_second_local(h: Header, b: Seq<u8>, c: Seq<u8>, at: int)
    requires
        h.wf(),
        0 <= at <= b.len() == c.len(),
        forall|i: int|
            at <= i < b.len() && !(at + model::leaps_at(h) <= i < at + model::indicators_at(h))
                ==> #[trigger] b[i] == c[i],
    ensures
        model::second_contents(h, b.skip(at)) == model::second_contents(h, c.skip(at)),
{
    let b3 = b.skip(at);
    let c3 = c.skip(at);
    lemma_block_local(h, b3, c3);
    if model::block_fault(h, b3) is None {
        lemma_block_wf(h, b3);
        assert(b3.skip(h.data_len() as int) =~= c3.skip(h.data_len() as int));
    }
}

/// Clamping keeps the order of timestamps, and does not change those that are
/// supported.
pub proof fn law_clamping_keeps_order(s: int, t: int)
    requires
        s <= t,
    ensures
        model::clamp(s) <= model::clamp(t),
        TIMESTAMP_MIN <= s <= TIMESTAMP_MAX ==> model::clamp(s) == s,
{
}

/// Where the transition times in a data block are in order, so are the
/// transitions that it says, the first one and the clamped ones too.
pub proof fn law_transitions_in_order(h: Header, b: Seq<u8>, i: int, j: int)
    requires
        forall|k: int, l: int|
            0 <= k <= l < h.tzh_timecnt ==> #[trigger] model::time_at(h, b, k)
                <= #[trigger] model::time_at(h, b, l),
        0 <= i <= j <= h.tzh_timecnt,
    ensures
        model::block_of(h, b).transitions[i].timestamp <= model::block_of(
            h,
            b,
        ).transitions[j].timestamp,
{
    if i > 0 {
        assert(model::time_at(h, b, i - 1) <= model::time_at(h, b, j - 1));
    }
}

/// In a data block without faults, the indicators of each local time type are
/// 0 or 1, and a UT/local indicator is 1 only where the standard/wall
/// indicator is. Indicators that are not in the data count as 0. Together
/// they say how transition times were given.
pub proof fn law_indicators(h: Header, b: Seq<u8>, i: int)
    requires
        h.wf(),
        model::block_fault(h, b) is None,
        0 <= i < h.tzh_typecnt,
    ensures
        ({
            let indicators = b.skip(model::indicators_at(h));
            let std = if h.tzh_ttisstdcnt == 0 {
                0
            } else {
                indicators[i] as int
            };
            let ut = if h.tzh_ttisutcnt == 0 {
                0
            } else {
                indicators[h.tzh_ttisstdcnt + i] as int
            };
            &&& 0 <= ut <= std <= 1
            &&& model::block_of(h, b).types[i].indicator == if std == 0 {
                TzifIndicator::LocalWall
            } else if ut == 0 {
                TzifIndicator::LocalStandard
            } else {
                TzifIndicator::UTStandard
            }
        }),
{
    lemma_block_wf(h, b);
    let indicators = b.skip(model::indicators_at(h));
    let std = model::standard_wall(h, indicators);
    let ut = model::ut_local(h, indicators);
    let bad = |k: int| model::indicator_fault(std, ut, k) is Some;
    model::lemma_first(model::indicated(std, ut), bad);
    if h.tzh_ttisstdcnt != 0 || h.tzh_ttisutcnt != 0 {
        assert(!bad(i));
    }
}

/// Whatever parses TZ strings, one with daylight saving time but no rule for
/// it never gets into a time zone.
pub proof fn law_dst_has_rule<P: Fn(&[u8]) -> Result<PosixTimeZone, String>>(
    parse_posix: &P,
    tz: Seq<u8>,
    posix_tz: Option<PosixTimeZone>,
)
    requires
        parse::posix_result(parse_posix, tz, Ok(posix_tz)),
    ensures
        posix_tz matches Some(p) && !p.dst_without_rule(),
{
}

} // verus!
