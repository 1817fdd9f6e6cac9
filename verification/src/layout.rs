//! The correspondence between what TZif data says and where its bytes are.

use crate::calls;
use crate::header;
use crate::header::Header;
use crate::laws;
use crate::model;
use crate::part_calls;
use crate::raw;
use crate::raw::Counts;
use crate::zone::TzifIndicator;
use vstd::prelude::*;
use vstd::utf8;

verus! {

/// The counts that a header holds.
pub open spec fn counts_of(h: Header) -> Counts {
    Counts {
        time_size: h.time_size as int,
        ut: h.tzh_ttisutcnt as int,
        std: h.tzh_ttisstdcnt as int,
        leap: h.tzh_leapcnt as int,
        time: h.tzh_timecnt as int,
        types: h.tzh_typecnt as int,
        chars: h.tzh_charcnt as int,
    }
}

/// Where the parts of a data block are, in terms of its counts.
pub proof fn lemma_layout(h: Header)
    ensures
        ({
            let c = counts_of(h);
            &&& model::indices_at(h) == c.indices()
            &&& model::types_at(h) == c.records()
            &&& model::designations_at(h) == c.designations()
            &&& model::leaps_at(h) == c.leaps()
            &&& model::indicators_at(h) == c.std_at()
            &&& h.data_len() == c.size()
            &&& 0 <= c.indices() <= c.records() <= c.designations() <= c.leaps() <= c.std_at()
                <= c.ut_at() <= c.size()
        }),
{
    assert(h.leaps_len() == h.tzh_leapcnt * (h.time_size + 4));
}

pub proof fn lemma_indices_raw(h: Header, b: Seq<u8>)
    requires
        counts_of(h).records() <= b.len(),
    ensures
        model::bad_index(h, b.skip(model::indices_at(h))) is None <==> raw::indices_good(
            counts_of(h),
            b,
            0,
        ),
{
    lemma_layout(h);
    let from = counts_of(h).indices();
    let s = b.skip(from);
    let bad = |i: int| s[i] >= h.tzh_typecnt;
    model::lemma_first(h.tzh_timecnt as nat, bad);
    if model::bad_index(h, s) is None {
        assert forall|i: int| from <= i < from + h.tzh_timecnt implies (#[trigger] b[i])
            < h.tzh_typecnt by {
            assert(!bad(i - from));
        }
    } else {
        let k = model::bad_index(h, s)->0;
        assert(b[from + k] == s[k]);
    }
}

pub proof fn lemma_offset_raw(h: Header, b: Seq<u8>, i: int)
    requires
        counts_of(h).designations() <= b.len(),
        0 <= i < h.tzh_typecnt,
    ensures
        ({
            let s = b.skip(model::types_at(h));
            let at = counts_of(h).records() + 6 * i;
            &&& model::offset_at(s, i) == raw::i32_at(b, at)
            &&& -0x8000_0000 <= raw::i32_at(b, at) < 0x8000_0000
            &&& s[6 * i + 4] == b[at + 4]
            &&& s[6 * i + 5] == b[at + 5]
        }),
{
    lemma_layout(h);
    let s = b.skip(model::types_at(h));
    let at = counts_of(h).records() + 6 * i;
    raw::lemma_u32_at(b, at);
    assert(s.subrange(6 * i, 6 * i + 4) =~= b.subrange(at, at + 4));
}

pub proof fn lemma_offsets_raw(h: Header, b: Seq<u8>)
    requires
        counts_of(h).designations() <= b.len(),
    ensures
        model::bad_offset(h, b.skip(model::types_at(h))) is None <==> forall|i: int|
            0 <= i < h.tzh_typecnt ==> #[trigger] raw::offset_good(counts_of(h), b, 0, i),
{
    let s = b.skip(model::types_at(h));
    let bad = |i: int| !(-93599 <= model::offset_at(s, i) <= 93599);
    model::lemma_first(h.tzh_typecnt as nat, bad);
    assert forall|i: int| 0 <= i < h.tzh_typecnt implies #[trigger] raw::offset_good(
        counts_of(h),
        b,
        0,
        i,
    ) == !bad(i) by {
        lemma_offset_raw(h, b, i);
    }
    if model::bad_offset(h, s) is Some {
        let k = model::bad_offset(h, s)->0;
        assert(bad(k));
        assert(!raw::offset_good(counts_of(h), b, 0, k));
    }
}

pub proof fn lemma_designation_good(h: Header, b: Seq<u8>, i: int)
    requires
        counts_of(h).leaps() <= b.len(),
        utf8::valid_utf8(model::designation_bytes(h, b)),
        0 <= i < h.tzh_typecnt,
    ensures
        ({
            let d = model::designation_bytes(h, b);
            let start = b[counts_of(h).records() + 6 * i + 5] as int;
            model::designation_fault(d, i, start) is None <==> raw::designation_good(
                counts_of(h),
                b,
                0,
                i,
            )
        }),
{
    lemma_layout(h);
    let c = counts_of(h);
    let d = model::designation_bytes(h, b);
    let start = b[c.records() + 6 * i + 5] as int;
    part_calls::lemma_designation_raw(d, i, start);
    assert forall|k: int| 0 <= k < c.chars implies #[trigger] d[k] == b[c.designations() + k] by {}
    if start <= d.len() {
        match model::nul_after(d, start) {
            Some(k) => {
                assert(d[start] == b[c.designations() + start]);
                assert(b[0 + c.designations() + (start + k)] == 0);
                if raw::designation_good(c, b, 0, i) {
                    let end = choose|end: int|
                        start <= end < c.chars && end <= 255 && #[trigger] b[0 + c.designations()
                            + end] == 0;
                    assert(d[end] == 0);
                    assert(start + k <= end);
                }
            },
            None => {
                if raw::designation_good(c, b, 0, i) {
                    let end = choose|end: int|
                        start <= end < c.chars && end <= 255 && #[trigger] b[0 + c.designations()
                            + end] == 0;
                    assert(d[end] == 0);
                }
            },
        }
    }
}

pub proof fn lemma_designations_raw(h: Header, b: Seq<u8>)
    requires
        counts_of(h).leaps() <= b.len(),
        utf8::valid_utf8(model::designation_bytes(h, b)),
    ensures
        ({
            let d = model::designation_bytes(h, b);
            let starts = model::starts_of(
                model::bare_types(b.skip(model::types_at(h)), h.tzh_typecnt as nat),
            );
            &&& model::bad_designation(d, starts) is None <==> forall|i: int|
                0 <= i < h.tzh_typecnt ==> #[trigger] raw::designation_good(counts_of(h), b, 0, i)
            &&& model::bad_designation(d, starts) matches Some(k) ==> model::designation_fault(
                d,
                k,
                starts[k] as int,
            ) is Some
        }),
{
    lemma_layout(h);
    let d = model::designation_bytes(h, b);
    let types = b.skip(model::types_at(h));
    let starts = model::starts_of(model::bare_types(types, h.tzh_typecnt as nat));
    let bad = |i: int| model::designation_fault(d, i, starts[i] as int) is Some;
    model::lemma_first(starts.len(), bad);
    assert forall|i: int| 0 <= i < h.tzh_typecnt implies #[trigger] raw::designation_good(
        counts_of(h),
        b,
        0,
        i,
    ) == !bad(i) by {
        lemma_offset_raw(h, b, i);
        lemma_designation_good(h, b, i);
        assert(starts[i] == types[6 * i + 5]);
    }
    if model::bad_designation(d, starts) is Some {
        let k = model::bad_designation(d, starts)->0;
        assert(bad(k));
        assert(!raw::designation_good(counts_of(h), b, 0, k));
    }
}

pub proof fn lemma_indicators_raw(h: Header, b: Seq<u8>)
    requires
        h.wf(),
        counts_of(h).size() <= b.len(),
    ensures
        ({
            let s = b.skip(model::indicators_at(h));
            let std = model::standard_wall(h, s);
            let ut = model::ut_local(h, s);
            &&& model::bad_indicator(std, ut) is None <==> forall|i: int|
                0 <= i < h.tzh_typecnt ==> #[trigger] raw::indicators_good(counts_of(h), b, 0, i)
            &&& model::bad_indicator(std, ut) matches Some(k) ==> model::indicator_fault(
                std,
                ut,
                k,
            ) is Some
        }),
{
    lemma_layout(h);
    let c = counts_of(h);
    let s = b.skip(model::indicators_at(h));
    let std = model::standard_wall(h, s);
    let ut = model::ut_local(h, s);
    let bad = |i: int| model::indicator_fault(std, ut, i) is Some;
    model::lemma_first(model::indicated(std, ut), bad);
    assert forall|i: int| 0 <= i < h.tzh_typecnt && c.std + c.ut > 0 implies (
    #[trigger] raw::indicators_good(c, b, 0, i)) == !bad(i) by {
        if c.std > 0 {
            assert(std[i] == b[c.std_at() + i]);
        }
        if c.ut > 0 {
            assert(ut[i] == b[c.ut_at() + i]);
        }
    }
    if model::bad_indicator(std, ut) is Some {
        let k = model::bad_indicator(std, ut)->0;
        assert(bad(k));
        assert(!raw::indicators_good(c, b, 0, k));
    }
}

/// A data block at the start of `b` has no fault exactly where its bytes are
/// in order.
#[verifier::rlimit(40)]
pub proof fn lemma_block_raw(h: Header, b: Seq<u8>)
    requires
        h.wf(),
        b.len() <= usize::MAX,
    ensures
        model::block_fault(h, b) is None <==> raw::is_block(counts_of(h), b, 0),
{
    let c = counts_of(h);
    lemma_layout(h);
    let d = model::designation_bytes(h, b);
    if model::block_fault(h, b) is None {
        laws::lemma_block_wf(h, b);
    }
    if c.size() <= b.len() {
        assert(d =~= b.subrange(c.designations(), c.leaps()));
        lemma_indices_raw(h, b);
        lemma_offsets_raw(h, b);
        lemma_indicators_raw(h, b);
        if utf8::valid_utf8(d) {
            lemma_designations_raw(h, b);
        }
    }
}

/// The counts of a header are not negative.
pub proof fn lemma_counts(b: Seq<u8>, at: int, time_size: int)
    requires
        0 <= at,
        at + 44 <= b.len(),
        time_size == 4 || time_size == 8,
    ensures
        ({
            let c = raw::counts_at(b, at, time_size);
            &&& 0 <= c.ut <= 0xffff_ffff
            &&& 0 <= c.std <= 0xffff_ffff
            &&& 0 <= c.leap <= 0xffff_ffff
            &&& 0 <= c.time <= 0xffff_ffff
            &&& 0 <= c.types <= 0xffff_ffff
            &&& 0 <= c.chars <= 0xffff_ffff
            &&& 0 <= c.indices() <= c.records() <= c.designations() <= c.leaps() <= c.std_at()
                <= c.ut_at() <= c.size()
            &&& time_size == 4 ==> c.indices() == 4 * c.time && c.std_at() == c.leaps() + 8 * c.leap
            &&& time_size == 8 ==> c.indices() == 8 * c.time && c.std_at() == c.leaps() + 12
                * c.leap
        }),
{
    let c = raw::counts_at(b, at, time_size);
    let (x, y, n) = (c.time, c.leap, c.time_size);
    assert(n == 4 ==> x * n == 4 * x && y * (n + 4) == 8 * y) by (nonlinear_arith);
    assert(n == 8 ==> x * n == 8 * x && y * (n + 4) == 12 * y) by (nonlinear_arith);
    raw::lemma_u32_at(b, at + 20);
    raw::lemma_u32_at(b, at + 24);
    raw::lemma_u32_at(b, at + 28);
    raw::lemma_u32_at(b, at + 32);
    raw::lemma_u32_at(b, at + 36);
    raw::lemma_u32_at(b, at + 40);
}

/// What is `at` bytes further on is the same.
pub proof fn lemma_header_shift(b: Seq<u8>, at: int)
    requires
        0 <= at <= b.len(),
    ensures
        raw::is_header(b.skip(at), 0) <==> raw::is_header(b, at),
        at + 44 <= b.len() ==> {
            &&& raw::counts_at(b.skip(at), 0, 8) == raw::counts_at(b, at, 8)
            &&& b.skip(at)[4] == b[at + 4]
        },
{
    if at + 44 <= b.len() {
        let s = b.skip(at);
        assert forall|i: int| 0 <= i < 44 implies #[trigger] s[i] == b[at + i] by {}
        raw::lemma_at_shift(b, at, 20);
        raw::lemma_at_shift(b, at, 24);
        raw::lemma_at_shift(b, at, 28);
        raw::lemma_at_shift(b, at, 32);
        raw::lemma_at_shift(b, at, 36);
        raw::lemma_at_shift(b, at, 40);
    }
}

pub proof fn lemma_footer_shift(b: Seq<u8>, at: int, n: int)
    requires
        0 <= at <= b.len(),
    ensures
        raw::is_footer(b.skip(at), 0, n) <==> raw::is_footer(b, at, n),
{
    let s = b.skip(at);
    if 0 <= n && at + n + 2 <= b.len() {
        assert forall|i: int| 0 <= i < n + 2 implies #[trigger] s[i] == b[at + i] by {}
        if raw::is_footer(s, 0, n) {
            assert forall|i: int| at < i < at + 1 + n implies #[trigger] b[i] != 0x0a by {
                assert(s[i - at] == b[i]);
            }
        }
        if raw::is_footer(b, at, n) {
            assert forall|i: int| 0 < i < 1 + n implies #[trigger] s[i] != 0x0a by {
                assert(s[i] == b[at + i]);
            }
        }
    }
}

#[verifier::rlimit(40)]
pub proof fn lemma_block_shift(c: Counts, b: Seq<u8>, at: int)
    requires
        0 <= at <= b.len(),
        c.types >= 0,
        c.chars >= 0,
        c.time >= 0,
        c.std == 0 || c.std == c.types,
        c.ut == 0 || c.ut == c.types,
        0 <= c.indices() <= c.records() <= c.designations() <= c.leaps() <= c.std_at() <= c.ut_at()
            <= c.size(),
    ensures
        raw::is_block(c, b.skip(at), 0) <==> raw::is_block(c, b, at),
{
    let s = b.skip(at);
    if at + c.size() <= b.len() {
        assert forall|i: int| 0 <= i < c.size() implies #[trigger] s[i] == b[at + i] by {}
        assert(raw::indices_good(c, s, 0) <==> raw::indices_good(c, b, at)) by {
            if raw::indices_good(c, s, 0) {
                assert forall|i: int|
                    at + c.indices() <= i < at + c.indices() + c.time implies (#[trigger] b[i])
                    < c.types by {
                    assert(s[i - at] == b[i]);
                }
            }
            if raw::indices_good(c, b, at) {
                assert forall|i: int| c.indices() <= i < c.indices() + c.time implies (
                #[trigger] s[i]) < c.types by {
                    assert(s[i] == b[at + i]);
                }
            }
        }
        assert(s.subrange(c.designations(), c.leaps()) =~= b.subrange(
            at + c.designations(),
            at + c.leaps(),
        ));
        assert forall|i: int| 0 <= i < c.types implies #[trigger] raw::offset_good(c, s, 0, i)
            == raw::offset_good(c, b, at, i) by {
            let r = c.records() + 6 * i;
            raw::lemma_at_shift(b, at, r);
        }
        assert forall|i: int| 0 <= i < c.types implies #[trigger] raw::designation_good(c, s, 0, i)
            == raw::designation_good(c, b, at, i) by {
            lemma_designation_shift(c, b, at, i);
        }
        assert forall|i: int| 0 <= i < c.types implies #[trigger] raw::indicators_good(c, s, 0, i)
            == raw::indicators_good(c, b, at, i) by {
            if c.std > 0 {
                assert(s[c.std_at() + i] == b[at + c.std_at() + i]);
            }
            if c.ut > 0 {
                assert(s[c.ut_at() + i] == b[at + c.ut_at() + i]);
            }
        }
        if raw::is_block(c, s, 0) {
            assert forall|i: int| 0 <= i < c.types implies #[trigger] raw::offset_good(
                c,
                b,
                at,
                i,
            ) by {
                assert(raw::offset_good(c, s, 0, i));
            }
            assert forall|i: int| 0 <= i < c.types implies #[trigger] raw::designation_good(
                c,
                b,
                at,
                i,
            ) by {
                assert(raw::designation_good(c, s, 0, i));
            }
            assert forall|i: int| 0 <= i < c.types implies #[trigger] raw::indicators_good(
                c,
                b,
                at,
                i,
            ) by {
                assert(raw::indicators_good(c, s, 0, i));
            }
        }
    }
}

pub proof fn lemma_designation_shift(c: Counts, b: Seq<u8>, at: int, i: int)
    requires
        0 <= at,
        at + c.size() <= b.len(),
        0 <= i < c.types,
        0 <= c.chars,
        0 <= c.records() <= c.designations() <= c.leaps() <= c.size(),
    ensures
        raw::designation_good(c, b.skip(at), 0, i) == raw::designation_good(c, b, at, i),
{
    let s = b.skip(at);
    assert forall|k: int| 0 <= k < c.size() implies #[trigger] s[k] == b[at + k] by {}
    let r = c.records() + 6 * i + 5;
    assert(s[r] == b[at + r]);
    let start = s[r] as int;
    let d = c.designations();
    if start < c.chars {
        assert(s[d + start] == b[at + d + start]);
        if raw::designation_good(c, s, 0, i) {
            let end = choose|end: int|
                start <= end < c.chars && end <= 255 && #[trigger] s[0 + d + end] == 0;
            assert(s[d + end] == b[at + d + end]);
            assert(b[at + d + end] == 0);
        }
        if raw::designation_good(c, b, at, i) {
            let end = choose|end: int|
                start <= end < c.chars && end <= 255 && #[trigger] b[at + d + end] == 0;
            assert(s[d + end] == b[at + d + end]);
            assert(s[0 + d + end] == 0);
        }
    }
}

/// The first header, in terms of its bytes.
pub proof fn lemma_first_header(b: Seq<u8>)
    requires
        header::header_of(4, b) is Ok,
    ensures
        ({
            let h = header::header_of(4, b)->Ok_0;
            &&& raw::is_header(b, 0)
            &&& h.wf()
            &&& h.version == b[4]
            &&& counts_of(h) == raw::counts_at(b, 0, 4)
            &&& h.data_len() == raw::counts_at(b, 0, 4).size()
        }),
{
    calls::lemma_header_raw(4, b);
    lemma_layout(header::header_of(4, b)->Ok_0);
}

/// A header of 64-bit data that starts at `at`, in terms of its bytes.
pub proof fn lemma_second_header(b: Seq<u8>, at: int)
    requires
        0 <= at <= b.len(),
    ensures
        header::header_of(8, b.skip(at)) is Ok <==> raw::is_header(b, at),
        header::header_of(8, b.skip(at)) matches Ok(h) ==> {
            &&& h.wf()
            &&& h.version == b[at + 4]
            &&& counts_of(h) == raw::counts_at(b, at, 8)
            &&& h.data_len() == raw::counts_at(b, at, 8).size()
        },
{
    calls::lemma_header_raw(8, b.skip(at));
    lemma_header_shift(b, at);
    if let Ok(h) = header::header_of(8, b.skip(at)) {
        lemma_layout(h);
        assert(counts_of(h) == raw::counts_at(b.skip(at), 0, 8));
    }
}

/// What accepted data of version 1 says, in terms of its bytes. Its header is
/// returned.
#[verifier::rlimit(40)]
pub proof fn lemma_accepted_first(b: Seq<u8>) -> (h: Header)
    requires
        b.len() <= usize::MAX,
        model::contents(b) is Ok,
        b[4] == 0,
    ensures
        ({
            let c = model::contents(b)->Ok_0;
            &&& 44 <= b.len()
            &&& raw::is_header(b, 0)
            &&& raw::is_block(counts_of(h), b, 44)
            &&& h.wf()
            &&& counts_of(h) == raw::counts_at(b, 0, 4)
            &&& model::block_fault(h, b.skip(44)) is None
            &&& c.block == model::block_of(h, b.skip(44))
            &&& c.version == 0
            &&& c.tz.len() == 0
            &&& c.len == 44 + counts_of(h).size()
        }),
{
    lemma_first_header(b);
    let h = header::header_of(4, b)->Ok_0;
    lemma_counts(b, 0, 4);
    lemma_layout(h);
    lemma_block_raw(h, b.skip(44));
    lemma_block_shift(counts_of(h), b, 44);
    h
}

/// What accepted data of a later version says, in terms of its bytes. Its
/// second header is returned.
#[verifier::rlimit(40)]
pub proof fn lemma_accepted_later(b: Seq<u8>) -> (h: Header)
    requires
        b.len() <= usize::MAX,
        model::contents(b) is Ok,
        b[4] != 0,
    ensures
        ({
            let c = model::contents(b)->Ok_0;
            let second = 44 + raw::counts_at(b, 0, 4).size();
            let end = second + 44 + counts_of(h).size();
            &&& 0 <= second
            &&& second + 44 <= b.len()
            &&& raw::is_header(b, 0)
            &&& raw::is_header(b, second)
            &&& raw::is_block(counts_of(h), b, second + 44)
            &&& raw::is_footer(b, end, c.tz.len() as int)
            &&& h.wf()
            &&& counts_of(h) == raw::counts_at(b, second, 8)
            &&& model::block_fault(h, b.skip(second + 44)) is None
            &&& c.block == model::block_of(h, b.skip(second + 44))
            &&& c.version == b[second + 4]
            &&& c.tz == b.subrange(end + 1, end + 1 + c.tz.len())
            &&& c.len == end + c.tz.len() + 2
        }),
{
    lemma_first_header(b);
    laws::lemma_later_version(b);
    let h = laws::second_header(b);
    let second = 44 + header::header_of(4, b)->Ok_0.data_len() as int;
    lemma_second_header(b, second);
    lemma_second_said(h, b, second);
    h
}

/// The rest of `lemma_accepted_later`, for the second header alone.
pub proof fn lemma_second_said(h: Header, b: Seq<u8>, second: int)
    requires
        h.wf(),
        0 <= second,
        second + 44 <= b.len() <= usize::MAX,
        raw::is_header(b, second),
        counts_of(h) == raw::counts_at(b, second, 8),
        model::second_contents(h, b.skip(second + 44)) is Ok,
    ensures
        ({
            let c = model::second_contents(h, b.skip(second + 44))->Ok_0;
            let end = second + 44 + counts_of(h).size();
            &&& raw::is_block(counts_of(h), b, second + 44)
            &&& raw::is_footer(b, end, c.tz.len() as int)
            &&& model::block_fault(h, b.skip(second + 44)) is None
            &&& c.block == model::block_of(h, b.skip(second + 44))
            &&& c.version == h.version
            &&& c.tz == b.subrange(end + 1, end + 1 + c.tz.len())
            &&& c.len == counts_of(h).size() + c.tz.len() + 2
        }),
{
    lemma_layout(h);
    lemma_second_file(h, b, second);
    laws::lemma_second_length(h, b, second + 44);
}

/// What accepted data says, in terms of its bytes. The header that counts is
/// returned.
pub proof fn lemma_accepted(b: Seq<u8>) -> (h: Header)
    requires
        b.len() <= usize::MAX,
        model::contents(b) is Ok,
    ensures
        ({
            let c = model::contents(b)->Ok_0;
            let at = raw::main_header(b) + 44;
            let end = at + raw::main_counts(b).size();
            &&& raw::is_file(b)
            &&& h.wf()
            &&& counts_of(h) == raw::main_counts(b)
            &&& at <= b.len()
            &&& model::block_fault(h, b.skip(at)) is None
            &&& c.block == model::block_of(h, b.skip(at))
            &&& c.version == b[raw::main_header(b) + 4]
            &&& b[4] == 0 ==> c.tz.len() == 0 && c.len == end
            &&& b[4] != 0 ==> {
                &&& raw::is_footer(b, end, c.tz.len() as int)
                &&& c.tz == b.subrange(end + 1, end + 1 + c.tz.len())
                &&& c.len == end + c.tz.len() + 2
            }
        }),
{
    if b[4] == 0 {
        lemma_accepted_first(b)
    } else {
        lemma_accepted_later(b)
    }
}

/// The second data block and the footer, in terms of their bytes.
#[verifier::rlimit(40)]
pub proof fn lemma_second_file(h: Header, b: Seq<u8>, second: int)
    requires
        h.wf(),
        0 <= second,
        second + 44 <= b.len() <= usize::MAX,
        raw::is_header(b, second),
        counts_of(h) == raw::counts_at(b, second, 8),
    ensures
        ({
            let at = second + 44;
            let end = at + counts_of(h).size();
            &&& model::block_fault(h, b.skip(at)) is None <==> raw::is_block(counts_of(h), b, at)
            &&& model::second_contents(h, b.skip(at)) matches Ok(c) ==> raw::is_block(
                counts_of(h),
                b,
                at,
            ) && raw::is_footer(b, end, c.tz.len() as int)
            &&& forall|n: int|
                raw::is_block(counts_of(h), b, at) && #[trigger] raw::is_footer(b, end, n)
                    ==> model::second_contents(h, b.skip(at)) is Ok
        }),
{
    let at = second + 44;
    lemma_counts(b, second, 8);
    lemma_layout(h);
    lemma_block_raw(h, b.skip(at));
    lemma_block_shift(counts_of(h), b, at);
    let end = at + counts_of(h).size();
    if raw::is_block(counts_of(h), b, at) {
        laws::lemma_skip_skip(b, at, h.data_len() as int);
        let footer = b.skip(end);
        if model::footer_fault(footer) is None {
            laws::lemma_footer_len(footer);
            let n = model::tz_len(footer)->0;
            assert(raw::is_footer(footer, 0, n));
            lemma_footer_shift(b, end, n);
        }
        assert forall|n: int| #[trigger] raw::is_footer(b, end, n) implies model::footer_fault(
            footer,
        ) is None by {
            lemma_footer_shift(b, end, n);
            part_calls::lemma_footer_raw(footer, n);
        }
    }
}

/// Data whose bytes are in order is accepted.
#[verifier::rlimit(40)]
pub proof fn lemma_file_accepted(b: Seq<u8>)
    requires
        b.len() <= usize::MAX,
        raw::is_file(b),
    ensures
        model::contents(b) is Ok,
{
    calls::lemma_header_raw(4, b);
    lemma_first_header(b);
    let h32 = header::header_of(4, b)->Ok_0;
    lemma_counts(b, 0, 4);
    lemma_layout(h32);
    if b[4] == 0 {
        lemma_block_raw(h32, b.skip(44));
        lemma_block_shift(counts_of(h32), b, 44);
    } else {
        let second = 44 + h32.data_len() as int;
        lemma_second_header(b, second);
        let h = header::header_of(8, b.skip(second))->Ok_0;
        lemma_second_file(h, b, second);
        laws::lemma_contents_later(b, h32, h);
        assert(h32.data_len_fault() is None);
    }
}

/// The data block that accepted data says, in terms of its bytes.
pub proof fn lemma_accepted_block(b: Seq<u8>) -> (h: Header)
    requires
        b.len() <= usize::MAX,
        model::contents(b) is Ok,
    ensures
        ({
            let at = raw::main_header(b) + 44;
            &&& h.wf()
            &&& counts_of(h) == raw::main_counts(b)
            &&& 0 <= at <= b.len()
            &&& model::block_fault(h, b.skip(at)) is None
            &&& model::contents(b)->Ok_0.block == model::block_of(h, b.skip(at))
        }),
{
    let h = lemma_accepted(b);
    lemma_counts(b, 0, 4);
    h
}

#[verifier::rlimit(40)]
pub proof fn lemma_which_block(b: Seq<u8>)
    requires
        b.len() <= usize::MAX,
        model::contents(b) is Ok,
    ensures
        b.len() >= 44,
        b[0] == 'T' as u8 && b[1] == 'Z' as u8 && b[2] == 'i' as u8 && b[3] == 'f' as u8,
        ({
            let c = model::contents(b)->Ok_0;
            let m = 44 + 5 * raw::u32_at(b, 32) + 6 * raw::u32_at(b, 36) + raw::u32_at(b, 40) + 8
                * raw::u32_at(b, 28) + raw::u32_at(b, 24) + raw::u32_at(b, 20);
            let end = m + 44 + 9 * raw::u32_at(b, m + 32) + 6 * raw::u32_at(b, m + 36)
                + raw::u32_at(b, m + 40) + 12 * raw::u32_at(b, m + 28) + raw::u32_at(b, m + 24)
                + raw::u32_at(b, m + 20);
            &&& c.len <= b.len()
            &&& b[4] == 0 ==> {
                &&& c.len == m
                &&& c.version == 0
                &&& c.tz.len() == 0
                &&& c.block.transitions.len() == raw::u32_at(b, 32) + 1
                &&& c.block.types.len() == raw::u32_at(b, 36)
            }
            &&& b[4] != 0 ==> {
                &&& m + 44 <= end < b.len()
                &&& b[m] == 'T' as u8 && b[m + 1] == 'Z' as u8 && b[m + 2] == 'i' as u8 && b[m + 3]
                    == 'f' as u8
                &&& c.len == end + c.tz.len() + 2
                &&& c.version == b[m + 4]
                &&& c.tz == b.subrange(end + 1, end + 1 + c.tz.len())
                &&& raw::is_footer(b, end, c.tz.len() as int)
                &&& c.block.transitions.len() == raw::u32_at(b, m + 32) + 1
                &&& c.block.types.len() == raw::u32_at(b, m + 36)
            }
        }),
{
    let h = lemma_accepted(b);
    lemma_sizes(b);
}

/// Where the header that counts is, and the end of its data block, written out
/// in the counts.
pub proof fn lemma_sizes(b: Seq<u8>)
    requires
        b.len() >= 44,
        raw::main_header(b) + 44 <= b.len(),
    ensures
        ({
            let m = 44 + 5 * raw::u32_at(b, 32) + 6 * raw::u32_at(b, 36) + raw::u32_at(b, 40) + 8
                * raw::u32_at(b, 28) + raw::u32_at(b, 24) + raw::u32_at(b, 20);
            let end = m + 44 + 9 * raw::u32_at(b, m + 32) + 6 * raw::u32_at(b, m + 36)
                + raw::u32_at(b, m + 40) + 12 * raw::u32_at(b, m + 28) + raw::u32_at(b, m + 24)
                + raw::u32_at(b, m + 20);
            &&& m >= 44
            &&& b[4] == 0 ==> raw::main_header(b) + 44 + raw::main_counts(b).size() == m
            &&& b[4] != 0 ==> {
                &&& raw::main_header(b) == m
                &&& raw::main_header(b) + 44 + raw::main_counts(b).size() == end
                &&& m + 44 <= end
            }
        }),
{
    lemma_counts(b, 0, 4);
    if b[4] != 0 {
        lemma_counts(b, raw::main_header(b), 8);
    }
}

/// The transitions of a data block without faults, in terms of its bytes.
pub proof fn lemma_transition_raw(h: Header, b: Seq<u8>, at: int, i: int)
    requires
        h.wf(),
        0 <= at <= b.len(),
        model::block_fault(h, b.skip(at)) is None,
        0 <= i < h.tzh_timecnt,
    ensures
        ({
            let t = model::block_of(h, b.skip(at)).transitions[i + 1];
            let v = if h.time_size == 4 {
                raw::i32_at(b, at + 4 * i)
            } else {
                raw::i64_at(b, at + 8 * i)
            };
            &&& t.type_index == b[at + counts_of(h).indices() + i]
            &&& t.type_index < h.tzh_typecnt
            &&& t.timestamp == model::clamp(v)
        }),
{
    lemma_layout(h);
    let s = b.skip(at);
    laws::lemma_block_wf(h, s);
    part_calls::lemma_time_raw(h, s, i);
    assert forall|k: int| 0 <= k < s.len() implies #[trigger] s[k] == b[at + k] by {}
    let t = model::block_of(h, s).transitions[i + 1];
    assert(t == model::transition_at(h, s, i + 1));
    assert(s[counts_of(h).indices() + i] == b[at + counts_of(h).indices() + i]);
    if h.time_size == 4 {
        raw::lemma_at_shift(b, at, 4 * i);
    } else {
        raw::lemma_at_shift(b, at, 8 * i);
        raw::lemma_at_shift(b, at, 8 * i + 4);
    }
}

#[verifier::rlimit(40)]
pub proof fn lemma_transition_read(b: Seq<u8>, i: int)
    requires
        b.len() <= usize::MAX,
        model::contents(b) is Ok,
    ensures
        model::contents(b)->Ok_0.block.transitions.len() == raw::main_counts(b).time + 1,
        model::contents(b)->Ok_0.block.transitions[0].timestamp == -377705023201,
        model::contents(b)->Ok_0.block.transitions[0].type_index == 0,
        0 <= i < raw::main_counts(b).time ==> {
            let at = raw::main_header(b) + 44;
            let times = raw::main_counts(b).time;
            let got = model::contents(b)->Ok_0.block.transitions[i + 1];
            let v = if b[4] == 0 {
                raw::i32_at(b, at + 4 * i)
            } else {
                raw::i64_at(b, at + 8 * i)
            };
            &&& b[4] == 0 ==> got.type_index == b[at + 4 * times + i]
            &&& b[4] != 0 ==> got.type_index == b[at + 8 * times + i]
            &&& got.type_index < model::contents(b)->Ok_0.block.types.len()
            &&& -377705023201 <= v <= 253402207200 ==> got.timestamp == v
            &&& v < -377705023201 ==> got.timestamp == -377705023201
            &&& v > 253402207200 ==> got.timestamp == 253402207200
        },
{
    let h = lemma_accepted_block(b);
    let at = raw::main_header(b) + 44;
    if 0 <= i < h.tzh_timecnt {
        lemma_transition_raw(h, b, at, i);
    }
}

/// The local time types of a data block without faults, in terms of its bytes.
#[verifier::rlimit(30)]
pub proof fn lemma_type_raw(h: Header, b: Seq<u8>, at: int, i: int)
    requires
        h.wf(),
        0 <= at <= b.len(),
        model::block_fault(h, b.skip(at)) is None,
        0 <= i < h.tzh_typecnt,
    ensures
        ({
            let c = counts_of(h);
            let t = model::block_of(h, b.skip(at)).types[i];
            let record = at + c.records() + 6 * i;
            let d = at + c.designations();
            let start = t.designation.0 as int;
            let end = t.designation.1 as int;
            let std = if c.std == 0 {
                0
            } else {
                b[at + c.std_at() + i] as int
            };
            let ut = if c.ut == 0 {
                0
            } else {
                b[at + c.ut_at() + i] as int
            };
            &&& t.offset == raw::i32_at(b, record)
            &&& -93599 <= t.offset <= 93599
            &&& t.is_dst <==> b[record + 4] == 1
            &&& t.designation.0 == b[record + 5]
            &&& start <= end < c.chars
            &&& !(0x80 <= b[d + start] <= 0xbf)
            &&& b[d + end] == 0
            &&& forall|k: int| d + start <= k < d + end ==> #[trigger] b[k] != 0
            &&& ut <= std <= 1
            &&& std == 0 ==> t.indicator == TzifIndicator::LocalWall
            &&& std == 1 && ut == 0 ==> t.indicator == TzifIndicator::LocalStandard
            &&& std == 1 && ut == 1 ==> t.indicator == TzifIndicator::UTStandard
        }),
{
    lemma_layout(h);
    let c = counts_of(h);
    let s = b.skip(at);
    laws::lemma_block_wf(h, s);
    laws::law_indicators(h, s, i);
    lemma_offset_raw(h, s, i);
    let t = model::block_of(h, s).types[i];
    assert(t == model::type_at(h, s, i));
    assert forall|k: int| 0 <= k < s.len() implies #[trigger] s[k] == b[at + k] by {}
    let r = c.records() + 6 * i;
    raw::lemma_at_shift(b, at, r);
    let bytes = model::designation_bytes(h, s);
    utf8::decode_utf8_encode_utf8(bytes);
    let start = t.designation.0 as int;
    let end = t.designation.1 as int;
    assert(model::is_designation(bytes, start, end));
    utf8::is_char_boundary_iff_not_is_continuation_byte(bytes, start);
    let d = c.designations();
    assert(bytes[start] == s[d + start]);
    assert(bytes[end] == s[d + end]);
    assert forall|k: int| at + d + start <= k < at + d + end implies #[trigger] b[k] != 0 by {
        assert(bytes[k - at - d] == s[k - at]);
    }
    let indicators = s.skip(c.std_at());
    if c.std > 0 {
        assert(indicators[i] == b[at + c.std_at() + i]);
    }
    if c.ut > 0 {
        assert(indicators[h.tzh_ttisstdcnt + i] == b[at + c.ut_at() + i]);
    }
}

#[verifier::rlimit(80)]
pub proof fn lemma_local_time_type_read(b: Seq<u8>, i: int)
    requires
        b.len() <= usize::MAX,
        model::contents(b) is Ok,
    ensures
        model::contents(b)->Ok_0.block.types.len() == raw::main_counts(b).types >= 1,
        0 <= i < raw::main_counts(b).types ==> {
            let c = raw::main_counts(b);
            let at = raw::main_header(b) + 44;
            let size = if b[4] == 0 {
                4int
            } else {
                8
            };
            let record = at + c.time * size + c.time + 6 * i;
            let d = at + c.time * size + c.time + 6 * c.types;
            let std_at = d + c.chars + c.leap * (size + 4);
            let std = if c.std == 0 {
                0
            } else {
                b[std_at + i] as int
            };
            let ut = if c.ut == 0 {
                0
            } else {
                b[std_at + c.std + i] as int
            };
            let got = model::contents(b)->Ok_0.block.types[i];
            let start = got.designation.0 as int;
            let end = got.designation.1 as int;
            &&& got.offset == raw::i32_at(b, record)
            &&& -93599 <= got.offset <= 93599
            &&& got.is_dst <==> b[record + 4] == 1
            &&& start == b[record + 5]
            &&& start <= end < c.chars
            &&& !(0x80 <= b[d + start] <= 0xbf)
            &&& b[d + end] == 0
            &&& forall|k: int| d + start <= k < d + end ==> #[trigger] b[k] != 0
            &&& ut <= std <= 1
            &&& std == 0 ==> got.indicator == TzifIndicator::LocalWall
            &&& std == 1 && ut == 0 ==> got.indicator == TzifIndicator::LocalStandard
            &&& std == 1 && ut == 1 ==> got.indicator == TzifIndicator::UTStandard
        },
{
    let h = lemma_accepted_block(b);
    if 0 <= i < h.tzh_typecnt {
        lemma_type_raw(h, b, raw::main_header(b) + 44, i);
    }
}

#[verifier::rlimit(40)]
pub proof fn lemma_designations_read(b: Seq<u8>)
    requires
        b.len() <= usize::MAX,
        model::contents(b) is Ok,
    ensures
        ({
            let c = raw::main_counts(b);
            let at = raw::main_header(b) + 44;
            let size = if b[4] == 0 {
                4int
            } else {
                8
            };
            let d = at + c.time * size + c.time + 6 * c.types;
            &&& d + c.chars <= b.len()
            &&& utf8::encode_utf8(model::contents(b)->Ok_0.block.designations) == b.subrange(
                d,
                d + c.chars,
            )
        }),
{
    let h = lemma_accepted_block(b);
    let at = raw::main_header(b) + 44;
    lemma_layout(h);
    let s = b.skip(at);
    laws::lemma_block_wf(h, s);
    let d = model::designation_bytes(h, s);
    utf8::decode_utf8_encode_utf8(d);
    let from = counts_of(h).designations();
    assert(d =~= b.subrange(at + from, at + from + h.tzh_charcnt));
}

/// There is only one footer at a place.
pub proof fn lemma_one_footer(b: Seq<u8>, at: int, m: int, n: int)
    requires
        raw::is_footer(b, at, m),
        raw::is_footer(b, at, n),
    ensures
        m == n,
{
    if m < n {
        assert(b[at + 1 + m] != 0x0a);
    } else if n < m {
        assert(b[at + 1 + n] != 0x0a);
    }
}

pub proof fn lemma_file_iff(b: Seq<u8>)
    requires
        b.len() <= usize::MAX,
    ensures
        model::contents(b) is Ok <==> raw::is_file(b),
{
    if model::contents(b) is Ok {
        let h = lemma_accepted(b);
    }
    if raw::is_file(b) {
        lemma_file_accepted(b);
    }
}

pub proof fn lemma_file_tz(b: Seq<u8>)
    requires
        b.len() <= usize::MAX,
        model::contents(b) is Ok,
    ensures
        ({
            let tz = model::contents(b)->Ok_0.tz;
            let end = raw::main_header(b) + 44 + raw::main_counts(b).size();
            &&& b[4] == 0 ==> tz.len() == 0
            &&& b[4] != 0 ==> {
                &&& raw::is_footer(b, end, tz.len() as int)
                &&& tz == b.subrange(end + 1, end + 1 + tz.len())
            }
        }),
{
    let h = lemma_accepted(b);
}

} // verus!
