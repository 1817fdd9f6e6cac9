//! Where things are in TZif data, counted in bytes, and the integers that
//! bytes stand for, written out as sums. The laws are stated in these words.

use crate::bytes;
use vstd::prelude::*;
use vstd::utf8;

verus! {

/// The sum that four bytes stand for, the first one with the greatest weight.
#[verifier::opaque]
pub open spec fn u32_at(b: Seq<u8>, at: int) -> int {
    b[at] * 0x100_0000 + b[at + 1] * 0x1_0000 + b[at + 2] * 0x100 + b[at + 3]
}

/// As `u32_at`, but the first bit has negative weight.
#[verifier::opaque]
pub open spec fn i32_at(b: Seq<u8>, at: int) -> int {
    if b[at] < 0x80 {
        u32_at(b, at)
    } else {
        u32_at(b, at) - 0x1_0000_0000
    }
}

/// The sum that eight bytes stand for. The first bit has negative weight.
pub open spec fn i64_at(b: Seq<u8>, at: int) -> int {
    i32_at(b, at) * 0x1_0000_0000 + u32_at(b, at + 4)
}

/// The four bytes at `at` are those of `v`, each one the quotient of `v` by
/// its weight, reduced to a byte.
pub open spec fn encodes_32(b: Seq<u8>, at: int, v: int) -> bool {
    &&& b[at] == v / 0x100_0000 % 0x100
    &&& b[at + 1] == v / 0x1_0000 % 0x100
    &&& b[at + 2] == v / 0x100 % 0x100
    &&& b[at + 3] == v % 0x100
}

/// The eight bytes at `at` are those of `v`.
pub open spec fn encodes_64(b: Seq<u8>, at: int, v: int) -> bool {
    &&& encodes_32(b, at, v / 0x1_0000_0000)
    &&& encodes_32(b, at + 4, v)
}

/// Four bytes stand for the integer that they encode.
pub proof fn law_four_bytes(b: Seq<u8>, at: int, v: int)
    requires
        encodes_32(b, at, v),
    ensures
        0 <= v < 0x1_0000_0000 ==> u32_at(b, at) == v,
        -0x8000_0000 <= v < 0x8000_0000 ==> i32_at(b, at) == v,
{
    reveal(u32_at);
    reveal(i32_at);
    lemma_digits(v);
}

/// Eight bytes stand for the integer that they encode.
pub proof fn law_eight_bytes(b: Seq<u8>, at: int, v: int)
    requires
        encodes_64(b, at, v),
        -0x8000_0000_0000_0000 <= v < 0x8000_0000_0000_0000,
    ensures
        i64_at(b, at) == v,
{
    reveal(u32_at);
    reveal(i32_at);
    let high = v / 0x1_0000_0000;
    law_four_bytes(b, at, high);
    lemma_digits(v);
    assert(v == high * 0x1_0000_0000 + v % 0x1_0000_0000);
    assert(u32_at(b, at + 4) == v % 0x1_0000_0000);
}

/// The four lowest digits of an integer to the base of 256.
proof fn lemma_digits(v: int)
    ensures
        (v / 0x100_0000 % 0x100) * 0x100_0000 + (v / 0x1_0000 % 0x100) * 0x1_0000 + (v / 0x100
            % 0x100) * 0x100 + v % 0x100 == v % 0x1_0000_0000,
{
    assert(v / 0x100 / 0x100 == v / 0x1_0000);
    assert(v / 0x1_0000 / 0x100 == v / 0x100_0000);
    assert(v / 0x100_0000 / 0x100 == v / 0x1_0000_0000);
    let a = v / 0x100;
    let b = v / 0x1_0000;
    let c = v / 0x100_0000;
    let d = v / 0x1_0000_0000;
    assert(v == a * 0x100 + v % 0x100);
    assert(a == b * 0x100 + a % 0x100);
    assert(b == c * 0x100 + b % 0x100);
    assert(c == d * 0x100 + c % 0x100);
    assert(v == d * 0x1_0000_0000 + v % 0x1_0000_0000);
}

/// The integers `at` bytes further on are the same.
pub proof fn lemma_at_shift(b: Seq<u8>, at: int, i: int)
    requires
        0 <= at,
        0 <= i,
        at + i + 4 <= b.len(),
    ensures
        u32_at(b.skip(at), i) == u32_at(b, at + i),
        i32_at(b.skip(at), i) == i32_at(b, at + i),
{
    reveal(u32_at);
    reveal(i32_at);
}

/// Four bytes in a row, as the reader takes them.
pub proof fn lemma_u32_at(b: Seq<u8>, at: int)
    requires
        0 <= at,
        at + 4 <= b.len(),
    ensures
        bytes::be_uint(b.subrange(at, at + 4)) == u32_at(b, at),
        bytes::be_i32(b.subrange(at, at + 4)) == i32_at(b, at),
        0 <= u32_at(b, at) < 0x1_0000_0000,
        -0x8000_0000 <= i32_at(b, at) < 0x8000_0000,
{
    reveal(u32_at);
    reveal(i32_at);
    bytes::lemma_be_uint_4(b.subrange(at, at + 4));
}

/// Eight bytes in a row, as the reader takes them.
pub proof fn lemma_i64_at(b: Seq<u8>, at: int)
    requires
        0 <= at,
        at + 8 <= b.len(),
    ensures
        bytes::be_i64(b.subrange(at, at + 8)) == i64_at(b, at),
{
    reveal(i32_at);
    let s = b.subrange(at, at + 8);
    bytes::lemma_be_uint_8(s);
    assert(s.take(4) =~= b.subrange(at, at + 4));
    assert(s.skip(4) =~= b.subrange(at + 4, at + 8));
    lemma_u32_at(b, at);
    lemma_u32_at(b, at + 4);
}

/// The counts of a data block, and the size of its timestamps.
pub struct Counts {
    pub time_size: int,
    pub ut: int,
    pub std: int,
    pub leap: int,
    pub time: int,
    pub types: int,
    pub chars: int,
}

/// The counts in the header that starts at `at`.
pub open spec fn counts_at(b: Seq<u8>, at: int, time_size: int) -> Counts {
    Counts {
        time_size,
        ut: u32_at(b, at + 20),
        std: u32_at(b, at + 24),
        leap: u32_at(b, at + 28),
        time: u32_at(b, at + 32),
        types: u32_at(b, at + 36),
        chars: u32_at(b, at + 40),
    }
}

impl Counts {
    /// Where the type indices start. The transition times start at 0.
    pub open spec fn indices(self) -> int {
        self.time * self.time_size
    }

    /// Where the local time types start, six bytes each.
    pub open spec fn records(self) -> int {
        self.indices() + self.time
    }

    /// Where the designations start.
    pub open spec fn designations(self) -> int {
        self.records() + 6 * self.types
    }

    /// Where the leap second records start.
    pub open spec fn leaps(self) -> int {
        self.designations() + self.chars
    }

    /// Where the standard/wall indicators start.
    pub open spec fn std_at(self) -> int {
        self.leaps() + self.leap * (self.time_size + 4)
    }

    /// Where the UT/local indicators start.
    pub open spec fn ut_at(self) -> int {
        self.std_at() + self.std
    }

    /// Where the data block ends.
    pub open spec fn size(self) -> int {
        self.ut_at() + self.ut
    }

    /// The counts go together.
    pub open spec fn valid(self) -> bool {
        &&& self.time_size == 4 || self.time_size == 8
        &&& self.ut == 0 || self.ut == self.types
        &&& self.std == 0 || self.std == self.types
        &&& self.types >= 1
        &&& self.chars >= 1
    }
}

/// A valid header starts at `at`.
pub open spec fn is_header(b: Seq<u8>, at: int) -> bool {
    &&& at + 44 <= b.len()
    &&& b[at] == 0x54
    &&& b[at + 1] == 0x5a
    &&& b[at + 2] == 0x69
    &&& b[at + 3] == 0x66
    &&& counts_at(b, at, 4).valid()
}

/// All type indices in the data block that starts at `at` are below the
/// number of local time types.
pub open spec fn indices_good(c: Counts, b: Seq<u8>, at: int) -> bool {
    forall|i: int|
        at + c.indices() <= i < at + c.indices() + c.time ==> (#[trigger] b[i]) < c.types
}

/// The offset of the `i`th local time type is supported.
pub open spec fn offset_good(c: Counts, b: Seq<u8>, at: int, i: int) -> bool {
    -93599 <= i32_at(b, at + c.records() + 6 * i) <= 93599
}

/// The designation of the `i`th local time type starts with a character, and
/// a NUL follows within the first 256 bytes of the designations.
pub open spec fn designation_good(c: Counts, b: Seq<u8>, at: int, i: int) -> bool {
    let start = b[at + c.records() + 6 * i + 5] as int;
    let d = at + c.designations();
    &&& start < c.chars
    &&& !(0x80 <= b[d + start] <= 0xbf)
    &&& exists|end: int| start <= end < c.chars && end <= 255 && #[trigger] b[d + end] == 0
}

/// The indicators of the `i`th local time type go together.
pub open spec fn indicators_good(c: Counts, b: Seq<u8>, at: int, i: int) -> bool {
    let std = if c.std == 0 {
        0
    } else {
        b[at + c.std_at() + i] as int
    };
    let ut = if c.ut == 0 {
        0
    } else {
        b[at + c.ut_at() + i] as int
    };
    ut <= std <= 1
}

/// A data block with these counts that starts at `at` is all there, and none
/// of its parts has a fault.
pub open spec fn is_block(c: Counts, b: Seq<u8>, at: int) -> bool {
    &&& at + c.size() <= b.len()
    &&& indices_good(c, b, at)
    &&& forall|i: int| 0 <= i < c.types ==> #[trigger] offset_good(c, b, at, i)
    &&& utf8::valid_utf8(b.subrange(at + c.designations(), at + c.leaps()))
    &&& forall|i: int| 0 <= i < c.types ==> #[trigger] designation_good(c, b, at, i)
    &&& forall|i: int| 0 <= i < c.types ==> #[trigger] indicators_good(c, b, at, i)
}

/// The first line feed behind the one at `at` is `n` bytes further on, and not
/// more than 1024.
pub open spec fn is_footer(b: Seq<u8>, at: int, n: int) -> bool {
    &&& 0 <= n < 1024
    &&& at + n + 2 <= b.len()
    &&& b[at] == 0x0a
    &&& b[at + 1 + n] == 0x0a
    &&& forall|i: int| at < i < at + 1 + n ==> #[trigger] b[i] != 0x0a
}

/// Where the header is that counts: at the start where the version byte is 0,
/// and behind the first data block where it is not.
pub open spec fn main_header(b: Seq<u8>) -> int {
    if b[4] == 0 {
        0
    } else {
        44 + counts_at(b, 0, 4).size()
    }
}

/// The counts of the data block that counts.
pub open spec fn main_counts(b: Seq<u8>) -> Counts {
    counts_at(
        b,
        main_header(b),
        if b[4] == 0 {
            4
        } else {
            8
        },
    )
}

/// The data is all there, and nothing in it has a fault: its headers, the data
/// block that counts and, where the version byte is not 0, the footer behind
/// it. What the TZ string in the footer means is left open.
pub open spec fn is_file(b: Seq<u8>) -> bool {
    let at = main_header(b) + 44;
    &&& is_header(b, 0)
    &&& is_header(b, main_header(b))
    &&& is_block(main_counts(b), b, at)
    &&& b[4] != 0 ==> exists|n: int| #[trigger] is_footer(b, at + main_counts(b).size(), n)
}

} // verus!
