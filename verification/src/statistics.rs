//! Statistics kept while data is written, and how byte counts are shown.

use std::time::Instant;
use vstd::prelude::*;

verus! {

#[verifier::external_type_specification]
#[verifier::external_body]
pub struct ExInstant(Instant);

/// Calls `Instant::now`. The time it returns is not specified.
#[verifier::external_body]
fn instant_now() -> (r: Instant) {
    Instant::now()
}

/// Statistics for writing data to a file.
///
/// Reported when writing is done.
#[derive(Debug)]
pub struct WriteStatistics {
    /// Time at which the writer was created
    start: Instant,
    /// User defined "chunks" (e.g. buffers or row_groups)
    num_chunks: usize,
    chunk_label: String,
    /// total bytes written
    num_bytes: usize,
}

impl Clone for WriteStatistics {
    fn clone(&self) -> (r: Self)
        ensures
            r == *self,
    {
        Self {
            start: self.start,
            num_chunks: self.num_chunks,
            chunk_label: self.chunk_label.clone(),
            num_bytes: self.num_bytes,
        }
    }
}

impl WriteStatistics {
    /// The number of chunks counted so far.
    pub closed spec fn spec_num_chunks(&self) -> nat {
        self.num_chunks as nat
    }

    /// The number of bytes counted so far.
    pub closed spec fn spec_num_bytes(&self) -> nat {
        self.num_bytes as nat
    }

    /// The time at which these statistics were created.
    pub closed spec fn spec_start(&self) -> Instant {
        self.start
    }

    /// What a chunk is called in the report.
    pub closed spec fn spec_chunk_label(&self) -> Seq<char> {
        self.chunk_label@
    }

    /// Create a new statistics reporter, which starts its clock now.
    pub fn new(chunk_label: &str) -> (r: Self)
        ensures
            r.spec_num_chunks() == 0,
            r.spec_num_bytes() == 0,
            r.spec_chunk_label() == chunk_label@,
    {
        Self { start: instant_now(), num_chunks: 0, chunk_label: chunk_label.to_owned(), num_bytes: 0 }
    }

    /// Increment chunk count
    pub fn increment_chunks(&mut self, num_chunks: usize)
        requires
            old(self).spec_num_chunks() + num_chunks <= usize::MAX,
        ensures
            final(self).spec_num_chunks() == old(self).spec_num_chunks() + num_chunks,
            final(self).spec_num_bytes() == old(self).spec_num_bytes(),
            final(self).spec_chunk_label() == old(self).spec_chunk_label(),
            final(self).spec_start() == old(self).spec_start(),
    {
        self.num_chunks = self.num_chunks + num_chunks;
    }

    /// Increment byte count
    pub fn increment_bytes(&mut self, num_bytes: usize)
        requires
            old(self).spec_num_bytes() + num_bytes <= usize::MAX,
        ensures
            final(self).spec_num_bytes() == old(self).spec_num_bytes() + num_bytes,
            final(self).spec_num_chunks() == old(self).spec_num_chunks(),
            final(self).spec_chunk_label() == old(self).spec_chunk_label(),
            final(self).spec_start() == old(self).spec_start(),
    {
        self.num_bytes = self.num_bytes + num_bytes;
    }

    /// The number of chunks counted so far.
    pub fn num_chunks(&self) -> (r: usize)
        ensures
            r == self.spec_num_chunks(),
    {
        self.num_chunks
    }

    /// The number of bytes counted so far.
    pub fn num_bytes(&self) -> (r: usize)
        ensures
            r == self.spec_num_bytes(),
    {
        self.num_bytes
    }

    /// What a chunk is called in the report.
    pub fn chunk_label(&self) -> (r: &str)
        ensures
            r@ == self.spec_chunk_label(),
    {
        self.chunk_label.as_str()
    }

    /// The time at which these statistics were created.
    pub fn start(&self) -> (r: Instant)
        ensures
            r == self.spec_start(),
    {
        self.start
    }
}


/// The character of the decimal digit `d`.
pub open spec fn digit_char(d: nat) -> char {
    (d + 48) as char
}

/// The decimal digits of `n`, without leading zeros.
pub open spec fn decimal(n: nat) -> Seq<char>
    decreases n,
{
    if n < 10 {
        seq![digit_char(n)]
    } else {
        decimal(n / 10).push(digit_char(n % 10))
    }
}

/// Calls `u64::to_string`, which per the documentation of `Display` for
/// integers writes the decimal digits of `n` with no leading zeros.
#[verifier::external_body]
fn decimal_string(n: u64) -> (r: String)
    ensures
        r@ == decimal(n as nat),
{
    n.to_string()
}

/// `n / d` rounded to the nearest integer, ties to even.
pub open spec fn div_round_half_even(n: nat, d: nat) -> nat
    recommends
        d > 0,
{
    let q = n / d;
    let r = n % d;
    if 2 * r > d || (2 * r == d && q % 2 == 1) {
        q + 1
    } else {
        q
    }
}

/// The distance between neighbouring `f64` values near `b`: 1 below 2^53,
/// and doubling with each further bit of `b`.
pub open spec fn f64_spacing(b: nat) -> nat
    decreases b,
{
    if b < 0x20_0000_0000_0000 {
        1
    } else {
        2 * f64_spacing(b / 2)
    }
}

/// The value of `b as f64`: `b` rounded to the nearest `f64`, ties to even.
pub open spec fn f64_value(b: nat) -> nat {
    div_round_half_even(b, f64_spacing(b)) * f64_spacing(b)
}

/// `1024` to the power `k`.
pub open spec fn pow1024(k: nat) -> nat
    decreases k,
{
    if k == 0 {
        1
    } else {
        1024 * pow1024((k - 1) as nat)
    }
}

/// The unit that a size of `size` bytes is shown in, at least `k`: the
/// largest unit up to exbibytes in which the size is at least 1.
pub open spec fn byte_unit(size: nat, k: nat) -> nat
    decreases 6 - k,
{
    if k < 6 && size >= pow1024(k + 1) {
        byte_unit(size, k + 1)
    } else {
        k
    }
}

/// The name of the `k`-th unit of bytes.
pub open spec fn unit_name(k: nat) -> Seq<char> {
    if k == 0 {
        "B"@
    } else if k == 1 {
        "KiB"@
    } else if k == 2 {
        "MiB"@
    } else if k == 3 {
        "GiB"@
    } else if k == 4 {
        "TiB"@
    } else if k == 5 {
        "PiB"@
    } else {
        "EiB"@
    }
}

/// A number below 100 as exactly two digits.
pub open spec fn two_digits(n: nat) -> Seq<char> {
    seq![digit_char(n / 10), digit_char(n % 10)]
}

/// How `bytes` is shown: in bytes below one kibibyte, else in the largest
/// binary unit up to exbibytes, with two decimals. The size is that of
/// `bytes as f64`, rounded to two decimals with ties to even.
pub open spec fn readable_bytes(bytes: nat) -> Seq<char> {
    let size = f64_value(bytes);
    let unit = byte_unit(size, 0);
    if unit == 0 {
        decimal(bytes) + " B"@
    } else {
        let hundredths = div_round_half_even(size * 100, pow1024(unit));
        decimal(hundredths / 100) + "."@ + two_digits(hundredths % 100) + " "@ + unit_name(unit)
    }
}

proof fn lemma_decimal_small(n: nat)
    requires
        n < 100,
    ensures
        n < 10 ==> decimal(n) == seq![digit_char(n)],
        10 <= n ==> decimal(n) == two_digits(n),
{
    if n >= 10 {
        assert(decimal(n / 10) == seq![digit_char(n / 10)]);
        assert(decimal(n) == seq![digit_char(n / 10)].push(digit_char(n % 10)));
        assert(decimal(n) =~= two_digits(n));
    }
}

proof fn lemma_spacing_step(b: nat)
    requires
        b >= 0x20_0000_0000_0000,
    ensures
        f64_spacing(b) == 2 * f64_spacing(b / 2),
{
}

/// Exactly `n` as two decimal digits; `n` is below 100.
fn two_digit_string(n: u64) -> (r: String)
    requires
        n < 100,
    ensures
        r@ == two_digits(n as nat),
{
    proof {
        lemma_decimal_small(n as nat);
    }
    if n < 10 {
        let mut s = "0".to_owned();
        let d = decimal_string(n);
        s.append(d.as_str());
        proof {
            reveal_strlit("0");
            assert(s@ =~= two_digits(n as nat));
        }
        s
    } else {
        decimal_string(n)
    }
}

/// The name of the `k`-th unit of bytes.
fn unit_name_string(k: u64) -> (r: String)
    ensures
        r@ == unit_name(k as nat),
{
    if k == 0 {
        "B".to_owned()
    } else if k == 1 {
        "KiB".to_owned()
    } else if k == 2 {
        "MiB".to_owned()
    } else if k == 3 {
        "GiB".to_owned()
    } else if k == 4 {
        "TiB".to_owned()
    } else if k == 5 {
        "PiB".to_owned()
    } else {
        "EiB".to_owned()
    }
}

/// `n / d` rounded to the nearest integer, ties to even.
fn div_round_half_even_exec(n: u128, d: u128) -> (r: u128)
    requires
        0 < d <= 0x1_0000_0000_0000_0000_0000,
        n <= 0x1_0000_0000_0000_0000_0000_0000,
    ensures
        r == div_round_half_even(n as nat, d as nat),
        r * d <= n + d,
{
    let q = n / d;
    let r = n % d;
    assert(q * d <= n) by (nonlinear_arith)
        requires
            q == n / d,
            d > 0,
    ;
    assert((q + 1) * d == q * d + d) by (nonlinear_arith);
    if 2 * r > d || (2 * r == d && q % 2 == 1) {
        q + 1
    } else {
        q
    }
}

/// Formats a byte count for humans, such as `389 B` or `1.50 KiB`.
pub fn format_bytes(bytes: u64) -> (r: String)
    ensures
        r@ == readable_bytes(bytes as nat),
{
    // The exact value of `bytes as f64`: find the spacing of f64 values
    // near `bytes`, then round to a multiple of it.
    let mut rest: u64 = bytes;
    let mut spacing: u128 = 1;
    while rest >= 0x20_0000_0000_0000
        invariant
            f64_spacing(bytes as nat) == spacing * f64_spacing(rest as nat),
            1 <= spacing <= 0x1000,
            spacing * rest <= bytes,
        decreases rest,
    {
        proof {
            lemma_spacing_step(rest as nat);
            assert(spacing < 0x800) by (nonlinear_arith)
                requires
                    spacing * rest <= bytes,
                    bytes < 0x1_0000_0000_0000_0000,
                    rest >= 0x20_0000_0000_0000,
            ;
            assert(spacing * (2 * f64_spacing((rest / 2) as nat)) == (spacing * 2) * f64_spacing(
                (rest / 2) as nat,
            )) by (nonlinear_arith);
            assert((spacing * 2) * (rest / 2) <= spacing * rest) by (nonlinear_arith)
                requires
                    spacing >= 1,
            ;
        }
        rest = rest / 2;
        spacing = spacing * 2;
    }
    assert(f64_spacing(rest as nat) == 1);
    assert(spacing == f64_spacing(bytes as nat)) by (nonlinear_arith)
        requires
            f64_spacing(bytes as nat) == spacing * f64_spacing(rest as nat),
            f64_spacing(rest as nat) == 1,
    ;
    let rounded = div_round_half_even_exec(bytes as u128, spacing);
    let size: u128 = rounded * spacing;
    assert(size <= 0x1_0000_0000_0000_1000);

    // Pick the unit: divide by 1024 while the size is at least 1024, up to
    // exbibytes (exact, since dividing by a power of two is).
    proof {
        reveal_with_fuel(pow1024, 7);
    }
    let mut unit: u64 = 0;
    let mut scale: u128 = 1;
    while unit < 6 && size >= scale * 1024
        invariant
            unit <= 6,
            scale == pow1024(unit as nat),
            unit == 0 ==> scale == 1,
            unit == 1 ==> scale == 0x400,
            unit == 2 ==> scale == 0x10_0000,
            unit == 3 ==> scale == 0x4000_0000,
            unit == 4 ==> scale == 0x100_0000_0000,
            unit == 5 ==> scale == 0x4_0000_0000_0000,
            unit == 6 ==> scale == 0x1000_0000_0000_0000,
            byte_unit(size as nat, 0) == byte_unit(size as nat, unit as nat),
        decreases 6 - unit,
    {
        scale = scale * 1024;
        unit = unit + 1;
    }
    if unit == 0 {
        let mut s = decimal_string(bytes);
        s.append(" B");
        return s;
    }
    let hundredths = div_round_half_even_exec(size * 100, scale);
    assert(hundredths / 100 < 0x1_0000_0000_0000_0000) by (nonlinear_arith)
        requires
            hundredths * scale <= size * 100 + scale,
            scale >= 0x400,
            size <= 0x1_0000_0000_0000_1000,
    ;
    let mut s = decimal_string((hundredths / 100) as u64);
    s.append(".");
    let fraction = two_digit_string((hundredths % 100) as u64);
    s.append(fraction.as_str());
    s.append(" ");
    let name = unit_name_string(unit);
    s.append(name.as_str());
    s
}

} // verus!
