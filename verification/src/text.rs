//! Text as bytes: decimal numbers, padding, and counting lines.
use vstd::prelude::*;
use vstd::string::StringSliceAdditionalSpecFns;

verus! {

/// The ASCII digit for `d`, where `d` is below 10.
pub open spec fn digit(d: nat) -> u8 {
    ('0' as u8 + d) as u8
}

/// The decimal numeral of `n`, without leading zeros.
pub open spec fn decimal(n: nat) -> Seq<u8>
    decreases n,
{
    if n < 10 {
        seq![digit(n)]
    } else {
        decimal(n / 10).push(digit(n % 10))
    }
}

/// `count` copies of `fill`.
pub open spec fn filler(count: int, fill: u8) -> Seq<u8> {
    Seq::new(if count > 0 { count as nat } else { 0 }, |i: int| fill)
}

/// The decimal numeral of `n`, with `fill` in front of it up to `width`
/// bytes. A numeral of `width` bytes or more is not cut.
pub open spec fn padded(n: nat, width: nat, fill: u8) -> Seq<u8> {
    filler(width - decimal(n).len(), fill) + decimal(n)
}

/// The number of line feeds in `text`.
pub open spec fn line_count(text: Seq<u8>) -> nat
    decreases text.len(),
{
    if text.len() == 0 {
        0
    } else {
        line_count(text.drop_last()) + if text.last() == '\n' as u8 {
            1nat
        } else {
            0nat
        }
    }
}

/// The line feeds of a text made of two parts are those of the parts.
pub proof fn lemma_line_count_concat(a: Seq<u8>, b: Seq<u8>)
    ensures
        line_count(a + b) == line_count(a) + line_count(b),
    decreases b.len(),
{
    if b.len() == 0 {
        assert(a + b =~= a);
    } else {
        assert((a + b).drop_last() =~= a + b.drop_last());
        lemma_line_count_concat(a, b.drop_last());
    }
}

/// A text without a line feed byte has no line.
pub proof fn lemma_line_count_none(text: Seq<u8>)
    requires
        forall|i: int| 0 <= i < text.len() ==> text[i] != '\n' as u8,
    ensures
        line_count(text) == 0,
    decreases text.len(),
{
    if text.len() > 0 {
        lemma_line_count_none(text.drop_last());
    }
}

/// A numeral is made of digits.
pub proof fn lemma_decimal_digits(n: nat)
    ensures
        decimal(n).len() >= 1,
        forall|i: int|
            0 <= i < decimal(n).len() ==> '0' as u8 <= #[trigger] decimal(n)[i] <= '9' as u8,
    decreases n,
{
    if n >= 10 {
        lemma_decimal_digits(n / 10);
    }
}

/// A padded numeral holds no line feed, unless it is padded with line feeds.
pub proof fn lemma_padded_one_line(n: nat, width: nat, fill: u8)
    requires
        fill != '\n' as u8,
    ensures
        line_count(padded(n, width, fill)) == 0,
{
    lemma_decimal_digits(n);
    lemma_line_count_none(padded(n, width, fill));
}

/// Appends the bytes of `s`.
pub fn push_text(out: &mut Vec<u8>, s: &str)
    ensures
        final(out)@ == old(out)@ + s.spec_bytes(),
{
    out.extend_from_slice(s.as_bytes());
}

/// Appends the bytes of `bytes`.
pub fn push_bytes(out: &mut Vec<u8>, bytes: &[u8])
    ensures
        final(out)@ == old(out)@ + bytes@,
{
    out.extend_from_slice(bytes);
}

/// The number of digits of `n`.
fn decimal_len(n: u64) -> (len: usize)
    ensures
        len == decimal(n as nat).len(),
        1 <= len <= 20,
    decreases n,
{
    if n < 10 {
        1
    } else {
        let shorter = decimal_len(n / 10);
        assert(shorter <= 19) by {
            lemma_decimal_len_bound(n as nat);
        }
        shorter + 1
    }
}

proof fn lemma_decimal_len_bound(n: nat)
    requires
        n <= u64::MAX,
    ensures
        decimal(n).len() <= 20,
{
    reveal_with_fuel(decimal, 21);
}

/// Appends the decimal numeral of `n`.
pub fn push_decimal(out: &mut Vec<u8>, n: u64)
    ensures
        final(out)@ == old(out)@ + decimal(n as nat),
    decreases n,
{
    if n < 10 {
        out.push('0' as u8 + n as u8);
        assert(out@ =~= old(out)@ + decimal(n as nat));
    } else {
        push_decimal(out, n / 10);
        out.push('0' as u8 + (n % 10) as u8);
        assert(out@ =~= old(out)@ + decimal(n as nat));
    }
}

/// Appends the decimal numeral of `n`, padded in front with `fill` to
/// `width` bytes.
pub fn push_padded(out: &mut Vec<u8>, n: u64, width: usize, fill: u8)
    ensures
        final(out)@ == old(out)@ + padded(n as nat, width as nat, fill),
{
    let len = decimal_len(n);
    let mut written: usize = len;
    while written < width
        invariant
            len <= written,
            written <= width || written == len,
            out@ == old(out)@ + filler(written - len, fill),
        decreases width - written,
    {
        out.push(fill);
        written += 1;
        assert(out@ =~= old(out)@ + filler(written - len, fill));
    }
    push_decimal(out, n);
    assert(out@ =~= old(out)@ + padded(n as nat, width as nat, fill));
}

} // verus!
