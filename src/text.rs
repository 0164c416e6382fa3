use vstd::prelude::*;

verus! {

/// The decimal digits of `n`, most significant first.
pub open spec fn decimal(n: nat) -> Seq<u8>
    decreases n,
{
    if n < 10 {
        seq![('0' as u8 + n) as u8]
    } else {
        decimal(n / 10).push(('0' as u8 + n % 10) as u8)
    }
}

/// `t` preceded by as many `fill` bytes as bring it to `width`.
pub open spec fn pad_left(t: Seq<u8>, width: nat, fill: u8) -> Seq<u8> {
    Seq::new(if t.len() < width { (width - t.len()) as nat } else { 0 }, |_i: int| fill) + t
}

/// `t` followed by as many spaces as bring it to `width`.
pub open spec fn pad_right(t: Seq<u8>, width: nat) -> Seq<u8> {
    t + Seq::new(if t.len() < width { (width - t.len()) as nat } else { 0 }, |_i: int| ' ' as u8)
}

/// Appends bytes.
pub fn push_bytes(out: &mut Vec<u8>, bytes: &[u8])
    ensures
        final(out)@ == old(out)@ + bytes@,
{
    let mut i: usize = 0;
    while i < bytes.len()
        invariant
            0 <= i <= bytes@.len(),
            out@ == old(out)@ + bytes@.subrange(0, i as int),
        decreases bytes@.len() - i,
    {
        out.push(bytes[i]);
        i += 1;
        assert(out@ =~= old(out)@ + bytes@.subrange(0, i as int));
    }
    assert(bytes@.subrange(0, i as int) =~= bytes@);
}

/// Appends `count` copies of `fill`.
pub fn push_fill(out: &mut Vec<u8>, count: usize, fill: u8)
    ensures
        final(out)@ == old(out)@ + Seq::new(count as nat, |_i: int| fill),
{
    let mut i: usize = 0;
    while i < count
        invariant
            0 <= i <= count,
            out@ == old(out)@ + Seq::new(i as nat, |_j: int| fill),
        decreases count - i,
    {
        out.push(fill);
        i += 1;
        assert(out@ =~= old(out)@ + Seq::new(i as nat, |_j: int| fill));
    }
}

/// Appends the decimal digits of `n`.
pub fn push_decimal(out: &mut Vec<u8>, n: usize)
    ensures
        final(out)@ == old(out)@ + decimal(n as nat),
    decreases n,
{
    if n >= 10 {
        push_decimal(out, n / 10);
    }
    out.push(('0' as u8 + (n % 10) as u8) as u8);
    assert(final(out)@ =~= old(out)@ + decimal(n as nat));
}

/// How many decimal digits `n` has.
pub fn decimal_len(n: usize) -> (r: usize)
    ensures
        r == decimal(n as nat).len(),
        1 <= r <= n + 1,
    decreases n,
{
    if n < 10 {
        1
    } else {
        decimal_len(n / 10) + 1
    }
}

/// Appends `n` in decimal, right-justified in `width` columns filled with `fill`.
pub fn push_padded(out: &mut Vec<u8>, n: usize, width: usize, fill: u8)
    ensures
        final(out)@ == old(out)@ + pad_left(decimal(n as nat), width as nat, fill),
{
    let len = decimal_len(n);
    let count = if len < width {
        width - len
    } else {
        0
    };
    push_fill(out, count, fill);
    push_decimal(out, n);
    assert(final(out)@ =~= old(out)@ + pad_left(decimal(n as nat), width as nat, fill));
}

/// Appends `bytes`, left-justified in `width` columns.
pub fn push_left_justified(out: &mut Vec<u8>, bytes: &[u8], width: usize)
    ensures
        final(out)@ == old(out)@ + pad_right(bytes@, width as nat),
{
    push_bytes(out, bytes);
    let count = if bytes.len() < width {
        width - bytes.len()
    } else {
        0
    };
    push_fill(out, count, ' ' as u8);
    assert(final(out)@ =~= old(out)@ + pad_right(bytes@, width as nat));
}

} // verus!
