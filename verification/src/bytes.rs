//! Small helpers on buffers of bytes and of code points.

use vstd::prelude::*;

verus! {

/// Appends the bytes of `data` from `from` to `to`.
pub fn append_range(out: &mut Vec<u8>, data: &[u8], from: usize, to: usize)
    requires
        from <= to <= data.len(),
    ensures
        final(out)@ == old(out)@ + data@.subrange(from as int, to as int),
{
    let mut i: usize = from;
    while i < to
        invariant
            from <= i <= to <= data.len(),
            out@ == old(out)@ + data@.subrange(from as int, i as int),
        decreases to - i,
    {
        out.push(data[i]);
        i += 1;
        assert(out@ =~= old(out)@ + data@.subrange(from as int, i as int));
    }
}

/// Appends `count` copies of `b`.
pub fn append_repeat(out: &mut Vec<u8>, b: u8, count: usize)
    ensures
        final(out)@ == old(out)@ + Seq::new(count as nat, |k: int| b),
{
    let mut i: usize = 0;
    assert(out@ =~= old(out)@ + Seq::new(0, |k: int| b));
    while i < count
        invariant
            i <= count,
            out@ == old(out)@ + Seq::new(i as nat, |k: int| b),
        decreases count - i,
    {
        out.push(b);
        i += 1;
        assert(out@ =~= old(out)@ + Seq::new(i as nat, |k: int| b));
    }
}

/// Appends all of `data`.
pub fn append_bytes(out: &mut Vec<u8>, data: &[u8])
    ensures
        final(out)@ == old(out)@ + data@,
{
    append_range(out, data, 0, data.len());
    assert(data@.subrange(0, data@.len() as int) =~= data@);
}

/// Appends all of `more`.
pub fn append_scalars(out: &mut Vec<u32>, more: &[u32])
    ensures
        final(out)@ == old(out)@ + more@,
{
    let mut i: usize = 0;
    assert(out@ =~= old(out)@ + more@.subrange(0, 0));
    while i < more.len()
        invariant
            i <= more.len(),
            out@ == old(out)@ + more@.subrange(0, i as int),
        decreases more.len() - i,
    {
        out.push(more[i]);
        i += 1;
        assert(out@ =~= old(out)@ + more@.subrange(0, i as int));
    }
    assert(more@.subrange(0, more@.len() as int) =~= more@);
}

/// `n` and one more, as far as the machine can count.
pub open spec fn spec_bump(n: usize) -> usize {
    if n < usize::MAX {
        (n + 1) as usize
    } else {
        n
    }
}

/// Counts one up, as far as the machine can count.
pub fn bump(n: usize) -> (r: usize)
    ensures
        r == spec_bump(n),
{
    if n < usize::MAX {
        n + 1
    } else {
        n
    }
}

} // verus!
