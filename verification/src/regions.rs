//! A segment holding several disjoint byte regions, each filled by
//! appending to it.
use vstd::prelude::*;
use crate::bytes::{get_u32_le, le_u32, lemma_u32_le_roundtrip, put_bytes, put_u32_le, splice, u32_le};

verus! {

/// `d` with each `contents[k]` written at `starts[k]`, in order.
pub open spec fn fill(d: Seq<u8>, starts: Seq<int>, contents: Seq<Seq<u8>>) -> Seq<u8>
    decreases contents.len(),
{
    if contents.len() == 0 {
        d
    } else {
        splice(fill(d, starts.drop_last(), contents.drop_last()), starts.last(), contents.last())
    }
}

/// Whether the regions `contents[k]` at `starts[k]` lie inside `0 .. end`
/// and each ends before the next one starts.
pub open spec fn fits_between(starts: Seq<int>, contents: Seq<Seq<u8>>, end: int) -> bool {
    &&& starts.len() == contents.len()
    &&& forall|i: int|
        0 <= i < contents.len() ==> 0 <= #[trigger] starts[i] && starts[i] + contents[i].len()
            <= end
    &&& forall|i: int, j: int|
        0 <= i < j < contents.len() ==> #[trigger] starts[i] + contents[i].len()
            <= #[trigger] starts[j]
}

/// Regions no longer than fitting ones fit too.
pub proof fn lemma_fits_shorter(starts: Seq<int>, long: Seq<Seq<u8>>, short: Seq<Seq<u8>>, end: int)
    requires
        fits_between(starts, long, end),
        short.len() == long.len(),
        forall|i: int| 0 <= i < short.len() ==> #[trigger] short[i].len() <= long[i].len(),
    ensures
        fits_between(starts, short, end),
{
    assert forall|i: int, j: int| 0 <= i < j < short.len() implies #[trigger] starts[i]
        + short[i].len() <= #[trigger] starts[j] by {
        assert(short[i].len() <= long[i].len());
    }
}

/// Without its last region, the regions fit before the last one starts.
proof fn lemma_fits_drop_last(starts: Seq<int>, contents: Seq<Seq<u8>>, end: int)
    requires
        fits_between(starts, contents, end),
        contents.len() > 0,
    ensures
        fits_between(starts.drop_last(), contents.drop_last(), starts.last()),
        0 <= starts.last(),
        starts.last() + contents.last().len() <= end,
{
    let n = contents.len() - 1;
    assert(0 <= starts[n] && starts[n] + contents[n].len() <= end);
    let s2 = starts.drop_last();
    let c2 = contents.drop_last();
    assert forall|i: int| 0 <= i < c2.len() implies 0 <= #[trigger] s2[i] && s2[i] + c2[i].len()
        <= starts.last() by {
        assert(starts[i] + contents[i].len() <= starts[n]);
        assert(0 <= starts[i]);
    }
    assert forall|i: int, j: int| 0 <= i < j < c2.len() implies #[trigger] s2[i] + c2[i].len()
        <= #[trigger] s2[j] by {
        assert(starts[i] + contents[i].len() <= starts[j]);
    }
}

/// Filling fitting regions keeps the length.
pub proof fn lemma_fill_len(d: Seq<u8>, starts: Seq<int>, contents: Seq<Seq<u8>>, end: int)
    requires
        fits_between(starts, contents, end),
        end <= d.len(),
    ensures
        fill(d, starts, contents).len() == d.len(),
    decreases contents.len(),
{
    if contents.len() > 0 {
        lemma_fits_drop_last(starts, contents, end);
        lemma_fill_len(d, starts.drop_last(), contents.drop_last(), starts.last());
    }
}

/// Empty regions leave the bytes as they are.
pub proof fn lemma_fill_empty(d: Seq<u8>, starts: Seq<int>, contents: Seq<Seq<u8>>, end: int)
    requires
        fits_between(starts, contents, end),
        end <= d.len(),
        forall|i: int| 0 <= i < contents.len() ==> #[trigger] contents[i].len() == 0,
    ensures
        fill(d, starts, contents) == d,
    decreases contents.len(),
{
    if contents.len() > 0 {
        lemma_fits_drop_last(starts, contents, end);
        lemma_fill_empty(d, starts.drop_last(), contents.drop_last(), starts.last());
        assert(contents.last().len() == 0);
        assert(splice(d, starts.last(), contents.last()) =~= d);
    }
}

/// Appending `b` to region `k` is writing `b` right after its bytes.
pub proof fn lemma_fill_extend(
    d: Seq<u8>,
    starts: Seq<int>,
    contents: Seq<Seq<u8>>,
    end: int,
    k: int,
    b: Seq<u8>,
)
    requires
        0 <= k < contents.len(),
        fits_between(starts, contents.update(k, contents[k] + b), end),
        end <= d.len(),
    ensures
        fill(d, starts, contents.update(k, contents[k] + b)) == splice(
            fill(d, starts, contents),
            starts[k] + contents[k].len(),
            b,
        ),
    decreases contents.len(),
{
    let c2 = contents.update(k, contents[k] + b);
    let n = contents.len() - 1;
    lemma_fits_shorter(starts, c2, contents, end);
    lemma_fits_drop_last(starts, contents, end);
    lemma_fits_drop_last(starts, c2, end);
    lemma_fill_len(d, starts.drop_last(), contents.drop_last(), starts.last());
    if k == n {
        assert(c2.drop_last() =~= contents.drop_last());
        let f = fill(d, starts.drop_last(), contents.drop_last());
        assert(splice(f, starts[k], contents[k] + b) =~= splice(
            splice(f, starts[k], contents[k]),
            starts[k] + contents[k].len(),
            b,
        ));
    } else {
        assert(c2.drop_last() =~= contents.drop_last().update(k, contents[k] + b));
        lemma_fill_extend(d, starts.drop_last(), contents.drop_last(), starts.last(), k, b);
        let g = fill(d, starts.drop_last(), contents.drop_last());
        let p = starts[k] + contents[k].len();
        assert(starts[k] + c2[k].len() <= starts[n]);
        assert(splice(splice(g, p, b), starts[n], contents[n]) =~= splice(
            splice(g, starts[n], contents[n]),
            p,
            b,
        ));
    }
}

/// Each region of a fill holds its contents.
pub proof fn lemma_fill_region(
    d: Seq<u8>,
    starts: Seq<int>,
    contents: Seq<Seq<u8>>,
    end: int,
    k: int,
)
    requires
        0 <= k < contents.len(),
        fits_between(starts, contents, end),
        end <= d.len(),
    ensures
        fill(d, starts, contents).subrange(starts[k], starts[k] + contents[k].len())
            == contents[k],
    decreases contents.len(),
{
    let n = contents.len() - 1;
    lemma_fits_drop_last(starts, contents, end);
    lemma_fill_len(d, starts.drop_last(), contents.drop_last(), starts.last());
    let g = fill(d, starts.drop_last(), contents.drop_last());
    if k == n {
        assert(splice(g, starts[k], contents[k]).subrange(starts[k], starts[k] + contents[k].len())
            =~= contents[k]);
    } else {
        lemma_fill_region(d, starts.drop_last(), contents.drop_last(), starts.last(), k);
        assert(starts[k] + contents[k].len() <= starts[n]);
        assert(splice(g, starts[n], contents[n]).subrange(starts[k], starts[k] + contents[k].len())
            =~= g.subrange(starts[k], starts[k] + contents[k].len()));
    }
}

/// A byte outside every region keeps its value.
pub proof fn lemma_fill_frame(
    d: Seq<u8>,
    starts: Seq<int>,
    contents: Seq<Seq<u8>>,
    end: int,
    p: int,
)
    requires
        fits_between(starts, contents, end),
        end <= d.len(),
        0 <= p < d.len(),
        forall|i: int|
            0 <= i < contents.len() ==> !(starts[i] <= p < #[trigger] starts[i]
                + contents[i].len()),
    ensures
        fill(d, starts, contents)[p] == d[p],
    decreases contents.len(),
{
    if contents.len() > 0 {
        let n = contents.len() - 1;
        lemma_fits_drop_last(starts, contents, end);
        lemma_fill_len(d, starts.drop_last(), contents.drop_last(), starts.last());
        assert forall|i: int| 0 <= i < contents.drop_last().len() implies !(
        starts.drop_last()[i] <= p < #[trigger] starts.drop_last()[i]
            + contents.drop_last()[i].len()) by {
            assert(!(starts[i] <= p < starts[i] + contents[i].len()));
        }
        lemma_fill_frame(d, starts.drop_last(), contents.drop_last(), starts.last(), p);
        assert(!(starts[n] <= p < starts[n] + contents[n].len()));
    }
}

/// The `i`-th 32-bit little-endian word of `b`.
pub open spec fn word_at(b: Seq<u8>, i: int) -> u32 {
    le_u32(b.subrange(4 * i, 4 * i + 4))
}

/// The first `n` words of `b`, each increased by `add`.
pub open spec fn shifted_words(b: Seq<u8>, n: nat, add: u32) -> Seq<u8>
    decreases n,
{
    if n == 0 {
        Seq::empty()
    } else {
        shifted_words(b, (n - 1) as nat, add) + u32_le((word_at(b, n - 1) + add) as u32)
    }
}

/// Whether increasing the first `n` words of `b` by `add` stays within 32
/// bits.
pub open spec fn shift_fits(b: Seq<u8>, n: nat, add: u32) -> bool {
    forall|i: int| 0 <= i < n ==> #[trigger] word_at(b, i) + add <= u32::MAX
}

/// `n` shifted words take `4 * n` bytes.
pub proof fn lemma_shifted_len(b: Seq<u8>, n: nat, add: u32)
    ensures
        shifted_words(b, n, add).len() == 4 * n,
    decreases n,
{
    if n > 0 {
        lemma_shifted_len(b, (n - 1) as nat, add);
        lemma_u32_le_roundtrip((word_at(b, n - 1) + add) as u32);
    }
}

/// Appends `src[start .. start + len]` to region `k`, at `pos`, where that
/// region currently ends.
pub(crate) fn append_bytes(
    out: &mut [u8],
    pos: usize,
    src: &[u8],
    start: usize,
    len: usize,
    Ghost(d): Ghost<Seq<u8>>,
    Ghost(starts): Ghost<Seq<int>>,
    Ghost(contents): Ghost<Seq<Seq<u8>>>,
    Ghost(end): Ghost<int>,
    Ghost(k): Ghost<int>,
)
    requires
        old(out)@ == fill(d, starts, contents),
        end <= d.len(),
        0 <= k < contents.len(),
        start + len <= src@.len(),
        pos == starts[k] + contents[k].len(),
        fits_between(
            starts,
            contents.update(k, contents[k] + src@.subrange(start as int, start + len)),
            end,
        ),
    ensures
        final(out)@ == fill(
            d,
            starts,
            contents.update(k, contents[k] + src@.subrange(start as int, start + len)),
        ),
{
    let ghost b = src@.subrange(start as int, start + len);
    proof {
        lemma_fits_shorter(starts, contents.update(k, contents[k] + b), contents, end);
        lemma_fill_len(d, starts, contents, end);
        lemma_fill_extend(d, starts, contents, end, k, b);
        assert(starts[k] + (contents[k] + b).len() <= end);
    }
    let _ = src.len();
    let part = vstd::slice::slice_subrange(src, start, start + len);
    put_bytes(out, pos, part);
}

/// Appends to region `k`, at `pos`, `count` words of `src` from `start`,
/// each increased by `add`.
pub(crate) fn append_shifted(
    out: &mut [u8],
    pos: usize,
    src: &[u8],
    start: usize,
    count: usize,
    add: u32,
    Ghost(d): Ghost<Seq<u8>>,
    Ghost(starts): Ghost<Seq<int>>,
    Ghost(contents): Ghost<Seq<Seq<u8>>>,
    Ghost(end): Ghost<int>,
    Ghost(k): Ghost<int>,
)
    requires
        old(out)@ == fill(d, starts, contents),
        end <= d.len(),
        0 <= k < contents.len(),
        start + 4 * count <= src@.len(),
        shift_fits(src@.subrange(start as int, start + 4 * count), count as nat, add),
        pos == starts[k] + contents[k].len(),
        fits_between(
            starts,
            contents.update(
                k,
                contents[k] + shifted_words(
                    src@.subrange(start as int, start + 4 * count),
                    count as nat,
                    add,
                ),
            ),
            end,
        ),
    ensures
        final(out)@ == fill(
            d,
            starts,
            contents.update(
                k,
                contents[k] + shifted_words(
                    src@.subrange(start as int, start + 4 * count),
                    count as nat,
                    add,
                ),
            ),
        ),
{
    let ghost b = src@.subrange(start as int, start + 4 * count);
    let ghost w = shifted_words(b, count as nat, add);
    let ghost d0 = out@;
    proof {
        lemma_fits_shorter(starts, contents.update(k, contents[k] + w), contents, end);
        lemma_fill_len(d, starts, contents, end);
        lemma_fill_extend(d, starts, contents, end, k, w);
        lemma_shifted_len(b, count as nat, add);
        assert(starts[k] + (contents[k] + w).len() <= end);
        assert(splice(d0, pos as int, Seq::empty()) =~= d0);
    }
    let slen = src.len();
    let olen = out.len();
    let mut i: usize = 0;
    while i < count
        invariant
            slen == src@.len(),
            olen == out@.len(),
            start + 4 * count <= src@.len(),
            pos + 4 * count <= out@.len(),
            out@.len() == d0.len(),
            b == src@.subrange(start as int, start + 4 * count),
            shift_fits(b, count as nat, add),
            i <= count,
            out@ == splice(d0, pos as int, shifted_words(b, i as nat, add)),
        decreases count - i,
    {
        let v = get_u32_le(src, start + 4 * i);
        proof {
            assert(src@.subrange(start + 4 * i, start + 4 * i + 4) =~= b.subrange(
                4 * i,
                4 * i + 4,
            ));
            assert(word_at(b, i as int) + add <= u32::MAX);
            lemma_shifted_len(b, i as nat, add);
            lemma_u32_le_roundtrip((v + add) as u32);
        }
        put_u32_le(out, pos + 4 * i, v + add);
        proof {
            assert(out@ =~= splice(d0, pos as int, shifted_words(b, (i + 1) as nat, add)));
        }
        i = i + 1;
    }
}

} // verus!
