//! Text in the payload: UTF-8 strings terminated by a zero byte.
use vstd::prelude::*;
use vstd::utf8::*;
use vstd::string::StringSliceAdditionalSpecFns;
use crate::bytes::{find_zero, lemma_find_zero_at, position_of_zero, splice};
use crate::buffer::BufferError;

verus! {

/// Reads `bytes` as UTF-8 text (`std::str::from_utf8`).
///
/// Trusted: the contract states what the standard library documents, that
/// the call succeeds exactly on valid UTF-8 and then returns a string slice
/// over the same bytes; validity is vstd's `valid_utf8`.
#[verifier::external_body]
fn str_from_utf8(bytes: &[u8]) -> (r: Option<&str>)
    ensures
        r is Some <==> valid_utf8(bytes@),
        r matches Some(s) ==> s.spec_bytes() == bytes@,
{
    std::str::from_utf8(bytes).ok()
}

/// Reads `data[from..to]` as UTF-8 text; `None` when it is not valid UTF-8.
pub fn utf8_between(data: &[u8], from: usize, to: usize) -> (r: Option<&str>)
    requires
        from <= to <= data@.len(),
    ensures
        r is Some <==> valid_utf8(data@.subrange(from as int, to as int)),
        r matches Some(s) ==> s.spec_bytes() == data@.subrange(from as int, to as int),
{
    let part = vstd::slice::slice_subrange(data, from, to);
    str_from_utf8(part)
}

/// The encoding of a scalar other than zero holds no zero byte.
proof fn lemma_scalar_no_zero(c: u32)
    requires
        is_scalar(c),
        c != 0,
    ensures
        forall|i: int| 0 <= i < encode_scalar(c).len() ==> #[trigger] encode_scalar(c)[i] != 0,
{
    assert(0 < c <= 0x7f ==> (c & 0x7F) as u8 != 0) by (bit_vector);
    assert((0xC0u8 | ((c >> 6u32) & 0x1F) as u8) != 0) by (bit_vector);
    assert((0xE0u8 | ((c >> 12u32) & 0x0F) as u8) != 0) by (bit_vector);
    assert((0xF0u8 | ((c >> 18u32) & 0x7) as u8) != 0) by (bit_vector);
    assert((0x80u8 | (c & 0x3F) as u8) != 0) by (bit_vector);
    assert((0x80u8 | ((c >> 6u32) & 0x3F) as u8) != 0) by (bit_vector);
    assert((0x80u8 | ((c >> 12u32) & 0x3F) as u8) != 0) by (bit_vector);
}

/// Text without a NUL character encodes to bytes without a zero byte.
pub proof fn lemma_utf8_no_zero(chars: Seq<char>)
    requires
        !chars.contains('\0'),
    ensures
        forall|i: int| 0 <= i < encode_utf8(chars).len() ==> #[trigger] encode_utf8(chars)[i] != 0,
    decreases chars.len(),
{
    if chars.len() > 0 {
        let c = chars[0];
        let rest = chars.drop_first();
        assert(!rest.contains('\0')) by {
            if rest.contains('\0') {
                let j = choose|j: int| 0 <= j < rest.len() && rest[j] == '\0';
                assert(chars[j + 1] == '\0');
            }
        }
        lemma_utf8_no_zero(rest);
        char_is_scalar(c);
        assert(c != '\0');
        if c as u32 == 0 {
            char_u32_cast(c, 0u32);
            assert(0u32 as char == '\0');
        }
        lemma_scalar_no_zero(c as u32);
        let e = encode_scalar(c as u32);
        assert(encode_utf8(chars) == e + encode_utf8(rest));
        assert forall|i: int| 0 <= i < encode_utf8(chars).len() implies #[trigger] encode_utf8(
            chars,
        )[i] != 0 by {
            if i < e.len() {
                assert(encode_utf8(chars)[i] == e[i]);
            } else {
                assert(encode_utf8(chars)[i] == encode_utf8(rest)[i - e.len()]);
            }
        }
    }
}

/// Whether `b` can be stored as one zero-terminated string and read back:
/// nonempty, valid UTF-8 and free of zero bytes.
pub open spec fn storable(b: Seq<u8>) -> bool {
    &&& b.len() > 0
    &&& valid_utf8(b)
    &&& forall|i: int| 0 <= i < b.len() ==> #[trigger] b[i] != 0
}

/// Nonempty text without a NUL character is storable.
pub proof fn lemma_storable(s: &str)
    requires
        s@.len() > 0,
        !s@.contains('\0'),
    ensures
        storable(s.spec_bytes()),
{
    lemma_utf8_no_zero(s@);
    encode_utf8_valid_utf8(s@);
    assert(s@ == s@.drop_first().insert(0, s@[0]));
    assert(encode_utf8(s@) =~= encode_scalar(s@[0] as u32) + encode_utf8(s@.drop_first()));
    char_is_scalar(s@[0]);
}

/// The bytes of each string, in order.
pub open spec fn strs_bytes(strs: Seq<&str>) -> Seq<Seq<u8>> {
    strs.map_values(|s: &str| s.spec_bytes())
}

/// Zero-terminated strings one after the other.
pub open spec fn strings_wire(parts: Seq<Seq<u8>>) -> Seq<u8>
    decreases parts.len(),
{
    if parts.len() == 0 {
        Seq::empty()
    } else {
        strings_wire(parts.drop_last()) + parts.last() + seq![0u8]
    }
}

/// The first string comes first.
pub proof fn lemma_strings_wire_first(parts: Seq<Seq<u8>>)
    requires
        parts.len() > 0,
    ensures
        strings_wire(parts) == parts[0] + seq![0u8] + strings_wire(parts.drop_first()),
    decreases parts.len(),
{
    if parts.len() == 1 {
        assert(parts.drop_first() =~= Seq::<Seq<u8>>::empty());
        assert(parts.drop_last() =~= Seq::<Seq<u8>>::empty());
        assert(strings_wire(parts) =~= parts[0] + seq![0u8] + strings_wire(parts.drop_first()));
    } else {
        lemma_strings_wire_first(parts.drop_last());
        assert(parts.drop_last().drop_first() =~= parts.drop_first().drop_last());
        assert(parts.drop_first().last() == parts.last());
        assert(parts.drop_last()[0] == parts[0]);
        assert(strings_wire(parts) =~= parts[0] + seq![0u8] + strings_wire(parts.drop_first()));
    }
}

/// What reading up to `remaining` zero-terminated strings from `offset`
/// gives: stop at the end of the data or at an empty string, refuse with
/// `Corrupted` when no terminator follows, with `InvalidUtf8` when a string
/// is not valid UTF-8.
pub open spec fn scan_strings(data: Seq<u8>, offset: int, remaining: nat) -> Result<
    Seq<Seq<u8>>,
    BufferError,
>
    decreases remaining,
{
    if remaining == 0 || offset >= data.len() {
        Ok(Seq::empty())
    } else {
        match find_zero(data, offset) {
            None => Err(BufferError::Corrupted),
            Some(k) => if k == offset {
                Ok(Seq::empty())
            } else if !valid_utf8(data.subrange(offset, k)) {
                Err(BufferError::InvalidUtf8)
            } else {
                match scan_strings(data, k + 1, (remaining - 1) as nat) {
                    Ok(rest) => Ok(seq![data.subrange(offset, k)] + rest),
                    Err(e) => Err(e),
                }
            },
        }
    }
}

/// `r` with `pre` in front of a successful result.
pub open spec fn prepend(pre: Seq<Seq<u8>>, r: Result<Seq<Seq<u8>>, BufferError>) -> Result<
    Seq<Seq<u8>>,
    BufferError,
> {
    match r {
        Ok(s) => Ok(pre + s),
        Err(e) => Err(e),
    }
}

/// The bytes of each string of a successful read.
pub open spec fn strs_result(r: Result<Vec<&str>, BufferError>) -> Result<
    Seq<Seq<u8>>,
    BufferError,
> {
    match r {
        Ok(v) => Ok(strs_bytes(v@)),
        Err(e) => Err(e),
    }
}

/// Reads up to `count` zero-terminated strings from `data`, starting at
/// `start`.
pub fn read_strings<'a>(data: &'a [u8], start: usize, count: usize) -> (r: Result<
    Vec<&'a str>,
    BufferError,
>)
    ensures
        strs_result(r) == scan_strings(data@, start as int, count as nat),
{
    let n = data.len();
    let mut result: Vec<&'a str> = Vec::new();
    let mut offset = start;
    let mut i: usize = 0;
    while i < count
        invariant
            n == data@.len(),
            i <= count,
            scan_strings(data@, start as int, count as nat) == prepend(
                strs_bytes(result@),
                scan_strings(data@, offset as int, (count - i) as nat),
            ),
        decreases count - i,
    {
        if offset >= n {
            proof {
                assert(strs_bytes(result@) + Seq::<Seq<u8>>::empty() =~= strs_bytes(result@));
            }
            return Ok(result);
        }
        let k = match position_of_zero(data, offset) {
            Some(k) => k,
            None => return Err(BufferError::Corrupted),
        };
        if k == offset {
            proof {
                assert(strs_bytes(result@) + Seq::<Seq<u8>>::empty() =~= strs_bytes(result@));
            }
            return Ok(result);
        }
        let s = match utf8_between(data, offset, k) {
            Some(s) => s,
            None => return Err(BufferError::InvalidUtf8),
        };
        let ghost before = strs_bytes(result@);
        result.push(s);
        proof {
            assert(strs_bytes(result@) =~= before + seq![data@.subrange(offset as int, k as int)]);
            let tail = scan_strings(data@, k + 1, (count - i - 1) as nat);
            match tail {
                Ok(t) => {
                    assert(before + seq![data@.subrange(offset as int, k as int)] + t =~= before
                        + (seq![data@.subrange(offset as int, k as int)] + t));
                },
                Err(e) => {},
            }
        }
        offset = k + 1;
        i = i + 1;
    }
    proof {
        assert(strs_bytes(result@) + Seq::<Seq<u8>>::empty() =~= strs_bytes(result@));
    }
    Ok(result)
}

/// Writes each string followed by a zero byte, one after the other, at `at`.
pub fn put_strings(out: &mut [u8], at: usize, strs: &[&str])
    requires
        at + strings_wire(strs_bytes(strs@)).len() <= old(out)@.len(),
    ensures
        final(out)@ == splice(old(out)@, at as int, strings_wire(strs_bytes(strs@))),
{
    let olen = out.len();
    let n = strs.len();
    let mut pos = at;
    let mut i: usize = 0;
    proof {
        assert(strs_bytes(strs@.take(0)) =~= Seq::<Seq<u8>>::empty());
        assert(out@ =~= splice(old(out)@, at as int, strings_wire(strs_bytes(strs@.take(0)))));
        lemma_strings_wire_prefix_len(strs_bytes(strs@), 0);
    }
    while i < n
        invariant
            n == strs@.len(),
            olen == out@.len(),
            out@.len() == old(out)@.len(),
            at + strings_wire(strs_bytes(strs@)).len() <= olen,
            i <= n,
            pos == at + strings_wire(strs_bytes(strs@.take(i as int))).len(),
            strings_wire(strs_bytes(strs@.take(i as int))).len() <= strings_wire(
                strs_bytes(strs@),
            ).len(),
            out@ == splice(old(out)@, at as int, strings_wire(strs_bytes(strs@.take(i as int)))),
        decreases n - i,
    {
        let s = strs[i];
        let b = s.as_bytes();
        let ghost pre = strings_wire(strs_bytes(strs@.take(i as int)));
        proof {
            assert(strs_bytes(strs@.take(i + 1)).drop_last() =~= strs_bytes(strs@.take(i as int)));
            assert(strs_bytes(strs@.take(i + 1)).last() == b@);
            assert(strings_wire(strs_bytes(strs@.take(i + 1))) == pre + b@ + seq![0u8]);
            lemma_strings_wire_prefix_len(strs_bytes(strs@), i + 1);
            assert(strs_bytes(strs@).take(i + 1) =~= strs_bytes(strs@.take(i + 1)));
        }
        crate::bytes::put_bytes(out, pos, b);
        out[pos + b.len()] = 0;
        proof {
            assert(out@ =~= splice(old(out)@, at as int, pre + b@ + seq![0u8]));
        }
        pos = pos + b.len() + 1;
        i = i + 1;
    }
    assert(strs@.take(n as int) =~= strs@);
}

/// Each string takes at least its terminator.
pub proof fn lemma_strings_wire_len(parts: Seq<Seq<u8>>)
    ensures
        strings_wire(parts).len() >= parts.len(),
    decreases parts.len(),
{
    if parts.len() > 0 {
        lemma_strings_wire_len(parts.drop_last());
    }
}

/// A prefix of the strings takes no more room than all of them.
pub proof fn lemma_strings_wire_prefix_len(parts: Seq<Seq<u8>>, k: int)
    requires
        0 <= k <= parts.len(),
    ensures
        strings_wire(parts.take(k)).len() <= strings_wire(parts).len(),
    decreases parts.len(),
{
    if k < parts.len() {
        assert(parts.drop_last().take(k) =~= parts.take(k));
        lemma_strings_wire_prefix_len(parts.drop_last(), k);
    } else {
        assert(parts.take(k) =~= parts);
    }
}

/// Reading back strings written one after the other gives them back, when
/// each is storable and the data holds them.
pub proof fn lemma_scan_strings_wire(data: Seq<u8>, offset: int, parts: Seq<Seq<u8>>)
    requires
        0 <= offset,
        offset + strings_wire(parts).len() <= data.len(),
        data.subrange(offset, offset + strings_wire(parts).len()) == strings_wire(parts),
        forall|i: int| 0 <= i < parts.len() ==> storable(#[trigger] parts[i]),
    ensures
        scan_strings(data, offset, parts.len()) == Ok::<Seq<Seq<u8>>, BufferError>(parts),
    decreases parts.len(),
{
    if parts.len() > 0 {
        lemma_strings_wire_first(parts);
        let p = parts[0];
        let rest = parts.drop_first();
        let w = strings_wire(parts);
        assert(storable(p));
        let k = offset + p.len();
        assert forall|j: int| offset <= j < k implies data[j] != 0 by {
            assert(data[j] == data.subrange(offset, offset + w.len())[j - offset]);
            assert(w[j - offset] == p[j - offset]);
        }
        assert(data[k] == data.subrange(offset, offset + w.len())[k - offset]);
        assert(w[p.len() as int] == 0);
        lemma_find_zero_at(data, offset, k);
        assert(data.subrange(offset, k) =~= p);
        let w2 = strings_wire(rest);
        assert(data.subrange(k + 1, k + 1 + w2.len()) =~= w2) by {
            assert forall|j: int| 0 <= j < w2.len() implies data.subrange(k + 1, k + 1 + w2.len())[j]
                == w2[j] by {
                assert(data[k + 1 + j] == data.subrange(offset, offset + w.len())[k + 1 + j
                    - offset]);
                assert(w[p.len() + 1 + j] == w2[j]);
            }
        }
        assert forall|i: int| 0 <= i < rest.len() implies storable(#[trigger] rest[i]) by {
            assert(rest[i] == parts[i + 1]);
        }
        lemma_scan_strings_wire(data, k + 1, rest);
        assert(offset < data.len());
        assert(k != offset);
        assert(valid_utf8(data.subrange(offset, k)));
        assert(scan_strings(data, offset, parts.len()) == Ok::<Seq<Seq<u8>>, BufferError>(
            seq![data.subrange(offset, k)] + rest,
        ));
        assert(seq![p] + rest =~= parts);
    } else {
        assert(parts =~= Seq::<Seq<u8>>::empty());
    }
}

} // verus!
