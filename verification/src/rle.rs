use vstd::prelude::*;

verus! {

/// Marker byte that introduces a run in the LCE run-length encoding.
pub const RLE_MARKER: u8 = 0xFF;

/// Number of equal bytes (at most 256) starting at `start`, counting from
/// `k` already known to be equal.
pub open spec fn run_from(d: Seq<u8>, start: int, k: int) -> int
    decreases 256 - k,
{
    if k < 256 && start + k < d.len() && d[start + k] == d[start] {
        run_from(d, start, k + 1)
    } else {
        k
    }
}

/// Length of the run of equal bytes (capped at 256) that starts at `start`.
pub open spec fn run_len(d: Seq<u8>, start: int) -> int {
    run_from(d, start, 1)
}

/// `c` copies of `b`.
pub open spec fn repeat_byte(b: u8, c: int) -> Seq<u8> {
    Seq::new(c as nat, |_i: int| b)
}

/// The encoding of one run of `c` bytes equal to `b`.
pub open spec fn rle_token(b: u8, c: int) -> Seq<u8> {
    if c <= 3 {
        if b == RLE_MARKER {
            seq![RLE_MARKER, (c - 1) as u8]
        } else {
            repeat_byte(b, c)
        }
    } else {
        seq![RLE_MARKER, (c - 1) as u8, b]
    }
}

/// The encoding of `d[start..]`, run after run.
pub open spec fn rle_encode_from(d: Seq<u8>, start: int) -> Seq<u8>
    decreases d.len() - start,
{
    if start < 0 || start >= d.len() {
        Seq::empty()
    } else {
        let c = run_len(d, start);
        if c < 1 || start + c > d.len() {
            Seq::empty()
        } else {
            rle_token(d[start], c) + rle_encode_from(d, start + c)
        }
    }
}

/// The run-length encoding of `d`.
pub open spec fn spec_rle_encode(d: Seq<u8>) -> Seq<u8> {
    rle_encode_from(d, 0)
}

/// The bytes that decoding `data[inp..]` writes when at most `remaining`
/// more bytes fit in the output.
pub open spec fn rle_decoded(data: Seq<u8>, inp: int, remaining: int) -> Seq<u8>
    decreases data.len() - inp,
{
    if inp < 0 || inp >= data.len() || remaining <= 0 {
        Seq::empty()
    } else if data[inp] == RLE_MARKER {
        if inp + 1 >= data.len() {
            Seq::empty()
        } else {
            let count = data[inp + 1] as int;
            let run = count + 1;
            let w = if run <= remaining { run } else { remaining };
            if count < 3 {
                repeat_byte(RLE_MARKER, w) + rle_decoded(data, inp + 2, remaining - w)
            } else if inp + 2 >= data.len() {
                Seq::empty()
            } else {
                repeat_byte(data[inp + 2], w) + rle_decoded(data, inp + 3, remaining - w)
            }
        }
    } else {
        seq![data[inp]] + rle_decoded(data, inp + 1, remaining - 1)
    }
}

/// What `rle_decode(data, expected)` returns: the decoded bytes, padded
/// with zeros up to `expected`.
pub open spec fn spec_rle_decode(data: Seq<u8>, expected: int) -> Seq<u8> {
    let w = rle_decoded(data, 0, expected);
    w + Seq::new((expected - w.len()) as nat, |_i: int| 0u8)
}

proof fn lemma_run_from_bounds(d: Seq<u8>, start: int, k: int)
    requires
        0 <= start,
        1 <= k <= 256,
        start + k <= d.len(),
        forall|j: int| start <= j < start + k ==> d[j] == d[start],
    ensures
        k <= run_from(d, start, k) <= 256,
        start + run_from(d, start, k) <= d.len(),
        forall|j: int| start <= j < start + run_from(d, start, k) ==> d[j] == d[start],
        run_from(d, start, k) < 256 ==> (start + run_from(d, start, k) == d.len() || d[start
            + run_from(d, start, k)] != d[start]),
    decreases 256 - k,
{
    if k < 256 && start + k < d.len() && d[start + k] == d[start] {
        lemma_run_from_bounds(d, start, k + 1);
    }
}

/// The run that starts at `start` is between 1 and 256 bytes long, fits in
/// `d`, and holds equal bytes.
pub proof fn lemma_run_len(d: Seq<u8>, start: int)
    requires
        0 <= start < d.len(),
    ensures
        1 <= run_len(d, start) <= 256,
        start + run_len(d, start) <= d.len(),
        forall|j: int| start <= j < start + run_len(d, start) ==> d[j] == d[start],
{
    lemma_run_from_bounds(d, start, 1);
}

/// Run-length encodes `data` as LCE save files expect: runs of up to 256
/// equal bytes become `FF, n-1, b` when longer than 3, short runs of `FF`
/// become `FF, n-1`, other short runs stay literal.
pub fn rle_encode(data: &[u8]) -> (out: Vec<u8>)
    ensures
        out@ == spec_rle_encode(data@),
{
    let mut out: Vec<u8> = Vec::new();
    let mut i: usize = 0;
    let n = data.len();
    while i < n
        invariant
            n == data@.len(),
            i <= n,
            spec_rle_encode(data@) == out@ + rle_encode_from(data@, i as int),
        decreases n - i,
    {
        let current = data[i];
        let start = i;
        i += 1;
        let mut count: usize = 1;
        while i < n && data[i] == current && count < 256
            invariant
                n == data@.len(),
                start < n,
                current == data@[start as int],
                1 <= count <= 256,
                i == start + count,
                i <= n,
                run_len(data@, start as int) == run_from(data@, start as int, count as int),
            decreases 256 - count,
        {
            i += 1;
            count += 1;
        }
        proof {
            lemma_run_len(data@, start as int);
            assert(run_len(data@, start as int) == count);
        }
        let ghost before = out@;
        if count <= 3 {
            if current == RLE_MARKER {
                out.push(RLE_MARKER);
                out.push((count - 1) as u8);
            } else {
                let mut k: usize = 0;
                while k < count
                    invariant
                        k <= count,
                        count <= 3,
                        out@ == before + repeat_byte(current, k as int),
                    decreases count - k,
                {
                    out.push(current);
                    k += 1;
                    proof {
                        assert(out@ =~= before + repeat_byte(current, k as int));
                    }
                }
            }
        } else {
            out.push(RLE_MARKER);
            out.push((count - 1) as u8);
            out.push(current);
        }
        proof {
            assert(out@ =~= before + rle_token(current, count as int));
            assert(rle_encode_from(data@, start as int) == rle_token(current, count as int)
                + rle_encode_from(data@, i as int));
            assert(spec_rle_encode(data@) =~= out@ + rle_encode_from(data@, i as int));
        }
    }
    proof {
        assert(rle_encode_from(data@, i as int) =~= Seq::<u8>::empty());
        assert(out@ =~= out@ + rle_encode_from(data@, i as int));
    }
    out
}


/// Decodes LCE run-length encoded `data` into a buffer of exactly
/// `expected_size` bytes; decoding stops when either side runs out, and the
/// rest of the buffer stays zero.
pub fn rle_decode(data: &[u8], expected_size: usize) -> (out: Vec<u8>)
    ensures
        out@ == spec_rle_decode(data@, expected_size as int),
{
    let mut output: Vec<u8> = vec![0u8; expected_size];
    let mut in_pos: usize = 0;
    let mut out_pos: usize = 0;
    let n = data.len();
    let ghost total = rle_decoded(data@, 0, expected_size as int);
    while in_pos < n && out_pos < expected_size
        invariant_except_break
            in_pos <= n,
        invariant
            n == data@.len(),
            output@.len() == expected_size,
            out_pos <= expected_size,
            total == rle_decoded(data@, 0, expected_size as int),
            total == output@.take(out_pos as int) + rle_decoded(
                data@,
                in_pos as int,
                expected_size - out_pos,
            ),
            forall|j: int| out_pos <= j < expected_size ==> output@[j] == 0,
        ensures
            total == output@.take(out_pos as int),
            forall|j: int| out_pos <= j < expected_size ==> output@[j] == 0,
        decreases n - in_pos,
    {
        let current = data[in_pos];
        let ghost inp = in_pos as int;
        let ghost rem = expected_size - out_pos;
        let ghost before = output@.take(out_pos as int);
        in_pos += 1;
        if current == RLE_MARKER {
            if in_pos >= n {
                proof {
                    assert(rle_decoded(data@, inp, rem) =~= Seq::<u8>::empty());
                    assert(total =~= output@.take(out_pos as int));
                }
                break;
            }
            let count = data[in_pos] as usize;
            in_pos += 1;
            let run = count + 1;
            let value: u8;
            if count < 3 {
                value = RLE_MARKER;
            } else {
                if in_pos >= n {
                    proof {
                        assert(rle_decoded(data@, inp, rem) =~= Seq::<u8>::empty());
                        assert(total =~= output@.take(out_pos as int));
                    }
                    break;
                }
                value = data[in_pos];
                in_pos += 1;
            }
            let room = expected_size - out_pos;
            let w = if run <= room { run } else { room };
            let start = out_pos;
            let mut k: usize = 0;
            while k < w
                invariant
                    k <= w,
                    w <= room,
                    room == expected_size - start,
                    out_pos == start + k,
                    output@.len() == expected_size,
                    output@.take(out_pos as int) == before + repeat_byte(value, k as int),
                    before == output@.take(start as int),
                    forall|j: int| out_pos <= j < expected_size ==> output@[j] == 0,
                decreases w - k,
            {
                let ghost prev = output@;
                let ghost prev_pos = out_pos as int;
                output.set(out_pos, value);
                out_pos += 1;
                k += 1;
                proof {
                    assert(output@.take(prev_pos) =~= prev.take(prev_pos));
                    assert(output@.take(out_pos as int) =~= output@.take(prev_pos) + seq![value]);
                    assert(repeat_byte(value, k - 1) + seq![value] =~= repeat_byte(value, k as int));
                    assert(output@.take(out_pos as int) =~= before + repeat_byte(value, k as int));
                }
            }
            proof {
                assert(rle_decoded(data@, inp, rem) == repeat_byte(value, w as int) + rle_decoded(
                    data@,
                    in_pos as int,
                    rem - w,
                ));
                assert(total =~= output@.take(out_pos as int) + rle_decoded(
                    data@,
                    in_pos as int,
                    expected_size - out_pos,
                ));
            }
        } else {
            let ghost prev = output@;
            output.set(out_pos, current);
            out_pos += 1;
            proof {
                assert(output@.take(out_pos - 1) =~= prev.take(out_pos - 1));
                assert(output@.take(out_pos as int) =~= before + seq![current]);
                assert(total =~= output@.take(out_pos as int) + rle_decoded(
                    data@,
                    in_pos as int,
                    expected_size - out_pos,
                ));
            }
        }
    }
    proof {
        assert(output@ =~= spec_rle_decode(data@, expected_size as int));
    }
    output
}

/// Decoding ignores a prefix that it has already passed.
proof fn lemma_decoded_shift(a: Seq<u8>, t: Seq<u8>, j: int, r: int)
    requires
        0 <= j,
    ensures
        rle_decoded(a + t, a.len() + j, r) == rle_decoded(t, j, r),
    decreases t.len() - j,
{
    let s = a + t;
    if j < t.len() && r > 0 {
        assert(s[a.len() + j] == t[j]);
        if t[j] == RLE_MARKER {
            if j + 1 < t.len() {
                assert(s[a.len() + j + 1] == t[j + 1]);
                let run = t[j + 1] + 1;
                let w = if run <= r { run } else { r };
                lemma_decoded_shift(a, t, j + 2, r - w);
                if j + 2 < t.len() {
                    assert(s[a.len() + j + 2] == t[j + 2]);
                    lemma_decoded_shift(a, t, j + 3, r - w);
                }
            }
        } else {
            lemma_decoded_shift(a, t, j + 1, r - 1);
        }
    }
}

proof fn lemma_decode_literals(b: u8, c: int, rest: Seq<u8>, k: int, rem: int)
    requires
        b != RLE_MARKER,
        0 <= k <= c,
        c - k <= rem,
    ensures
        rle_decoded(repeat_byte(b, c) + rest, k, rem) == repeat_byte(b, c - k) + rle_decoded(
            rest,
            0,
            rem - (c - k),
        ),
    decreases c - k,
{
    let s = repeat_byte(b, c) + rest;
    if k == c {
        lemma_decoded_shift(repeat_byte(b, c), rest, 0, rem);
        assert(repeat_byte(b, 0) + rle_decoded(rest, 0, rem) =~= rle_decoded(rest, 0, rem));
    } else {
        assert(s[k] == b);
        lemma_decode_literals(b, c, rest, k + 1, rem - 1);
        assert(seq![b] + repeat_byte(b, c - (k + 1)) =~= repeat_byte(b, c - k));
        assert(seq![b] + (repeat_byte(b, c - (k + 1)) + rle_decoded(rest, 0, rem - (c - k)))
            =~= repeat_byte(b, c - k) + rle_decoded(rest, 0, rem - (c - k)));
    }
}

/// Decoding one run token followed by `rest` yields the run, then `rest`.
proof fn lemma_decode_token(b: u8, c: int, rest: Seq<u8>, rem: int)
    requires
        1 <= c <= 256,
        c <= rem,
    ensures
        rle_decoded(rle_token(b, c) + rest, 0, rem) == repeat_byte(b, c) + rle_decoded(
            rest,
            0,
            rem - c,
        ),
{
    let tok = rle_token(b, c);
    if c <= 3 {
        if b == RLE_MARKER {
            lemma_decoded_shift(tok, rest, 0, rem - c);
            assert((tok + rest)[0] == RLE_MARKER);
            assert((tok + rest)[1] == (c - 1) as u8);
        } else {
            lemma_decode_literals(b, c, rest, 0, rem);
        }
    } else {
        lemma_decoded_shift(tok, rest, 0, rem - c);
        assert((tok + rest)[0] == RLE_MARKER);
        assert((tok + rest)[1] == (c - 1) as u8);
        assert((tok + rest)[2] == b);
    }
}

proof fn lemma_decode_encode_from(d: Seq<u8>, i: int)
    requires
        0 <= i <= d.len(),
    ensures
        rle_decoded(rle_encode_from(d, i), 0, d.len() - i) == d.subrange(i, d.len() as int),
    decreases d.len() - i,
{
    if i == d.len() {
        assert(d.subrange(i, d.len() as int) =~= Seq::<u8>::empty());
    } else {
        lemma_run_len(d, i);
        let c = run_len(d, i);
        let rest = rle_encode_from(d, i + c);
        lemma_decode_encode_from(d, i + c);
        lemma_decode_token(d[i], c, rest, d.len() - i);
        assert(repeat_byte(d[i], c) + d.subrange(i + c, d.len() as int) =~= d.subrange(
            i,
            d.len() as int,
        ));
    }
}

/// Decoding the encoding of `d` into a buffer of `d`'s length gives `d`
/// back.
pub proof fn lemma_rle_roundtrip(d: Seq<u8>)
    ensures
        spec_rle_decode(spec_rle_encode(d), d.len() as int) == d,
{
    lemma_decode_encode_from(d, 0);
    assert(d.subrange(0, d.len() as int) =~= d);
    assert(spec_rle_decode(spec_rle_encode(d), d.len() as int) =~= d);
}

} // verus!
