//! PackBits-like run-length codec used for the planar pixel layouts.
//!
//! The stream is a concatenation of packets.  A header byte below 128
//! announces a literal packet: the header plus one is the number of data
//! bytes that follow verbatim (1 to 128).  A header byte of 128 or more
//! announces a run packet: one data byte follows, repeated header minus
//! 125 times (3 to 130).  Unlike classic PackBits there is no escape
//! byte, and runs always stand for at least three repeats.

use crate::IcnsError;
use vstd::prelude::*;

verus! {

/// How many consecutive bytes equal to `b` begin at position `i` of `x`.
pub open spec fn run_count(x: Seq<u8>, b: u8, i: int) -> nat
    decreases x.len() - i,
{
    if i < 0 || i >= x.len() || x[i] != b {
        0
    } else {
        1 + run_count(x, b, i + 1)
    }
}

/// Where the literal packet that started at `i` ends, scanning from `e`.
/// The scan stops at the end of the input, at the 128-byte cap, or two
/// bytes before a run of three identical bytes, which the next packet
/// will pick up.
pub open spec fn lit_end(x: Seq<u8>, i: int, e: int) -> int
    decreases x.len() - e,
{
    if e < i + 1 || e > x.len() {
        e
    } else if e == x.len() || e - i >= 128 {
        e
    } else if e - i >= 2 && x[e] == x[e - 1] && x[e - 1] == x[e - 2] {
        e - 2
    } else {
        lit_end(x, i, e + 1)
    }
}

/// Length of the run packet that begins at `i`: the run of equal bytes,
/// capped at 130 repeats.
pub open spec fn run_len(x: Seq<u8>, i: int) -> int {
    if run_count(x, x[i], i) >= 130 {
        130
    } else {
        run_count(x, x[i], i) as int
    }
}

pub proof fn lemma_run_count_props(x: Seq<u8>, b: u8, i: int)
    requires
        0 <= i <= x.len(),
    ensures
        i + run_count(x, b, i) <= x.len(),
        forall|j: int| i <= j < i + run_count(x, b, i) ==> x[j] == b,
        i + run_count(x, b, i) < x.len() ==> x[i + run_count(x, b, i)] != b,
        i < x.len() && x[i] == b ==> run_count(x, b, i) >= 1,
    decreases x.len() - i,
{
    if i < x.len() && x[i] == b {
        lemma_run_count_props(x, b, i + 1);
    }
}

pub proof fn lemma_lit_end_props(x: Seq<u8>, i: int, e: int)
    requires
        0 <= i,
        i + 1 <= e <= x.len(),
        e - i <= 128,
        !(x[i] == x[i + 1] && x[i + 1] == x[i + 2]),
    ensures
        i + 1 <= lit_end(x, i, e) <= x.len(),
        lit_end(x, i, e) - i <= 128,
    decreases x.len() - e,
{
    if e == x.len() || e - i >= 128 {
    } else if e - i >= 2 && x[e] == x[e - 1] && x[e - 1] == x[e - 2] {
        assert(e >= i + 3);
    } else {
        lemma_lit_end_props(x, i, e + 1);
    }
}

/// The byte stream the encoder produces for the suffix of `x` that
/// starts at `i`: the greedy packet decomposition described above.
pub open spec fn pb_encode_from(x: Seq<u8>, i: int) -> Seq<u8>
    decreases x.len() - i,
{
    if i < 0 || i >= x.len() {
        Seq::empty()
    } else if x.len() - i <= 2 {
        seq![(x.len() - i - 1) as u8] + x.subrange(i, x.len() as int)
    } else if x[i] == x[i + 1] && x[i + 1] == x[i + 2] {
        proof {
            lemma_run_count_props(x, x[i], i);
        }
        let n = run_len(x, i);
        seq![(n - 3 + 128) as u8, x[i]] + pb_encode_from(x, i + n)
    } else {
        proof {
            lemma_lit_end_props(x, i, i + 1);
        }
        let e = lit_end(x, i, i + 1);
        seq![(e - i - 1) as u8] + x.subrange(i, e) + pb_encode_from(x, e)
    }
}

/// What `compress` returns on input `x`.
pub open spec fn pb_encode(x: Seq<u8>) -> Seq<u8> {
    pb_encode_from(x, 0)
}

/// Packet-by-packet decoding of `s` from position `i`; `None` when a
/// packet would read past the end of the input.
pub open spec fn pb_decode_from(s: Seq<u8>, i: int) -> Option<Seq<u8>>
    decreases s.len() - i,
{
    if i < 0 {
        None
    } else if i >= s.len() {
        Some(Seq::empty())
    } else if s[i] >= 128 {
        if i + 2 <= s.len() {
            match pb_decode_from(s, i + 2) {
                Some(rest) => Some(Seq::new((s[i] - 128 + 3) as nat, |_k: int| s[i + 1]) + rest),
                None => None,
            }
        } else {
            None
        }
    } else {
        let n = s[i] + 1;
        if i + 1 + n <= s.len() {
            match pb_decode_from(s, i + 1 + n) {
                Some(rest) => Some(s.subrange(i + 1, i + 1 + n) + rest),
                None => None,
            }
        } else {
            None
        }
    }
}

/// What `decompress` reconstructs from a stream `s`, when it succeeds.
pub open spec fn pb_decode(s: Seq<u8>) -> Option<Seq<u8>> {
    pb_decode_from(s, 0)
}

/// Decoding ignores everything before the position it starts at: running
/// the decoder at offset `a.len() + j` of `a + b` is running it at offset
/// `j` of `b`.
proof fn lemma_decode_shift(a: Seq<u8>, b: Seq<u8>, j: int)
    requires
        0 <= j,
    ensures
        pb_decode_from(a + b, a.len() + j) == pb_decode_from(b, j),
    decreases b.len() - j,
{
    let s = a + b;
    let al = a.len() as int;
    if j >= b.len() {
    } else {
        assert(s[al + j] == b[j]);
        if b[j] >= 128 {
            if j + 2 <= b.len() {
                lemma_decode_shift(a, b, j + 2);
                assert(s[al + j + 1] == b[j + 1]);
                match pb_decode_from(b, j + 2) {
                    Some(rest) => {
                        assert(Seq::new((s[al + j] - 128 + 3) as nat, |_k: int| s[al + j + 1])
                            =~= Seq::new((b[j] - 128 + 3) as nat, |_k: int| b[j + 1]));
                    },
                    None => {},
                }
            }
        } else {
            let n = b[j] + 1;
            if j + 1 + n <= b.len() {
                lemma_decode_shift(a, b, j + 1 + n);
                match pb_decode_from(b, j + 1 + n) {
                    Some(rest) => {
                        assert(s.subrange(al + j + 1, al + j + 1 + n) =~= b.subrange(
                            j + 1,
                            j + 1 + n,
                        ));
                    },
                    None => {},
                }
            }
        }
    }
}

/// Decoding the encoding of the suffix of `x` at `i` recovers exactly
/// that suffix.
proof fn lemma_encode_decode_from(x: Seq<u8>, i: int)
    requires
        0 <= i <= x.len(),
    ensures
        pb_decode(pb_encode_from(x, i)) == Some(x.subrange(i, x.len() as int)),
    decreases x.len() - i,
{
    let len = x.len() as int;
    if i == len {
        assert(pb_encode_from(x, i) == Seq::<u8>::empty());
        assert(x.subrange(i, len) =~= Seq::<u8>::empty());
    } else if len - i <= 2 {
        let s = seq![(len - i - 1) as u8] + x.subrange(i, len);
        assert(pb_encode_from(x, i) == s);
        assert(s[0] == (len - i - 1) as u8);
        assert(s[0] < 128);
        let n = s[0] + 1;
        assert(n == len - i);
        assert(s.len() == 1 + n);
        assert(pb_decode_from(s, 1 + n) == Some(Seq::<u8>::empty()));
        assert(s.subrange(1, 1 + n) =~= x.subrange(i, len));
        assert(s.subrange(1, 1 + n) + Seq::<u8>::empty() =~= x.subrange(i, len));
    } else if x[i] == x[i + 1] && x[i + 1] == x[i + 2] {
        lemma_run_count_props(x, x[i], i);
        let n = run_len(x, i);
        assert(3 <= n <= 130);
        let hdr = seq![(n - 3 + 128) as u8, x[i]];
        let tail = pb_encode_from(x, i + n);
        assert(pb_encode_from(x, i) == hdr + tail);
        let s = hdr + tail;
        assert(s[0] == (n - 3 + 128) as u8);
        assert(s[0] == n + 125);
        assert(s[1] == x[i]);
        lemma_encode_decode_from(x, i + n);
        lemma_decode_shift(hdr, tail, 0);
        assert(pb_decode_from(s, 2) == Some(x.subrange(i + n, len)));
        let pkt = Seq::new((s[0] - 128 + 3) as nat, |_k: int| s[1]);
        assert(pkt.len() == n);
        assert(pkt =~= x.subrange(i, i + n));
        assert(x.subrange(i, i + n) + x.subrange(i + n, len) =~= x.subrange(i, len));
    } else {
        lemma_lit_end_props(x, i, i + 1);
        let e = lit_end(x, i, i + 1);
        let hdr = seq![(e - i - 1) as u8];
        let lit = x.subrange(i, e);
        let tail = pb_encode_from(x, e);
        assert(pb_encode_from(x, i) == hdr + lit + tail);
        let s = hdr + lit + tail;
        assert(s == (hdr + lit) + tail);
        assert(s[0] == (e - i - 1) as u8);
        assert(s[0] < 128);
        let n = s[0] + 1;
        assert(n == e - i);
        lemma_encode_decode_from(x, e);
        lemma_decode_shift(hdr + lit, tail, 0);
        assert(pb_decode_from(s, 1 + n) == Some(x.subrange(e, len)));
        assert(s.subrange(1, 1 + n) =~= x.subrange(i, e));
        assert(x.subrange(i, e) + x.subrange(e, len) =~= x.subrange(i, len));
    }
}

proof fn lemma_decode_concat_from(s1: Seq<u8>, s2: Seq<u8>, i: int)
    requires
        0 <= i <= s1.len(),
    ensures
        match (pb_decode_from(s1, i), pb_decode(s2)) {
            (Some(d1), Some(d2)) => pb_decode_from(s1 + s2, i) == Some(d1 + d2),
            _ => true,
        },
    decreases s1.len() - i,
{
    let s = s1 + s2;
    if pb_decode_from(s1, i) is Some && pb_decode(s2) is Some {
        let d2 = match pb_decode(s2) {
            Some(d) => d,
            None => Seq::empty(),
        };
        if i == s1.len() {
            lemma_decode_shift(s1, s2, 0);
            assert(Seq::<u8>::empty() + d2 =~= d2);
        } else {
            assert(s[i] == s1[i]);
            if s1[i] >= 128 {
                assert(i + 2 <= s1.len());
                lemma_decode_concat_from(s1, s2, i + 2);
                match pb_decode_from(s1, i + 2) {
                    Some(r1) => {
                        assert(s[i + 1] == s1[i + 1]);
                        let pkt1 = Seq::new((s1[i] - 128 + 3) as nat, |_k: int| s1[i + 1]);
                        let pkt = Seq::new((s[i] - 128 + 3) as nat, |_k: int| s[i + 1]);
                        assert(pkt =~= pkt1);
                        assert((pkt1 + r1) + d2 =~= pkt1 + (r1 + d2));
                    },
                    None => {},
                }
            } else {
                let n = s1[i] + 1;
                assert(i + 1 + n <= s1.len());
                lemma_decode_concat_from(s1, s2, i + 1 + n);
                match pb_decode_from(s1, i + 1 + n) {
                    Some(r1) => {
                        assert(s.subrange(i + 1, i + 1 + n) =~= s1.subrange(i + 1, i + 1 + n));
                        assert((s1.subrange(i + 1, i + 1 + n) + r1) + d2 =~= s1.subrange(
                            i + 1,
                            i + 1 + n,
                        ) + (r1 + d2));
                    },
                    None => {},
                }
            }
        }
    }
}

/// Complete packet streams concatenate: when two streams each decode,
/// their concatenation decodes to the two outputs back to back.
pub proof fn lemma_decode_concat(s1: Seq<u8>, s2: Seq<u8>)
    requires
        pb_decode(s1) is Some,
        pb_decode(s2) is Some,
    ensures
        match (pb_decode(s1), pb_decode(s2)) {
            (Some(d1), Some(d2)) => pb_decode(s1 + s2) == Some(d1 + d2),
            _ => false,
        },
{
    lemma_decode_concat_from(s1, s2, 0);
}

/// Round-trip law: for every byte sequence, decoding its encoding gives
/// the sequence back unchanged.
pub proof fn lemma_round_trip(x: Seq<u8>)
    ensures
        pb_decode(pb_encode(x)) == Some(x),
{
    lemma_encode_decode_from(x, 0);
    assert(x.subrange(0, x.len() as int) =~= x);
}

/// Every encoder output is parseable: the decoder never fails on it.
pub proof fn lemma_encode_parseable(x: Seq<u8>)
    ensures
        pb_decode(pb_encode(x)) is Some,
{
    lemma_round_trip(x);
}

/// Greedy PackBits-like encoder: runs of three or more identical bytes
/// become run packets, everything else is grouped into literal packets.
pub fn compress(raw: &Vec<u8>) -> (out: Vec<u8>)
    ensures
        out@ == pb_encode(raw@),
{
    let ghost x = raw@;
    let len = raw.len();
    let mut out: Vec<u8> = Vec::new();
    let mut i: usize = 0;
    while i < len
        invariant
            i <= len,
            len == x.len(),
            x == raw@,
            pb_encode(x) == out@ + pb_encode_from(x, i as int),
        decreases len - i,
    {
        let ghost out0 = out@;
        if len - i <= 2 {
            out.push((len - i - 1) as u8);
            let mut j = i;
            while j < len
                invariant
                    i <= j <= len,
                    len == x.len(),
                    x == raw@,
                    out@ == out0 + seq![(len - i - 1) as u8] + x.subrange(i as int, j as int),
                decreases len - j,
            {
                out.push(raw[j]);
                j += 1;
                proof {
                    assert(out@ =~= out0 + seq![(len - i - 1) as u8] + x.subrange(
                        i as int,
                        j as int,
                    ));
                }
            }
            proof {
                assert(pb_encode_from(x, i as int) == seq![(x.len() - i - 1) as u8] + x.subrange(
                    i as int,
                    x.len() as int,
                ));
                assert(out@ =~= out0 + pb_encode_from(x, i as int));
                assert(pb_encode_from(x, len as int) == Seq::<u8>::empty());
                assert(out@ + pb_encode_from(x, len as int) =~= out@);
            }
            i = len;
        } else if raw[i] == raw[i + 1] && raw[i + 1] == raw[i + 2] {
            let b = raw[i];
            let mut e = i;
            while e < len && e - i < 130 && raw[e] == b
                invariant
                    i <= e <= len,
                    e - i <= 130,
                    len == x.len(),
                    x == raw@,
                    b == x[i as int],
                    run_count(x, b, i as int) == (e - i) + run_count(x, b, e as int),
                decreases len - e,
            {
                e += 1;
            }
            let n = e - i;
            proof {
                lemma_run_count_props(x, b, i as int);
                assert(run_len(x, i as int) == n);
                assert(n >= 3);
            }
            out.push((n - 3 + 128) as u8);
            out.push(b);
            proof {
                assert(pb_encode_from(x, i as int) == seq![
                    (run_len(x, i as int) - 3 + 128) as u8,
                    x[i as int],
                ] + pb_encode_from(x, i as int + run_len(x, i as int)));
                assert(out@ =~= out0 + seq![(n - 3 + 128) as u8, b]);
                assert(out@ + pb_encode_from(x, e as int) =~= out0 + pb_encode_from(x, i as int));
            }
            i = e;
        } else {
            let mut e = i + 1;
            while e < len && e - i < 128 && (e - i < 2 || !(raw[e] == raw[e - 1] && raw[e - 1]
                == raw[e - 2]))
                invariant
                    i + 1 <= e <= len,
                    e - i <= 128,
                    len == x.len(),
                    x == raw@,
                    lit_end(x, i as int, e as int) == lit_end(x, i as int, i as int + 1),
                decreases len - e,
            {
                e += 1;
            }
            let efin = if e < len && e - i < 128 {
                e - 2
            } else {
                e
            };
            proof {
                lemma_lit_end_props(x, i as int, i as int + 1);
                assert(lit_end(x, i as int, i as int + 1) == efin);
            }
            out.push((efin - i - 1) as u8);
            let mut j = i;
            while j < efin
                invariant
                    i <= j <= efin <= len,
                    len == x.len(),
                    x == raw@,
                    out@ == out0 + seq![(efin - i - 1) as u8] + x.subrange(i as int, j as int),
                decreases efin - j,
            {
                out.push(raw[j]);
                j += 1;
                proof {
                    assert(out@ =~= out0 + seq![(efin - i - 1) as u8] + x.subrange(
                        i as int,
                        j as int,
                    ));
                }
            }
            proof {
                let e0 = lit_end(x, i as int, i as int + 1);
                assert(pb_encode_from(x, i as int) == seq![(e0 - i - 1) as u8] + x.subrange(
                    i as int,
                    e0,
                ) + pb_encode_from(x, e0));
                assert(out@ + pb_encode_from(x, efin as int) =~= out0 + pb_encode_from(
                    x,
                    i as int,
                ));
            }
            i = efin;
        }
    }
    proof {
        assert(pb_encode_from(x, i as int) == Seq::<u8>::empty());
        assert(out@ + pb_encode_from(x, i as int) =~= out@);
    }
    out
}

/// PackBits-like decoder: expands packets until the input is exhausted,
/// failing when a packet would read past the end of the input.
pub fn decompress(data: &Vec<u8>) -> (r: Result<Vec<u8>, IcnsError>)
    ensures
        match r {
            Ok(v) => pb_decode(data@) == Some(v@),
            Err(e) => pb_decode(data@) is None && e == IcnsError::TruncatedInput,
        },
{
    let ghost x = data@;
    let len = data.len();
    let mut out: Vec<u8> = Vec::new();
    let mut i: usize = 0;
    while i < len
        invariant
            i <= len,
            len == x.len(),
            x == data@,
            pb_decode(x) == match pb_decode_from(x, i as int) {
                Some(rest) => Some(out@ + rest),
                None => None::<Seq<u8>>,
            },
        decreases len - i,
    {
        let ghost out0 = out@;
        let h = data[i];
        if h >= 128 {
            if i + 1 < len {
                let b = data[i + 1];
                let count = (h - 128) as usize + 3;
                let mut k: usize = 0;
                while k < count
                    invariant
                        k <= count,
                        out@ == out0 + Seq::new(k as nat, |_j: int| b),
                    decreases count - k,
                {
                    out.push(b);
                    k += 1;
                    proof {
                        assert(out@ =~= out0 + Seq::new(k as nat, |_j: int| b));
                    }
                }
                proof {
                    let pkt = Seq::new((x[i as int] - 128 + 3) as nat, |_k: int| x[i as int + 1]);
                    assert(out@ =~= out0 + pkt);
                    match pb_decode_from(x, i as int + 2) {
                        Some(rest) => {
                            assert(pb_decode_from(x, i as int) == Some(pkt + rest));
                            assert(out0 + (pkt + rest) =~= out@ + rest);
                        },
                        None => {
                            assert(pb_decode_from(x, i as int) is None);
                        },
                    }
                }
                i += 2;
            } else {
                proof {
                    assert(pb_decode_from(x, i as int) is None);
                }
                return Err(IcnsError::TruncatedInput);
            }
        } else {
            let n = h as usize + 1;
            if len - (i + 1) >= n {
                let mut j = i + 1;
                while j < i + 1 + n
                    invariant
                        i + 1 <= j <= i + 1 + n <= len,
                        len == x.len(),
                        x == data@,
                        out@ == out0 + x.subrange(i as int + 1, j as int),
                    decreases i + 1 + n - j,
                {
                    out.push(data[j]);
                    j += 1;
                    proof {
                        assert(out@ =~= out0 + x.subrange(i as int + 1, j as int));
                    }
                }
                proof {
                    let pkt = x.subrange(i as int + 1, i as int + 1 + (x[i as int] + 1));
                    assert(out@ =~= out0 + pkt);
                    match pb_decode_from(x, i as int + 1 + (x[i as int] + 1)) {
                        Some(rest) => {
                            assert(pb_decode_from(x, i as int) == Some(pkt + rest));
                            assert(out0 + (pkt + rest) =~= out@ + rest);
                        },
                        None => {
                            assert(pb_decode_from(x, i as int) is None);
                        },
                    }
                }
                i = i + 1 + n;
            } else {
                proof {
                    assert(pb_decode_from(x, i as int) is None);
                }
                return Err(IcnsError::TruncatedInput);
            }
        }
    }
    proof {
        assert(pb_decode_from(x, i as int) == Some(Seq::<u8>::empty()));
        assert(out@ + Seq::<u8>::empty() =~= out@);
    }
    Ok(out)
}

} // verus!
