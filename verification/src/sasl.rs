//! The SASL codec: base64 encoding and decoding of AUTH payloads, and
//! the splitting of a decoded PLAIN payload into its three NUL-separated
//! fields.
//!
//! The decoder is strict: it accepts exactly the canonical encodings,
//! so decoding is a partial inverse of encoding.

use vstd::prelude::*;

verus! {

/// The base64 alphabet: maps a sextet (a value below 64) to its byte.
pub open spec fn enc6(n: u8) -> u8 {
    if n < 26 {
        (65 + n) as u8  // 'A'..='Z'
    } else if n < 52 {
        (71 + n) as u8  // 'a'..='z'
    } else if n < 62 {
        (n - 4) as u8  // '0'..='9'
    } else if n == 62 {
        43  // '+'
    } else {
        47  // '/'
    }
}

/// The inverse alphabet: maps an alphabet byte back to its sextet.
pub open spec fn dec6(b: u8) -> Option<u8> {
    if 65 <= b <= 90 {
        Some((b - 65) as u8)
    } else if 97 <= b <= 122 {
        Some((b - 71) as u8)
    } else if 48 <= b <= 57 {
        Some((b + 4) as u8)
    } else if b == 43 {
        Some(62u8)
    } else if b == 47 {
        Some(63u8)
    } else {
        None
    }
}

proof fn lemma_dec6_enc6(n: u8)
    requires
        n < 64,
    ensures
        dec6(enc6(n)) == Some(n),
        enc6(n) != 61,
{
}

/// The four sextets that encode a full three-byte group.
pub open spec fn sextets3(b0: u8, b1: u8, b2: u8) -> (u8, u8, u8, u8) {
    (
        b0 >> 2,
        ((b0 & 3) << 4) | (b1 >> 4),
        ((b1 & 15) << 2) | (b2 >> 6),
        b2 & 63,
    )
}

/// base64 of a byte string, with `=` padding.
pub open spec fn encode_spec(s: Seq<u8>) -> Seq<u8>
    decreases s.len(),
{
    if s.len() == 0 {
        seq![]
    } else if s.len() == 1 {
        seq![enc6(s[0] >> 2), enc6((s[0] & 3) << 4), 61u8, 61u8]
    } else if s.len() == 2 {
        seq![enc6(s[0] >> 2), enc6(((s[0] & 3) << 4) | (s[1] >> 4)), enc6((s[1] & 15) << 2), 61u8]
    } else {
        let (a, b, c, d) = sextets3(s[0], s[1], s[2]);
        seq![enc6(a), enc6(b), enc6(c), enc6(d)] + encode_spec(s.skip(3))
    }
}

/// The three bytes a full group of four sextets decodes to.
pub open spec fn bytes3(a: u8, b: u8, c: u8, d: u8) -> (u8, u8, u8) {
    (
        (a << 2) | (b >> 4),
        (b << 4) | (c >> 2),
        (c << 6) | d,
    )
}

/// Strict base64 decoding: `None` unless the input is the canonical
/// encoding of some byte string; `Some` of that string otherwise.
pub open spec fn decode_spec(s: Seq<u8>) -> Option<Seq<u8>>
    decreases s.len(),
{
    if s.len() == 0 {
        Some(seq![])
    } else if s.len() < 4 {
        None
    } else if s.len() == 4 {
        // the final group: padding is allowed here and only here
        if s[3] == 61 && s[2] == 61 {
            match (dec6(s[0]), dec6(s[1])) {
                (Some(a), Some(b)) => if b & 15 == 0 {
                    Some(seq![(a << 2) | (b >> 4)])
                } else {
                    None
                },
                _ => None,
            }
        } else if s[3] == 61 {
            match (dec6(s[0]), dec6(s[1]), dec6(s[2])) {
                (Some(a), Some(b), Some(c)) => if c & 3 == 0 {
                    Some(seq![(a << 2) | (b >> 4), (b << 4) | (c >> 2)])
                } else {
                    None
                },
                _ => None,
            }
        } else {
            match (dec6(s[0]), dec6(s[1]), dec6(s[2]), dec6(s[3])) {
                (Some(a), Some(b), Some(c), Some(d)) => {
                    let (b0, b1, b2) = bytes3(a, b, c, d);
                    Some(seq![b0, b1, b2])
                },
                _ => None,
            }
        }
    } else {
        match (dec6(s[0]), dec6(s[1]), dec6(s[2]), dec6(s[3])) {
            (Some(a), Some(b), Some(c), Some(d)) => {
                let (b0, b1, b2) = bytes3(a, b, c, d);
                match decode_spec(s.skip(4)) {
                    Some(rest) => Some(seq![b0, b1, b2] + rest),
                    None => None,
                }
            },
            _ => None,
        }
    }
}

proof fn lemma_group_round_trip(b0: u8, b1: u8, b2: u8)
    ensures
        ({
            let (a, b, c, d) = sextets3(b0, b1, b2);
            a < 64 && b < 64 && c < 64 && d < 64 && bytes3(a, b, c, d) == (b0, b1, b2)
        }),
{
    let (a, b, c, d) = sextets3(b0, b1, b2);
    assert(b0 >> 2 < 64 && ((b0 & 3) << 4) | (b1 >> 4) < 64 && ((b1 & 15) << 2) | (b2 >> 6) < 64
        && b2 & 63 < 64) by (bit_vector);
    assert((((b0 >> 2) << 2) | ((((b0 & 3) << 4) | (b1 >> 4)) >> 4)) == b0) by (bit_vector);
    assert((((((b0 & 3) << 4) | (b1 >> 4)) << 4) | ((((b1 & 15) << 2) | (b2 >> 6)) >> 2)) == b1)
        by (bit_vector);
    assert((((((b1 & 15) << 2) | (b2 >> 6)) << 6) | (b2 & 63)) == b2) by (bit_vector);
}

proof fn lemma_encode_len(s: Seq<u8>)
    ensures
        s.len() == 0 ==> encode_spec(s).len() == 0,
        s.len() != 0 ==> encode_spec(s).len() >= 4,
    decreases s.len(),
{
    if s.len() > 2 {
        lemma_encode_len(s.skip(3));
    }
}

/// Law: strict decoding is a left inverse of encoding; every payload
/// comes back from its base64 form unchanged.
pub proof fn lemma_base64_round_trip(s: Seq<u8>)
    ensures
        decode_spec(encode_spec(s)) == Some(s),
    decreases s.len(),
{
    let e = encode_spec(s);
    if s.len() == 0 {
        assert(decode_spec(e) == Some(s));
    } else if s.len() == 1 {
        let b0 = s[0];
        assert(b0 >> 2 < 64 && (b0 & 3) << 4 < 64) by (bit_vector);
        lemma_dec6_enc6(b0 >> 2);
        lemma_dec6_enc6((b0 & 3) << 4);
        assert(((b0 & 3) << 4) & 15 == 0) by (bit_vector);
        assert((((b0 >> 2) << 2) | ((((b0 & 3) << 4)) >> 4)) == b0) by (bit_vector);
        assert(decode_spec(e).unwrap() =~= s);
    } else if s.len() == 2 {
        let b0 = s[0];
        let b1 = s[1];
        assert(b0 >> 2 < 64 && ((b0 & 3) << 4) | (b1 >> 4) < 64 && (b1 & 15) << 2 < 64)
            by (bit_vector);
        lemma_dec6_enc6(b0 >> 2);
        lemma_dec6_enc6(((b0 & 3) << 4) | (b1 >> 4));
        lemma_dec6_enc6((b1 & 15) << 2);
        assert(((b1 & 15) << 2) & 3 == 0) by (bit_vector);
        assert((((b0 >> 2) << 2) | ((((b0 & 3) << 4) | (b1 >> 4)) >> 4)) == b0) by (bit_vector);
        assert((((((b0 & 3) << 4) | (b1 >> 4)) << 4) | (((b1 & 15) << 2) >> 2)) == b1)
            by (bit_vector);
        assert(decode_spec(e).unwrap() =~= s);
    } else {
        let (a, b, c, d) = sextets3(s[0], s[1], s[2]);
        lemma_group_round_trip(s[0], s[1], s[2]);
        lemma_dec6_enc6(a);
        lemma_dec6_enc6(b);
        lemma_dec6_enc6(c);
        lemma_dec6_enc6(d);
        let rest = encode_spec(s.skip(3));
        assert(e == seq![enc6(a), enc6(b), enc6(c), enc6(d)] + rest);
        assert(e.skip(4) =~= rest);
        lemma_base64_round_trip(s.skip(3));
        lemma_encode_len(s.skip(3));
        if s.len() == 3 {
            assert(e.len() == 4);
            assert(decode_spec(e).unwrap() =~= s);
        } else {
            assert(e.len() > 4);
            assert(decode_spec(e).unwrap() =~= seq![s[0], s[1], s[2]] + s.skip(3));
            assert(seq![s[0], s[1], s[2]] + s.skip(3) =~= s);
        }
    }
}

/// The alphabet map, executable.
fn enc6_x(n: u8) -> (r: u8)
    requires
        n < 64,
    ensures
        r == enc6(n),
{
    if n < 26 {
        65 + n
    } else if n < 52 {
        71 + n
    } else if n < 62 {
        n - 4
    } else if n == 62 {
        43
    } else {
        47
    }
}

/// The inverse alphabet map, executable.
fn dec6_x(b: u8) -> (r: Option<u8>)
    ensures
        r == dec6(b),
{
    if 65 <= b && b <= 90 {
        Some(b - 65)
    } else if 97 <= b && b <= 122 {
        Some(b - 71)
    } else if 48 <= b && b <= 57 {
        Some(b + 4)
    } else if b == 43 {
        Some(62)
    } else if b == 47 {
        Some(63)
    } else {
        None
    }
}

/// base64-encodes a payload.
pub fn b64_encode(input: &[u8]) -> (r: Vec<u8>)
    ensures
        r@ == encode_spec(input@),
{
    let mut out: Vec<u8> = Vec::new();
    let mut i: usize = 0;
    proof {
        assert(input@.skip(0) =~= input@);
        assert(out@ + encode_spec(input@) =~= encode_spec(input@));
    }
    while input.len() - i >= 3
        invariant
            i <= input.len(),
            i % 3 == 0,
            encode_spec(input@) == out@ + encode_spec(input@.skip(i as int)),
        decreases input.len() - i,
    {
        let b0 = input[i];
        let b1 = input[i + 1];
        let b2 = input[i + 2];
        proof {
            lemma_group_round_trip(b0, b1, b2);
            assert(input@.skip(i as int).skip(3) =~= input@.skip(i + 3));
            assert(input@.skip(i as int).len() >= 3);
            assert(input@.skip(i as int)[0] == b0);
            assert(input@.skip(i as int)[1] == b1);
            assert(input@.skip(i as int)[2] == b2);
        }
        out.push(enc6_x(b0 >> 2));
        out.push(enc6_x(((b0 & 3) << 4) | (b1 >> 4)));
        out.push(enc6_x(((b1 & 15) << 2) | (b2 >> 6)));
        out.push(enc6_x(b2 & 63));
        i = i + 3;
    }
    if i == input.len() {
        proof {
            assert(input@.skip(i as int) =~= Seq::<u8>::empty());
            assert(out@ + encode_spec(input@.skip(i as int)) =~= out@);
        }
    } else if i + 1 == input.len() {
        let b0 = input[i];
        proof {
            assert(b0 >> 2 < 64 && (b0 & 3) << 4 < 64) by (bit_vector);
            assert(input@.skip(i as int).len() == 1);
            assert(input@.skip(i as int)[0] == b0);
        }
        out.push(enc6_x(b0 >> 2));
        out.push(enc6_x((b0 & 3) << 4));
        out.push(61);
        out.push(61);
    } else {
        let b0 = input[i];
        let b1 = input[i + 1];
        proof {
            assert(b0 >> 2 < 64 && ((b0 & 3) << 4) | (b1 >> 4) < 64 && (b1 & 15) << 2 < 64)
                by (bit_vector);
            assert(input@.skip(i as int).len() == 2);
            assert(input@.skip(i as int)[0] == b0);
            assert(input@.skip(i as int)[1] == b1);
        }
        out.push(enc6_x(b0 >> 2));
        out.push(enc6_x(((b0 & 3) << 4) | (b1 >> 4)));
        out.push(enc6_x((b1 & 15) << 2));
        out.push(61);
    }
    out
}

/// Strictly base64-decodes a payload; `None` on anything that is not a
/// canonical encoding.
pub fn b64_decode(input: &[u8]) -> (r: Option<Vec<u8>>)
    ensures
        match r {
            Some(v) => decode_spec(input@) == Some(v@),
            None => decode_spec(input@) is None,
        },
{
    let n = input.len();
    if n % 4 != 0 {
        proof {
            lemma_decode_len_multiple(input@);
        }
        return None;
    }
    let mut out: Vec<u8> = Vec::new();
    let mut i: usize = 0;
    proof {
        assert(input@.skip(0) =~= input@);
        if decode_spec(input@) is Some {
            assert(out@ + decode_spec(input@).unwrap() =~= decode_spec(input@).unwrap());
        }
    }
    // all groups before the final one must be free of padding
    while n - i > 4
        invariant
            n == input.len(),
            i <= n,
            i % 4 == 0,
            n % 4 == 0,
            match decode_spec(input@.skip(i as int)) {
                Some(rest) => decode_spec(input@) == Some(out@ + rest),
                None => decode_spec(input@) is None,
            },
        decreases n - i,
    {
        let (a, b, c, d) = match (dec6_x(input[i]), dec6_x(input[i + 1]), dec6_x(input[i + 2]), dec6_x(input[i + 3])) {
            (Some(a), Some(b), Some(c), Some(d)) => (a, b, c, d),
            _ => {
                proof {
                    assert(input@.skip(i as int)[0] == input@[i as int]);
                    assert(input@.skip(i as int)[1] == input@[i as int + 1]);
                    assert(input@.skip(i as int)[2] == input@[i as int + 2]);
                    assert(input@.skip(i as int)[3] == input@[i as int + 3]);
                }
                return None;
            },
        };
        proof {
            assert(input@.skip(i as int)[0] == input@[i as int]);
            assert(input@.skip(i as int)[1] == input@[i as int + 1]);
            assert(input@.skip(i as int)[2] == input@[i as int + 2]);
            assert(input@.skip(i as int)[3] == input@[i as int + 3]);
            assert(input@.skip(i as int).skip(4) =~= input@.skip(i + 4));
        }
        out.push((a << 2) | (b >> 4));
        out.push((b << 4) | (c >> 2));
        out.push((c << 6) | d);
        i = i + 4;
    }
    if i == n {
        proof {
            assert(input@.skip(i as int) =~= Seq::<u8>::empty());
            assert(out@ + Seq::<u8>::empty() =~= out@);
        }
        return Some(out);
    }
    // the final group of four
    proof {
        assert(i + 4 == n);
        assert(input@.skip(i as int).len() == 4);
        assert(input@.skip(i as int)[0] == input@[i as int]);
        assert(input@.skip(i as int)[1] == input@[i as int + 1]);
        assert(input@.skip(i as int)[2] == input@[i as int + 2]);
        assert(input@.skip(i as int)[3] == input@[i as int + 3]);
    }
    let c2 = input[i + 2];
    let c3 = input[i + 3];
    if c3 == 61 && c2 == 61 {
        match (dec6_x(input[i]), dec6_x(input[i + 1])) {
            (Some(a), Some(b)) => {
                if b & 15 == 0 {
                    out.push((a << 2) | (b >> 4));
                    Some(out)
                } else {
                    None
                }
            },
            _ => None,
        }
    } else if c3 == 61 {
        match (dec6_x(input[i]), dec6_x(input[i + 1]), dec6_x(input[i + 2])) {
            (Some(a), Some(b), Some(c)) => {
                if c & 3 == 0 {
                    out.push((a << 2) | (b >> 4));
                    out.push((b << 4) | (c >> 2));
                    Some(out)
                } else {
                    None
                }
            },
            _ => None,
        }
    } else {
        match (dec6_x(input[i]), dec6_x(input[i + 1]), dec6_x(input[i + 2]), dec6_x(input[i + 3])) {
            (Some(a), Some(b), Some(c), Some(d)) => {
                out.push((a << 2) | (b >> 4));
                out.push((b << 4) | (c >> 2));
                out.push((c << 6) | d);
                Some(out)
            },
            _ => None,
        }
    }
}

proof fn lemma_decode_len_multiple(s: Seq<u8>)
    ensures
        decode_spec(s) is Some ==> s.len() % 4 == 0,
    decreases s.len(),
{
    if s.len() > 4 {
        lemma_decode_len_multiple(s.skip(4));
    }
}

/// The three fields of a SASL PLAIN payload, already base64-decoded.
pub struct Credentials {
    pub authorization_id: Vec<u8>,
    pub authentication_id: Vec<u8>,
    pub password: Vec<u8>,
}

/// Index of the first NUL byte, or the length when there is none.
pub open spec fn find_nul(s: Seq<u8>) -> int
    decreases s.len(),
{
    if s.len() == 0 {
        0
    } else if s[0] == 0 {
        0
    } else {
        1 + find_nul(s.skip(1))
    }
}

proof fn lemma_find_nul(s: Seq<u8>)
    ensures
        0 <= find_nul(s) <= s.len(),
        forall|j: int| 0 <= j < find_nul(s) ==> s[j] != 0,
        find_nul(s) < s.len() ==> s[find_nul(s)] == 0,
    decreases s.len(),
{
    if s.len() > 0 && s[0] != 0 {
        lemma_find_nul(s.skip(1));
        assert forall|j: int| 0 <= j < find_nul(s) implies s[j] != 0 by {
            if j > 0 {
                assert(s.skip(1)[j - 1] == s[j]);
            }
        }
        if find_nul(s) < s.len() {
            assert(s.skip(1)[find_nul(s) - 1] == s[find_nul(s)]);
        }
    }
}

/// The part before the first NUL.
pub open spec fn before_nul(s: Seq<u8>) -> Seq<u8> {
    s.take(find_nul(s))
}

/// The part after the first NUL; empty when there is none.
pub open spec fn after_nul(s: Seq<u8>) -> Seq<u8> {
    if find_nul(s) < s.len() {
        s.skip(find_nul(s) + 1)
    } else {
        seq![]
    }
}

/// Splits a byte string at its first NUL.
fn split_nul(s: &[u8]) -> (r: (Vec<u8>, Vec<u8>))
    ensures
        r.0@ == before_nul(s@),
        r.1@ == after_nul(s@),
{
    proof {
        lemma_find_nul(s@);
    }
    let mut i: usize = 0;
    let mut head: Vec<u8> = Vec::new();
    while i < s.len() && s[i] != 0
        invariant
            i <= s.len(),
            head@ =~= s@.take(i as int),
            forall|j: int| 0 <= j < i ==> s@[j] != 0,
        decreases s.len() - i,
    {
        head.push(s[i]);
        i = i + 1;
    }
    proof {
        lemma_find_nul_at(s@, i as int);
    }
    let mut tail: Vec<u8> = Vec::new();
    if i < s.len() {
        let mut k: usize = i + 1;
        while k < s.len()
            invariant
                i + 1 <= k <= s.len(),
                tail@ =~= s@.subrange(i + 1, k as int),
            decreases s.len() - k,
        {
            tail.push(s[k]);
            k = k + 1;
        }
        proof {
            assert(tail@ =~= s@.skip(i + 1));
        }
    } else {
        proof {
            assert(tail@ =~= after_nul(s@));
        }
    }
    (head, tail)
}

proof fn lemma_find_nul_at(s: Seq<u8>, i: int)
    requires
        0 <= i <= s.len(),
        forall|j: int| 0 <= j < i ==> s[j] != 0,
        i < s.len() ==> s[i] == 0,
    ensures
        find_nul(s) == i,
    decreases s.len(),
{
    lemma_find_nul(s);
    if find_nul(s) < i {
        assert(s[find_nul(s)] != 0);
    }
    if i < find_nul(s) {
        assert(s[i] != 0);
    }
}

/// The three fields of a PLAIN payload: the text before the first NUL,
/// the text between the first and the second, and the rest.
pub open spec fn plain_fields(s: Seq<u8>) -> (Seq<u8>, Seq<u8>, Seq<u8>) {
    (before_nul(s), before_nul(after_nul(s)), after_nul(after_nul(s)))
}

/// Splits a decoded SASL PLAIN payload into
/// `authorization-id NUL authentication-id NUL password`. A missing
/// separator leaves the later fields empty.
pub fn decode_sasl_plain(response: &[u8]) -> (r: Credentials)
    ensures
        (r.authorization_id@, r.authentication_id@, r.password@) == plain_fields(response@),
{
    let (authorization_id, rest) = split_nul(response);
    let (authentication_id, password) = split_nul(rest.as_slice());
    Credentials { authorization_id, authentication_id, password }
}

} // verus!
