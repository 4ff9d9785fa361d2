//! Just enough DER to find the SubjectPublicKeyInfo of an X.509
//! certificate and hash it for TLS pinning (RFC 7469).
use vstd::prelude::*;
use crate::primitives::{base64_standard, encode_base64_standard, sha256, sha256_digest};

verus! {

/// The big-endian value of some bytes.
pub open spec fn be_value(b: Seq<u8>) -> nat
    decreases b.len(),
{
    if b.len() == 0 { 0 } else { be_value(b.drop_last()) * 256 + b.last() as nat }
}

/// A DER length at the start of `input`: the length and how many bytes
/// encode it. Short form below `0x80`; long form with one to four length
/// bytes.
pub open spec fn der_len_spec(input: Seq<u8>) -> Option<(nat, nat)> {
    if input.len() == 0 {
        None
    } else if input[0] < 0x80 {
        Some((input[0] as nat, 1))
    } else {
        let n = input[0] - 0x80;
        if n == 0 || n > 4 || input.len() < 1 + n {
            None
        } else {
            Some((be_value(input.subrange(1, 1 + n)), (1 + n) as nat))
        }
    }
}

/// The contents of a SEQUENCE at the start of `input`, and what follows it.
pub open spec fn take_seq_spec(input: Seq<u8>) -> Option<(Seq<u8>, Seq<u8>)> {
    if input.len() == 0 || input[0] != 0x30 {
        None
    } else {
        match der_len_spec(input.drop_first()) {
            None => None,
            Some((len, hdr)) => {
                let start: int = 1 + hdr as int;
                if start + len as int > input.len() {
                    None
                } else {
                    Some((input.subrange(start, start + len), input.subrange(start + len, input.len() as int)))
                }
            },
        }
    }
}

/// The whole element (tag, length and contents) at the start of `input`,
/// and what follows it.
pub open spec fn take_full_spec(input: Seq<u8>) -> Option<(Seq<u8>, Seq<u8>)> {
    if input.len() == 0 {
        None
    } else {
        match der_len_spec(input.drop_first()) {
            None => None,
            Some((len, hdr)) => {
                let total: int = 1 + hdr as int + len as int;
                if total > input.len() {
                    None
                } else {
                    Some((input.subrange(0, total), input.subrange(total, input.len() as int)))
                }
            },
        }
    }
}

/// What follows the element at the start of `input`.
pub open spec fn skip_spec(input: Option<Seq<u8>>) -> Option<Seq<u8>> {
    match input {
        Some(i) => match take_full_spec(i) {
            Some((_, rest)) => Some(rest),
            None => None,
        },
        None => None,
    }
}

/// The SubjectPublicKeyInfo of a certificate: inside the certificate and
/// its TBS sequence, after an optional `[0]` version and the serial,
/// signature algorithm, issuer, validity and subject.
pub open spec fn spki_spec(der: Seq<u8>) -> Option<Seq<u8>> {
    match take_seq_spec(der) {
        None => None,
        Some((cert_body, _)) => match take_seq_spec(cert_body) {
            None => None,
            Some((tbs, _)) => {
                let start = if tbs.len() > 0 && tbs[0] == 0xa0 { skip_spec(Some(tbs)) } else { Some(tbs) };
                match skip_spec(skip_spec(skip_spec(skip_spec(skip_spec(start))))) {
                    Some(rest) => match take_full_spec(rest) {
                        Some((spki, _)) => Some(spki),
                        None => None,
                    },
                    None => None,
                }
            },
        },
    }
}

fn der_len(input: &[u8]) -> (r: Option<(usize, usize)>)
    ensures
        match r {
            Some((len, hdr)) => der_len_spec(input@) == Some((len as nat, hdr as nat)),
            None => der_len_spec(input@) is None,
        },
{
    if input.len() == 0 {
        return None;
    }
    let b = input[0];
    if b < 0x80 {
        return Some((b as usize, 1));
    }
    let n = (b & 0x7f) as usize;
    assert(b >= 0x80 ==> b & 0x7f == b - 0x80) by (bit_vector);
    if n == 0 || n > 4 || input.len() < 1 + n {
        return None;
    }
    let mut len: u64 = 0;
    let mut i: usize = 1;
    while i <= n
        invariant
            1 <= i <= n + 1,
            n <= 4,
            1 + n <= input@.len(),
            len == be_value(input@.subrange(1, i as int)),
            len < pow256((i - 1) as nat),
        decreases n + 1 - i,
    {
        proof {
            assert(input@.subrange(1, i + 1).drop_last() =~= input@.subrange(1, i as int));
            assert(input@.subrange(1, i + 1).last() == input@[i as int]);
            assert(pow256(i as nat) == pow256((i - 1) as nat) * 256);
            assert(len * 256 + input@[i as int] < pow256(i as nat)) by (nonlinear_arith)
                requires
                    len < pow256((i - 1) as nat),
                    pow256(i as nat) == pow256((i - 1) as nat) * 256,
                    input@[i as int] < 256,
            ;
            assert(pow256(i as nat) <= 0x1_0000_0000) by {
                lemma_pow256_le(i as nat);
            }
        }
        len = len * 256 + input[i] as u64;
        i = i + 1;
    }
    proof {
        lemma_pow256_le(n as nat);
    }
    Some((len as usize, 1 + n))
}

/// `256` to the power `k`.
pub open spec fn pow256(k: nat) -> nat
    decreases k,
{
    if k == 0 { 1 } else { pow256((k - 1) as nat) * 256 }
}

proof fn lemma_pow256_le(k: nat)
    requires
        k <= 4,
    ensures
        pow256(k) <= 0x1_0000_0000,
{
    assert(pow256(0) == 1);
    assert(pow256(1) == 256);
    assert(pow256(2) == 65536);
    assert(pow256(3) == 16777216);
    assert(pow256(4) == 0x1_0000_0000);
}

fn der_take_seq<'a>(input: &'a [u8]) -> (r: Option<(&'a [u8], &'a [u8])>)
    ensures
        match r {
            Some((body, rest)) => take_seq_spec(input@) == Some((body@, rest@)),
            None => take_seq_spec(input@) is None,
        },
{
    if input.len() == 0 || input[0] != 0x30 {
        return None;
    }
    let tail = vstd::slice::slice_subrange(input, 1, input.len());
    assert(tail@ =~= input@.drop_first());
    let (len, hdr) = match der_len(tail) {
        Some(p) => p,
        None => return None,
    };
    let start = 1 + hdr;
    if len > input.len() - start {
        return None;
    }
    Some((
        vstd::slice::slice_subrange(input, start, start + len),
        vstd::slice::slice_subrange(input, start + len, input.len()),
    ))
}

fn der_take_full<'a>(input: &'a [u8]) -> (r: Option<(&'a [u8], &'a [u8])>)
    ensures
        match r {
            Some((elem, rest)) => take_full_spec(input@) == Some((elem@, rest@)),
            None => take_full_spec(input@) is None,
        },
{
    if input.len() == 0 {
        return None;
    }
    let tail = vstd::slice::slice_subrange(input, 1, input.len());
    assert(tail@ =~= input@.drop_first());
    let (len, hdr) = match der_len(tail) {
        Some(p) => p,
        None => return None,
    };
    if len > input.len() - 1 - hdr {
        return None;
    }
    let total = 1 + hdr + len;
    Some((vstd::slice::slice_subrange(input, 0, total), vstd::slice::slice_subrange(input, total, input.len())))
}

fn der_skip<'a>(input: &'a [u8]) -> (r: Option<&'a [u8]>)
    ensures
        match r {
            Some(rest) => skip_spec(Some(input@)) == Some(rest@),
            None => skip_spec(Some(input@)) is None,
        },
{
    match der_take_full(input) {
        Some((_, rest)) => Some(rest),
        None => None,
    }
}

/// The DER SubjectPublicKeyInfo of an X.509 certificate, if the
/// certificate's outer structure can be walked.
pub fn spki_der_from_cert<'a>(der: &'a [u8]) -> (r: Option<&'a [u8]>)
    ensures
        match r {
            Some(spki) => spki_spec(der@) == Some(spki@),
            None => spki_spec(der@) is None,
        },
{
    let (cert_body, _) = match der_take_seq(der) {
        Some(p) => p,
        None => return None,
    };
    let (tbs, _) = match der_take_seq(cert_body) {
        Some(p) => p,
        None => return None,
    };
    let mut rest = tbs;
    if rest.len() > 0 && rest[0] == 0xa0 {
        rest = match der_skip(rest) {
            Some(r) => r,
            None => return None,
        };
    }
    let mut k: usize = 0;
    let ghost start = if tbs@.len() > 0 && tbs@[0] == 0xa0 { skip_spec(Some(tbs@)) } else { Some(tbs@) };
    assert(start == Some(rest@));
    proof {
        reveal_with_fuel(skip_n, 6);
    }
    while k < 5
        invariant
            k <= 5,
            spki_spec(der@) == match skip_n(Some(rest@), (5 - k) as nat) {
                Some(r) => match take_full_spec(r) {
                    Some((spki, _)) => Some(spki),
                    None => None,
                },
                None => None,
            },
        decreases 5 - k,
    {
        assert(skip_n(Some(rest@), (5 - k) as nat) == skip_n(skip_spec(Some(rest@)), (5 - k - 1) as nat)) by {
            lemma_skip_n_front(Some(rest@), (5 - k - 1) as nat);
        }
        rest = match der_skip(rest) {
            Some(r) => r,
            None => {
                proof { lemma_skip_n_none((5 - k - 1) as nat); }
                return None;
            }
        };
        k = k + 1;
    }
    match der_take_full(rest) {
        Some((spki, _)) => Some(spki),
        None => None,
    }
}

/// `skip_spec` applied `k` times.
pub open spec fn skip_n(o: Option<Seq<u8>>, k: nat) -> Option<Seq<u8>>
    decreases k,
{
    if k == 0 { o } else { skip_spec(skip_n(o, (k - 1) as nat)) }
}

proof fn lemma_skip_n_front(o: Option<Seq<u8>>, k: nat)
    ensures
        skip_n(o, k + 1) == skip_n(skip_spec(o), k),
    decreases k,
{
    assert(skip_n(o, k + 1) == skip_spec(skip_n(o, k)));
    if k > 0 {
        lemma_skip_n_front(o, (k - 1) as nat);
        assert(skip_n(skip_spec(o), k) == skip_spec(skip_n(skip_spec(o), (k - 1) as nat)));
    } else {
        assert(skip_n(o, 0) == o);
        assert(skip_n(skip_spec(o), 0) == skip_spec(o));
    }
}

proof fn lemma_skip_n_none(k: nat)
    ensures
        skip_n(None, k) is None,
    decreases k,
{
    if k > 0 {
        lemma_skip_n_none((k - 1) as nat);
    }
}

/// The pin of a certificate: standard base64 of the SHA-256 of its
/// SubjectPublicKeyInfo.
pub fn spki_sha256_b64(der: &[u8]) -> (r: Option<String>)
    ensures
        match r {
            Some(s) => spki_spec(der@) matches Some(spki) && s@ == base64_standard(sha256(spki)),
            None => spki_spec(der@) is None,
        },
{
    let spki = match spki_der_from_cert(der) {
        Some(s) => s,
        None => return None,
    };
    let hash = sha256_digest(spki);
    Some(encode_base64_standard(hash.as_slice()))
}

} // verus!
