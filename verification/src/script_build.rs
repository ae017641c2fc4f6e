//! Verified construction of the reveal script: minimal push-data encoding,
//! the rune-name commitment, and the inscription envelope that carries the
//! optional content type and logo.

use vstd::prelude::*;

verus! {

/// The canonical script push of `data`: a length prefix in the smallest of
/// the four push forms, then the bytes themselves.
pub open spec fn push_encoding(data: Seq<u8>) -> Seq<u8> {
    if data.len() < 76 {
        seq![data.len() as u8] + data
    } else if data.len() < 256 {
        seq![0x4cu8, data.len() as u8] + data
    } else if data.len() < 65536 {
        seq![0x4du8, (data.len() % 256) as u8, ((data.len() / 256) % 256) as u8] + data
    } else {
        seq![
            0x4eu8,
            (data.len() % 256) as u8,
            ((data.len() / 256) % 256) as u8,
            ((data.len() / 65536) % 256) as u8,
            ((data.len() / 16777216) % 256) as u8,
        ] + data
    }
}

/// The rune-name commitment: the rune value in little-endian bytes, trimmed
/// to its minimal length.
pub open spec fn commitment_bytes(r: u128) -> Seq<u8>
    decreases r,
{
    if r == 0 {
        Seq::empty()
    } else {
        seq![(r % 256) as u8] + commitment_bytes((r / 256) as u128)
    }
}

/// The logo body split into pushes of at most 520 bytes, the script
/// interpreter's largest push.
pub open spec fn body_chunks(b: Seq<u8>) -> Seq<u8>
    decreases b.len(),
{
    if b.len() <= 520 {
        push_encoding(b)
    } else {
        push_encoding(b.subrange(0, 520)) + body_chunks(b.subrange(520, b.len() as int))
    }
}

/// The bytes an optional payload holds.
pub open spec fn opt_view(o: Option<Vec<u8>>) -> Option<Seq<u8>> {
    match o {
        Some(s) => Some(s@),
        None => None,
    }
}

/// The inscription envelope: a protocol frame (false-branch conditional
/// holding the protocol marker) with the optional content type under its
/// field tag, the rune-name commitment under its field tag, and the optional
/// logo as the body.
pub open spec fn envelope_spec(
    content_type: Option<Seq<u8>>,
    logo: Option<Seq<u8>>,
    rune: u128,
) -> Seq<u8> {
    seq![0x00u8, 0x63u8] + push_encoding(seq![0x6fu8, 0x72u8, 0x64u8]) + (match content_type {
        Some(ct) => push_encoding(seq![0x01u8]) + push_encoding(ct),
        None => Seq::<u8>::empty(),
    }) + push_encoding(seq![0x0du8]) + push_encoding(commitment_bytes(rune)) + (match logo {
        Some(b) => push_encoding(Seq::<u8>::empty()) + body_chunks(b),
        None => Seq::<u8>::empty(),
    }) + seq![0x68u8]
}

/// The single-leaf reveal script: pushes the 32-byte per-canister public key,
/// demands its signature, and appends the inscription envelope.
pub open spec fn reveal_script_spec(
    xonly: Seq<u8>,
    content_type: Option<Seq<u8>>,
    logo: Option<Seq<u8>>,
    rune: u128,
) -> Seq<u8> {
    push_encoding(xonly) + seq![0xacu8] + envelope_spec(content_type, logo, rune)
}

/// Powers of 256, for bounding byte lengths.
pub open spec fn pow256(k: nat) -> int
    decreases k,
{
    if k == 0 {
        1
    } else {
        256 * pow256((k - 1) as nat)
    }
}

/// A value below the `k`-th power of 256 commits to at most `k` bytes.
pub proof fn lemma_commitment_len(r: u128, k: nat)
    requires
        r < pow256(k),
    ensures
        commitment_bytes(r).len() <= k,
    decreases r,
{
    if r > 0 {
        if k == 0 {
            assert(false);
        } else {
            assert(pow256(k) == 256 * pow256((k - 1) as nat));
            assert(r / 256 < pow256((k - 1) as nat)) by (nonlinear_arith)
                requires
                    r < 256 * pow256((k - 1) as nat),
                    r > 0,
            {}
            lemma_commitment_len(r / 256, (k - 1) as nat);
        }
    }
}

/// Appends `data` to `out`.
pub fn append_bytes(out: &mut Vec<u8>, data: &Vec<u8>)
    ensures
        final(out)@ == old(out)@ + data@,
{
    let ghost base = out@;
    let n = data.len();
    let mut i: usize = 0;
    while i < n
        invariant
            n == data@.len(),
            i <= n,
            out@ == base + data@.subrange(0, i as int),
        decreases n - i,
    {
        out.push(data[i]);
        proof {
            assert(base + data@.subrange(0, i + 1) =~= (base + data@.subrange(0, i as int)).push(
                data@[i as int],
            ));
        }
        i += 1;
    }
    proof {
        assert(data@.subrange(0, n as int) =~= data@);
    }
}

/// Appends the canonical push of `data` to `out`.
pub fn push_data(out: &mut Vec<u8>, data: &Vec<u8>)
    requires
        data@.len() < 0x1_0000_0000,
    ensures
        final(out)@ == old(out)@ + push_encoding(data@),
{
    let ghost base = out@;
    let n = data.len();
    if n < 76 {
        out.push(n as u8);
        proof {
            assert(out@ =~= base + seq![n as u8]);
        }
    } else if n < 256 {
        out.push(0x4c);
        out.push(n as u8);
        proof {
            assert(out@ =~= base + seq![0x4cu8, n as u8]);
        }
    } else if n < 65536 {
        out.push(0x4d);
        out.push((n % 256) as u8);
        out.push(((n / 256) % 256) as u8);
        proof {
            assert(out@ =~= base + seq![0x4du8, (n % 256) as u8, ((n / 256) % 256) as u8]);
        }
    } else {
        out.push(0x4e);
        out.push((n % 256) as u8);
        out.push(((n / 256) % 256) as u8);
        out.push(((n / 65536) % 256) as u8);
        out.push(((n / 16777216) % 256) as u8);
        proof {
            assert(out@ =~= base + seq![
                0x4eu8,
                (n % 256) as u8,
                ((n / 256) % 256) as u8,
                ((n / 65536) % 256) as u8,
                ((n / 16777216) % 256) as u8,
            ]);
        }
    }
    append_bytes(out, data);
    proof {
        assert(out@ =~= base + push_encoding(data@));
    }
}

/// The rune-name commitment as bytes: minimal little-endian form.
pub fn rune_commitment(rune: u128) -> (r: Vec<u8>)
    ensures
        r@ == commitment_bytes(rune),
{
    let mut out: Vec<u8> = Vec::new();
    let mut v = rune;
    while v > 0
        invariant
            commitment_bytes(rune) == out@ + commitment_bytes(v),
        decreases v,
    {
        let ghost before = out@;
        out.push((v % 256) as u8);
        proof {
            assert(commitment_bytes(v) == seq![(v % 256) as u8] + commitment_bytes(
                (v / 256) as u128,
            ));
            assert(before + commitment_bytes(v) =~= out@ + commitment_bytes((v / 256) as u128));
        }
        v = v / 256;
    }
    proof {
        assert(out@ + commitment_bytes(v) =~= out@);
    }
    out
}

/// Builds the reveal script for the given per-canister key and issuance
/// payload.
pub fn build_reveal_script(
    xonly: &Vec<u8>,
    content_type: &Option<Vec<u8>>,
    logo: &Option<Vec<u8>>,
    rune: u128,
) -> (r: Vec<u8>)
    requires
        xonly@.len() == 32,
        content_type.is_some() ==> content_type.unwrap()@.len() < 0x1_0000_0000,
        logo.is_some() ==> logo.unwrap()@.len() < 0x1_0000_0000,
    ensures
        r@ == reveal_script_spec(xonly@, opt_view(*content_type), opt_view(*logo), rune),
{
    let mut out: Vec<u8> = Vec::new();
    push_data(&mut out, xonly);
    out.push(0xac);
    proof {
        assert(out@ =~= push_encoding(xonly@) + seq![0xacu8]);
    }
    let ghost head = out@;
    // envelope: frame opening and protocol marker
    out.push(0x00);
    out.push(0x63);
    let marker: Vec<u8> = vec![0x6f, 0x72, 0x64];
    proof {
        assert(marker@ =~= seq![0x6fu8, 0x72u8, 0x64u8]);
        assert(out@ =~= head + seq![0x00u8, 0x63u8]);
    }
    push_data(&mut out, &marker);
    // content type under its field tag
    match content_type {
        Some(ct) => {
            let tag: Vec<u8> = vec![0x01];
            proof {
                assert(tag@ =~= seq![0x01u8]);
            }
            push_data(&mut out, &tag);
            push_data(&mut out, ct);
        },
        None => {},
    }
    // rune-name commitment under its field tag
    let tag13: Vec<u8> = vec![0x0d];
    proof {
        assert(tag13@ =~= seq![0x0du8]);
    }
    push_data(&mut out, &tag13);
    let commitment = rune_commitment(rune);
    proof {
        assert(pow256(16) == 0x1_0000_0000_0000_0000_0000_0000_0000_0000) by {
            reveal_with_fuel(pow256, 17);
        }
        lemma_commitment_len(rune, 16);
    }
    push_data(&mut out, &commitment);
    // logo as the body, in bounded chunks
    match logo {
        Some(b) => {
            let empty: Vec<u8> = Vec::new();
            push_data(&mut out, &empty);
            let ghost target = out@ + body_chunks(b@);
            let n = b.len();
            let mut off: usize = 0;
            proof {
                assert(b@.subrange(0, n as int) =~= b@);
            }
            while n - off > 520
                invariant
                    n == b@.len(),
                    off <= n,
                    n < 0x1_0000_0000,
                    out@ + body_chunks(b@.subrange(off as int, n as int)) == target,
                decreases n - off,
            {
                let chunk = vstd::slice::slice_to_vec(
                    vstd::slice::slice_subrange(b.as_slice(), off, off + 520),
                );
                proof {
                    let restv = b@.subrange(off as int, n as int);
                    assert(chunk@ =~= restv.subrange(0, 520));
                    assert(restv.subrange(520, restv.len() as int) =~= b@.subrange(
                        off + 520,
                        n as int,
                    ));
                    assert(body_chunks(restv) == push_encoding(chunk@) + body_chunks(
                        b@.subrange(off + 520, n as int),
                    ));
                }
                let ghost before = out@;
                push_data(&mut out, &chunk);
                proof {
                    assert(out@ + body_chunks(b@.subrange(off + 520, n as int)) =~= before
                        + body_chunks(b@.subrange(off as int, n as int)));
                }
                off += 520;
            }
            let last = vstd::slice::slice_to_vec(
                vstd::slice::slice_subrange(b.as_slice(), off, n),
            );
            proof {
                assert(last@ =~= b@.subrange(off as int, n as int));
            }
            push_data(&mut out, &last);
        },
        None => {},
    }
    out.push(0x68);
    proof {
        let ctv = opt_view(*content_type);
        let lv = opt_view(*logo);
        assert(out@ =~= head + envelope_spec(ctv, lv, rune));
        assert(out@ =~= reveal_script_spec(xonly@, ctv, lv, rune));
    }
    out
}

} // verus!
