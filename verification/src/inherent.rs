//! The inherent protocol's identifier, call, and error payload, with the
//! error's byte encoding and its decoder.

use vstd::prelude::*;
use vstd::slice::slice_subrange;
use vstd::utf8::decode_utf8;
use vstd::utf8::encode_utf8;
use vstd::utf8::encode_utf8_decode_utf8;
use vstd::utf8::encode_utf8_valid_utf8;
use vstd::utf8::valid_utf8;

use crate::scale::compact_u32_decode;
use crate::scale::compact_u32_decoding;
use crate::scale::compact_u32_encode;
use crate::scale::compact_u32_encoding;
use crate::scale::lemma_compact_u32_round_trip;

verus! {

/// The inherent identifier, the bytes of `relsroot`.
pub const INHERENT_IDENTIFIER: [u8; 8] = [0x72, 0x65, 0x6c, 0x73, 0x72, 0x6f, 0x6f, 0x74];

/// The pallet's dispatchable operations: only the zero-argument update.
#[derive(Clone, Copy, PartialEq, Eq, Structural, Debug)]
pub enum Call {
    SetRelayStorageRoot,
}

/// The error handed to a block producer that omitted the mandatory inherent.
/// Its single variant is always fatal: a block lacking the inherent is invalid.
#[derive(Clone, PartialEq, Eq, Debug)]
pub enum InherentError {
    Other(String),
}

/// The byte encoding of an inherent error carrying `msg`: the variant tag,
/// then the message's UTF-8 bytes behind their compact-encoded length.
pub open spec fn inherent_error_encoding(msg: Seq<char>) -> Seq<u8>
    recommends
        encode_utf8(msg).len() < 0x1_0000_0000,
{
    seq![0u8] + compact_u32_encoding(encode_utf8(msg).len() as u32) + encode_utf8(msg)
}

/// Reads one encoded inherent error from the front of `data`, tolerating
/// trailing bytes: the tag must be the single known variant, the declared
/// payload must be present in full and be valid UTF-8.
pub open spec fn inherent_error_decoding(data: Seq<u8>) -> Option<Seq<char>> {
    if data.len() == 0 || data[0] != 0u8 {
        None
    } else {
        let rest = data.subrange(1, data.len() as int);
        match compact_u32_decoding(rest) {
            Some(v) => {
                let payload = rest.subrange(v.1, rest.len() as int);
                if payload.len() >= v.0 && valid_utf8(payload.subrange(0, v.0 as int)) {
                    Some(decode_utf8(payload.subrange(0, v.0 as int)))
                } else {
                    None
                }
            },
            _ => None,
        }
    }
}

/// Relies on core::str::from_utf8: it returns `Ok` exactly when the bytes
/// are valid UTF-8, and the resulting str is their decoding.
#[verifier::external_body]
fn utf8_to_str(v: &[u8]) -> (r: Option<&str>)
    ensures
        r is Some <==> valid_utf8(v@),
        r matches Some(s) ==> s@ == decode_utf8(v@),
{
    core::str::from_utf8(v).ok()
}

impl InherentError {
    /// The characters of the error's message.
    pub open spec fn spec_message(&self) -> Seq<char> {
        match self {
            InherentError::Other(m) => m@,
        }
    }

    /// The single variant is a fatal block-validity error; there is no
    /// non-fatal error path.
    pub fn is_fatal_error(&self) -> (r: bool)
        ensures
            r,
    {
        match *self {
            InherentError::Other(_) => true,
        }
    }

    /// The canonical byte encoding of this error. Only a message whose UTF-8
    /// bytes overflow the 32-bit length counter cannot be encoded.
    pub fn encode(&self) -> (r: Option<Vec<u8>>)
        ensures
            r is Some <==> encode_utf8(self.spec_message()).len() < 0x1_0000_0000,
            r matches Some(v) ==> v@ == inherent_error_encoding(self.spec_message()),
    {
        match self {
            InherentError::Other(m) => {
                let bytes: &[u8] = m.as_str().as_bytes();
                let n = bytes.len();
                if n as u64 >= 0x1_0000_0000u64 {
                    return Option::<Vec<u8>>::None;
                }
                let mut out: Vec<u8> = Vec::new();
                out.push(0u8);
                proof {
                    assert(out@ =~= seq![0u8]);
                }
                compact_u32_encode(n as u32, &mut out);
                let mut i: usize = 0;
                while i < n
                    invariant
                        i <= n,
                        n == bytes@.len(),
                        n < 0x1_0000_0000,
                        out@ == seq![0u8] + compact_u32_encoding(n as u32) + bytes@.subrange(
                            0,
                            i as int,
                        ),
                    decreases n - i,
                {
                    out.push(bytes[i]);
                    i += 1;
                    proof {
                        assert(out@ =~= seq![0u8] + compact_u32_encoding(n as u32)
                            + bytes@.subrange(0, i as int));
                    }
                }
                proof {
                    assert(bytes@.subrange(0, n as int) =~= bytes@);
                    assert(out@ =~= inherent_error_encoding(self.spec_message()));
                }
                Some(out)
            },
        }
    }

    /// Reads one encoded inherent error from the front of `data`.
    fn decode(data: &[u8]) -> (r: Option<InherentError>)
        ensures
            match r {
                Some(e) => inherent_error_decoding(data@) == Some(e.spec_message()),
                _ => inherent_error_decoding(data@) is None,
            },
    {
        if data.len() == 0 {
            return None;
        }
        if data[0] != 0 {
            return None;
        }
        let rest = slice_subrange(data, 1, data.len());
        match compact_u32_decode(rest) {
            Some((n, used)) => {
                proof {
                    assert(used <= rest@.len());
                }
                let avail = rest.len() - used;
                if (n as usize) > avail {
                    return None;
                }
                let payload = slice_subrange(rest, used, used + n as usize);
                proof {
                    assert(payload@ =~= rest@.subrange(used as int, rest@.len() as int).subrange(
                        0,
                        n as int,
                    ));
                }
                match utf8_to_str(payload) {
                    Some(s) => Some(InherentError::Other(s.to_owned())),
                    _ => None,
                }
            },
            _ => None,
        }
    }

    /// Reconstructs an inherent error from an identifier and encoded bytes:
    /// the identifier must be this pallet's, and the bytes must decode.
    pub fn try_from(id: &[u8; 8], data: &[u8]) -> (r: Option<InherentError>)
        ensures
            match r {
                Some(e) => id@ == INHERENT_IDENTIFIER@ && inherent_error_decoding(data@) == Some(
                    e.spec_message(),
                ),
                _ => id@ != INHERENT_IDENTIFIER@ || inherent_error_decoding(data@) is None,
            },
    {
        let mut i: usize = 0;
        while i < 8
            invariant
                i <= 8,
                forall|j: int| 0 <= j < i ==> id@[j] == INHERENT_IDENTIFIER@[j],
            decreases 8 - i,
        {
            if id[i] != INHERENT_IDENTIFIER[i] {
                proof {
                    assert(id@[i as int] != INHERENT_IDENTIFIER@[i as int]);
                }
                return None;
            }
            i += 1;
        }
        proof {
            assert(id@ =~= INHERENT_IDENTIFIER@);
        }
        Self::decode(data)
    }
}

/// The UTF-8 encoding of a character sequence takes at most four bytes per
/// character, so any message of fewer than a quarter-billion characters can
/// be encoded.
pub proof fn lemma_encode_utf8_len_bound(chars: Seq<char>)
    ensures
        encode_utf8(chars).len() <= 4 * chars.len(),
    decreases chars.len(),
{
    if chars.len() > 0 {
        lemma_encode_utf8_len_bound(chars.drop_first());
    }
}

/// Round trip: encoding an inherent error and decoding the bytes back, with
/// any trailing bytes, yields the original message.
pub proof fn lemma_inherent_error_codec_round_trip(msg: Seq<char>, tail: Seq<u8>)
    requires
        msg.len() < 0x4000_0000,
    ensures
        inherent_error_decoding(inherent_error_encoding(msg) + tail) == Some(msg),
{
    lemma_encode_utf8_len_bound(msg);
    let payload = encode_utf8(msg);
    let n = payload.len() as u32;
    let enc = inherent_error_encoding(msg);
    let bytes = enc + tail;
    assert(bytes[0] == 0u8);
    let rest = bytes.subrange(1, bytes.len() as int);
    assert(rest =~= compact_u32_encoding(n) + (payload + tail));
    lemma_compact_u32_round_trip(n, payload + tail);
    let used = compact_u32_encoding(n).len() as int;
    let p2 = rest.subrange(used, rest.len() as int);
    assert(p2 =~= payload + tail);
    assert(p2.subrange(0, n as int) =~= payload);
    encode_utf8_valid_utf8(msg);
    encode_utf8_decode_utf8(msg);
}

} // verus!
