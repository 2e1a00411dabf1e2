//! The WebAssembly module preamble check.

use vstd::prelude::*;

use crate::errors::TranslateError;

verus! {

/// The 8-byte WebAssembly module preamble: magic `\0asm` followed by version 1.
pub open spec fn wasm_preamble() -> Seq<u8> {
    seq![0x00u8, 0x61u8, 0x73u8, 0x6du8, 0x01u8, 0x00u8, 0x00u8, 0x00u8]
}

/// Rejects input that cannot be a version-1 WebAssembly module, before any parsing.
pub fn validate_wasm_header(bytes: &[u8]) -> (r: Result<(), TranslateError>)
    ensures
        bytes@.len() < 8 ==> r == Err::<(), TranslateError>(
            TranslateError::HeaderTooShort { len: bytes@.len() as usize },
        ),
        bytes@.len() >= 8 && bytes@.subrange(0, 4) != wasm_preamble().subrange(0, 4) ==> r == Err::<
            (),
            TranslateError,
        >(TranslateError::BadMagic { found: [bytes@[0], bytes@[1], bytes@[2], bytes@[3]] }),
        bytes@.len() >= 8 && bytes@.subrange(0, 4) == wasm_preamble().subrange(0, 4)
            && bytes@.subrange(4, 8) != wasm_preamble().subrange(4, 8) ==> r == Err::<
            (),
            TranslateError,
        >(TranslateError::UnsupportedVersion { found: [bytes@[4], bytes@[5], bytes@[6], bytes@[7]] }),
        r is Ok <==> bytes@.len() >= 8 && bytes@.subrange(0, 8) == wasm_preamble(),
{
    if bytes.len() < 8 {
        return Err(TranslateError::HeaderTooShort { len: bytes.len() });
    }
    proof {
        assert(bytes@.subrange(0, 8) =~= bytes@.subrange(0, 4) + bytes@.subrange(4, 8));
        assert(wasm_preamble() =~= wasm_preamble().subrange(0, 4) + wasm_preamble().subrange(4, 8));
    }
    if !(bytes[0] == 0x00 && bytes[1] == 0x61 && bytes[2] == 0x73 && bytes[3] == 0x6d) {
        proof {
            if bytes@.subrange(0, 4) == wasm_preamble().subrange(0, 4) {
                assert(bytes@[0] == bytes@.subrange(0, 4)[0]);
                assert(bytes@[1] == bytes@.subrange(0, 4)[1]);
                assert(bytes@[2] == bytes@.subrange(0, 4)[2]);
                assert(bytes@[3] == bytes@.subrange(0, 4)[3]);
            }
        }
        return Err(TranslateError::BadMagic { found: [bytes[0], bytes[1], bytes[2], bytes[3]] });
    }
    proof {
        assert(bytes@.subrange(0, 4) =~= wasm_preamble().subrange(0, 4));
    }
    if !(bytes[4] == 0x01 && bytes[5] == 0x00 && bytes[6] == 0x00 && bytes[7] == 0x00) {
        proof {
            if bytes@.subrange(4, 8) == wasm_preamble().subrange(4, 8) {
                assert(bytes@[4] == bytes@.subrange(4, 8)[0]);
                assert(bytes@[5] == bytes@.subrange(4, 8)[1]);
                assert(bytes@[6] == bytes@.subrange(4, 8)[2]);
                assert(bytes@[7] == bytes@.subrange(4, 8)[3]);
            }
        }
        return Err(
            TranslateError::UnsupportedVersion { found: [bytes[4], bytes[5], bytes[6], bytes[7]] },
        );
    }
    proof {
        assert(bytes@.subrange(4, 8) =~= wasm_preamble().subrange(4, 8));
    }
    Ok(())
}

} // verus!
