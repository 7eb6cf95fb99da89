//! A verified UTF-8 validity check for label bytes, proved equivalent to
//! vstd's byte-level UTF-8 encoding specification.

use vstd::prelude::*;
use vstd::utf8::{
    codepoint_width_2, codepoint_width_3, codepoint_width_4, decode_first_codepoint,
    length_of_first_codepoint, not_surrogate, pop_first_scalar, valid_first_scalar,
    valid_leading_and_continuation_bytes_first_codepoint, valid_utf8,
};

verus! {

/// Whether the bytes of the sequence starting at `i` are valid UTF-8,
/// checked scalar by scalar.
fn check_utf8_from(bytes: &[u8], i: usize) -> (r: bool)
    requires
        i <= bytes@.len(),
    ensures
        r == valid_utf8(bytes@.skip(i as int)),
    decreases bytes@.len() - i,
{
    let ghost s = bytes@.skip(i as int);
    if i == bytes.len() {
        proof {
            assert(s =~= Seq::<u8>::empty());
        }
        return true;
    }
    let n = bytes.len();
    let b0 = bytes[i];
    proof {
        assert(s.len() == n - i);
        assert(s[0] == b0);
    }
    if b0 <= 0x7f {
        // A one-byte scalar: never overlong, and far below the surrogates.
        proof {
            assert((b0 & 0x7f) <= 0x7f) by (bit_vector);
            assert(valid_first_scalar(s));
            assert(pop_first_scalar(s) =~= bytes@.skip(i + 1));
        }
        check_utf8_from(bytes, i + 1)
    } else if b0 <= 0xbf {
        // A stray continuation byte: no leading-byte pattern matches.
        proof {
            assert(!valid_leading_and_continuation_bytes_first_codepoint(s));
        }
        false
    } else if b0 <= 0xdf {
        // A two-byte scalar needs one continuation byte, and a leading byte
        // of at least 0xc2, below which the encoding would be overlong.
        if n - i < 2 {
            proof {
                assert(!valid_leading_and_continuation_bytes_first_codepoint(s));
            }
            return false;
        }
        let b1 = bytes[i + 1];
        proof {
            assert(s[1] == b1);
        }
        if !(0x80 <= b1 && b1 <= 0xbf) {
            proof {
                assert(!valid_leading_and_continuation_bytes_first_codepoint(s));
            }
            return false;
        }
        if b0 < 0xc2 {
            proof {
                assert(decode_first_codepoint(s) == codepoint_width_2(b0, b1));
                assert(codepoint_width_2(b0, b1) < 0x80) by (bit_vector)
                    requires
                        0xc0 <= b0 <= 0xc1,
                        0x80 <= b1 <= 0xbf,
                ;
                assert(length_of_first_codepoint(s) == 2);
            }
            return false;
        }
        proof {
            assert(decode_first_codepoint(s) == codepoint_width_2(b0, b1));
            assert(0x80 <= codepoint_width_2(b0, b1) <= 0x7ff) by (bit_vector)
                requires
                    0xc2 <= b0 <= 0xdf,
                    0x80 <= b1 <= 0xbf,
            ;
            assert(length_of_first_codepoint(s) == 2);
            assert(valid_first_scalar(s));
            assert(pop_first_scalar(s) =~= bytes@.skip(i + 2));
        }
        check_utf8_from(bytes, i + 2)
    } else if b0 <= 0xef {
        // A three-byte scalar needs two continuation bytes; 0xe0 with a
        // second byte below 0xa0 would be overlong, and 0xed with a second
        // byte of 0xa0 or more would land in the surrogate range.
        if n - i < 3 {
            proof {
                assert(!valid_leading_and_continuation_bytes_first_codepoint(s));
            }
            return false;
        }
        let b1 = bytes[i + 1];
        let b2 = bytes[i + 2];
        proof {
            assert(s[1] == b1 && s[2] == b2);
        }
        if !(0x80 <= b1 && b1 <= 0xbf) || !(0x80 <= b2 && b2 <= 0xbf) {
            proof {
                assert(!valid_leading_and_continuation_bytes_first_codepoint(s));
            }
            return false;
        }
        proof {
            assert(decode_first_codepoint(s) == codepoint_width_3(b0, b1, b2));
            assert(length_of_first_codepoint(s) == 3);
            assert({
                let cp = codepoint_width_3(b0, b1, b2);
                &&& (cp >= 0x800 <==> !(b0 == 0xe0 && b1 < 0xa0))
                &&& (0xd800 <= cp <= 0xdfff <==> (b0 == 0xed && b1 >= 0xa0))
            }) by (bit_vector)
                requires
                    0xe0 <= b0 <= 0xef,
                    0x80 <= b1 <= 0xbf,
                    0x80 <= b2 <= 0xbf,
            ;
        }
        if (b0 == 0xe0 && b1 < 0xa0) || (b0 == 0xed && b1 >= 0xa0) {
            return false;
        }
        proof {
            assert(valid_first_scalar(s));
            assert(pop_first_scalar(s) =~= bytes@.skip(i + 3));
        }
        check_utf8_from(bytes, i + 3)
    } else if b0 <= 0xf7 {
        // A four-byte scalar needs three continuation bytes; 0xf0 with a
        // second byte below 0x90 would be overlong, and anything above
        // 0xf4/0x8f would pass the last scalar, 0x10ffff.
        if n - i < 4 {
            proof {
                assert(!valid_leading_and_continuation_bytes_first_codepoint(s));
            }
            return false;
        }
        let b1 = bytes[i + 1];
        let b2 = bytes[i + 2];
        let b3 = bytes[i + 3];
        proof {
            assert(s[1] == b1 && s[2] == b2 && s[3] == b3);
        }
        if !(0x80 <= b1 && b1 <= 0xbf) || !(0x80 <= b2 && b2 <= 0xbf) || !(0x80 <= b3 && b3
            <= 0xbf) {
            proof {
                assert(!valid_leading_and_continuation_bytes_first_codepoint(s));
            }
            return false;
        }
        proof {
            assert(decode_first_codepoint(s) == codepoint_width_4(b0, b1, b2, b3));
            assert(length_of_first_codepoint(s) == 4);
            assert({
                let cp = codepoint_width_4(b0, b1, b2, b3);
                &&& (cp >= 0x10000 <==> !(b0 == 0xf0 && b1 < 0x90))
                &&& (cp <= 0x10ffff <==> (b0 < 0xf4 || (b0 == 0xf4 && b1 < 0x90)))
                &&& (cp >= 0x10000 ==> not_surrogate(cp))
            }) by (bit_vector)
                requires
                    0xf0 <= b0 <= 0xf7,
                    0x80 <= b1 <= 0xbf,
                    0x80 <= b2 <= 0xbf,
                    0x80 <= b3 <= 0xbf,
            ;
        }
        if (b0 == 0xf0 && b1 < 0x90) || !(b0 < 0xf4 || (b0 == 0xf4 && b1 < 0x90)) {
            return false;
        }
        proof {
            assert(valid_first_scalar(s));
            assert(pop_first_scalar(s) =~= bytes@.skip(i + 4));
        }
        check_utf8_from(bytes, i + 4)
    } else {
        // 0xf8 and above lead no scalar at all.
        proof {
            assert(!valid_leading_and_continuation_bytes_first_codepoint(s));
        }
        false
    }
}

/// Whether the bytes form a valid UTF-8 encoding, in the sense of vstd's
/// [`valid_utf8`].
pub fn is_valid_utf8(bytes: &[u8]) -> (r: bool)
    ensures
        r == valid_utf8(bytes@),
{
    let r = check_utf8_from(bytes, 0);
    proof {
        assert(bytes@.skip(0) =~= bytes@);
    }
    r
}

} // verus!
