//! Video metadata records and the frame-rate notation.
//!
//! The metadata probe itself is an external invocation whose structured
//! output the surrounding binary decodes; the verified side owns the
//! record type and the parser for the probe's fraction-or-decimal
//! frame-rate notation.

use vstd::prelude::*;
use vstd::string::StrSliceExecFns;
use vstd::string::StringSliceAdditionalSpecFns;

use crate::scene_detector::{spec_is_num_byte, spec_token_ms, token_ms};

verus! {

/// The metadata of one video: length, frame size, and the frame rate in
/// frames per thousand seconds.
#[derive(Debug, Clone, Copy, PartialEq, Eq, Structural)]
pub struct VideoInfo {
    pub duration_ms: u64,
    pub width: u32,
    pub height: u32,
    pub frame_rate_milli: u64,
}

/// All bytes are digits or dots.
pub open spec fn spec_all_num(s: Seq<u8>) -> bool {
    forall|k: int| 0 <= k < s.len() ==> spec_is_num_byte(#[trigger] s[k])
}

/// The position of the first slash, or the text's length.
pub open spec fn spec_slash_pos(s: Seq<u8>, i: int) -> int
    decreases s.len() - i,
{
    if i >= s.len() {
        s.len() as int
    } else if s[i] == 47 {
        i
    } else {
        spec_slash_pos(s, i + 1)
    }
}

/// The frame rate named by a probe text, in frames per thousand seconds:
/// either `numerator/denominator` (both decimal numbers, the denominator
/// positive) or one plain decimal number.  A malformed notation, or a
/// number beyond the machine word, yields nothing.
pub open spec fn spec_frame_rate_milli(bytes: Seq<u8>) -> Option<int> {
    let slash = spec_slash_pos(bytes, 0);
    if slash == bytes.len() {
        if spec_all_num(bytes) {
            spec_token_ms(bytes)
        } else {
            None
        }
    } else {
        let numpart = bytes.take(slash);
        let denpart = bytes.skip(slash + 1);
        if spec_all_num(numpart) && spec_all_num(denpart) {
            let num = spec_token_ms(numpart);
            let den = spec_token_ms(denpart);
            if num is Some && den is Some && 0 < den.unwrap() <= u64::MAX && num.unwrap()
                <= u64::MAX {
                Some(num.unwrap() * 1000 / den.unwrap())
            } else {
                None
            }
        } else {
            None
        }
    }
}

/// The first slash lies between the start offset and the text's end.
proof fn lemma_slash_pos_bounds(s: Seq<u8>, i: int)
    requires
        0 <= i <= s.len(),
    ensures
        i <= spec_slash_pos(s, i) <= s.len(),
    decreases s.len() - i,
{
    if i < s.len() && s[i] != 47 {
        lemma_slash_pos_bounds(s, i + 1);
    }
}

/// Copies a numeric window of the text, or reports a stray byte.
fn numeric_window(bytes: &Vec<u8>, lo: usize, hi: usize) -> (r: Option<Vec<u8>>)
    requires
        lo <= hi <= bytes@.len(),
    ensures
        match r {
            Some(v) => v@ == bytes@.subrange(lo as int, hi as int) && spec_all_num(v@),
            None => !spec_all_num(bytes@.subrange(lo as int, hi as int)),
        },
{
    let mut v: Vec<u8> = Vec::new();
    let mut k: usize = lo;
    while k < hi
        invariant
            lo <= k <= hi,
            hi <= bytes@.len(),
            v@ == bytes@.subrange(lo as int, k as int),
            forall|m: int| lo <= m < k ==> spec_is_num_byte(#[trigger] bytes@[m]),
        decreases hi - k,
    {
        let b = bytes[k];
        if !((48 <= b && b <= 57) || b == 46) {
            proof {
                assert(bytes@.subrange(lo as int, hi as int)[k - lo] == bytes@[k as int]);
            }
            return None;
        }
        v.push(b);
        proof {
            assert(v@ =~= bytes@.subrange(lo as int, k as int + 1));
        }
        k += 1;
    }
    proof {
        assert forall|m: int| 0 <= m < v@.len() implies spec_is_num_byte(#[trigger] v@[m]) by {
            assert(v@[m] == bytes@[lo + m]);
        }
    }
    Some(v)
}

/// Parses the probe's frame-rate notation into frames per thousand
/// seconds.
pub fn parse_frame_rate(rate: &str) -> (r: Option<u64>)
    ensures
        match r {
            Some(w) => spec_frame_rate_milli(rate.spec_bytes()) == Some(w as int),
            None => spec_frame_rate_milli(rate.spec_bytes()) is None || spec_frame_rate_milli(
                rate.spec_bytes(),
            ).unwrap() > u64::MAX,
        },
{
    let bytes: Vec<u8> = rate.as_bytes_vec();
    let n = bytes.len();
    proof {
        lemma_slash_pos_bounds(bytes@, 0);
    }
    let mut slash: usize = 0;
    while slash < n && bytes[slash] != 47
        invariant
            slash <= n,
            n == bytes@.len(),
            spec_slash_pos(bytes@, 0) == spec_slash_pos(bytes@, slash as int),
        decreases n - slash,
    {
        slash += 1;
    }
    proof {
        if slash < n {
            assert(spec_slash_pos(bytes@, slash as int) == slash);
        } else {
            assert(spec_slash_pos(bytes@, slash as int) == n);
        }
    }
    if slash == n {
        match numeric_window(&bytes, 0, n) {
            Some(tok) => {
                proof {
                    assert(bytes@.subrange(0, n as int) =~= bytes@);
                    assert(tok@ =~= bytes@);
                }
                token_ms(&tok)
            },
            None => {
                proof {
                    assert(bytes@.subrange(0, n as int) =~= bytes@);
                }
                None
            },
        }
    } else {
        proof {
            assert(bytes@.take(slash as int) =~= bytes@.subrange(0, slash as int));
            assert(bytes@.skip(slash as int + 1) =~= bytes@.subrange(slash as int + 1, n as int));
        }
        let num_tok = match numeric_window(&bytes, 0, slash) {
            Some(t) => t,
            None => {
                return None;
            },
        };
        let den_tok = match numeric_window(&bytes, slash + 1, n) {
            Some(t) => t,
            None => {
                return None;
            },
        };
        let num = match token_ms(&num_tok) {
            Some(v) => v,
            None => {
                return None;
            },
        };
        let den = match token_ms(&den_tok) {
            Some(v) => v,
            None => {
                return None;
            },
        };
        if den == 0 {
            return None;
        }
        let q: u128 = (num as u128) * 1000 / (den as u128);
        proof {
            assert((num as int) * 1000 <= 0xFFFF_FFFF_FFFF_FFFF * 1000) by (nonlinear_arith)
                requires
                    0 <= num as int <= 0xFFFF_FFFF_FFFF_FFFF,
            ;
        }
        if q > u64::MAX as u128 {
            return None;
        }
        Some(q as u64)
    }
}

} // verus!
