//! UTF-8 validity of byte strings, stated byte-by-byte and checked by a
//! verified scanner. Status and error lines must be text; bulk payloads are
//! exempt and stay binary-safe.

use vstd::prelude::*;

verus! {

/// A continuation byte, `0x80` through `0xBF`.
pub open spec fn is_utf8_cont(b: u8) -> bool {
    128 <= b && b <= 191
}

/// Valid UTF-8, by the standard byte-class table: ASCII stands alone;
/// `0xC2`-`0xDF` lead a two-byte character; `0xE0`, `0xED` and the other
/// three-byte leads constrain their first continuation to exclude overlong
/// forms and surrogates; `0xF0`-`0xF4` lead four-byte characters up to
/// `U+10FFFF`.
pub open spec fn is_utf8(s: Seq<u8>) -> bool
    decreases s.len(),
{
    if s.len() == 0 {
        true
    } else {
        let b0 = s[0];
        if b0 < 128 {
            is_utf8(s.skip(1))
        } else if 194 <= b0 && b0 <= 223 {
            s.len() >= 2 && is_utf8_cont(s[1]) && is_utf8(s.skip(2))
        } else if b0 == 224 {
            s.len() >= 3 && 160 <= s[1] && s[1] <= 191 && is_utf8_cont(s[2]) && is_utf8(s.skip(3))
        } else if b0 == 237 {
            s.len() >= 3 && 128 <= s[1] && s[1] <= 159 && is_utf8_cont(s[2]) && is_utf8(s.skip(3))
        } else if (225 <= b0 && b0 <= 236) || b0 == 238 || b0 == 239 {
            s.len() >= 3 && is_utf8_cont(s[1]) && is_utf8_cont(s[2]) && is_utf8(s.skip(3))
        } else if b0 == 240 {
            s.len() >= 4 && 144 <= s[1] && s[1] <= 191 && is_utf8_cont(s[2]) && is_utf8_cont(s[3])
                && is_utf8(s.skip(4))
        } else if 241 <= b0 && b0 <= 243 {
            s.len() >= 4 && is_utf8_cont(s[1]) && is_utf8_cont(s[2]) && is_utf8_cont(s[3])
                && is_utf8(s.skip(4))
        } else if b0 == 244 {
            s.len() >= 4 && 128 <= s[1] && s[1] <= 143 && is_utf8_cont(s[2]) && is_utf8_cont(s[3])
                && is_utf8(s.skip(4))
        } else {
            false
        }
    }
}

/// A string of ASCII bytes is valid UTF-8.
pub proof fn lemma_ascii_is_utf8(s: Seq<u8>)
    requires
        forall|i: int| 0 <= i < s.len() ==> #[trigger] s[i] < 128,
    ensures
        is_utf8(s),
    decreases s.len(),
{
    if s.len() > 0 {
        assert(forall|i: int| 0 <= i < s.skip(1).len() ==> #[trigger] s.skip(1)[i] < 128);
        lemma_ascii_is_utf8(s.skip(1));
    }
}

/// Reports whether `s` is valid UTF-8.
#[verifier::loop_isolation(false)]
pub fn check_utf8(s: &Vec<u8>) -> (r: bool)
    ensures
        r == is_utf8(s@),
{
    let n = s.len();
    let mut i: usize = 0;
    proof {
        assert(s@.skip(0) =~= s@);
    }
    while i < n
        invariant
            0 <= i <= n,
            is_utf8(s@) == is_utf8(s@.skip(i as int)),
        decreases n - i,
    {
        let b0 = s[i];
        let width: usize;
        if b0 < 128 {
            width = 1;
        } else if 194 <= b0 && b0 <= 223 {
            if n - i < 2 || !(128 <= s[i + 1] && s[i + 1] <= 191) {
                return false;
            }
            width = 2;
        } else if b0 == 224 {
            if n - i < 3 || !(160 <= s[i + 1] && s[i + 1] <= 191)
                || !(128 <= s[i + 2] && s[i + 2] <= 191) {
                return false;
            }
            width = 3;
        } else if b0 == 237 {
            if n - i < 3 || !(128 <= s[i + 1] && s[i + 1] <= 159)
                || !(128 <= s[i + 2] && s[i + 2] <= 191) {
                return false;
            }
            width = 3;
        } else if (225 <= b0 && b0 <= 236) || b0 == 238 || b0 == 239 {
            if n - i < 3 || !(128 <= s[i + 1] && s[i + 1] <= 191)
                || !(128 <= s[i + 2] && s[i + 2] <= 191) {
                return false;
            }
            width = 3;
        } else if b0 == 240 {
            if n - i < 4 || !(144 <= s[i + 1] && s[i + 1] <= 191)
                || !(128 <= s[i + 2] && s[i + 2] <= 191)
                || !(128 <= s[i + 3] && s[i + 3] <= 191) {
                return false;
            }
            width = 4;
        } else if 241 <= b0 && b0 <= 243 {
            if n - i < 4 || !(128 <= s[i + 1] && s[i + 1] <= 191)
                || !(128 <= s[i + 2] && s[i + 2] <= 191)
                || !(128 <= s[i + 3] && s[i + 3] <= 191) {
                return false;
            }
            width = 4;
        } else if b0 == 244 {
            if n - i < 4 || !(128 <= s[i + 1] && s[i + 1] <= 143)
                || !(128 <= s[i + 2] && s[i + 2] <= 191)
                || !(128 <= s[i + 3] && s[i + 3] <= 191) {
                return false;
            }
            width = 4;
        } else {
            return false;
        }
        proof {
            assert(s@.skip(i as int).skip(width as int) =~= s@.skip(i + width));
        }
        i = i + width;
    }
    true
}

} // verus!
