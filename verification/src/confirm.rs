//! The decision core of the confirmation gate: classifying one line of
//! operator input as an affirmative, a negative, or invalid input.
//!
//! The prompt is repeated until a line resolves; reading those
//! lines is I/O and lives with the caller. Classification is pure: the
//! line is trimmed of surrounding whitespace and compared, ignoring ASCII
//! case, against the long and short forms of yes and no; an empty line
//! resolves to the default answer when one is given.

use vstd::prelude::*;

verus! {

/// How one line of operator input resolves: an affirmative answer, a
/// negative answer, or invalid input that must be asked again.
pub enum ConfirmDecision {
    Affirmed,
    Declined,
    Unresolved,
}

/// ASCII whitespace, as trimmed from a response line.
pub open spec fn is_space(b: u8) -> bool {
    b == 32 || b == 9 || b == 10 || b == 11 || b == 12 || b == 13
}

/// ASCII lower-casing of one byte.
pub open spec fn lower(b: u8) -> u8 {
    if 65 <= b <= 90 {
        (b + 32) as u8
    } else {
        b
    }
}

/// The line without its leading whitespace.
pub open spec fn trim_start(s: Seq<u8>) -> Seq<u8>
    decreases s.len(),
{
    if s.len() > 0 && is_space(s[0]) {
        trim_start(s.drop_first())
    } else {
        s
    }
}

/// The line without its trailing whitespace.
pub open spec fn trim_end(s: Seq<u8>) -> Seq<u8>
    decreases s.len(),
{
    if s.len() > 0 && is_space(s.last()) {
        trim_end(s.drop_last())
    } else {
        s
    }
}

/// The canonical form a response is judged by: surrounding whitespace
/// removed, ASCII case folded.
pub open spec fn canonical_response(s: Seq<u8>) -> Seq<u8> {
    trim_end(trim_start(s)).map_values(|b: u8| lower(b))
}

/// How one line resolves: the long and short forms of yes and no are
/// accepted case-insensitively; an empty line resolves to the default
/// answer if one is present; everything else is invalid.
pub open spec fn spec_classify(s: Seq<u8>, default: Option<bool>) -> ConfirmDecision {
    let t = canonical_response(s);
    if t == seq![121u8] || t == seq![121u8, 101u8, 115u8] {
        ConfirmDecision::Affirmed
    } else if t == seq![110u8] || t == seq![110u8, 111u8] {
        ConfirmDecision::Declined
    } else if t.len() == 0 {
        match default {
            Some(true) => ConfirmDecision::Affirmed,
            Some(false) => ConfirmDecision::Declined,
            None => ConfirmDecision::Unresolved,
        }
    } else {
        ConfirmDecision::Unresolved
    }
}

proof fn lemma_trim_start_skip(s: Seq<u8>, lo: int)
    requires
        0 <= lo <= s.len(),
        forall|i: int| 0 <= i < lo ==> is_space(s[i]),
        lo == s.len() || !is_space(s[lo]),
    ensures
        trim_start(s) == s.skip(lo),
    decreases lo,
{
    if lo == 0 {
        assert(s.skip(0) =~= s);
    } else {
        assert(is_space(s[0]));
        let rest = s.drop_first();
        assert(forall|i: int| 0 <= i < lo - 1 ==> is_space(#[trigger] rest[i]));
        lemma_trim_start_skip(rest, lo - 1);
        assert(rest.skip(lo - 1) =~= s.skip(lo));
    }
}

proof fn lemma_trim_end_take(s: Seq<u8>, hi: int)
    requires
        0 <= hi <= s.len(),
        forall|i: int| hi <= i < s.len() ==> is_space(s[i]),
        hi == 0 || !is_space(s[hi - 1]),
    ensures
        trim_end(s) == s.take(hi),
    decreases s.len(),
{
    if hi == s.len() {
        assert(s.take(hi) =~= s);
    } else {
        assert(is_space(s.last()));
        let rest = s.drop_last();
        assert(forall|i: int| hi <= i < rest.len() ==> is_space(#[trigger] rest[i]));
        lemma_trim_end_take(rest, hi);
        assert(rest.take(hi) =~= s.take(hi));
    }
}

/// ASCII whitespace, as trimmed from a response line.
fn is_space_byte(b: u8) -> (r: bool)
    ensures
        r == is_space(b),
{
    b == 32 || b == 9 || b == 10 || b == 11 || b == 12 || b == 13
}

/// ASCII lower-casing of one byte.
fn lower_byte(b: u8) -> (r: u8)
    ensures
        r == lower(b),
{
    if b >= 65 && b <= 90 {
        b + 32
    } else {
        b
    }
}

/// Classifies one line of operator input against the accepted answers
/// and the default.
pub fn classify_response(line: &[u8], default: Option<bool>) -> (d: ConfirmDecision)
    ensures
        d == spec_classify(line@, default),
{
    let n = line.len();
    let mut lo: usize = 0;
    while lo < n && is_space_byte(line[lo])
        invariant
            lo <= n,
            n == line@.len(),
            forall|i: int| 0 <= i < lo ==> is_space(line@[i]),
        decreases n - lo,
    {
        lo = lo + 1;
    }
    let mut hi: usize = n;
    while hi > lo && is_space_byte(line[hi - 1])
        invariant
            lo <= hi <= n,
            n == line@.len(),
            forall|i: int| hi <= i < n ==> is_space(line@[i]),
        decreases hi,
    {
        hi = hi - 1;
    }
    let ghost trimmed = line@.subrange(lo as int, hi as int);
    let ghost t = canonical_response(line@);
    proof {
        lemma_trim_start_skip(line@, lo as int);
        let tail = line@.skip(lo as int);
        assert(forall|i: int|
            hi - lo <= i < tail.len() ==> is_space(#[trigger] tail[i]));
        lemma_trim_end_take(tail, hi - lo);
        assert(tail.take(hi - lo) =~= trimmed);
        assert(t == trimmed.map_values(|b: u8| lower(b)));
        assert(t.len() == hi - lo);
        assert(forall|i: int| 0 <= i < t.len() ==> t[i] == lower(#[trigger] trimmed[i]));
    }
    let len = hi - lo;
    if len == 1 {
        let c0 = lower_byte(line[lo]);
        proof {
            assert(t =~= seq![lower(line@[lo as int])]);
        }
        if c0 == 121u8 {
            proof {
                assert(t =~= seq![121u8]);
            }
            ConfirmDecision::Affirmed
        } else if c0 == 110u8 {
            proof {
                assert(t =~= seq![110u8]);
            }
            ConfirmDecision::Declined
        } else {
            proof {
                assert(t[0] == lower(line@[lo as int]) && t[0] != 121u8 && t[0] != 110u8);
                assert(seq![121u8][0] == 121u8 && seq![110u8][0] == 110u8);
                assert(seq![121u8, 101u8, 115u8].len() == 3 && seq![110u8, 111u8].len() == 2);
                assert(t != seq![121u8] && t != seq![121u8, 101u8, 115u8] && t != seq![110u8] && t
                    != seq![110u8, 111u8]);
            }
            ConfirmDecision::Unresolved
        }
    } else if len == 2 {
        let c0 = lower_byte(line[lo]);
        let c1 = lower_byte(line[lo + 1]);
        proof {
            assert(t =~= seq![lower(line@[lo as int]), lower(line@[lo as int + 1])]);
        }
        if c0 == 110u8 && c1 == 111u8 {
            proof {
                assert(t =~= seq![110u8, 111u8]);
            }
            ConfirmDecision::Declined
        } else {
            proof {
                assert(t != seq![121u8] && t != seq![121u8, 101u8, 115u8] && t != seq![110u8] && t
                    != seq![110u8, 111u8]);
            }
            ConfirmDecision::Unresolved
        }
    } else if len == 3 {
        let c0 = lower_byte(line[lo]);
        let c1 = lower_byte(line[lo + 1]);
        let c2 = lower_byte(line[lo + 2]);
        proof {
            assert(t =~= seq![
                lower(line@[lo as int]),
                lower(line@[lo as int + 1]),
                lower(line@[lo as int + 2]),
            ]);
        }
        if c0 == 121u8 && c1 == 101u8 && c2 == 115u8 {
            proof {
                assert(t =~= seq![121u8, 101u8, 115u8]);
            }
            ConfirmDecision::Affirmed
        } else {
            proof {
                assert(t != seq![121u8] && t != seq![121u8, 101u8, 115u8] && t != seq![110u8] && t
                    != seq![110u8, 111u8]);
            }
            ConfirmDecision::Unresolved
        }
    } else if len == 0 {
        match default {
            Some(true) => ConfirmDecision::Affirmed,
            Some(false) => ConfirmDecision::Declined,
            None => ConfirmDecision::Unresolved,
        }
    } else {
        proof {
            assert(t.len() > 3);
        }
        ConfirmDecision::Unresolved
    }
}

} // verus!
