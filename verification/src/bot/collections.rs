//! The fixed roster of strategies, as one tagged union, and the naming
//! convention that maps a text name such as `basic3` or `adapt2` to a
//! strategy instance.

use vstd::prelude::*;
use crate::qd::state::GameState;
use crate::bot::base::Bot;
use crate::bot::random::RandomBot;
use crate::bot::basic::BasicBot;
use crate::bot::adapt::AdaptiveBot;
use crate::bot::weak::{WeakBot, LEVEL_UNIT};
use crate::text::str_chars;

verus! {

/// Any one of the strategies, as a value.
#[derive(Copy, Clone)]
pub enum BotChoice {
    Random(RandomBot),
    Basic(BasicBot),
    Adaptive(AdaptiveBot),
    Weak(WeakBot),
}

impl Bot for BotChoice {
    open spec fn wf(&self) -> bool {
        match self {
            BotChoice::Random(b) => b.wf(),
            BotChoice::Basic(b) => b.wf(),
            BotChoice::Adaptive(b) => b.wf(),
            BotChoice::Weak(b) => b.wf(),
        }
    }

    fn decide(&self, state: GameState) -> (r: u8) {
        match self {
            BotChoice::Random(b) => b.decide(state),
            BotChoice::Basic(b) => b.decide(state),
            BotChoice::Adaptive(b) => b.decide(state),
            BotChoice::Weak(b) => b.decide(state),
        }
    }
}

/// A decimal digit.
pub open spec fn is_digit(c: char) -> bool {
    48 <= c as u32 <= 57
}

/// Every character is a decimal digit.
pub open spec fn all_digits(s: Seq<char>) -> bool {
    forall|i: int| 0 <= i < s.len() ==> is_digit(#[trigger] s[i])
}

/// The value of a digit string.
pub open spec fn digits_val(s: Seq<char>) -> int
    decreases s.len(),
{
    if s.len() == 0 {
        0
    } else {
        digits_val(s.drop_last()) * 10 + (s.last() as u32 - 48)
    }
}

/// What `str::parse::<u32>` accepts: an optional leading plus sign, then
/// one or more digits whose value fits.
pub open spec fn spec_parse_u32(s: Seq<char>) -> Option<u32> {
    let d = if s.len() >= 1 && s[0] == '+' {
        s.skip(1)
    } else {
        s
    };
    if d.len() >= 1 && all_digits(d) && digits_val(d) <= u32::MAX {
        Some(digits_val(d) as u32)
    } else {
        None
    }
}

/// Parse the characters of `v` from `start` on as a `u32`.
#[verifier::loop_isolation(false)]
fn parse_u32_from(v: &Vec<char>, start: usize) -> (r: Option<u32>)
    requires
        start <= v@.len(),
    ensures
        r == spec_parse_u32(v@.skip(start as int)),
{
    let ghost s = v@.skip(start as int);
    let mut i = start;
    let plus = i < v.len() && v[i] == '+';
    if plus {
        i = i + 1;
    }
    let ghost d = v@.skip(i as int);
    proof {
        assert(s.len() == v@.len() - start);
        if plus {
            assert(s.len() >= 1 && s[0] == '+');
            assert(d =~= s.skip(1));
        } else {
            assert(s.len() >= 1 ==> s[0] == v@[start as int]);
            assert(d =~= s);
        }
    }
    if i == v.len() {
        proof {
            assert(d.len() == 0);
        }
        return None;
    }
    let mut val: u32 = 0;
    let mut overflow = false;
    let mut j = i;
    while j < v.len()
        invariant
            i <= j <= v@.len(),
            d == v@.skip(i as int),
            d.len() == v@.len() - i,
            all_digits(d.take(j - i)),
            !overflow ==> val == digits_val(d.take(j - i)),
            overflow ==> digits_val(d.take(j - i)) > u32::MAX,
        decreases v@.len() - j,
    {
        let c = v[j];
        let cu = c as u32;
        proof {
            assert(d[j - i] == v@[j as int]);
        }
        if cu < 48 || cu > 57 {
            proof {
                assert(!is_digit(d[j - i]));
            }
            return None;
        }
        let digit = cu - 48;
        proof {
            assert(d.take(j - i + 1).drop_last() =~= d.take(j - i));
            assert(d.take(j - i + 1).last() == d[j - i]);
            assert(digits_val(d.take(j - i + 1)) == digits_val(d.take(j - i)) * 10 + digit);
        }
        if !overflow {
            if val <= (u32::MAX - digit) / 10 {
                proof {
                    assert(val * 10 + digit <= u32::MAX) by (nonlinear_arith)
                        requires
                            val <= (u32::MAX - digit) / 10,
                            0 <= digit <= 9,
                    ;
                }
                val = val * 10 + digit;
            } else {
                proof {
                    assert(val * 10 + digit > u32::MAX) by (nonlinear_arith)
                        requires
                            val > (u32::MAX - digit) / 10,
                            0 <= digit <= 9,
                    ;
                }
                overflow = true;
            }
        } else {
            proof {
                assert(digits_val(d.take(j - i + 1)) > u32::MAX) by {
                    assert(digits_val(d.take(j - i)) * 10 + digit > u32::MAX) by (nonlinear_arith)
                        requires
                            digits_val(d.take(j - i)) > u32::MAX,
                            digit >= 0,
                    ;
                }
            }
        }
        j = j + 1;
    }
    proof {
        assert(d.take(d.len() as int) =~= d);
    }
    if overflow {
        return None;
    }
    Some(val)
}

/// The bot a name denotes. `random` is the random strategy; `basicN` a
/// fixed search of depth `N >= 1`; `adaptN` a budgeted search of budget
/// `2^(N+4)` (so `N` at most 59); `weakN` the blended strategy, of which
/// only `weak1`, playing the deeper move every time, is accepted.
pub open spec fn spec_bot_of_name(s: Seq<char>) -> Option<BotChoice> {
    if s == seq!['r', 'a', 'n', 'd', 'o', 'm'] {
        Some(BotChoice::Random(RandomBot {  }))
    } else if s.len() >= 4 && s.take(4) == seq!['w', 'e', 'a', 'k'] {
        match spec_parse_u32(s.skip(4)) {
            Some(n) => if n == 1 {
                Some(BotChoice::Weak(WeakBot { level_ppm: LEVEL_UNIT }))
            } else {
                None
            },
            None => None,
        }
    } else if s.len() >= 5 && s.take(5) == seq!['b', 'a', 's', 'i', 'c'] {
        match spec_parse_u32(s.skip(5)) {
            Some(n) => if n >= 1 {
                Some(BotChoice::Basic(BasicBot { depth: n }))
            } else {
                None
            },
            None => None,
        }
    } else if s.len() >= 5 && s.take(5) == seq!['a', 'd', 'a', 'p', 't'] {
        match spec_parse_u32(s.skip(5)) {
            Some(n) => if 1 <= n <= 59 {
                Some(BotChoice::Adaptive(AdaptiveBot { max_compute: 1u64 << ((n + 4) as u64) }))
            } else {
                None
            },
            None => None,
        }
    } else {
        None
    }
}

/// Resolve a strategy name. The result is well-formed whenever a strategy
/// is returned, and `None` exactly on names outside the convention.
pub fn map_bot_string(name: &str) -> (r: Option<BotChoice>)
    ensures
        r == spec_bot_of_name(name@),
        r is Some ==> r->0.wf(),
{
    let v = str_chars(name);
    if v.len() == 6 && v[0] == 'r' && v[1] == 'a' && v[2] == 'n' && v[3] == 'd' && v[4] == 'o'
        && v[5] == 'm' {
        proof {
            assert(v@ =~= seq!['r', 'a', 'n', 'd', 'o', 'm']);
        }
        return Some(BotChoice::Random(RandomBot::new()));
    }
    proof {
        if v@ == seq!['r', 'a', 'n', 'd', 'o', 'm'] {
            assert(v@[0] == 'r' && v@[1] == 'a' && v@[2] == 'n' && v@[3] == 'd' && v@[4] == 'o'
                && v@[5] == 'm');
        }
    }
    if v.len() >= 4 && v[0] == 'w' && v[1] == 'e' && v[2] == 'a' && v[3] == 'k' {
        proof {
            assert(v@.take(4) =~= seq!['w', 'e', 'a', 'k']);
        }
        let n = parse_u32_from(&v, 4);
        if n.is_none() {
            return None;
        }
        let n = n.unwrap();
        if n == 1 {
            return Some(BotChoice::Weak(WeakBot::new(LEVEL_UNIT)));
        }
        return None;
    }
    proof {
        if v@.len() >= 4 && v@.take(4) == seq!['w', 'e', 'a', 'k'] {
            assert(v@[0] == 'w' && v@[1] == 'e' && v@[2] == 'a' && v@[3] == 'k') by {
                assert(v@.take(4)[0] == v@[0] && v@.take(4)[1] == v@[1] && v@.take(4)[2] == v@[2]
                    && v@.take(4)[3] == v@[3]);
            }
        }
    }
    if v.len() >= 5 && v[0] == 'b' && v[1] == 'a' && v[2] == 's' && v[3] == 'i' && v[4] == 'c' {
        proof {
            assert(v@.take(5) =~= seq!['b', 'a', 's', 'i', 'c']);
        }
        let n = parse_u32_from(&v, 5);
        if n.is_none() {
            return None;
        }
        let n = n.unwrap();
        if n == 0 {
            return None;
        }
        return Some(BotChoice::Basic(BasicBot::new(n)));
    }
    proof {
        if v@.len() >= 5 && v@.take(5) == seq!['b', 'a', 's', 'i', 'c'] {
            assert(v@[0] == 'b' && v@[1] == 'a' && v@[2] == 's' && v@[3] == 'i' && v@[4] == 'c')
                by {
                assert(v@.take(5)[0] == v@[0] && v@.take(5)[1] == v@[1] && v@.take(5)[2] == v@[2]
                    && v@.take(5)[3] == v@[3] && v@.take(5)[4] == v@[4]);
            }
        }
    }
    if v.len() >= 5 && v[0] == 'a' && v[1] == 'd' && v[2] == 'a' && v[3] == 'p' && v[4] == 't' {
        proof {
            assert(v@.take(5) =~= seq!['a', 'd', 'a', 'p', 't']);
        }
        let n = parse_u32_from(&v, 5);
        if n.is_none() {
            return None;
        }
        let n = n.unwrap();
        if n == 0 || n > 59 {
            return None;
        }
        return Some(BotChoice::Adaptive(AdaptiveBot::new(1u64 << ((n as u64) + 4))));
    }
    proof {
        if v@.len() >= 5 && v@.take(5) == seq!['a', 'd', 'a', 'p', 't'] {
            assert(v@[0] == 'a' && v@[1] == 'd' && v@[2] == 'a' && v@[3] == 'p' && v@[4] == 't')
                by {
                assert(v@.take(5)[0] == v@[0] && v@.take(5)[1] == v@[1] && v@.take(5)[2] == v@[2]
                    && v@.take(5)[3] == v@[3] && v@.take(5)[4] == v@[4]);
            }
        }
    }
    None
}

} // verus!
