//! The command parser.
//!
//! A command is a token sequence whose index 0 is the invocation word,
//! which the parser skips. Three word orders are recognised, branching on
//! the first token after the optional politeness word "me":
//!
//! - duration-first: `in <count> <unit> [to|that] <action>`;
//! - clock-time-first: `at <HH:MM[:SS]> [to|that] <action>`;
//! - action-first: `[to|that] <action> [in <count> <unit> | at <HH:MM[:SS]>]`,
//!   where the *last* occurrence of "in" (else of "at") anywhere in the
//!   token sequence starts the time expression, so that the words "in" and
//!   "at" may also appear inside the action text.
//!
//! Every function's result is pinned to the specification functions below,
//! which state the grammar over sequences of character sequences.

use crate::clock::clock_time_of;
use crate::clock::parse_clock_time;
use crate::numbers::parse_u64_token;
use crate::numbers::parses_as_u64;
use crate::numbers::u64_value;
use crate::tokens::join_tokens;
use crate::tokens::last_keyword_index;
use crate::tokens::lemma_last_keyword_index;
use crate::tokens::rposition_token;
use crate::tokens::spec_join;
use crate::tokens::token_eq;
use vstd::prelude::*;

verus! {

/// Why a command was rejected. Every failure is terminal; each variant
/// carries a fixed human-readable message, see [`ParseError::message`].
#[derive(Clone, Copy, Debug, PartialEq, Eq)]
pub enum ParseError {
    /// No token follows the invocation word (`after_me` false), or none
    /// follows the politeness word "me" (`after_me` true); each point of
    /// failure has its own message.
    MissingInput { after_me: bool },
    /// No tokens remain where an action is required.
    MissingAction,
    /// "in" is present but no count follows it.
    MissingDuration,
    /// The token after "in" is not a non-negative integer, or the duration
    /// in seconds does not fit in `u64`.
    InvalidDuration,
    /// A count is present but no unit token follows it.
    MissingUnit,
    /// The unit token is not one of second(s), minute(s), hour(s).
    InvalidUnit,
    /// "at" is present but no token follows it.
    MissingTime,
    /// The token after "at" matches neither `HH:MM` nor `HH:MM:SS`.
    InvalidTime,
    /// The requested time of day is earlier than the reference time.
    TimeInPast,
}

impl ParseError {
    /// The fixed message surfaced to the user.
    pub fn message(&self) -> (m: &'static str)
        ensures
            m@ == match self {
                ParseError::MissingInput { after_me } => if *after_me {
                    "Expected an action, 'at' <time> or 'in <time interval>'"@
                } else {
                    "Expected an action, 'at' <time>, 'in <time interval>', or 'me'"@
                },
                ParseError::MissingAction => "Expected an action"@,
                ParseError::MissingDuration => "Expected a time interval"@,
                ParseError::InvalidDuration => "Expected a time interval"@,
                ParseError::MissingUnit => "Expected a time unit"@,
                ParseError::InvalidUnit => "Expected a time unit"@,
                ParseError::MissingTime => "Expected a time"@,
                ParseError::InvalidTime => "Expected a time"@,
                ParseError::TimeInPast => "Time should not be in the past"@,
            },
    {
        match self {
            ParseError::MissingInput { after_me } => if *after_me {
                "Expected an action, 'at' <time> or 'in <time interval>'"
            } else {
                "Expected an action, 'at' <time>, 'in <time interval>', or 'me'"
            },
            ParseError::MissingAction => "Expected an action",
            ParseError::MissingDuration => "Expected a time interval",
            ParseError::InvalidDuration => "Expected a time interval",
            ParseError::MissingUnit => "Expected a time unit",
            ParseError::InvalidUnit => "Expected a time unit",
            ParseError::MissingTime => "Expected a time",
            ParseError::InvalidTime => "Expected a time",
            ParseError::TimeInPast => "Time should not be in the past",
        }
    }
}

/// The parsed instruction: wait `time` seconds, then show `action`.
#[derive(Debug, PartialEq, Eq)]
pub struct Reminder {
    /// The wait before the alert, in whole seconds.
    pub time: u64,
    /// The text of the alert: the remaining tokens joined with single
    /// spaces; never empty (see `laws::lemma_action_nonempty`).
    pub action: String,
}

/// A filler word that may precede the action text, consumed and discarded.
pub open spec fn is_action_marker(w: Seq<char>) -> bool {
    w == "to"@ || w == "that"@
}

/// The seconds per unit for a unit token, or nothing for any other token.
pub open spec fn unit_factor(w: Seq<char>) -> Option<int> {
    if w == "second"@ || w == "seconds"@ {
        Some(1int)
    } else if w == "minute"@ || w == "minutes"@ {
        Some(60int)
    } else if w == "hour"@ || w == "hours"@ {
        Some(3600int)
    } else {
        None
    }
}

/// A sub-parser's result: the duration resolved so far, in seconds, and
/// the index of the first token not yet consumed.
pub open spec fn step_view(r: Result<(u64, usize), ParseError>) -> Result<
    (u64, int),
    ParseError,
> {
    match r {
        Ok((d, j)) => Ok((d, j as int)),
        Err(e) => Err(e),
    }
}

/// A finished parse, as the contracts state it: the duration in seconds
/// and the action text.
pub open spec fn reminder_result_view(r: Result<Reminder, ParseError>) -> Result<
    (u64, Seq<char>),
    ParseError,
> {
    match r {
        Ok(rem) => Ok((rem.time, rem.action@)),
        Err(e) => Err(e),
    }
}

/// The relative duration expression `"in" <count> <unit>` at index `i`:
/// the duration is the count times the unit's seconds. A token at `i`
/// other than "in" resolves to zero seconds with nothing consumed. A
/// duration that does not fit in `u64` is rejected.
pub open spec fn spec_parse_time_diff(ws: Seq<Seq<char>>, i: int) -> Result<
    (u64, int),
    ParseError,
> {
    if ws.len() <= i {
        Err(ParseError::MissingDuration)
    } else if ws[i] != "in"@ {
        Ok((0u64, i))
    } else if ws.len() <= i + 1 {
        Err(ParseError::MissingDuration)
    } else if !parses_as_u64(ws[i + 1]) {
        Err(ParseError::InvalidDuration)
    } else if ws.len() <= i + 2 {
        Err(ParseError::MissingUnit)
    } else {
        match unit_factor(ws[i + 2]) {
            None => Err(ParseError::InvalidUnit),
            Some(f) => if u64_value(ws[i + 1]) * f > u64::MAX {
                Err(ParseError::InvalidDuration)
            } else {
                Ok(((u64_value(ws[i + 1]) * f) as u64, i + 3))
            },
        }
    }
}

/// The absolute clock-time expression `"at" <HH:MM[:SS]>` at index `i`:
/// the duration is the difference between the denoted time of day and the
/// reference time `now`, both in seconds since midnight. A time earlier
/// than `now` is rejected; there is no wraparound to the next day. A token
/// at `i` other than "at" resolves to zero seconds with nothing consumed.
pub open spec fn spec_parse_time(ws: Seq<Seq<char>>, i: int, now: u32) -> Result<
    (u64, int),
    ParseError,
> {
    if ws.len() <= i {
        Err(ParseError::MissingTime)
    } else if ws[i] != "at"@ {
        Ok((0u64, i))
    } else if ws.len() <= i + 1 {
        Err(ParseError::MissingTime)
    } else {
        match clock_time_of(ws[i + 1]) {
            None => Err(ParseError::InvalidTime),
            Some(t) => if t < now {
                Err(ParseError::TimeInPast)
            } else {
                Ok((((t - now) as u64), i + 2))
            },
        }
    }
}

/// The index after consuming at most one leading action marker at `i`.
pub open spec fn spec_marker_skip(ws: Seq<Seq<char>>, i: int) -> int {
    if i < ws.len() && is_action_marker(ws[i]) {
        i + 1
    } else {
        i
    }
}

/// The action text from index `i` on, with a duration already resolved:
/// after at most one action marker, the remaining tokens joined with
/// single spaces. Rejected when no tokens remain, and likewise when only
/// an action marker remains: the action is never empty.
pub open spec fn spec_parse_action_until_end(ws: Seq<Seq<char>>, i: int, time: u64) -> Result<
    (u64, Seq<char>),
    ParseError,
> {
    if ws.len() <= i {
        Err(ParseError::MissingAction)
    } else {
        let j = spec_marker_skip(ws, i);
        if ws.len() <= j {
            Err(ParseError::MissingAction)
        } else {
            Ok((time, spec_join(ws.skip(j))))
        }
    }
}

/// The duration-first shape: a duration expression at `i`, then the action.
pub open spec fn spec_parse_time_diff_action(ws: Seq<Seq<char>>, i: int) -> Result<
    (u64, Seq<char>),
    ParseError,
> {
    match spec_parse_time_diff(ws, i) {
        Ok((d, j)) => spec_parse_action_until_end(ws, j, d),
        Err(e) => Err(e),
    }
}

/// The clock-time-first shape: a clock-time expression at `i`, then the
/// action.
pub open spec fn spec_parse_time_action(ws: Seq<Seq<char>>, i: int, now: u32) -> Result<
    (u64, Seq<char>),
    ParseError,
> {
    match spec_parse_time(ws, i, now) {
        Ok((d, j)) => spec_parse_action_until_end(ws, j, d),
        Err(e) => Err(e),
    }
}

/// The action-first shape, starting at `i`: after at most one action
/// marker, the action runs up to the *last* occurrence of "in" — else of
/// "at" — anywhere in the token sequence, and that occurrence starts the
/// time expression; with neither keyword present the whole remainder is
/// the action and the duration is zero. Tokens left over after a trailing
/// time expression are discarded. An empty action slice — the time
/// keyword stands right where the action would begin — is rejected: the
/// action is never empty.
pub open spec fn spec_parse_action_time(ws: Seq<Seq<char>>, i: int, now: u32) -> Result<
    (u64, Seq<char>),
    ParseError,
> {
    let j = spec_marker_skip(ws, i);
    if ws.len() <= j {
        Err(ParseError::MissingAction)
    } else {
        match last_keyword_index(ws, "in"@) {
            Some(k) => if k <= j {
                Err(ParseError::MissingAction)
            } else {
                match spec_parse_time_diff(ws, k) {
                    Ok((d, _)) => Ok((d, spec_join(ws.subrange(j, k)))),
                    Err(e) => Err(e),
                }
            },
            None => match last_keyword_index(ws, "at"@) {
                Some(k) => if k <= j {
                    Err(ParseError::MissingAction)
                } else {
                    match spec_parse_time(ws, k, now) {
                        Ok((d, _)) => Ok((d, spec_join(ws.subrange(j, k)))),
                        Err(e) => Err(e),
                    }
                },
                None => Ok((0u64, spec_join(ws.skip(j)))),
            },
        }
    }
}

/// The whole parse. The token at index 0 is the invocation word and is
/// skipped; an optional "me" follows; the next token selects the shape.
pub open spec fn spec_try_parse(ws: Seq<Seq<char>>, now: u32) -> Result<
    (u64, Seq<char>),
    ParseError,
> {
    if ws.len() <= 1 {
        Err(ParseError::MissingInput { after_me: false })
    } else {
        let i: int = if ws[1] == "me"@ {
            2
        } else {
            1
        };
        if ws.len() <= i {
            Err(ParseError::MissingInput { after_me: true })
        } else if ws[i] == "in"@ {
            spec_parse_time_diff_action(ws, i)
        } else if ws[i] == "at"@ {
            spec_parse_time_action(ws, i, now)
        } else {
            spec_parse_action_time(ws, i, now)
        }
    }
}

/// Whether a token is an action marker.
fn is_marker_token(w: &String) -> (b: bool)
    ensures
        b == is_action_marker(w@),
{
    token_eq(w, "to") || token_eq(w, "that")
}

/// The seconds per unit for a unit token.
fn unit_factor_token(w: &String) -> (f: Option<u64>)
    ensures
        match f {
            Some(v) => unit_factor(w@) == Some(v as int),
            None => unit_factor(w@) is None,
        },
{
    if token_eq(w, "second") || token_eq(w, "seconds") {
        Some(1)
    } else if token_eq(w, "minute") || token_eq(w, "minutes") {
        Some(60)
    } else if token_eq(w, "hour") || token_eq(w, "hours") {
        Some(3600)
    } else {
        None
    }
}

/// Parses the relative duration expression `"in" <count> <unit>` at `i`
/// and returns the duration in seconds with the next cursor position. A
/// count whose seconds overflow `u64` is rejected as `InvalidDuration`.
pub fn parse_time_diff(words: &Vec<String>, i: usize) -> (r: Result<(u64, usize), ParseError>)
    ensures
        step_view(r) == spec_parse_time_diff(words.deep_view(), i as int),
{
    let ghost ws = words.deep_view();
    proof {
        assert(ws.len() == words@.len());
    }
    if words.len() <= i {
        return Err(ParseError::MissingDuration);
    }
    proof {
        assert(ws[i as int] == words@[i as int]@);
    }
    if !token_eq(&words[i], "in") {
        return Ok((0, i));
    }
    if words.len() <= i + 1 {
        return Err(ParseError::MissingDuration);
    }
    proof {
        assert(ws[i + 1] == words@[i + 1]@);
    }
    let v = match parse_u64_token(&words[i + 1]) {
        Some(v) => v,
        None => {
            return Err(ParseError::InvalidDuration);
        },
    };
    if words.len() <= i + 2 {
        return Err(ParseError::MissingUnit);
    }
    proof {
        assert(ws[i + 2] == words@[i + 2]@);
    }
    let f = match unit_factor_token(&words[i + 2]) {
        Some(f) => f,
        None => {
            return Err(ParseError::InvalidUnit);
        },
    };
    proof {
        let q = (u64::MAX / f) as int;
        vstd::arithmetic::div_mod::lemma_fundamental_div_mod(u64::MAX as int, f as int);
        vstd::arithmetic::div_mod::lemma_mod_bound(u64::MAX as int, f as int);
        if v <= u64::MAX / f {
            vstd::arithmetic::mul::lemma_mul_inequality(v as int, q, f as int);
            vstd::arithmetic::mul::lemma_mul_is_commutative(q, f as int);
        } else {
            vstd::arithmetic::mul::lemma_mul_is_distributive_add(f as int, q, 1);
            vstd::arithmetic::mul::lemma_mul_inequality(q + 1, v as int, f as int);
            vstd::arithmetic::mul::lemma_mul_is_commutative(q + 1, f as int);
        }
    }
    if v > u64::MAX / f {
        return Err(ParseError::InvalidDuration);
    }
    Ok((v * f, i + 3))
}

/// Parses the absolute clock-time expression `"at" <HH:MM[:SS]>` at `i`,
/// relative to the reference time `now` in seconds since midnight, and
/// returns the wait in seconds with the next cursor position.
pub fn parse_time(words: &Vec<String>, i: usize, now: u32) -> (r: Result<(u64, usize), ParseError>)
    ensures
        step_view(r) == spec_parse_time(words.deep_view(), i as int, now),
{
    let ghost ws = words.deep_view();
    proof {
        assert(ws.len() == words@.len());
    }
    if words.len() <= i {
        return Err(ParseError::MissingTime);
    }
    proof {
        assert(ws[i as int] == words@[i as int]@);
    }
    if !token_eq(&words[i], "at") {
        return Ok((0, i));
    }
    if words.len() <= i + 1 {
        return Err(ParseError::MissingTime);
    }
    proof {
        assert(ws[i + 1] == words@[i + 1]@);
    }
    match parse_clock_time(&words[i + 1]) {
        None => Err(ParseError::InvalidTime),
        Some(t) => {
            if t < now {
                Err(ParseError::TimeInPast)
            } else {
                Ok(((t - now) as u64, i + 2))
            }
        },
    }
}

/// Extracts the action from index `i` on, after a time expression has
/// already resolved to `time` seconds: consumes at most one action marker,
/// then joins the remaining tokens with single spaces. Fails with
/// `MissingAction` when no tokens remain, and also when only an action
/// marker remains: the action is never empty.
pub fn parse_action_until_end(words: &Vec<String>, i: usize, time: u64) -> (r: Result<
    Reminder,
    ParseError,
>)
    ensures
        reminder_result_view(r) == spec_parse_action_until_end(words.deep_view(), i as int, time),
{
    let ghost ws = words.deep_view();
    proof {
        assert(ws.len() == words@.len());
    }
    if words.len() <= i {
        return Err(ParseError::MissingAction);
    }
    proof {
        assert(ws[i as int] == words@[i as int]@);
    }
    let j: usize = if is_marker_token(&words[i]) {
        i + 1
    } else {
        i
    };
    proof {
        assert(j as int == spec_marker_skip(ws, i as int));
    }
    if words.len() <= j {
        return Err(ParseError::MissingAction);
    }
    let action = join_tokens(words, j, words.len());
    proof {
        assert(ws.subrange(j as int, ws.len() as int) =~= ws.skip(j as int));
    }
    Ok(Reminder { time, action })
}

/// The duration-first shape: `in <count> <unit> [to|that] <action>`.
pub fn parse_time_diff_action(words: &Vec<String>, i: usize) -> (r: Result<Reminder, ParseError>)
    ensures
        reminder_result_view(r) == spec_parse_time_diff_action(words.deep_view(), i as int),
{
    match parse_time_diff(words, i) {
        Ok((time, j)) => parse_action_until_end(words, j, time),
        Err(e) => Err(e),
    }
}

/// The clock-time-first shape: `at <HH:MM[:SS]> [to|that] <action>`.
pub fn parse_time_action(words: &Vec<String>, i: usize, now: u32) -> (r: Result<
    Reminder,
    ParseError,
>)
    ensures
        reminder_result_view(r) == spec_parse_time_action(words.deep_view(), i as int, now),
{
    match parse_time(words, i, now) {
        Ok((time, j)) => parse_action_until_end(words, j, time),
        Err(e) => Err(e),
    }
}

/// The action-first shape: the action text, then an optional trailing
/// `in <count> <unit>` or `at <HH:MM[:SS]>` clause. The *last* occurrence
/// of "in" — else of "at" — starts the clause, so both words may also
/// appear inside the action text. An empty action slice — the time
/// keyword stands right where the action would begin — fails with
/// `MissingAction`: the action is never empty. The tokens up to and
/// including `i` must not be "in" or "at": they are the invocation word,
/// the politeness word "me", and the token that selected this shape.
pub fn parse_action_time(words: &Vec<String>, i: usize, now: u32) -> (r: Result<
    Reminder,
    ParseError,
>)
    requires
        forall|p: int|
            0 <= p <= i && p < words.deep_view().len() ==> words.deep_view()[p] != "in"@
                && words.deep_view()[p] != "at"@,
    ensures
        reminder_result_view(r) == spec_parse_action_time(words.deep_view(), i as int, now),
{
    let ghost ws = words.deep_view();
    proof {
        assert(ws.len() == words@.len());
    }
    let mut j = i;
    if j < words.len() {
        proof {
            assert(ws[j as int] == words@[j as int]@);
        }
        if is_marker_token(&words[j]) {
            j = j + 1;
        }
    }
    proof {
        assert(j as int == spec_marker_skip(ws, i as int));
    }
    if words.len() <= j {
        return Err(ParseError::MissingAction);
    }
    match rposition_token(words, "in") {
        Some(k) => {
            proof {
                lemma_last_keyword_index(ws, "in"@);
                assert(k > i);
            }
            if k <= j {
                return Err(ParseError::MissingAction);
            }
            let action = join_tokens(words, j, k);
            match parse_time_diff(words, k) {
                Ok((time, _)) => Ok(Reminder { time, action }),
                Err(e) => Err(e),
            }
        },
        None => {
            match rposition_token(words, "at") {
                Some(k) => {
                    proof {
                        lemma_last_keyword_index(ws, "at"@);
                        assert(k > i);
                    }
                    if k <= j {
                        return Err(ParseError::MissingAction);
                    }
                    let action = join_tokens(words, j, k);
                    match parse_time(words, k, now) {
                        Ok((time, _)) => Ok(Reminder { time, action }),
                        Err(e) => Err(e),
                    }
                },
                None => {
                    let action = join_tokens(words, j, words.len());
                    proof {
                        assert(ws.subrange(j as int, ws.len() as int) =~= ws.skip(j as int));
                    }
                    Ok(Reminder { time: 0, action })
                },
            }
        },
    }
}

/// Parses a whole reminder command. `words` is the whitespace-split input
/// with the invocation word at index 0, which is skipped and must not be
/// the grammar keyword "in" or "at"; `now` is the reference time of day in
/// seconds since midnight. On success the wait duration in whole seconds
/// and the action text are returned; every malformed input is rejected
/// with the `ParseError` that `spec_try_parse` names for it.
pub fn try_parse(words: &Vec<String>, now: u32) -> (r: Result<Reminder, ParseError>)
    requires
        words.deep_view().len() > 0 ==> words.deep_view()[0] != "in"@ && words.deep_view()[0]
            != "at"@,
    ensures
        reminder_result_view(r) == spec_try_parse(words.deep_view(), now),
{
    let ghost ws = words.deep_view();
    proof {
        assert(ws.len() == words@.len());
    }
    let mut i: usize = 1;
    if words.len() <= i {
        return Err(ParseError::MissingInput { after_me: false });
    }
    proof {
        assert(ws[1] == words@[1]@);
    }
    if token_eq(&words[i], "me") {
        i = i + 1;
    }
    if words.len() <= i {
        return Err(ParseError::MissingInput { after_me: true });
    }
    proof {
        assert(ws[i as int] == words@[i as int]@);
    }
    if token_eq(&words[i], "in") {
        parse_time_diff_action(words, i)
    } else if token_eq(&words[i], "at") {
        parse_time_action(words, i, now)
    } else {
        proof {
            if i == 2 {
                reveal_strlit("me");
                reveal_strlit("in");
                reveal_strlit("at");
                assert("me"@[0] != "in"@[0]);
                assert("me"@[0] != "at"@[0]);
            }
        }
        parse_action_time(words, i, now)
    }
}

} // verus!
