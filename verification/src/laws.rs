//! Laws of the parser, stated and proved over the specification functions
//! that the executable functions' contracts are pinned to.

use crate::clock::clock_time_of;
use crate::numbers::parses_as_u64;
use crate::numbers::u64_value;
use crate::parser::spec_marker_skip;
use crate::parser::spec_parse_action_time;
use crate::parser::spec_parse_action_until_end;
use crate::parser::spec_parse_time;
use crate::parser::spec_parse_time_diff;
use crate::parser::spec_try_parse;
use crate::parser::is_action_marker;
use crate::parser::unit_factor;
use crate::parser::ParseError;
use crate::tokens::all_words;
use crate::tokens::last_keyword_index;
use crate::tokens::lemma_join_nonempty;
use crate::tokens::lemma_last_keyword_index;
use crate::tokens::lemma_split_join_roundtrip;
use crate::tokens::spec_join;
use crate::tokens::spec_split;
use vstd::prelude::*;

verus! {

/// For every valid `<count> <unit>` pair whose product fits in `u64`, the
/// duration in seconds is the count times the unit's factor: 1 for
/// second(s), 60 for minute(s), 3600 for hour(s).
pub proof fn lemma_duration_scales(ws: Seq<Seq<char>>, i: int)
    requires
        0 <= i,
        i + 2 < ws.len(),
        ws[i] == "in"@,
        parses_as_u64(ws[i + 1]),
        unit_factor(ws[i + 2]) is Some,
        u64_value(ws[i + 1]) * unit_factor(ws[i + 2])->0 <= u64::MAX,
    ensures
        spec_parse_time_diff(ws, i) == Ok::<(u64, int), ParseError>(
            ((u64_value(ws[i + 1]) * unit_factor(ws[i + 2])->0) as u64, i + 3),
        ),
{
}

/// The wait for an absolute clock time is the difference between the
/// requested and the reference time of day, in seconds: it is relative to
/// the reference time, not to any wall clock.
pub proof fn lemma_reference_relative(ws: Seq<Seq<char>>, i: int, now: u32)
    requires
        0 <= i,
        i + 1 < ws.len(),
        ws[i] == "at"@,
        clock_time_of(ws[i + 1]) is Some,
        clock_time_of(ws[i + 1])->0 >= now,
    ensures
        spec_parse_time(ws, i, now) == Ok::<(u64, int), ParseError>(
            ((clock_time_of(ws[i + 1])->0 - now) as u64, i + 2),
        ),
{
}

/// A requested time of day earlier than the reference time is always
/// rejected as `TimeInPast`; it is never read as a time of the next day.
pub proof fn lemma_time_in_past(ws: Seq<Seq<char>>, i: int, now: u32)
    requires
        0 <= i,
        i + 1 < ws.len(),
        ws[i] == "at"@,
        clock_time_of(ws[i + 1]) is Some,
        clock_time_of(ws[i + 1])->0 < now,
    ensures
        spec_parse_time(ws, i, now) == Err::<(u64, int), ParseError>(ParseError::TimeInPast),
{
}

/// Input with nothing after the invocation word, or with only "me" after
/// it, is rejected as `MissingInput`; each of the two failure points
/// carries its own message.
pub proof fn lemma_missing_input(ws: Seq<Seq<char>>, now: u32)
    requires
        ws.len() <= 1 || (ws.len() == 2 && ws[1] == "me"@),
    ensures
        ws.len() <= 1 ==> spec_try_parse(ws, now) == Err::<(u64, Seq<char>), ParseError>(
            ParseError::MissingInput { after_me: false },
        ),
        ws.len() > 1 ==> spec_try_parse(ws, now) == Err::<(u64, Seq<char>), ParseError>(
            ParseError::MissingInput { after_me: true },
        ),
{
}

/// With no "in" and no "at" anywhere among the tokens, the whole remainder
/// is the action and the duration defaults to zero seconds.
pub proof fn lemma_bare_action_defaults_zero(ws: Seq<Seq<char>>, i: int, now: u32)
    requires
        0 <= i,
        spec_marker_skip(ws, i) < ws.len(),
        forall|p: int| 0 <= p < ws.len() ==> ws[p] != "in"@ && ws[p] != "at"@,
    ensures
        spec_parse_action_time(ws, i, now) == Ok::<(u64, Seq<char>), ParseError>(
            (0u64, spec_join(ws.skip(spec_marker_skip(ws, i)))),
        ),
{
    lemma_last_keyword_index(ws, "in"@);
    lemma_last_keyword_index(ws, "at"@);
}

/// At most one action marker is consumed: when the token at `i` is "to" or
/// "that" and more tokens follow, the action keeps everything from `i + 1`
/// on — even when the token there is a marker again.
pub proof fn lemma_one_marker_consumed(ws: Seq<Seq<char>>, i: int, time: u64)
    requires
        0 <= i,
        i + 1 < ws.len(),
        is_action_marker(ws[i]),
    ensures
        spec_parse_action_until_end(ws, i, time) == Ok::<(u64, Seq<char>), ParseError>(
            (time, spec_join(ws.skip(i + 1))),
        ),
{
}

/// A lone action marker is no action: when the marker is the last token,
/// the parse fails with `MissingAction` rather than yielding an empty
/// action.
pub proof fn lemma_marker_alone_is_missing_action(ws: Seq<Seq<char>>, i: int, time: u64)
    requires
        0 <= i,
        i + 1 == ws.len(),
        is_action_marker(ws[i]),
    ensures
        spec_parse_action_until_end(ws, i, time) == Err::<(u64, Seq<char>), ParseError>(
            ParseError::MissingAction,
        ),
{
}

/// Right-to-left resolution: in the action-first shape, the *last*
/// occurrence of "in" starts the duration clause; every earlier "in" —
/// in particular one inside the action text — is kept as plain text. When
/// that occurrence stands right where the action would begin, the action
/// slice is empty and the parse fails with `MissingAction`.
pub proof fn lemma_last_in_wins(ws: Seq<Seq<char>>, i: int, now: u32, k: int)
    requires
        0 <= i <= k < ws.len(),
        ws[k] == "in"@,
        forall|j: int| k < j < ws.len() ==> ws[j] != "in"@,
    ensures
        k > spec_marker_skip(ws, i) ==> spec_parse_action_time(ws, i, now) == match
            spec_parse_time_diff(ws, k) {
            Ok((d, _)) => Ok::<(u64, Seq<char>), ParseError>(
                (d, spec_join(ws.subrange(spec_marker_skip(ws, i), k))),
            ),
            Err(e) => Err::<(u64, Seq<char>), ParseError>(e),
        },
        k <= spec_marker_skip(ws, i) ==> spec_parse_action_time(ws, i, now) == Err::<
            (u64, Seq<char>),
            ParseError,
        >(ParseError::MissingAction),
{
    lemma_last_keyword_index(ws, "in"@);
    let li = last_keyword_index(ws, "in"@);
    match li {
        Some(kk) => {
            assert(kk == k);
        },
        None => {
            assert(false);
        },
    }
    assert(spec_marker_skip(ws, i) <= k) by {
        if is_action_marker(ws[i]) {
            reveal_strlit("to");
            reveal_strlit("that");
            reveal_strlit("in");
            assert("to"@[0] != "in"@[0]);
            assert("that"@.len() != "in"@.len());
            assert(ws[i] != "in"@);
        }
    }
}

/// Right-to-left resolution with the duration evaluated: when the last
/// "in" stands at `k`, past the start of the action, and a valid
/// `<count> <unit>` pair whose seconds fit in `u64` follows it, the parse
/// yields exactly that duration, with the tokens from the action start up
/// to `k` — any earlier "in" among them included — as the action text.
pub proof fn lemma_last_in_wins_with_duration(ws: Seq<Seq<char>>, i: int, now: u32, k: int)
    requires
        0 <= i <= k < ws.len(),
        ws[k] == "in"@,
        forall|j: int| k < j < ws.len() ==> ws[j] != "in"@,
        k > spec_marker_skip(ws, i),
        k + 2 < ws.len(),
        parses_as_u64(ws[k + 1]),
        unit_factor(ws[k + 2]) is Some,
        u64_value(ws[k + 1]) * unit_factor(ws[k + 2])->0 <= u64::MAX,
    ensures
        spec_parse_action_time(ws, i, now) == Ok::<(u64, Seq<char>), ParseError>(
            (
                (u64_value(ws[k + 1]) * unit_factor(ws[k + 2])->0) as u64,
                spec_join(ws.subrange(spec_marker_skip(ws, i), k)),
            ),
        ),
{
    lemma_last_in_wins(ws, i, now, k);
    lemma_duration_scales(ws, k);
}

/// The same right-to-left rule for "at": with no "in" anywhere, the *last*
/// occurrence of "at" starts the clock-time clause; every earlier "at" is
/// kept as plain text. When that occurrence stands right where the action
/// would begin, the parse fails with `MissingAction`.
pub proof fn lemma_last_at_wins(ws: Seq<Seq<char>>, i: int, now: u32, k: int)
    requires
        0 <= i <= k < ws.len(),
        ws[k] == "at"@,
        forall|j: int| 0 <= j < ws.len() ==> ws[j] != "in"@,
        forall|j: int| k < j < ws.len() ==> ws[j] != "at"@,
    ensures
        k > spec_marker_skip(ws, i) ==> spec_parse_action_time(ws, i, now) == match
            spec_parse_time(ws, k, now) {
            Ok((d, _)) => Ok::<(u64, Seq<char>), ParseError>(
                (d, spec_join(ws.subrange(spec_marker_skip(ws, i), k))),
            ),
            Err(e) => Err::<(u64, Seq<char>), ParseError>(e),
        },
        k <= spec_marker_skip(ws, i) ==> spec_parse_action_time(ws, i, now) == Err::<
            (u64, Seq<char>),
            ParseError,
        >(ParseError::MissingAction),
{
    lemma_last_keyword_index(ws, "in"@);
    lemma_last_keyword_index(ws, "at"@);
    let la = last_keyword_index(ws, "at"@);
    match la {
        Some(kk) => {
            assert(kk == k);
        },
        None => {
            assert(false);
        },
    }
    assert(spec_marker_skip(ws, i) <= k) by {
        if is_action_marker(ws[i]) {
            reveal_strlit("to");
            reveal_strlit("that");
            reveal_strlit("at");
            assert("to"@[0] != "at"@[0]);
            assert("that"@.len() != "at"@.len());
            assert(ws[i] != "at"@);
        }
    }
}

/// The declared result of an `Ok` parse: its action text.
pub open spec fn ok_action(r: Result<(u64, Seq<char>), ParseError>) -> Seq<char> {
    match r {
        Ok(p) => p.1,
        Err(_) => Seq::empty(),
    }
}

/// Whitespace-normalisation round trip on a parsed command: the action of
/// every successful parse is a non-empty contiguous slice of the input
/// tokens joined with single spaces, and splitting it on whitespace
/// reproduces exactly that token slice.
pub proof fn lemma_parse_action_roundtrip(ws: Seq<Seq<char>>, now: u32)
    requires
        all_words(ws),
        ws.len() > 0 ==> ws[0] != "in"@ && ws[0] != "at"@,
        spec_try_parse(ws, now) is Ok,
    ensures
        exists|lo: int, hi: int|
            0 <= lo < hi <= ws.len() && ok_action(spec_try_parse(ws, now)) == spec_join(
                #[trigger] ws.subrange(lo, hi),
            ) && spec_split(ok_action(spec_try_parse(ws, now))) == ws.subrange(lo, hi),
{
    let r = spec_try_parse(ws, now);
    let a = ok_action(r);
    let i: int = if ws[1] == "me"@ {
        2
    } else {
        1
    };
    if ws[i] == "in"@ || ws[i] == "at"@ {
        let j: int = if ws[i] == "in"@ {
            match spec_parse_time_diff(ws, i) {
                Ok((_, j)) => j,
                Err(_) => 0,
            }
        } else {
            match spec_parse_time(ws, i, now) {
                Ok((_, j)) => j,
                Err(_) => 0,
            }
        };
        let m = spec_marker_skip(ws, j);
        assert(ws.len() > j);
        assert(ws.len() > m);
        assert(a == spec_join(ws.skip(m)));
        assert(ws.skip(m) =~= ws.subrange(m, ws.len() as int));
        lemma_roundtrip_slice(ws, m, ws.len() as int);
    } else {
        let j = spec_marker_skip(ws, i);
        assert(ws.len() > j);
        proof_keywords_not_before(ws, i);
        match last_keyword_index(ws, "in"@) {
            Some(k) => {
                lemma_last_keyword_index(ws, "in"@);
                assert(k > i);
                assert(k > j);
                assert(a == spec_join(ws.subrange(j, k)));
                lemma_roundtrip_slice(ws, j, k);
            },
            None => {
                match last_keyword_index(ws, "at"@) {
                    Some(k) => {
                        lemma_last_keyword_index(ws, "at"@);
                        assert(k > i);
                        assert(k > j);
                        assert(a == spec_join(ws.subrange(j, k)));
                        lemma_roundtrip_slice(ws, j, k);
                    },
                    None => {
                        assert(a == spec_join(ws.skip(j)));
                        assert(ws.skip(j) =~= ws.subrange(j, ws.len() as int));
                        lemma_roundtrip_slice(ws, j, ws.len() as int);
                    },
                }
            },
        }
    }
}

/// The Reminder invariant: the action of every successful parse is
/// non-empty text.
pub proof fn lemma_action_nonempty(ws: Seq<Seq<char>>, now: u32)
    requires
        all_words(ws),
        ws.len() > 0 ==> ws[0] != "in"@ && ws[0] != "at"@,
        spec_try_parse(ws, now) is Ok,
    ensures
        ok_action(spec_try_parse(ws, now)).len() > 0,
{
    lemma_parse_action_roundtrip(ws, now);
    let (lo, hi): (int, int) = choose|lo: int, hi: int|
        0 <= lo < hi <= ws.len() && ok_action(spec_try_parse(ws, now)) == spec_join(
            #[trigger] ws.subrange(lo, hi),
        ) && spec_split(ok_action(spec_try_parse(ws, now))) == ws.subrange(lo, hi);
    assert(all_words(ws.subrange(lo, hi))) by {
        assert(forall|p: int|
            0 <= p < hi - lo ==> ws.subrange(lo, hi)[p] == ws[lo + p]);
    }
    lemma_join_nonempty(ws.subrange(lo, hi));
}

/// No token up to `i` is "in" or "at" on the action-first path: index 0 is
/// barred by the caller, "me" and the shape token differ from both.
proof fn proof_keywords_not_before(ws: Seq<Seq<char>>, i: int)
    requires
        ws.len() > 1,
        ws[0] != "in"@ && ws[0] != "at"@,
        i == if ws[1] == "me"@ {
            2int
        } else {
            1int
        },
        i < ws.len(),
        ws[i] != "in"@ && ws[i] != "at"@,
    ensures
        forall|p: int| 0 <= p <= i ==> ws[p] != "in"@ && ws[p] != "at"@,
{
    if i == 2 {
        reveal_strlit("me");
        reveal_strlit("in");
        reveal_strlit("at");
        assert("me"@[0] != "in"@[0]);
        assert("me"@[0] != "at"@[0]);
    }
}

/// A slice of words joined with single spaces splits back into that slice.
proof fn lemma_roundtrip_slice(ws: Seq<Seq<char>>, lo: int, hi: int)
    requires
        all_words(ws),
        0 <= lo <= hi <= ws.len(),
    ensures
        spec_split(spec_join(ws.subrange(lo, hi))) == ws.subrange(lo, hi),
{
    assert(all_words(ws.subrange(lo, hi))) by {
        assert(forall|p: int|
            0 <= p < hi - lo ==> ws.subrange(lo, hi)[p] == ws[lo + p]);
    }
    lemma_split_join_roundtrip(ws.subrange(lo, hi));
}

} // verus!
