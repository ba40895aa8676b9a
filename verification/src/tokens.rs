//! Token sequences.
//!
//! A command is an ordered sequence of words, produced by splitting the raw
//! input on whitespace. The parser only ever joins a slice of those words
//! back together with single spaces (the action text) and searches for the
//! last occurrence of a keyword. This module holds those operations, their
//! specifications, and the round-trip law: joining words and re-splitting
//! the result on whitespace gives the words back.

use vstd::prelude::*;

verus! {

/// An ASCII whitespace character, as `char::is_ascii_whitespace` has it.
pub open spec fn is_space(c: char) -> bool {
    c == ' ' || c == '\t' || c == '\n' || c == '\x0c' || c == '\r'
}

/// A word: non-empty and free of ASCII whitespace. Splitting the raw input
/// on whitespace yields only words.
pub open spec fn is_word(w: Seq<char>) -> bool {
    w.len() > 0 && (forall|k: int| 0 <= k < w.len() ==> !is_space(w[k]))
}

pub open spec fn all_words(ws: Seq<Seq<char>>) -> bool {
    forall|k: int| 0 <= k < ws.len() ==> is_word(ws[k])
}

/// The words joined with single spaces.
pub open spec fn spec_join(ws: Seq<Seq<char>>) -> Seq<char>
    decreases ws.len(),
{
    if ws.len() == 0 {
        Seq::empty()
    } else if ws.len() == 1 {
        ws[0]
    } else {
        ws[0] + seq![' '] + spec_join(ws.drop_first())
    }
}

/// Splitting on whitespace, empty fragments dropped, as
/// `str::split_ascii_whitespace` splits: `cur` is the fragment being read,
/// `acc` the fragments already complete.
pub open spec fn split_acc(s: Seq<char>, cur: Seq<char>, acc: Seq<Seq<char>>) -> Seq<Seq<char>>
    decreases s.len(),
{
    if s.len() == 0 {
        if cur.len() == 0 {
            acc
        } else {
            acc.push(cur)
        }
    } else if is_space(s[0]) {
        if cur.len() == 0 {
            split_acc(s.drop_first(), cur, acc)
        } else {
            split_acc(s.drop_first(), Seq::empty(), acc.push(cur))
        }
    } else {
        split_acc(s.drop_first(), cur.push(s[0]), acc)
    }
}

/// The text split into words on whitespace.
pub open spec fn spec_split(s: Seq<char>) -> Seq<Seq<char>> {
    split_acc(s, Seq::empty(), Seq::empty())
}

/// Reading a whitespace-free prefix extends the current fragment by it.
proof fn lemma_split_acc_word(w: Seq<char>, s: Seq<char>, cur: Seq<char>, acc: Seq<Seq<char>>)
    requires
        forall|k: int| 0 <= k < w.len() ==> !is_space(w[k]),
    ensures
        split_acc(w + s, cur, acc) == split_acc(s, cur + w, acc),
    decreases w.len(),
{
    if w.len() == 0 {
        assert(w + s =~= s);
        assert(cur + w =~= cur);
    } else {
        assert(!is_space((w + s)[0]));
        assert((w + s).drop_first() =~= w.drop_first() + s);
        assert(cur.push(w[0]) + w.drop_first() =~= cur + w);
        lemma_split_acc_word(w.drop_first(), s, cur.push(w[0]), acc);
    }
}

/// Splitting the joined words appends exactly those words to the
/// accumulator.
proof fn lemma_split_acc_join(ws: Seq<Seq<char>>, acc: Seq<Seq<char>>)
    requires
        all_words(ws),
    ensures
        split_acc(spec_join(ws), Seq::empty(), acc) == acc + ws,
    decreases ws.len(),
{
    if ws.len() == 0 {
        assert(acc + ws =~= acc);
    } else if ws.len() == 1 {
        lemma_split_acc_word(ws[0], Seq::empty(), Seq::empty(), acc);
        assert(ws[0] + Seq::<char>::empty() =~= ws[0]);
        assert(Seq::<char>::empty() + ws[0] =~= ws[0]);
        assert(acc.push(ws[0]) =~= acc + ws);
    } else {
        let tail = ws.drop_first();
        let rest = seq![' '] + spec_join(tail);
        assert(spec_join(ws) =~= ws[0] + rest);
        lemma_split_acc_word(ws[0], rest, Seq::empty(), acc);
        assert(Seq::<char>::empty() + ws[0] =~= ws[0]);
        assert(is_space(rest[0]));
        assert(rest.drop_first() =~= spec_join(tail));
        lemma_split_acc_join(tail, acc.push(ws[0]));
        assert(acc.push(ws[0]) + tail =~= acc + ws);
    }
}

/// Round trip: joining words with single spaces and re-splitting the result
/// on whitespace reproduces the same word sequence.
pub proof fn lemma_split_join_roundtrip(ws: Seq<Seq<char>>)
    requires
        all_words(ws),
    ensures
        spec_split(spec_join(ws)) == ws,
{
    lemma_split_acc_join(ws, Seq::empty());
    assert(Seq::<Seq<char>>::empty() + ws =~= ws);
}

/// Joining at least one word yields non-empty text.
pub proof fn lemma_join_nonempty(ws: Seq<Seq<char>>)
    requires
        all_words(ws),
        ws.len() > 0,
    ensures
        spec_join(ws).len() > 0,
{
    assert(is_word(ws[0]));
}

/// The index of the last occurrence of `kw` among the words, or nothing.
pub open spec fn last_keyword_index(ws: Seq<Seq<char>>, kw: Seq<char>) -> Option<int>
    decreases ws.len(),
{
    if ws.len() == 0 {
        None
    } else if ws.last() == kw {
        Some(ws.len() - 1)
    } else {
        last_keyword_index(ws.drop_last(), kw)
    }
}

/// The right-to-left search finds the last occurrence and nothing later,
/// or reports that there is none.
pub proof fn lemma_last_keyword_index(ws: Seq<Seq<char>>, kw: Seq<char>)
    ensures
        match last_keyword_index(ws, kw) {
            Some(k) => 0 <= k < ws.len() && ws[k] == kw && (forall|j: int|
                k < j < ws.len() ==> ws[j] != kw),
            None => forall|j: int| 0 <= j < ws.len() ==> ws[j] != kw,
        },
    decreases ws.len(),
{
    if ws.len() > 0 && ws.last() != kw {
        lemma_last_keyword_index(ws.drop_last(), kw);
        assert(forall|j: int| 0 <= j < ws.len() - 1 ==> ws[j] == ws.drop_last()[j]);
    }
}

/// Whether a token equals a fixed keyword.
pub fn token_eq(w: &String, kw: &str) -> (b: bool)
    ensures
        b == (w@ == kw@),
{
    let k: String = kw.to_owned();
    *w == k
}

/// The index of the last token equal to `kw`, searched right to left.
pub fn rposition_token(words: &Vec<String>, kw: &str) -> (r: Option<usize>)
    ensures
        match r {
            Some(k) => k < words.deep_view().len() && last_keyword_index(
                words.deep_view(),
                kw@,
            ) == Some(k as int),
            None => last_keyword_index(words.deep_view(), kw@) is None,
        },
{
    let ghost ws = words.deep_view();
    let mut idx: usize = words.len();
    proof {
        assert(ws.take(ws.len() as int) =~= ws);
    }
    while idx > 0
        invariant
            idx <= words.len(),
            ws == words.deep_view(),
            ws.len() == words.len(),
            last_keyword_index(ws, kw@) == last_keyword_index(ws.take(idx as int), kw@),
        decreases idx,
    {
        proof {
            assert(ws.take(idx as int).last() == ws[idx - 1]);
            assert(ws.take(idx as int).drop_last() =~= ws.take(idx - 1));
        }
        if token_eq(&words[idx - 1], kw) {
            proof {
                assert(ws[idx - 1] == kw@);
                assert(last_keyword_index(ws.take(idx as int), kw@) == Some(idx - 1));
            }
            return Some(idx - 1);
        }
        idx = idx - 1;
    }
    proof {
        assert(ws.take(0) =~= Seq::<Seq<char>>::empty());
    }
    None
}

/// The tokens from `from` on, joined with single spaces.
pub fn join_tokens(words: &Vec<String>, from: usize, to: usize) -> (r: String)
    requires
        from <= to <= words.deep_view().len(),
    ensures
        r@ == spec_join(words.deep_view().subrange(from as int, to as int)),
{
    let ghost ws = words.deep_view();
    let mut r = String::new();
    let mut idx: usize = from;
    while idx < to
        invariant
            from <= idx <= to <= words.len(),
            ws == words.deep_view(),
            ws.len() == words.len(),
            r@ == spec_join(ws.subrange(from as int, idx as int)),
        decreases to - idx,
    {
        proof {
            lemma_join_snoc(ws.subrange(from as int, idx as int), ws[idx as int]);
            assert(ws.subrange(from as int, idx as int).push(ws[idx as int]) =~= ws.subrange(
                from as int,
                idx + 1,
            ));
        }
        if idx > from {
            r.append(" ");
            proof {
                reveal_strlit(" ");
                assert(" "@ =~= seq![' ']);
            }
        }
        r.append(words[idx].as_str());
        idx = idx + 1;
    }
    r
}

/// Joining one more word appends a space and that word, unless the sequence
/// was empty.
proof fn lemma_join_snoc(ws: Seq<Seq<char>>, w: Seq<char>)
    ensures
        spec_join(ws.push(w)) == if ws.len() == 0 {
            w
        } else {
            spec_join(ws) + seq![' '] + w
        },
    decreases ws.len(),
{
    let e = ws.push(w);
    if ws.len() == 0 {
        assert(e.len() == 1);
        assert(e[0] == w);
    } else {
        assert(e.len() >= 2);
        assert(e[0] == ws[0]);
        assert(e.drop_first() =~= ws.drop_first().push(w));
        lemma_join_snoc(ws.drop_first(), w);
        if ws.len() == 1 {
            assert(spec_join(e) == ws[0] + seq![' '] + w);
            assert(spec_join(ws) == ws[0]);
        } else {
            assert(spec_join(e) == e[0] + seq![' '] + spec_join(e.drop_first()));
            assert(spec_join(e) =~= spec_join(ws) + seq![' '] + w);
        }
    }
}

} // verus!
