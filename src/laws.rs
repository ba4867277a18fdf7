//! Properties that relate the functions of the library to each other, or
//! hold of every passphrase they can make.

use crate::error::WordListError;
use crate::passphrase::{
    are_passphrase_tokens, is_grapheme_boundary, is_passphrase, join_words, special_chars,
};
use crate::text::split_on;
use crate::wordlist::{checked, is_first_repeat, lines_of};
use vstd::prelude::*;

verus! {

/// No word of `ws` holds a space.
pub open spec fn spaceless(ws: Seq<Seq<char>>) -> bool {
    forall|i: int| 0 <= i < ws.len() ==> !(#[trigger] ws[i]).contains(' ')
}

/// Inserting a special character at a grapheme boundary of a word of `ws`
/// never gives a word of `ws`.
pub open spec fn marks_leave_list(ws: Seq<Seq<char>>) -> bool {
    forall|w: Seq<char>, k: int, c: char|
        #![trigger ws.contains(w), w.insert(k, c)]
        ws.contains(w) && special_chars().contains(c) && 0 <= k <= w.len() && is_grapheme_boundary(
            w,
            k,
        ) ==> !ws.contains(w.insert(k, c))
}

/// A text without a separator is a single segment.
proof fn lemma_split_without_sep(t: Seq<char>, sep: char)
    requires
        !t.contains(sep),
    ensures
        split_on(t, sep) == seq![t],
    decreases t.len(),
{
    if t.len() == 0 {
        assert(t =~= Seq::<char>::empty());
    } else {
        let init = t.drop_last();
        assert(!init.contains(sep)) by {
            if init.contains(sep) {
                let i = choose|i: int| 0 <= i < init.len() && init[i] == sep;
                assert(t[i] == sep);
            }
        }
        lemma_split_without_sep(init, sep);
        assert(t[t.len() - 1] != sep);
        assert(init.push(t.last()) =~= t);
        assert(split_on(t, sep) =~= seq![t]);
    }
}

/// Splitting a text, a separator and a segment without separator gives the
/// segments of the text and then that segment.
proof fn lemma_split_after_sep(a: Seq<char>, b: Seq<char>, sep: char)
    requires
        !b.contains(sep),
    ensures
        split_on(a + seq![sep] + b, sep) == split_on(a, sep).push(b),
    decreases b.len(),
{
    let s = a + seq![sep] + b;
    if b.len() == 0 {
        assert(s.drop_last() =~= a);
        assert(s.last() == sep);
        assert(b =~= Seq::<char>::empty());
        assert(split_on(s, sep) == split_on(s.drop_last(), sep).push(Seq::empty()));
    } else {
        let init = b.drop_last();
        assert(!init.contains(sep)) by {
            if init.contains(sep) {
                let i = choose|i: int| 0 <= i < init.len() && init[i] == sep;
                assert(b[i] == sep);
            }
        }
        lemma_split_after_sep(a, init, sep);
        assert(s.drop_last() =~= a + seq![sep] + init);
        assert(b[b.len() - 1] != sep);
        assert(init.push(b.last()) =~= b);
        assert(split_on(s, sep) =~= split_on(a, sep).push(b));
    }
}

/// Splitting words joined by single spaces on spaces gives the words back,
/// when none of them holds a space.
pub proof fn lemma_split_join(tokens: Seq<Seq<char>>)
    requires
        tokens.len() >= 1,
        spaceless(tokens),
    ensures
        split_on(join_words(tokens), ' ') == tokens,
    decreases tokens.len(),
{
    if tokens.len() == 1 {
        lemma_split_without_sep(tokens[0], ' ');
        assert(tokens =~= seq![tokens[0]]);
    } else {
        let init = tokens.drop_last();
        lemma_split_join(init);
        assert(!tokens[tokens.len() - 1].contains(' '));
        lemma_split_after_sep(join_words(init), tokens.last(), ' ');
        assert(init.push(tokens.last()) =~= tokens);
    }
}

/// No special character is a space.
pub proof fn lemma_special_not_space()
    ensures
        !special_chars().contains(' '),
{
    let sc = special_chars();
    assert forall|i: int| 0 <= i < sc.len() implies sc[i] != ' ' by {}
}

/// A word without a space keeps none when a special character is inserted.
proof fn lemma_insert_spaceless(w: Seq<char>, k: int, c: char)
    requires
        !w.contains(' '),
        special_chars().contains(c),
        0 <= k <= w.len(),
    ensures
        !w.insert(k, c).contains(' '),
{
    lemma_special_not_space();
    let m = w.insert(k, c);
    if m.contains(' ') {
        let i = choose|i: int| 0 <= i < m.len() && m[i] == ' ';
        w.insert_ensures(k, c);
        if i < k {
            assert(w[i] == ' ');
        } else if i > k {
            assert(w[i - 1] == ' ');
        }
    }
}

/// Split on spaces, a passphrase of `n` words, from a list whose words hold
/// no space, gives exactly `n` tokens; without a special character each of
/// them is a word of the list.
pub proof fn lemma_passphrase_tokens(ws: Seq<Seq<char>>, n: nat, marked: bool, p: Seq<char>)
    requires
        n >= 1,
        spaceless(ws),
        is_passphrase(ws, n, marked, p),
    ensures
        split_on(p, ' ').len() == n,
        !marked ==> forall|i: int| 0 <= i < n ==> ws.contains(#[trigger] split_on(p, ' ')[i]),
{
    let tokens = choose|tokens: Seq<Seq<char>>|
        #[trigger] join_words(tokens) == p && are_passphrase_tokens(ws, n, marked, tokens);
    assert(spaceless(tokens)) by {
        assert forall|i: int| 0 <= i < tokens.len() implies !(#[trigger] tokens[i]).contains(' ') by {
            lemma_token_spaceless(ws, n, marked, tokens, i);
        }
    }
    lemma_split_join(tokens);
}

/// Each token of a passphrase from a list without spaces is without space.
proof fn lemma_token_spaceless(
    ws: Seq<Seq<char>>,
    n: nat,
    marked: bool,
    tokens: Seq<Seq<char>>,
    i: int,
)
    requires
        spaceless(ws),
        are_passphrase_tokens(ws, n, marked, tokens),
        0 <= i < tokens.len(),
    ensures
        !tokens[i].contains(' '),
{
    if ws.contains(tokens[i]) {
        let j = choose|j: int| 0 <= j < ws.len() && ws[j] == tokens[i];
        assert(!ws[j].contains(' '));
    } else {
        let t = choose|t: int|
            0 <= t < n && crate::passphrase::is_marked_word(ws, #[trigger] tokens[t]) && forall|
                i: int,
            | 0 <= i < n && i != t ==> ws.contains(#[trigger] tokens[i]);
        assert(i == t);
        let (w, k, c) = choose|w: Seq<char>, k: int, c: char|
            #![trigger ws.contains(w), w.insert(k, c)]
            ws.contains(w) && special_chars().contains(c) && 0 <= k <= w.len()
                && is_grapheme_boundary(w, k) && tokens[t] == w.insert(k, c);
        let j = choose|j: int| 0 <= j < ws.len() && ws[j] == w;
        assert(!ws[j].contains(' '));
        lemma_insert_spaceless(w, k, c);
    }
}

/// With a special character, from a list whose words hold no space and that
/// no insertion of a special character maps into itself: exactly one token
/// of the passphrase is not a word of the list, and removing one special
/// character from it, at some position, gives a word of the list.
pub proof fn lemma_marked_passphrase(ws: Seq<Seq<char>>, n: nat, p: Seq<char>)
    requires
        n >= 1,
        spaceless(ws),
        marks_leave_list(ws),
        is_passphrase(ws, n, true, p),
    ensures
        split_on(p, ' ').len() == n,
        exists|t: int|
            #![trigger split_on(p, ' ')[t]]
            {
                let toks = split_on(p, ' ');
                &&& 0 <= t < n
                &&& !ws.contains(toks[t])
                &&& forall|i: int| 0 <= i < n && i != t ==> ws.contains(#[trigger] toks[i])
                &&& exists|k: int|
                    0 <= k < toks[t].len() && special_chars().contains(#[trigger] toks[t][k])
                        && ws.contains(toks[t].remove(k))
            },
{
    let tokens = choose|tokens: Seq<Seq<char>>|
        #[trigger] join_words(tokens) == p && are_passphrase_tokens(ws, n, true, tokens);
    lemma_passphrase_tokens(ws, n, true, p);
    assert(spaceless(tokens)) by {
        assert forall|i: int| 0 <= i < tokens.len() implies !(#[trigger] tokens[i]).contains(' ') by {
            lemma_token_spaceless(ws, n, true, tokens, i);
        }
    }
    lemma_split_join(tokens);
    let t = choose|t: int|
        0 <= t < n && crate::passphrase::is_marked_word(ws, #[trigger] tokens[t]) && forall|i: int|
            0 <= i < n && i != t ==> ws.contains(#[trigger] tokens[i]);
    let (w, k, c) = choose|w: Seq<char>, k: int, c: char|
        #![trigger ws.contains(w), w.insert(k, c)]
        ws.contains(w) && special_chars().contains(c) && 0 <= k <= w.len() && is_grapheme_boundary(
            w,
            k,
        ) && tokens[t] == w.insert(k, c);
    w.insert_ensures(k, c);
    assert(w.insert(k, c).remove(k) =~= w);
    assert(!ws.contains(tokens[t]));
}

/// Loading the same text twice gives lists with the same words in the same
/// order, or the same error.
pub proof fn lemma_load_repeatable(
    text: Seq<char>,
    r1: Result<crate::wordlist::WordList, WordListError>,
    r2: Result<crate::wordlist::WordList, WordListError>,
)
    requires
        checked(lines_of(text), r1),
        checked(lines_of(text), r2),
    ensures
        r1 is Ok <==> r2 is Ok,
        r1 matches Ok(a) ==> (r2 matches Ok(b) && a@ == b@),
        r1 matches Err(WordListError::InvalidLength(a)) ==> (r2 matches Err(
            WordListError::InvalidLength(b),
        ) && a == b),
        r1 matches Err(WordListError::DuplicateWord(a)) ==> (r2 matches Err(
            WordListError::DuplicateWord(b),
        ) && a@ == b@),
{
    let ws = lines_of(text);
    assert forall|j1: int, j2: int| is_first_repeat(ws, j1) && is_first_repeat(ws, j2) implies j1
        == j2 by {
        if j1 < j2 {
            assert(!crate::wordlist::repeats_earlier(ws, j1));
        } else if j2 < j1 {
            assert(!crate::wordlist::repeats_earlier(ws, j2));
        }
    }
}

} // verus!
