//! Passphrase assembly: words drawn uniformly, with replacement, from a
//! checked list, one of them optionally marked with a special character,
//! joined by single spaces.

use crate::error::Error;
use crate::text::push_char;
use crate::wordlist::{views, WordList};
use rand::Rng;
use unicode_segmentation::UnicodeSegmentation;
use vstd::prelude::*;

verus! {

/// The number of special characters.
pub const SPECIAL_COUNT: usize = 36;

/// The special characters, one of which may be inserted into a passphrase:
/// ASCII punctuation and digits, neither letters nor whitespace.
pub open spec fn special_chars() -> Seq<char> {
    seq![
        '~', '!', '#', '$', '%', '^', '&', '*', '(', ')', '-', '=', '+', '[', ']', '\\',
        '{', '}', ':', ';', '"', '\'', '<', '>', '?', '/', '0', '1', '2', '3', '4', '5',
        '6', '7', '8', '9',
    ]
}

/// The words joined by single spaces, with no space before the first or
/// after the last.
pub open spec fn join_words(ws: Seq<Seq<char>>) -> Seq<char>
    decreases ws.len(),
{
    if ws.len() == 0 {
        Seq::empty()
    } else if ws.len() == 1 {
        ws[0]
    } else {
        join_words(ws.drop_last()) + seq![' '] + ws.last()
    }
}

/// The word made of the clusters, with `c` inserted before the cluster at
/// `b` (at the end when `b` is the number of clusters).
pub open spec fn insert_at_boundary(clusters: Seq<Seq<char>>, b: int, c: char) -> Seq<char> {
    clusters.take(b).flatten() + seq![c] + clusters.skip(b).flatten()
}

/// The extended grapheme clusters of a text, in order.
pub uninterp spec fn graphemes_of(s: Seq<char>) -> Seq<Seq<char>>;

/// `k` is a grapheme boundary of `w`, counted in characters: it falls
/// before one of the clusters of `w`, or at its end.
pub open spec fn is_grapheme_boundary(w: Seq<char>, k: int) -> bool {
    exists|b: int|
        0 <= b <= graphemes_of(w).len() && k == #[trigger] graphemes_of(w).take(b).flatten().len()
}

/// `tok` is a word of `ws` with one special character inserted at one of its
/// grapheme boundaries.
pub open spec fn is_marked_word(ws: Seq<Seq<char>>, tok: Seq<char>) -> bool {
    exists|w: Seq<char>, k: int, c: char|
        #![trigger ws.contains(w), w.insert(k, c)]
        ws.contains(w) && special_chars().contains(c) && 0 <= k <= w.len()
            && is_grapheme_boundary(w, k) && tok == w.insert(k, c)
}

/// The tokens of a passphrase of `n` words from `ws`: each is a word of the
/// list, except, when `marked`, exactly one that is a marked word.
pub open spec fn are_passphrase_tokens(
    ws: Seq<Seq<char>>,
    n: nat,
    marked: bool,
    tokens: Seq<Seq<char>>,
) -> bool {
    &&& tokens.len() == n
    &&& if !marked {
        forall|i: int| 0 <= i < n ==> ws.contains(#[trigger] tokens[i])
    } else {
        exists|t: int|
            0 <= t < n && is_marked_word(ws, #[trigger] tokens[t]) && forall|i: int|
                0 <= i < n && i != t ==> ws.contains(#[trigger] tokens[i])
    }
}

/// `p` is one of the passphrases that `n` draws from `ws` can give, marked
/// with a special character or not.
pub open spec fn is_passphrase(ws: Seq<Seq<char>>, n: nat, marked: bool, p: Seq<char>) -> bool {
    exists|tokens: Seq<Seq<char>>|
        #[trigger] join_words(tokens) == p && are_passphrase_tokens(ws, n, marked, tokens)
}

/// Relies on rand's `Rng::gen_range` over an inclusive range, drawn from the
/// operating system's generator `OsRng`: the value lies in `0..=max`. (`OsRng`
/// panics only when the operating system cannot provide random bytes.)
#[verifier::external_body]
fn random_up_to(max: usize) -> (r: usize)
    ensures
        r <= max,
{
    rand::rngs::OsRng.gen_range(0..=max)
}

/// Relies on unicode-segmentation's `UnicodeSegmentation::graphemes` with
/// extended clusters: it yields consecutive slices of the word, from its
/// start to its end, so that the clusters concatenated give the word back.
#[verifier::external_body]
fn graphemes(word: &str) -> (r: Vec<String>)
    ensures
        views(r@) == graphemes_of(word@),
        views(r@).flatten() == word@,
{
    word.graphemes(true).map(String::from).collect()
}

/// The special character at `i`.
pub fn special_char(i: usize) -> (c: char)
    requires
        i < SPECIAL_COUNT,
    ensures
        c == special_chars()[i as int],
{
    let set = "~!#$%^&*()-=+[]\\{}:;\"'<>?/0123456789";
    proof {
        reveal_strlit("~!#$%^&*()-=+[]\\{}:;\"'<>?/0123456789");
        assert(set@ =~= special_chars());
    }
    set.get_char(i)
}

/// Joins the tokens with single spaces.
pub fn join(tokens: &Vec<String>) -> (r: String)
    ensures
        r@ == join_words(views(tokens@)),
{
    let ghost ts = views(tokens@);
    let mut out = String::new();
    for i in 0..tokens.len()
        invariant
            ts == views(tokens@),
            out@ == join_words(ts.take(i as int)),
    {
        proof {
            assert(ts.take(i + 1).drop_last() =~= ts.take(i as int));
            assert(ts.take(i as int).len() == 0 ==> ts.take(i + 1) =~= seq![ts[i as int]]);
        }
        if i > 0 {
            push_char(&mut out, ' ');
        }
        out.append(tokens[i].as_str());
    }
    proof {
        assert(ts.take(tokens.len() as int) =~= ts);
    }
    out
}

/// Concatenates the clusters, with `c` inserted before the cluster at
/// `boundary` (at the end when `boundary` is the number of clusters).
pub fn insert_at(clusters: &Vec<String>, boundary: usize, c: char) -> (r: String)
    requires
        boundary <= clusters.len(),
    ensures
        r@ == insert_at_boundary(views(clusters@), boundary as int, c),
{
    let ghost cs = views(clusters@);
    let mut out = String::new();
    for i in 0..boundary
        invariant
            boundary <= clusters.len(),
            cs == views(clusters@),
            out@ == cs.take(i as int).flatten(),
    {
        proof {
            assert(cs.take(i + 1) =~= cs.take(i as int).push(cs[i as int]));
            cs.take(i as int).lemma_flatten_push(cs[i as int]);
            assert(cs[i as int] == clusters@[i as int]@);
        }
        out.append(clusters[i].as_str());
    }
    push_char(&mut out, c);
    let ghost head = out@;
    let n = clusters.len();
    for i in boundary..n
        invariant
            n == clusters.len(),
            cs == views(clusters@),
            head == cs.take(boundary as int).flatten() + seq![c],
            out@ == head + cs.subrange(boundary as int, i as int).flatten(),
    {
        proof {
            assert(cs.subrange(boundary as int, i + 1) =~= cs.subrange(boundary as int, i as int).push(
                cs[i as int],
            ));
            cs.subrange(boundary as int, i as int).lemma_flatten_push(cs[i as int]);
            assert(cs[i as int] == clusters@[i as int]@);
        }
        out.append(clusters[i].as_str());
    }
    proof {
        assert(cs.subrange(boundary as int, n as int) =~= cs.skip(boundary as int));
    }
    out
}

/// The words of the list at the positions `picks`, in order.
pub fn pick_words(list: &WordList, picks: &Vec<usize>) -> (r: Vec<String>)
    requires
        forall|i: int| 0 <= i < picks.len() ==> picks[i] < list@.len(),
    ensures
        views(r@) == picks@.map_values(|p: usize| list@[p as int]),
{
    let mut out: Vec<String> = Vec::new();
    for i in 0..picks.len()
        invariant
            forall|i: int| 0 <= i < picks.len() ==> picks[i] < list@.len(),
            views(out@) == picks@.take(i as int).map_values(|p: usize| list@[p as int]),
    {
        let w = list.word(picks[i]).clone();
        let ghost before = out@;
        out.push(w);
        proof {
            assert(out@ == before.push(w));
            assert(views(out@) =~= views(before).push(w@));
            assert(views(out@) =~= picks@.take(i + 1).map_values(|p: usize| list@[p as int]));
        }
    }
    proof {
        assert(picks@.take(picks.len() as int) =~= picks@);
    }
    out
}

/// Where to put the special character: in the token at `target`, the
/// special character at `special`, before the grapheme cluster at `boundary`
/// (at the end when `boundary` is the number of clusters).
#[derive(Clone, Copy, Debug, PartialEq, Eq, Structural)]
pub struct Mark {
    pub target: usize,
    pub special: usize,
    pub boundary: usize,
}

/// The word `w` with the special character at `special` inserted before its
/// grapheme cluster at `boundary`.
pub open spec fn marked_token(w: Seq<char>, special: int, boundary: int) -> Seq<char> {
    insert_at_boundary(graphemes_of(w), boundary, special_chars()[special])
}

/// The tokens that the draws give: the words of `ws` at `picks`, the one at
/// the mark's target marked.
pub open spec fn drawn_tokens(ws: Seq<Seq<char>>, picks: Seq<usize>, mark: Option<Mark>) -> Seq<
    Seq<char>,
> {
    let plain = picks.map_values(|p: usize| ws[p as int]);
    match mark {
        None => plain,
        Some(m) => plain.update(
            m.target as int,
            marked_token(plain[m.target as int], m.special as int, m.boundary as int),
        ),
    }
}

/// The draws are usable with `ws`: the picks are positions of `ws`, and the
/// mark, if any, names a picked token, a special character and a boundary of
/// that token.
pub open spec fn draws_fit(ws: Seq<Seq<char>>, picks: Seq<usize>, mark: Option<Mark>) -> bool {
    &&& forall|i: int| 0 <= i < picks.len() ==> picks[i] < ws.len()
    &&& mark matches Some(m) ==> {
        &&& m.target < picks.len()
        &&& m.special < SPECIAL_COUNT
        &&& m.boundary <= graphemes_of(ws[picks[m.target as int] as int]).len()
    }
}

/// The number of grapheme clusters of `word`, which has one more boundary
/// than that; the clusters concatenated give the word back.
pub fn grapheme_count(word: &str) -> (r: usize)
    ensures
        r == graphemes_of(word@).len(),
        graphemes_of(word@).flatten() == word@,
{
    graphemes(word).len()
}

/// The passphrase that the draws give: the words of `list` at `picks`,
/// joined by single spaces, with the mark, if any, applied.
pub fn passphrase_from_draws(list: &WordList, picks: &Vec<usize>, mark: Option<Mark>) -> (r:
    String)
    requires
        draws_fit(list@, picks@, mark),
    ensures
        r@ == join_words(drawn_tokens(list@, picks@, mark)),
{
    let mut tokens = pick_words(list, picks);
    proof {
        assert(views(tokens@) =~= drawn_tokens(list@, picks@, None));
    }
    if let Some(m) = mark {
        proof {
            assert(views(tokens@)[m.target as int] == tokens@[m.target as int]@);
            assert(tokens@[m.target as int]@ == list@[picks@[m.target as int] as int]);
        }
        let clusters = graphemes(tokens[m.target].as_str());
        let marked = insert_at(&clusters, m.boundary, special_char(m.special));
        let ghost before = tokens@;
        tokens[m.target] = marked;
        proof {
            assert(views(tokens@) =~= views(before).update(m.target as int, marked@));
            assert(views(tokens@) =~= drawn_tokens(list@, picks@, mark));
        }
    }
    join(&tokens)
}

/// Inserting before the cluster at `b` is inserting at a grapheme boundary,
/// counted in characters.
proof fn lemma_marked_token_inserts(w: Seq<char>, b: int, c: char)
    requires
        graphemes_of(w).flatten() == w,
        0 <= b <= graphemes_of(w).len(),
    ensures
        ({
            let k = graphemes_of(w).take(b).flatten().len() as int;
            &&& 0 <= k <= w.len()
            &&& is_grapheme_boundary(w, k)
            &&& insert_at_boundary(graphemes_of(w), b, c) == w.insert(k, c)
        }),
{
    let cs = graphemes_of(w);
    let head = cs.take(b).flatten();
    let tail = cs.skip(b).flatten();
    assert(cs =~= cs.take(b) + cs.skip(b));
    vstd::seq_lib::lemma_flatten_concat(cs.take(b), cs.skip(b));
    assert(head + tail == w);
    let k = head.len() as int;
    assert(w.subrange(0, k) =~= head);
    assert(w.subrange(k, w.len() as int) =~= tail);
    assert(insert_at_boundary(cs, b, c) =~= w.insert(k, c));
    assert(is_grapheme_boundary(w, k));
}

/// Assembles a passphrase of `word_count` words drawn uniformly, with
/// replacement, from `list`; when `inject_special_char` holds, one of the
/// words, drawn uniformly, gets a special character, drawn uniformly, at one
/// of its grapheme boundaries, drawn uniformly. Fails with `NoWords`, before
/// any draw, when `word_count` is zero.
pub fn assemble(list: &WordList, word_count: usize, inject_special_char: bool) -> (r: Result<
    String,
    Error,
>)
    ensures
        word_count == 0 ==> r matches Err(Error::NoWords),
        word_count > 0 ==> (r matches Ok(p) && is_passphrase(
            list@,
            word_count as nat,
            inject_special_char,
            p@,
        )),
{
    if word_count == 0 {
        return Err(Error::NoWords);
    }
    let n = list.len();
    let mut picks: Vec<usize> = Vec::new();
    while picks.len() < word_count
        invariant
            picks.len() <= word_count,
            n == list@.len(),
            n > 0,
            forall|i: int| 0 <= i < picks.len() ==> picks[i] < n,
        decreases word_count - picks.len(),
    {
        let p = random_up_to(n - 1);
        picks.push(p);
    }
    let ghost ws = list@;
    let mark = if inject_special_char {
        let target = random_up_to(word_count - 1);
        let special = random_up_to(SPECIAL_COUNT - 1);
        let count = grapheme_count(list.word(picks[target]).as_str());
        let boundary = random_up_to(count);
        Some(Mark { target, special, boundary })
    } else {
        None
    };
    let p = passphrase_from_draws(list, &picks, mark);
    proof {
        let plain = picks@.map_values(|p: usize| ws[p as int]);
        let ts = drawn_tokens(ws, picks@, mark);
        assert forall|i: int| 0 <= i < word_count implies ws.contains(#[trigger] plain[i]) by {
            assert(plain[i] == ws[picks@[i] as int]);
        }
        if let Some(m) = mark {
            let w = plain[m.target as int];
            let c = special_chars()[m.special as int];
            lemma_marked_token_inserts(w, m.boundary as int, c);
            assert(is_marked_word(ws, ts[m.target as int])) by {
                assert(ws.contains(w));
                assert(special_chars().contains(c));
            }
            assert forall|i: int| 0 <= i < word_count && i != m.target implies ws.contains(
                #[trigger] ts[i],
            ) by {
                assert(ts[i] == plain[i]);
            }
        }
        assert(are_passphrase_tokens(ws, word_count as nat, inject_special_char, ts));
    }
    Ok(p)
}

} // verus!
