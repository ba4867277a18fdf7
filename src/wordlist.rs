//! Word lists: reading them from text, and checking them.
//!
//! A word list holds exactly 7776 words (the number of outcomes of five
//! six-sided dice), all different. Every list is checked before it is used,
//! so that nobody has to trust the provider of a list.

use crate::error::WordListError;
use crate::text::{lemma_split_on_len, pop_char, push_char, split_on};
use vstd::prelude::*;

verus! {

/// The number of words in a valid list: six to the power five.
pub const LIST_LEN: usize = 7776;

/// The text of each string, in order.
pub open spec fn views(v: Seq<String>) -> Seq<Seq<char>> {
    v.map_values(|s: String| s@)
}

/// A line ended by a line feed loses one carriage return before it.
pub open spec fn strip_cr(l: Seq<char>) -> Seq<char> {
    if l.len() > 0 && l.last() == '\r' {
        l.drop_last()
    } else {
        l
    }
}

/// The lines of `s`: lines end with `"\n"` or `"\r\n"`, which are not part of
/// them, and the last line needs no ending. An empty text has no line; a text
/// that ends with a line ending has no empty line after it.
pub open spec fn lines_of(s: Seq<char>) -> Seq<Seq<char>> {
    let segs = split_on(s, '\n');
    let ended = segs.drop_last().map_values(|l: Seq<char>| strip_cr(l));
    if segs.last().len() == 0 {
        ended
    } else {
        ended.push(segs.last())
    }
}

/// No word appears twice.
pub open spec fn no_duplicates(ws: Seq<Seq<char>>) -> bool {
    forall|i: int, j: int| 0 <= i < j < ws.len() ==> ws[i] != ws[j]
}

/// The word at `j` appeared before.
pub open spec fn repeats_earlier(ws: Seq<Seq<char>>, j: int) -> bool {
    exists|i: int| 0 <= i < j && ws[i] == ws[j]
}

/// `j` is the first position, in scan order, whose word appeared before.
pub open spec fn is_first_repeat(ws: Seq<Seq<char>>, j: int) -> bool {
    &&& 0 <= j < ws.len()
    &&& repeats_earlier(ws, j)
    &&& forall|k: int| 0 <= k < j ==> !repeats_earlier(ws, k)
}

/// A valid word list: exactly `LIST_LEN` words, all different.
pub open spec fn is_valid_list(ws: Seq<Seq<char>>) -> bool {
    ws.len() == LIST_LEN && no_duplicates(ws)
}

/// What checking the candidate words `ws` gives: the length error first,
/// then the first repeated word in scan order, else the list itself.
pub open spec fn checked(ws: Seq<Seq<char>>, r: Result<WordList, WordListError>) -> bool {
    if ws.len() != LIST_LEN {
        r matches Err(WordListError::InvalidLength(n)) && n == ws.len()
    } else if no_duplicates(ws) {
        r matches Ok(l) && l@ == ws
    } else {
        r matches Err(WordListError::DuplicateWord(w)) && exists|j: int|
            is_first_repeat(ws, j) && w@ == ws[j]
    }
}

/// A checked word list: exactly `LIST_LEN` words, all different, in the
/// order in which they were given.
pub struct WordList {
    words: Vec<String>,
}

impl View for WordList {
    type V = Seq<Seq<char>>;

    closed spec fn view(&self) -> Seq<Seq<char>> {
        views(self.words@)
    }
}

impl WordList {
    #[verifier::type_invariant]
    spec fn inv(self) -> bool {
        is_valid_list(views(self.words@))
    }

    /// Checks the candidate words `words`: fails with `InvalidLength` when
    /// there are not `LIST_LEN` of them, else with `DuplicateWord` on the
    /// first word, in scan order, that appeared before.
    pub fn from_words(words: Vec<String>) -> (r: Result<WordList, WordListError>)
        ensures
            checked(views(words@), r),
    {
        if words.len() != LIST_LEN {
            return Err(WordListError::InvalidLength(words.len()));
        }
        match first_repeat(&words) {
            Some(j) => {
                let w = words[j].clone();
                Err(WordListError::DuplicateWord(w))
            },
            None => Ok(WordList { words }),
        }
    }

    /// Checks a table of words compiled into a program, as `from_words` does.
    pub fn from_table(table: &[&str]) -> (r: Result<WordList, WordListError>)
        ensures
            checked(table@.map_values(|w: &str| w@), r),
    {
        let mut words: Vec<String> = Vec::new();
        for i in 0..table.len()
            invariant
                views(words@) == table@.take(i as int).map_values(|w: &str| w@),
        {
            let ghost before = words@;
            words.push(String::from_str(table[i]));
            proof {
                assert(views(words@) =~= views(before).push(table@[i as int]@));
                assert(views(words@) =~= table@.take(i + 1).map_values(|w: &str| w@));
            }
        }
        proof {
            assert(table@.take(table@.len() as int) =~= table@);
        }
        WordList::from_words(words)
    }

    /// Reads a word list from the text of a word file, one word per line (see
    /// `lines_of`), and checks it as `from_words` does.
    pub fn load(text: &str) -> (r: Result<WordList, WordListError>)
        ensures
            checked(lines_of(text@), r),
    {
        let words = split_lines(text);
        WordList::from_words(words)
    }

    /// The number of words, which is always `LIST_LEN`; the list is valid.
    pub fn len(&self) -> (r: usize)
        ensures
            r == self@.len(),
            is_valid_list(self@),
    {
        proof {
            use_type_invariant(self);
        }
        self.words.len()
    }

    /// The word at `i`.
    pub fn word(&self, i: usize) -> (r: &String)
        requires
            i < self@.len(),
        ensures
            r@ == self@[i as int],
    {
        &self.words[i]
    }

    /// All the words, in order.
    pub fn words(&self) -> (r: &Vec<String>)
        ensures
            views(r@) == self@,
    {
        &self.words
    }
}

/// The number of buckets of the duplicate scan.
const BUCKETS: usize = 8192;

/// The bucket of a word in the duplicate scan: a polynomial hash of its
/// characters, below `BUCKETS`. Equal words share a bucket.
spec fn bucket_of(w: Seq<char>) -> nat
    decreases w.len(),
{
    if w.len() == 0 {
        0
    } else {
        ((bucket_of(w.drop_last()) * 31 + (w.last() as u32) as nat) % (BUCKETS as nat)) as nat
    }
}

fn bucket(w: &String) -> (r: usize)
    ensures
        r == bucket_of(w@),
        r < BUCKETS,
{
    broadcast use vstd::string::group_string_axioms;

    let mut h: usize = 0;
    let ghost mut seen: Seq<char> = Seq::empty();
    for c in it: w.as_str().chars()
        invariant
            it.seq() == w@,
            seen == w@.take(it.index()),
            h == bucket_of(seen),
            h < BUCKETS,
    {
        proof {
            assert(seen.push(c).drop_last() =~= seen);
            assert(w@.take(it.index() + 1) =~= seen.push(c));
            seen = seen.push(c);
        }
        let code: u64 = (c as u32) as u64;
        h = ((h as u64 * 31 + code) % (BUCKETS as u64)) as usize;
    }
    proof {
        assert(seen =~= w@);
    }
    h
}

/// The first position, in scan order, whose word appeared before, if any.
///
/// Each word is compared only with the earlier words of its bucket, so that
/// the scan takes about one comparison per word. (A `HashSet` of the words
/// would do the same, but vstd gives string keys no hashing model to prove
/// it by.)
pub fn first_repeat(words: &Vec<String>) -> (r: Option<usize>)
    ensures
        r matches Some(j) ==> is_first_repeat(views(words@), j as int),
        r is None <==> no_duplicates(views(words@)),
{
    let ghost ws = views(words@);
    let mut buckets: Vec<Vec<usize>> = Vec::new();
    for k in 0..BUCKETS
        invariant
            buckets.len() == k,
            forall|b: int| 0 <= b < buckets.len() ==> buckets[b].len() == 0,
    {
        buckets.push(Vec::new());
    }
    let n = words.len();
    for j in 0..n
        invariant
            n == words@.len(),
            ws == views(words@),
            buckets.len() == BUCKETS,
            forall|b: int, x: int|
                0 <= b < BUCKETS && 0 <= x < buckets[b].len() ==> {
                    let i = #[trigger] buckets[b][x] as int;
                    &&& 0 <= i < j
                    &&& bucket_of(ws[i]) == b
                },
            forall|i: int|
                0 <= i < j ==> #[trigger] buckets[bucket_of(ws[i]) as int]@.contains(i as usize),
            forall|k: int| 0 <= k < j ==> !repeats_earlier(ws, k),
    {
        let h = bucket(&words[j]);
        assert(ws[j as int] == words@[j as int]@);
        let m = buckets[h].len();
        for x in 0..m
            invariant
                n == words@.len(),
                j < n,
                ws == views(words@),
                buckets.len() == BUCKETS,
                h < BUCKETS,
                m == buckets[h as int].len(),
                forall|b: int, x: int|
                    0 <= b < BUCKETS && 0 <= x < buckets[b].len() ==> {
                        let i = #[trigger] buckets[b][x] as int;
                        &&& 0 <= i < j
                        &&& bucket_of(ws[i]) == b
                    },
                forall|y: int| 0 <= y < x ==> ws[#[trigger] buckets[h as int][y] as int] != ws[j as int],
                forall|k: int| 0 <= k < j ==> !repeats_earlier(ws, k),
        {
            let i = buckets[h][x];
            assert(ws[i as int] == words@[i as int]@);
            if words[i] == words[j] {
                assert(repeats_earlier(ws, j as int));
                return Some(j);
            }
        }
        assert(!repeats_earlier(ws, j as int)) by {
            if repeats_earlier(ws, j as int) {
                let i = choose|i: int| 0 <= i < j && ws[i] == ws[j as int];
                assert(buckets[bucket_of(ws[i]) as int]@.contains(i as usize));
                let y = choose|y: int|
                    0 <= y < buckets[h as int].len() && buckets[h as int][y] == i as usize;
                assert(ws[buckets[h as int][y] as int] != ws[j as int]);
            }
        }
        let ghost before = buckets@;
        assert forall|i: int| 0 <= i < j implies (#[trigger] before[bucket_of(
            ws[i],
        ) as int])@.contains(i as usize) by {
            assert(buckets[bucket_of(ws[i]) as int]@.contains(i as usize));
        }
        buckets[h].push(j);
        proof {
            assert forall|b: int| 0 <= b < BUCKETS && b != h implies buckets[b] == before[b] by {}
            assert(buckets[h as int]@ == before[h as int]@.push(j));
            assert forall|i: int| 0 <= i < j + 1 implies #[trigger] buckets[bucket_of(
                ws[i],
            ) as int]@.contains(i as usize) by {
                if i < j {
                    let b = bucket_of(ws[i]) as int;
                    assert(before[b]@.contains(i as usize));
                    let y = choose|y: int| 0 <= y < before[b]@.len() && before[b]@[y] == i as usize;
                    assert(buckets[b]@[y] == i as usize);
                } else {
                    assert(buckets[h as int]@[before[h as int]@.len() as int] == j);
                }
            }
        }
    }
    proof {
        assert forall|i: int, j: int| 0 <= i < j < ws.len() implies ws[i] != ws[j] by {
            assert(!repeats_earlier(ws, j));
        }
    }
    None
}

/// Splits `text` into its lines, in order (see `lines_of`).
pub fn split_lines(text: &str) -> (r: Vec<String>)
    ensures
        views(r@) == lines_of(text@),
{
    broadcast use vstd::string::group_string_axioms;

    let mut lines: Vec<String> = Vec::new();
    let mut cur = String::new();
    let ghost mut seen: Seq<char> = Seq::empty();
    for c in it: text.chars()
        invariant
            it.seq() == text@,
            seen == text@.take(it.index()),
            views(lines@) == split_on(seen, '\n').drop_last().map_values(|l: Seq<char>| strip_cr(l)),
            cur@ == split_on(seen, '\n').last(),
    {
        proof {
            assert(seen.push(c).drop_last() =~= seen);
            assert(text@.take(it.index() + 1) =~= seen.push(c));
        }
        let ghost before = split_on(seen, '\n');
        proof {
            lemma_split_on_len(seen, '\n');
        }
        if c == '\n' {
            let ghost old_lines = views(lines@);
            if ends_with_cr(&cur) {
                pop_char(&mut cur);
            }
            assert(cur@ == strip_cr(before.last()));
            lines.push(cur);
            assert(views(lines@) =~= old_lines.push(strip_cr(before.last())));
            cur = String::new();
            proof {
                seen = seen.push(c);
                assert(split_on(seen, '\n').drop_last() =~= before);
                assert(views(lines@) =~= before.map_values(|l: Seq<char>| strip_cr(l)));
            }
        } else {
            push_char(&mut cur, c);
            proof {
                seen = seen.push(c);
                assert(split_on(seen, '\n').drop_last() =~= before.drop_last());
            }
        }
    }
    proof {
        assert(seen =~= text@);
    }
    if !cur.as_str().is_empty() {
        lines.push(cur);
        proof {
            assert(views(lines@) =~= lines_of(text@));
        }
    } else {
        proof {
            assert(cur@.len() == 0);
        }
    }
    lines
}

fn ends_with_cr(s: &String) -> (r: bool)
    ensures
        r == (s@.len() > 0 && s@.last() == '\r'),
{
    let n = s.as_str().unicode_len();
    n > 0 && s.as_str().get_char(n - 1) == '\r'
}

} // verus!
