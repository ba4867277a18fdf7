use diceware::passphrase::{
    grapheme_count, insert_at, join, passphrase_from_draws, pick_words, special_char, Mark,
    SPECIAL_COUNT,
};
use diceware::{assemble, make_passphrase, Config, EmbeddedList, Error, WordList, WordSource};

const SPECIALS: &str = "~!#$%^&*()-=+[]\\{}:;\"'<>?/0123456789";

/// The word for `i`: three lowercase letters, different for each `i`.
fn word_for(i: usize) -> String {
    let letters: Vec<char> = "abcdefghijklmnopqrstuvwxyz".chars().collect();
    let mut w = String::new();
    let mut n = i;
    for _ in 0..3 {
        w.insert(0, letters[n % 26]);
        n /= 26;
    }
    w
}

fn letter_list() -> WordList {
    let words: Vec<String> = (0..7776).map(word_for).collect();
    WordList::from_words(words).unwrap()
}

fn accented_list() -> WordList {
    let words: Vec<String> = (0..7776).map(|i| format!("{}e\u{301}", word_for(i))).collect();
    WordList::from_words(words).unwrap()
}

fn is_member(list: &WordList, w: &str) -> bool {
    list.words().iter().any(|x| x == w)
}

/// Whether removing one special character from `token` gives a word of
/// `list`.
fn is_marked(list: &WordList, token: &str) -> bool {
    token.char_indices().any(|(i, c)| {
        if SPECIALS.contains(c) {
            let mut w = token.to_owned();
            w.remove(i);
            is_member(list, &w)
        } else {
            false
        }
    })
}

#[test]
fn lib_returns_an_error_if_number_of_words_is_zero() {
    let config = Config::with_embedded(EmbeddedList::FR, 0, false);
    let result = make_passphrase(&config, "");

    assert!(result.is_err());
    assert_eq!(result.unwrap_err().message(), "No words to generate");
}

#[test]
fn assembles_eight_words_of_the_list() {
    let list = letter_list();
    for _ in 0..5 {
        let p = assemble(&list, 8, false).unwrap();
        let tokens: Vec<&str> = p.split_whitespace().collect();
        assert_eq!(tokens.len(), 8);
        assert!(tokens.iter().all(|t| is_member(&list, t)));
        assert_eq!(p.split(' ').count(), 8);
    }
}

#[test]
fn assembles_one_word() {
    let list = letter_list();
    let p = assemble(&list, 1, false).unwrap();
    assert!(is_member(&list, &p));
}

#[test]
fn refuses_zero_words() {
    let list = letter_list();
    assert!(matches!(assemble(&list, 0, false), Err(Error::NoWords)));
    assert!(matches!(assemble(&list, 0, true), Err(Error::NoWords)));
}

#[test]
fn marks_exactly_one_word() {
    let list = letter_list();
    for n in 1..20 {
        let p = assemble(&list, n, true).unwrap();
        let tokens: Vec<&str> = p.split_whitespace().collect();
        assert_eq!(tokens.len(), n);
        let unknown: Vec<&str> = tokens.iter().copied().filter(|t| !is_member(&list, t)).collect();
        assert_eq!(unknown.len(), 1);
        assert!(is_marked(&list, unknown[0]));
    }
}

#[test]
fn marks_a_single_word_by_one_insertion() {
    let list = letter_list();
    let (mut at_start, mut at_end) = (false, false);
    for _ in 0..200 {
        let p = assemble(&list, 1, true).unwrap();
        let chars: Vec<char> = p.chars().collect();
        assert_eq!(chars.len(), 4);
        assert!(!is_member(&list, &p));
        assert!(is_marked(&list, &p));
        at_start |= SPECIALS.contains(chars[0]);
        at_end |= SPECIALS.contains(chars[3]);
    }
    assert!(at_start && at_end);
}

#[test]
fn marks_only_at_grapheme_boundaries() {
    let list = accented_list();
    let mut inside = false;
    for _ in 0..200 {
        let p = assemble(&list, 1, true).unwrap();
        let chars: Vec<char> = p.chars().collect();
        assert_eq!(chars.len(), 6);
        let accent = chars.iter().position(|&c| c == '\u{301}').unwrap();
        assert_eq!(chars[accent - 1], 'e');
        assert!(is_marked(&list, &p));
        let mark = chars.iter().position(|&c| SPECIALS.contains(c)).unwrap();
        inside |= 0 < mark && mark < 5;
    }
    assert!(inside);
}

#[test]
fn makes_a_passphrase_from_a_list_text() {
    let text: String = (0..7776).map(|i| word_for(i) + "\n").collect();
    let config = Config::with_filename("words.txt", 6, false);
    let p = make_passphrase(&config, &text).unwrap();
    let list = letter_list();
    let tokens: Vec<&str> = p.split_whitespace().collect();
    assert_eq!(tokens.len(), 6);
    assert!(tokens.iter().all(|t| is_member(&list, t)));
}

#[test]
fn makes_no_passphrase_from_an_invalid_list() {
    let config = Config::with_filename("words.txt", 6, true);
    match make_passphrase(&config, "a\nb\n") {
        Err(Error::WordList(e)) => assert_eq!(e.message(), "Word list: invalid length (2, expected 7776)"),
        _ => panic!("expected a word list error"),
    }
}

#[test]
fn refuses_zero_words_before_reading_the_list() {
    let config = Config::with_filename("words.txt", 0, true);
    assert!(matches!(make_passphrase(&config, "a\na\n"), Err(Error::NoWords)));
}

#[test]
fn joins_with_single_spaces() {
    let words: Vec<String> = vec!["a".into(), "bc".into(), "d".into()];
    assert_eq!(join(&words), "a bc d");
    assert_eq!(join(&vec!["x".to_string()]), "x");
    assert_eq!(join(&Vec::new()), "");
}

#[test]
fn inserts_at_cluster_boundaries() {
    let clusters: Vec<String> = vec!["a".into(), "e\u{301}".into(), "b".into()];
    assert_eq!(insert_at(&clusters, 0, '!'), "!ae\u{301}b");
    assert_eq!(insert_at(&clusters, 1, '!'), "a!e\u{301}b");
    assert_eq!(insert_at(&clusters, 2, '7'), "ae\u{301}7b");
    assert_eq!(insert_at(&clusters, 3, '#'), "ae\u{301}b#");
    assert_eq!(insert_at(&Vec::new(), 0, '#'), "#");
}

#[test]
fn lists_the_special_characters() {
    let all: String = (0..SPECIAL_COUNT).map(special_char).collect();
    assert_eq!(all, SPECIALS);
    assert_eq!(special_char(0), '~');
    assert_eq!(special_char(15), '\\');
    assert_eq!(special_char(35), '9');
}

#[test]
fn picks_the_words_at_the_given_positions() {
    let list = letter_list();
    let words = pick_words(&list, &vec![0, 27, 0, 7775]);
    assert_eq!(words, vec!["aaa".to_string(), "abb".into(), "aaa".into(), word_for(7775)]);
}

#[test]
fn configurations_keep_what_they_are_given() {
    let c = Config::with_filename("list.txt", 8, true);
    assert!(matches!(c.source(), WordSource::File(f) if f == "list.txt"));
    assert_eq!(c.words(), 8);
    assert!(c.with_special_char());
    let c = Config::with_embedded(EmbeddedList::EN, 6, false);
    assert!(matches!(c.source(), WordSource::Embedded(EmbeddedList::EN)));
    assert_eq!(c.words(), 6);
    assert!(!c.with_special_char());
}

#[test]
fn joins_the_drawn_words() {
    let list = letter_list();
    assert_eq!(passphrase_from_draws(&list, &vec![0, 27, 0], None), "aaa abb aaa");
    assert_eq!(passphrase_from_draws(&list, &vec![7775], None), word_for(7775));
}

#[test]
fn applies_the_drawn_mark() {
    let list = letter_list();
    let picks = vec![0, 27, 0];
    let at = |target, special, boundary| {
        passphrase_from_draws(&list, &picks, Some(Mark { target, special, boundary }))
    };
    assert_eq!(at(1, 0, 0), "aaa ~abb aaa");
    assert_eq!(at(1, 35, 3), "aaa abb9 aaa");
    assert_eq!(at(0, 15, 1), "a\\aa abb aaa");
    assert_eq!(at(2, 1, 2), "aaa abb aa!a");
}

#[test]
fn marks_between_grapheme_clusters() {
    let list = accented_list();
    let p = passphrase_from_draws(&list, &vec![1], Some(Mark { target: 0, special: 2, boundary: 3 }));
    assert_eq!(p, "aab#e\u{301}");
    let p = passphrase_from_draws(&list, &vec![1], Some(Mark { target: 0, special: 2, boundary: 4 }));
    assert_eq!(p, "aabe\u{301}#");
}

#[test]
fn counts_grapheme_clusters() {
    assert_eq!(grapheme_count("ae\u{301}b"), 3);
    assert_eq!(grapheme_count("a\r\nb"), 3);
    assert_eq!(grapheme_count("abc"), 3);
    assert_eq!(grapheme_count(""), 0);
}
