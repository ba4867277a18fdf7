use diceware::wordlist::{first_repeat, split_lines, LIST_LEN};
use diceware::{WordList, WordListError};

/// The word for `i`: three or more lowercase letters, different for each `i`.
fn word_for(i: usize) -> String {
    let letters: Vec<char> = "abcdefghijklmnopqrstuvwxyz".chars().collect();
    let mut w = String::new();
    let mut n = i;
    for _ in 0..3 {
        w.insert(0, letters[n % 26]);
        n /= 26;
    }
    w
}

fn list_text(n: usize) -> String {
    let mut text = String::new();
    for i in 0..n {
        text.push_str(&word_for(i));
        text.push('\n');
    }
    text
}

#[test]
fn splits_lines_on_line_feeds() {
    assert_eq!(split_lines("a\nb"), vec!["a", "b"]);
    assert_eq!(split_lines("a\nb\n"), vec!["a", "b"]);
    assert_eq!(split_lines("a\n\n"), vec!["a", ""]);
    assert_eq!(split_lines("\n"), vec![""]);
    assert!(split_lines("").is_empty());
}

#[test]
fn splits_lines_dropping_carriage_returns_before_line_feeds() {
    assert_eq!(split_lines("a\r\nb\r\n"), vec!["a", "b"]);
    assert_eq!(split_lines("a\r\r\nb"), vec!["a\r", "b"]);
    assert_eq!(split_lines("a\nb\r"), vec!["a", "b\r"]);
    assert_eq!(split_lines("Église\nété"), vec!["Église", "été"]);
}

#[test]
fn finds_the_first_repeat_in_scan_order() {
    let words: Vec<String> = ["a", "b", "c", "b", "a"].iter().map(|s| s.to_string()).collect();
    assert_eq!(first_repeat(&words), Some(3));
    let words: Vec<String> = ["a", "b", "c"].iter().map(|s| s.to_string()).collect();
    assert_eq!(first_repeat(&words), None);
    assert_eq!(first_repeat(&Vec::new()), None);
}

#[test]
fn loads_a_list_of_unique_words() {
    let text = list_text(7776);
    let list = WordList::load(&text).unwrap();
    assert_eq!(list.len(), LIST_LEN);
    assert_eq!(list.word(0), "aaa");
    assert_eq!(list.word(1), "aab");
    assert_eq!(list.word(7775), &word_for(7775));
    assert_eq!(list.words().len(), 7776);
}

#[test]
fn loads_a_list_without_final_line_ending() {
    let text = list_text(7776);
    let list = WordList::load(text.trim_end()).unwrap();
    assert_eq!(list.word(7775), &word_for(7775));
}

#[test]
fn loads_a_list_with_crlf_line_endings() {
    let text = list_text(7776).replace('\n', "\r\n");
    let list = WordList::load(&text).unwrap();
    assert_eq!(list.word(3), "aad");
}

#[test]
fn rejects_a_list_one_line_short() {
    match WordList::load(&list_text(7775)) {
        Err(WordListError::InvalidLength(n)) => assert_eq!(n, 7775),
        _ => panic!("expected an invalid length"),
    }
}

#[test]
fn rejects_a_list_one_line_long() {
    match WordList::load(&list_text(7777)) {
        Err(WordListError::InvalidLength(n)) => assert_eq!(n, 7777),
        _ => panic!("expected an invalid length"),
    }
}

#[test]
fn rejects_an_empty_list() {
    match WordList::load("") {
        Err(WordListError::InvalidLength(n)) => assert_eq!(n, 0),
        _ => panic!("expected an invalid length"),
    }
}

#[test]
fn counts_a_final_empty_line_only_when_it_is_ended() {
    let text = list_text(7775) + "\n";
    match WordList::load(&text) {
        Err(WordListError::DuplicateWord(_)) => panic!("an empty line is unique here"),
        Err(WordListError::InvalidLength(n)) => panic!("unexpected length {}", n),
        Ok(list) => assert_eq!(list.word(7775), ""),
    }
}

#[test]
fn rejects_a_list_whose_line_42_repeats_line_10() {
    let mut words: Vec<String> = (0..7776).map(word_for).collect();
    words[41] = words[9].clone();
    let text = words.join("\n");
    match WordList::load(&text) {
        Err(WordListError::DuplicateWord(w)) => assert_eq!(w, word_for(9)),
        _ => panic!("expected a duplicate word"),
    }
}

#[test]
fn names_the_first_repeat_encountered() {
    let mut words: Vec<String> = (0..7776).map(word_for).collect();
    words[500] = words[100].clone();
    words[300] = words[200].clone();
    match WordList::from_words(words) {
        Err(WordListError::DuplicateWord(w)) => assert_eq!(w, word_for(200)),
        _ => panic!("expected a duplicate word"),
    }
}

#[test]
fn checks_length_before_duplicates() {
    let words: Vec<String> = vec!["same".to_string(); 10];
    match WordList::from_words(words) {
        Err(WordListError::InvalidLength(n)) => assert_eq!(n, 10),
        _ => panic!("expected an invalid length"),
    }
}

#[test]
fn loading_twice_gives_the_same_list() {
    let text = list_text(7776);
    let a = WordList::load(&text).unwrap();
    let b = WordList::load(&text).unwrap();
    assert_eq!(a.words(), b.words());
}

#[test]
fn checks_a_compiled_table() {
    let words: Vec<String> = (0..7776).map(word_for).collect();
    let table: Vec<&str> = words.iter().map(|w| w.as_str()).collect();
    let list = WordList::from_table(&table).unwrap();
    assert_eq!(list.word(100), &word_for(100));
    let short: Vec<&str> = table[..7000].to_vec();
    assert!(matches!(WordList::from_table(&short), Err(WordListError::InvalidLength(7000))));
    let mut twice = table.clone();
    twice[7775] = table[0];
    match WordList::from_table(&twice) {
        Err(WordListError::DuplicateWord(w)) => assert_eq!(w, "aaa"),
        _ => panic!("expected a duplicate word"),
    }
}
