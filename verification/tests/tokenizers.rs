use voltic::tokenizers::{pre_tokenize, pre_tokenize_words};
use voltic::{BpeTokenizer, Tokenizer, TrieTokenTokenizer, WordPieceTokenizer};

#[test]
fn tokenizer_bpe_test() {
    let text = "hello world hello voltic";
    let tokenizer = BpeTokenizer::train(text, 100);

    let tokens = tokenizer.encode("hello");
    assert!(tokens.len() > 0);

    let decoded = tokenizer.decode(&tokens);
    assert!(decoded.contains("hello"));
}

#[test]
fn tokenizer_wordpiece_test() {
    let text = "hello world hello voltic";
    let tokenizer = WordPieceTokenizer::train(text, 100);

    let tokens = tokenizer.encode("hello");
    assert!(tokens.len() > 0);

    let decoded = tokenizer.decode(&tokens);
    assert!(!decoded.is_empty());
}

#[test]
fn tokenizer_triettoken_test() {
    let text = "hello world hello voltic";
    let tokenizer = TrieTokenTokenizer::train(text, 100, 1);

    let tokens = tokenizer.encode("hello");
    assert!(tokens.len() > 0);

    let decoded = tokenizer.decode(&tokens);
    assert!(!decoded.is_empty());
}

#[test]
fn pre_tokenize_keeps_separators() {
    let t = pre_tokenize("it's a test, ok");
    assert_eq!(t, vec!["it's", " ", "a", " ", "test", ",", " ", "ok"]);
    assert_eq!(t.concat(), "it's a test, ok");
}

#[test]
fn pre_tokenize_words_drops_white_space() {
    assert_eq!(pre_tokenize_words("  a bc\td  "), vec!["a", "bc", "d"]);
    assert!(pre_tokenize_words("   ").is_empty());
}

#[test]
fn bpe_small_vocab_is_the_characters() {
    let t = BpeTokenizer::train("abc abc", 10);
    assert_eq!(t.vocab_size(), 256);
    assert!(t.merges.is_empty());
    assert_eq!(t.encode("abc"), vec![97, 98, 99]);
    assert_eq!(t.decode(&[104, 105]), "hi");
}

#[test]
fn bpe_learns_the_most_frequent_pair() {
    // "ab" occurs three times, every other pair less often
    let t = BpeTokenizer::train("ab ab ab cd", 257);
    assert_eq!(t.vocab_size(), 257);
    assert_eq!(t.merges.len(), 1);
    assert_eq!(t.merges[0], (vec!['a'], vec!['b']));
    let merged: String = t.vocab[256].iter().collect();
    assert_eq!(merged, "a</c>b");
    // the merged symbol "ab" is not a token (the token carries the marker) and is dropped
    assert_eq!(t.encode("ab c"), vec![32, 99]);
    // decoding removes the marker
    assert_eq!(t.decode(&[256, 99]), "abc");
    // ids past the vocabulary are skipped
    assert_eq!(t.decode(&[1000, 97]), "a");
}

#[test]
fn bpe_without_pairs_keeps_the_characters() {
    let t = BpeTokenizer::train("a b c", 1000);
    assert_eq!(t.vocab_size(), 256);
}

#[test]
fn wordpiece_vocab_is_ranked_by_frequency() {
    let t = WordPieceTokenizer::train("aab ab", 3);
    // [UNK], then the two most frequent characters: a (3), b (2)
    assert_eq!(t.vocab_size(), 3);
    let unk: String = t.vocab[0].iter().collect();
    assert_eq!(unk, "[UNK]");
    assert_eq!(t.vocab[1], vec!['a']);
    assert_eq!(t.vocab[2], vec!['b']);
    // single-character words are tokens; longer words become [UNK]
    assert_eq!(t.encode("a b"), vec![1, 2]);
    assert_eq!(t.encode("ab"), vec![0]);
    assert_eq!(t.decode(&[1, 2]), "a b");
    assert_eq!(t.decode(&[0]), "[UNK]");
}

#[test]
fn wordpiece_vocab_size_zero_keeps_unknown_only() {
    let t = WordPieceTokenizer::train("abc", 0);
    assert_eq!(t.vocab_size(), 1);
}

#[test]
fn wordpiece_lowercases_words() {
    let t = WordPieceTokenizer::train("a", 10);
    assert_eq!(t.encode("A"), vec![1]);
}

#[test]
fn trietoken_adds_frequent_prefixes() {
    // "ab" begins two words, so with room it becomes a token
    let t = TrieTokenTokenizer::train("ab abc", 300, 2);
    let has_ab = t.vocab.iter().any(|(k, _)| k == &vec!['a', 'b']);
    assert!(has_ab);
    assert!(t.vocab_size() > 256);
}

#[test]
fn trietoken_decode_trims_leading_spaces() {
    let t = TrieTokenTokenizer::train("hello", 100, 1);
    assert_eq!(t.vocab_size(), 256);
    let ids = t.encode("hi");
    assert_eq!(ids, vec![32, 104, 105]);
    assert_eq!(t.decode(&ids), "hi");
}

#[test]
fn unicode_white_space_separates_words() {
    assert_eq!(pre_tokenize_words("a\u{3000}b\u{85}c\u{2009}d"), vec!["a", "b", "c", "d"]);
    // U+180E (Mongolian vowel separator) and U+200B (zero width space) are not white space
    assert_eq!(pre_tokenize_words("a\u{180E}b\u{200B}c"), vec!["a\u{180E}b\u{200B}c"]);
}

#[test]
fn bpe_learns_each_tied_top_pair_once() {
    // "ab" and "cd" tie as most frequent pairs: both can be learned
    let t = BpeTokenizer::train("ab cd", 258);
    assert_eq!(t.vocab_size(), 258);
    assert_eq!(t.merges.len(), 2);
    assert!(t.merges.contains(&(vec!['a'], vec!['b'])));
    assert!(t.merges.contains(&(vec!['c'], vec!['d'])));
    assert_ne!(t.merges[0], t.merges[1]);
    let joined: Vec<String> = t.vocab[256..].iter().map(|v| v.iter().collect()).collect();
    assert!(joined.contains(&"a</c>b".to_string()));
    assert!(joined.contains(&"c</c>d".to_string()));
    // a third token is never reached
    assert!(BpeTokenizer::train_checked("ab cd", 259).is_none());
    assert_eq!(BpeTokenizer::train_checked("ab cd", 258).unwrap().vocab_size(), 258);
}

#[test]
fn bpe_learns_only_most_frequent_pairs() {
    // "ab" occurs twice, "bc" once: only "ab" is a most frequent pair
    let t = BpeTokenizer::train("ab abc", 257);
    assert_eq!(t.merges, vec![(vec!['a'], vec!['b'])]);
    assert!(BpeTokenizer::train_checked("ab abc", 258).is_none());
}
