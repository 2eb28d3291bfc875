use voltic::{BpeTokenizer, Context, Tokenizer, Var, WordPieceTokenizer, ID};

#[test]
fn bpe_without_merges_round_trips() {
    let tok = BpeTokenizer::train("hello world hello voltic", 100);
    assert!(tok.merges.is_empty());
    for text in ["hello", "hi there, Zo\u{eb}!", "  spaced\tout  ", ""] {
        let ids = tok.encode(text);
        assert_eq!(tok.decode(&ids), text);
    }
}

#[test]
fn wordpiece_keeps_one_id_per_token() {
    let tok = WordPieceTokenizer::train("hello world hello voltic", 100);
    // multi-character words split into unknown pieces fall back to [UNK]
    assert_eq!(tok.encode("hello world"), vec![0, 0]);
    // a single known character is its own token
    let ids = tok.encode("l");
    assert_eq!(ids.len(), 1);
    assert_eq!(tok.decode(&ids), "l");
}

#[test]
fn swapping_axes_twice_restores_the_shape() {
    let mut c = Context::new();
    let x = Var::with_shape(&mut c, vec![2, 3, 4]);
    let t = x.transpose(&mut c, 0, 2).unwrap();
    assert_eq!(t.shape(&c), vec![4, 3, 2]);
    let back = t.transpose(&mut c, 0, 2).unwrap();
    assert_eq!(back.shape(&c), vec![2, 3, 4]);
}

#[test]
fn recorded_shape_reads_back() {
    let mut c = Context::new();
    let a = Var::with_shape(&mut c, vec![5]);
    let old = c.insert_shape(ID(77), vec![1, 2]);
    assert_eq!(old, None);
    assert_eq!(c.shape(ID(77)), Some(vec![1, 2]));
    assert_eq!(c.shape(a.id()), Some(vec![5]));
    let old = c.insert_shape(ID(77), vec![3]);
    assert_eq!(old, Some(vec![1, 2]));
    assert_eq!(c.shape(ID(77)), Some(vec![3]));
}

#[test]
fn fresh_ids_are_new() {
    let mut c = Context::new();
    let a = Var::with_shape(&mut c, vec![1]);
    let b = Var::new(&mut c);
    assert_ne!(a.id(), b.id());
    assert_eq!(c.shape(b.id()), None);
}

#[test]
fn vocab_file_lines_read_back_by_id() {
    let t = BpeTokenizer::from_contents("hello\nwor\r\nld\n", "");
    assert_eq!(t.vocab, vec![vec!['h', 'e', 'l', 'l', 'o'], vec!['w', 'o', 'r'], vec!['l', 'd']]);
    assert!(t.merges.is_empty());
    assert_eq!(t.decode(&[2, 0]), "ldhello");
}

#[test]
fn transpose_of_an_axis_with_itself_keeps_the_shape() {
    let mut c = Context::new();
    let x = Var::with_shape(&mut c, vec![2, 3, 4]);
    let t = x.transpose(&mut c, 1, 1).unwrap();
    assert_eq!(c.shape(t.id()), Some(vec![2, 3, 4]));
}
