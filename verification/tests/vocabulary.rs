use lark_compiler::byte_tokenizer::{
    build_char_map, fallback_decode, fallback_name_fits, is_self_mapped, level_decode,
    read_encoding, vocabulary_fits, AddedToken, ByteTokenizer, DecoderInfo, DecoderStep, Encoding,
    TokRxInfo, TokenizerError, Vocabulary,
};

fn step(kind: &str, content: Option<&str>, pattern: Option<&str>) -> DecoderStep {
    DecoderStep {
        kind: Some(kind.to_string()),
        content: content.map(|s| s.to_string()),
        pattern: pattern.map(|s| s.to_string()),
    }
}

fn byte_level() -> Option<DecoderInfo> {
    Some(DecoderInfo { kind: Some("ByteLevel".to_string()), steps: None })
}

fn fallback(space: &str) -> Option<DecoderInfo> {
    Some(DecoderInfo {
        kind: Some("Sequence".to_string()),
        steps: Some(vec![
            step("Replace", Some(" "), Some(space)),
            step("ByteFallback", None, None),
            step("Fuse", None, None),
        ]),
    })
}

fn names(list: &[Option<&str>]) -> Vec<Option<String>> {
    list.iter().map(|n| n.map(|s| s.to_string())).collect()
}

fn added(id: u32, content: &str, special: bool) -> AddedToken {
    AddedToken { id, content: content.to_string(), special }
}

fn special_id(t: &ByteTokenizer, name: &str) -> Option<u32> {
    t.special.iter().rev().find(|(n, _)| n == name).map(|(_, id)| *id)
}

fn build(vocab: Vocabulary) -> ByteTokenizer {
    match ByteTokenizer::from_tokenizer(vocab) {
        Ok(t) => t,
        Err(e) => panic!("refused: {:?}", e),
    }
}

#[test]
fn printable_characters_are_self_mapped() {
    assert!(is_self_mapped('!'));
    assert!(is_self_mapped('a'));
    assert!(is_self_mapped('~'));
    assert!(is_self_mapped('\u{a1}'));
    assert!(is_self_mapped('\u{ac}'));
    assert!(is_self_mapped('\u{ae}'));
    assert!(is_self_mapped('\u{ff}'));
    assert!(!is_self_mapped(' '));
    assert!(!is_self_mapped('\n'));
    assert!(!is_self_mapped('\u{7f}'));
    assert!(!is_self_mapped('\u{a0}'));
    assert!(!is_self_mapped('\u{ad}'));
    assert!(!is_self_mapped('\u{100}'));
    assert!(!is_self_mapped('\0'));
}

#[test]
fn char_map_takes_each_character_to_its_byte() {
    let map = build_char_map();
    assert_eq!(map.len(), 256);
    assert_eq!(map.get(&'!'), Some(&33));
    assert_eq!(map.get(&'a'), Some(&97));
    assert_eq!(map.get(&'\u{ff}'), Some(&255));
    assert_eq!(map.get(&'\u{100}'), Some(&0));
    assert_eq!(map.get(&'\u{10a}'), Some(&10));
    assert_eq!(map.get(&'\u{120}'), Some(&32));
    assert_eq!(map.get(&'\u{121}'), Some(&127));
    assert_eq!(map.get(&'\u{142}'), Some(&160));
    assert_eq!(map.get(&'\u{143}'), Some(&173));
    assert_eq!(map.get(&'\u{144}'), None);
    assert_eq!(map.get(&' '), None);
    let mut seen = [false; 256];
    for (_, b) in map.iter() {
        assert!(!seen[*b as usize]);
        seen[*b as usize] = true;
    }
}

#[test]
fn encoding_of_a_decoder() {
    let plain = Encoding { is_byte_level: false, is_byte_fallback: false, space_ch: ' ' };
    assert_eq!(read_encoding(&None), plain);
    assert_eq!(
        read_encoding(&byte_level()),
        Encoding { is_byte_level: true, is_byte_fallback: false, space_ch: ' ' }
    );
    assert_eq!(
        read_encoding(&fallback("\u{2581}")),
        Encoding { is_byte_level: false, is_byte_fallback: true, space_ch: '\u{2581}' }
    );
    let other = Some(DecoderInfo { kind: Some("WordPiece".to_string()), steps: None });
    assert_eq!(read_encoding(&other), plain);
    let untyped =
        Some(DecoderInfo { kind: None, steps: Some(vec![step("ByteFallback", None, None)]) });
    assert_eq!(read_encoding(&untyped), plain);
    let no_steps = Some(DecoderInfo { kind: Some("Sequence".to_string()), steps: None });
    assert_eq!(read_encoding(&no_steps), plain);
    let long_pattern = Some(DecoderInfo {
        kind: Some("Sequence".to_string()),
        steps: Some(vec![
            step("Replace", Some(" "), Some("ab")),
            step("Replace", Some("x"), Some("_")),
            step("Replace", Some(" "), None),
        ]),
    });
    assert_eq!(read_encoding(&long_pattern), plain);
    let twice = Some(DecoderInfo {
        kind: Some("Sequence".to_string()),
        steps: Some(vec![
            step("Replace", Some(" "), Some("_")),
            step("Replace", Some(" "), Some("#")),
        ]),
    });
    assert_eq!(
        read_encoding(&twice),
        Encoding { is_byte_level: false, is_byte_fallback: false, space_ch: '#' }
    );
}

#[test]
fn unknown_decoder_is_refused() {
    let vocab = Vocabulary { decoder: None, vocab_size: 0, added: Vec::new(), names: Vec::new() };
    assert!(matches!(ByteTokenizer::from_tokenizer(vocab), Err(TokenizerError::UnknownDecoder)));
    let vocab = Vocabulary {
        decoder: Some(DecoderInfo {
            kind: Some("Sequence".to_string()),
            steps: Some(vec![step("Replace", Some(" "), Some("_"))]),
        }),
        vocab_size: 1,
        added: Vec::new(),
        names: names(&[Some("a")]),
    };
    assert!(matches!(ByteTokenizer::from_tokenizer(vocab), Err(TokenizerError::UnknownDecoder)));
}

#[test]
fn byte_level_vocabulary() {
    let vocab = Vocabulary {
        decoder: byte_level(),
        vocab_size: 6,
        added: vec![added(4, "<|endoftext|>", true), added(5, "<pad>", true)],
        names: names(&[
            Some("\u{120}hello"),
            Some("\u{10a}"),
            Some("a b"),
            None,
            Some("<|endoftext|>"),
            Some("<pad>"),
        ]),
    };
    let t = build(vocab);
    assert_eq!(t.hf_model, "foobar");
    assert_eq!(t.vocab_size, 6);
    assert_eq!(t.eos_token, 4);
    assert_eq!(
        t.token_bytes(),
        vec![b" hello".to_vec(), b"\n".to_vec(), Vec::new(), Vec::new(), Vec::new(), Vec::new()]
    );
    assert_eq!(t.special.len(), 2);
    assert_eq!(special_id(&t, "<|endoftext|>"), Some(4));
    assert_eq!(special_id(&t, "<pad>"), Some(5));
    assert_eq!(t.tokrx_info(), TokRxInfo { vocab_size: 6, tok_eos: 4 });
}

#[test]
fn byte_level_bytes_need_not_be_text() {
    let vocab = Vocabulary {
        decoder: byte_level(),
        vocab_size: 2,
        added: Vec::new(),
        names: names(&[Some("\u{143}\u{ff}\u{100}"), Some("\u{c3}\u{a9}")]),
    };
    let t = build(vocab);
    assert_eq!(t.token_bytes(), vec![vec![173, 255, 0], vec![0xc3, 0xa9]]);
    assert_eq!(t.eos_token, 0);
}

#[test]
fn vocabulary_with_byte_fallback() {
    let vocab = Vocabulary {
        decoder: fallback("\u{2581}"),
        vocab_size: 7,
        added: vec![added(0, "</s>", true), added(6, "extra token", false)],
        names: names(&[
            Some("</s>"),
            Some("<0x41>"),
            Some("<0xff>"),
            Some("\u{2581}the\u{2581}"),
            Some("\u{e9}t\u{e9}"),
            Some("<0>"),
            None,
        ]),
    };
    let t = build(vocab);
    assert_eq!(t.eos_token, 0);
    assert_eq!(
        t.token_bytes(),
        vec![
            Vec::new(),
            vec![0x41],
            vec![0xff],
            b" the ".to_vec(),
            "\u{e9}t\u{e9}".as_bytes().to_vec(),
            b"<0>".to_vec(),
            b"extra token".to_vec(),
        ]
    );
    assert_eq!(t.special.len(), 1);
    assert_eq!(special_id(&t, "</s>"), Some(0));
}

#[test]
fn last_end_of_sequence_name_wins() {
    let vocab = Vocabulary {
        decoder: byte_level(),
        vocab_size: 3,
        added: vec![
            added(1, "</s>", true),
            added(2, "<|end_of_text|>", true),
            added(0, "<s>", true),
        ],
        names: names(&[None, None, None]),
    };
    let t = build(vocab);
    assert_eq!(t.eos_token, 2);
    assert_eq!(t.special.len(), 3);
}

#[test]
fn fallback_names() {
    assert_eq!(fallback_decode("<0x00>", '_'), vec![0]);
    assert_eq!(fallback_decode("<0xAb>", '_'), vec![0xab]);
    assert_eq!(fallback_decode("<0x+F>", '_'), vec![15]);
    assert_eq!(fallback_decode("a_b_", '_'), b"a b ".to_vec());
    assert_eq!(fallback_decode("", '_'), Vec::<u8>::new());
}

#[test]
fn byte_level_names() {
    let map = build_char_map();
    assert_eq!(level_decode(&map, "abc"), Some(b"abc".to_vec()));
    assert_eq!(level_decode(&map, ""), Some(Vec::new()));
    assert_eq!(level_decode(&map, "\u{120}\u{120}"), Some(b"  ".to_vec()));
    assert_eq!(level_decode(&map, "a b"), None);
    assert_eq!(level_decode(&map, "a\u{2581}"), None);
}

#[test]
fn missing_tokens_are_filled_in() {
    let vocab = Vocabulary {
        decoder: byte_level(),
        vocab_size: 9,
        added: Vec::new(),
        names: names(&[Some("a"), None, None, None, None, None, None, None, None]),
    };
    let mut t = build(vocab);
    t.add_missing_tokens(12);
    assert_eq!(t.vocab_size, 12);
    let bytes = t.token_bytes();
    assert_eq!(bytes.len(), 12);
    assert_eq!(bytes[0], b"a".to_vec());
    assert_eq!(bytes[9], b"<AddedToken_9>".to_vec());
    assert_eq!(bytes[10], b"<AddedToken_10>".to_vec());
    assert_eq!(bytes[11], b"<AddedToken_11>".to_vec());
    assert_eq!(t.special.len(), 3);
    assert_eq!(special_id(&t, "<AddedToken_10>"), Some(10));
    t.add_missing_tokens(12);
    assert_eq!(t.vocab_size, 12);
    assert_eq!(t.token_bytes().len(), 12);
}

#[test]
fn missing_tokens_with_long_numbers() {
    let mut list: Vec<Option<&str>> = Vec::new();
    for _ in 0..99 {
        list.push(None);
    }
    let vocab =
        Vocabulary {
            decoder: byte_level(),
            vocab_size: 99,
            added: Vec::new(),
            names: names(&list),
        };
    let mut t = build(vocab);
    t.add_missing_tokens(101);
    let bytes = t.token_bytes();
    assert_eq!(bytes[99], b"<AddedToken_99>".to_vec());
    assert_eq!(bytes[100], b"<AddedToken_100>".to_vec());
    assert_eq!(special_id(&t, "<AddedToken_100>"), Some(100));
}

#[test]
fn names_that_fit_byte_fallback() {
    assert!(fallback_name_fits("<0x00>"));
    assert!(fallback_name_fits("<0xfF>"));
    assert!(fallback_name_fits("<0x+7>"));
    assert!(fallback_name_fits("hello"));
    assert!(fallback_name_fits(""));
    assert!(fallback_name_fits("<0"));
    assert!(fallback_name_fits("<1x41>"));
    assert!(!fallback_name_fits("<0xZZ>"));
    assert!(!fallback_name_fits("<0x-1>"));
    assert!(!fallback_name_fits("<0x1+>"));
    assert!(!fallback_name_fits("<0x4>"));
    assert!(!fallback_name_fits("<0x414>"));
    assert!(!fallback_name_fits("<0x"));
    assert!(!fallback_name_fits("<0x\u{e9}>"));
    assert!(!fallback_name_fits("<0x41]"));
}

#[test]
fn vocabularies_that_fit() {
    let fits = |decoder, vocab_size, added, list: &[Option<&str>]| {
        vocabulary_fits(&Vocabulary { decoder, vocab_size, added, names: names(list) })
    };
    assert!(fits(byte_level(), 2, Vec::new(), &[Some("a"), None]));
    assert!(!fits(byte_level(), 3, Vec::new(), &[Some("a"), None]));
    assert!(fits(byte_level(), 1, vec![added(5, "<s>", true)], &[Some("<0xZZ>")]));
    assert!(!fits(byte_level(), 1, vec![added(1, "x", false)], &[None]));
    assert!(fits(byte_level(), 2, vec![added(1, "x", false)], &[None, None]));
    assert!(fits(fallback("_"), 2, Vec::new(), &[Some("<0x41>"), Some("b")]));
    assert!(!fits(fallback("_"), 2, Vec::new(), &[Some("<0x41>"), Some("<0xZZ>")]));
    assert!(fits(fallback("_"), 2, vec![added(1, "<0xZZ>", true)], &[None, Some("<0xZZ>")]));
    assert!(!fits(fallback("_"), 2, vec![added(0, "<s>", true)], &[None, Some("<0x4")]));
}
