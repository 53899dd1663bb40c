use vortexa::bpe::BpeTokenizer;
use vortexa::bpe_json::JsonError;
use vortexa::generate::Codec;
use vortexa::members::repeats_member;

#[test]
fn learn_merges_and_roundtrip() {
    // Repeated text so merges are learned.
    let text = b"the quick brown fox jumps over the lazy dog the quick brown fox".repeat(200);
    let tok = BpeTokenizer::train(&text, 512);
    let data = tok.data();

    assert!(tok.num_merges() > 0, "should learn merges");
    assert_eq!(tok.vocab_size(), 256 + tok.num_merges());

    // Encode then decode must round-trip to the original bytes.
    let ids = tok.encode(&text, &data);
    assert!(ids.len() < text.len(), "BPE should compress");
    let decoded = tok.decode(&ids, &data);
    assert_eq!(decoded, text, "decode(encode(x)) != x");
}

#[test]
fn serde_roundtrip_preserves_vocab() {
    let text = b"aaaa bbbb cccc aaaa bbbb cccc".repeat(50);
    let tok = BpeTokenizer::train(&text, 64);
    let json = tok.to_json().unwrap();
    let tok2 = BpeTokenizer::from_json(&json).unwrap();
    assert_eq!(tok.num_merges(), tok2.num_merges());
    assert_eq!(tok.vocab_size(), tok2.vocab_size());
}

#[test]
fn most_frequent_pair_is_learned_first() {
    let tok = BpeTokenizer::train(b"abxabyab", 2);
    // "ab" occurs three times; afterwards every pair occurs once, and none is
    // worth a merge on its own unless it repeats.
    let json = tok.to_json().unwrap();
    assert!(json.starts_with("{\"merges\":[[97,98,256]"), "{json}");
}

#[test]
fn merges_are_numbered_from_256() {
    let tok = BpeTokenizer::train(&b"aaaa".repeat(8), 3);
    let json = tok.to_json().unwrap();
    assert!(json.contains("[97,97,256]"), "{json}");
    assert!(json.contains("[256,256,257]"), "{json}");
}

#[test]
fn json_of_no_merges() {
    let tok = BpeTokenizer::train(b"abc", 0);
    assert_eq!(tok.to_json().unwrap(), "{\"merges\":[]}");
    assert_eq!(tok.num_merges(), 0);
    assert_eq!(tok.vocab_size(), 256);
}

#[test]
fn json_errors() {
    for bad in ["", "[]", "{}", "{\"merges\":[[1,2]]}", "{\"merges\":[[1,2,-3]]}", "{\"merges\":3}"] {
        match BpeTokenizer::from_json(bad) {
            Err(e) => {
                assert_eq!(e, JsonError::Parsing);
                assert_eq!(e.message(), "parsing BPE tokenizer");
            }
            Ok(_) => panic!("accepted {bad}"),
        }
    }
    assert_eq!(JsonError::Serializing.message(), "serializing BPE tokenizer");
}

#[test]
fn json_may_hold_more_than_the_merges() {
    let tok = BpeTokenizer::from_json("{ \"x\": 1, \"merges\": [ [104, 105, 256] ] }").unwrap();
    assert_eq!(tok.num_merges(), 1);
    let data = tok.data();
    assert_eq!(tok.encode(b"hi hi", &data), vec![256, 32, 256]);
}

#[test]
fn skipped_members_need_not_be_representable() {
    let deep = format!("{}{}", "[".repeat(300), "]".repeat(300));
    for member in ["1e999", "-1e400", "{\"merges\":7}", deep.as_str()] {
        let text = format!("{{\"x\":{member},\"merges\":[[104,105,256]]}}");
        assert_eq!(BpeTokenizer::from_json(&text).unwrap().num_merges(), 1, "{member}");
    }
    assert!(BpeTokenizer::from_json("{\"x\":1e,\"merges\":[]}").is_err());
    assert!(BpeTokenizer::from_json("{\"merges\":[]} x").is_err());
    assert!(BpeTokenizer::from_json("{\"merges\":null}").is_err());
}

#[test]
fn merges_are_not_repeated() {
    for bad in [
        "{\"merges\":[],\"merges\":[]}",
        "{\"merges\" : [], \"x\": {\"y\": [1]}, \"merges\" :[[104,105,256]]}",
        "{\"merges\":[],\"m\\u0065rges\":[]}",
    ] {
        assert!(matches!(BpeTokenizer::from_json(bad), Err(JsonError::Parsing)), "{bad}");
    }
    for good in [
        "{\"x\":1,\"x\":2,\"merges\":[[104,105,256]]}",
        "{\"x\":{\"merges\":1},\"merges\":[[104,105,256]]}",
        "{\"x\":[{\"merges\":1}],\"merges\":[[104,105,256]]}",
        "{\"x\":\"\\\"merges\\\":\",\"merges\":[[104,105,256]]}",
        "{\"x\\\\\":\"merges\",\"\\u006derges\":[[104,105,256]]}",
        "{\"merges \":[],\"merges\":[[104,105,256]]}",
    ] {
        assert_eq!(BpeTokenizer::from_json(good).unwrap().num_merges(), 1, "{good}");
    }
    assert!(repeats_member("{\"a\":1,\"\\u0061\":2}", "a"));
    assert!(!repeats_member("{\"a\":1,\"b\":\"a\"}", "a"));
}

#[test]
fn json_may_be_an_array_of_the_merges() {
    let tok = BpeTokenizer::from_json("[[[104,105,256]]]").unwrap();
    assert_eq!(tok.to_json().unwrap(), "{\"merges\":[[104,105,256]]}");
    assert_eq!(BpeTokenizer::from_json("[[]]").unwrap().num_merges(), 0);
    assert!(BpeTokenizer::from_json("[[],[]]").is_err());
    assert!(BpeTokenizer::from_json("[[104,105,256]]").is_err());
}

#[test]
fn stored_tokenizer_is_the_one_used() {
    let tok = BpeTokenizer::train(&b"the cat sat on the mat ".repeat(20), 12);
    let text = tok.to_json().unwrap();
    let codec = Codec::from_stored(Some(text.as_str())).unwrap();
    let bytes = b"that cat".to_vec();
    let ids = tok.encode(&bytes, &tok.data());
    assert_eq!(codec.encode_prompt(&bytes), ids);
    assert_eq!(codec.decode_ids(&ids), bytes);
    assert!(!Codec::from_stored(None).unwrap().is_bpe());
    assert!(!Codec::from_stored(Some("no json")).unwrap().is_bpe());
    assert!(Codec::from_stored(Some("{\"merges\":[[1,999,256]]}")).is_none());
}

#[test]
fn merges_that_refer_forward_are_not_well_formed() {
    let bad = BpeTokenizer::from_json("{\"merges\":[[104,300,256]]}").unwrap();
    assert!(!bad.is_well_formed());
    let good = BpeTokenizer::from_json("{\"merges\":[[104,105,256],[256,104,257]]}").unwrap();
    assert!(good.is_well_formed());
}

#[test]
fn lowest_rank_is_applied_first() {
    // "bc" has the lower rank, so "abc" becomes a + bc.
    let tok = BpeTokenizer::from_json("{\"merges\":[[98,99,256],[97,98,257]]}").unwrap();
    let data = tok.data();
    assert_eq!(tok.encode(b"abc", &data), vec![97, 256]);
    assert_eq!(tok.encode(b"ab", &data), vec![257]);
    assert_eq!(tok.decode(&[97, 256, 257], &data), b"abcab".to_vec());
}

#[test]
fn whitespace_is_never_merged() {
    let tok = BpeTokenizer::from_json("{\"merges\":[[32,97,256],[97,32,257]]}").unwrap();
    let data = tok.data();
    assert_eq!(tok.encode(b" a \t\n\r\x0b\x0ca", &data), vec![32, 97, 32, 9, 10, 13, 11, 12, 97]);
}

#[test]
fn unknown_ids_decode_to_nothing() {
    let tok = BpeTokenizer::train(b"", 4);
    let data = tok.data();
    assert_eq!(tok.decode(&[104, 9999, 105], &data), b"hi".to_vec());
    assert!(tok.encode(b"", &data).is_empty());
}

#[test]
fn every_byte_roundtrips() {
    let all: Vec<u8> = (0..=255u8).cycle().take(4096).collect();
    let tok = BpeTokenizer::train(&all, 40);
    let data = tok.data();
    let ids = tok.encode(&all, &data);
    assert!(ids.iter().all(|&id| (id as usize) < tok.vocab_size()));
    assert_eq!(tok.decode(&ids, &data), all);
}

#[test]
fn codec_falls_back_to_bytes() {
    let codec = Codec::new(None);
    assert!(!codec.is_bpe());
    assert_eq!(codec.encode_prompt(&vec![0, 7, 255]), vec![0, 7, 255]);
    assert_eq!(codec.decode_ids(&vec![0, 7, 255, 256, 300]), vec![0, 7, 255, 0, 44]);
    let tok = BpeTokenizer::from_json("{\"merges\":[[104,105,256]]}").unwrap();
    let codec = Codec::new(Some(tok));
    assert!(codec.is_bpe());
    assert_eq!(codec.encode_prompt(&b"hi".to_vec()), vec![256]);
    assert_eq!(codec.decode_ids(&vec![256, 33]), b"hi!".to_vec());
}
