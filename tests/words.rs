use zh_tokenizer::error::Error;
use zh_tokenizer::tokenizer::{tokenize, tokenize_read, Segmenter};
use zh_tokenizer::words::{is_chinese, select_words};

fn strings(v: &[&str]) -> Vec<String> {
    v.iter().map(|s| s.to_string()).collect()
}

fn char_len(s: &str) -> usize {
    s.chars().count()
}

#[test]
fn pure_ideographs_qualify() {
    assert!(is_chinese("北京"));
    assert!(is_chinese("一"));
    assert!(is_chinese("龥"));
}

#[test]
fn mixed_or_foreign_text_does_not_qualify() {
    assert!(!is_chinese(""));
    assert!(!is_chinese("，"));
    assert!(!is_chinese("北京2"));
    assert!(!is_chinese("abc"));
    assert!(!is_chinese("北京 "));
    assert!(!is_chinese("\u{4dff}"));
    assert!(!is_chinese("\u{9fa6}"));
}

#[test]
fn empty_candidates_give_no_words() {
    assert!(select_words(Vec::new()).is_empty());
}

#[test]
fn non_chinese_candidates_are_dropped() {
    let out = select_words(strings(&["hello", "北京", "，", "2024", "天安门A", "欢迎"]));
    assert_eq!(out.len(), 2);
    assert!(out.contains(&"北京".to_string()));
    assert!(out.contains(&"欢迎".to_string()));
}

#[test]
fn repeated_candidates_appear_once() {
    let out = select_words(strings(&["北京", "北京", "我", "北京", "我"]));
    assert_eq!(out.len(), 2);
    assert_eq!(out[0], "我");
    assert_eq!(out[1], "北京");
}

#[test]
fn words_are_ordered_by_character_length() {
    let out = select_words(strings(&["天安门", "中华人民共和国", "北京", "我", "欢迎"]));
    assert_eq!(out.len(), 5);
    assert_eq!(out[0], "我");
    assert_eq!(out[4], "中华人民共和国");
    for pair in out.windows(2) {
        assert!(char_len(&pair[0]) <= char_len(&pair[1]));
    }
}

#[test]
fn equal_lengths_keep_first_seen_order() {
    let out = select_words(strings(&["欢迎", "北京", "天安门", "我"]));
    assert_eq!(out, strings(&["我", "欢迎", "北京", "天安门"]));
}

#[test]
fn segmenter_splits_text() {
    let seg = Segmenter::new();
    let words = seg.segment("我爱北京天安门");
    assert!(words.len() > 1);
    assert!(words.contains(&"北京".to_string()));
}

#[test]
fn round_trip_sentence() {
    let seg = Segmenter::new();
    let r = tokenize(&seg, "我爱北京天安门，北京欢迎你！");
    for w in ["北京", "天安门", "欢迎", "我"] {
        assert!(r.words.contains(&w.to_string()), "missing {}", w);
    }
    assert_eq!(r.count, r.words.len());
    for w in &r.words {
        assert!(w.chars().all(|c| ('\u{4e00}'..='\u{9fa5}').contains(&c)));
    }
    for (i, a) in r.words.iter().enumerate() {
        for b in &r.words[i + 1..] {
            assert_ne!(a, b);
        }
    }
    for pair in r.words.windows(2) {
        assert!(char_len(&pair[0]) <= char_len(&pair[1]));
    }
    assert!(!r.words.contains(&"，".to_string()));
    assert!(!r.words.contains(&"！".to_string()));
}

#[test]
fn repeated_word_in_text_appears_once() {
    let seg = Segmenter::new();
    let r = tokenize(&seg, "北京北京北京，北京。");
    let n = r.words.iter().filter(|w| w.as_str() == "北京").count();
    assert_eq!(n, 1);
}

#[test]
fn text_without_chinese_gives_no_words() {
    let seg = Segmenter::new();
    let r = tokenize(&seg, "hello world 123, !?");
    assert_eq!(r.count, 0);
    assert!(r.words.is_empty());
}

#[test]
fn empty_text_gives_no_words() {
    let seg = Segmenter::new();
    let r = tokenize(&seg, "");
    assert_eq!(r.count, 0);
}

#[test]
fn failed_read_is_an_io_error() {
    let seg = Segmenter::new();
    let r = tokenize_read(&seg, None);
    assert_eq!(r.err(), Some(Error::IoError));
}

#[test]
fn read_contents_are_tokenized() {
    let seg = Segmenter::new();
    let r = tokenize_read(&seg, Some("北京欢迎你".to_string())).ok().unwrap();
    assert!(r.words.contains(&"北京".to_string()));
    assert_eq!(r.count, r.words.len());
}
