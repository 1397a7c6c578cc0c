//! The tokenize pipeline: segment a text in search mode, keep its token set,
//! and time the work.
use vstd::prelude::*;
use crate::error::Error;
use crate::words::{is_token_set_of, select_words, texts};

verus! {

/// The segmentation engine of jieba_rs, carried opaquely.
#[verifier::external_type_specification]
#[verifier::external_body]
pub struct ExJieba(jieba_rs::Jieba);

/// A monotonic clock reading, carried opaquely.
#[verifier::external_type_specification]
#[verifier::external_body]
pub struct ExInstant(std::time::Instant);

/// Relies on std::time::Instant::now: a reading of the monotonic clock.
pub assume_specification[ std::time::Instant::now ]() -> std::time::Instant;

/// Relies on std::time::Instant::elapsed: the time since a clock reading.
pub assume_specification[ std::time::Instant::elapsed ](i: &std::time::Instant) -> std::time::Duration;

/// Relies on std::time::Duration::as_millis: whole milliseconds of a duration.
pub assume_specification[ std::time::Duration::as_millis ](d: &std::time::Duration) -> u128;

/// The words that the default-dictionary segmentation engine emits for a
/// text in search mode with its hidden Markov model switched on.
pub uninterp spec fn search_cut(text: Seq<char>) -> Seq<Seq<char>>;

/// Relies on jieba_rs::Jieba::new: loads the embedded default dictionary.
#[verifier::external_body]
fn default_engine() -> (r: jieba_rs::Jieba) {
    jieba_rs::Jieba::new()
}

/// Relies on jieba_rs::Jieba::cut_for_search with `hmm` set: on an engine
/// holding the default dictionary alone, the words depend on the text alone.
#[verifier::external_body]
fn search_words(engine: &jieba_rs::Jieba, text: &str) -> (r: Vec<String>)
    ensures
        texts(r@) == search_cut(text@),
{
    engine.cut_for_search(text, true).into_iter().map(|t| t.word.to_string()).collect()
}

/// A segmentation engine loaded with the default dictionary. It is built
/// once and handed to each call; nothing changes its dictionary afterwards.
pub struct Segmenter {
    engine: jieba_rs::Jieba,
}

impl Segmenter {
    /// Loads the default dictionary.
    pub fn new() -> (r: Segmenter) {
        Segmenter { engine: default_engine() }
    }

    /// The candidate words of `text`, in the engine's search mode.
    pub fn segment(&self, text: &str) -> (r: Vec<String>)
        ensures
            texts(r@) == search_cut(text@),
    {
        search_words(&self.engine, text)
    }
}

/// What one tokenize call produces: the token set, its size, and the
/// milliseconds that segmentation and selection took.
pub struct TokenizeResult {
    pub words: Vec<String>,
    pub count: usize,
    pub cost_ms: u128,
}

/// Tokenizes the contents of a file: segments `content`, keeps the
/// qualifying words once each in non-decreasing character length, and
/// records the time this took (reading the file is not counted).
pub fn tokenize(segmenter: &Segmenter, content: &str) -> (r: TokenizeResult)
    ensures
        is_token_set_of(texts(r.words@), search_cut(content@)),
        r.count == r.words@.len(),
{
    let start = std::time::Instant::now();
    let candidates = segmenter.segment(content);
    let words = select_words(candidates);
    let elapsed = start.elapsed();
    let count = words.len();
    TokenizeResult { words, count, cost_ms: elapsed.as_millis() }
}

/// Tokenizes what a file read gave: `None` stands for a read that failed
/// (missing, unreadable, or not valid UTF-8) and gives `IoError`.
pub fn tokenize_read(segmenter: &Segmenter, content: Option<String>) -> (r: Result<TokenizeResult, Error>)
    ensures
        content is None <==> r is Err,
        r matches Err(e) ==> e == Error::IoError,
        r matches Ok(t) ==> is_token_set_of(texts(t.words@), search_cut(content->Some_0@))
            && t.count == t.words@.len(),
{
    match content {
        Some(text) => Ok(tokenize(segmenter, text.as_str())),
        None => Err(Error::IoError),
    }
}

} // verus!
