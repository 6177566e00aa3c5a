//! Index-term extraction for text indexes.
//!
//! A strategy names how a field value is cut into index terms: `exact`
//! (the whole value), `hash` (hex SHA-256 of the value), `term` (lowercased
//! alphanumeric words), `fulltext` (term words without stop words, each
//! reduced to its English stem), `trigram` (every three-character window of
//! the lowercased value) and `datetime` (the runs of numeric characters).
//! Any other strategy yields no terms.
use vstd::prelude::*;
use rust_stemmers::{Algorithm, Stemmer};
use sha2::{Digest, Sha256};
use vstd::utf8::encode_utf8;
use crate::render::{push_char, same_text};

verus! {

/// Unicode lower-casing of a whole string (`str::to_lowercase`).
pub uninterp spec fn lowercase(s: Seq<char>) -> Seq<char>;

/// Unicode `Alphabetic` or `Numeric` (`char::is_alphanumeric`).
pub uninterp spec fn alphanumeric(c: char) -> bool;

/// Unicode `Numeric` (`char::is_numeric`).
pub uninterp spec fn numeric(c: char) -> bool;

/// The English Snowball stem of a lowercase word.
pub uninterp spec fn english_stem(word: Seq<char>) -> Seq<char>;

/// The SHA-256 digest of `data`.
pub uninterp spec fn sha256(data: Seq<u8>) -> Seq<u8>;

/// `str::to_lowercase`: the result is the named lower-casing of `s`.
#[verifier::external_body]
pub(crate) fn to_lower(s: &str) -> (r: String)
    ensures
        r@ == lowercase(s@),
{
    s.to_lowercase()
}

/// `char::is_alphanumeric`: the result is the named Unicode property.
#[verifier::external_body]
fn is_alnum(c: char) -> (b: bool)
    ensures
        b == alphanumeric(c),
{
    c.is_alphanumeric()
}

/// `char::is_numeric`: the result is the named Unicode property.
#[verifier::external_body]
fn is_num(c: char) -> (b: bool)
    ensures
        b == numeric(c),
{
    c.is_numeric()
}

/// `rust_stemmers::Stemmer::stem` with the English algorithm: the result is
/// the named stem of `word`.
#[verifier::external_body]
fn stem_english(word: &str) -> (r: String)
    ensures
        r@ == english_stem(word@),
{
    Stemmer::create(Algorithm::English).stem(word).to_string()
}

/// `sha2::Sha256::digest`: the result is the named digest of `data`, 32
/// bytes long.
#[verifier::external_body]
fn sha256_digest(data: &[u8]) -> (d: Vec<u8>)
    ensures
        d@ == sha256(data@),
        d@.len() == 32,
{
    Sha256::digest(data).to_vec()
}

/// The lowercase hexadecimal digit for `n < 16`.
pub open spec fn hex_digit(n: int) -> char {
    if n < 10 {
        (48 + n) as char
    } else {
        (87 + n) as char
    }
}

/// Each byte as two lowercase hexadecimal digits, high nibble first.
pub open spec fn hex_lower(bytes: Seq<u8>) -> Seq<char>
    decreases bytes.len(),
{
    if bytes.len() == 0 {
        Seq::empty()
    } else {
        hex_lower(bytes.drop_last()) + seq![hex_digit(bytes.last() as int / 16), hex_digit(bytes.last() as int % 16)]
    }
}

/// Two digits per byte.
pub proof fn lemma_hex_len(bytes: Seq<u8>)
    ensures
        hex_lower(bytes).len() == 2 * bytes.len(),
    decreases bytes.len(),
{
    if bytes.len() > 0 {
        lemma_hex_len(bytes.drop_last());
    }
}

/// `hex::encode`: lowercase hexadecimal, two digits per byte, high nibble
/// first (the crate's `HEX_CHARS_LOWER` table).
#[verifier::external_body]
fn hex_encode(bytes: &[u8]) -> (s: String)
    ensures
        s@ == hex_lower(bytes@),
{
    hex::encode(bytes)
}

/// Whether `c` belongs in a run: numeric characters only, or alphanumeric
/// ones.
pub open spec fn kept(c: char, numeric_only: bool) -> bool {
    if numeric_only { numeric(c) } else { alphanumeric(c) }
}

/// Scanning state after `chars`: the finished runs and the run in progress.
pub open spec fn split_state(chars: Seq<char>, numeric_only: bool) -> (Seq<Seq<char>>, Seq<char>)
    decreases chars.len(),
{
    if chars.len() == 0 {
        (Seq::empty(), Seq::empty())
    } else {
        let prev = split_state(chars.drop_last(), numeric_only);
        let c = chars.last();
        if kept(c, numeric_only) {
            (prev.0, prev.1.push(c))
        } else if prev.1.len() > 0 {
            (prev.0.push(prev.1), Seq::empty())
        } else {
            prev
        }
    }
}

/// The maximal non-empty runs of kept characters, in order.
pub open spec fn runs(chars: Seq<char>, numeric_only: bool) -> Seq<Seq<char>> {
    let st = split_state(chars, numeric_only);
    if st.1.len() > 0 {
        st.0.push(st.1)
    } else {
        st.0
    }
}

/// The stop words that full-text indexing drops.
pub open spec fn is_stop_word(t: Seq<char>) -> bool {
    ||| t == "a"@ ||| t == "an"@ ||| t == "and"@ ||| t == "are"@ ||| t == "as"@
    ||| t == "at"@ ||| t == "be"@ ||| t == "but"@ ||| t == "by"@ ||| t == "for"@
    ||| t == "if"@ ||| t == "in"@ ||| t == "into"@ ||| t == "is"@ ||| t == "it"@
    ||| t == "no"@ ||| t == "not"@ ||| t == "of"@ ||| t == "on"@ ||| t == "or"@
    ||| t == "such"@ ||| t == "that"@ ||| t == "the"@ ||| t == "their"@ ||| t == "then"@
    ||| t == "there"@ ||| t == "these"@ ||| t == "they"@ ||| t == "this"@ ||| t == "to"@
    ||| t == "was"@ ||| t == "will"@ ||| t == "with"@
}


/// The words full-text indexing leaves out, as documented.
pub open spec fn documented_stop_words() -> Set<Seq<char>> {
    set![
        "a"@, "an"@, "and"@, "are"@, "as"@, "at"@, "be"@, "but"@, "by"@, "for"@, "if"@, "in"@, "into"@, "is"@,
        "it"@, "no"@, "not"@, "of"@, "on"@, "or"@, "such"@, "that"@, "the"@, "their"@, "then"@, "there"@,
        "these"@, "they"@, "this"@, "to"@, "was"@, "will"@, "with"@,
    ]
}

/// The stems of the words that are not documented stop words, in order.
pub open spec fn content_stems(terms: Seq<Seq<char>>) -> Seq<Seq<char>> {
    terms.filter(|t: Seq<char>| !documented_stop_words().contains(t)).map_values(|t: Seq<char>| english_stem(t))
}

proof fn lemma_term_tokens_fulltext(words: Seq<Seq<char>>)
    ensures
        term_tokens(words, true) == content_stems(term_tokens(words, false)),
    decreases words.len(),
{
    if words.len() == 0 {
        assert(term_tokens(words, false).filter(|t: Seq<char>| !documented_stop_words().contains(t)) =~= Seq::<Seq<char>>::empty());
        assert(content_stems(term_tokens(words, false)) =~= Seq::<Seq<char>>::empty());
    } else {
        let init = words.drop_last();
        lemma_term_tokens_fulltext(init);
        let t = lowercase(words.last());
        let prev = term_tokens(init, false);
        assert(term_tokens(words, false) == prev.push(t));
        prev.lemma_filter_push(t, |t: Seq<char>| !documented_stop_words().contains(t));
        assert(is_stop_word(t) == documented_stop_words().contains(t));
        let f = prev.filter(|t: Seq<char>| !documented_stop_words().contains(t));
        if !is_stop_word(t) {
            assert(f.push(t).map_values(|t: Seq<char>| english_stem(t)) =~= f.map_values(|t: Seq<char>| english_stem(t)).push(english_stem(t)));
        }
    }
}

/// Full-text tokens are the term tokens with the documented stop words
/// left out and each remaining word reduced to its English stem, in order:
/// no stop word (`with`, `the`, ...) ever yields a full-text token.
pub proof fn lemma_fulltext_drops_stop_words(text: Seq<char>)
    ensures
        tokens(text, "fulltext"@) == content_stems(tokens(text, "term"@)),
{
    reveal_strlit("exact");
    reveal_strlit("hash");
    reveal_strlit("term");
    reveal_strlit("fulltext");
    assert("fulltext"@ != "exact"@) by { assert("fulltext"@[0] != "exact"@[0]); }
    assert("fulltext"@ != "hash"@) by { assert("fulltext"@[0] != "hash"@[0]); }
    assert("fulltext"@ != "term"@) by { assert("fulltext"@[0] != "term"@[0]); }
    assert("term"@ != "exact"@) by { assert("term"@[0] != "exact"@[0]); }
    assert("term"@ != "hash"@) by { assert("term"@[0] != "hash"@[0]); }
    lemma_term_tokens_fulltext(runs(text, false));
}

/// Each word lowercased; with `stem`, stop words dropped and the others
/// reduced to their English stem.
pub open spec fn term_tokens(words: Seq<Seq<char>>, stem: bool) -> Seq<Seq<char>>
    decreases words.len(),
{
    if words.len() == 0 {
        Seq::empty()
    } else {
        let prev = term_tokens(words.drop_last(), stem);
        let t = lowercase(words.last());
        if !stem {
            prev.push(t)
        } else if is_stop_word(t) {
            prev
        } else {
            prev.push(english_stem(t))
        }
    }
}

/// Every window of three consecutive characters, in order.
pub open spec fn trigrams(chars: Seq<char>) -> Seq<Seq<char>> {
    if chars.len() < 3 {
        Seq::empty()
    } else {
        Seq::new((chars.len() - 2) as nat, |i: int| chars.subrange(i, i + 3))
    }
}

/// The index terms of `text` under `strategy`.
pub open spec fn tokens(text: Seq<char>, strategy: Seq<char>) -> Seq<Seq<char>> {
    if strategy == "exact"@ {
        seq![text]
    } else if strategy == "hash"@ {
        seq![hex_lower(sha256(encode_utf8(text)))]
    } else if strategy == "term"@ {
        term_tokens(runs(text, false), false)
    } else if strategy == "fulltext"@ {
        term_tokens(runs(text, false), true)
    } else if strategy == "trigram"@ {
        let low = lowercase(text);
        if encode_utf8(low).len() < 3 {
            Seq::empty()
        } else {
            trigrams(low)
        }
    } else if strategy == "datetime"@ {
        runs(text, true)
    } else {
        Seq::empty()
    }
}

/// The text of each string, in order.
pub open spec fn texts(v: Seq<String>) -> Seq<Seq<char>> {
    v.map_values(|s: String| s@)
}

fn stop_word(t: &str) -> (b: bool)
    ensures
        b == is_stop_word(t@),
{
    same_text(t, "a") || same_text(t, "an") || same_text(t, "and") || same_text(t, "are") || same_text(t, "as")
        || same_text(t, "at") || same_text(t, "be") || same_text(t, "but") || same_text(t, "by") || same_text(t, "for")
        || same_text(t, "if") || same_text(t, "in") || same_text(t, "into") || same_text(t, "is") || same_text(t, "it")
        || same_text(t, "no") || same_text(t, "not") || same_text(t, "of") || same_text(t, "on") || same_text(t, "or")
        || same_text(t, "such") || same_text(t, "that") || same_text(t, "the") || same_text(t, "their") || same_text(t, "then")
        || same_text(t, "there") || same_text(t, "these") || same_text(t, "they") || same_text(t, "this") || same_text(t, "to")
        || same_text(t, "was") || same_text(t, "will") || same_text(t, "with")
}

/// The characters of `s`, in order.
fn chars_of(s: &str) -> (v: Vec<char>)
    ensures
        v@ == s@,
{
    let n = s.unicode_len();
    let mut v: Vec<char> = Vec::new();
    let mut i: usize = 0;
    while i < n
        invariant
            n == s@.len(),
            i <= n,
            v@ == s@.take(i as int),
        decreases n - i,
    {
        v.push(s.get_char(i));
        proof {
            assert(v@ =~= s@.take(i as int + 1));
        }
        i = i + 1;
    }
    proof {
        assert(s@.take(n as int) =~= s@);
    }
    v
}

/// The maximal runs of kept characters of `chars`.
fn split_runs(chars: &Vec<char>, numeric_only: bool) -> (r: Vec<String>)
    ensures
        texts(r@) == runs(chars@, numeric_only),
{
    let mut done: Vec<String> = Vec::new();
    let mut cur = String::new();
    let mut i: usize = 0;
    while i < chars.len()
        invariant
            i <= chars@.len(),
            (texts(done@), cur@) == split_state(chars@.take(i as int), numeric_only),
        decreases chars@.len() - i,
    {
        proof {
            assert(chars@.take(i as int + 1).drop_last() =~= chars@.take(i as int));
            assert(chars@.take(i as int + 1).last() == chars@[i as int]);
        }
        let c = chars[i];
        let keep = if numeric_only { is_num(c) } else { is_alnum(c) };
        if keep {
            push_char(&mut cur, c);
        } else if cur.unicode_len() > 0 {
            let ghost before = done@;
            let finished = cur;
            done.push(finished);
            cur = String::new();
            proof {
                assert(texts(done@) =~= texts(before).push(finished@));
            }
        }
        i = i + 1;
    }
    proof {
        assert(chars@.take(chars@.len() as int) =~= chars@);
    }
    if cur.unicode_len() > 0 {
        let ghost before = done@;
        let last = cur;
        done.push(last);
        proof {
            assert(texts(done@) =~= texts(before).push(last@));
        }
    }
    done
}

/// Index terms from words (see [`term_tokens`]).
fn words_to_terms(words: Vec<String>, stem: bool) -> (r: Vec<String>)
    ensures
        texts(r@) == term_tokens(texts(words@), stem),
{
    let mut out: Vec<String> = Vec::new();
    let mut i: usize = 0;
    while i < words.len()
        invariant
            i <= words@.len(),
            texts(out@) == term_tokens(texts(words@.take(i as int)), stem),
        decreases words@.len() - i,
    {
        proof {
            assert(texts(words@.take(i as int + 1)).drop_last() =~= texts(words@.take(i as int)));
            assert(texts(words@.take(i as int + 1)).last() == words@[i as int]@);
        }
        let t = to_lower(words[i].as_str());
        let ghost before = out@;
        if !stem {
            out.push(t);
            proof {
                assert(texts(out@) =~= texts(before).push(t@));
            }
        } else if !stop_word(t.as_str()) {
            let st = stem_english(t.as_str());
            out.push(st);
            proof {
                assert(texts(out@) =~= texts(before).push(st@));
            }
        }
        i = i + 1;
    }
    proof {
        assert(words@.take(words@.len() as int) =~= words@);
    }
    out
}

/// Every three-character window of `chars`, in order.
fn windows_of_three(chars: &Vec<char>) -> (r: Vec<String>)
    ensures
        texts(r@) == trigrams(chars@),
{
    let mut out: Vec<String> = Vec::new();
    if chars.len() < 3 {
        proof {
            assert(texts(out@) =~= Seq::<Seq<char>>::empty());
        }
        return out;
    }
    let n = chars.len() - 2;
    let mut i: usize = 0;
    while i < n
        invariant
            n == chars@.len() - 2,
            n + 2 == chars.len(),
            chars@.len() >= 3,
            i <= n,
            texts(out@).len() == i,
            forall|j: int| 0 <= j < i ==> #[trigger] texts(out@)[j] == chars@.subrange(j, j + 3),
        decreases n - i,
    {
        let mut w = String::new();
        push_char(&mut w, chars[i]);
        push_char(&mut w, chars[i + 1]);
        push_char(&mut w, chars[i + 2]);
        proof {
            assert(w@ =~= chars@.subrange(i as int, i as int + 3));
        }
        let ghost before = out@;
        out.push(w);
        proof {
            assert(texts(out@) =~= texts(before).push(w@));
        }
        i = i + 1;
    }
    proof {
        assert(texts(out@) =~= trigrams(chars@));
    }
    out
}

/// Cuts field values into index terms.
pub struct Tokenizer;

impl Tokenizer {
    /// The index terms of `text` under `strategy` (see [`tokens`]).
    pub fn tokenize(text: &str, strategy: &str) -> (r: Vec<String>)
        ensures
            texts(r@) == tokens(text@, strategy@),
            strategy@ == "hash"@ ==> r@.len() == 1 && r@[0]@.len() == 64,
    {
        proof {
            reveal_strlit("exact");
            reveal_strlit("hash");
        }
        let mut out: Vec<String> = Vec::new();
        if same_text(strategy, "exact") {
            proof {
                assert("exact"@.len() == 5);
                assert("hash"@.len() == 4);
            }
            out.push(text.to_owned());
            proof {
                assert(texts(out@) =~= seq![text@]);
            }
        } else if same_text(strategy, "hash") {
            let digest = sha256_digest(text.as_bytes());
            out.push(hex_encode(digest.as_slice()));
            proof {
                lemma_hex_len(digest@);
            }
            proof {
                assert(texts(out@) =~= seq![hex_lower(sha256(encode_utf8(text@)))]);
            }
        } else if same_text(strategy, "term") {
            let chars = chars_of(text);
            out = words_to_terms(split_runs(&chars, false), false);
        } else if same_text(strategy, "fulltext") {
            let chars = chars_of(text);
            out = words_to_terms(split_runs(&chars, false), true);
        } else if same_text(strategy, "trigram") {
            let low = to_lower(text);
            if low.as_str().as_bytes().len() < 3 {
                proof {
                    assert(texts(out@) =~= Seq::<Seq<char>>::empty());
                }
                return out;
            }
            let chars = chars_of(low.as_str());
            out = windows_of_three(&chars);
        } else if same_text(strategy, "datetime") {
            let chars = chars_of(text);
            out = split_runs(&chars, true);
        } else {
            proof {
                assert(texts(out@) =~= Seq::<Seq<char>>::empty());
            }
        }
        out
    }
}

} // verus!
