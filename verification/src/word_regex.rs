//! Whole-word replacement, done by the `regex` crate.
//!
//! A word boundary is the `\b` of `regex`: a position between a Unicode word
//! character and anything else. What a pattern matches is not stated here;
//! the results of the crate's functions are named instead.

use vstd::prelude::*;

verus! {

/// Whether `regex::Regex::new` accepts `pattern`.
pub uninterp spec fn regex_compiles(pattern: Seq<char>) -> bool;

/// What `regex::Regex::replace_all` returns for the regex compiled from
/// `pattern`, the haystack `text` and the replacement string `replacement`.
pub uninterp spec fn regex_replaced(
    pattern: Seq<char>,
    text: Seq<char>,
    replacement: Seq<char>,
) -> Seq<char>;

/// What `regex::Regex::replace_all` returns for the regex compiled from
/// `pattern` and the haystack `text` when each match is replaced by
/// `looked_up(keys, values, matched text)`.
pub uninterp spec fn regex_replaced_by_lookup(
    pattern: Seq<char>,
    text: Seq<char>,
    keys: Seq<Seq<char>>,
    values: Seq<Seq<char>>,
) -> Seq<char>;

/// Whether `c` is one of the characters that `regex` treats as syntax.
pub open spec fn is_regex_meta(c: char) -> bool {
    c == '\\' || c == '.' || c == '+' || c == '*' || c == '?' || c == '(' || c == ')' || c == '|'
        || c == '[' || c == ']' || c == '{' || c == '}' || c == '^' || c == '$' || c == '#' || c
        == '&' || c == '-' || c == '~'
}

/// `text` with a backslash before each syntax character.
pub open spec fn escaped(text: Seq<char>) -> Seq<char>
    decreases text.len(),
{
    if text.len() == 0 {
        Seq::empty()
    } else if is_regex_meta(text.last()) {
        escaped(text.drop_last()).push('\\').push(text.last())
    } else {
        escaped(text.drop_last()).push(text.last())
    }
}

/// The views of the strings of `v`.
pub open spec fn views(v: Seq<String>) -> Seq<Seq<char>> {
    v.map_values(|s: String| s@)
}

/// The pattern that matches `word` between two word boundaries.
pub open spec fn word_pattern(word: Seq<char>) -> Seq<char> {
    seq!['\\', 'b'] + escaped(word) + seq!['\\', 'b']
}

/// The value that belongs to the first key at or after position `i` that is
/// equal to `matched`; `matched` itself when no such key is there or the key
/// has no value.
pub open spec fn looked_up_from(
    keys: Seq<Seq<char>>,
    values: Seq<Seq<char>>,
    matched: Seq<char>,
    i: int,
) -> Seq<char>
    decreases keys.len() - i,
{
    if i < 0 || i >= keys.len() {
        matched
    } else if keys[i] == matched {
        if i < values.len() {
            values[i]
        } else {
            matched
        }
    } else {
        looked_up_from(keys, values, matched, i + 1)
    }
}

/// The value that belongs to the first key equal to `matched`; `matched`
/// itself when no key is equal or the key has no value.
pub open spec fn looked_up(
    keys: Seq<Seq<char>>,
    values: Seq<Seq<char>>,
    matched: Seq<char>,
) -> Seq<char> {
    looked_up_from(keys, values, matched, 0)
}

/// `text` with every whole-word occurrence of `word` replaced by
/// `replacement`, as `regex` does it; `text` itself when `regex` refuses the
/// pattern.
pub open spec fn word_replaced(
    text: Seq<char>,
    word: Seq<char>,
    replacement: Seq<char>,
) -> Seq<char> {
    if regex_compiles(word_pattern(word)) {
        regex_replaced(word_pattern(word), text, replacement)
    } else {
        text
    }
}

/// Calls `regex::escape`, which puts a backslash before each of the
/// characters `\ . + * ? ( ) | [ ] { } ^ $ # & - ~` and copies the rest.
#[verifier::external_body]
fn escape(text: &str) -> (r: String)
    ensures
        r@ == escaped(text@),
{
    regex::escape(text)
}

/// Compiles `pattern` with `regex::Regex::new` and, if that succeeds, calls
/// `Regex::replace_all` on `text` with the replacement string
/// `replacement`. Nothing is claimed of the result but that it is the one
/// named by `regex_replaced`, and that it is there exactly when the pattern
/// compiles.
#[verifier::external_body]
fn replace_all(pattern: &str, text: &str, replacement: &str) -> (r: Option<String>)
    ensures
        r is Some == regex_compiles(pattern@),
        r matches Some(s) ==> s@ == regex_replaced(pattern@, text@, replacement@),
{
    match regex::Regex::new(pattern) {
        Ok(re) => Some(re.replace_all(text, replacement).into_owned()),
        Err(_) => None,
    }
}

/// Compiles `pattern` with `regex::Regex::new` and, if that succeeds, calls
/// `Regex::replace_all` on `text` with a replacer that hands each matched
/// text to `lookup`. Nothing is claimed of the result but that it is the one
/// named by `regex_replaced_by_lookup`, and that it is there exactly when
/// the pattern compiles.
#[verifier::external_body]
fn replace_all_by_lookup(
    pattern: &str,
    text: &str,
    keys: &Vec<String>,
    values: &Vec<String>,
) -> (r: Option<String>)
    ensures
        r is Some == regex_compiles(pattern@),
        r matches Some(s) ==> s@ == regex_replaced_by_lookup(
            pattern@,
            text@,
            views(keys@),
            views(values@),
        ),
{
    match regex::Regex::new(pattern) {
        Ok(re) => Some(
            re.replace_all(text, |caps: &regex::Captures| lookup(keys, values, &caps[0]))
                .into_owned(),
        ),
        Err(_) => None,
    }
}

/// The value that belongs to the first key equal to `matched`.
pub fn lookup(keys: &Vec<String>, values: &Vec<String>, matched: &str) -> (r: String)
    ensures
        r@ == looked_up(views(keys@), views(values@), matched@),
{
    let wanted = matched.to_owned();
    let mut i: usize = 0;
    while i < keys.len()
        invariant
            i <= keys.len(),
            wanted@ == matched@,
            looked_up(views(keys@), views(values@), matched@) == looked_up_from(
                views(keys@),
                views(values@),
                matched@,
                i as int,
            ),
        decreases keys.len() - i,
    {
        if keys[i] == wanted {
            if i < values.len() {
                return values[i].clone();
            } else {
                return wanted;
            }
        }
        i += 1;
    }
    wanted
}

/// Replaces every whole-word occurrence of `word` in `text` by
/// `replacement`.
pub fn replace_word(text: &str, word: &str, replacement: &str) -> (r: String)
    ensures
        r@ == word_replaced(text@, word@, replacement@),
{
    let mut pattern = String::from_str("\\b");
    pattern.append(escape(word).as_str());
    pattern.append("\\b");
    proof {
        reveal_strlit("\\b");
        assert("\\b"@ =~= seq!['\\', 'b']);
        assert(pattern@ =~= word_pattern(word@));
    }
    match replace_all(pattern.as_str(), text, replacement) {
        Some(replaced) => replaced,
        None => text.to_owned(),
    }
}

/// Length of `s` in bytes of UTF-8.
pub open spec fn byte_length(s: Seq<char>) -> nat {
    vstd::utf8::encode_utf8(s).len()
}

/// First position at or after `k` whose word is shorter in bytes than
/// `word`, or the end.
pub open spec fn insertion_point(sorted: Seq<Seq<char>>, word: Seq<char>, k: int) -> int
    decreases sorted.len() - k,
{
    if 0 <= k < sorted.len() && byte_length(sorted[k]) >= byte_length(word) {
        insertion_point(sorted, word, k + 1)
    } else {
        k
    }
}

/// `words` ordered by falling byte length; words of one length keep their
/// order.
pub open spec fn longest_first(words: Seq<Seq<char>>) -> Seq<Seq<char>>
    decreases words.len(),
{
    if words.len() == 0 {
        Seq::empty()
    } else {
        let sorted = longest_first(words.drop_last());
        sorted.insert(insertion_point(sorted, words.last(), 0), words.last())
    }
}

/// The pattern that matches any of `words` as a whole word, earlier words
/// first.
pub open spec fn alternation(words: Seq<Seq<char>>) -> Seq<char>
    decreases words.len(),
{
    if words.len() == 0 {
        Seq::empty()
    } else if words.len() == 1 {
        word_pattern(words[0])
    } else {
        alternation(words.drop_last()) + seq!['|'] + word_pattern(words.last())
    }
}

/// `body` with every whole-word occurrence of a parameter replaced by the
/// argument at the parameter's position, all at once. Longer parameters are
/// tried first. Without parameters, and when `regex` refuses the pattern,
/// the body stays as it is.
pub open spec fn substituted(
    body: Seq<char>,
    params: Seq<Seq<char>>,
    args: Seq<Seq<char>>,
) -> Seq<char> {
    let pattern = alternation(longest_first(params));
    if params.len() > 0 && regex_compiles(pattern) {
        regex_replaced_by_lookup(pattern, body, params, args)
    } else {
        body
    }
}

/// The words ordered by falling byte length.
pub fn sort_longest_first(words: &Vec<String>) -> (sorted: Vec<String>)
    ensures
        views(sorted@) == longest_first(views(words@)),
{
    let mut sorted: Vec<String> = Vec::new();
    let mut i: usize = 0;
    assert(views(words@).take(0) =~= Seq::empty());
    while i < words.len()
        invariant
            i <= words.len(),
            views(sorted@) == longest_first(views(words@).take(i as int)),
        decreases words.len() - i,
    {
        let word = words[i].clone();
        let word_len = word.as_str().as_bytes().len();
        let mut k: usize = 0;
        while k < sorted.len() && sorted[k].as_str().as_bytes().len() >= word_len
            invariant
                k <= sorted.len(),
                word_len == byte_length(word@),
                forall|j: int| 0 <= j < sorted.len() ==> views(sorted@)[j] == sorted@[j]@,
                insertion_point(views(sorted@), word@, k as int) == insertion_point(
                    views(sorted@),
                    word@,
                    0,
                ),
            decreases sorted.len() - k,
        {
            k += 1;
        }
        let ghost before = views(sorted@);
        sorted.insert(k, word);
        proof {
            let prefix = views(words@).take(i + 1);
            assert(prefix.drop_last() =~= views(words@).take(i as int));
            assert(prefix.last() == words@[i as int]@);
            assert(views(sorted@) =~= before.insert(k as int, words@[i as int]@));
        }
        i += 1;
    }
    assert(views(words@).take(words.len() as int) =~= views(words@));
    sorted
}

/// The pattern that matches any of `words` as a whole word.
pub fn build_alternation(words: &Vec<String>) -> (pattern: String)
    ensures
        pattern@ == alternation(views(words@)),
{
    let mut pattern = String::new();
    let mut i: usize = 0;
    assert(views(words@).take(0) =~= Seq::empty());
    while i < words.len()
        invariant
            i <= words.len(),
            pattern@ == alternation(views(words@).take(i as int)),
        decreases words.len() - i,
    {
        let ghost before = pattern@;
        if i > 0 {
            pattern.append("|");
        }
        pattern.append("\\b");
        pattern.append(escape(words[i].as_str()).as_str());
        pattern.append("\\b");
        proof {
            reveal_strlit("\\b");
            reveal_strlit("|");
            assert("\\b"@ =~= seq!['\\', 'b']);
            assert("|"@ =~= seq!['|']);
            let prefix = views(words@).take(i + 1);
            assert(prefix.drop_last() =~= views(words@).take(i as int));
            assert(prefix.last() == words@[i as int]@);
            if i == 0 {
                assert(prefix[0] == words@[0]@);
                assert(pattern@ =~= word_pattern(words@[0]@));
            } else {
                assert(pattern@ =~= before + seq!['|'] + word_pattern(words@[i as int]@));
            }
        }
        i += 1;
    }
    assert(views(words@).take(words.len() as int) =~= views(words@));
    pattern
}

/// Puts the arguments in the place of the parameters of a macro body.
pub fn substitute(body: &str, params: &Vec<String>, args: &Vec<String>) -> (r: String)
    ensures
        r@ == substituted(body@, views(params@), views(args@)),
{
    if params.len() == 0 {
        return body.to_owned();
    }
    let sorted = sort_longest_first(params);
    let pattern = build_alternation(&sorted);
    match replace_all_by_lookup(pattern.as_str(), body, params, args) {
        Some(replaced) => replaced,
        None => body.to_owned(),
    }
}

} // verus!
