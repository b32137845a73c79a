//! Tokens, and the tokenizer that reads them from program text.

use crate::decimal::{
    decimal_value, int_text, is_canonical_decimal, is_digit, lemma_canonical_decimal_text,
    lemma_int_text_value, lemma_nat_text_value, nat_text, parse_decimal, parse_i64, push_decimal,
    render_decimal,
};
use crate::error::ParseTextError;
use crate::opp::{chars_of, Opp};
use crate::words::{
    is_space, is_spacing, is_word, joined, lemma_closed_words_stay, lemma_words_of_joined, scan,
    words,
};
use vstd::prelude::*;
use vstd::string::StringExecFns;

verus! {

/// One element of a program: a literal integer or a named operation.
#[derive(Debug, Clone, Copy, Hash, PartialEq, Eq, Structural)]
pub enum Token {
    /// A literal operand.
    Value(i64),
    /// A named operation.
    Opp(Opp),
}

impl Token {
    /// The text of a token: an integer in base ten, an operation as its
    /// mnemonic.
    pub open spec fn text(self) -> Seq<char> {
        match self {
            Token::Value(v) => int_text(v as int),
            Token::Opp(op) => op.mnemonic_spec(),
        }
    }

    /// The token that a word spells. A word is tried as an integer first and
    /// as a mnemonic second; any other word spells nothing.
    pub open spec fn spelled(word: Seq<char>) -> Option<Token> {
        match parse_i64(word) {
            Some(v) => Some(Token::Value(v)),
            None => match Opp::named(word) {
                Some(op) => Some(Token::Opp(op)),
                None => None,
            },
        }
    }

    /// Whether a word is the text of the token that it spells. Every
    /// mnemonic is; a numeral is unless it carries a `+`, a redundant
    /// leading zero, or is `-0`.
    pub open spec fn is_canonical(word: Seq<char>) -> bool {
        parse_i64(word) is Some ==> is_canonical_decimal(word)
    }

    /// The text of a token is a single word.
    pub proof fn lemma_text_is_word(self)
        ensures
            is_word(self.text()),
    {
        match self {
            Token::Value(v) => {
                let word = int_text(v as int);
                if v < 0 {
                    lemma_nat_text_value((-v) as nat);
                    let digits = nat_text((-v) as nat);
                    assert forall|i: int| 0 <= i < word.len() implies !is_space(
                        #[trigger] word[i],
                    ) by {
                        if i > 0 {
                            assert(word[i] == digits[i - 1]);
                            assert(is_digit(digits[i - 1]));
                        }
                    }
                } else {
                    lemma_nat_text_value(v as nat);
                    assert forall|i: int| 0 <= i < word.len() implies !is_space(
                        #[trigger] word[i],
                    ) by {
                        assert(is_digit(word[i]));
                    }
                }
            },
            Token::Opp(op) => {
                op.lemma_mnemonic_shape();
            },
        }
    }

    /// Reading the text of a token gives the token back.
    pub proof fn lemma_spelled_text(self)
        ensures
            Token::spelled(self.text()) == Some(self),
            Token::is_canonical(self.text()),
    {
        match self {
            Token::Value(v) => {
                lemma_int_text_value(v as int);
            },
            Token::Opp(op) => {
                op.lemma_mnemonic_shape();
                op.lemma_named_mnemonic();
                let word = op.mnemonic_spec();
                assert('a' <= word[0] <= 'z');
                assert(decimal_value(word) is None);
            },
        }
    }

    /// Writing the token that a canonical word spells gives the word back.
    pub proof fn lemma_text_spelled(word: Seq<char>)
        requires
            Token::spelled(word) is Some,
            Token::is_canonical(word),
        ensures
            Token::spelled(word)->0.text() == word,
    {
        if parse_i64(word) is Some {
            lemma_canonical_decimal_text(word);
        } else {
            Opp::lemma_named_is_mnemonic(word);
        }
    }

    /// Reads a token from a word held as characters.
    pub fn from_chars(word: &[char]) -> (token: Option<Token>)
        ensures
            token == Token::spelled(word@),
    {
        match parse_decimal(word) {
            Some(v) => Some(Token::Value(v)),
            None => match Opp::from_chars(word) {
                Some(op) => Some(Token::Opp(op)),
                None => None,
            },
        }
    }

    /// Reads a token from a word; a word that spells none is refused.
    pub fn from_str(s: &str) -> (token: Result<Token, ()>)
        ensures
            token == match Token::spelled(s@) {
                Some(t) => Ok::<Token, ()>(t),
                None => Err(()),
            },
    {
        let word = chars_of(s);
        match Token::from_chars(word.as_slice()) {
            Some(t) => Ok(t),
            None => Err(()),
        }
    }

    /// Renders the token as text.
    pub fn to_string(&self) -> (text: String)
        ensures
            text@ == self.text(),
    {
        match self {
            Token::Value(v) => render_decimal(*v),
            Token::Opp(op) => op.to_string(),
        }
    }
}

/// Whether a list of tokens is what a list of words spells, word for word.
pub open spec fn spell_tokens(ws: Seq<Seq<char>>, tokens: Seq<Token>) -> bool {
    &&& tokens.len() == ws.len()
    &&& forall|i: int| 0 <= i < ws.len() ==> Token::spelled(#[trigger] ws[i]) == Some(tokens[i])
}

/// Whether `idx` is the position of the first word that spells no token.
pub open spec fn first_invalid_word(ws: Seq<Seq<char>>, idx: int) -> bool {
    &&& 0 <= idx < ws.len()
    &&& Token::spelled(ws[idx]) is None
    &&& forall|i: int| 0 <= i < idx ==> Token::spelled(#[trigger] ws[i]) is Some
}

/// The texts of a list of tokens.
pub open spec fn texts(tokens: Seq<Token>) -> Seq<Seq<char>> {
    Seq::new(tokens.len(), |i: int| tokens[i].text())
}

/// A program as text: each token followed by the separator.
pub open spec fn formatted(tokens: Seq<Token>, separator: Seq<char>) -> Seq<char> {
    joined(texts(tokens), separator)
}

/// Reading a formatted program gives its tokens back, whatever whitespace
/// was chosen to separate them.
pub proof fn lemma_format_then_parse(tokens: Seq<Token>, separator: Seq<char>)
    requires
        is_spacing(separator),
    ensures
        words(formatted(tokens, separator)) == texts(tokens),
        spell_tokens(words(formatted(tokens, separator)), tokens),
{
    let ws = texts(tokens);
    assert forall|i: int| 0 <= i < ws.len() implies is_word(#[trigger] ws[i]) by {
        tokens[i].lemma_text_is_word();
    }
    lemma_words_of_joined(ws, separator);
    assert forall|i: int| 0 <= i < ws.len() implies Token::spelled(#[trigger] ws[i]) == Some(
        tokens[i],
    ) by {
        tokens[i].lemma_spelled_text();
    }
}

/// Formatting the tokens of a text whose words are all canonical writes the
/// words of the text back, each followed by the separator: the text with its
/// whitespace normalized.
pub proof fn lemma_parse_then_format(text: Seq<char>, tokens: Seq<Token>, separator: Seq<char>)
    requires
        spell_tokens(words(text), tokens),
        forall|i: int| 0 <= i < words(text).len() ==> Token::is_canonical(#[trigger] words(text)[i]),
    ensures
        formatted(tokens, separator) == joined(words(text), separator),
{
    let ws = words(text);
    assert forall|i: int| 0 <= i < ws.len() implies texts(tokens)[i] == ws[i] by {
        assert(Token::spelled(ws[i]) == Some(tokens[i]));
        assert(Token::is_canonical(ws[i]));
        Token::lemma_text_spelled(ws[i]);
    }
    assert(texts(tokens) == ws);
}

/// The tokenizer: a lexical pass from text to tokens.
pub struct Tokenizer {}

impl Tokenizer {
    /// Splits a text on ASCII whitespace and reads each word as a token.
    /// Succeeds when every word spells a token, with the tokens in order;
    /// otherwise fails with the position of the first word that spells none.
    /// A text without words gives no tokens.
    pub fn parse_text(text: &str) -> (parsed: Result<Vec<Token>, ParseTextError>)
        ensures
            match parsed {
                Ok(tokens) => spell_tokens(words(text@), tokens@),
                Err(e) => first_invalid_word(words(text@), e.idx as int),
            },
    {
        let mut tokens: Vec<Token> = Vec::new();
        let mut word: Vec<char> = Vec::new();
        for c in it: text.chars()
            invariant
                it.seq() == text@,
                word@ == scan(text@.take(it.index())).open,
                spell_tokens(scan(text@.take(it.index())).closed, tokens@),
                tokens@.len() + word@.len() <= it.index(),
        {
            let ghost seen = text@.take(it.index());
            let ghost next = text@.take(it.index() + 1);
            assert(next.drop_last() == seen);
            assert(next.last() == c);
            if c == ' ' || c == '\t' || c == '\n' || c == '\x0C' || c == '\r' {
                if word.len() > 0 {
                    match Token::from_chars(word.as_slice()) {
                        Some(token) => {
                            tokens.push(token);
                            word.clear();
                        },
                        None => {
                            proof {
                                lemma_closed_words_stay(text@, it.index() + 1);
                                let idx = tokens@.len() as int;
                                assert(scan(next).closed[idx] == word@);
                                assert forall|i: int| 0 <= i < idx implies Token::spelled(
                                    #[trigger] words(text@)[i],
                                ) is Some by {
                                    assert(scan(next).closed[i] == scan(seen).closed[i]);
                                    assert(words(text@)[i] == scan(text@).closed[i]);
                                }
                                assert(words(text@)[idx] == scan(text@).closed[idx]);
                            }
                            return Err(ParseTextError { idx: tokens.len() });
                        },
                    }
                }
            } else {
                word.push(c);
            }
        }
        assert(text@.take(text@.len() as int) == text@);
        if word.len() > 0 {
            match Token::from_chars(word.as_slice()) {
                Some(token) => {
                    tokens.push(token);
                },
                None => {
                    return Err(ParseTextError { idx: tokens.len() });
                },
            }
        }
        Ok(tokens)
    }
}

/// Tokenizes an owned text; see [`Tokenizer::parse_text`].
pub fn parse_text(text: String) -> (parsed: Result<Vec<Token>, ParseTextError>)
    ensures
        match parsed {
            Ok(tokens) => spell_tokens(words(text@), tokens@),
            Err(e) => first_invalid_word(words(text@), e.idx as int),
        },
{
    Tokenizer::parse_text(text.as_str())
}

/// Writes a program as text: each token, followed by the separator.
pub fn format_tokens(tokens: &[Token], separator: &str) -> (text: String)
    ensures
        text@ == formatted(tokens@, separator@),
{
    let mut text = String::new();
    let mut at: usize = 0;
    assert(texts(tokens@.take(0)) == Seq::<Seq<char>>::empty());
    while at < tokens.len()
        invariant
            at <= tokens@.len(),
            text@ == formatted(tokens@.take(at as int), separator@),
        decreases tokens@.len() - at,
    {
        let ghost before = texts(tokens@.take(at as int));
        let ghost after = texts(tokens@.take(at + 1));
        assert(after.drop_last() == before);
        assert(after.last() == tokens@[at as int].text());
        match tokens[at] {
            Token::Value(v) => push_decimal(&mut text, v),
            Token::Opp(op) => text.append(op.mnemonic()),
        }
        text.append(separator);
        at = at + 1;
    }
    assert(tokens@.take(at as int) == tokens@);
    text
}

} // verus!
