//! Reads the characters of an arithmetic expression and turns them into tokens,
//! one at a time.
use crate::token::{token_result_view, ParseError, Tok, Token};
use vstd::prelude::*;
use vstd::std_specs::iter::IteratorSpec;

verus! {

pub open spec fn is_digit(c: char) -> bool {
    '0' <= c && c <= '9'
}

/// A character that may continue a numeric literal.
pub open spec fn is_number_char(c: char) -> bool {
    is_digit(c) || c == '.'
}

/// Blanks between tokens: space, tab and newline.
pub open spec fn is_blank(c: char) -> bool {
    c == ' ' || c == '\t' || c == '\n'
}

/// The token that a single-character symbol stands for.
pub open spec fn symbol_token(c: char) -> Option<Tok> {
    if c == '+' {
        Some(Tok::Add)
    } else if c == '-' {
        Some(Tok::Subtract)
    } else if c == '*' {
        Some(Tok::Multiply)
    } else if c == '/' {
        Some(Tok::Divide)
    } else if c == '^' {
        Some(Tok::Caret)
    } else if c == '&' {
        Some(Tok::And)
    } else if c == '|' {
        Some(Tok::Or)
    } else if c == '(' {
        Some(Tok::LeftParen)
    } else if c == ')' {
        Some(Tok::RightParen)
    } else {
        None
    }
}

/// Where the run of digits and decimal points that starts at `p` ends.
pub open spec fn number_end(s: Seq<char>, p: nat) -> nat
    decreases s.len() - p,
{
    if p < s.len() && is_number_char(s[p as int]) {
        number_end(s, p + 1)
    } else {
        p
    }
}

/// How many decimal points `t` holds.
pub open spec fn point_count(t: Seq<char>) -> nat
    decreases t.len(),
{
    if t.len() == 0 {
        0
    } else {
        point_count(t.drop_last()) + if t.last() == '.' {
            1nat
        } else {
            0nat
        }
    }
}

/// A run of digits and decimal points forms a number when it has at most one point.
pub open spec fn is_well_formed_number(t: Seq<char>) -> bool {
    point_count(t) <= 1
}

/// The token that scanning `s` from position `p` yields, and the position after it.
///
/// Blanks are skipped; past the end there is only `EOF`. A digit starts a
/// literal that takes every following digit and decimal point. Any other
/// character is one token, or an error, and is consumed either way.
pub open spec fn scan(s: Seq<char>, p: nat) -> (Result<Tok, ParseError>, nat)
    decreases s.len() - p,
{
    if p >= s.len() {
        (Ok(Tok::EOF), p)
    } else {
        let c = s[p as int];
        if is_blank(c) {
            scan(s, p + 1)
        } else if is_digit(c) {
            let q = number_end(s, p + 1);
            let text = s.subrange(p as int, q as int);
            if is_well_formed_number(text) {
                (Ok(Tok::Num(text)), q)
            } else {
                (Err(ParseError::MalformedNumber), q)
            }
        } else {
            match symbol_token(c) {
                Some(t) => (Ok(t), p + 1),
                None => (Err(ParseError::UnrecognizedCharacter(c)), p + 1),
            }
        }
    }
}

pub proof fn lemma_number_end(s: Seq<char>, p: nat)
    requires
        p <= s.len(),
    ensures
        p <= number_end(s, p) <= s.len(),
        forall|i: int| p <= i < number_end(s, p) ==> is_number_char(#[trigger] s[i]),
    decreases s.len() - p,
{
    if p < s.len() && is_number_char(s[p as int]) {
        lemma_number_end(s, p + 1);
    }
}

/// A scan never moves back nor past the end, and only `EOF` leaves the position
/// where it is.
pub proof fn lemma_scan_advances(s: Seq<char>, p: nat)
    ensures
        p <= s.len() ==> scan(s, p).1 <= s.len(),
        p <= scan(s, p).1,
        scan(s, p).0 != Ok::<Tok, ParseError>(Tok::EOF) ==> p < s.len() && p < scan(s, p).1,
    decreases s.len() - p,
{
    if p < s.len() {
        let c = s[p as int];
        if is_blank(c) {
            lemma_scan_advances(s, p + 1);
        } else if is_digit(c) {
            lemma_number_end(s, p + 1);
        }
    }
}

/// Every literal that a scan yields starts with a digit and holds only digits
/// and at most one decimal point: a leading `-` is never part of a literal, so
/// negation is left to the parser.
pub proof fn lemma_literal_shape(s: Seq<char>, p: nat)
    ensures
        match scan(s, p).0 {
            Ok(Tok::Num(text)) => {
                &&& text.len() > 0
                &&& is_digit(text[0])
                &&& forall|i: int| 0 <= i < text.len() ==> is_number_char(#[trigger] text[i])
                &&& point_count(text) <= 1
            },
            _ => true,
        },
    decreases s.len() - p,
{
    if p < s.len() {
        let c = s[p as int];
        if is_blank(c) {
            lemma_literal_shape(s, p + 1);
        } else if is_digit(c) {
            lemma_number_end(s, p + 1);
            let q = number_end(s, p + 1);
            let text = s.subrange(p as int, q as int);
            assert forall|i: int| 0 <= i < text.len() implies is_number_char(#[trigger] text[i]) by {
                if i > 0 {
                    assert(text[i] == s[p + i]);
                }
            }
        }
    }
}

/// The tokens of `s` from position `p` up to and including `EOF`, or the first
/// error on the way.
pub open spec fn lex_from(s: Seq<char>, p: nat) -> Result<Seq<Tok>, ParseError>
    decreases s.len() - p,
    via lex_from_decreases
{
    let (r, q) = scan(s, p);
    match r {
        Err(e) => Err(e),
        Ok(Tok::EOF) => Ok(seq![Tok::EOF]),
        Ok(t) => match lex_from(s, q) {
            Ok(rest) => Ok(seq![t] + rest),
            Err(e) => Err(e),
        },
    }
}

#[via_fn]
proof fn lex_from_decreases(s: Seq<char>, p: nat) {
    lemma_scan_advances(s, p);
}

/// Relies on `String::push`, which appends one character at the end.
#[verifier::external_body]
fn push_char(text: &mut String, c: char)
    ensures
        final(text)@ == old(text)@.push(c),
{
    text.push(c);
}

/// Produces the tokens of an expression on demand.
pub struct Tokenizer {
    chars: Vec<char>,
    pos: usize,
}

impl Tokenizer {
    /// The characters being tokenized.
    pub closed spec fn input(&self) -> Seq<char> {
        self.chars@
    }

    /// How many characters have been consumed.
    pub closed spec fn position(&self) -> nat {
        self.pos as nat
    }

    pub closed spec fn wf(&self) -> bool {
        self.pos <= self.chars.len()
    }

    /// A tokenizer at the start of `new_expr`.
    pub fn new(new_expr: &str) -> (t: Tokenizer)
        ensures
            t.wf(),
            t.input() == new_expr@,
            t.position() == 0,
    {
        broadcast use vstd::string::axiom_spec_iter, vstd::string::next_postcondition;

        let mut it = new_expr.chars();
        let mut chars: Vec<char> = Vec::new();
        loop
            invariant
                chars@ + it.remaining() == new_expr@,
                it.decrease() is Some,
            ensures
                chars@ == new_expr@,
            decreases it.decrease()->0,
        {
            let ghost before = it.remaining();
            match it.next() {
                Some(c) => {
                    proof {
                        assert(chars@.push(c) + it.remaining() =~= chars@ + before);
                    }
                    chars.push(c);
                },
                None => {
                    proof {
                        assert(chars@ + before =~= chars@);
                    }
                    break ;
                },
            }
        }
        Tokenizer { chars, pos: 0 }
    }

    /// Reads the rest of a numeric literal whose first digit was just consumed.
    fn parse_number(&mut self, first_digit: char) -> (r: Result<Token, ParseError>)
        requires
            old(self).wf(),
            1 <= old(self).position(),
            old(self).input()[old(self).position() - 1] == first_digit,
            is_digit(first_digit),
        ensures
            final(self).wf(),
            final(self).input() == old(self).input(),
            final(self).position() == number_end(old(self).input(), old(self).position()),
            ({
                let text = old(self).input().subrange(
                    old(self).position() - 1,
                    final(self).position() as int,
                );
                token_result_view(r) == if is_well_formed_number(text) {
                    Ok::<Tok, ParseError>(Tok::Num(text))
                } else {
                    Err::<Tok, ParseError>(ParseError::MalformedNumber)
                }
            }),
    {
        let ghost s = self.chars@;
        let ghost start = self.pos - 1;
        let mut text = String::new();
        push_char(&mut text, first_digit);
        let mut points: usize = 0;
        proof {
            assert(text@.drop_last() =~= Seq::<char>::empty());
            assert(text@.last() == first_digit);
            assert(point_count(Seq::<char>::empty()) == 0);
            assert(point_count(text@) == 0);
            assert(text@ =~= s.subrange(start, self.pos as int));
        }
        while self.pos < self.chars.len() && (is_ascii_digit(self.chars[self.pos])
            || self.chars[self.pos] == '.')
            invariant
                self.chars@ == s,
                0 <= start,
                start + 1 <= self.pos <= s.len(),
                text@ == s.subrange(start, self.pos as int),
                points == point_count(text@),
                points <= self.pos,
                number_end(s, self.pos as nat) == number_end(s, start as nat + 1),
            decreases s.len() - self.pos,
        {
            let c = self.chars[self.pos];
            let ghost prev = text@;
            push_char(&mut text, c);
            if c == '.' {
                points = points + 1;
            }
            proof {
                assert(text@.drop_last() =~= prev);
                assert(text@ =~= s.subrange(start, self.pos + 1));
            }
            self.pos = self.pos + 1;
        }
        if points <= 1 {
            Ok(Token::Num(text))
        } else {
            Err(ParseError::MalformedNumber)
        }
    }

    /// The next token, or `EOF` once the input is exhausted (and on every call
    /// after that). A character that starts no token is consumed and reported.
    pub fn next(&mut self) -> (r: Result<Token, ParseError>)
        requires
            old(self).wf(),
        ensures
            final(self).wf(),
            final(self).input() == old(self).input(),
            final(self).position() <= final(self).input().len(),
            (token_result_view(r), final(self).position()) == scan(
                old(self).input(),
                old(self).position(),
            ),
    {
        let ghost s = self.chars@;
        let ghost p0 = self.pos as nat;
        while self.pos < self.chars.len() && is_blank_char(self.chars[self.pos])
            invariant
                self.chars@ == s,
                self.pos <= s.len(),
                scan(s, self.pos as nat) == scan(s, p0),
            decreases s.len() - self.pos,
        {
            self.pos = self.pos + 1;
        }
        if self.pos >= self.chars.len() {
            return Ok(Token::EOF);
        }
        let c = self.chars[self.pos];
        self.pos = self.pos + 1;
        if is_ascii_digit(c) {
            return self.parse_number(c);
        }
        if c == '+' {
            Ok(Token::Add)
        } else if c == '-' {
            Ok(Token::Subtract)
        } else if c == '*' {
            Ok(Token::Multiply)
        } else if c == '/' {
            Ok(Token::Divide)
        } else if c == '^' {
            Ok(Token::Caret)
        } else if c == '&' {
            Ok(Token::And)
        } else if c == '|' {
            Ok(Token::Or)
        } else if c == '(' {
            Ok(Token::LeftParen)
        } else if c == ')' {
            Ok(Token::RightParen)
        } else {
            Err(ParseError::UnrecognizedCharacter(c))
        }
    }
}

fn is_ascii_digit(c: char) -> (r: bool)
    ensures
        r == is_digit(c),
{
    '0' <= c && c <= '9'
}

fn is_blank_char(c: char) -> (r: bool)
    ensures
        r == is_blank(c),
{
    c == ' ' || c == '\t' || c == '\n'
}

/// All tokens of `input`, up to and including `EOF`, or the first error.
pub fn tokenize(input: &str) -> (r: Result<Vec<Token>, ParseError>)
    ensures
        match r {
            Ok(tokens) => lex_from(input@, 0) == Ok::<Seq<Tok>, ParseError>(
                tokens@.map_values(|t: Token| t@),
            ),
            Err(e) => lex_from(input@, 0) == Err::<Seq<Tok>, ParseError>(e),
        },
{
    let mut tokenizer = Tokenizer::new(input);
    let mut tokens: Vec<Token> = Vec::new();
    loop
        invariant
            tokenizer.wf(),
            tokenizer.input() == input@,
            lex_from(input@, 0) == match lex_from(input@, tokenizer.position()) {
                Ok(rest) => Ok(tokens@.map_values(|t: Token| t@) + rest),
                Err(e) => Err::<Seq<Tok>, ParseError>(e),
            },
        decreases input@.len() - tokenizer.position(),
    {
        let ghost p = tokenizer.position();
        proof {
            lemma_scan_advances(input@, p);
        }
        let ghost before = tokens@.map_values(|t: Token| t@);
        let t = tokenizer.next();
        match t {
            Err(e) => {
                return Err(e);
            },
            Ok(Token::EOF) => {
                tokens.push(Token::EOF);
                proof {
                    assert(tokens@.map_values(|t: Token| t@) =~= before + seq![Tok::EOF]);
                }
                return Ok(tokens);
            },
            Ok(t) => {
                let ghost tv = t@;
                tokens.push(t);
                proof {
                    assert(tokens@.map_values(|t: Token| t@) =~= before.push(tv));
                    match lex_from(input@, tokenizer.position()) {
                        Ok(rest) => {
                            assert(before + (seq![tv] + rest) =~= before.push(tv) + rest);
                        },
                        Err(_) => {},
                    }
                }
            },
        }
    }
}

} // verus!
