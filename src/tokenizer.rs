//! Turns a statement into keywords, string literals and whitespace markers.

use vstd::prelude::*;
use vstd::std_specs::iter::IteratorSpec;

verus! {

broadcast use vstd::string::axiom_spec_iter, vstd::string::next_postcondition;

/// A run of word characters that names no keyword; it carries the run in upper case.
#[derive(Debug)]
pub enum TokenizerError {
    UnknownKeyword(String),
}

#[derive(Debug, Clone, Copy, PartialEq, Eq, Structural)]
pub enum Keyword {
    SET,
    TO,
    DELETE,
    GET,
}

#[derive(Debug)]
pub enum Token {
    Keyword(Keyword),
    String(String),
    Whitespace,
}

/// What a token holds, with the literal's text as a sequence of characters.
pub enum TokenView {
    Keyword(Keyword),
    Literal(Seq<char>),
    Whitespace,
}

impl View for Token {
    type V = TokenView;

    open spec fn view(&self) -> TokenView {
        match self {
            Token::Keyword(k) => TokenView::Keyword(*k),
            Token::String(s) => TokenView::Literal(s@),
            Token::Whitespace => TokenView::Whitespace,
        }
    }
}

impl PartialEq for Token {
    fn eq(&self, other: &Token) -> (r: bool)
        ensures
            r == (self@ == other@),
    {
        match (self, other) {
            (Token::Keyword(a), Token::Keyword(b)) => *a == *b,
            (Token::String(a), Token::String(b)) => a.eq(b),
            (Token::Whitespace, Token::Whitespace) => true,
            _ => false,
        }
    }
}

impl vstd::std_specs::cmp::PartialEqSpecImpl for Token {
    open spec fn obeys_eq_spec() -> bool {
        true
    }

    open spec fn eq_spec(&self, other: &Token) -> bool {
        self@ == other@
    }
}

/// The views of a sequence of tokens.
pub open spec fn views(ts: Seq<Token>) -> Seq<TokenView> {
    ts.map_values(|t: Token| t@)
}

/// The three kinds of character run that the tokenizer reads.
#[derive(Clone, Copy)]
pub enum RunKind {
    Space,
    Word,
    Literal,
}

pub open spec fn is_space(c: char) -> bool {
    c == ' ' || c == '\n' || c == '\r' || c == '\t'
}

pub open spec fn is_quote(c: char) -> bool {
    c == '\'' || c == '"'
}

/// ASCII letters and digits only.
pub open spec fn is_word_char(c: char) -> bool {
    ('a' <= c && c <= 'z') || ('A' <= c && c <= 'Z') || ('0' <= c && c <= '9')
}

pub open spec fn in_run(c: char, kind: RunKind) -> bool {
    match kind {
        RunKind::Space => is_space(c),
        RunKind::Word => is_word_char(c),
        RunKind::Literal => !is_quote(c),
    }
}

/// The first position at or after `i` whose character leaves the run.
pub open spec fn run_end(s: Seq<char>, i: int, kind: RunKind) -> int
    decreases s.len() - i,
{
    if 0 <= i < s.len() && in_run(s[i], kind) {
        run_end(s, i + 1, kind)
    } else {
        i
    }
}

pub open spec fn upper(c: char) -> char {
    if 'a' <= c && c <= 'z' {
        ((c as u8) - 32) as u8 as char
    } else {
        c
    }
}

pub open spec fn upper_seq(w: Seq<char>) -> Seq<char> {
    w.map_values(|c: char| upper(c))
}

/// The keyword spelled by an upper-case word.
pub open spec fn keyword_of(w: Seq<char>) -> Option<Keyword> {
    if w == seq!['S', 'E', 'T'] {
        Some(Keyword::SET)
    } else if w == seq!['T', 'O'] {
        Some(Keyword::TO)
    } else if w == seq!['D', 'E', 'L', 'E', 'T', 'E'] {
        Some(Keyword::DELETE)
    } else if w == seq!['G', 'E', 'T'] {
        Some(Keyword::GET)
    } else {
        None
    }
}

/// Puts `front` before the tokens of a successful result; an error stays.
pub open spec fn prepend(
    front: Seq<TokenView>,
    r: Result<Seq<TokenView>, Seq<char>>,
) -> Result<Seq<TokenView>, Seq<char>> {
    match r {
        Ok(ts) => Ok(front + ts),
        Err(w) => Err(w),
    }
}

/// The tokens of `s` from position `i` on, or the first unknown word (in upper case).
///
/// A run of whitespace gives one marker; a run of word characters gives its keyword;
/// a quote opens a literal that runs to the next quote of either kind, or to the end;
/// any other character is passed over.
pub open spec fn lex_from(s: Seq<char>, i: int) -> Result<Seq<TokenView>, Seq<char>>
    decreases s.len() - i,
    via lex_from_decreases
{
    if i < 0 || i >= s.len() {
        Ok(Seq::empty())
    } else if is_space(s[i]) {
        prepend(seq![TokenView::Whitespace], lex_from(s, run_end(s, i, RunKind::Space)))
    } else if is_word_char(s[i]) {
        let e = run_end(s, i, RunKind::Word);
        let w = upper_seq(s.subrange(i, e));
        match keyword_of(w) {
            Some(k) => prepend(seq![TokenView::Keyword(k)], lex_from(s, e)),
            None => Err(w),
        }
    } else if is_quote(s[i]) {
        let e = run_end(s, i + 1, RunKind::Literal);
        let next = if e < s.len() { e + 1 } else { e };
        prepend(seq![TokenView::Literal(s.subrange(i + 1, e))], lex_from(s, next))
    } else {
        lex_from(s, i + 1)
    }
}

pub proof fn lemma_run_end(s: Seq<char>, i: int, kind: RunKind)
    requires
        0 <= i <= s.len(),
    ensures
        i <= run_end(s, i, kind) <= s.len(),
        forall|k: int| i <= k < run_end(s, i, kind) ==> in_run(#[trigger] s[k], kind),
        run_end(s, i, kind) < s.len() ==> !in_run(s[run_end(s, i, kind)], kind),
    decreases s.len() - i,
{
    if i < s.len() && in_run(s[i], kind) {
        lemma_run_end(s, i + 1, kind);
    }
}

#[via_fn]
proof fn lex_from_decreases(s: Seq<char>, i: int) {
    if 0 <= i < s.len() {
        lemma_run_end(s, i, RunKind::Space);
        lemma_run_end(s, i, RunKind::Word);
        lemma_run_end(s, i + 1, RunKind::Literal);
    }
}

/// The tokens of a whole statement.
pub open spec fn lex(s: Seq<char>) -> Result<Seq<TokenView>, Seq<char>> {
    lex_from(s, 0)
}

/// The result of `tokenize`, with tokens and the unknown word as views.
pub open spec fn outcome_view(r: &Result<Vec<Token>, TokenizerError>) -> Result<Seq<TokenView>, Seq<char>> {
    match r {
        Ok(ts) => Ok(views(ts@)),
        Err(TokenizerError::UnknownKeyword(w)) => Err(w@),
    }
}

proof fn lemma_prepend_assoc(a: Seq<TokenView>, b: Seq<TokenView>, r: Result<Seq<TokenView>, Seq<char>>)
    ensures
        prepend(a, prepend(b, r)) == prepend(a + b, r),
{
    if let Ok(ts) = r {
        assert(a + (b + ts) =~= (a + b) + ts);
    }
}

/// Relies on String::push: appends one character.
#[verifier::external_body]
fn push_char(s: &mut String, c: char)
    ensures
        final(s)@ == old(s)@.push(c),
{
    s.push(c);
}

/// The characters of a string, in order.
fn chars_of(s: &String) -> (r: Vec<char>)
    ensures
        r@ == s@,
{
    let mut it = s.as_str().chars();
    let mut out: Vec<char> = Vec::new();
    loop
        invariant
            out@ + it.remaining() == s@,
            it.decrease() is Some,
        ensures
            out@ == s@,
        decreases it.decrease()->0,
    {
        match it.next() {
            Some(c) => {
                out.push(c);
            },
            None => {
                proof {
                    assert(out@ + it.remaining() =~= out@);
                }
                break;
            },
        }
    }
    out
}

/// A string holding `chars[start..end]`.
fn text_of(chars: &Vec<char>, start: usize, end: usize) -> (r: String)
    requires
        start <= end <= chars.len(),
    ensures
        r@ == chars@.subrange(start as int, end as int),
{
    let mut out = String::new();
    let mut j = start;
    while j < end
        invariant
            start <= j <= end <= chars.len(),
            out@ == chars@.subrange(start as int, j as int),
        decreases end - j,
    {
        push_char(&mut out, chars[j]);
        proof {
            assert(out@ =~= chars@.subrange(start as int, j + 1));
        }
        j += 1;
    }
    out
}

fn upper_char(c: char) -> (r: char)
    ensures
        r == upper(c),
{
    if 'a' <= c && c <= 'z' {
        ((c as u8) - 32) as char
    } else {
        c
    }
}

/// `chars[start..end]` in upper case.
fn upper_word(chars: &Vec<char>, start: usize, end: usize) -> (r: Vec<char>)
    requires
        start <= end <= chars.len(),
    ensures
        r@ == upper_seq(chars@.subrange(start as int, end as int)),
{
    let mut out: Vec<char> = Vec::new();
    let mut j = start;
    while j < end
        invariant
            start <= j <= end <= chars.len(),
            out@ == upper_seq(chars@.subrange(start as int, j as int)),
        decreases end - j,
    {
        let u = upper_char(chars[j]);
        out.push(u);
        proof {
            assert(out@ =~= upper_seq(chars@.subrange(start as int, j + 1)));
        }
        j += 1;
    }
    out
}

fn keyword_for(w: &Vec<char>) -> (r: Option<Keyword>)
    ensures
        r == keyword_of(w@),
{
    let n = w.len();
    if n == 3 && w[0] == 'S' && w[1] == 'E' && w[2] == 'T' {
        assert(w@ =~= seq!['S', 'E', 'T']);
        Some(Keyword::SET)
    } else if n == 2 && w[0] == 'T' && w[1] == 'O' {
        assert(w@ =~= seq!['T', 'O']);
        Some(Keyword::TO)
    } else if n == 6 && w[0] == 'D' && w[1] == 'E' && w[2] == 'L' && w[3] == 'E' && w[4] == 'T'
        && w[5] == 'E' {
        assert(w@ =~= seq!['D', 'E', 'L', 'E', 'T', 'E']);
        Some(Keyword::DELETE)
    } else if n == 3 && w[0] == 'G' && w[1] == 'E' && w[2] == 'T' {
        assert(w@ =~= seq!['G', 'E', 'T']);
        Some(Keyword::GET)
    } else {
        proof {
            if w@ == seq!['S', 'E', 'T'] {
                assert(w@[0] == 'S' && w@[1] == 'E' && w@[2] == 'T');
            }
            if w@ == seq!['T', 'O'] {
                assert(w@[0] == 'T' && w@[1] == 'O');
            }
            if w@ == seq!['D', 'E', 'L', 'E', 'T', 'E'] {
                assert(w@[0] == 'D' && w@[1] == 'E' && w@[2] == 'L' && w@[3] == 'E');
                assert(w@[4] == 'T' && w@[5] == 'E');
            }
            if w@ == seq!['G', 'E', 'T'] {
                assert(w@[0] == 'G' && w@[1] == 'E' && w@[2] == 'T');
            }
        }
        None
    }
}

pub struct Tokenizer {}

impl Tokenizer {
    pub fn new() -> (r: Self) {
        Tokenizer {  }
    }

    fn is_whitespace(c: char) -> (r: bool)
        ensures
            r == is_space(c),
    {
        c == ' ' || c == '\n' || c == '\r' || c == '\t'
    }

    fn is_quote(c: char) -> (r: bool)
        ensures
            r == is_quote(c),
    {
        c == '\'' || c == '"'
    }

    fn is_alphanumeric(c: char) -> (r: bool)
        ensures
            r == is_word_char(c),
    {
        ('a' <= c && c <= 'z') || ('A' <= c && c <= 'Z') || ('0' <= c && c <= '9')
    }

    fn in_run(c: char, kind: RunKind) -> (r: bool)
        ensures
            r == in_run(c, kind),
    {
        match kind {
            RunKind::Space => Self::is_whitespace(c),
            RunKind::Word => Self::is_alphanumeric(c),
            RunKind::Literal => !Self::is_quote(c),
        }
    }

    /// The position where the run of `kind` that starts at `start` ends.
    fn read_until(chars: &Vec<char>, start: usize, kind: RunKind) -> (end: usize)
        requires
            start <= chars.len(),
        ensures
            end == run_end(chars@, start as int, kind),
    {
        let mut j = start;
        while j < chars.len() && Self::in_run(chars[j], kind)
            invariant
                start <= j <= chars.len(),
                run_end(chars@, start as int, kind) == run_end(chars@, j as int, kind),
            decreases chars.len() - j,
        {
            j += 1;
        }
        j
    }

    /// Splits a statement into tokens, or names the first word that is no keyword.
    pub fn tokenize(&mut self, statement: String) -> (r: Result<Vec<Token>, TokenizerError>)
        ensures
            outcome_view(&r) == lex(statement@),
    {
        let chars = chars_of(&statement);
        let mut tokens: Vec<Token> = Vec::new();
        let mut i: usize = 0;
        proof {
            assert(views(tokens@) =~= Seq::<TokenView>::empty());
            lemma_prepend_assoc(Seq::empty(), Seq::empty(), lex_from(chars@, 0));
            assert(Seq::<TokenView>::empty() + Seq::<TokenView>::empty() =~= Seq::<TokenView>::empty());
            if let Ok(ts) = lex_from(chars@, 0) {
                assert(Seq::<TokenView>::empty() + ts =~= ts);
            }
        }
        while i < chars.len()
            invariant
                i <= chars.len(),
                chars@ == statement@,
                lex(chars@) == prepend(views(tokens@), lex_from(chars@, i as int)),
            decreases chars.len() - i,
        {
            let c = chars[i];
            let ghost before = tokens@;
            if Self::is_whitespace(c) {
                let e = Self::read_until(&chars, i, RunKind::Space);
                proof {
                    lemma_run_end(chars@, i as int, RunKind::Space);
                }
                tokens.push(Token::Whitespace);
                proof {
                    assert(views(tokens@) =~= views(before) + seq![TokenView::Whitespace]);
                    lemma_prepend_assoc(views(before), seq![TokenView::Whitespace], lex_from(chars@, e as int));
                }
                i = e;
            } else if Self::is_alphanumeric(c) {
                let e = Self::read_until(&chars, i, RunKind::Word);
                proof {
                    lemma_run_end(chars@, i as int, RunKind::Word);
                }
                let w = upper_word(&chars, i, e);
                match keyword_for(&w) {
                    Some(k) => {
                        tokens.push(Token::Keyword(k));
                        proof {
                            assert(views(tokens@) =~= views(before) + seq![TokenView::Keyword(k)]);
                            lemma_prepend_assoc(views(before), seq![TokenView::Keyword(k)], lex_from(chars@, e as int));
                        }
                        i = e;
                    },
                    None => {
                        let word = text_of(&w, 0, w.len());
                        proof {
                            assert(w@.subrange(0, w@.len() as int) =~= w@);
                            assert(lex_from(chars@, i as int) == Err::<Seq<TokenView>, Seq<char>>(w@));
                        }
                        return Err(TokenizerError::UnknownKeyword(word));
                    },
                }
            } else if Self::is_quote(c) {
                let e = Self::read_until(&chars, i + 1, RunKind::Literal);
                proof {
                    lemma_run_end(chars@, i + 1, RunKind::Literal);
                }
                let lit = text_of(&chars, i + 1, e);
                let next = if e < chars.len() { e + 1 } else { e };
                tokens.push(Token::String(lit));
                proof {
                    let t = TokenView::Literal(chars@.subrange(i + 1, e as int));
                    assert(views(tokens@) =~= views(before) + seq![t]);
                    lemma_prepend_assoc(views(before), seq![t], lex_from(chars@, next as int));
                }
                i = next;
            } else {
                i += 1;
            }
        }
        proof {
            assert(views(tokens@) + Seq::<TokenView>::empty() =~= views(tokens@));
        }
        Ok(tokens)
    }
}

} // verus!
