//! Checks a token sequence against the three statement shapes.

use vstd::prelude::*;
use crate::tokenizer::{Keyword, Token, TokenView, views};

verus! {

pub struct SetOp {
    pub key: String,
    pub value: String,
}

pub struct Delete {
    pub key: String,
}

pub struct Get {
    pub key: String,
}

pub enum Operation {
    SET(SetOp),
    DELETE(Delete),
    GET(Get),
}

/// An operation with its key and value as sequences of characters.
pub enum OperationView {
    Put(Seq<char>, Seq<char>),
    Delete(Seq<char>),
    Get(Seq<char>),
}

impl View for Operation {
    type V = OperationView;

    open spec fn view(&self) -> OperationView {
        match self {
            Operation::SET(s) => OperationView::Put(s.key@, s.value@),
            Operation::DELETE(d) => OperationView::Delete(d.key@),
            Operation::GET(g) => OperationView::Get(g.key@),
        }
    }
}

#[derive(Debug, Clone, Copy, PartialEq, Eq, Structural)]
pub enum ParserError {
    SetNoKey,
    SetNoValue,
    SetNoTo,
    OperationFirst,
    UnexpectedOperation,
    EmptyStatement,
    DeleteNoKey,
    GetNoKey,
}

/// The tokens without the whitespace markers, in their order.
pub open spec fn strip_ws(ts: Seq<TokenView>) -> Seq<TokenView>
    decreases ts.len(),
{
    if ts.len() == 0 {
        ts
    } else if ts.last() is Whitespace {
        strip_ws(ts.drop_last())
    } else {
        strip_ws(ts.drop_last()).push(ts.last())
    }
}

/// The text of the literal at position `i`, if a literal stands there.
pub open spec fn literal_at(ts: Seq<TokenView>, i: int) -> Option<Seq<char>> {
    if 0 <= i < ts.len() && ts[i] is Literal {
        Some(ts[i]->Literal_0)
    } else {
        None
    }
}

/// The operation that a statement's tokens spell, read after the whitespace is dropped;
/// tokens after a complete shape are ignored.
pub open spec fn grammar(tokens: Seq<TokenView>) -> Result<OperationView, ParserError> {
    let t = strip_ws(tokens);
    if t.len() == 0 {
        Err(ParserError::EmptyStatement)
    } else {
        match t[0] {
            TokenView::Keyword(Keyword::SET) => match literal_at(t, 1) {
                None => Err(ParserError::SetNoKey),
                Some(k) => if t.len() > 2 && t[2] == TokenView::Keyword(Keyword::TO) {
                    match literal_at(t, 3) {
                        None => Err(ParserError::SetNoValue),
                        Some(v) => Ok(OperationView::Put(k, v)),
                    }
                } else {
                    Err(ParserError::SetNoTo)
                },
            },
            TokenView::Keyword(Keyword::DELETE) => match literal_at(t, 1) {
                None => Err(ParserError::DeleteNoKey),
                Some(k) => Ok(OperationView::Delete(k)),
            },
            TokenView::Keyword(Keyword::GET) => match literal_at(t, 1) {
                None => Err(ParserError::GetNoKey),
                Some(k) => Ok(OperationView::Get(k)),
            },
            TokenView::Keyword(Keyword::TO) => Err(ParserError::UnexpectedOperation),
            _ => Err(ParserError::OperationFirst),
        }
    }
}

pub open spec fn parse_view(r: &Result<Operation, ParserError>) -> Result<OperationView, ParserError> {
    match r {
        Ok(op) => Ok(op@),
        Err(e) => Err(*e),
    }
}

pub struct Parser {}

/// The literal at position `i` of the kept tokens, copied out.
fn literal_of(tokens: &Vec<Token>, kept: &Vec<usize>, i: usize) -> (r: Option<String>)
    requires
        forall|k: int| 0 <= k < kept@.len() ==> kept@[k] < tokens@.len(),
    ensures
        match r {
            Some(s) => literal_at(kept@.map_values(|j: usize| tokens@[j as int]@), i as int)
                == Some(s@),
            None => literal_at(kept@.map_values(|j: usize| tokens@[j as int]@), i as int)
                is None,
        },
{
    if i < kept.len() {
        match &tokens[kept[i]] {
            Token::String(s) => Some(s.clone()),
            _ => None,
        }
    } else {
        None
    }
}

impl Parser {
    /// Reads one operation from a statement's tokens.
    pub fn parse(tokens: Vec<Token>) -> (r: Result<Operation, ParserError>)
        ensures
            parse_view(&r) == grammar(views(tokens@)),
    {
        let ghost tv = views(tokens@);
        let mut kept: Vec<usize> = Vec::new();
        let mut i: usize = 0;
        while i < tokens.len()
            invariant
                i <= tokens.len(),
                tv == views(tokens@),
                forall|k: int| 0 <= k < kept@.len() ==> kept@[k] < i,
                kept@.map_values(|j: usize| tokens@[j as int]@) == strip_ws(tv.take(i as int)),
            decreases tokens.len() - i,
        {
            proof {
                assert(tv.take(i + 1).drop_last() =~= tv.take(i as int));
            }
            match &tokens[i] {
                Token::Whitespace => {},
                _ => {
                    let ghost before = kept@;
                    kept.push(i);
                    proof {
                        assert(kept@.map_values(|j: usize| tokens@[j as int]@) =~= before.map_values(
                            |j: usize| tokens@[j as int]@,
                        ).push(tokens@[i as int]@));
                    }
                },
            }
            i += 1;
        }
        proof {
            assert(tv.take(tokens@.len() as int) =~= tv);
        }
        let ghost t = kept@.map_values(|j: usize| tokens@[j as int]@);
        if kept.len() == 0 {
            return Err(ParserError::EmptyStatement);
        }
        match &tokens[kept[0]] {
            Token::Keyword(Keyword::SET) => {
                let key = match literal_of(&tokens, &kept, 1) {
                    Some(k) => k,
                    None => {
                        return Err(ParserError::SetNoKey);
                    },
                };
                let has_to = kept.len() > 2 && match &tokens[kept[2]] {
                    Token::Keyword(Keyword::TO) => true,
                    _ => false,
                };
                if !has_to {
                    return Err(ParserError::SetNoTo);
                }
                let value = match literal_of(&tokens, &kept, 3) {
                    Some(v) => v,
                    None => {
                        return Err(ParserError::SetNoValue);
                    },
                };
                Ok(Operation::SET(SetOp { key, value }))
            },
            Token::Keyword(Keyword::DELETE) => match literal_of(&tokens, &kept, 1) {
                Some(key) => Ok(Operation::DELETE(Delete { key })),
                None => Err(ParserError::DeleteNoKey),
            },
            Token::Keyword(Keyword::GET) => match literal_of(&tokens, &kept, 1) {
                Some(key) => Ok(Operation::GET(Get { key })),
                None => Err(ParserError::GetNoKey),
            },
            Token::Keyword(Keyword::TO) => Err(ParserError::UnexpectedOperation),
            _ => Err(ParserError::OperationFirst),
        }
    }
}

} // verus!
