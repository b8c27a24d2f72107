//! The store's entry point: compiles a statement and applies it to the file's bytes.

use vstd::prelude::*;
use crate::format::{encodable, entry_bytes, lookup};
use crate::parser::{grammar, Operation, OperationView, Parser, ParserError};
use crate::storage::{
    applied, deleted, encode_error, lemma_delete_absent, stored_value, updated, FileEdit, Storage,
    StorageError,
};
use crate::tokenizer::{lex, Tokenizer, TokenizerError};
use std::time::{Duration, Instant};

verus! {

#[derive(Debug)]
pub enum KivError {
    TokenizerError(TokenizerError),
    ParserError(ParserError),
    StorageError(StorageError),
}

#[derive(Debug)]
pub struct GetResult {
    pub value: Option<String>,
}

#[derive(Debug)]
pub enum OperationResultResult {
    Put,
    Delete,
    Get(GetResult),
}

#[derive(Debug)]
pub struct OperationResult {
    pub time: Duration,
    pub result: OperationResultResult,
}

/// What a statement reports, with text as sequences of characters.
pub enum OutcomeView {
    Put,
    Delete,
    Get(Option<Seq<char>>),
}

/// Why a statement failed, with text as sequences of characters.
pub enum FailureView {
    UnknownKeyword(Seq<char>),
    Grammar(ParserError),
    Storage(StorageError),
}

impl OperationResultResult {
    pub open spec fn view(&self) -> OutcomeView {
        match self {
            OperationResultResult::Put => OutcomeView::Put,
            OperationResultResult::Delete => OutcomeView::Delete,
            OperationResultResult::Get(g) => OutcomeView::Get(
                match g.value {
                    Some(s) => Some(s@),
                    None => None,
                },
            ),
        }
    }
}

impl KivError {
    pub open spec fn view(&self) -> FailureView {
        match self {
            KivError::TokenizerError(TokenizerError::UnknownKeyword(w)) => FailureView::UnknownKeyword(w@),
            KivError::ParserError(e) => FailureView::Grammar(*e),
            KivError::StorageError(e) => FailureView::Storage(*e),
        }
    }
}

/// An operation applied to a file's bytes: what it reports, and the bytes after it.
///
/// A set updates the key's record where it is stored and appends one otherwise; a delete
/// of an absent key and a get of one are no errors.
pub open spec fn apply(data: Seq<u8>, op: OperationView) -> Result<(OutcomeView, Seq<u8>), FailureView> {
    match op {
        OperationView::Put(k, v) => match stored_value(data, k) {
            Err(e) => Err(FailureView::Storage(e)),
            Ok(found) => if !encodable(k, v) {
                Err(FailureView::Storage(encode_error(k)))
            } else if found is Some {
                Ok((OutcomeView::Put, updated(data, k, v)))
            } else {
                Ok((OutcomeView::Put, data + entry_bytes(k, v)))
            },
        },
        OperationView::Delete(k) => if lookup(data, k) is Corrupt {
            Err(FailureView::Storage(StorageError::Corrupt))
        } else {
            Ok((OutcomeView::Delete, deleted(data, k)))
        },
        OperationView::Get(k) => match stored_value(data, k) {
            Err(e) => Err(FailureView::Storage(e)),
            Ok(found) => Ok((OutcomeView::Get(found), data)),
        },
    }
}

/// A statement run against a file's bytes.
pub open spec fn run(data: Seq<u8>, statement: Seq<char>) -> Result<(OutcomeView, Seq<u8>), FailureView> {
    match lex(statement) {
        Err(w) => Err(FailureView::UnknownKeyword(w)),
        Ok(ts) => match grammar(ts) {
            Err(e) => Err(FailureView::Grammar(e)),
            Ok(op) => apply(data, op),
        },
    }
}

/// Deleting a key that the file does not hold succeeds and leaves the file as it was.
pub proof fn lemma_delete_absent_unchanged(data: Seq<u8>, key: Seq<char>)
    requires
        lookup(data, key) is Absent,
    ensures
        apply(data, OperationView::Delete(key)) == Ok::<(OutcomeView, Seq<u8>), FailureView>(
            (OutcomeView::Delete, data),
        ),
{
    lemma_delete_absent(data, key);
}

#[verifier::external_type_specification]
#[verifier::external_body]
pub struct ExInstant(Instant);

/// Relies on Instant::now: a reading of the monotonic clock.
#[verifier::external_body]
fn clock_now() -> Instant {
    Instant::now()
}

/// Relies on Instant::elapsed: the time since `start`.
#[verifier::external_body]
fn time_since(start: &Instant) -> Duration {
    start.elapsed()
}

pub struct Kiv {
    tokenizer: Tokenizer,
    storage: Storage,
}

impl View for Kiv {
    type V = Seq<u8>;

    closed spec fn view(&self) -> Seq<u8> {
        self.storage@
    }
}

impl Kiv {
    pub closed spec fn wf(&self) -> bool {
        self.storage.wf()
    }

    /// Takes over a file's bytes; see `Storage::open`.
    pub fn open(existing: Vec<u8>) -> (r: (Kiv, Option<FileEdit>))
        ensures
            r.0.wf(),
            crate::storage::valid_header(existing@) ==> r.0@ == existing@ && r.1 is None,
            !crate::storage::valid_header(existing@) ==> r.0@ == crate::format::header() && (
            r.1 matches Some(e) && e.truncate_to == 0 && e.append@ == crate::format::header()),
    {
        let (storage, edit) = Storage::open(existing);
        (Kiv { tokenizer: Tokenizer::new(), storage }, edit)
    }

    /// The file's bytes.
    pub fn bytes(&self) -> (r: &Vec<u8>)
        ensures
            r@ == self@,
    {
        self.storage.bytes()
    }

    /// Tokenizes and parses a statement.
    pub fn compile(&mut self, statement: String) -> (r: Result<Operation, KivError>)
        requires
            old(self).wf(),
        ensures
            final(self).wf(),
            final(self)@ == old(self)@,
            match r {
                Ok(op) => lex(statement@) matches Ok(ts) && grammar(ts) == Ok::<OperationView, ParserError>(op@),
                Err(e) => match lex(statement@) {
                    Err(w) => e.view() == FailureView::UnknownKeyword(w),
                    Ok(ts) => grammar(ts) matches Err(g) && e.view() == FailureView::Grammar(g),
                },
            },
    {
        let tokens = match self.tokenizer.tokenize(statement) {
            Ok(t) => t,
            Err(e) => {
                return Err(KivError::TokenizerError(e));
            },
        };
        match Parser::parse(tokens) {
            Ok(op) => Ok(op),
            Err(e) => Err(KivError::ParserError(e)),
        }
    }

    /// Applies an operation to the file's bytes.
    pub fn dispatch(&mut self, op: &Operation) -> (r: Result<(OperationResultResult, Option<FileEdit>), KivError>)
        requires
            old(self).wf(),
        ensures
            final(self).wf(),
            match r {
                Ok((res, edit)) => apply(old(self)@, op@) == Ok::<(OutcomeView, Seq<u8>), FailureView>(
                    (res.view(), final(self)@),
                ) && match edit {
                    Some(e) => applied(old(self)@, e) == final(self)@,
                    None => final(self)@ == old(self)@,
                },
                Err(e) => apply(old(self)@, op@) == Err::<(OutcomeView, Seq<u8>), FailureView>(e.view())
                    && final(self)@ == old(self)@,
            },
    {
        match op {
            Operation::SET(set) => {
                let found = match self.storage.get_data_entry(&set.key) {
                    Ok(v) => v,
                    Err(e) => {
                        return Err(KivError::StorageError(e));
                    },
                };
                if found.is_some() {
                    match self.storage.update_data_entry(&set.key, &set.value) {
                        Ok(edit) => Ok((OperationResultResult::Put, edit)),
                        Err(e) => Err(KivError::StorageError(e)),
                    }
                } else {
                    match self.storage.write_data_entry(&set.key, &set.value) {
                        Ok(edit) => Ok((OperationResultResult::Put, Some(edit))),
                        Err(e) => Err(KivError::StorageError(e)),
                    }
                }
            },
            Operation::DELETE(delete) => match self.storage.delete_data_entry(&delete.key) {
                Ok(edit) => Ok((OperationResultResult::Delete, edit)),
                Err(e) => Err(KivError::StorageError(e)),
            },
            Operation::GET(get) => match self.storage.get_data_entry(&get.key) {
                Ok(value) => Ok((OperationResultResult::Get(GetResult { value }), None)),
                Err(e) => Err(KivError::StorageError(e)),
            },
        }
    }

    /// Runs a statement against the file's bytes, timing the storage work. The edit that
    /// brings the file on disk to the new bytes comes back beside the result.
    pub fn exec(&mut self, statement: String) -> (r: Result<(OperationResult, Option<FileEdit>), KivError>)
        requires
            old(self).wf(),
        ensures
            final(self).wf(),
            match r {
                Ok((res, edit)) => run(old(self)@, statement@) == Ok::<(OutcomeView, Seq<u8>), FailureView>(
                    (res.result.view(), final(self)@),
                ) && match edit {
                    Some(e) => applied(old(self)@, e) == final(self)@,
                    None => final(self)@ == old(self)@,
                },
                Err(e) => run(old(self)@, statement@) == Err::<(OutcomeView, Seq<u8>), FailureView>(e.view())
                    && final(self)@ == old(self)@,
            },
    {
        let op = self.compile(statement)?;
        let start = clock_now();
        let (result, edit) = self.dispatch(&op)?;
        let time = time_since(&start);
        Ok((OperationResult { time, result }, edit))
    }
}

} // verus!
