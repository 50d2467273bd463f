//! One request handled end to end: decode the buffer, convert to a
//! request, look the command up, run it, and frame the reply. Every
//! failure along the way becomes an observable error value, never a
//! panic.

use vstd::prelude::*;
use vstd::string::StringExecFns;
use crate::operations::OpResultModel;
use crate::operations::OperationResult;
use crate::operations::arity_ok;
use crate::operations::dispatch_spec;
use crate::operations::kind_arity;
use crate::operations::lookup;
use crate::operations::lookup_spec;
use crate::protocol::RESPError;
use crate::protocol::RespModel;
use crate::protocol::RespValueRef;
use crate::protocol::decode;
use crate::protocol::decode_spec;
use crate::protocol::encode_model;
use crate::protocol::lemma_decode_array_len;
use crate::protocol::request_of_value;
use crate::repository::RepoModel;
use crate::repository::Repository;

verus! {

/// Why a buffer produced no operation result.
#[derive(Debug, Clone, Copy, PartialEq, Eq, Structural)]
pub enum ResponseError {
    ProtocolError(RESPError),
    EmptyMessageError,
    BadRequestError,
    NotImplementedError,
}

impl ResponseError {
    /// The client-visible description of the error.
    pub open spec fn message_spec(&self) -> Seq<char> {
        match self {
            ResponseError::ProtocolError(_) => "Failed to parse request"@,
            ResponseError::EmptyMessageError => "Empty message"@,
            ResponseError::BadRequestError => "Malformed Request"@,
            ResponseError::NotImplementedError => "Not implemented"@,
        }
    }

    pub fn message(&self) -> (r: String)
        ensures
            r@ == self.message_spec(),
    {
        match self {
            ResponseError::ProtocolError(_) => String::from_str("Failed to parse request"),
            ResponseError::EmptyMessageError => String::from_str("Empty message"),
            ResponseError::BadRequestError => String::from_str("Malformed Request"),
            ResponseError::NotImplementedError => String::from_str("Not implemented"),
        }
    }
}

/// The protocol value each operation result maps onto.
pub open spec fn result_resp_model(m: OpResultModel) -> RespModel {
    match m {
        OpResultModel::Okay => RespModel::String("OK"@),
        OpResultModel::Nil => RespModel::NullBulkString,
        OpResultModel::StringRes(s) => RespModel::BulkString(s),
        OpResultModel::Error(e) => RespModel::Failure(e),
        OpResultModel::Int(i) => RespModel::Int(i as int),
    }
}

/// Maps an operation result onto its protocol value.
pub fn resp_of_result(res: OperationResult) -> (r: RespValueRef)
    ensures
        r@ == result_resp_model(res@),
{
    match res {
        OperationResult::Okay => RespValueRef::String(String::from_str("OK")),
        OperationResult::Nil => RespValueRef::NullBulkString,
        OperationResult::StringRes(s) => RespValueRef::BulkString(s),
        OperationResult::Error(e) => RespValueRef::Failure(e),
        OperationResult::Int(i) => RespValueRef::Int(i),
    }
}

/// What handling a buffer does to the store and yields: the decoded
/// value becomes a request, the request's command is dispatched under
/// the arity rule, and every failure becomes an error value.
pub open spec fn handle_request_spec(buf: Seq<char>, m: RepoModel, now: u64) -> (
    RepoModel,
    Result<OpResultModel, ResponseError>,
) {
    match decode_spec(buf) {
        Err(e) => (m, Err(ResponseError::ProtocolError(e))),
        Ok(None) => (m, Err(ResponseError::EmptyMessageError)),
        Ok(Some(v)) => match request_of_value(v) {
            None => (m, Err(ResponseError::BadRequestError)),
            Some(q) => match lookup_spec(q[0]) {
                None => (m, Err(ResponseError::NotImplementedError)),
                Some(kind) => if arity_ok(kind_arity(kind), q.len() as int) {
                    (dispatch_spec(kind, m, q, now).0, Ok(dispatch_spec(kind, m, q, now).1))
                } else {
                    (m, Ok(OpResultModel::Error("wrong number of arguments"@)))
                },
            },
        },
    }
}

/// Decodes one request from the buffer and runs it against the store.
pub fn handle_request(buffer: &str, repo: &mut Repository, now: u64) -> (r: Result<
    OperationResult,
    ResponseError,
>)
    requires
        old(repo).wf(),
    ensures
        final(repo).wf(),
        final(repo)@ == handle_request_spec(buffer@, old(repo)@, now).0,
        match r {
            Ok(res) => handle_request_spec(buffer@, old(repo)@, now).1 == Ok::<
                OpResultModel,
                ResponseError,
            >(res@),
            Err(e) => handle_request_spec(buffer@, old(repo)@, now).1 == Err::<
                OpResultModel,
                ResponseError,
            >(e),
        },
{
    proof {
        lemma_decode_array_len(buffer@);
    }
    match decode(buffer) {
        Err(e) => Err(ResponseError::ProtocolError(e)),
        Ok(None) => Err(ResponseError::EmptyMessageError),
        Ok(Some(parsed)) => {
            let ghost pm = parsed@;
            match parsed.try_into_request() {
                Err(_) => Err(ResponseError::BadRequestError),
                Ok(request) => {
                    proof {
                        assert(request@.len() <= i64::MAX);
                    }
                    match lookup(request.command()) {
                        None => Err(ResponseError::NotImplementedError),
                        Some(operation) => Ok(operation.execute(repo, &request, now)),
                    }
                },
            }
        },
    }
}

/// The store after one buffer is handled.
pub open spec fn reply_state(buf: Seq<char>, m: RepoModel, now: u64) -> RepoModel {
    handle_request_spec(buf, m, now).0
}

/// The protocol value a buffer is answered with: the operation's result
/// on success, a failure reply carrying the error's message otherwise.
pub open spec fn reply_model(buf: Seq<char>, m: RepoModel, now: u64) -> RespModel {
    match handle_request_spec(buf, m, now).1 {
        Ok(res) => result_resp_model(res),
        Err(e) => RespModel::Failure(e.message_spec()),
    }
}

/// Handles one buffer and frames the encoded reply, exactly as it goes
/// back over the wire.
pub fn handle_message(buffer: &str, repo: &mut Repository, now: u64) -> (reply: String)
    requires
        old(repo).wf(),
    ensures
        final(repo).wf(),
        final(repo)@ == reply_state(buffer@, old(repo)@, now),
        reply@ == encode_model(reply_model(buffer@, old(repo)@, now)),
{
    let value = match handle_request(buffer, repo, now) {
        Ok(res) => resp_of_result(res),
        Err(e) => RespValueRef::Failure(e.message()),
    };
    value.write_resp_value()
}

} // verus!
