//! Reads a typed client command out of a decoded protocol array.

use vstd::prelude::*;
use vstd::slice::slice_index_get;
use vstd::slice::slice_subrange;
use crate::operations::eq_ignore_case;
use crate::operations::str_eq_ignore_case;
use crate::protocol::RespModel;
use crate::protocol::RespValueRef;
use crate::protocol::is_text;
use crate::protocol::lemma_resp_models_of;
use crate::protocol::text_of;
use crate::protocol::resp_model_of;
use crate::protocol::resp_models_of;

verus! {

broadcast use {vstd::std_specs::vec::group_vec_axioms, vstd::seq::group_seq_axioms};

/// A typed client command.
#[allow(non_camel_case_types)]
#[derive(Debug, PartialEq)]
pub enum Command {
    COMMAND,
    GET(String),
    SET(String, String),
    HGET(String, String),
    HSET(String, Vec<String>),
}

/// The mathematical shape of a typed command.
pub enum CommandModel {
    COMMAND,
    GET(Seq<char>),
    SET(Seq<char>, Seq<char>),
    HGET(Seq<char>, Seq<char>),
    HSET(Seq<char>, Seq<Seq<char>>),
}

impl View for Command {
    type V = CommandModel;

    open spec fn view(&self) -> CommandModel {
        match self {
            Command::COMMAND => CommandModel::COMMAND,
            Command::GET(k) => CommandModel::GET(k@),
            Command::SET(k, v) => CommandModel::SET(k@, v@),
            Command::HGET(k, f) => CommandModel::HGET(k@, f@),
            Command::HSET(k, pairs) => CommandModel::HSET(
                k@,
                Seq::new(pairs@.len(), |j: int| pairs@[j]@),
            ),
        }
    }
}

/// Which command an array of values denotes, or the complaint it earns:
/// the first element names the command case-insensitively, the rest are
/// its arguments, and every argument must be a simple string.
pub open spec fn translate_spec(elems: Seq<RespModel>) -> Result<CommandModel, Seq<char>> {
    if elems.len() == 0 {
        Err("Empty Array"@)
    } else if is_text(elems[0]) {
        {
            let s = text_of(elems[0]);
            {
                if eq_ignore_case(s, "command"@) {
                    Ok(CommandModel::COMMAND)
                } else if eq_ignore_case(s, "get"@) {
                    if elems.len() != 2 {
                        Err("Wrong number of args"@)
                    } else {
                        if is_text(elems[1]) {
                            Ok(CommandModel::GET(text_of(elems[1])))
                        } else {
                            Err("Wrong Argument Type"@)
                        }
                    }
                } else if eq_ignore_case(s, "set"@) {
                    if elems.len() != 3 {
                        Err("Wrong number of args"@)
                    } else if is_text(elems[1]) && is_text(elems[2]) {
                        Ok(CommandModel::SET(text_of(elems[1]), text_of(elems[2])))
                    } else {
                        Err("Wrong Argument Type"@)
                    }
                } else if eq_ignore_case(s, "hget"@) {
                    if elems.len() != 3 {
                        Err("Wrong number of args"@)
                    } else if is_text(elems[1]) && is_text(elems[2]) {
                        Ok(CommandModel::HGET(text_of(elems[1]), text_of(elems[2])))
                    } else {
                        Err("Wrong Argument Type"@)
                    }
                } else if eq_ignore_case(s, "hset"@) {
                    if (elems.len() - 1) % 2 == 0 || elems.len() - 1 < 2 {
                        Err("Wrong number of args"@)
                    } else if !(forall|j: int|
                        2 <= j < elems.len() ==> is_text(#[trigger] elems[j])) {
                        Err("Wrong argument type"@)
                    } else if is_text(elems[1]) {
                        Ok(
                            CommandModel::HSET(
                                text_of(elems[1]),
                                Seq::new(
                                    (elems.len() - 2) as nat,
                                    |j: int| text_of(elems[j + 2]),
                                ),
                            ),
                        )
                    } else {
                        Err("Wrong Argument Type"@)
                    }
                } else {
                    Err("Not implemented"@)
                }
            }
        }
    } else {
        Err("Not implemented"@)
    }
}

/// Exactly `size` elements, or the usual complaint.
pub fn verify_size<T>(v: &[T], size: usize) -> (r: Result<(), String>)
    ensures
        r is Ok <==> v@.len() == size,
        r matches Err(e) ==> e@ == "Wrong number of args"@,
{
    if v.len() != size {
        return Err(String::from_str("Wrong number of args"));
    }
    Ok(())
}

/// Reads a typed command out of a decoded array.
#[verifier::loop_isolation(false)]
pub fn translate_array_to_command(array: &[RespValueRef]) -> (r: Result<Command, String>)
    ensures
        match r {
            Ok(cmd) => translate_spec(resp_models_of(array@)) == Ok::<CommandModel, Seq<char>>(
                cmd@,
            ),
            Err(e) => translate_spec(resp_models_of(array@)) == Err::<CommandModel, Seq<char>>(
                e@,
            ),
        },
{
    proof {
        lemma_resp_models_of(array@);
    }
    let ghost models = resp_models_of(array@);
    if array.is_empty() {
        return Err(String::from_str("Empty Array"));
    }
    let head = slice_index_get(array, 0);
    match head {
        RespValueRef::String(s) | RespValueRef::BulkString(s) => {
            let tail = slice_subrange(array, 1, array.len());
            proof {
                assert(forall|j: int|
                    0 <= j < tail@.len() ==> #[trigger] tail@[j] == array@[j + 1]);
            }
            if str_eq_ignore_case(s.as_str(), "command") {
                Ok(Command::COMMAND)
            } else if str_eq_ignore_case(s.as_str(), "get") {
                match verify_size(tail, 1) {
                    Err(e) => Err(e),
                    Ok(_) => match slice_index_get(tail, 0) {
                        RespValueRef::String(k) | RespValueRef::BulkString(k) => Ok(
                            Command::GET(k.clone()),
                        ),
                        _ => Err(String::from_str("Wrong Argument Type")),
                    },
                }
            } else if str_eq_ignore_case(s.as_str(), "set") {
                match verify_size(tail, 2) {
                    Err(e) => Err(e),
                    Ok(_) => match (slice_index_get(tail, 0), slice_index_get(tail, 1)) {
                        (
                            RespValueRef::String(k) | RespValueRef::BulkString(k),
                            RespValueRef::String(v) | RespValueRef::BulkString(v),
                        ) => Ok(Command::SET(k.clone(), v.clone())),
                        _ => Err(String::from_str("Wrong Argument Type")),
                    },
                }
            } else if str_eq_ignore_case(s.as_str(), "hget") {
                match verify_size(tail, 2) {
                    Err(e) => Err(e),
                    Ok(_) => match (slice_index_get(tail, 0), slice_index_get(tail, 1)) {
                        (
                            RespValueRef::String(k) | RespValueRef::BulkString(k),
                            RespValueRef::String(v) | RespValueRef::BulkString(v),
                        ) => Ok(Command::HGET(k.clone(), v.clone())),
                        _ => Err(String::from_str("Wrong Argument Type")),
                    },
                }
            } else if str_eq_ignore_case(s.as_str(), "hset") {
                let tn = tail.len();
                if tn % 2 == 0 || tn < 2 {
                    return Err(String::from_str("Wrong number of args"));
                }
                let mut pairs: Vec<String> = Vec::new();
                let mut i: usize = 1;
                while i < tn
                    invariant
                        1 <= i <= tn,
                        pairs@.len() == i - 1,
                        forall|t: int| 2 <= t < i + 1 ==> is_text(#[trigger] models[t]),
                        forall|t: int|
                            0 <= t < i - 1 ==> (#[trigger] pairs@[t])@ == text_of(models[t + 2]),
                    decreases tn - i,
                {
                    match slice_index_get(tail, i) {
                        RespValueRef::String(p) | RespValueRef::BulkString(p) => {
                            let ghost oldp = pairs@;
                            proof {
                                assert(tail@[i as int] == array@[i + 1]);
                                assert(models[i + 1] == resp_model_of(array@[i + 1]));
                                assert(is_text(models[i + 1]) && text_of(models[i + 1]) == p@);
                            }
                            pairs.push(p.clone());
                            proof {
                                assert forall|t: int| 2 <= t < i + 2 implies is_text(
                                    #[trigger] models[t],
                                ) by {
                                    if t == i + 1 {
                                        assert(is_text(models[i + 1]));
                                    }
                                }
                                assert forall|t: int| 0 <= t < i implies (#[trigger] pairs@[t])@
                                    == text_of(models[t + 2]) by {
                                    if t < i - 1 {
                                        assert(pairs@[t] == oldp[t]);
                                    } else {
                                        assert(pairs@[t] == p);
                                        assert(t + 2 == i + 1);
                                    }
                                }
                            }
                        },
                        _ => {
                            proof {
                                assert(!is_text(models[i + 1]));
                            }
                            return Err(String::from_str("Wrong argument type"));
                        },
                    }
                    i = i + 1;
                }
                match slice_index_get(tail, 0) {
                    RespValueRef::String(k) | RespValueRef::BulkString(k) => {
                        let cmd = Command::HSET(k.clone(), pairs);
                        proof {
                            assert(cmd@ matches CommandModel::HSET(ck, cp) && ck == text_of(
                                models[1],
                            ) && cp =~= Seq::new(
                                (models.len() - 2) as nat,
                                |j: int| text_of(models[j + 2]),
                            ));
                        }
                        Ok(cmd)
                    },
                    _ => Err(String::from_str("Wrong Argument Type")),
                }
            } else {
                Err(String::from_str("Not implemented"))
            }
        },
        _ => Err(String::from_str("Not implemented")),
    }
}

} // verus!
