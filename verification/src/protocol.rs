//! The wire codec: protocol values, their canonical encoding, and an
//! incremental-safe decoder over a text buffer.
//!
//! The grammar is dispatched on the first character: `+` simple string,
//! `-` failure, `:` integer, `$` bulk string, `*` array. Every line ends
//! with CRLF. A buffer that ends before a value is complete decodes to
//! "incomplete" (`Ok(None)`), never to an error; structurally bad input
//! (unknown lead character, unparseable integer, invalid negative size)
//! is a hard error that more input cannot fix.

use vstd::prelude::*;
use vstd::string::StrSliceExecFns;
use vstd::string::StringExecFns;
use crate::numbers::dec_digits;
use crate::numbers::int_chars;
use crate::numbers::is_dec_digit;
use crate::numbers::i64_to_dec;
use crate::numbers::lemma_dec_digits_wf;
use crate::numbers::lemma_parse_int_chars;
use crate::numbers::parse_i64;
use crate::numbers::parse_i64_spec;
use crate::numbers::u64_to_dec;
use crate::request::Request;

verus! {

broadcast use {vstd::std_specs::vec::group_vec_axioms, vstd::seq::group_seq_axioms};

/// A decoded or to-be-encoded protocol value.
#[derive(Debug, PartialEq)]
pub enum RespValueRef {
    String(String),
    BulkString(String),
    Failure(String),
    Int(i64),
    Array(Vec<RespValueRef>),
    NullArray,
    NullBulkString,
}

/// The mathematical shape of a protocol value: text as character
/// sequences, arrays as sequences of nested values.
pub enum RespModel {
    String(Seq<char>),
    BulkString(Seq<char>),
    Failure(Seq<char>),
    Int(int),
    Array(Seq<RespModel>),
    NullArray,
    NullBulkString,
}

/// The model of a concrete protocol value.
pub open spec fn resp_model_of(v: RespValueRef) -> RespModel
    decreases v,
{
    match v {
        RespValueRef::String(s) => RespModel::String(s@),
        RespValueRef::BulkString(s) => RespModel::BulkString(s@),
        RespValueRef::Failure(s) => RespModel::Failure(s@),
        RespValueRef::Int(i) => RespModel::Int(i as int),
        RespValueRef::Array(_) => RespModel::Array(resp_models_of(v->Array_0@)),
        RespValueRef::NullArray => RespModel::NullArray,
        RespValueRef::NullBulkString => RespModel::NullBulkString,
    }
}

/// The models of a sequence of concrete values, element by element.
pub open spec fn resp_models_of(vs: Seq<RespValueRef>) -> Seq<RespModel>
    decreases vs,
{
    if vs.len() == 0 {
        Seq::empty()
    } else {
        seq![resp_model_of(vs[0])] + resp_models_of(vs.drop_first())
    }
}

pub proof fn lemma_resp_models_of(vs: Seq<RespValueRef>)
    ensures
        resp_models_of(vs).len() == vs.len(),
        forall|j: int|
            0 <= j < vs.len() ==> resp_models_of(vs)[j] == resp_model_of(#[trigger] vs[j]),
    decreases vs.len(),
{
    if vs.len() > 0 {
        lemma_resp_models_of(vs.drop_first());
        assert forall|j: int| 0 <= j < vs.len() implies resp_models_of(vs)[j] == resp_model_of(
            #[trigger] vs[j],
        ) by {
            if j > 0 {
                assert(resp_models_of(vs)[j] == resp_models_of(vs.drop_first())[j - 1]);
                assert(vs.drop_first()[j - 1] == vs[j]);
            }
        }
    }
}

impl View for RespValueRef {
    type V = RespModel;

    open spec fn view(&self) -> RespModel {
        resp_model_of(*self)
    }
}

/// A structural decoding error; more input never repairs one.
#[derive(Debug, Clone, Copy, PartialEq, Eq, Structural)]
pub enum RESPError {
    UnknownStartingByte,
    IntParseFailure,
    BadBulkStringSize(i64),
    BadArraySize(i64),
}

/// Bounds that every value built by executable code satisfies: integers
/// fit in `i64` and every text or array length fits in an `i64` size
/// header.
pub open spec fn model_wf(m: RespModel) -> bool
    decreases m,
{
    match m {
        RespModel::String(s) => s.len() <= i64::MAX,
        RespModel::BulkString(s) => s.len() <= i64::MAX,
        RespModel::Failure(s) => s.len() <= i64::MAX,
        RespModel::Int(i) => i64::MIN <= i <= i64::MAX,
        RespModel::Array(elems) => elems.len() <= i64::MAX && forall|j: int|
            0 <= j < elems.len() ==> model_wf(#[trigger] elems[j]),
        RespModel::NullArray => true,
        RespModel::NullBulkString => true,
    }
}

pub open spec fn no_crlf(s: Seq<char>) -> bool {
    forall|i: int| 0 <= i < s.len() ==> #[trigger] s[i] != '\r' && s[i] != '\n'
}

/// No text field anywhere in the value embeds a CR or LF.
pub open spec fn crlf_free(m: RespModel) -> bool
    decreases m,
{
    match m {
        RespModel::String(s) => no_crlf(s),
        RespModel::BulkString(s) => no_crlf(s),
        RespModel::Failure(s) => no_crlf(s),
        RespModel::Int(_) => true,
        RespModel::Array(elems) => forall|j: int|
            0 <= j < elems.len() ==> crlf_free(#[trigger] elems[j]),
        RespModel::NullArray => true,
        RespModel::NullBulkString => true,
    }
}

pub open spec fn crlf() -> Seq<char> {
    seq!['\r', '\n']
}

/// The canonical wire text of a value.
pub open spec fn encode_model(m: RespModel) -> Seq<char>
    decreases m,
{
    match m {
        RespModel::String(s) => seq!['+'] + s + crlf(),
        RespModel::Failure(s) => seq!['-'] + s + crlf(),
        RespModel::Int(i) => seq![':'] + int_chars(i) + crlf(),
        RespModel::BulkString(s) => seq!['$'] + int_chars(s.len() as int) + crlf() + s + crlf(),
        RespModel::Array(elems) => seq!['*'] + int_chars(elems.len() as int) + crlf()
            + encode_elems(elems),
        RespModel::NullArray => seq!['*', '-', '1', '\r', '\n'],
        RespModel::NullBulkString => seq!['$', '-', '1', '\r', '\n'],
    }
}

/// The concatenated encodings of an array's elements, in order.
pub open spec fn encode_elems(elems: Seq<RespModel>) -> Seq<char>
    decreases elems,
{
    if elems.len() == 0 {
        Seq::empty()
    } else {
        encode_model(elems[0]) + encode_elems(elems.drop_first())
    }
}

pub proof fn lemma_encode_elems_push(elems: Seq<RespModel>, m: RespModel)
    ensures
        encode_elems(elems.push(m)) == encode_elems(elems) + encode_model(m),
    decreases elems.len(),
{
    if elems.len() == 0 {
        assert(elems.push(m).drop_first() =~= Seq::<RespModel>::empty());
        assert(elems.push(m)[0] == m);
        assert(encode_elems(Seq::<RespModel>::empty()) =~= Seq::<char>::empty());
        assert(encode_elems(elems.push(m)) =~= encode_model(m));
        assert(encode_elems(elems) + encode_model(m) =~= encode_model(m));
    } else {
        assert(elems.push(m).drop_first() =~= elems.drop_first().push(m));
        assert(elems.push(m)[0] == elems[0]);
        lemma_encode_elems_push(elems.drop_first(), m);
        assert(encode_elems(elems.push(m)) =~= encode_elems(elems) + encode_model(m));
    }
}

impl RespValueRef {
    /// Serializes the value into its wire text, recursively emitting
    /// every element of an array.
    #[verifier::loop_isolation(false)]
    pub fn write_resp_value(&self) -> (r: String)
        ensures
            r@ == encode_model(self@),
        decreases self,
    {
        proof {
            reveal_strlit("+");
            reveal_strlit("-");
            reveal_strlit(":");
            reveal_strlit("$");
            reveal_strlit("*");
            reveal_strlit("\r\n");
            reveal_strlit("*-1\r\n");
            reveal_strlit("$-1\r\n");
            assert("\r\n"@ =~= crlf());
        }
        match self {
            RespValueRef::String(s) => {
                let mut r = String::from_str("+");
                r.append(s.as_str());
                r.append("\r\n");
                proof {
                    assert(r@ =~= encode_model(self@));
                }
                r
            },
            RespValueRef::Failure(s) => {
                let mut r = String::from_str("-");
                r.append(s.as_str());
                r.append("\r\n");
                proof {
                    assert(r@ =~= encode_model(self@));
                }
                r
            },
            RespValueRef::Int(i) => {
                let mut r = String::from_str(":");
                let digits = i64_to_dec(*i);
                r.append(digits.as_str());
                r.append("\r\n");
                proof {
                    assert(r@ =~= encode_model(self@));
                }
                r
            },
            RespValueRef::BulkString(s) => {
                let n = s.as_str().unicode_len();
                let mut r = String::from_str("$");
                let digits = u64_to_dec(n as u64);
                r.append(digits.as_str());
                r.append("\r\n");
                r.append(s.as_str());
                r.append("\r\n");
                proof {
                    assert(int_chars(s@.len() as int) == dec_digits(s@.len() as int));
                    assert(r@ =~= encode_model(self@));
                }
                r
            },
            RespValueRef::Array(elems) => {
                let ghost models = resp_models_of(elems@);
                proof {
                    lemma_resp_models_of(elems@);
                }
                let count = elems.len();
                let mut r = String::from_str("*");
                let digits = u64_to_dec(count as u64);
                r.append(digits.as_str());
                r.append("\r\n");
                let ghost header = seq!['*'] + int_chars(models.len() as int) + crlf();
                proof {
                    assert(r@ =~= header);
                    assert(models.take(0) =~= Seq::<RespModel>::empty());
                    assert(r@ + encode_elems(models.take(0)) =~= header);
                }
                let mut k: usize = 0;
                while k < count
                    invariant
                        k <= count,
                        r@ == header + encode_elems(models.take(k as int)),
                    decreases count - k,
                {
                    proof {
                        let vv = *self;
                        let ve = *elems;
                        assert(vv == RespValueRef::Array(ve));
                        assert(decreases_to!(RespValueRef::Array(ve) => ve));
                        assert(decreases_to!(ve => ve[k as int]));
                        assert(decreases_to!(vv => ve[k as int]));
                    }
                    let piece = elems[k].write_resp_value();
                    r.append(piece.as_str());
                    proof {
                        assert(models.take(k + 1) =~= models.take(k as int).push(models[k as int]));
                        lemma_encode_elems_push(models.take(k as int), models[k as int]);
                        assert(piece@ == encode_model(models[k as int]));
                        assert(r@ =~= header + encode_elems(models.take(k + 1)));
                    }
                    k = k + 1;
                }
                proof {
                    assert(models.take(count as int) =~= models);
                    assert(r@ =~= encode_model(self@));
                }
                r
            },
            RespValueRef::NullArray => {
                let r = String::from_str("*-1\r\n");
                proof {
                    assert(r@ =~= encode_model(self@));
                }
                r
            },
            RespValueRef::NullBulkString => {
                let r = String::from_str("$-1\r\n");
                proof {
                    assert(r@ =~= encode_model(self@));
                }
                r
            },
        }
    }
}

} // verus!

verus! {

/// Least index at or after `pos` holding `c`, if any.
pub open spec fn find_char(s: Seq<char>, pos: int, c: char) -> Option<int>
    decreases s.len() - pos,
{
    if pos < 0 || pos >= s.len() {
        None
    } else if s[pos] == c {
        Some(pos)
    } else {
        find_char(s, pos + 1, c)
    }
}

/// One CRLF-terminated line starting at `pos`: the content before the
/// first CR, available only when at least one character follows that CR;
/// the cursor advances past both line-end characters.
pub open spec fn word_spec(s: Seq<char>, pos: int) -> Option<(int, Seq<char>)> {
    if pos >= s.len() {
        None
    } else {
        match find_char(s, pos, '\r') {
            None => None,
            Some(end) => if end + 1 < s.len() {
                Some((end + 2, s.subrange(pos, end)))
            } else {
                None
            },
        }
    }
}

/// A line parsed as a signed 64-bit integer. A missing line is
/// "incomplete"; a line that is not a well-formed in-range integer is a
/// hard parse error.
pub open spec fn int_field(s: Seq<char>, pos: int) -> Result<Option<(int, int)>, RESPError> {
    match word_spec(s, pos) {
        None => Ok(None),
        Some((next, w)) => match parse_i64_spec(w) {
            Some(v) => Ok(Some((next, v as int))),
            None => Err(RESPError::IntParseFailure),
        },
    }
}

pub open spec fn simple_branch(s: Seq<char>, pos: int) -> Result<
    Option<(int, RespModel)>,
    RESPError,
> {
    match word_spec(s, pos) {
        None => Ok(None),
        Some((next, w)) => Ok(Some((next, RespModel::String(w)))),
    }
}

pub open spec fn error_branch(s: Seq<char>, pos: int) -> Result<
    Option<(int, RespModel)>,
    RESPError,
> {
    match word_spec(s, pos) {
        None => Ok(None),
        Some((next, w)) => Ok(Some((next, RespModel::Failure(w)))),
    }
}

pub open spec fn int_branch(s: Seq<char>, pos: int) -> Result<
    Option<(int, RespModel)>,
    RESPError,
> {
    match int_field(s, pos) {
        Err(e) => Err(e),
        Ok(None) => Ok(None),
        Ok(Some((next, v))) => Ok(Some((next, RespModel::Int(v)))),
    }
}

/// A bulk string: a length line, then exactly that many characters, then
/// a line end. Length -1 is the null bulk string; other negative lengths
/// are errors.
pub open spec fn bulk_branch(s: Seq<char>, pos: int) -> Result<
    Option<(int, RespModel)>,
    RESPError,
> {
    match int_field(s, pos) {
        Err(e) => Err(e),
        Ok(None) => Ok(None),
        Ok(Some((p, sz))) => if sz == -1 {
            Ok(Some((p, RespModel::NullBulkString)))
        } else if sz >= 0 {
            if s.len() < p + sz + 2 {
                Ok(None)
            } else {
                Ok(Some((p + sz + 2, RespModel::BulkString(s.subrange(p, p + sz)))))
            }
        } else {
            Err(RESPError::BadBulkStringSize(sz as i64))
        },
    }
}

/// An array: a count line, then that many values in order. Count -1 is
/// the null array; other negative counts are errors. An incomplete
/// element makes the whole array incomplete.
pub open spec fn array_branch(s: Seq<char>, pos: int) -> Result<
    Option<(int, RespModel)>,
    RESPError,
>
    decreases s.len() - pos, 1int,
{
    match int_field(s, pos) {
        Err(e) => Err(e),
        Ok(None) => Ok(None),
        Ok(Some((p, c))) => if c == -1 {
            Ok(Some((p, RespModel::NullArray)))
        } else if c >= 0 {
            if pos < p <= s.len() {
                match parse_elems(s, p, c) {
                    Err(e) => Err(e),
                    Ok(None) => Ok(None),
                    Ok(Some((fin, vs))) => Ok(Some((fin, RespModel::Array(vs)))),
                }
            } else {
                Ok(None)
            }
        } else {
            Err(RESPError::BadArraySize(c as i64))
        },
    }
}

/// One value, dispatched on the character at `pos`. A position at or
/// past the end of the buffer is "incomplete".
pub open spec fn parse_value(s: Seq<char>, pos: int) -> Result<Option<(int, RespModel)>, RESPError>
    decreases s.len() - pos, 2int,
{
    if pos >= s.len() {
        Ok(None)
    } else if s[pos] == '+' {
        simple_branch(s, pos + 1)
    } else if s[pos] == '-' {
        error_branch(s, pos + 1)
    } else if s[pos] == '$' {
        bulk_branch(s, pos + 1)
    } else if s[pos] == ':' {
        int_branch(s, pos + 1)
    } else if s[pos] == '*' {
        array_branch(s, pos + 1)
    } else {
        Err(RESPError::UnknownStartingByte)
    }
}

/// `count` consecutive values starting at `pos`.
pub open spec fn parse_elems(s: Seq<char>, pos: int, count: int) -> Result<
    Option<(int, Seq<RespModel>)>,
    RESPError,
>
    decreases s.len() - pos, 3int,
{
    if count <= 0 {
        Ok(Some((pos, Seq::empty())))
    } else {
        match parse_value(s, pos) {
            Err(e) => Err(e),
            Ok(None) => Ok(None),
            Ok(Some((next, m))) => if pos < next <= s.len() {
                match parse_elems(s, next, count - 1) {
                    Err(e) => Err(e),
                    Ok(None) => Ok(None),
                    Ok(Some((fin, vs))) => Ok(Some((fin, seq![m] + vs))),
                }
            } else {
                Ok(None)
            },
        }
    }
}

/// What decoding a whole buffer yields: nothing for an empty buffer,
/// otherwise the first value in it (or "incomplete", or an error).
pub open spec fn decode_spec(s: Seq<char>) -> Result<Option<RespModel>, RESPError> {
    if s.len() == 0 {
        Ok(None)
    } else {
        match parse_value(s, 0) {
            Err(e) => Err(e),
            Ok(None) => Ok(None),
            Ok(Some((_, m))) => Ok(Some(m)),
        }
    }
}

pub proof fn lemma_find_char_props(s: Seq<char>, pos: int, c: char)
    requires
        0 <= pos,
    ensures
        find_char(s, pos, c) matches Some(k) ==> pos <= k < s.len() && s[k] == c && (forall|j: int|
            pos <= j < k ==> s[j] != c),
        find_char(s, pos, c) is None ==> (forall|j: int| pos <= j < s.len() ==> s[j] != c),
    decreases s.len() - pos,
{
    if pos < s.len() && s[pos] != c {
        lemma_find_char_props(s, pos + 1, c);
    }
}

pub proof fn lemma_word_bounds(s: Seq<char>, pos: int)
    requires
        0 <= pos,
    ensures
        word_spec(s, pos) matches Some((next, w)) ==> pos + 2 <= next <= s.len() && w
            == s.subrange(pos, next - 2),
{
    lemma_find_char_props(s, pos, '\r');
}

pub proof fn lemma_int_field_bounds(s: Seq<char>, pos: int)
    requires
        0 <= pos,
    ensures
        match int_field(s, pos) {
            Ok(Some((next, v))) => pos + 2 <= next <= s.len() && i64::MIN <= v <= i64::MAX,
            _ => true,
        },
{
    lemma_word_bounds(s, pos);
}

pub proof fn lemma_parse_value_bounds(s: Seq<char>, pos: int)
    requires
        0 <= pos <= s.len(),
    ensures
        match parse_value(s, pos) {
            Ok(Some((next, m))) => pos < next <= s.len(),
            _ => true,
        },
    decreases s.len() - pos, 2int,
{
    if pos < s.len() {
        lemma_word_bounds(s, pos + 1);
        lemma_int_field_bounds(s, pos + 1);
        if s[pos] == '*' {
            if let Ok(Some((p, c))) = int_field(s, pos + 1) {
                if c >= 0 && pos + 1 < p <= s.len() {
                    lemma_parse_elems_bounds(s, p, c);
                }
            }
        }
    }
}

pub proof fn lemma_parse_elems_bounds(s: Seq<char>, pos: int, count: int)
    requires
        0 <= pos <= s.len(),
    ensures
        match parse_elems(s, pos, count) {
            Ok(Some((fin, vs))) => pos <= fin <= s.len() && vs.len() == (if count >= 0 {
                count
            } else {
                0
            }),
            _ => true,
        },
    decreases s.len() - pos, 3int,
{
    if count > 0 {
        lemma_parse_value_bounds(s, pos);
        if let Ok(Some((next, m))) = parse_value(s, pos) {
            if pos < next <= s.len() {
                lemma_parse_elems_bounds(s, next, count - 1);
            }
        }
    }
}

} // verus!

verus! {

/// The mathematical reading of an executable parse result.
pub open spec fn parse_result_model(r: Result<Option<(usize, RespValueRef)>, RESPError>) -> Result<
    Option<(int, RespModel)>,
    RESPError,
> {
    match r {
        Ok(None) => Ok(None),
        Ok(Some((n, v))) => Ok(Some((n as int, v@))),
        Err(e) => Err(e),
    }
}

/// Position of the first occurrence of `needle` at or after `from`.
pub fn memchr(needle: char, haystack: &str, from: usize) -> (r: Option<usize>)
    requires
        from <= haystack@.len(),
    ensures
        match r {
            Some(k) => k < haystack@.len() && find_char(haystack@, from as int, needle) == Some(
                k as int,
            ),
            None => find_char(haystack@, from as int, needle) is None,
        },
{
    let n = haystack.unicode_len();
    let mut i = from;
    while i < n
        invariant
            from <= i <= n == haystack@.len(),
            find_char(haystack@, from as int, needle) == find_char(haystack@, i as int, needle),
        decreases n - i,
    {
        if haystack.get_char(i) == needle {
            return Some(i);
        }
        i = i + 1;
    }
    None
}

/// One CRLF-terminated line starting at `pos`: its content and the
/// position just past the line end.
pub fn word(s: &str, pos: usize) -> (r: Option<(usize, String)>)
    requires
        pos <= s@.len(),
    ensures
        match r {
            Some((next, w)) => word_spec(s@, pos as int) == Some((next as int, w@)) && pos < next
                <= s@.len(),
            None => word_spec(s@, pos as int) is None,
        },
{
    let n = s.unicode_len();
    if n <= pos {
        return None;
    }
    match memchr('\r', s, pos) {
        None => None,
        Some(end) => {
            proof {
                lemma_find_char_props(s@, pos as int, '\r');
            }
            if end + 1 < n {
                let w = s.substring_char(pos, end).to_owned();
                Some((end + 2, w))
            } else {
                None
            }
        },
    }
}

/// One line read as a signed 64-bit integer.
pub fn int_line(s: &str, pos: usize) -> (r: Result<Option<(usize, i64)>, RESPError>)
    requires
        pos <= s@.len(),
    ensures
        match r {
            Ok(Some((next, v))) => int_field(s@, pos as int) == Ok::<Option<(int, int)>,
                RESPError,
            >(Some((next as int, v as int))) && pos < next <= s@.len(),
            Ok(None) => int_field(s@, pos as int) == Ok::<Option<(int, int)>, RESPError>(None),
            Err(e) => int_field(s@, pos as int) == Err::<Option<(int, int)>, RESPError>(e),
        },
{
    match word(s, pos) {
        None => Ok(None),
        Some((next, w)) => match parse_i64(w.as_str()) {
            Some(v) => Ok(Some((next, v))),
            None => Err(RESPError::IntParseFailure),
        },
    }
}

fn simple_string(s: &str, pos: usize) -> (r: Result<Option<(usize, RespValueRef)>, RESPError>)
    requires
        pos <= s@.len(),
    ensures
        parse_result_model(r) == simple_branch(s@, pos as int),
        match r {
            Ok(Some((n, _))) => pos < n <= s@.len(),
            _ => true,
        },
{
    match word(s, pos) {
        None => Ok(None),
        Some((next, w)) => Ok(Some((next, RespValueRef::String(w)))),
    }
}

fn error(s: &str, pos: usize) -> (r: Result<Option<(usize, RespValueRef)>, RESPError>)
    requires
        pos <= s@.len(),
    ensures
        parse_result_model(r) == error_branch(s@, pos as int),
        match r {
            Ok(Some((n, _))) => pos < n <= s@.len(),
            _ => true,
        },
{
    match word(s, pos) {
        None => Ok(None),
        Some((next, w)) => Ok(Some((next, RespValueRef::Failure(w)))),
    }
}

fn resp_int(s: &str, pos: usize) -> (r: Result<Option<(usize, RespValueRef)>, RESPError>)
    requires
        pos <= s@.len(),
    ensures
        parse_result_model(r) == int_branch(s@, pos as int),
        match r {
            Ok(Some((n, _))) => pos < n <= s@.len(),
            _ => true,
        },
{
    match int_line(s, pos) {
        Err(e) => Err(e),
        Ok(None) => Ok(None),
        Ok(Some((next, v))) => Ok(Some((next, RespValueRef::Int(v)))),
    }
}

fn bulk_string(s: &str, pos: usize) -> (r: Result<Option<(usize, RespValueRef)>, RESPError>)
    requires
        pos <= s@.len(),
    ensures
        parse_result_model(r) == bulk_branch(s@, pos as int),
        match r {
            Ok(Some((n, _))) => pos < n <= s@.len(),
            _ => true,
        },
{
    let n = s.unicode_len();
    match int_line(s, pos) {
        Err(e) => Err(e),
        Ok(None) => Ok(None),
        Ok(Some((p, sz))) => {
            if sz == -1 {
                Ok(Some((p, RespValueRef::NullBulkString)))
            } else if sz >= 0 {
                if (p as u128) + (sz as u128) + 2 <= (n as u128) {
                    let content_end = p + (sz as usize);
                    let w = s.substring_char(p, content_end).to_owned();
                    Ok(Some((content_end + 2, RespValueRef::BulkString(w))))
                } else {
                    Ok(None)
                }
            } else {
                Err(RESPError::BadBulkStringSize(sz))
            }
        },
    }
}

} // verus!

verus! {

/// Prefixes already-parsed element models onto the result of parsing the
/// remaining elements.
pub open spec fn elems_prepend(
    vs: Seq<RespModel>,
    r: Result<Option<(int, Seq<RespModel>)>, RESPError>,
) -> Result<Option<(int, Seq<RespModel>)>, RESPError> {
    match r {
        Ok(Some((fin, ws))) => Ok(Some((fin, vs + ws))),
        Ok(None) => Ok(None),
        Err(e) => Err(e),
    }
}

pub proof fn lemma_resp_models_push(vs: Seq<RespValueRef>, v: RespValueRef)
    ensures
        resp_models_of(vs.push(v)) == resp_models_of(vs) + seq![resp_model_of(v)],
{
    lemma_resp_models_of(vs);
    lemma_resp_models_of(vs.push(v));
    assert forall|j: int| 0 <= j < vs.len() + 1 implies resp_models_of(vs.push(v))[j] == (
    resp_models_of(vs) + seq![resp_model_of(v)])[j] by {
        if j < vs.len() {
            assert(vs.push(v)[j] == vs[j]);
        } else {
            assert(vs.push(v)[j] == v);
        }
    }
    assert(resp_models_of(vs.push(v)) =~= resp_models_of(vs) + seq![resp_model_of(v)]);
}

#[verifier::loop_isolation(false)]
fn array(s: &str, pos: usize) -> (r: Result<Option<(usize, RespValueRef)>, RESPError>)
    requires
        pos <= s@.len(),
    ensures
        parse_result_model(r) == array_branch(s@, pos as int),
        match r {
            Ok(Some((n, _))) => pos < n <= s@.len(),
            _ => true,
        },
    decreases s@.len() - pos, 1int,
{
    match int_line(s, pos) {
        Err(e) => Err(e),
        Ok(None) => Ok(None),
        Ok(Some((p, c))) => {
            if c == -1 {
                Ok(Some((p, RespValueRef::NullArray)))
            } else if c >= 0 {
                let count = c as u64;
                let mut values: Vec<RespValueRef> = Vec::new();
                let mut curr: usize = p;
                let mut k: u64 = 0;
                proof {
                    assert(resp_models_of(values@) =~= Seq::<RespModel>::empty());
                    assert(elems_prepend(
                        resp_models_of(values@),
                        parse_elems(s@, curr as int, c - k),
                    ) == parse_elems(s@, p as int, c as int));
                }
                while k < count
                    invariant
                        k <= count,
                        pos < curr <= s@.len(),
                        elems_prepend(resp_models_of(values@), parse_elems(s@, curr as int, c - k))
                            == parse_elems(s@, p as int, c as int),
                    decreases count - k,
                {
                    match parse(s, curr) {
                        Err(e) => {
                            return Err(e);
                        },
                        Ok(None) => {
                            return Ok(None);
                        },
                        Ok(Some((next, v))) => {
                            proof {
                                let ghost rest = parse_elems(s@, next as int, c - k - 1);
                                assert(parse_elems(s@, curr as int, c - k) == elems_prepend(
                                    seq![v@],
                                    rest,
                                ));
                                lemma_resp_models_push(values@, v);
                                if let Ok(Some((fin, ws))) = rest {
                                    assert(resp_models_of(values@) + (seq![v@] + ws) =~= (
                                    resp_models_of(values@) + seq![v@]) + ws);
                                }
                            }
                            values.push(v);
                            curr = next;
                            k = k + 1;
                        },
                    }
                }
                proof {
                    assert(parse_elems(s@, curr as int, 0) == Ok::<
                        Option<(int, Seq<RespModel>)>,
                        RESPError,
                    >(Some((curr as int, Seq::empty()))));
                    assert(resp_models_of(values@) + Seq::<RespModel>::empty() =~= resp_models_of(
                        values@,
                    ));
                }
                Ok(Some((curr, RespValueRef::Array(values))))
            } else {
                Err(RESPError::BadArraySize(c))
            }
        },
    }
}

/// One protocol value starting at `pos`, dispatched on its first
/// character.
fn parse(s: &str, pos: usize) -> (r: Result<Option<(usize, RespValueRef)>, RESPError>)
    requires
        pos <= s@.len(),
    ensures
        parse_result_model(r) == parse_value(s@, pos as int),
        match r {
            Ok(Some((n, _))) => pos < n <= s@.len(),
            _ => true,
        },
    decreases s@.len() - pos, 2int,
{
    let n = s.unicode_len();
    if pos >= n {
        return Ok(None);
    }
    let c = s.get_char(pos);
    if c == '+' {
        simple_string(s, pos + 1)
    } else if c == '-' {
        error(s, pos + 1)
    } else if c == '$' {
        bulk_string(s, pos + 1)
    } else if c == ':' {
        resp_int(s, pos + 1)
    } else if c == '*' {
        array(s, pos + 1)
    } else {
        Err(RESPError::UnknownStartingByte)
    }
}

/// Decodes the first protocol value of a buffer. `Ok(None)` means the
/// buffer is empty or ends before the value is complete; an error is
/// structural and permanent.
pub fn decode(buf: &str) -> (r: Result<Option<RespValueRef>, RESPError>)
    ensures
        match r {
            Ok(Some(v)) => decode_spec(buf@) == Ok::<Option<RespModel>, RESPError>(Some(v@)),
            Ok(None) => decode_spec(buf@) == Ok::<Option<RespModel>, RESPError>(None),
            Err(e) => decode_spec(buf@) == Err::<Option<RespModel>, RESPError>(e),
        },
{
    let n = buf.unicode_len();
    if n == 0 {
        return Ok(None);
    }
    match parse(buf, 0) {
        Err(e) => Err(e),
        Ok(None) => Ok(None),
        Ok(Some((_, v))) => Ok(Some(v)),
    }
}

} // verus!

verus! {

/// `s` agrees with `t` at offset `pos`, as far as `s` extends.
pub open spec fn matches_through(s: Seq<char>, pos: int, t: Seq<char>) -> bool {
    forall|j: int| 0 <= j < t.len() && pos + j < s.len() ==> s[pos + j] == t[j]
}

pub proof fn lemma_find_char_exact(s: Seq<char>, pos: int, c: char, k: int)
    requires
        0 <= pos <= k < s.len(),
        s[k] == c,
        forall|j: int| pos <= j < k ==> s[j] != c,
    ensures
        find_char(s, pos, c) == Some(k),
    decreases k - pos,
{
    if pos < k {
        lemma_find_char_exact(s, pos + 1, c, k);
    }
}

/// How `word_spec` reads a region laid out as `w` + CRLF, whether or not
/// the buffer reaches the end of the region.
pub proof fn lemma_word_region(s: Seq<char>, pos: int, w: Seq<char>)
    requires
        0 <= pos <= s.len(),
        forall|j: int| 0 <= j < w.len() ==> #[trigger] w[j] != '\r',
        matches_through(s, pos, w + crlf()),
    ensures
        s.len() >= pos + w.len() + 2 ==> word_spec(s, pos) == Some((pos + w.len() + 2, w)),
        s.len() < pos + w.len() + 2 ==> word_spec(s, pos) is None,
{
    let t = w + crlf();
    let wl = w.len() as int;
    assert(t[wl] == '\r');
    assert(forall|j: int| 0 <= j < wl ==> #[trigger] t[j] == w[j]);
    if s.len() >= pos + wl + 2 {
        assert(s[pos + wl] == t[wl]);
        assert forall|j: int| pos <= j < pos + wl implies s[j] != '\r' by {
            assert(s[j] == t[j - pos]);
        }
        lemma_find_char_exact(s, pos, '\r', pos + wl);
        assert forall|j: int| 0 <= j < wl implies s.subrange(pos, pos + wl)[j] == w[j] by {
            assert(s[pos + j] == t[j]);
        }
        assert(s.subrange(pos, pos + wl) =~= w);
    } else if pos == s.len() {
        assert(word_spec(s, pos) is None);
    } else if s.len() <= pos + wl {
        lemma_find_char_props(s, pos, '\r');
        if let Some(k) = find_char(s, pos, '\r') {
            assert(s[k] == t[k - pos]);
            assert(false);
        }
    } else {
        assert(s.len() == pos + wl + 1);
        assert(s[pos + wl] == t[wl]);
        assert forall|j: int| pos <= j < pos + wl implies s[j] != '\r' by {
            assert(s[j] == t[j - pos]);
        }
        lemma_find_char_exact(s, pos, '\r', pos + wl);
    }
}

pub proof fn lemma_int_chars_plain(i: int)
    requires
        i64::MIN <= i <= i64::MAX,
    ensures
        forall|j: int|
            0 <= j < int_chars(i).len() ==> #[trigger] int_chars(i)[j] != '\r' && int_chars(
                i,
            )[j] != '\n',
{
    if i < 0 {
        lemma_dec_digits_wf(-i);
        assert forall|j: int| 0 <= j < int_chars(i).len() implies #[trigger] int_chars(i)[j]
            != '\r' && int_chars(i)[j] != '\n' by {
            if j > 0 {
                assert(int_chars(i)[j] == dec_digits(-i)[j - 1]);
                assert(is_dec_digit(dec_digits(-i)[j - 1]));
            }
        }
    } else {
        lemma_dec_digits_wf(i);
        assert forall|j: int| 0 <= j < int_chars(i).len() implies #[trigger] int_chars(i)[j]
            != '\r' && int_chars(i)[j] != '\n' by {
            assert(is_dec_digit(dec_digits(i)[j]));
        }
    }
}

/// How `int_field` reads a region laid out as the canonical digits of
/// `v` + CRLF.
pub proof fn lemma_int_region(s: Seq<char>, pos: int, v: int)
    requires
        0 <= pos <= s.len(),
        i64::MIN <= v <= i64::MAX,
        matches_through(s, pos, int_chars(v) + crlf()),
    ensures
        s.len() >= pos + int_chars(v).len() + 2 ==> int_field(s, pos) == Ok::<
            Option<(int, int)>,
            RESPError,
        >(Some((pos + int_chars(v).len() + 2, v))),
        s.len() < pos + int_chars(v).len() + 2 ==> int_field(s, pos) == Ok::<
            Option<(int, int)>,
            RESPError,
        >(None),
{
    lemma_int_chars_plain(v);
    lemma_word_region(s, pos, int_chars(v));
    if s.len() >= pos + int_chars(v).len() + 2 {
        lemma_parse_int_chars(v);
    }
}

pub proof fn lemma_encode_model_len(m: RespModel)
    ensures
        encode_model(m).len() >= 3,
{
    match m {
        RespModel::Int(i) => {
            if i < 0 {
                lemma_dec_digits_wf(-i);
            } else if i >= 0 {
                lemma_dec_digits_wf(i);
            }
        },
        RespModel::BulkString(t) => {
            lemma_dec_digits_wf(t.len() as int);
        },
        RespModel::Array(elems) => {
            lemma_dec_digits_wf(elems.len() as int);
        },
        _ => {},
    }
}

} // verus!

verus! {

pub proof fn lemma_matches_split(s: Seq<char>, pos: int, a: Seq<char>, b: Seq<char>)
    requires
        matches_through(s, pos, a + b),
    ensures
        matches_through(s, pos, a),
        matches_through(s, pos + a.len(), b),
{
    assert forall|j: int| 0 <= j < a.len() && pos + j < s.len() implies s[pos + j] == a[j] by {
        assert(s[pos + j] == (a + b)[j]);
    }
    assert forall|j: int|
        0 <= j < b.len() && pos + a.len() + j < s.len() implies s[pos + a.len() + j] == b[j] by {
        assert(s[pos + a.len() + j] == (a + b)[a.len() + j]);
    }
}

/// Parsing at a position where a complete well-formed encoding lies
/// yields exactly that value and stops exactly at its end, whatever
/// follows.
pub proof fn lemma_parse_encode(s: Seq<char>, pos: int, m: RespModel)
    requires
        model_wf(m),
        crlf_free(m),
        0 <= pos,
        pos + encode_model(m).len() <= s.len(),
        matches_through(s, pos, encode_model(m)),
    ensures
        parse_value(s, pos) == Ok::<Option<(int, RespModel)>, RESPError>(
            Some((pos + encode_model(m).len(), m)),
        ),
    decreases m,
{
    let enc = encode_model(m);
    lemma_encode_model_len(m);
    assert(s[pos] == enc[0]);
    match m {
        RespModel::String(w) => {
            assert(enc =~= seq!['+'] + (w + crlf()));
            lemma_matches_split(s, pos, seq!['+'], w + crlf());
            lemma_word_region(s, pos + 1, w);
        },
        RespModel::Failure(w) => {
            assert(enc =~= seq!['-'] + (w + crlf()));
            lemma_matches_split(s, pos, seq!['-'], w + crlf());
            lemma_word_region(s, pos + 1, w);
        },
        RespModel::Int(i) => {
            assert(enc =~= seq![':'] + (int_chars(i) + crlf()));
            lemma_matches_split(s, pos, seq![':'], int_chars(i) + crlf());
            lemma_int_region(s, pos + 1, i);
        },
        RespModel::BulkString(w) => {
            let ic = int_chars(w.len() as int);
            assert(enc =~= seq!['$'] + ((ic + crlf()) + (w + crlf())));
            lemma_matches_split(s, pos, seq!['$'], (ic + crlf()) + (w + crlf()));
            lemma_matches_split(s, pos + 1, ic + crlf(), w + crlf());
            lemma_int_region(s, pos + 1, w.len() as int);
            let p = pos + 1 + ic.len() + 2;
            assert(int_field(s, pos + 1) == Ok::<Option<(int, int)>, RESPError>(
                Some((p, w.len() as int)),
            ));
            assert forall|j: int| 0 <= j < w.len() implies s.subrange(p, p + w.len())[j]
                == w[j] by {
                assert(s[p + j] == (w + crlf())[j]);
            }
            assert(s.subrange(p, p + w.len() as int) =~= w);
            assert(parse_value(s, pos) == bulk_branch(s, pos + 1));
        },
        RespModel::NullBulkString => {
            assert(int_chars(-1) =~= seq!['-', '1']);
            assert(enc =~= seq!['$'] + (int_chars(-1) + crlf()));
            lemma_matches_split(s, pos, seq!['$'], int_chars(-1) + crlf());
            lemma_int_region(s, pos + 1, -1);
        },
        RespModel::NullArray => {
            assert(int_chars(-1) =~= seq!['-', '1']);
            assert(enc =~= seq!['*'] + (int_chars(-1) + crlf()));
            lemma_matches_split(s, pos, seq!['*'], int_chars(-1) + crlf());
            lemma_int_region(s, pos + 1, -1);
        },
        RespModel::Array(_) => {
            let elems = m->Array_0;
            let ic = int_chars(elems.len() as int);
            let ee = encode_elems(elems);
            assert(enc =~= seq!['*'] + ((ic + crlf()) + ee));
            lemma_matches_split(s, pos, seq!['*'], (ic + crlf()) + ee);
            lemma_matches_split(s, pos + 1, ic + crlf(), ee);
            lemma_int_region(s, pos + 1, elems.len() as int);
            let p = pos + 1 + ic.len() + 2;
            assert(int_field(s, pos + 1) == Ok::<Option<(int, int)>, RESPError>(
                Some((p, elems.len() as int)),
            ));
            assert(decreases_to!(m => elems));
            lemma_parse_encode_elems(s, p, elems);
            assert(parse_value(s, pos) == array_branch(s, pos + 1));
        },
    }
}

/// Parsing `n` elements at a position where their complete encodings lie
/// yields exactly those elements.
pub proof fn lemma_parse_encode_elems(s: Seq<char>, pos: int, elems: Seq<RespModel>)
    requires
        forall|j: int|
            0 <= j < elems.len() ==> model_wf(#[trigger] elems[j]) && crlf_free(elems[j]),
        0 <= pos,
        pos + encode_elems(elems).len() <= s.len(),
        matches_through(s, pos, encode_elems(elems)),
    ensures
        parse_elems(s, pos, elems.len() as int) == Ok::<Option<(int, Seq<RespModel>)>, RESPError>(
            Some((pos + encode_elems(elems).len(), elems)),
        ),
    decreases elems,
{
    if elems.len() == 0 {
        assert(elems =~= Seq::<RespModel>::empty());
    } else {
        let e0 = elems[0];
        let rest = elems.drop_first();
        let enc0 = encode_model(e0);
        lemma_matches_split(s, pos, enc0, encode_elems(rest));
        lemma_encode_model_len(e0);
        assert(decreases_to!(elems => elems[0]));
        lemma_parse_encode(s, pos, e0);
        let next = pos + enc0.len();
        lemma_parse_encode_elems(s, next, rest);
        assert(seq![e0] + rest =~= elems);
    }
}

/// A buffer that ends strictly before a well-formed encoding completes
/// parses to "incomplete", never to an error or a value.
pub proof fn lemma_parse_prefix(s: Seq<char>, pos: int, m: RespModel)
    requires
        model_wf(m),
        crlf_free(m),
        0 <= pos <= s.len(),
        s.len() < pos + encode_model(m).len(),
        matches_through(s, pos, encode_model(m)),
    ensures
        parse_value(s, pos) == Ok::<Option<(int, RespModel)>, RESPError>(None),
    decreases m,
{
    let enc = encode_model(m);
    lemma_encode_model_len(m);
    if pos == s.len() {
        return ;
    }
    assert(s[pos] == enc[0]);
    match m {
        RespModel::String(w) => {
            assert(enc =~= seq!['+'] + (w + crlf()));
            lemma_matches_split(s, pos, seq!['+'], w + crlf());
            lemma_word_region(s, pos + 1, w);
        },
        RespModel::Failure(w) => {
            assert(enc =~= seq!['-'] + (w + crlf()));
            lemma_matches_split(s, pos, seq!['-'], w + crlf());
            lemma_word_region(s, pos + 1, w);
        },
        RespModel::Int(i) => {
            assert(enc =~= seq![':'] + (int_chars(i) + crlf()));
            lemma_matches_split(s, pos, seq![':'], int_chars(i) + crlf());
            lemma_int_region(s, pos + 1, i);
        },
        RespModel::NullBulkString => {
            assert(int_chars(-1) =~= seq!['-', '1']);
            assert(enc =~= seq!['$'] + (int_chars(-1) + crlf()));
            lemma_matches_split(s, pos, seq!['$'], int_chars(-1) + crlf());
            lemma_int_region(s, pos + 1, -1);
        },
        RespModel::NullArray => {
            assert(int_chars(-1) =~= seq!['-', '1']);
            assert(enc =~= seq!['*'] + (int_chars(-1) + crlf()));
            lemma_matches_split(s, pos, seq!['*'], int_chars(-1) + crlf());
            lemma_int_region(s, pos + 1, -1);
        },
        RespModel::BulkString(w) => {
            let ic = int_chars(w.len() as int);
            assert(enc =~= seq!['$'] + ((ic + crlf()) + (w + crlf())));
            lemma_matches_split(s, pos, seq!['$'], (ic + crlf()) + (w + crlf()));
            lemma_matches_split(s, pos + 1, ic + crlf(), w + crlf());
            lemma_int_region(s, pos + 1, w.len() as int);
            let p = pos + 1 + ic.len() + 2;
            if s.len() >= p {
                assert(int_field(s, pos + 1) == Ok::<Option<(int, int)>, RESPError>(
                    Some((p, w.len() as int)),
                ));
                assert(s.len() < p + w.len() + 2);
            }
        },
        RespModel::Array(_) => {
            let elems = m->Array_0;
            let ic = int_chars(elems.len() as int);
            let ee = encode_elems(elems);
            assert(enc =~= seq!['*'] + ((ic + crlf()) + ee));
            lemma_matches_split(s, pos, seq!['*'], (ic + crlf()) + ee);
            lemma_matches_split(s, pos + 1, ic + crlf(), ee);
            lemma_int_region(s, pos + 1, elems.len() as int);
            let p = pos + 1 + ic.len() + 2;
            if s.len() >= p {
                assert(int_field(s, pos + 1) == Ok::<Option<(int, int)>, RESPError>(
                    Some((p, elems.len() as int)),
                ));
                assert(decreases_to!(m => elems));
                lemma_parse_prefix_elems(s, p, elems);
                assert(parse_value(s, pos) == array_branch(s, pos + 1));
            }
        },
    }
}

/// A buffer that ends strictly before `n` element encodings complete
/// parses those elements to "incomplete".
pub proof fn lemma_parse_prefix_elems(s: Seq<char>, pos: int, elems: Seq<RespModel>)
    requires
        forall|j: int|
            0 <= j < elems.len() ==> model_wf(#[trigger] elems[j]) && crlf_free(elems[j]),
        0 <= pos <= s.len(),
        s.len() < pos + encode_elems(elems).len(),
        matches_through(s, pos, encode_elems(elems)),
    ensures
        parse_elems(s, pos, elems.len() as int) == Ok::<Option<(int, Seq<RespModel>)>, RESPError>(
            None,
        ),
    decreases elems,
{
    assert(elems.len() > 0);
    let e0 = elems[0];
    let rest = elems.drop_first();
    let enc0 = encode_model(e0);
    lemma_matches_split(s, pos, enc0, encode_elems(rest));
    lemma_encode_model_len(e0);
    assert(decreases_to!(elems => elems[0]));
    if pos == s.len() {
        assert(parse_value(s, pos) == Ok::<Option<(int, RespModel)>, RESPError>(None));
    } else if s.len() >= pos + enc0.len() {
        lemma_parse_encode(s, pos, e0);
        let next = pos + enc0.len();
        lemma_parse_prefix_elems(s, next, rest);
    } else {
        lemma_parse_prefix(s, pos, e0);
    }
}

/// Round trip: a well-formed value with no CR or LF in its text fields
/// decodes from its own encoding, back to itself.
pub proof fn lemma_decode_encode(m: RespModel)
    requires
        model_wf(m),
        crlf_free(m),
    ensures
        decode_spec(encode_model(m)) == Ok::<Option<RespModel>, RESPError>(Some(m)),
{
    lemma_encode_model_len(m);
    lemma_parse_encode(encode_model(m), 0, m);
}

/// Incremental safety: every strict prefix of a valid encoding decodes
/// to "incomplete", and the full encoding decodes to the value itself.
pub proof fn lemma_decode_split(m: RespModel, k: int)
    requires
        model_wf(m),
        crlf_free(m),
        0 <= k < encode_model(m).len(),
    ensures
        decode_spec(encode_model(m).subrange(0, k)) == Ok::<Option<RespModel>, RESPError>(None),
        decode_spec(encode_model(m)) == Ok::<Option<RespModel>, RESPError>(Some(m)),
{
    lemma_decode_encode(m);
    if k > 0 {
        let s = encode_model(m).subrange(0, k);
        assert forall|j: int|
            0 <= j < encode_model(m).len() && 0 + j < s.len() implies s[0 + j] == encode_model(
            m,
        )[j] by {
            assert(s[j] == encode_model(m)[j]);
        }
        lemma_parse_prefix(s, 0, m);
    }
}

} // verus!

verus! {

/// A decoded array's element count fits the 64-bit count field it was
/// read from.
pub proof fn lemma_decode_array_len(s: Seq<char>)
    ensures
        match decode_spec(s) {
            Ok(Some(m)) => m matches RespModel::Array(es) ==> es.len() <= i64::MAX,
            _ => true,
        },
{
    if s.len() > 0 {
        if let Ok(Some((n, m))) = parse_value(s, 0) {
            if s[0] == '*' {
                lemma_int_field_bounds(s, 1);
                if let Ok(Some((p, c))) = int_field(s, 1) {
                    if c >= 0 && 0 < p <= s.len() {
                        lemma_parse_elems_bounds(s, p, c);
                    }
                }
            }
        }
    }
}

/// The value carries text: a simple or a bulk string.
pub open spec fn is_text(m: RespModel) -> bool {
    m is String || m is BulkString
}

/// The text a string-bearing value carries.
pub open spec fn text_of(m: RespModel) -> Seq<char>
    recommends
        is_text(m),
{
    if m is String {
        m->String_0
    } else {
        m->BulkString_0
    }
}

/// The strings of a request-shaped value: an array of at least one
/// element, every element a string-bearing value.
pub open spec fn request_of_value(m: RespModel) -> Option<Seq<Seq<char>>> {
    match m {
        RespModel::Array(elems) => if elems.len() >= 1 && (forall|j: int|
            0 <= j < elems.len() ==> is_text(#[trigger] elems[j])) {
            Some(Seq::new(elems.len(), |j: int| text_of(elems[j])))
        } else {
            None
        },
        _ => None,
    }
}

impl RespValueRef {
    /// Converts a decoded value into a request: the value must be an
    /// array of string-bearing values with at least a command name.
    #[verifier::loop_isolation(false)]
    pub fn try_into_request(self) -> (r: Result<Request, ()>)
        ensures
            match r {
                Ok(req) => request_of_value(self@) == Some(req@),
                Err(_) => request_of_value(self@) is None,
            },
    {
        proof {
            lemma_resp_models_of(self->Array_0@);
        }
        match self {
            RespValueRef::Array(values) => {
                let n = values.len();
                if n == 0 {
                    return Err(());
                }
                let ghost elems = resp_models_of(values@);
                let mut chunks: Vec<String> = Vec::new();
                let mut i: usize = 0;
                while i < n
                    invariant
                        i <= n,
                        chunks@.len() == i,
                        forall|j: int|
                            0 <= j < i ==> is_text(#[trigger] elems[j]) && chunks@[j]@
                                == text_of(elems[j]),
                    decreases n - i,
                {
                    match &values[i] {
                        RespValueRef::String(s) => {
                            chunks.push(s.clone());
                        },
                        RespValueRef::BulkString(s) => {
                            chunks.push(s.clone());
                        },
                        _ => {
                            proof {
                                assert(!is_text(elems[i as int]));
                            }
                            return Err(());
                        },
                    }
                    i = i + 1;
                }
                let req = Request::new(chunks);
                proof {
                    assert(req@ =~= Seq::new(elems.len(), |j: int| text_of(elems[j])));
                }
                Ok(req)
            },
            _ => Err(()),
        }
    }
}

} // verus!
