//! What requests for the source of a service, and their answers, say.

use vstd::prelude::*;

use crate::error::{Error, ErrorV};
use crate::net::types::{MeerkatMessage, MeerkatMessageV};
use crate::runtime::limits::{
    MAX_IDENTIFIER_LENGTH, MAX_NET_REQUEST_SOURCE_LENGTH, MAX_NET_REQUEST_STRING_LENGTH,
};
use crate::runtime::parser::lex;
use crate::runtime::parser::lex::{is_in_class, Class};

verus! {

/// The name that a file name stands for: without the extension, where there is one.
pub open spec fn base_name(path: Seq<char>) -> Seq<char> {
    if path.len() >= 4 && path.skip(path.len() - 4) == ".mkt"@ {
        path.take(path.len() - 4)
    } else {
        path
    }
}

/// Whether a text is the name of a service: a letter, then letters and digits, not too many.
pub open spec fn is_name(s: Seq<char>) -> bool {
    &&& 0 < s.len() <= MAX_IDENTIFIER_LENGTH
    &&& lex::in_class(Class::Letter, s[0])
    &&& forall|i: int| 0 <= i < s.len() ==> lex::in_class(Class::NameChar, #[trigger] s[i])
}

/// What is wrong with the answer to a request for a source: it must be for a name, and the
/// source must not be too long.
pub open spec fn response_error(path: Seq<char>, source: Seq<char>) -> Option<ErrorV> {
    if !is_name(base_name(path)) {
        Some(ErrorV::LimitExceeded("invalid service path in source response"@))
    } else if vstd::utf8::encode_utf8(source).len() > MAX_NET_REQUEST_SOURCE_LENGTH {
        Some(ErrorV::LimitExceeded("source in response is too long"@))
    } else {
        None
    }
}

/// Whether a request for a source is in order.
pub open spec fn is_valid_request(path: Seq<char>, reply_to: Seq<char>) -> bool {
    is_name(base_name(path)) && vstd::utf8::encode_utf8(reply_to).len()
        <= MAX_NET_REQUEST_STRING_LENGTH
}

/// The file that a request asks for.
pub open spec fn requested_file(path: Seq<char>) -> Seq<char> {
    base_name(path) + ".mkt"@
}

/// The name that a file name stands for.
fn strip_extension(path: &str) -> (res: &str)
    ensures
        res@ == base_name(path@),
{
    let n: usize = path.unicode_len();
    if n >= 4 {
        let tail = path.substring_char(n - 4, n).to_owned();
        assert(path@.subrange(n - 4, n as int) =~= path@.skip(n - 4));
        if tail == ".mkt".to_owned() {
            assert(path@.subrange(0, n - 4) =~= path@.take(n - 4));
            return path.substring_char(0, n - 4);
        }
    }
    path
}

/// Whether a text is the name of a service.
pub fn check_name(s: &str) -> (res: bool)
    ensures
        res == is_name(s@),
{
    let n: usize = s.unicode_len();
    if n == 0 || n > MAX_IDENTIFIER_LENGTH {
        return false;
    }
    if !is_in_class(Class::Letter, s.get_char(0)) {
        return false;
    }
    let mut i: usize = 0;
    while i < n
        invariant
            i <= n == s@.len(),
            forall|k: int| 0 <= k < i ==> lex::in_class(Class::NameChar, #[trigger] s@[k]),
        decreases n - i,
    {
        if !is_in_class(Class::NameChar, s.get_char(i)) {
            assert(!lex::in_class(Class::NameChar, s@[i as int]));
            return false;
        }
        i += 1;
    }
    true
}

/// The name of the service whose source an answer brings; an error where the answer is not in
/// order.
pub fn decode_source_response(path: &str, source: &str) -> (res: Result<String, Error>)
    ensures
        match res {
            Ok(name) => response_error(path@, source@) is None && name@ == base_name(path@),
            Err(e) => response_error(path@, source@) == Some(e@),
        },
{
    let name = strip_extension(path);
    if !check_name(name) {
        return Err(Error::LimitExceeded("invalid service path in source response".to_owned()));
    }
    if source.as_bytes().len() > MAX_NET_REQUEST_SOURCE_LENGTH {
        return Err(Error::LimitExceeded("source in response is too long".to_owned()));
    }
    Ok(name.to_owned())
}

/// The file that a request asks for; nothing where the request is not in order.
pub fn decode_source_request(path: &str, reply_to: &str) -> (res: Option<String>)
    ensures
        match res {
            Some(file) => is_valid_request(path@, reply_to@) && file@ == requested_file(path@),
            None => !is_valid_request(path@, reply_to@),
        },
{
    let name = strip_extension(path);
    if !check_name(name) || reply_to.as_bytes().len() > MAX_NET_REQUEST_STRING_LENGTH {
        return None;
    }
    let mut file = name.to_owned();
    file.append(".mkt");
    Some(file)
}

/// The answer to a request for a source: the source, or why there is none.
pub fn source_reply(request_id: u64, path: &str, found: Result<String, String>) -> (res:
    MeerkatMessage)
    ensures
        res@ == (match found {
            Ok(source) => MeerkatMessageV::ServiceCodeResponse {
                request_id,
                path: path@,
                source: source@,
            },
            Err(error) => MeerkatMessageV::ServiceCodeError { request_id, error: error@ },
        }),
{
    match found {
        Ok(source) => MeerkatMessage::ServiceCodeResponse {
            request_id,
            path: path.to_owned(),
            source,
        },
        Err(error) => MeerkatMessage::ServiceCodeError { request_id, error },
    }
}

} // verus!
