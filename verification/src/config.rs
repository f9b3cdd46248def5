//! The two settings of the gateway: where the cards are, and where a name
//! can be searched for.
//!
//! Both come from the environment. The caller reads the variables and hands
//! over their raw bytes; what they are worth is decided here.

use vstd::prelude::*;
use vstd::string::*;
use vstd::utf8::*;

use crate::decimal::{decimal, push_decimal};

verus! {

/// The variable that holds the address of the cards.
pub const CARDS_VAR: &'static str = "BIRTHCAL_CARDS";

/// The variable that holds the address to search a name at.
pub const SEARCH_VAR: &'static str = "BIRTHCAL_SEARCH";

/// Why a variable gave no value.
#[derive(Clone, Copy, Debug, PartialEq, Eq)]
pub enum EnvError {
    Missing,
    Empty,
    /// The value is not valid UTF-8: up to `valid_up_to` its bytes are, and
    /// there stands a sequence of `error_len` bytes that is not, or, where
    /// that is `None`, a sequence that the end of the value cuts short.
    BadUnicode { valid_up_to: usize, error_len: Option<usize> },
}

/// A variable that gave no value, and why.
#[derive(Clone, Copy, Debug, PartialEq, Eq)]
pub struct EnvFailure {
    pub var: &'static str,
    pub err: EnvError,
}

/// The settings of one request.
#[derive(Clone, Debug, PartialEq, Eq)]
pub struct Config {
    pub cards_url: String,
    pub search_url: Option<String>,
}

/// The first `n` bytes are valid UTF-8, and no longer prefix is.
pub open spec fn is_valid_up_to(bytes: Seq<u8>, n: int) -> bool {
    &&& 0 <= n <= bytes.len()
    &&& valid_utf8(bytes.take(n))
    &&& forall|m: int| n < m <= bytes.len() ==> !valid_utf8(#[trigger] bytes.take(m))
}

/// The length of the longest prefix that is valid UTF-8.
pub open spec fn valid_up_to(bytes: Seq<u8>) -> usize {
    choose|n: usize| is_valid_up_to(bytes, n as int)
}

/// There is one longest valid prefix.
pub proof fn lemma_valid_up_to(bytes: Seq<u8>, n: usize)
    requires
        is_valid_up_to(bytes, n as int),
    ensures
        valid_up_to(bytes) == n,
{
    let chosen = valid_up_to(bytes);
    assert(is_valid_up_to(bytes, chosen as int));
}

/// The length that std's UTF-8 check gives for the invalid sequence that
/// stands where the valid text of these bytes ends, or `None` where the end
/// of the bytes cuts a sequence short.
pub uninterp spec fn bad_sequence_len(bytes: Seq<u8>) -> Option<usize>;

/// Calls `String::from_utf8` and, where it fails, reads `valid_up_to` and
/// `error_len` from the `Utf8Error` of its error. By the documentation the
/// call succeeds exactly on valid UTF-8, and the string then holds the
/// characters that the bytes encode; `valid_up_to` is the greatest index up
/// to which the bytes are valid UTF-8; `error_len` is the length of the
/// invalid sequence that starts there, or `None` at an unexpected end. That
/// is assumed here, not proved.
#[verifier::external_body]
fn string_from_utf8(bytes: Vec<u8>) -> (r: Result<String, (usize, Option<usize>)>)
    ensures
        r is Ok <==> valid_utf8(bytes@),
        r is Ok ==> r->Ok_0@ == decode_utf8(bytes@),
        r is Err ==> is_valid_up_to(bytes@, r->Err_0.0 as int),
        r is Err ==> r->Err_0.1 == bad_sequence_len(bytes@),
{
    String::from_utf8(bytes).map_err(
        |err| (err.utf8_error().valid_up_to(), err.utf8_error().error_len()),
    )
}

/// What the raw value of a variable is worth: its text, if it is there, is
/// not empty and is valid UTF-8.
pub open spec fn env_value(raw: Option<Seq<u8>>) -> Result<Seq<char>, EnvError> {
    match raw {
        None => Err(EnvError::Missing),
        Some(bytes) => if bytes.len() == 0 {
            Err(EnvError::Empty)
        } else if !valid_utf8(bytes) {
            Err(
                EnvError::BadUnicode {
                    valid_up_to: valid_up_to(bytes),
                    error_len: bad_sequence_len(bytes),
                },
            )
        } else {
            Ok(decode_utf8(bytes))
        },
    }
}

/// The view of a raw value.
pub open spec fn raw_view(raw: Option<Vec<u8>>) -> Option<Seq<u8>> {
    match raw {
        Some(bytes) => Some(bytes@),
        None => None,
    }
}

/// The value of a variable that must be there, not empty, and valid UTF-8.
pub fn require_noempty_utf8_env(var: &'static str, raw: Option<Vec<u8>>) -> (r: Result<
    String,
    EnvFailure,
>)
    ensures
        match r {
            Ok(text) => env_value(raw_view(raw)) == Ok::<Seq<char>, EnvError>(text@),
            Err(failure) => failure.var == var && env_value(raw_view(raw)) == Err::<
                Seq<char>,
                EnvError,
            >(failure.err),
        },
{
    match raw {
        None => Err(EnvFailure { var, err: EnvError::Missing }),
        Some(bytes) => {
            if bytes.len() == 0 {
                Err(EnvFailure { var, err: EnvError::Empty })
            } else {
                let ghost given = bytes@;
                match string_from_utf8(bytes) {
                    Ok(text) => Ok(text),
                    Err((valid_up_to, error_len)) => {
                        proof {
                            lemma_valid_up_to(given, valid_up_to);
                        }
                        Err(EnvFailure { var, err: EnvError::BadUnicode { valid_up_to, error_len } })
                    },
                }
            }
        },
    }
}

/// The settings that the two raw values are worth: the first failure, the
/// cards' address being looked at first; a search address that is missing is
/// no failure, the search is then off.
pub open spec fn config_of(cards: Option<Seq<u8>>, search: Option<Seq<u8>>) -> Result<
    (Seq<char>, Option<Seq<char>>),
    (Seq<char>, EnvError),
> {
    match env_value(cards) {
        Err(err) => Err((CARDS_VAR@, err)),
        Ok(cards_url) => match env_value(search) {
            Ok(search_url) => Ok((cards_url, Some(search_url))),
            Err(EnvError::Missing) => Ok((cards_url, None)),
            Err(err) => Err((SEARCH_VAR@, err)),
        },
    }
}

/// The address of the cards.
pub fn load_cards_url(raw: Option<Vec<u8>>) -> (r: Result<String, EnvFailure>)
    ensures
        match r {
            Ok(text) => env_value(raw_view(raw)) == Ok::<Seq<char>, EnvError>(text@),
            Err(failure) => failure.var@ == CARDS_VAR@ && env_value(raw_view(raw)) == Err::<
                Seq<char>,
                EnvError,
            >(failure.err),
        },
{
    require_noempty_utf8_env(CARDS_VAR, raw)
}

/// The address to search a name at, if the search is on.
pub fn load_search_url(raw: Option<Vec<u8>>) -> (r: Result<Option<String>, EnvFailure>)
    ensures
        match r {
            Ok(Some(text)) => env_value(raw_view(raw)) == Ok::<Seq<char>, EnvError>(text@),
            Ok(None) => raw is None,
            Err(failure) => failure.var@ == SEARCH_VAR@ && failure.err != EnvError::Missing
                && env_value(raw_view(raw)) == Err::<Seq<char>, EnvError>(failure.err),
        },
{
    match require_noempty_utf8_env(SEARCH_VAR, raw) {
        Ok(text) => Ok(Some(text)),
        Err(failure) => match failure.err {
            EnvError::Missing => Ok(None),
            _ => Err(failure),
        },
    }
}

/// Both settings, or the first failure.
pub fn load_config(cards: Option<Vec<u8>>, search: Option<Vec<u8>>) -> (r: Result<
    Config,
    EnvFailure,
>)
    ensures
        match r {
            Ok(config) => config_of(raw_view(cards), raw_view(search)) == Ok::<
                (Seq<char>, Option<Seq<char>>),
                (Seq<char>, EnvError),
            >((config.cards_url@, config.search_url.deep_view())),
            Err(failure) => config_of(raw_view(cards), raw_view(search)) == Err::<
                (Seq<char>, Option<Seq<char>>),
                (Seq<char>, EnvError),
            >((failure.var@, failure.err)),
        },
{
    let cards_url = match load_cards_url(cards) {
        Ok(text) => text,
        Err(failure) => {
            return Err(failure);
        },
    };
    match load_search_url(search) {
        Ok(search_url) => Ok(Config { cards_url, search_url }),
        Err(failure) => Err(failure),
    }
}

/// What is said of bytes that are not valid UTF-8.
pub open spec fn fault_text(valid_up_to: usize, error_len: Option<usize>) -> Seq<char> {
    match error_len {
        Some(len) => "invalid utf-8 sequence of "@ + decimal(len as nat) + " bytes from index "@
            + decimal(valid_up_to as nat),
        None => "incomplete utf-8 byte sequence from index "@ + decimal(valid_up_to as nat),
    }
}

/// What is said of a failure: the variable, and what is wrong with it.
pub open spec fn failure_text(var: Seq<char>, err: EnvError) -> Seq<char> {
    "Environment variable "@ + var + " "@ + match err {
        EnvError::Missing => "missing"@,
        EnvError::Empty => "is empty"@,
        EnvError::BadUnicode { valid_up_to, error_len } => "is not valid UTF-8: "@ + fault_text(
            valid_up_to,
            error_len,
        ),
    }
}

impl EnvFailure {
    /// The failure in words, for the log.
    pub fn message(&self) -> (text: String)
        ensures
            text@ == failure_text(self.var@, self.err),
    {
        let mut text = "Environment variable ".to_owned();
        text.append(self.var);
        text.append(" ");
        match self.err {
            EnvError::Missing => text.append("missing"),
            EnvError::Empty => text.append("is empty"),
            EnvError::BadUnicode { valid_up_to, error_len } => {
                text.append("is not valid UTF-8: ");
                match error_len {
                    Some(len) => {
                        text.append("invalid utf-8 sequence of ");
                        push_decimal(&mut text, len as u64);
                        text.append(" bytes from index ");
                    },
                    None => {
                        text.append("incomplete utf-8 byte sequence from index ");
                    },
                }
                push_decimal(&mut text, valid_up_to as u64);
            },
        }
        assert(text@ =~= failure_text(self.var@, self.err));
        text
    }
}

} // verus!
