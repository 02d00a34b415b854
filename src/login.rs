use vstd::prelude::*;

verus! {

/// What `str::trim` leaves of these characters.
pub uninterp spec fn trim_of(s: Seq<char>) -> Seq<char>;

/// What `u8::from_str_radix(_, 10)` gives for these characters.
pub uninterp spec fn u8_decimal_of(s: Seq<char>) -> Option<u8>;

/// What `u32::from_str_radix(_, 10)` gives for these characters.
pub uninterp spec fn u32_decimal_of(s: Seq<char>) -> Option<u32>;

/// Relies on str::trim: the text without leading and trailing whitespace.
#[verifier::external_body]
fn trimmed(s: &str) -> (r: String)
    ensures
        r@ == trim_of(s@),
{
    s.trim().to_owned()
}

/// Relies on u8::from_str_radix in base 10: the number that the text
/// writes, or none.
#[verifier::external_body]
fn parse_u8(s: &str) -> (r: Option<u8>)
    ensures
        r == u8_decimal_of(s@),
{
    u8::from_str_radix(s, 10).ok()
}

/// Relies on u32::from_str_radix in base 10: the number that the text
/// writes, or none.
#[verifier::external_body]
fn parse_u32(s: &str) -> (r: Option<u32>)
    ensures
        r == u32_decimal_of(s@),
{
    u32::from_str_radix(s, 10).ok()
}

/// The options every command shares.
pub struct CommonOpt {
    pub debug: bool,
    pub addr: Option<String>,
    pub username: Option<String>,
    pub ca_path: Option<String>,
}

/// The options of the login command.
pub struct LoginOpt {
    pub copt: CommonOpt,
}

/// Why a typed choice was refused.
#[derive(Debug, Clone, Copy, PartialEq, Eq, Structural)]
pub enum ChoiceError {
    /// The line is no decimal number that fits a byte.
    InvalidNumber,
    /// The number is not below the count of choices.
    OutOfRange,
}

/// How to pick among the offers of the server.
#[derive(Debug, Clone, Copy, PartialEq, Eq, Structural)]
pub enum Pick {
    /// Nothing was offered: the login cannot go on.
    NothingOffered,
    /// One offer: take it.
    Only,
    /// Several: ask the user.
    Ask,
}

impl LoginOpt {
    pub fn debug(&self) -> (r: bool)
        ensures
            r == self.copt.debug,
    {
        self.copt.debug
    }

    /// The account to log in as: the one given, else `anonymous`.
    pub fn username(&self) -> (r: String)
        ensures
            r@ == match self.copt.username {
                Some(u) => u@,
                None => "anonymous"@,
            },
    {
        match &self.copt.username {
            Some(u) => u.clone(),
            None => "anonymous".to_owned(),
        }
    }
}

/// How to pick among `len` offers.
pub fn pick_for(len: usize) -> (r: Pick)
    ensures
        len == 0 ==> r == Pick::NothingOffered,
        len == 1 ==> r == Pick::Only,
        len > 1 ==> r == Pick::Ask,
{
    if len == 0 {
        Pick::NothingOffered
    } else if len == 1 {
        Pick::Only
    } else {
        Pick::Ask
    }
}

/// The index that a typed line chooses among `len` offers.
pub fn index_choice(response: &str, len: usize) -> (r: Result<u8, ChoiceError>)
    ensures
        r == match u8_decimal_of(trim_of(response@)) {
            None => Err(ChoiceError::InvalidNumber),
            Some(i) => if (i as usize) < len {
                Ok(i)
            } else {
                Err(ChoiceError::OutOfRange)
            },
        },
{
    let t = trimmed(response);
    match parse_u8(t.as_str()) {
        Some(i) => if (i as usize) < len {
            Ok(i)
        } else {
            Err(ChoiceError::OutOfRange)
        },
        None => Err(ChoiceError::InvalidNumber),
    }
}

/// The one-time code that a typed line holds, or none.
pub fn totp_choice(response: &str) -> (r: Option<u32>)
    ensures
        r == u32_decimal_of(trim_of(response@)),
{
    let t = trimmed(response);
    parse_u32(t.as_str())
}

} // verus!
