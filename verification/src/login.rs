//! Rules for user names and passwords, and the digest of a password.

use crate::text::{char_is_whitespace, is_whitespace};
use sha2::{Digest, Sha256};
use vstd::prelude::*;
use vstd::string::StringSliceAdditionalSpecFns;

verus! {

/// The least count of characters in a user name.
pub const USERNAME_MIN: usize = 3;

/// The greatest count of characters in a user name.
pub const USERNAME_MAX: usize = 20;

/// The least count of characters in a password.
pub const PASSWORD_MIN: usize = 5;

/// The greatest count of characters in a password.
pub const PASSWORD_MAX: usize = 20;

/// What is wrong with a user name and password, if anything.
#[derive(Debug, Clone, Copy, PartialEq, Eq, Structural)]
pub enum LoginValidation {
    UsernameTooShort,
    UsernameTooLong,
    UsernameContainsWhitespace,
    PasswordTooShort,
    PasswordTooLong,
    PasswordContainsWhitespace,
    Valid,
}

/// The SHA-256 digest of `data`.
pub uninterp spec fn sha256(data: Seq<u8>) -> Seq<u8>;

/// `Digest::digest` of `sha2::Sha256`: the hash of the data in one call. The
/// contract gives the digest its name and says that it has 32 bytes, the output
/// size of SHA-256.
#[verifier::external_body]
fn sha256_digest(data: &[u8]) -> (digest: Vec<u8>)
    ensures
        digest@ == sha256(data@),
        digest@.len() == 32,
{
    Sha256::digest(data).to_vec()
}

/// Some character of `text` is white space.
pub open spec fn has_whitespace(text: Seq<char>) -> bool {
    exists|i: int| 0 <= i < text.len() && is_whitespace(#[trigger] text[i])
}

/// The verdict on a name of `username_chars` characters and a password of
/// `password_chars`, given whether each contains white space. The lengths are
/// judged first, the name before the password; then the white space, again the
/// name first. A length is too long only where it exceeds its maximum.
pub open spec fn verdict(
    username_chars: nat,
    password_chars: nat,
    username_spaced: bool,
    password_spaced: bool,
) -> LoginValidation {
    if username_chars < USERNAME_MIN {
        LoginValidation::UsernameTooShort
    } else if username_chars > USERNAME_MAX {
        LoginValidation::UsernameTooLong
    } else if password_chars < PASSWORD_MIN {
        LoginValidation::PasswordTooShort
    } else if password_chars > PASSWORD_MAX {
        LoginValidation::PasswordTooLong
    } else if username_spaced {
        LoginValidation::UsernameContainsWhitespace
    } else if password_spaced {
        LoginValidation::PasswordContainsWhitespace
    } else {
        LoginValidation::Valid
    }
}

/// Whether some character of `text` is white space.
pub fn contains_whitespace(text: &str) -> (found: bool)
    ensures
        found == has_whitespace(text@),
{
    let count = text.unicode_len();
    let mut i: usize = 0;
    while i < count
        invariant
            i <= count == text@.len(),
            forall|j: int| 0 <= j < i ==> !is_whitespace(#[trigger] text@[j]),
        decreases count - i,
    {
        if char_is_whitespace(text.get_char(i)) {
            return true;
        }
        i += 1;
    }
    false
}

/// Judges a name and a password by their lengths in characters; the white space
/// matters only where the lengths are in order.
pub fn judge(
    username_chars: usize,
    password_chars: usize,
    username_spaced: bool,
    password_spaced: bool,
) -> (result: LoginValidation)
    ensures
        result == verdict(
            username_chars as nat,
            password_chars as nat,
            username_spaced,
            password_spaced,
        ),
{
    if username_chars < USERNAME_MIN {
        return LoginValidation::UsernameTooShort;
    }
    if username_chars > USERNAME_MAX {
        return LoginValidation::UsernameTooLong;
    }
    if password_chars < PASSWORD_MIN {
        return LoginValidation::PasswordTooShort;
    }
    if password_chars > PASSWORD_MAX {
        return LoginValidation::PasswordTooLong;
    }
    if username_spaced {
        return LoginValidation::UsernameContainsWhitespace;
    }
    if password_spaced {
        return LoginValidation::PasswordContainsWhitespace;
    }
    LoginValidation::Valid
}

/// Validates a user name and a password.
///
/// The name has 3 to 20 characters, the password 5 to 20; any Unicode is
/// allowed, but no white space.
pub fn validate(username: &str, password: &str) -> (result: LoginValidation)
    ensures
        result == verdict(
            username@.len(),
            password@.len(),
            has_whitespace(username@),
            has_whitespace(password@),
        ),
{
    let u_chars = username.unicode_len();
    let p_chars = password.unicode_len();
    let lengths = judge(u_chars, p_chars, false, false);
    if !lengths.is_valid() {
        return lengths;
    }
    judge(u_chars, p_chars, contains_whitespace(username), contains_whitespace(password))
}

impl LoginValidation {
    /// What the verdict says, in words.
    pub open spec fn text(self) -> Seq<char> {
        match self {
            LoginValidation::UsernameTooShort => "Username is too short"@,
            LoginValidation::UsernameTooLong => "Username is too long"@,
            LoginValidation::UsernameContainsWhitespace => "Username contains whitespace"@,
            LoginValidation::PasswordTooShort => "Password is too short"@,
            LoginValidation::PasswordTooLong => "Password is too long"@,
            LoginValidation::PasswordContainsWhitespace => "Password contains whitespace"@,
            LoginValidation::Valid => "Valid"@,
        }
    }

    /// Whether nothing is wrong.
    pub fn is_valid(&self) -> (valid: bool)
        ensures
            valid == (*self == LoginValidation::Valid),
    {
        match self {
            LoginValidation::Valid => true,
            _ => false,
        }
    }

    /// What the verdict says, in words.
    pub fn to_string(&self) -> (text: String)
        ensures
            text@ == self.text(),
    {
        match self {
            LoginValidation::UsernameTooShort => "Username is too short".to_owned(),
            LoginValidation::UsernameTooLong => "Username is too long".to_owned(),
            LoginValidation::UsernameContainsWhitespace => "Username contains whitespace".to_owned(),
            LoginValidation::PasswordTooShort => "Password is too short".to_owned(),
            LoginValidation::PasswordTooLong => "Password is too long".to_owned(),
            LoginValidation::PasswordContainsWhitespace => "Password contains whitespace".to_owned(),
            LoginValidation::Valid => "Valid".to_owned(),
        }
    }
}

/// The SHA-256 digest of a password's UTF-8 bytes: 32 bytes.
pub fn hash_password(password: &str) -> (digest: Vec<u8>)
    ensures
        digest@ == sha256(password.spec_bytes()),
        digest@.len() == 32,
{
    sha256_digest(password.as_bytes())
}

} // verus!
