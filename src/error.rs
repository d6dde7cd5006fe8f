use vstd::prelude::*;
use vstd::string::StringExecFns;

verus! {

/// An error that can occur when writing CSV data.
#[derive(Debug)]
pub struct Error(Box<ErrorKind>);

impl View for Error {
    type V = ErrorKind;

    closed spec fn view(&self) -> ErrorKind {
        *self.0
    }
}

/// The specific type of an error.
#[derive(Debug)]
#[non_exhaustive]
pub enum ErrorKind {
    /// Two records with an unequal number of fields were written while the
    /// `flexible` option was disabled.
    UnequalLengths {
        /// The number of fields of the first record written.
        expected_len: u64,
        /// The number of fields in the bad record.
        len: u64,
    },
    /// A value could not be flattened into a row.
    Serialize(String),
}

impl Error {
    /// Wraps an error kind.
    pub fn new(kind: ErrorKind) -> (r: Error)
        ensures
            r@ == kind,
    {
        Error(Box::new(kind))
    }

    /// Return the specific type of this error.
    pub fn kind(&self) -> (r: &ErrorKind)
        ensures
            *r == self@,
    {
        &self.0
    }

    /// Unwrap this error into its underlying type.
    pub fn into_kind(self) -> (r: ErrorKind)
        ensures
            r == self@,
    {
        *self.0
    }

    /// The message of this error, as its `Display` text would read.
    pub fn message(&self) -> (r: String)
        ensures
            match self@ {
                ErrorKind::Serialize(m) => r@ == "CSV write error: "@ + m@,
                ErrorKind::UnequalLengths { expected_len, len } => r@ == "CSV error: found record with "@
                    + decimal(len as nat) + " fields, but the previous record has "@ + decimal(
                    expected_len as nat,
                ) + " fields"@,
            },
    {
        match &*self.0 {
            ErrorKind::UnequalLengths { expected_len, len } => {
                let mut r = "CSV error: found record with ".to_owned();
                r.append(decimal_text(*len).as_str());
                r.append(" fields, but the previous record has ");
                r.append(decimal_text(*expected_len).as_str());
                r.append(" fields");
                r
            },
            ErrorKind::Serialize(m) => {
                let mut r = "CSV write error: ".to_owned();
                r.append(m.as_str());
                r
            },
        }
    }
}

/// The decimal digits of `n`, most significant first, with no leading zero
/// (and `0` for zero).
pub open spec fn decimal(n: nat) -> Seq<char>
    decreases n,
{
    if n < 10 {
        seq![digit(n)]
    } else {
        decimal(n / 10) + seq![digit(n % 10)]
    }
}

/// The character of a decimal digit.
pub open spec fn digit(d: nat) -> char {
    ((d + 48) as u8) as char
}

/// Relies on `u64::to_string` (its `Display`): an integer in decimal.
#[verifier::external_body]
fn decimal_text(n: u64) -> (r: String)
    ensures
        r@ == decimal(n as nat),
{
    n.to_string()
}

} // verus!
