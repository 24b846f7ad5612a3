use vstd::prelude::*;
use vstd::string::*;

verus! {

/// Why reading or writing a snapshot directory failed.
#[derive(Debug, PartialEq, Eq)]
pub enum FileError {
    /// A file's content could not be decoded.
    DeserializationError(String),
    /// Listing, opening, reading or writing failed.
    IoError(String),
    /// A directory entry's name is not valid text.
    FileNameError(String),
    /// A batch key that must be an unsigned integer is not one.
    ParseIntError(String),
}

pub type FileResult<T> = Result<T, FileError>;

fn prefixed(prefix: &str, detail: &String) -> (r: String)
    ensures
        r@ == prefix@ + detail@,
{
    String::from_str(prefix).concat(detail.as_str())
}

impl FileError {
    /// A sentence that describes the error.
    pub fn message(&self) -> (r: String)
        ensures
            r@ == match self {
                FileError::DeserializationError(v) => "Was unable to Deserialize file: "@ + v@,
                FileError::IoError(v) => "Was unable to read the file due to an io error: "@
                    + v@,
                FileError::FileNameError(v) => "Was unable to read the os string: "@ + v@,
                FileError::ParseIntError(v) => "Was unable to parse string to int: "@ + v@,
            },
    {
        match self {
            FileError::DeserializationError(v) => prefixed("Was unable to Deserialize file: ", v),
            FileError::IoError(v) => prefixed(
                "Was unable to read the file due to an io error: ",
                v,
            ),
            FileError::FileNameError(v) => prefixed("Was unable to read the os string: ", v),
            FileError::ParseIntError(v) => prefixed("Was unable to parse string to int: ", v),
        }
    }
}

/// Why working out the place of a location failed.
#[derive(Debug, PartialEq, Eq)]
pub enum ServerError {
    LocationCalculationError(String),
}

pub type ServerResult<T> = Result<T, ServerError>;

impl ServerError {
    /// A sentence that describes the error.
    pub fn message(&self) -> (r: String)
        ensures
            r@ == match self {
                ServerError::LocationCalculationError(v) =>
                    "Unable to operate with provided locations: "@ + v@,
            },
    {
        match self {
            ServerError::LocationCalculationError(v) => prefixed(
                "Unable to operate with provided locations: ",
                v,
            ),
        }
    }
}

impl From<String> for ServerError {
    fn from(value: String) -> (r: Self) {
        ServerError::LocationCalculationError(value)
    }
}

impl vstd::std_specs::convert::FromSpecImpl<String> for ServerError {
    open spec fn obeys_from_spec() -> bool {
        true
    }

    open spec fn from_spec(v: String) -> Self {
        ServerError::LocationCalculationError(v)
    }
}

} // verus!
