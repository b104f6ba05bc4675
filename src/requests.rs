use vstd::prelude::*;

verus! {

/// Whether an upload keeps its image metadata when the request does not say.
pub fn default_keep_exif() -> (r: bool)
    ensures
        r == false,
{
    false
}

/// The query of an upload request.
pub struct NewRequest {
    /// The original file name, which gives the extension.
    pub name: String,
    /// The upload key, if one was given.
    pub key: Option<String>,
    /// How long a temporary upload lasts, in milliseconds.
    pub last_for: Option<u64>,
    /// Whether image metadata is kept.
    pub keep_exif: bool,
}

/// The query of a deletion request.
pub struct DeleteRequest {
    /// The saved name of the upload.
    pub name: String,
    /// The upload's hash, in URL-safe base64.
    pub hash: String,
    /// The tag over the name and hash, in URL-safe base64.
    pub hmac: String,
}

/// Why fetching an upload failed.
#[derive(Debug, PartialEq, Eq, Structural, Clone, Copy)]
pub enum ViewError {
    /// No upload has the name, or the path had more than one component.
    NotFound,
    /// Reading the upload failed.
    InternalServerError,
    /// The requested range lies outside the upload.
    RangeNotSatisfiable,
}

impl ViewError {
    /// The HTTP status code of the error.
    pub fn status(&self) -> (r: u16)
        ensures
            r == match self {
                ViewError::NotFound => 404u16,
                ViewError::InternalServerError => 500u16,
                ViewError::RangeNotSatisfiable => 416u16,
            },
    {
        match self {
            ViewError::NotFound => 404,
            ViewError::InternalServerError => 500,
            ViewError::RangeNotSatisfiable => 416,
        }
    }

    /// The plain-text body of the error.
    pub fn message(&self) -> (r: &'static str)
        ensures
            r@ == match self {
                ViewError::NotFound => "Not found!"@,
                ViewError::InternalServerError => "Internal server error!"@,
                ViewError::RangeNotSatisfiable => "Range not satisfiable!"@,
            },
    {
        match self {
            ViewError::NotFound => "Not found!",
            ViewError::InternalServerError => "Internal server error!",
            ViewError::RangeNotSatisfiable => "Range not satisfiable!",
        }
    }
}

/// Whether an upload request passes the key check: any key when none is
/// configured, else exactly the configured one.
pub open spec fn key_ok(configured: Seq<char>, given: Option<Seq<char>>) -> bool {
    configured.len() == 0 || match given {
        Some(k) => k == configured,
        None => false,
    }
}

/// Checks the key of an upload request against the configured one.
pub fn upload_key_ok(configured: &String, given: &Option<String>) -> (r: bool)
    ensures
        r == key_ok(
            configured@,
            match given {
                Some(k) => Some(k@),
                None => None,
            },
        ),
{
    if configured.as_str().unicode_len() == 0 {
        return true;
    }
    match given {
        Some(k) => k.eq(configured),
        None => false,
    }
}

} // verus!
