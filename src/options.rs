//! Options of a signed-URL request, and the checks they must pass before any
//! signing work starts.
use vstd::prelude::*;
use crate::text::{upper_of, uppercase};

verus! {

/// Longest lifetime, in seconds, of a URL signed with the V4 scheme.
pub const MAX_V4_LIFETIME: i64 = 604800;

/// The version of URL signing to use.
#[derive(Clone, Copy, Debug, PartialEq, Eq, Structural)]
pub enum SigningScheme {
    /// Signs over a canonical request, with a lifetime of at most seven days.
    SigningSchemeV4,
}

/// Why a set of signing options was refused.
#[derive(Clone, Copy, Debug, PartialEq, Eq, Structural)]
pub enum OptionProblem {
    MissingAccessId,
    SigningMeans,
    InvalidMethod,
    MissingExpiry,
    ExpiryNotInFuture,
    InvalidMd5,
    InvalidMd5Length,
    ExpiryTooFar,
    QueryCollision,
}

/// The errors of URL signing.
#[derive(Clone, Copy, Debug, PartialEq, Eq, Structural)]
pub enum SignedURLError {
    /// An option was missing, malformed or contradictory.
    InvalidOption(OptionProblem),
    /// The signing function failed.
    SigningFailed,
    /// The signing instant lies outside the calendar's range.
    InvalidTime,
}

/// The sentence that names a problem.
pub open spec fn message_of(p: OptionProblem) -> Seq<char> {
    match p {
        OptionProblem::MissingAccessId => "storage: missing required GoogleAccessID"@,
        OptionProblem::SigningMeans => "storage: exactly one of PrivateKey or SignedBytes must be set"@,
        OptionProblem::InvalidMethod => "storage: invalid HTTP method"@,
        OptionProblem::MissingExpiry => "missing required expires option"@,
        OptionProblem::ExpiryNotInFuture => "storage: expires must be in the future"@,
        OptionProblem::InvalidMd5 => "storage: invalid MD5 checksum"@,
        OptionProblem::InvalidMd5Length => "storage: invalid MD5 checksum length"@,
        OptionProblem::ExpiryTooFar => "storage: expires must be within seven days from now"@,
        OptionProblem::QueryCollision => "storage: query parameter collides with a signing parameter"@,
    }
}

impl OptionProblem {
    /// A sentence that names the problem.
    pub fn message(&self) -> (r: &'static str)
        ensures
            r@ == message_of(*self),
    {
        match self {
            OptionProblem::MissingAccessId => "storage: missing required GoogleAccessID",
            OptionProblem::SigningMeans => "storage: exactly one of PrivateKey or SignedBytes must be set",
            OptionProblem::InvalidMethod => "storage: invalid HTTP method",
            OptionProblem::MissingExpiry => "missing required expires option",
            OptionProblem::ExpiryNotInFuture => "storage: expires must be in the future",
            OptionProblem::InvalidMd5 => "storage: invalid MD5 checksum",
            OptionProblem::InvalidMd5Length => "storage: invalid MD5 checksum length",
            OptionProblem::ExpiryTooFar => "storage: expires must be within seven days from now",
            OptionProblem::QueryCollision => "storage: query parameter collides with a signing parameter",
        }
    }
}

/// The sentence that describes an error.
pub open spec fn error_text(e: SignedURLError) -> Seq<char> {
    match e {
        SignedURLError::InvalidOption(p) => "invalid option "@ + message_of(p),
        SignedURLError::SigningFailed => "signing failed"@,
        SignedURLError::InvalidTime => "signing time out of range"@,
    }
}

impl SignedURLError {
    /// A sentence that describes the error.
    pub fn to_string(&self) -> (r: String)
        ensures
            r@ == error_text(*self),
    {
        match self {
            SignedURLError::InvalidOption(p) => {
                let mut s = String::from_str("invalid option ");
                s.append(p.message());
                s
            },
            SignedURLError::SigningFailed => String::from_str("signing failed"),
            SignedURLError::InvalidTime => String::from_str("signing time out of range"),
        }
    }
}

/// How the host and path of a signed URL are formed from bucket and object.
#[derive(Debug)]
pub enum URLStyleKind {
    /// `storage.googleapis.com/{bucket}/{object}`
    PathStyle,
    /// `{bucket}.storage.googleapis.com/{object}`
    VirtualHostedStyle,
    /// `{hostname}/{object}`, for a host name bound to the bucket.
    BucketBoundHostname(String),
}

/// A signing request. `expires` and the signing instant are Unix seconds;
/// an `expires` of zero means that none was given.
pub struct SignedURLOptions<F> {
    pub google_access_id: String,
    pub private_key: Vec<u8>,
    pub sign_bytes: Option<F>,
    pub method: String,
    pub expires: i64,
    pub content_type: String,
    pub headers: Vec<String>,
    pub query_parameters: Vec<(String, Vec<String>)>,
    pub md5: String,
    pub style: URLStyleKind,
    pub insecure: bool,
    pub scheme: SigningScheme,
}

/// What `base64::decode` (standard alphabet) returns for a text.
pub uninterp spec fn base64_decoded(s: Seq<char>) -> Option<Seq<u8>>;

/// `base64::DecodeError`, carried opaquely.
#[verifier::external_type_specification]
#[verifier::external_body]
pub struct ExDecodeError(base64::DecodeError);

/// Relies on `base64::decode`: the bytes that a standard base64 text encodes,
/// or an error where it is no such text.
#[verifier::external_body]
fn decode_base64(s: &str) -> (r: Result<Vec<u8>, base64::DecodeError>)
    ensures
        match base64_decoded(s@) {
            Some(b) => r is Ok && r->Ok_0@ == b,
            None => r is Err,
        },
{
    base64::decode(s)
}

/// The methods that a signed URL may carry.
pub open spec fn allowed_methods() -> Seq<Seq<char>> {
    seq![
        seq!['D', 'E', 'L', 'E', 'T', 'E'],
        seq!['G', 'E', 'T'],
        seq!['H', 'E', 'A', 'D'],
        seq!['P', 'O', 'S', 'T'],
        seq!['P', 'U', 'T'],
    ]
}

pub open spec fn method_allowed(m: Seq<char>) -> bool {
    allowed_methods().contains(upper_of(m))
}

/// The problem with a decoded MD5 checksum, if any.
pub open spec fn md5_problem(decoded: Option<Seq<u8>>) -> Option<OptionProblem> {
    match decoded {
        None => Some(OptionProblem::InvalidMd5),
        Some(b) => if b.len() != 16 {
            Some(OptionProblem::InvalidMd5Length)
        } else {
            None
        },
    }
}

/// The first problem with a set of options at instant `now`, given what
/// the MD5 field decodes to; `None` when they are valid.
pub open spec fn first_problem(
    access_id: Seq<char>,
    has_key: bool,
    has_signer: bool,
    method: Seq<char>,
    expires: int,
    md5: Seq<char>,
    md5_decoded: Option<Seq<u8>>,
    scheme: SigningScheme,
    now: int,
) -> Option<OptionProblem> {
    if access_id.len() == 0 {
        Some(OptionProblem::MissingAccessId)
    } else if has_key == has_signer {
        Some(OptionProblem::SigningMeans)
    } else if !method_allowed(method) {
        Some(OptionProblem::InvalidMethod)
    } else if expires == 0 {
        Some(OptionProblem::MissingExpiry)
    } else if expires <= now {
        Some(OptionProblem::ExpiryNotInFuture)
    } else if md5.len() > 0 && md5_problem(md5_decoded) is Some {
        md5_problem(md5_decoded)
    } else if scheme == SigningScheme::SigningSchemeV4 && expires - now > MAX_V4_LIFETIME {
        Some(OptionProblem::ExpiryTooFar)
    } else {
        None
    }
}

pub open spec fn options_problem<F>(opts: &SignedURLOptions<F>, now: int) -> Option<OptionProblem> {
    first_problem(
        opts.google_access_id@,
        opts.private_key@.len() > 0,
        opts.sign_bytes is Some,
        opts.method@,
        opts.expires as int,
        opts.md5@,
        base64_decoded(opts.md5@),
        opts.scheme,
        now,
    )
}

fn is_allowed_method(m: &str) -> (r: bool)
    ensures
        r == method_allowed(m@),
{
    let up = crate::text::chars_of(uppercase(m).as_str());
    let ghost u = up@;
    let n = up.len();
    let r = if n == 3 {
        (up[0] == 'G' && up[1] == 'E' && up[2] == 'T') || (up[0] == 'P' && up[1] == 'U' && up[2]
            == 'T')
    } else if n == 4 {
        (up[0] == 'H' && up[1] == 'E' && up[2] == 'A' && up[3] == 'D') || (up[0] == 'P' && up[1]
            == 'O' && up[2] == 'S' && up[3] == 'T')
    } else if n == 6 {
        up[0] == 'D' && up[1] == 'E' && up[2] == 'L' && up[3] == 'E' && up[4] == 'T' && up[5]
            == 'E'
    } else {
        false
    };
    let ghost a = allowed_methods();
    assert(a[0].len() == 6 && a[1].len() == 3 && a[2].len() == 4 && a[3].len() == 4 && a[4].len()
        == 3);
    if r {
        if n == 3 && up[0] == 'G' {
            assert(u =~= a[1]);
        } else if n == 3 {
            assert(u =~= a[4]);
        } else if n == 4 && up[0] == 'H' {
            assert(u =~= a[2]);
        } else if n == 4 {
            assert(u =~= a[3]);
        } else {
            assert(u =~= a[0]);
        }
    } else {
        assert forall|j: int| 0 <= j < a.len() implies a[j] != u by {
            if a[j] == u {
                assert(a[j][0] == u[0]);
            }
        }
    }
    r
}

/// What the MD5 field's decoding means for the options: `Ok` for sixteen
/// bytes, else the problem.
pub fn check_md5_decoding(decoded: &Option<Vec<u8>>) -> (r: Result<(), SignedURLError>)
    ensures
        match md5_problem(
            match decoded {
                Some(b) => Some(b@),
                None => None,
            },
        ) {
            Some(p) => r == Err::<(), SignedURLError>(SignedURLError::InvalidOption(p)),
            None => r is Ok,
        },
{
    match decoded {
        None => Err(SignedURLError::InvalidOption(OptionProblem::InvalidMd5)),
        Some(b) => if b.len() != 16 {
            Err(SignedURLError::InvalidOption(OptionProblem::InvalidMd5Length))
        } else {
            Ok(())
        },
    }
}

/// Checks a signing request at instant `now` (Unix seconds): the access id
/// is set, exactly one signing means is given, the method is one of DELETE,
/// GET, HEAD, POST and PUT in any case, the expiry is set and in the future,
/// a given MD5 checksum is base64 of sixteen bytes, and a V4 expiry lies at
/// most seven days ahead. The first check that fails gives the error.
pub fn validate_options<F>(opts: &SignedURLOptions<F>, now: i64) -> (r: Result<
    (),
    SignedURLError,
>)
    ensures
        match options_problem(opts, now as int) {
            Some(p) => r == Err::<(), SignedURLError>(SignedURLError::InvalidOption(p)),
            None => r is Ok,
        },
{
    if opts.google_access_id.as_str().is_empty() {
        return Err(SignedURLError::InvalidOption(OptionProblem::MissingAccessId));
    }
    let has_key = opts.private_key.len() > 0;
    let has_signer = opts.sign_bytes.is_some();
    if has_key == has_signer {
        return Err(SignedURLError::InvalidOption(OptionProblem::SigningMeans));
    }
    if !is_allowed_method(opts.method.as_str()) {
        return Err(SignedURLError::InvalidOption(OptionProblem::InvalidMethod));
    }
    if opts.expires == 0 {
        return Err(SignedURLError::InvalidOption(OptionProblem::MissingExpiry));
    }
    if opts.expires <= now {
        return Err(SignedURLError::InvalidOption(OptionProblem::ExpiryNotInFuture));
    }
    if !opts.md5.as_str().is_empty() {
        let decoded = match decode_base64(opts.md5.as_str()) {
            Ok(b) => Some(b),
            Err(_) => None,
        };
        let checked = check_md5_decoding(&decoded);
        if checked.is_err() {
            return checked;
        }
    }
    if opts.scheme == SigningScheme::SigningSchemeV4 && (opts.expires as i128) - (now as i128)
        > MAX_V4_LIFETIME as i128 {
        return Err(SignedURLError::InvalidOption(OptionProblem::ExpiryTooFar));
    }
    Ok(())
}

} // verus!
