use base64::Engine as _;
use base64::prelude::BASE64_URL_SAFE_NO_PAD;
use hmac::Mac;
use vstd::prelude::*;
use vstd::string::*;
use vstd::utf8::encode_utf8;

use crate::hash::{be_bytes, be_value, lemma_be_round_trip, lemma_pow256_positive, pow256, put_be};

verus! {

/// URL-safe base64 of `b`, without padding.
pub uninterp spec fn b64url_of(b: Seq<u8>) -> Seq<char>;

/// Relies on `base64`'s `URL_SAFE_NO_PAD` engine, `encode`.
#[verifier::external_body]
fn b64url_encode(b: &[u8]) -> (r: String)
    ensures
        r@ == b64url_of(b@),
{
    BASE64_URL_SAFE_NO_PAD.encode(b)
}

/// Relies on `base64`'s `URL_SAFE_NO_PAD` engine, `decode`: it takes exactly
/// the strings that `encode` gives (it refuses padding and non-zero trailing
/// bits) and returns the bytes they encode.
#[verifier::external_body]
fn b64url_decode(s: &str) -> (r: Option<Vec<u8>>)
    ensures
        forall|b: Seq<u8>| #[trigger] b64url_of(b) == s@ <==> (r matches Some(v) && v@ == b),
{
    BASE64_URL_SAFE_NO_PAD.decode(s).ok()
}

/// The HMAC-SHA256 tag of `msg` under `key`.
pub uninterp spec fn hmac_sha256_of(key: Seq<u8>, msg: Seq<u8>) -> Seq<u8>;

/// Relies on `hmac::Hmac<sha2::Sha256>`: `new_from_slice` takes a key of any
/// length, and `finalize` gives the 32-byte tag of what `update` fed it.
#[verifier::external_body]
fn hmac_sha256(key: &[u8], msg: &[u8]) -> (r: Vec<u8>)
    ensures
        r@ == hmac_sha256_of(key@, msg@),
        r@.len() == 32,
{
    let mut m = hmac::Hmac::<sha2::Sha256>::new_from_slice(key).unwrap();
    m.update(msg);
    m.finalize().into_bytes().to_vec()
}

/// Relies on `hmac::Hmac<sha2::Sha256>::verify_slice`: a constant-time
/// comparison of `tag` with the tag of `msg` under `key`.
#[verifier::external_body]
fn hmac_sha256_verify(key: &[u8], msg: &[u8], tag: &[u8]) -> (r: bool)
    ensures
        r == (tag@ == hmac_sha256_of(key@, msg@)),
{
    let mut m = hmac::Hmac::<sha2::Sha256>::new_from_slice(key).unwrap();
    m.update(msg);
    m.verify_slice(tag).is_ok()
}

/// What a deletion tag signs: the saved name's bytes, then the hash as
/// sixteen big-endian bytes.
pub open spec fn deletion_message(name: Seq<char>, hash: u128) -> Seq<u8> {
    encode_utf8(name) + be_bytes(hash as int, 16)
}

/// The bytes a deletion tag signs for `saved_name` and `hash`.
pub fn deletion_fields(saved_name: &str, hash: u128) -> (r: Vec<u8>)
    ensures
        r@ == deletion_message(saved_name@, hash),
{
    let b = saved_name.as_bytes();
    let mut out: Vec<u8> = Vec::new();
    let mut i: usize = 0;
    while i < b.len()
        invariant
            i <= b@.len(),
            b@ == encode_utf8(saved_name@),
            out@ == b@.take(i as int),
        decreases b@.len() - i,
    {
        out.push(b[i]);
        i = i + 1;
        assert(out@ =~= b@.take(i as int));
    }
    assert(b@.take(i as int) =~= b@);
    put_be(&mut out, hash, 16);
    out
}

/// The deletion link of an upload: `{base}/del?name={name}&hash={h}&hmac={t}`,
/// with the hash and its tag in URL-safe base64.
pub open spec fn deletion_url_of(base: Seq<char>, name: Seq<char>, hash: u128, key: Seq<u8>) -> Seq<
    char,
> {
    base + "/del?name="@ + name + "&hash="@ + b64url_of(be_bytes(hash as int, 16)) + "&hmac="@
        + b64url_of(hmac_sha256_of(key, deletion_message(name, hash)))
}

/// Builds the deletion link of the upload `saved_name` whose hash is `hash`.
pub fn deletion_url(base_url: &str, saved_name: &str, hash: u128, key: &[u8]) -> (r: String)
    ensures
        r@ == deletion_url_of(base_url@, saved_name@, hash, key@),
{
    let mut hash_bytes: Vec<u8> = Vec::new();
    put_be(&mut hash_bytes, hash, 16);
    assert(hash_bytes@ =~= be_bytes(hash as int, 16));
    let hash_b64 = b64url_encode(hash_bytes.as_slice());
    let fields = deletion_fields(saved_name, hash);
    let tag = hmac_sha256(key, fields.as_slice());
    let tag_b64 = b64url_encode(tag.as_slice());
    let mut url = String::from_str(base_url);
    url.append("/del?name=");
    url.append(saved_name);
    url.append("&hash=");
    url.append(hash_b64.as_str());
    url.append("&hmac=");
    url.append(tag_b64.as_str());
    url
}

/// Why a deletion request was turned down.
#[derive(Debug, PartialEq, Eq, Structural, Clone, Copy)]
pub enum DeleteRejection {
    /// The server has no deletion secret.
    Disabled,
    /// The tag is not valid base64.
    BadHmacEncoding,
    /// The hash is not valid base64.
    BadHashEncoding,
    /// The hash is not sixteen bytes.
    BadHashLength,
    /// The tag does not sign the name and hash.
    HmacInvalid,
    /// No upload has the name.
    NotFound,
    /// The upload's hash differs from the one in the link.
    HashMismatch,
}

impl DeleteRejection {
    /// The HTTP status code the rejection is answered with.
    pub fn status(&self) -> (r: u16)
        ensures
            r == match self {
                DeleteRejection::Disabled => 409u16,
                DeleteRejection::NotFound => 404u16,
                _ => 400u16,
            },
    {
        match self {
            DeleteRejection::Disabled => 409,
            DeleteRejection::NotFound => 404,
            _ => 400,
        }
    }

    /// The text the rejection is answered with.
    pub fn message(&self) -> (r: &'static str)
        ensures
            r@ == match self {
                DeleteRejection::Disabled => "Deletion is not enabled"@,
                DeleteRejection::BadHmacEncoding => "Could not decode hmac"@,
                DeleteRejection::BadHashEncoding => "Could not decode partial hash"@,
                DeleteRejection::BadHashLength => "Partial hash length is invalid"@,
                DeleteRejection::HmacInvalid => "Hmac is invalid"@,
                DeleteRejection::NotFound => "File not found"@,
                DeleteRejection::HashMismatch => "Partial hash did not match"@,
            },
    {
        match self {
            DeleteRejection::Disabled => "Deletion is not enabled",
            DeleteRejection::BadHmacEncoding => "Could not decode hmac",
            DeleteRejection::BadHashEncoding => "Could not decode partial hash",
            DeleteRejection::BadHashLength => "Partial hash length is invalid",
            DeleteRejection::HmacInvalid => "Hmac is invalid",
            DeleteRejection::NotFound => "File not found",
            DeleteRejection::HashMismatch => "Partial hash did not match",
        }
    }
}

/// The tag `hmac` and the hash `hash` are the encodings of a valid tag under
/// `key` for `name` and the hash `h`.
pub open spec fn token_signs(
    key: Seq<u8>,
    name: Seq<char>,
    hash: Seq<char>,
    hmac: Seq<char>,
    h: u128,
) -> bool {
    exists|hb: Seq<u8>|
        #![trigger b64url_of(hb)]
        b64url_of(hb) == hash && hb.len() == 16 && be_value(hb) == h && b64url_of(
            hmac_sha256_of(key, deletion_message(name, h)),
        ) == hmac
}

/// `s` is the URL-safe base64 of some bytes.
pub open spec fn is_b64url(s: Seq<char>) -> bool {
    exists|b: Seq<u8>| #[trigger] b64url_of(b) == s
}

/// `s` is the URL-safe base64 of bytes whose length is sixteen (`sixteen`) or
/// not sixteen (`!sixteen`).
pub open spec fn decodes_to_len(s: Seq<char>, sixteen: bool) -> bool {
    exists|b: Seq<u8>| #[trigger] b64url_of(b) == s && (b.len() == 16) == sixteen
}

/// Checks the signature of a deletion request for `name` carrying `hash`
/// and `hmac`; on success gives the hash the request names.
///
/// Decoding errors are reported first (the tag, then the hash), then a hash
/// that is not sixteen bytes, then a tag that does not sign the request.
pub fn verify_token(key: Option<&[u8]>, name: &str, hash: &str, hmac: &str) -> (r: Result<
    u128,
    DeleteRejection,
>)
    ensures
        key is None ==> r == Err::<u128, DeleteRejection>(DeleteRejection::Disabled),
        key matches Some(k) ==> forall|h: u128|
            #[trigger] token_signs(k@, name@, hash@, hmac@, h) <==> r == Ok::<u128, DeleteRejection>(h),
        key matches Some(k) ==> ((exists|h: u128| token_signs(k@, name@, hash@, hmac@, h)) <==> r is Ok),
        // the rejections, in the order the checks run
        key is Some && !is_b64url(hmac@) ==> r == Err::<u128, DeleteRejection>(
            DeleteRejection::BadHmacEncoding,
        ),
        key is Some && is_b64url(hmac@) && !is_b64url(hash@) ==> r == Err::<u128, DeleteRejection>(
            DeleteRejection::BadHashEncoding,
        ),
        key is Some && is_b64url(hmac@) && decodes_to_len(hash@, false) ==> r == Err::<
            u128,
            DeleteRejection,
        >(DeleteRejection::BadHashLength),
        key matches Some(k) && is_b64url(hmac@) && decodes_to_len(hash@, true) && !(exists|h: u128|
            token_signs(k@, name@, hash@, hmac@, h)) ==> r == Err::<u128, DeleteRejection>(
            DeleteRejection::HmacInvalid,
        ),
{
    let key = match key {
        Some(k) => k,
        None => return Err(DeleteRejection::Disabled),
    };
    let provided_hmac = match b64url_decode(hmac) {
        Some(v) => v,
        None => {
            assert forall|h: u128| !token_signs(key@, name@, hash@, hmac@, h) by {
                assert(b64url_of(hmac_sha256_of(key@, deletion_message(name@, h))) != hmac@);
            }
            return Err(DeleteRejection::BadHmacEncoding);
        },
    };
    assert(b64url_of(provided_hmac@) == hmac@);
    let hash_data = match b64url_decode(hash) {
        Some(v) => v,
        None => {
            assert forall|h: u128| !token_signs(key@, name@, hash@, hmac@, h) by {
                if token_signs(key@, name@, hash@, hmac@, h) {
                    let hb = choose|hb: Seq<u8>|
                        #![trigger b64url_of(hb)]
                        b64url_of(hb) == hash@ && hb.len() == 16 && be_value(hb) == h && b64url_of(
                            hmac_sha256_of(key@, deletion_message(name@, h)),
                        ) == hmac@;
                    assert(b64url_of(hb) == hash@);
                }
            }
            return Err(DeleteRejection::BadHashEncoding);
        },
    };
    assert(b64url_of(hash_data@) == hash@);
    assert forall|b: Seq<u8>| #[trigger] b64url_of(b) == hash@ implies b == hash_data@ by {}
    if hash_data.len() != 16 {
        assert forall|h: u128| !token_signs(key@, name@, hash@, hmac@, h) by {
            if token_signs(key@, name@, hash@, hmac@, h) {
                let hb = choose|hb: Seq<u8>|
                    #![trigger b64url_of(hb)]
                    b64url_of(hb) == hash@ && hb.len() == 16 && be_value(hb) == h && b64url_of(
                        hmac_sha256_of(key@, deletion_message(name@, h)),
                    ) == hmac@;
                assert(b64url_of(hb) == hash@);
            }
        }
        return Err(DeleteRejection::BadHashLength);
    }
    let provided_hash = read_be128(&hash_data);
    proof {
        lemma_be128_fits(hash_data@);
        lemma_be_round_trip(provided_hash as int, 16);
        lemma_pow256_16(0);
        vstd::arithmetic::div_mod::lemma_small_mod(provided_hash as nat, pow256(16) as nat);
        lemma_be_value_injective(be_bytes(provided_hash as int, 16), hash_data@);
    }
    let fields = deletion_fields(name, provided_hash);
    if hmac_sha256_verify(key, fields.as_slice(), provided_hmac.as_slice()) {
        assert(b64url_of(hash_data@) == hash@);
        assert(token_signs(key@, name@, hash@, hmac@, provided_hash));
        assert forall|h: u128| token_signs(key@, name@, hash@, hmac@, h) implies h
            == provided_hash by {
            let hb = choose|hb: Seq<u8>|
                #![trigger b64url_of(hb)]
                b64url_of(hb) == hash@ && hb.len() == 16 && be_value(hb) == h && b64url_of(
                    hmac_sha256_of(key@, deletion_message(name@, h)),
                ) == hmac@;
            assert(b64url_of(hb) == hash@);
        }
        Ok(provided_hash)
    } else {
        assert forall|h: u128| !token_signs(key@, name@, hash@, hmac@, h) by {
            if token_signs(key@, name@, hash@, hmac@, h) {
                let hb = choose|hb: Seq<u8>|
                    #![trigger b64url_of(hb)]
                    b64url_of(hb) == hash@ && hb.len() == 16 && be_value(hb) == h && b64url_of(
                        hmac_sha256_of(key@, deletion_message(name@, h)),
                    ) == hmac@;
                assert(b64url_of(hb) == hash@);
                let t = hmac_sha256_of(key@, deletion_message(name@, h));
                assert(b64url_of(t) == hmac@);
            }
        }
        Err(DeleteRejection::HmacInvalid)
    }
}

/// Reads sixteen bytes as a big-endian number.
fn read_be128(b: &Vec<u8>) -> (r: u128)
    requires
        b@.len() == 16,
    ensures
        r == be_value(b@),
{
    let mut r: u128 = 0;
    let mut i: usize = 0;
    while i < 16
        invariant
            b@.len() == 16,
            i <= 16,
            r == be_value(b@.take(i as int)),
            be_value(b@.take(i as int)) < pow256(i as nat),
        decreases 16 - i,
    {
        proof {
            assert(b@.take(i + 1).drop_last() =~= b@.take(i as int));
            lemma_be_value_bound(b@.take(i + 1));
            lemma_pow256_16(i as nat);
        }
        r = r * 256 + b[i] as u128;
        i = i + 1;
    }
    assert(b@.take(16) =~= b@);
    r
}

proof fn lemma_be_value_bound(b: Seq<u8>)
    ensures
        0 <= be_value(b) < pow256(b.len()),
    decreases b.len(),
{
    if b.len() > 0 {
        lemma_be_value_bound(b.drop_last());
    }
}

proof fn lemma_pow256_16(i: nat)
    requires
        i < 16,
    ensures
        pow256(i) * 256 <= pow256(16),
        pow256(16) == 0x1_0000_0000_0000_0000_0000_0000_0000_0000,
    decreases 16 - i,
{
    reveal_with_fuel(pow256, 17);
    assert(pow256(16) == 0x1_0000_0000_0000_0000_0000_0000_0000_0000);
    if i < 15 {
        lemma_pow256_16(i + 1);
        assert(pow256(i + 1) == pow256(i) * 256);
        assert(pow256(i) * 256 * 256 <= pow256(16));
        assert(pow256(i) > 0) by {
            lemma_pow256_positive(i);
        }
    }
}

proof fn lemma_be128_fits(b: Seq<u8>)
    requires
        b.len() == 16,
    ensures
        0 <= be_value(b) < pow256(16),
{
    lemma_be_value_bound(b);
}

/// Two byte strings of one length that spell the same number are equal.
proof fn lemma_be_value_injective(a: Seq<u8>, b: Seq<u8>)
    requires
        a.len() == b.len(),
        be_value(a) == be_value(b),
    ensures
        a == b,
    decreases a.len(),
{
    if a.len() > 0 {
        lemma_be_value_bound(a.drop_last());
        lemma_be_value_bound(b.drop_last());
        assert(a.last() == b.last());
        lemma_be_value_injective(a.drop_last(), b.drop_last());
        assert(a =~= a.drop_last().push(a.last()));
        assert(b =~= b.drop_last().push(b.last()));
    }
}

/// The hash check that follows a valid signature: the upload must exist and
/// its hash must be the one the request names.
pub fn check_hash(provided: u128, actual: Option<u128>) -> (r: Result<(), DeleteRejection>)
    ensures
        r == (match actual {
            None => Err(DeleteRejection::NotFound),
            Some(a) => if a == provided {
                Ok(())
            } else {
                Err(DeleteRejection::HashMismatch)
            },
        }),
{
    match actual {
        None => Err(DeleteRejection::NotFound),
        Some(a) => if a == provided {
            Ok(())
        } else {
            Err(DeleteRejection::HashMismatch)
        },
    }
}

/// A deletion link minted for `name` and `hash` carries a hash field and a
/// tag that verify under the same key, and they name that hash.
pub proof fn lemma_minted_link_verifies(key: Seq<u8>, name: Seq<char>, hash: u128)
    ensures
        token_signs(
            key,
            name,
            b64url_of(be_bytes(hash as int, 16)),
            b64url_of(hmac_sha256_of(key, deletion_message(name, hash))),
            hash,
        ),
{
    lemma_be_round_trip(hash as int, 16);
    lemma_pow256_16(0);
    vstd::arithmetic::div_mod::lemma_small_mod(hash as nat, pow256(16) as nat);
    let hb = be_bytes(hash as int, 16);
    assert(b64url_of(hb) == b64url_of(be_bytes(hash as int, 16)));
}

} // verus!
