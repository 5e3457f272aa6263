//! Signing a request to an S3-compatible store.
use crate::ambient::{hex_digit, in_calendar};
use crate::text::concat;
use hmac::Mac;
use sha2::Digest;
use vstd::prelude::*;
use vstd::string::StringExecFns;

verus! {

/// How an instant is written with its time of day.
pub const STAMP_FORM: &'static str = "[year][month][day]T[hour][minute][second]Z";

/// How the day of an instant is written.
pub const DAY_FORM: &'static str = "[year][month][day]";

/// The digest of a text.
pub uninterp spec fn text_digest(t: Seq<char>) -> Seq<u8>;

/// The code that a key gives a text.
pub uninterp spec fn text_code(key: Seq<u8>, t: Seq<char>) -> Seq<u8>;

/// An instant, in nanoseconds since the Unix epoch, in a form.
pub uninterp spec fn instant_text(nanos: int, form: Seq<char>) -> Seq<char>;

/// The SHA-256 digest of a text, by `sha2::Sha256::digest` on its UTF-8 bytes. Claims
/// that the digest depends on the text alone and has 32 bytes.
#[verifier::external_body]
pub(crate) fn digest_of(t: &str) -> (r: Vec<u8>)
    ensures
        r@ == text_digest(t@),
        r@.len() == 32,
{
    sha2::Sha256::digest(t.as_bytes()).to_vec()
}

/// The HMAC-SHA-256 code of a text, by `hmac::Hmac`, on its UTF-8 bytes: a key of any
/// length is accepted. Claims that the code depends on the key and the text alone and
/// has 32 bytes.
#[verifier::external_body]
pub(crate) fn code_of(key: &Vec<u8>, t: &str) -> (r: Vec<u8>)
    ensures
        r@ == text_code(key@, t@),
        r@.len() == 32,
{
    let mut m = <hmac::Hmac<sha2::Sha256> as Mac>::new_from_slice(key).unwrap();
    m.update(t.as_bytes());
    m.finalize().into_bytes().to_vec()
}

/// Bytes in hexadecimal digits, two for each.
pub open spec fn hex_text(bytes: Seq<u8>) -> Seq<char> {
    Seq::new(
        2 * bytes.len(),
        |i: int|
            hex_digit(
                if i % 2 == 0 {
                    bytes[i / 2] as int / 16
                } else {
                    bytes[i / 2] as int % 16
                },
            ),
    )
}

/// Bytes in hexadecimal, by `hex::encode`. Claims that each byte becomes two digits in
/// lower case, the higher first.
#[verifier::external_body]
pub(crate) fn hex_of(bytes: &Vec<u8>) -> (r: String)
    ensures
        r@ == hex_text(bytes@),
{
    hex::encode(bytes)
}

/// An instant in one of the two forms, by `time::OffsetDateTime::format`, in UTC.
/// Claims that the outcome depends on the instant and the form alone; how the form is
/// filled is left unsaid.
#[verifier::external_body]
pub(crate) fn format_instant(nanos: i128, form: &str) -> (r: String)
    requires
        in_calendar(nanos as int),
        form@ == STAMP_FORM@ || form@ == DAY_FORM@,
    ensures
        r@ == instant_text(nanos as int, form@),
{
    let items = time::format_description::parse(form).unwrap();
    time::OffsetDateTime::from_unix_timestamp_nanos(nanos).unwrap().format(&items).unwrap()
}

/// The headers whose values are signed.
pub const SIGNED_HEADERS: &'static str = "host;x-amz-content-sha256;x-amz-date";

/// What a signature holds for: a day, the region and the service.
pub open spec fn scope_text(day: Seq<char>) -> Seq<char> {
    day + "/us-east-1/s3/aws4_request"@
}

/// The request as it is signed.
pub open spec fn canonical_request(
    bucket: Seq<char>,
    host: Seq<char>,
    payload_hash: Seq<char>,
    stamp: Seq<char>,
) -> Seq<char> {
    "PUT\n/"@ + bucket + "\n\nhost:"@ + host + "\nx-amz-content-sha256:"@ + payload_hash
        + "\nx-amz-date:"@ + stamp + "\n\n"@ + SIGNED_HEADERS@ + "\n"@ + payload_hash
}

/// The text that is signed.
pub open spec fn text_to_sign(stamp: Seq<char>, day: Seq<char>, request: Seq<char>) -> Seq<char> {
    "AWS4-HMAC-SHA256\n"@ + stamp + "\n"@ + scope_text(day) + "\n"@ + hex_text(text_digest(request))
}

/// The key that signs, made from the secret for the day, the region and the service.
pub open spec fn signing_key(secret_bytes: Seq<u8>, day: Seq<char>) -> Seq<u8> {
    text_code(
        text_code(text_code(text_code(secret_bytes, day), "us-east-1"@), "s3"@),
        "aws4_request"@,
    )
}

/// The headers of a signed request.
pub struct SignedRequest {
    pub payload_hash: String,
    pub stamp: String,
    pub authorization: String,
}

/// The headers of the request that makes a bucket, at the instant `now`.
pub fn create_bucket(bucket: &str, host: &str, access_key: &str, secret_key: &str, now: i128) -> (r:
    SignedRequest)
    requires
        in_calendar(now as int),
    ensures
        r.payload_hash@ == hex_text(text_digest(""@)),
        r.stamp@ == instant_text(now as int, STAMP_FORM@),
        ({
            let day = instant_text(now as int, DAY_FORM@);
            let signed = text_to_sign(
                r.stamp@,
                day,
                canonical_request(bucket@, host@, r.payload_hash@, r.stamp@),
            );
            let key = signing_key(vstd::utf8::encode_utf8("AWS4"@ + secret_key@), day);
            r.authorization@ == "AWS4-HMAC-SHA256 Credential="@ + access_key@ + "/"@ + scope_text(day)
                + ", SignedHeaders="@ + SIGNED_HEADERS@ + ", Signature="@ + hex_text(
                text_code(key, signed),
            )
        }),
{
    let stamp: String = format_instant(now, STAMP_FORM);
    let day: String = format_instant(now, DAY_FORM);
    let payload_hash: String = hex_of(&digest_of(""));
    let mut request: String = "PUT\n/".to_owned();
    request.append(bucket);
    request.append("\n\nhost:");
    request.append(host);
    request.append("\nx-amz-content-sha256:");
    request.append(payload_hash.as_str());
    request.append("\nx-amz-date:");
    request.append(stamp.as_str());
    request.append("\n\n");
    request.append(SIGNED_HEADERS);
    request.append("\n");
    request.append(payload_hash.as_str());
    let scope: String = concat(day.as_str(), "/us-east-1/s3/aws4_request");
    let mut signed: String = "AWS4-HMAC-SHA256\n".to_owned();
    signed.append(stamp.as_str());
    signed.append("\n");
    signed.append(scope.as_str());
    signed.append("\n");
    signed.append(hex_of(&digest_of(request.as_str())).as_str());
    let secret: Vec<u8> = concat("AWS4", secret_key).as_str().as_bytes_vec();
    let day_key: Vec<u8> = code_of(&secret, day.as_str());
    let region_key: Vec<u8> = code_of(&day_key, "us-east-1");
    let service_key: Vec<u8> = code_of(&region_key, "s3");
    let key: Vec<u8> = code_of(&service_key, "aws4_request");
    let signature: String = hex_of(&code_of(&key, signed.as_str()));
    let mut authorization: String = "AWS4-HMAC-SHA256 Credential=".to_owned();
    authorization.append(access_key);
    authorization.append("/");
    authorization.append(scope.as_str());
    authorization.append(", SignedHeaders=");
    authorization.append(SIGNED_HEADERS);
    authorization.append(", Signature=");
    authorization.append(signature.as_str());
    SignedRequest { payload_hash, stamp, authorization }
}

/// Whether making a bucket succeeded, by the status of the answer: it is there
/// already, or it is now.
pub fn bucket_made(status: u16) -> (r: bool)
    ensures
        r == (200 <= status < 300 || status == 409),
{
    (200 <= status && status < 300) || status == 409
}

} // verus!
