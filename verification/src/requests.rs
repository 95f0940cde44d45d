//! Checks and normalisation of what the web portal submits: identifiers,
//! uploaded IPA and pairing files (Base64), addresses and URLs.

use vstd::prelude::*;
use crate::text::{push_char, push_str};

verus! {

/// Why a request from the portal was refused.
#[derive(Debug, PartialEq, Eq, Structural, Clone, Copy)]
pub enum RequestError {
    /// No device was named.
    EmptyDeviceId,
    /// No account was chosen.
    EmptyAccountId,
    /// The upload is not valid Base64.
    InvalidBase64,
    /// The uploaded IPA is empty.
    EmptyIpa,
    /// The upload does not start like a zip archive.
    NotAnIpa,
    /// The address is blank.
    EmptyIp,
    /// The URL is blank.
    EmptyUrl,
}

/// What standard Base64 (with padding) decodes `text` to, if it is valid.
pub uninterp spec fn base64_decoded(text: Seq<char>) -> Option<Seq<u8>>;

/// `base64::engine::general_purpose::STANDARD.decode`. The result depends on
/// the text alone.
#[verifier::external_body]
fn base64_decode_raw(text: &str) -> (r: Option<Vec<u8>>)
    ensures
        match r {
            Some(b) => base64_decoded(text@) == Some(b@),
            None => base64_decoded(text@) is None,
        },
{
    base64::Engine::decode(&base64::engine::general_purpose::STANDARD, text).ok()
}

/// The standard Base64 text (with padding) of `data`.
pub uninterp spec fn base64_text(data: Seq<u8>) -> Seq<char>;

/// `base64::engine::general_purpose::STANDARD.encode`. The text depends on the
/// bytes alone, and decoding it with the same engine gives the bytes back.
#[verifier::external_body]
fn base64_encode_raw(data: &[u8]) -> (r: String)
    ensures
        r@ == base64_text(data@),
        base64_decoded(r@) == Some(data@),
{
    base64::Engine::encode(&base64::engine::general_purpose::STANDARD, data)
}

/// Decodes standard Base64 (with padding): `None` when `text` is not valid.
pub fn decode_base64(text: &str) -> (r: Option<Vec<u8>>)
    ensures
        match r {
            Some(b) => base64_decoded(text@) == Some(b@),
            None => base64_decoded(text@) is None,
        },
{
    base64_decode_raw(text)
}

/// The standard Base64 text (with padding) of `data`, in which files are
/// handed to the browser and kept in the settings table; it decodes back to
/// `data`.
pub fn encode_base64(data: &[u8]) -> (r: String)
    ensures
        r@ == base64_text(data@),
        base64_decoded(r@) == Some(data@),
{
    base64_encode_raw(data)
}

/// The identifiers of an install request must not be empty.
pub fn check_install_target(device_id: &str, account_id: &str) -> (r: Result<(), RequestError>)
    ensures
        r == (if device_id@.len() == 0 {
            Err(RequestError::EmptyDeviceId)
        } else if account_id@.len() == 0 {
            Err(RequestError::EmptyAccountId)
        } else {
            Ok(())
        }),
{
    if device_id.is_empty() {
        return Err(RequestError::EmptyDeviceId);
    }
    if account_id.is_empty() {
        return Err(RequestError::EmptyAccountId);
    }
    Ok(())
}

/// The first four bytes of a zip archive (and so of an IPA).
pub open spec fn zip_magic() -> Seq<u8> {
    seq![0x50u8, 0x4Bu8, 0x03u8, 0x04u8]
}

/// An uploaded IPA must not be empty and must start like a zip archive.
pub open spec fn ipa_upload_check(bytes: Seq<u8>) -> Result<(), RequestError> {
    if bytes.len() == 0 {
        Err(RequestError::EmptyIpa)
    } else if bytes.len() < 4 || bytes.take(4) != zip_magic() {
        Err(RequestError::NotAnIpa)
    } else {
        Ok(())
    }
}

/// Checks an uploaded IPA before anything is done with it.
pub fn check_ipa_bytes(bytes: &[u8]) -> (r: Result<(), RequestError>)
    ensures
        r == ipa_upload_check(bytes@),
{
    if bytes.len() == 0 {
        return Err(RequestError::EmptyIpa);
    }
    if bytes.len() < 4 {
        return Err(RequestError::NotAnIpa);
    }
    let ok = bytes[0] == 0x50 && bytes[1] == 0x4B && bytes[2] == 0x03 && bytes[3] == 0x04;
    if !ok {
        assert(bytes@.take(4) != zip_magic()) by {
            if bytes@.take(4) == zip_magic() {
                assert(bytes@.take(4)[0] == 0x50 && bytes@.take(4)[1] == 0x4B);
                assert(bytes@.take(4)[2] == 0x03 && bytes@.take(4)[3] == 0x04);
            }
        }
        return Err(RequestError::NotAnIpa);
    }
    assert(bytes@.take(4) =~= zip_magic());
    Ok(())
}

/// Decodes an uploaded IPA from Base64 and checks it.
pub fn decode_ipa_upload(text: &str) -> (r: Result<Vec<u8>, RequestError>)
    ensures
        match base64_decoded(text@) {
            None => r == Err::<Vec<u8>, RequestError>(RequestError::InvalidBase64),
            Some(b) => match ipa_upload_check(b) {
                Ok(()) => r matches Ok(v) && v@ == b,
                Err(e) => r == Err::<Vec<u8>, RequestError>(e),
            },
        },
{
    let bytes = match decode_base64(text) {
        Some(b) => b,
        None => return Err(RequestError::InvalidBase64),
    };
    match check_ipa_bytes(bytes.as_slice()) {
        Ok(()) => Ok(bytes),
        Err(e) => Err(e),
    }
}

/// Decodes an uploaded pairing file from Base64.
pub fn decode_pairing_upload(text: &str) -> (r: Result<Vec<u8>, RequestError>)
    ensures
        match base64_decoded(text@) {
            None => r == Err::<Vec<u8>, RequestError>(RequestError::InvalidBase64),
            Some(b) => r matches Ok(v) && v@ == b,
        },
{
    match decode_base64(text) {
        Some(b) => Ok(b),
        None => Err(RequestError::InvalidBase64),
    }
}

/// Unicode `White_Space`, the characters `str::trim` removes.
pub open spec fn is_white_space(c: char) -> bool {
    let u = c as u32;
    ||| 0x09 <= u <= 0x0D
    ||| u == 0x20
    ||| u == 0x85
    ||| u == 0xA0
    ||| u == 0x1680
    ||| 0x2000 <= u <= 0x200A
    ||| u == 0x2028
    ||| u == 0x2029
    ||| u == 0x202F
    ||| u == 0x205F
    ||| u == 0x3000
}

fn white_space(c: char) -> (r: bool)
    ensures
        r == is_white_space(c),
{
    let u = c as u32;
    (0x09 <= u && u <= 0x0D) || u == 0x20 || u == 0x85 || u == 0xA0 || u == 0x1680 || (0x2000 <= u && u
        <= 0x200A) || u == 0x2028 || u == 0x2029 || u == 0x202F || u == 0x205F || u == 0x3000
}

/// `s` without leading white space.
pub open spec fn trim_start(s: Seq<char>) -> Seq<char>
    decreases s.len(),
{
    if s.len() > 0 && is_white_space(s[0]) {
        trim_start(s.drop_first())
    } else {
        s
    }
}

/// `s` without trailing white space.
pub open spec fn trim_end(s: Seq<char>) -> Seq<char>
    decreases s.len(),
{
    if s.len() > 0 && is_white_space(s.last()) {
        trim_end(s.drop_last())
    } else {
        s
    }
}

/// `s` without leading and trailing white space.
pub open spec fn trimmed(s: Seq<char>) -> Seq<char> {
    trim_end(trim_start(s))
}

/// `s` without leading and trailing white space.
pub fn trim(s: &str) -> (r: String)
    ensures
        r@ == trimmed(s@),
{
    let n = s.unicode_len();
    let mut a: usize = 0;
    assert(s@.skip(0) =~= s@);
    while a < n && white_space(s.get_char(a))
        invariant
            n == s@.len(),
            a <= n,
            trim_start(s@) == trim_start(s@.skip(a as int)),
        decreases n - a,
    {
        assert(s@.skip(a as int).drop_first() =~= s@.skip(a + 1));
        a = a + 1;
    }
    let ghost t = s@.skip(a as int);
    assert(trim_start(s@) == t);
    let mut b: usize = n;
    assert(t.take((b - a) as int) =~= t);
    while b > a && white_space(s.get_char(b - 1))
        invariant
            n == s@.len(),
            a <= b <= n,
            t == s@.skip(a as int),
            trim_end(t) == trim_end(t.take(b - a)),
        decreases b,
    {
        assert(t.take(b - a).last() == s@[b - 1]);
        assert(t.take(b - a).drop_last() =~= t.take(b - 1 - a));
        b = b - 1;
    }
    assert(trim_end(t.take(b - a)) == t.take(b - a));
    let mut r = String::new();
    let mut i: usize = a;
    while i < b
        invariant
            a <= i <= b,
            b <= n,
            n == s@.len(),
            t == s@.skip(a as int),
            r@ == t.take(i - a),
        decreases b - i,
    {
        push_char(&mut r, s.get_char(i));
        assert(t.take(i + 1 - a) =~= t.take(i - a).push(s@[i as int]));
        i = i + 1;
    }
    r
}

/// A device address as entered: trimmed, and refused when blank.
pub fn normalize_device_ip(ip: &str) -> (r: Result<String, RequestError>)
    ensures
        if trimmed(ip@).len() == 0 {
            r == Err::<String, RequestError>(RequestError::EmptyIp)
        } else {
            r matches Ok(s) && s@ == trimmed(ip@)
        },
{
    let t = trim(ip);
    if t.as_str().is_empty() {
        Err(RequestError::EmptyIp)
    } else {
        Ok(t)
    }
}

/// An anisette server URL as entered: trimmed, and refused when blank.
pub fn normalize_anisette_url(url: &str) -> (r: Result<String, RequestError>)
    ensures
        if trimmed(url@).len() == 0 {
            r == Err::<String, RequestError>(RequestError::EmptyUrl)
        } else {
            r matches Ok(s) && s@ == trimmed(url@)
        },
{
    let t = trim(url);
    if t.as_str().is_empty() {
        Err(RequestError::EmptyUrl)
    } else {
        Ok(t)
    }
}

/// The anisette server used when none was saved.
pub fn default_anisette_url() -> (r: String)
    ensures
        r@ == "https://ani.stikstore.app"@,
{
    String::from_str("https://ani.stikstore.app")
}

/// The anisette server to use: the saved one, else the default.
pub fn anisette_url_or_default(saved: Option<String>) -> (r: String)
    ensures
        r@ == (match saved {
            Some(s) => s@,
            None => "https://ani.stikstore.app"@,
        }),
{
    match saved {
        Some(s) => s,
        None => default_anisette_url(),
    }
}

/// Where a stored IPA for `bundle_id` is kept in `dir`.
pub fn stored_ipa_path(dir: &str, bundle_id: &str) -> (r: String)
    ensures
        r@ == dir@ + "/"@ + bundle_id@ + ".ipa"@,
{
    let mut r = String::from_str(dir);
    push_str(&mut r, "/");
    push_str(&mut r, bundle_id);
    push_str(&mut r, ".ipa");
    r
}

/// Where an IPA that is not kept is written while it installs.
pub fn ephemeral_ipa_path(id: &str) -> (r: String)
    ensures
        r@ == "/tmp/jas_"@ + id@ + ".ipa"@,
{
    let mut r = String::from_str("/tmp/jas_");
    push_str(&mut r, id);
    push_str(&mut r, ".ipa");
    r
}

/// Where an uploaded IPA goes. A stored IPA is kept in `dir` under its bundle
/// identifier, and the app row records that path so the scheduler can refresh
/// it later. An ephemeral IPA is written to a temporary file for the install
/// only; the app row records no path, so the scheduler skips the app.
/// Returns the path to record on the app row and the path the install job reads.
pub fn upload_destination(store: bool, dir: &str, bundle_id: &str, temp_id: &str) -> (r: (Option<String>, String))
    ensures
        store ==> r.0 == Some(r.1) && r.1@ == dir@ + "/"@ + bundle_id@ + ".ipa"@,
        !store ==> r.0 is None && r.1@ == "/tmp/jas_"@ + temp_id@ + ".ipa"@,
{
    if store {
        let p = stored_ipa_path(dir, bundle_id);
        (Some(p.clone()), p)
    } else {
        (None, ephemeral_ipa_path(temp_id))
    }
}

} // verus!
