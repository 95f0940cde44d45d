//! Choices made while signing, installing and refreshing apps on a device:
//! which address to reach it at, where Apple-ID-scoped state is stored,
//! whether a cached developer token can be reused, and where a signed IPA is
//! staged.

use vstd::prelude::*;
use crate::text::{push_char, push_str, str_eq};
use crate::ipa::lookup_text;
use vstd::string::StringSliceAdditionalSpecFns;

verus! {

/// The RemotePairing port every device is reached on.
pub const PAIRING_PORT: u16 = 49152;

/// The SHA-256 digest of `data`.
pub uninterp spec fn sha256_of(data: Seq<u8>) -> Seq<u8>;

/// `sha2::Sha256::digest`: the SHA-256 digest of `data`, 32 bytes long.
#[verifier::external_body]
fn sha256_digest(data: &[u8]) -> (r: Vec<u8>)
    ensures
        r@ == sha256_of(data@),
        r@.len() == 32,
{
    <sha2::Sha256 as sha2::Digest>::digest(data).to_vec()
}

/// Whether `bytes` is a RemotePairing record that `idevice` accepts.
pub uninterp spec fn pairing_record_accepted(bytes: Seq<u8>) -> bool;

/// `idevice::remote_pairing::RpPairingFile::from_bytes` succeeds: the bytes
/// are a property list with 32-byte `public_key` and `private_key` data and a
/// string `identifier`. The outcome depends on the bytes alone.
#[verifier::external_body]
fn parse_pairing_record(bytes: &[u8]) -> (r: bool)
    ensures
        r == pairing_record_accepted(bytes@),
{
    idevice::remote_pairing::RpPairingFile::from_bytes(bytes).is_ok()
}

/// A pairing record that could not be used.
#[derive(Debug, PartialEq, Eq, Structural, Clone, Copy)]
pub enum PairingError {
    /// The uploaded file is not a valid RemotePairing record.
    InvalidPairingFile,
}

/// Checks that an uploaded pairing file is a structurally valid RemotePairing
/// record.
pub fn validate_pairing_bytes(bytes: &[u8]) -> (r: Result<(), PairingError>)
    ensures
        r is Ok <==> pairing_record_accepted(bytes@),
        r is Err ==> r == Err::<(), PairingError>(PairingError::InvalidPairingFile),
{
    if parse_pairing_record(bytes) {
        Ok(())
    } else {
        Err(PairingError::InvalidPairingFile)
    }
}

/// The lower-case hex digit for a value below sixteen.
pub open spec fn hex_digit(d: nat) -> char {
    if d < 10 {
        (48 + d) as char
    } else {
        (87 + d) as char
    }
}

/// Lower-case hex: two digits per byte, the high half first.
pub open spec fn hex_lower(data: Seq<u8>) -> Seq<char>
    decreases data.len(),
{
    if data.len() == 0 {
        Seq::empty()
    } else {
        seq![hex_digit((data[0] / 16) as nat), hex_digit((data[0] % 16) as nat)] + hex_lower(data.drop_first())
    }
}

/// `hex::encode`: each byte as two lower-case hex digits, high half first.
#[verifier::external_body]
fn hex_encode(data: &[u8]) -> (r: String)
    ensures
        r@ == hex_lower(data@),
{
    hex::encode(data)
}

/// The storage prefix of an Apple ID: the hex SHA-256 of its UTF-8 bytes.
pub open spec fn storage_prefix_of(apple_id: &str) -> Seq<char> {
    hex_lower(sha256_of(apple_id.spec_bytes()))
}

/// The prefix under which anisette state and cached tokens of one Apple ID are
/// stored. It is the same on every run, so persisted state stays matched to
/// the session it was made for.
pub fn account_storage_prefix(apple_id: &str) -> (r: String)
    ensures
        r@ == storage_prefix_of(apple_id),
{
    let digest = sha256_digest(apple_id.as_bytes());
    hex_encode(digest.as_slice())
}

proof fn lemma_hex_shape(data: Seq<u8>)
    ensures
        hex_lower(data).len() == 2 * data.len(),
        forall|k: int| 0 <= k < hex_lower(data).len() ==> is_lower_hex(#[trigger] hex_lower(data)[k]),
    decreases data.len(),
{
    if data.len() > 0 {
        lemma_hex_shape(data.drop_first());
        let h = hex_lower(data);
        let rest = hex_lower(data.drop_first());
        assert forall|k: int| 0 <= k < h.len() implies is_lower_hex(#[trigger] h[k]) by {
            if k >= 2 {
                assert(h[k] == rest[k - 2]);
            }
        }
    }
}

/// `c` is one of `0`-`9`, `a`-`f`.
pub open spec fn is_lower_hex(c: char) -> bool {
    ('0' <= c && c <= '9') || ('a' <= c && c <= 'f')
}

/// Every Apple ID's storage prefix is 64 lower-case hex digits.
pub proof fn lemma_storage_prefix_shape(apple_id: &str, digest: Seq<u8>)
    requires
        digest == sha256_of(apple_id.spec_bytes()),
        digest.len() == 32,
    ensures
        storage_prefix_of(apple_id).len() == 64,
        forall|k: int| 0 <= k < 64 ==> is_lower_hex(#[trigger] storage_prefix_of(apple_id)[k]),
{
    lemma_hex_shape(digest);
}

/// A cached `xcode.auth` token.
#[derive(Debug)]
pub struct CachedXcodeToken {
    pub token: String,
    pub adsid: String,
    /// When the token expires, in Unix milliseconds.
    pub expiry: u64,
    pub duration: u64,
}

/// A token is fresh while it expires more than a minute after `now_ms`.
pub open spec fn fresh_at(expiry: u64, now_ms: u64) -> bool {
    expiry > (if now_ms + 60000 > u64::MAX { u64::MAX as int } else { now_ms + 60000 })
}

impl CachedXcodeToken {
    /// Whether the token can still be used at `now_ms` (Unix milliseconds).
    pub fn is_fresh_at(&self, now_ms: u64) -> (r: bool)
        ensures
            r == fresh_at(self.expiry, now_ms),
    {
        self.expiry > now_ms.saturating_add(60000)
    }

    /// Whether the token can still be used now; a clock that reads a time
    /// before 1970 counts as the end of time, so the token is then stale.
    pub fn is_fresh(&self) -> (r: bool)
        ensures
            exists|now_ms: u64| r == #[trigger] fresh_at(self.expiry, now_ms),
    {
        let now_ms = match crate::clock::now_unix_millis() {
            Some(t) => t,
            None => u64::MAX,
        };
        let r = self.is_fresh_at(now_ms);
        assert(r == fresh_at(self.expiry, now_ms));
        r
    }
}

/// The addresses to try, in order, to open a tunnel to a device: its mDNS LAN
/// address first when it has one that differs from its manual address, and
/// always its manual address last.
pub open spec fn tunnel_candidates(manual_ip: Seq<char>, mdns_ip: Option<Seq<char>>) -> Seq<Seq<char>> {
    match mdns_ip {
        Some(ip) => if ip != manual_ip {
            seq![ip, manual_ip]
        } else {
            seq![manual_ip]
        },
        None => seq![manual_ip],
    }
}

/// The addresses to try, in order, to open a tunnel to a device or to probe
/// whether it is reachable.
pub fn connection_candidates(manual_ip: &str, mdns_ip: Option<&str>) -> (r: Vec<String>)
    ensures
        r@.map_values(|s: String| s@) == tunnel_candidates(manual_ip@, crate::registry::opt_str_view(mdns_ip)),
{
    let mut r: Vec<String> = Vec::new();
    if let Some(ip) = mdns_ip {
        if !str_eq(ip, manual_ip) {
            r.push(ip.to_owned());
        }
    }
    r.push(manual_ip.to_owned());
    assert(r@.map_values(|s: String| s@) =~= tunnel_candidates(manual_ip@, crate::registry::opt_str_view(mdns_ip)));
    r
}

/// A device is tried at one or two addresses, the manual address last, and at
/// its mDNS address first when that differs.
pub proof fn lemma_manual_address_last(manual_ip: Seq<char>, mdns_ip: Option<Seq<char>>)
    ensures
        1 <= tunnel_candidates(manual_ip, mdns_ip).len() <= 2,
        tunnel_candidates(manual_ip, mdns_ip).last() == manual_ip,
        mdns_ip is Some && mdns_ip->0 != manual_ip ==> tunnel_candidates(manual_ip, mdns_ip)[0] == mdns_ip->0,
{
}

/// The TCP segment size used over a tunnel with the given MTU: 60 bytes of
/// headers less, never below zero.
pub fn tunnel_mss(mtu: u64) -> (r: u64)
    ensures
        r == (if mtu >= 60 { mtu - 60 } else { 0 }),
{
    mtu.saturating_sub(60)
}

/// `name` without any trailing `.app` suffixes.
pub open spec fn strip_app_suffixes(name: Seq<char>) -> Seq<char>
    decreases name.len(),
{
    if name.len() >= 4 && name.skip(name.len() - 4) == ".app"@ {
        strip_app_suffixes(name.take(name.len() - 4))
    } else {
        name
    }
}

/// The path in the device's `PublicStaging` directory for a signed app bundle
/// named `app_name`: the bundle name without `.app`, with `.ipa` appended.
pub open spec fn staged_path_of(app_name: Seq<char>) -> Seq<char> {
    "PublicStaging/"@ + strip_app_suffixes(app_name) + ".ipa"@
}

/// The staging path for a signed app bundle named `app_name`.
pub fn staged_ipa_path(app_name: &str) -> (r: String)
    ensures
        r@ == staged_path_of(app_name@),
{
    proof {
        reveal_strlit(".app");
    }
    let mut end = app_name.unicode_len();
    assert(app_name@.take(end as int) =~= app_name@);
    while end >= 4 && app_name.get_char(end - 4) == '.' && app_name.get_char(end - 3) == 'a'
        && app_name.get_char(end - 2) == 'p' && app_name.get_char(end - 1) == 'p'
        invariant
            end <= app_name@.len(),
            strip_app_suffixes(app_name@) == strip_app_suffixes(app_name@.take(end as int)),
        decreases end,
    {
        let ghost t = app_name@.take(end as int);
        proof {
            reveal_strlit(".app");
        }
        assert(t.skip(t.len() - 4) =~= ".app"@);
        assert(t.take(t.len() - 4) =~= app_name@.take(end - 4));
        end = end - 4;
    }
    proof {
        let t = app_name@.take(end as int);
        if t.len() >= 4 && t.skip(t.len() - 4) == ".app"@ {
            assert(t.skip(t.len() - 4)[0] == '.');
            assert(t.skip(t.len() - 4)[1] == 'a');
            assert(t.skip(t.len() - 4)[2] == 'p');
            assert(t.skip(t.len() - 4)[3] == 'p');
        }
    }
    let mut r = String::from_str("PublicStaging/");
    let mut i: usize = 0;
    while i < end
        invariant
            i <= end,
            end <= app_name@.len(),
            r@ == "PublicStaging/"@ + app_name@.take(i as int),
        decreases end - i,
    {
        push_char(&mut r, app_name.get_char(i));
        assert(app_name@.take(i + 1) =~= app_name@.take(i as int).push(app_name@[i as int]));
        i = i + 1;
    }
    push_str(&mut r, ".ipa");
    r
}

/// The position of the first App ID whose identifier is `bundle_id`.
pub fn find_app_id(identifiers: &Vec<String>, bundle_id: &str) -> (r: Option<usize>)
    ensures
        match r {
            Some(i) => i < identifiers@.len() && identifiers@[i as int]@ == bundle_id@
                && forall|k: int| 0 <= k < i ==> identifiers@[k]@ != bundle_id@,
            None => forall|k: int| 0 <= k < identifiers@.len() ==> identifiers@[k]@ != bundle_id@,
        },
{
    let mut i: usize = 0;
    while i < identifiers.len()
        invariant
            i <= identifiers@.len(),
            forall|k: int| 0 <= k < i ==> identifiers@[k]@ != bundle_id@,
        decreases identifiers@.len() - i,
    {
        if str_eq(identifiers[i].as_str(), bundle_id) {
            return Some(i);
        }
        i = i + 1;
    }
    None
}

/// The serial numbers of the certificates that have one, in order.
pub fn revocable_serials(serials: &Vec<Option<String>>) -> (r: Vec<String>)
    ensures
        r@ == serials@.filter(|s: Option<String>| s is Some).map_values(|s: Option<String>| s->0),
{
    let ghost p = |s: Option<String>| s is Some;
    let ghost f = |s: Option<String>| s->0;
    let mut r: Vec<String> = Vec::new();
    let mut i: usize = 0;
    assert(serials@.take(0).filter(p) =~= Seq::<Option<String>>::empty()) by {
        reveal(Seq::filter);
    }
    while i < serials.len()
        invariant
            i <= serials@.len(),
            p == (|s: Option<String>| s is Some),
            f == (|s: Option<String>| s->0),
            r@ == serials@.take(i as int).filter(p).map_values(f),
        decreases serials@.len() - i,
    {
        proof {
            serials@.take(i as int).lemma_filter_push(serials@[i as int], p);
            assert(serials@.take(i + 1) =~= serials@.take(i as int).push(serials@[i as int]));
        }
        let ghost before = serials@.take(i as int).filter(p);
        match &serials[i] {
            Some(s) => {
                let c = s.clone();
                r.push(c);
                assert(before.push(serials@[i as int]).map_values(f) =~= before.map_values(f).push(c));
            },
            None => {},
        }
        i = i + 1;
    }
    assert(serials@.take(i as int) =~= serials@);
    r
}

/// The bundle identifiers in a device's app listing: each entry that is a
/// dictionary and holds a string `CFBundleIdentifier`, in order.
pub open spec fn listed_bundle_ids(entries: Seq<Option<Seq<(Seq<char>, Option<Seq<char>>)>>>) -> Seq<Seq<char>>
    decreases entries.len(),
{
    if entries.len() == 0 {
        Seq::empty()
    } else {
        let rest = listed_bundle_ids(entries.drop_last());
        match entries.last() {
            Some(d) => match lookup_text(d, "CFBundleIdentifier"@) {
                Some(b) => rest.push(b),
                None => rest,
            },
            None => rest,
        }
    }
}

/// A device's app listing yields bundle identifiers, nothing else: every
/// identifier in it is the `CFBundleIdentifier` of one of the listed
/// dictionaries, and every listed dictionary with a string
/// `CFBundleIdentifier` contributes it.
pub proof fn lemma_listing_reads_bundle_identifiers(entries: Seq<Option<Seq<(Seq<char>, Option<Seq<char>>)>>>)
    ensures
        forall|k: int| 0 <= k < listed_bundle_ids(entries).len() ==> exists|j: int|
            0 <= j < entries.len() && (#[trigger] entries[j]) is Some
                && lookup_text(entries[j]->0, "CFBundleIdentifier"@) == Some(#[trigger] listed_bundle_ids(entries)[k]),
        forall|j: int| 0 <= j < entries.len() && (#[trigger] entries[j]) is Some
            && lookup_text(entries[j]->0, "CFBundleIdentifier"@) is Some
            ==> listed_bundle_ids(entries).contains(lookup_text(entries[j]->0, "CFBundleIdentifier"@)->0),
    decreases entries.len(),
{
    if entries.len() > 0 {
        let init = entries.drop_last();
        let x = entries.last();
        lemma_listing_reads_bundle_identifiers(init);
        let l0 = listed_bundle_ids(init);
        let l = listed_bundle_ids(entries);
        assert forall|j: int| 0 <= j < init.len() implies init[j] == entries[j] by {}
        assert forall|k: int| #![trigger l[k]] 0 <= k < l.len() implies exists|j: int|
            0 <= j < entries.len() && (#[trigger] entries[j]) is Some
                && lookup_text(entries[j]->0, "CFBundleIdentifier"@) == Some(l[k]) by {
            if k < l0.len() {
                assert(l[k] == l0[k]);
                let j = choose|j: int| 0 <= j < init.len() && (#[trigger] init[j]) is Some
                    && lookup_text(init[j]->0, "CFBundleIdentifier"@) == Some(l0[k]);
                assert(entries[j] == init[j]);
            } else {
                assert(entries[entries.len() - 1] == x);
            }
        }
        assert forall|j: int| 0 <= j < entries.len() && (#[trigger] entries[j]) is Some
            && lookup_text(entries[j]->0, "CFBundleIdentifier"@) is Some
            implies l.contains(lookup_text(entries[j]->0, "CFBundleIdentifier"@)->0) by {
            let b = lookup_text(entries[j]->0, "CFBundleIdentifier"@)->0;
            if j < init.len() {
                assert(init[j] == entries[j]);
                assert(l0.contains(b));
                let m = choose|m: int| 0 <= m < l0.len() && l0[m] == b;
                assert(l[m] == l0[m]);
            } else {
                assert(l[l.len() - 1] == b);
            }
        }
    }
}

/// The view of a device's app listing.
pub open spec fn listing_view(entries: Seq<Option<Vec<(String, Option<String>)>>>) -> Seq<Option<Seq<(Seq<char>, Option<Seq<char>>)>>> {
    entries.map_values(|e: Option<Vec<(String, Option<String>)>>| match e {
        Some(d) => Some(d@.map_values(|x: (String, Option<String>)| crate::ipa::entry_view(x))),
        None => None,
    })
}

/// The bundle identifiers of the apps a device lists (entries that are not
/// dictionaries are `None`).
pub fn bundle_ids_from_listing(entries: &Vec<Option<Vec<(String, Option<String>)>>>) -> (r: Vec<String>)
    ensures
        r@.map_values(|s: String| s@) == listed_bundle_ids(listing_view(entries@)),
{
    let ghost lv = listing_view(entries@);
    let mut r: Vec<String> = Vec::new();
    let mut i: usize = 0;
    while i < entries.len()
        invariant
            i <= entries@.len(),
            lv == listing_view(entries@),
            r@.map_values(|s: String| s@) == listed_bundle_ids(lv.take(i as int)),
        decreases entries@.len() - i,
    {
        let ghost before = r@;
        proof {
            assert(lv.take(i + 1).drop_last() =~= lv.take(i as int));
            assert(lv.take(i + 1).last() == lv[i as int]);
        }
        match &entries[i] {
            Some(d) => {
                match crate::ipa::lookup_string(d, "CFBundleIdentifier") {
                    Some(b) => {
                        r.push(b);
                        assert(r@.map_values(|s: String| s@) =~= before.map_values(|s: String| s@).push(r@.last()@));
                    },
                    None => {},
                }
            },
            None => {},
        }
        i = i + 1;
    }
    assert(lv.take(i as int) =~= lv);
    r
}

/// The account's `adsid`, read from its session dictionary.
pub fn adsid_from_spd(spd: &Vec<(String, Option<String>)>) -> (r: Option<String>)
    ensures
        crate::text::opt_view(r) == lookup_text(spd@.map_values(|e: (String, Option<String>)| crate::ipa::entry_view(e)), "adsid"@),
{
    crate::ipa::lookup_string(spd, "adsid")
}

} // verus!
