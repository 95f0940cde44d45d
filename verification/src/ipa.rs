//! Reading an IPA's bundle identifier, display name and version out of its
//! `Payload/<App>.app/Info.plist`.

use vstd::prelude::*;
use crate::text::{decimal, push_decimal, push_str, str_eq};

verus! {

/// The identity of an app as its IPA declares it.
#[derive(Debug)]
pub struct IpaInfo {
    pub bundle_id: String,
    pub display_name: String,
    pub version: Option<String>,
}

/// Why an IPA's metadata could not be read, with the detail the zip or plist
/// reader gave.
#[derive(Debug, PartialEq, Eq)]
pub enum IpaError {
    /// The bytes are not a zip archive.
    NotZip { detail: String },
    /// Entry `index` of the archive could not be read.
    UnreadableEntry { index: usize, detail: String },
    /// The archive holds no `Payload/<App>.app/Info.plist`.
    InfoPlistMissing,
    /// The app's `Info.plist` entry, named `name`, could not be read.
    UnreadableInfoPlist { name: String, detail: String },
    /// `Info.plist` is not a property list dictionary.
    InvalidInfoPlist { detail: String },
    /// The IPA's `Info.plist` names no `CFBundleIdentifier`.
    MissingBundleId,
    /// A signed app bundle's `Info.plist` names no `CFBundleIdentifier`.
    SignedBundleIdMissing,
}

/// The plain value of an `IpaError`.
pub enum IpaErrorView {
    NotZip(Seq<char>),
    UnreadableEntry(nat, Seq<char>),
    InfoPlistMissing,
    UnreadableInfoPlist(Seq<char>, Seq<char>),
    InvalidInfoPlist(Seq<char>),
    MissingBundleId,
    SignedBundleIdMissing,
}

impl View for IpaError {
    type V = IpaErrorView;

    open spec fn view(&self) -> IpaErrorView {
        match self {
            IpaError::NotZip { detail } => IpaErrorView::NotZip(detail@),
            IpaError::UnreadableEntry { index, detail } => IpaErrorView::UnreadableEntry(*index as nat, detail@),
            IpaError::InfoPlistMissing => IpaErrorView::InfoPlistMissing,
            IpaError::UnreadableInfoPlist { name, detail } => IpaErrorView::UnreadableInfoPlist(name@, detail@),
            IpaError::InvalidInfoPlist { detail } => IpaErrorView::InvalidInfoPlist(detail@),
            IpaError::MissingBundleId => IpaErrorView::MissingBundleId,
            IpaError::SignedBundleIdMissing => IpaErrorView::SignedBundleIdMissing,
        }
    }
}

/// The message shown for each reason an IPA's metadata could not be read.
pub open spec fn ipa_error_text(e: IpaErrorView) -> Seq<char> {
    match e {
        IpaErrorView::NotZip(d) => "IPA is not a valid zip: "@ + d,
        IpaErrorView::UnreadableEntry(i, d) => "zip entry "@ + decimal(i) + ": "@ + d,
        IpaErrorView::InfoPlistMissing => "Info.plist not found in IPA"@,
        IpaErrorView::UnreadableInfoPlist(n, d) => "open "@ + n + ": "@ + d,
        IpaErrorView::InvalidInfoPlist(d) => "parse Info.plist: "@ + d,
        IpaErrorView::MissingBundleId => "CFBundleIdentifier missing"@,
        IpaErrorView::SignedBundleIdMissing => "CFBundleIdentifier missing from Info.plist"@,
    }
}

impl IpaError {
    /// The message shown to the user for this error.
    pub fn message(&self) -> (m: String)
        ensures
            m@ == ipa_error_text(self@),
    {
        let mut m = String::new();
        match self {
            IpaError::NotZip { detail } => {
                push_str(&mut m, "IPA is not a valid zip: ");
                push_str(&mut m, detail.as_str());
            },
            IpaError::UnreadableEntry { index, detail } => {
                push_str(&mut m, "zip entry ");
                push_decimal(&mut m, *index as u64);
                push_str(&mut m, ": ");
                push_str(&mut m, detail.as_str());
            },
            IpaError::InfoPlistMissing => push_str(&mut m, "Info.plist not found in IPA"),
            IpaError::UnreadableInfoPlist { name, detail } => {
                push_str(&mut m, "open ");
                push_str(&mut m, name.as_str());
                push_str(&mut m, ": ");
                push_str(&mut m, detail.as_str());
            },
            IpaError::InvalidInfoPlist { detail } => {
                push_str(&mut m, "parse Info.plist: ");
                push_str(&mut m, detail.as_str());
            },
            IpaError::MissingBundleId => push_str(&mut m, "CFBundleIdentifier missing"),
            IpaError::SignedBundleIdMissing => push_str(&mut m, "CFBundleIdentifier missing from Info.plist"),
        }
        assert(m@ =~= ipa_error_text(self@));
        m
    }
}

/// The names of the entries of the zip archive `bytes`, in the archive's
/// order, as far as they could be read, with the error text of the first entry
/// that could not be read, if any; the error text when `bytes` is not a zip
/// archive.
pub uninterp spec fn zip_listing(bytes: Seq<u8>) -> Result<(Seq<Seq<char>>, Option<Seq<char>>), Seq<char>>;

/// Opens `bytes` with `zip::ZipArchive::new` and reads the name of each entry
/// with `by_index` in turn, stopping at the first entry that cannot be read;
/// errors are given as their text (`to_string`). The listing depends on the
/// bytes alone.
#[verifier::external_body]
fn zip_entry_names(bytes: &[u8]) -> (r: Result<(Vec<String>, Option<String>), String>)
    ensures
        match r {
            Ok((names, stop)) => zip_listing(bytes@) == Ok::<_, Seq<char>>((names@.map_values(|n: String| n@), crate::text::opt_view(stop))),
            Err(e) => zip_listing(bytes@) == Err::<(Seq<Seq<char>>, Option<Seq<char>>), Seq<char>>(e@),
        },
{
    let mut archive = match zip::ZipArchive::new(std::io::Cursor::new(bytes)) {
        Ok(a) => a,
        Err(e) => return Err(e.to_string()),
    };
    let mut names = Vec::new();
    for i in 0..archive.len() {
        match archive.by_index(i) {
            Ok(f) => names.push(f.name().to_string()),
            Err(e) => return Ok((names, Some(e.to_string()))),
        }
    }
    Ok((names, None))
}

/// The content of entry `name` of the zip archive `bytes`, or the error text
/// when it cannot be read.
pub uninterp spec fn zip_entry_content(bytes: Seq<u8>, name: Seq<char>) -> Result<Seq<u8>, Seq<char>>;

/// Opens `bytes` with `zip::ZipArchive::new` and reads entry `name` (found with
/// `by_name`) to its end; an error is given as its text. The content depends
/// on the bytes and the name alone.
#[verifier::external_body]
fn zip_read_entry(bytes: &[u8], name: &str) -> (r: Result<Vec<u8>, String>)
    ensures
        match r {
            Ok(data) => zip_entry_content(bytes@, name@) == Ok::<Seq<u8>, Seq<char>>(data@),
            Err(e) => zip_entry_content(bytes@, name@) == Err::<Seq<u8>, Seq<char>>(e@),
        },
{
    let mut archive = zip::ZipArchive::new(std::io::Cursor::new(bytes)).map_err(|e| e.to_string())?;
    let mut file = archive.by_name(name).map_err(|e| e.to_string())?;
    let mut buf = Vec::new();
    std::io::Read::read_to_end(&mut file, &mut buf).map_err(|e| e.to_string())?;
    Ok(buf)
}

/// The top-level entries of the property list dictionary `bytes`, in order:
/// each key with its value where the value is a string; the error text when
/// `bytes` is not a property list holding a dictionary.
pub uninterp spec fn plist_entries(bytes: Seq<u8>) -> Result<Seq<(Seq<char>, Option<Seq<char>>)>, Seq<char>>;

/// The view of one decoded dictionary entry.
pub open spec fn entry_view(e: (String, Option<String>)) -> (Seq<char>, Option<Seq<char>>) {
    (e.0@, crate::text::opt_view(e.1))
}

/// Parses `bytes` with `plist::from_bytes` into a `plist::Dictionary` and lists
/// its entries, keeping each value that `Value::as_string` reads as a string;
/// a parse error is given as its text. The result depends on the bytes alone.
#[verifier::external_body]
pub(crate) fn plist_dictionary(bytes: &[u8]) -> (r: Result<Vec<(String, Option<String>)>, String>)
    ensures
        match r {
            Ok(entries) => plist_entries(bytes@) == Ok::<_, Seq<char>>(entries@.map_values(|e: (String, Option<String>)| entry_view(e))),
            Err(e) => plist_entries(bytes@) == Err::<Seq<(Seq<char>, Option<Seq<char>>)>, Seq<char>>(e@),
        },
{
    let dict: plist::Dictionary = plist::from_bytes(bytes).map_err(|e| e.to_string())?;
    Ok(dict.iter().map(|(k, v)| (k.clone(), v.as_string().map(|s| s.to_string()))).collect())
}

/// The string stored under `key`: the value of the first entry with that key,
/// when it is a string.
pub open spec fn lookup_text(entries: Seq<(Seq<char>, Option<Seq<char>>)>, key: Seq<char>) -> Option<Seq<char>>
    decreases entries.len(),
{
    if entries.len() == 0 {
        None
    } else if entries[0].0 == key {
        entries[0].1
    } else {
        lookup_text(entries.drop_first(), key)
    }
}

/// The string stored under `key` in a decoded dictionary.
pub fn lookup_string(entries: &Vec<(String, Option<String>)>, key: &str) -> (r: Option<String>)
    ensures
        crate::text::opt_view(r) == lookup_text(entries@.map_values(|e: (String, Option<String>)| entry_view(e)), key@),
{
    let ghost all = entries@.map_values(|e: (String, Option<String>)| entry_view(e));
    let mut i: usize = 0;
    assert(all.skip(0) =~= all);
    while i < entries.len()
        invariant
            i <= entries@.len(),
            all == entries@.map_values(|e: (String, Option<String>)| entry_view(e)),
            lookup_text(all, key@) == lookup_text(all.skip(i as int), key@),
        decreases entries@.len() - i,
    {
        let e = &entries[i];
        assert(all.skip(i as int)[0] == entry_view(*e));
        if str_eq(e.0.as_str(), key) {
            return crate::text::clone_opt_string(&e.1);
        }
        assert(all.skip(i as int).drop_first() =~= all.skip(i + 1));
        i = i + 1;
    }
    None
}

/// `name` is `Payload/<dir>/Info.plist` where `<dir>` holds no `/` and ends in `.app`.
pub open spec fn is_app_info_plist(name: Seq<char>) -> bool {
    let prefix = "Payload/"@;
    let rest = name.skip(prefix.len() as int);
    &&& name.len() >= prefix.len()
    &&& name.take(prefix.len() as int) == prefix
    &&& exists|k: int| #![trigger rest[k]]
        0 <= k < rest.len() && rest[k] == '/' && (forall|m: int| 0 <= m < k ==> rest[m] != '/')
            && ends_with_app(rest.take(k)) && rest.skip(k + 1) == "Info.plist"@
}

/// `dir` ends in `.app`.
pub open spec fn ends_with_app(dir: Seq<char>) -> bool {
    dir.len() >= 4 && dir.skip(dir.len() - 4) == ".app"@
}

/// Whether `t` holds the characters of `pattern` from position `at` on.
fn matches_at(t: &str, at: usize, pattern: &str) -> (r: bool)
    requires
        at <= t@.len(),
    ensures
        r == (at + pattern@.len() <= t@.len() && t@.subrange(at as int, at + pattern@.len()) == pattern@),
{
    let n = t.unicode_len();
    let m = pattern.unicode_len();
    if n - at < m {
        return false;
    }
    let mut i: usize = 0;
    while i < m
        invariant
            n == t@.len(),
            m == pattern@.len(),
            n - at >= m,
            at <= n,
            i <= m,
            forall|k: int| 0 <= k < i ==> t@[at + k] == pattern@[k],
        decreases m - i,
    {
        if t.get_char(at + i) != pattern.get_char(i) {
            assert(t@.subrange(at as int, at + m)[i as int] != pattern@[i as int]);
            return false;
        }
        i = i + 1;
    }
    assert(t@.subrange(at as int, at + m) =~= pattern@);
    true
}

/// Whether `t` starts with the characters of `pattern`.
fn starts_with(t: &str, pattern: &str) -> (r: bool)
    ensures
        r == (t@.len() >= pattern@.len() && t@.take(pattern@.len() as int) == pattern@),
{
    let n = t.unicode_len();
    let m = pattern.unicode_len();
    if n < m {
        return false;
    }
    let mut i: usize = 0;
    while i < m
        invariant
            n == t@.len(),
            m == pattern@.len(),
            m <= n,
            i <= m,
            forall|k: int| 0 <= k < i ==> t@[k] == pattern@[k],
        decreases m - i,
    {
        if t.get_char(i) != pattern.get_char(i) {
            assert(t@.take(m as int)[i as int] != pattern@[i as int]);
            return false;
        }
        i = i + 1;
    }
    assert(t@.take(m as int) =~= pattern@);
    true
}

/// Whether entry `name` is the app's own `Info.plist`.
pub fn is_app_info_plist_name(name: &str) -> (r: bool)
    ensures
        r == is_app_info_plist(name@),
{
    proof {
        reveal_strlit("Payload/");
        reveal_strlit(".app");
        reveal_strlit("Info.plist");
    }
    let p: usize = 8;
    if !starts_with(name, "Payload/") {
        return false;
    }
    let n = name.unicode_len();
    let ghost rest = name@.skip(8);
    let mut k: usize = p;
    while k < n && name.get_char(k) != '/'
        invariant
            n == name@.len(),
            p <= k <= n,
            rest == name@.skip(8),
            forall|m: int| 0 <= m < k - 8 ==> rest[m] != '/',
        decreases n - k,
    {
        k = k + 1;
    }
    if k == n {
        assert forall|j: int| 0 <= j < rest.len() && rest[j] == '/' implies !(forall|m: int| 0 <= m < j ==> rest[m] != '/') by {
            assert(false);
        }
        return false;
    }
    let kk = k - 8;
    assert(rest[kk as int] == '/');
    let dir_ok = k - p >= 4 && matches_at(name, k - 4, ".app");
    let tail_ok = n - (k + 1) == 10 && matches_at(name, k + 1, "Info.plist");
    proof {
        assert(rest.take(kk as int).len() == kk);
        if kk >= 4 {
            assert(rest.take(kk as int).skip(kk - 4) =~= name@.subrange(k - 4, k as int));
        }
        if n - (k + 1) == 10 {
            assert(rest.skip(kk + 1) =~= name@.subrange(k + 1, k + 11));
        } else {
            assert(rest.skip(kk + 1).len() != 10);
        }
        assert forall|j: int| #![trigger rest[j]] 0 <= j < rest.len() && rest[j] == '/' && (forall|m: int| 0 <= m < j ==> rest[m] != '/') implies j == kk by {
            if j < kk {
            } else if j > kk {
                assert(rest[kk as int] != '/');
            }
        }
    }
    dir_ok && tail_ok
}

/// The identity an `Info.plist` declares: its bundle identifier; its display
/// name, else its bundle name, else the bundle identifier; its short version,
/// else its build version.
pub open spec fn info_from_entries(d: Seq<(Seq<char>, Option<Seq<char>>)>) -> Result<(Seq<char>, Seq<char>, Option<Seq<char>>), IpaErrorView> {
    match lookup_text(d, "CFBundleIdentifier"@) {
        None => Err(IpaErrorView::MissingBundleId),
        Some(bundle) => Ok((
            bundle,
            match lookup_text(d, "CFBundleDisplayName"@) {
                Some(n) => n,
                None => match lookup_text(d, "CFBundleName"@) {
                    Some(n) => n,
                    None => bundle,
                },
            },
            match lookup_text(d, "CFBundleShortVersionString"@) {
                Some(v) => Some(v),
                None => lookup_text(d, "CFBundleVersion"@),
            },
        )),
    }
}

/// The position of the first name satisfying `is_app_info_plist`.
pub open spec fn first_info_plist(names: Seq<Seq<char>>) -> Option<int> {
    if exists|k: int| 0 <= k < names.len() && is_app_info_plist(#[trigger] names[k]) {
        Some(choose|k: int| 0 <= k < names.len() && is_app_info_plist(#[trigger] names[k])
            && forall|m: int| 0 <= m < k ==> !is_app_info_plist(#[trigger] names[m]))
    } else {
        None
    }
}

/// What `read_ipa_info` gives for the IPA `bytes`.
pub open spec fn ipa_info_of(bytes: Seq<u8>) -> Result<(Seq<char>, Seq<char>, Option<Seq<char>>), IpaErrorView> {
    match zip_listing(bytes) {
        Err(d) => Err(IpaErrorView::NotZip(d)),
        Ok((names, stop)) => match first_info_plist(names) {
            None => match stop {
                None => Err(IpaErrorView::InfoPlistMissing),
                Some(d) => Err(IpaErrorView::UnreadableEntry(names.len(), d)),
            },
            Some(k) => match zip_entry_content(bytes, names[k]) {
                Err(d) => Err(IpaErrorView::UnreadableInfoPlist(names[k], d)),
                Ok(data) => match plist_entries(data) {
                    Err(d) => Err(IpaErrorView::InvalidInfoPlist(d)),
                    Ok(d) => info_from_entries(d),
                },
            },
        },
    }
}

/// The position of the app's own `Info.plist` among the names of an archive's
/// entries: the first that is `Payload/<App>.app/Info.plist`.
pub fn find_info_plist(names: &Vec<String>) -> (r: Option<usize>)
    ensures
        match r {
            Some(k) => k < names@.len() && first_info_plist(names@.map_values(|n: String| n@)) == Some(k as int),
            None => first_info_plist(names@.map_values(|n: String| n@)) is None,
        },
{
    let ghost nv = names@.map_values(|n: String| n@);
    let mut k: usize = 0;
    while k < names.len()
        invariant
            k <= names@.len(),
            nv == names@.map_values(|n: String| n@),
            forall|m: int| 0 <= m < k ==> !is_app_info_plist(#[trigger] nv[m]),
        decreases names@.len() - k,
    {
        if is_app_info_plist_name(names[k].as_str()) {
            proof {
                let c = first_info_plist(nv)->0;
                assert(is_app_info_plist(nv[k as int]));
                if c < k {
                    assert(!is_app_info_plist(nv[c]));
                } else if c > k {
                    assert(!is_app_info_plist(nv[k as int]));
                }
            }
            return Some(k);
        }
        k = k + 1;
    }
    assert(!(exists|j: int| 0 <= j < nv.len() && is_app_info_plist(#[trigger] nv[j])));
    None
}

/// The identity the entries of an `Info.plist` declare.
pub fn info_from_plist(entries: &Vec<(String, Option<String>)>) -> (r: Result<IpaInfo, IpaError>)
    ensures
        match info_from_entries(entries@.map_values(|e: (String, Option<String>)| entry_view(e))) {
            Ok((b, n, v)) => r matches Ok(info) && info.bundle_id@ == b && info.display_name@ == n
                && crate::text::opt_view(info.version) == v,
            Err(e) => r matches Err(x) && x@ == e,
        },
{
    let bundle_id = match lookup_string(entries, "CFBundleIdentifier") {
        Some(b) => b,
        None => return Err(IpaError::MissingBundleId),
    };
    let display_name = match lookup_string(entries, "CFBundleDisplayName") {
        Some(n) => n,
        None => match lookup_string(entries, "CFBundleName") {
            Some(n) => n,
            None => bundle_id.clone(),
        },
    };
    let version = match lookup_string(entries, "CFBundleShortVersionString") {
        Some(v) => Some(v),
        None => lookup_string(entries, "CFBundleVersion"),
    };
    Ok(IpaInfo { bundle_id, display_name, version })
}

/// The bundle identifier an `Info.plist` (given as its bytes) declares, as a
/// signed app bundle's `Info.plist` is read after signing.
pub fn bundle_id_from_info_plist(bytes: &[u8]) -> (r: Result<String, IpaError>)
    ensures
        match plist_entries(bytes@) {
            Err(d) => r matches Err(x) && x@ == IpaErrorView::InvalidInfoPlist(d),
            Ok(es) => match lookup_text(es, "CFBundleIdentifier"@) {
                Some(b) => r matches Ok(s) && s@ == b,
                None => r matches Err(x) && x@ == IpaErrorView::SignedBundleIdMissing,
            },
        },
{
    let entries = match plist_dictionary(bytes) {
        Err(d) => return Err(IpaError::InvalidInfoPlist { detail: d }),
        Ok(e) => e,
    };
    match lookup_string(&entries, "CFBundleIdentifier") {
        Some(b) => Ok(b),
        None => Err(IpaError::SignedBundleIdMissing),
    }
}

/// Reads the bundle identifier, display name and version of the IPA `bytes`
/// from the first entry named `Payload/<App>.app/Info.plist`.
pub fn read_ipa_info(bytes: &[u8]) -> (r: Result<IpaInfo, IpaError>)
    ensures
        match ipa_info_of(bytes@) {
            Ok((b, n, v)) => r matches Ok(info) && info.bundle_id@ == b && info.display_name@ == n
                && crate::text::opt_view(info.version) == v,
            Err(e) => r matches Err(x) && x@ == e,
        },
{
    let (names, stop) = match zip_entry_names(bytes) {
        Err(d) => return Err(IpaError::NotZip { detail: d }),
        Ok(l) => l,
    };
    let k = match find_info_plist(&names) {
        None => {
            return match stop {
                None => Err(IpaError::InfoPlistMissing),
                Some(d) => Err(IpaError::UnreadableEntry { index: names.len(), detail: d }),
            };
        },
        Some(k) => k,
    };
    let data = match zip_read_entry(bytes, names[k].as_str()) {
        Err(d) => return Err(IpaError::UnreadableInfoPlist { name: names[k].clone(), detail: d }),
        Ok(d) => d,
    };
    let entries = match plist_dictionary(data.as_slice()) {
        Err(d) => return Err(IpaError::InvalidInfoPlist { detail: d }),
        Ok(e) => e,
    };
    info_from_plist(&entries)
}

} // verus!
