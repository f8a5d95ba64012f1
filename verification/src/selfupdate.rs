//! Self-update: release naming (tags, asset names, download URLs), checksum
//! sidecars, and the version decision. Networking, hashing, unpacking and
//! replacing the binary are the caller's business.

use vstd::prelude::*;
use crate::jj::owned;
use crate::keymap::eq_lit;
use crate::text::{chars_of, is_whitespace, is_ws, starts_with, string_of, trim_start};
use sha2::Digest;

verus! {

/// GitHub repo that publishes jw releases.
pub const REPO: &'static str = "bfirestone/jj-workspace";

/// Release channel.
#[derive(Debug, Clone, Copy, PartialEq, Eq, Structural)]
pub enum Channel {
    Stable,
}

/// What `self update` was asked to do.
#[derive(Debug, Clone)]
pub struct UpdateOpts {
    pub check: bool,
    pub version: Option<String>,
    pub force: bool,
}

/// How an update ended, with its human-readable line.
#[derive(Debug, Clone, PartialEq, Eq)]
pub enum UpdateOutcome {
    UpToDate(String),
    UpdateAvailable(String),
    Updated(String),
}

impl UpdateOutcome {
    /// The human-readable line for this outcome.
    pub fn message(&self) -> (r: &str)
        ensures
            r@ == match self {
                UpdateOutcome::UpToDate(m) => m@,
                UpdateOutcome::UpdateAvailable(m) => m@,
                UpdateOutcome::Updated(m) => m@,
            },
    {
        match self {
            UpdateOutcome::UpToDate(m) => m.as_str(),
            UpdateOutcome::UpdateAvailable(m) => m.as_str(),
            UpdateOutcome::Updated(m) => m.as_str(),
        }
    }
}

/// The release target triple for an OS and architecture jw publishes for.
pub open spec fn target_for(os: Seq<char>, arch: Seq<char>) -> Option<Seq<char>> {
    if os == "linux"@ && arch == "x86_64"@ {
        Some("x86_64-unknown-linux-gnu"@)
    } else if os == "linux"@ && arch == "aarch64"@ {
        Some("aarch64-unknown-linux-gnu"@)
    } else if os == "macos"@ && arch == "x86_64"@ {
        Some("x86_64-apple-darwin"@)
    } else if os == "macos"@ && arch == "aarch64"@ {
        Some("aarch64-apple-darwin"@)
    } else {
        None
    }
}

/// Release target triple for a build on `os`/`arch` (as `std::env::consts`
/// names them), or None on a platform jw publishes no asset for.
pub fn current_target(os: &str, arch: &str) -> (r: Option<&'static str>)
    ensures
        match r {
            Some(t) => target_for(os@, arch@) == Some(t@),
            None => target_for(os@, arch@) is None,
        },
{
    let o = chars_of(os);
    let a = chars_of(arch);
    let linux = eq_lit(o.as_slice(), "linux");
    let macos = eq_lit(o.as_slice(), "macos");
    let x86 = eq_lit(a.as_slice(), "x86_64");
    let arm = eq_lit(a.as_slice(), "aarch64");
    if linux && x86 {
        Some("x86_64-unknown-linux-gnu")
    } else if linux && arm {
        Some("aarch64-unknown-linux-gnu")
    } else if macos && x86 {
        Some("x86_64-apple-darwin")
    } else if macos && arm {
        Some("aarch64-apple-darwin")
    } else {
        None
    }
}

/// `jw-v{version}`.
pub fn release_tag(version: &str) -> (r: String)
    ensures
        r@ == "jw-v"@ + version@,
{
    let mut r = owned("jw-v");
    r.append(version);
    r
}

/// The archive asset name: `jj-workspace_{version}_{target}.tar.gz`.
pub open spec fn archive_name(version: Seq<char>, target: Seq<char>) -> Seq<char> {
    "jj-workspace_"@ + version + "_"@ + target + ".tar.gz"@
}

/// (archive, sha256-sidecar) asset file names for a version + target.
pub fn asset_names(version: &str, target: &str) -> (r: (String, String))
    ensures
        r.0@ == archive_name(version@, target@),
        r.1@ == archive_name(version@, target@) + ".sha256"@,
{
    let mut archive = owned("jj-workspace_");
    archive.append(version);
    archive.append("_");
    archive.append(target);
    archive.append(".tar.gz");
    let mut sha = archive.clone();
    sha.append(".sha256");
    (archive, sha)
}

/// Full release-asset download URL.
pub fn asset_url(repo: &str, tag: &str, asset: &str) -> (r: String)
    ensures
        r@ == "https://github.com/"@ + repo@ + "/releases/download/"@ + tag@ + "/"@ + asset@,
{
    let mut r = owned("https://github.com/");
    r.append(repo);
    r.append("/releases/download/");
    r.append(tag);
    r.append("/");
    r.append(asset);
    r
}

/// The releases/latest API URL of `repo`.
pub fn latest_release_url(repo: &str) -> (r: String)
    ensures
        r@ == "https://api.github.com/repos/"@ + repo@ + "/releases/latest"@,
{
    let mut r = owned("https://api.github.com/repos/");
    r.append(repo);
    r.append("/releases/latest");
    r
}

/// The first white-space-separated word of `s`, if any (`split_whitespace().next()`).
pub open spec fn first_word(s: Seq<char>) -> Option<Seq<char>> {
    let t = trim_start(s);
    if t.len() == 0 {
        None
    } else {
        Some(word_prefix(t))
    }
}

/// The longest prefix of `t` without white space.
pub open spec fn word_prefix(t: Seq<char>) -> Seq<char>
    decreases t.len(),
{
    if t.len() == 0 || is_ws(t[0]) {
        Seq::empty()
    } else {
        seq![t[0]] + word_prefix(t.drop_first())
    }
}

/// What `str::to_lowercase` gives for `s` (full Unicode lower-casing).
pub uninterp spec fn unicode_lowercase(s: Seq<char>) -> Seq<char>;

/// Every character of `s` is ASCII.
pub open spec fn all_ascii(s: Seq<char>) -> bool {
    forall|i: int| 0 <= i < s.len() ==> (s[i] as u32) < 128
}

/// `str::to_lowercase`. Claimed: the result is the named `unicode_lowercase` of
/// `s`, and on ASCII text it is ASCII lower-casing (Unicode's lowercase mapping,
/// which std follows, sends `A`..`Z` to `a`..`z` and keeps every other ASCII
/// character). The mapping of other characters is not stated.
#[verifier::external_body]
fn to_lowercase(s: &str) -> (r: String)
    ensures
        r@ == unicode_lowercase(s@),
        all_ascii(s@) ==> r@ == crate::text::lower(s@),
{
    s.to_lowercase()
}

/// Extract the hex digest from a `sha256sum`-format sidecar ("<hex>  <name>"):
/// the first word, lower-cased.
pub fn parse_sha256_sidecar(contents: &str) -> (r: Option<String>)
    ensures
        match r {
            Some(h) => first_word(contents@) matches Some(w) && h@ == unicode_lowercase(w) && (
            all_ascii(w) ==> h@ == crate::text::lower(w)),
            None => first_word(contents@) is None,
        },
{
    let v = chars_of(contents);
    let mut i: usize = 0;
    proof {
        assert(v@.skip(0) =~= v@);
    }
    while i < v.len() && is_whitespace(v[i])
        invariant
            i <= v@.len(),
            v@ == contents@,
            trim_start(v@) == trim_start(v@.skip(i as int)),
        decreases v.len() - i,
    {
        proof {
            assert(v@.skip(i as int).drop_first() =~= v@.skip(i + 1));
        }
        i = i + 1;
    }
    if i == v.len() {
        proof {
            assert(v@.skip(i as int) =~= Seq::<char>::empty());
        }
        return None;
    }
    let ghost t = v@.skip(i as int);
    let mut j: usize = i;
    while j < v.len() && !is_whitespace(v[j])
        invariant
            i <= j <= v@.len(),
            t == v@.skip(i as int),
            word_prefix(t) == v@.subrange(i as int, j as int) + word_prefix(v@.skip(j as int)),
        decreases v.len() - j,
    {
        proof {
            let u = v@.skip(j as int);
            assert(u.drop_first() =~= v@.skip(j + 1));
            assert(v@.subrange(i as int, j + 1) =~= v@.subrange(i as int, j as int) + seq![u[0]]);
        }
        j = j + 1;
    }
    proof {
        assert(word_prefix(v@.skip(j as int)) =~= Seq::<char>::empty());
    }
    let mut w: Vec<char> = Vec::new();
    let mut k: usize = i;
    while k < j
        invariant
            i <= k <= j <= v@.len(),
            w@ =~= v@.subrange(i as int, k as int),
        decreases j - k,
    {
        w.push(v[k]);
        k = k + 1;
    }
    let word = string_of(w.as_slice());
    Some(to_lowercase(word.as_str()))
}

/// `tag` without a leading `jw-v`, else without a leading `v`.
pub open spec fn version_part(tag: Seq<char>) -> Seq<char> {
    if starts_with(tag, "jw-v"@) {
        tag.skip(4)
    } else if starts_with(tag, "v"@) {
        tag.skip(1)
    } else {
        tag
    }
}

/// The text the semver crate prints for the version `s` parses to, if it parses
/// (`Version::parse(s)` then `to_string`).
pub uninterp spec fn semver_text(s: Seq<char>) -> Option<Seq<char>>;

/// Whether the version `a` parses to is greater (in semver's order) than the one
/// `b` parses to; false when either does not parse.
pub uninterp spec fn semver_greater(a: Seq<char>, b: Seq<char>) -> bool;

/// `semver::Version::parse(s)`, printed back. Claimed: the result is the named
/// `semver_text` of `s`; the grammar semver accepts is not stated.
#[verifier::external_body]
fn semver_parse(s: &str) -> (r: Option<String>)
    ensures
        match r {
            Some(t) => semver_text(s@) == Some(t@),
            None => semver_text(s@) is None,
        },
{
    match semver::Version::parse(s) {
        Ok(v) => Some(v.to_string()),
        Err(_) => None,
    }
}

/// `Version::parse(a) > Version::parse(b)` for two texts that parse. Claimed: the
/// result is the named `semver_greater` of the two texts; semver's precedence
/// rules (pre-release and build metadata) are not stated.
#[verifier::external_body]
fn semver_gt(a: &str, b: &str) -> (r: bool)
    ensures
        r == semver_greater(a@, b@),
{
    match (semver::Version::parse(a), semver::Version::parse(b)) {
        (Ok(x), Ok(y)) => x > y,
        _ => false,
    }
}

/// A semantic version, held as the text semver prints for it.
#[derive(Debug, Clone, PartialEq, Eq)]
pub struct Version {
    text: String,
}

impl Version {
    /// The version's text.
    pub closed spec fn text(&self) -> Seq<char> {
        self.text@
    }

    /// Parse `s` as a semantic version.
    pub fn parse(s: &str) -> (r: Option<Version>)
        ensures
            match r {
                Some(v) => semver_text(s@) == Some(v.text()),
                None => semver_text(s@) is None,
            },
    {
        match semver_parse(s) {
            Some(t) => Some(Version { text: t }),
            None => None,
        }
    }

    /// The version's text.
    pub fn as_str(&self) -> (r: &str)
        ensures
            r@ == self.text(),
    {
        self.text.as_str()
    }
}

/// Is `latest` strictly newer than `current`? `force` => always true.
pub fn should_update(current: &Version, latest: &Version, force: bool) -> (r: bool)
    ensures
        r == (force || semver_greater(latest.text(), current.text())),
{
    force || semver_gt(latest.text.as_str(), current.text.as_str())
}

/// Strip a leading `jw-v` / `v` and parse the remainder as semver.
pub fn parse_release_version(tag: &str) -> (r: Option<Version>)
    ensures
        match r {
            Some(v) => semver_text(version_part(tag@)) == Some(v.text()),
            None => semver_text(version_part(tag@)) is None,
        },
{
    let t = chars_of(tag);
    let p1 = chars_of("jw-v");
    let p2 = chars_of("v");
    proof {
        reveal_strlit("jw-v");
        reveal_strlit("v");
        assert(t@.skip(0) =~= t@);
    }
    let rest = if crate::text::occurs_at_exec(&t, 0, &p1) {
        crate::text::slice_chars(&t, 4, t.len())
    } else if crate::text::occurs_at_exec(&t, 0, &p2) {
        crate::text::slice_chars(&t, 1, t.len())
    } else {
        crate::text::slice_chars(&t, 0, t.len())
    };
    proof {
        assert(t@.subrange(0, t@.len() as int) =~= t@);
        if t@.len() >= 4 {
            assert(t@.subrange(4, t@.len() as int) =~= t@.skip(4));
        }
        if t@.len() >= 1 {
            assert(t@.subrange(1, t@.len() as int) =~= t@.skip(1));
        }
    }
    let s = string_of(rest.as_slice());
    Version::parse(s.as_str())
}

/// What `self update` does once the target version is known: report an outcome
/// without touching the binary, or go on to download and install it.
#[derive(Debug, Clone, PartialEq, Eq)]
pub enum UpdateDecision {
    Report(UpdateOutcome),
    Install,
}

/// The decision of `self update` for the running version `current` and the
/// target version `target`: with `check`, report whether `target` is newer;
/// otherwise install when it is newer (or `force`), else report up to date.
pub open spec fn decision_holds(c: Seq<char>, t: Seq<char>, check: bool, force: bool, d: UpdateDecision) -> bool {
    let newer = semver_greater(t, c);
    if check {
        if newer {
            d matches UpdateDecision::Report(UpdateOutcome::UpdateAvailable(m))
                && m@ == t + " available (have "@ + c + ")"@
        } else {
            d matches UpdateDecision::Report(UpdateOutcome::UpToDate(m)) && m@ == "up to date ("@ + c
                + ")"@
        }
    } else if force || newer {
        d is Install
    } else {
        d matches UpdateDecision::Report(UpdateOutcome::UpToDate(m)) && m@ == "jw "@ + c
            + " is already up to date"@
    }
}

/// Decide what `self update` does for the running version and the target one.
pub fn decide_update(current: &Version, target: &Version, check: bool, force: bool) -> (r: UpdateDecision)
    ensures
        decision_holds(current.text(), target.text(), check, force, r),
{
    let c = current.as_str();
    let t = target.as_str();
    if check {
        if should_update(current, target, false) {
            let mut m = owned(t);
            m.append(" available (have ");
            m.append(c);
            m.append(")");
            UpdateDecision::Report(UpdateOutcome::UpdateAvailable(m))
        } else {
            let mut m = owned("up to date (");
            m.append(c);
            m.append(")");
            UpdateDecision::Report(UpdateOutcome::UpToDate(m))
        }
    } else if should_update(current, target, force) {
        UpdateDecision::Install
    } else {
        let mut m = owned("jw ");
        m.append(c);
        m.append(" is already up to date");
        UpdateDecision::Report(UpdateOutcome::UpToDate(m))
    }
}

/// The outcome after installing `target` over `current`: `Updated jw {c} → {t}`.
pub fn updated_outcome(current: &Version, target: &Version) -> (r: UpdateOutcome)
    ensures
        r matches UpdateOutcome::Updated(m) && m@ == "Updated jw "@ + current.text() + " → "@
            + target.text(),
{
    let mut m = owned("Updated jw ");
    m.append(current.as_str());
    m.append(" → ");
    m.append(target.as_str());
    UpdateOutcome::Updated(m)
}

/// What `serde_json` reads from the text `body` as its string field `tag_name`:
/// `None` when `body` is not JSON, `Some(None)` when it has no such string field.
pub uninterp spec fn json_tag_name(body: Seq<char>) -> Option<Option<Seq<char>>>;

/// `serde_json::from_str::<Value>(body)`, then the string at `tag_name`.
/// Claimed: the result is the named `json_tag_name` of `body`; the JSON grammar
/// is not stated.
#[verifier::external_body]
fn release_tag_name(body: &str) -> (r: Option<Option<String>>)
    ensures
        match r {
            None => json_tag_name(body@) is None,
            Some(None) => json_tag_name(body@) == Some(None::<Seq<char>>),
            Some(Some(t)) => json_tag_name(body@) == Some(Some(t@)),
        },
{
    match serde_json::from_str::<serde_json::Value>(body) {
        Ok(v) => match v.get("tag_name") {
            Some(serde_json::Value::String(t)) => Some(Some(t.clone())),
            _ => Some(None),
        },
        Err(_) => None,
    }
}

/// Why the newest release could not be read from the releases/latest reply.
#[derive(Debug, Clone, PartialEq, Eq)]
pub enum LatestError {
    /// The reply is not JSON.
    BadJson,
    /// The reply has no string `tag_name`.
    NoTagName,
    /// The tag does not name a semantic version.
    BadTag(String),
}

impl LatestError {
    /// The error's text.
    pub fn message(&self) -> (r: String)
        ensures
            r@ == match self {
                LatestError::BadJson => "parsing releases/latest JSON"@,
                LatestError::NoTagName => "no tag_name in releases/latest response"@,
                LatestError::BadTag(t) => "unparseable release tag '"@ + t@ + "'"@,
            },
    {
        match self {
            LatestError::BadJson => owned("parsing releases/latest JSON"),
            LatestError::NoTagName => owned("no tag_name in releases/latest response"),
            LatestError::BadTag(t) => {
                let mut m = owned("unparseable release tag '");
                m.append(t.as_str());
                m.append("'");
                m
            },
        }
    }
}

/// The newest version, given what was read at `tag_name` of the reply (`None`
/// when the reply was not JSON, `Some(None)` when it had no string tag).
pub open spec fn latest_holds(field: Option<Option<Seq<char>>>, r: Result<Version, LatestError>) -> bool {
    match field {
        None => r matches Err(LatestError::BadJson),
        Some(None) => r matches Err(LatestError::NoTagName),
        Some(Some(tag)) => match semver_text(version_part(tag)) {
            Some(v) => r matches Ok(x) && x.text() == v,
            None => r matches Err(LatestError::BadTag(t)) && t@ == tag,
        },
    }
}

/// The newest version from the `tag_name` field of the releases/latest reply.
pub fn latest_from_field(field: Option<Option<&str>>) -> (r: Result<Version, LatestError>)
    ensures
        latest_holds(
            match field {
                None => None,
                Some(None) => Some(None),
                Some(Some(t)) => Some(Some(t@)),
            },
            r,
        ),
{
    match field {
        None => Err(LatestError::BadJson),
        Some(None) => Err(LatestError::NoTagName),
        Some(Some(tag)) => match parse_release_version(tag) {
            Some(v) => Ok(v),
            None => Err(LatestError::BadTag(owned(tag))),
        },
    }
}

/// The newest version from the body of the releases/latest reply.
pub fn latest_from_body(body: &str) -> (r: Result<Version, LatestError>)
    ensures
        latest_holds(json_tag_name(body@), r),
{
    let field = release_tag_name(body);
    match &field {
        None => latest_from_field(None),
        Some(None) => latest_from_field(Some(None)),
        Some(Some(t)) => latest_from_field(Some(Some(t.as_str()))),
    }
}

/// The SHA-256 digest of `data` (the sha2 crate's `Sha256`).
pub uninterp spec fn sha256(data: Seq<u8>) -> Seq<u8>;

/// `Sha256::digest(data)`. Claimed: the result is the named `sha256` of `data`,
/// and it is 32 bytes long (the digest's output size).
#[verifier::external_body]
fn sha256_digest(data: &[u8]) -> (r: Vec<u8>)
    ensures
        r@ == sha256(data@),
        r@.len() == 32,
{
    sha2::Sha256::digest(data).to_vec()
}

/// The lower-case hex digit for `d < 16`.
pub open spec fn hex_digit(d: nat) -> char {
    if d < 10 {
        (('0' as u32) + d) as char
    } else {
        (('a' as u32) + (d - 10)) as char
    }
}

/// `bytes` as lower-case hex, two digits per byte.
pub open spec fn hex_of(bytes: Seq<u8>) -> Seq<char>
    decreases bytes.len(),
{
    if bytes.len() == 0 {
        Seq::empty()
    } else {
        hex_of(bytes.drop_last()) + seq![
            hex_digit((bytes.last() / 16) as nat),
            hex_digit((bytes.last() % 16) as nat),
        ]
    }
}

/// The hex digit character for `d < 16`.
fn hex_char(d: u8) -> (c: char)
    requires
        d < 16,
    ensures
        c == hex_digit(d as nat),
{
    if d < 10 {
        (48u8 + d) as char
    } else {
        (87u8 + d) as char
    }
}

/// `bytes` in lower-case hex.
pub fn hex_lower(bytes: &[u8]) -> (r: String)
    ensures
        r@ == hex_of(bytes@),
{
    let mut r = String::new();
    let mut i: usize = 0;
    while i < bytes.len()
        invariant
            i <= bytes@.len(),
            r@ == hex_of(bytes@.subrange(0, i as int)),
        decreases bytes.len() - i,
    {
        let b = bytes[i];
        r.push(hex_char(b / 16));
        r.push(hex_char(b % 16));
        proof {
            assert(bytes@.subrange(0, i + 1).drop_last() =~= bytes@.subrange(0, i as int));
        }
        i = i + 1;
    }
    proof {
        assert(bytes@.subrange(0, bytes@.len() as int) =~= bytes@);
    }
    r
}

/// A character with ASCII upper case folded to lower case.
pub open spec fn ascii_lower(c: char) -> char {
    if 'A' <= c && c <= 'Z' {
        ((c as u32) + 32) as char
    } else {
        c
    }
}

/// Equal ignoring ASCII case (`str::eq_ignore_ascii_case`).
pub open spec fn eq_ignoring_ascii_case(a: Seq<char>, b: Seq<char>) -> bool {
    a.len() == b.len() && forall|i: int| 0 <= i < a.len() ==> ascii_lower(#[trigger] a[i]) == ascii_lower(b[i])
}

fn ascii_lower_char(c: char) -> (r: char)
    ensures
        r == ascii_lower(c),
{
    if 'A' <= c && c <= 'Z' {
        let u: u8 = (c as u8) + 32;
        u as char
    } else {
        c
    }
}

/// True when `a` and `b` are equal ignoring ASCII case.
pub fn eq_ignore_ascii_case(a: &str, b: &str) -> (r: bool)
    ensures
        r == eq_ignoring_ascii_case(a@, b@),
{
    let x = chars_of(a);
    let y = chars_of(b);
    if x.len() != y.len() {
        return false;
    }
    let mut i: usize = 0;
    while i < x.len()
        invariant
            i <= x@.len(),
            x@.len() == y@.len(),
            x@ == a@,
            y@ == b@,
            forall|k: int| 0 <= k < i ==> ascii_lower(#[trigger] x@[k]) == ascii_lower(y@[k]),
        decreases x.len() - i,
    {
        if ascii_lower_char(x[i]) != ascii_lower_char(y[i]) {
            return false;
        }
        i = i + 1;
    }
    true
}

/// The verdict on a downloaded archive whose digest is `digest`, against the
/// published hex digest `expected`: fine when the hex of the digest equals
/// `expected` ignoring ASCII case, else the mismatch message.
pub fn checksum_verdict(digest: &[u8], expected: &str) -> (r: Result<(), String>)
    ensures
        match r {
            Ok(()) => eq_ignoring_ascii_case(hex_of(digest@), expected@),
            Err(m) => !eq_ignoring_ascii_case(hex_of(digest@), expected@)
                && m@ == "checksum mismatch: expected "@ + expected@ + ", got "@ + hex_of(digest@),
        },
{
    let actual = hex_lower(digest);
    if eq_ignore_ascii_case(actual.as_str(), expected) {
        Ok(())
    } else {
        let mut m = owned("checksum mismatch: expected ");
        m.append(expected);
        m.append(", got ");
        m.append(actual.as_str());
        Err(m)
    }
}

/// Check the archive bytes `data` against the published hex digest `expected`.
pub fn verify_sha256(data: &[u8], expected: &str) -> (r: Result<(), String>)
    ensures
        match r {
            Ok(()) => eq_ignoring_ascii_case(hex_of(sha256(data@)), expected@),
            Err(m) => !eq_ignoring_ascii_case(hex_of(sha256(data@)), expected@)
                && m@ == "checksum mismatch: expected "@ + expected@ + ", got "@ + hex_of(sha256(data@)),
        },
{
    let d = sha256_digest(data);
    checksum_verdict(d.as_slice(), expected)
}

} // verus!
