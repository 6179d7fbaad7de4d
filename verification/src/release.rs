//! What the updater makes of the latest published release.
use vstd::prelude::*;
use crate::version::{chars_of, is_newer_chars, spec_is_newer_version};

verus! {

/// The version of this CastScreen build, compared against published releases.
pub const CURRENT_VERSION: &'static str = "0.2.0";

/// A downloadable file attached to a release.
#[derive(Debug)]
pub struct ReleaseAsset {
    pub name: String,
    pub browser_download_url: String,
    pub size: u64,
}

/// The latest published release.
#[derive(Debug)]
pub struct ReleaseInfo {
    pub tag_name: String,
    pub name: Option<String>,
    pub body: Option<String>,
    pub assets: Vec<ReleaseAsset>,
}

/// The verdict on the latest release.
#[derive(Debug)]
pub enum ReleaseDecision {
    /// The running version is current.
    UpToDate,
    /// A newer release with an installer.
    UpdateAvailable { version: String, title: String, notes: String, download_url: String, asset_size: u64 },
    /// A newer release without any executable installer.
    MissingInstaller,
}

/// The lowercase form of a string, as `str::to_lowercase` computes it
/// (Unicode lowercase mapping).
pub uninterp spec fn lowercase(s: Seq<char>) -> Seq<char>;

/// `str::to_lowercase`, whose result is a function of the text alone.
#[verifier::external_body]
pub(crate) fn to_lowercase(s: &str) -> (r: String)
    ensures
        r@ == lowercase(s@),
{
    s.to_lowercase()
}

pub open spec fn setup_word() -> Seq<char> {
    seq!['s', 'e', 't', 'u', 'p']
}

pub open spec fn exe_suffix() -> Seq<char> {
    seq!['.', 'e', 'x', 'e']
}

pub open spec fn occurs_at(s: Seq<char>, pat: Seq<char>, i: int) -> bool {
    0 <= i && i + pat.len() <= s.len() && s.subrange(i, i + pat.len()) == pat
}

pub open spec fn contains_text(s: Seq<char>, pat: Seq<char>) -> bool {
    exists|i: int| occurs_at(s, pat, i)
}

pub open spec fn ends_with_text(s: Seq<char>, suffix: Seq<char>) -> bool {
    suffix.len() <= s.len() && s.subrange(s.len() - suffix.len(), s.len() as int) == suffix
}

/// An installer proper: an `.exe` whose name mentions "setup" in any case.
pub open spec fn is_setup_installer(name: Seq<char>) -> bool {
    contains_text(lowercase(name), setup_word()) && ends_with_text(name, exe_suffix())
}

pub open spec fn is_executable(name: Seq<char>) -> bool {
    ends_with_text(name, exe_suffix())
}

/// The first asset at or after `i` that is a setup installer, or -1.
pub open spec fn first_setup(assets: Seq<ReleaseAsset>, i: int) -> int
    decreases assets.len() - i,
{
    if i < 0 || i >= assets.len() {
        -1
    } else if is_setup_installer(assets[i].name@) {
        i
    } else {
        first_setup(assets, i + 1)
    }
}

/// The first asset at or after `i` that is an executable, or -1.
pub open spec fn first_executable(assets: Seq<ReleaseAsset>, i: int) -> int
    decreases assets.len() - i,
{
    if i < 0 || i >= assets.len() {
        -1
    } else if is_executable(assets[i].name@) {
        i
    } else {
        first_executable(assets, i + 1)
    }
}

/// The asset to install: the first setup installer, else the first
/// executable, else none (-1).
pub open spec fn installer_index(assets: Seq<ReleaseAsset>) -> int {
    if first_setup(assets, 0) >= 0 { first_setup(assets, 0) } else { first_executable(assets, 0) }
}

/// `s` without its leading run of `c`.
pub open spec fn trim_start_char(s: Seq<char>, c: char) -> Seq<char>
    decreases s.len(),
{
    if s.len() > 0 && s[0] == c { trim_start_char(s.drop_first(), c) } else { s }
}

/// The release tag as a version: leading `v`s, then leading `V`s, removed.
pub open spec fn tag_version(tag: Seq<char>) -> Seq<char> {
    trim_start_char(trim_start_char(tag, 'v'), 'V')
}

/// The release is newer than the running version.
pub open spec fn release_is_newer(current: Seq<char>, release: ReleaseInfo) -> bool {
    spec_is_newer_version(current, tag_version(release.tag_name@))
}

/// Whether `pat` occurs in `s` at `at`.
fn matches_at(s: &Vec<char>, pat: &Vec<char>, at: usize) -> (b: bool)
    requires
        at + pat@.len() <= s@.len(),
    ensures
        b == occurs_at(s@, pat@, at as int),
{
    let n = s.len();
    let mut j: usize = 0;
    while j < pat.len()
        invariant
            n == s@.len(),
            at + pat@.len() <= n,
            j <= pat@.len(),
            s@.subrange(at as int, at + j) == pat@.take(j as int),
        decreases pat@.len() - j,
    {
        if s[at + j] != pat[j] {
            proof {
                assert(s@.subrange(at as int, at + pat@.len())[j as int] != pat@[j as int]);
            }
            return false;
        }
        proof {
            assert(s@.subrange(at as int, at + j + 1) =~= s@.subrange(at as int, at + j as int).push(s@[at + j]));
            assert(pat@.take(j + 1) =~= pat@.take(j as int).push(pat@[j as int]));
        }
        j += 1;
    }
    proof {
        assert(pat@.take(pat@.len() as int) =~= pat@);
    }
    true
}

pub(crate) fn contains_chars(s: &Vec<char>, pat: &Vec<char>) -> (b: bool)
    ensures
        b == contains_text(s@, pat@),
{
    if pat.len() > s.len() {
        proof {
            assert forall|k: int| !occurs_at(s@, pat@, k) by {}
        }
        return false;
    }
    let last = s.len() - pat.len();
    let mut i: usize = 0;
    loop
        invariant
            last == s@.len() - pat@.len(),
            i <= last,
            forall|k: int| 0 <= k < i ==> !occurs_at(s@, pat@, k),
        ensures
            forall|k: int| 0 <= k <= last ==> !occurs_at(s@, pat@, k),
        decreases last - i,
    {
        if matches_at(s, pat, i) {
            return true;
        }
        if i == last {
            break;
        }
        i += 1;
    }
    proof {
        assert forall|k: int| !occurs_at(s@, pat@, k) by {
            if 0 <= k <= last {
            }
        }
    }
    false
}

fn ends_with_chars(s: &Vec<char>, suffix: &Vec<char>) -> (b: bool)
    ensures
        b == ends_with_text(s@, suffix@),
{
    if suffix.len() > s.len() {
        return false;
    }
    matches_at(s, suffix, s.len() - suffix.len())
}

fn setup_chars() -> (v: Vec<char>)
    ensures
        v@ == setup_word(),
{
    let mut v: Vec<char> = Vec::new();
    v.push('s');
    v.push('e');
    v.push('t');
    v.push('u');
    v.push('p');
    proof {
        assert(v@ =~= setup_word());
    }
    v
}

fn exe_chars() -> (v: Vec<char>)
    ensures
        v@ == exe_suffix(),
{
    let mut v: Vec<char> = Vec::new();
    v.push('.');
    v.push('e');
    v.push('x');
    v.push('e');
    proof {
        assert(v@ =~= exe_suffix());
    }
    v
}

/// Index of the installer among `assets`, as [`installer_index`] picks it.
fn find_installer(assets: &Vec<ReleaseAsset>) -> (k: Option<usize>)
    ensures
        match k {
            Some(i) => i as int == installer_index(assets@) && i < assets@.len(),
            None => installer_index(assets@) < 0,
        },
{
    let setup = setup_chars();
    let exe = exe_chars();
    let mut i: usize = 0;
    while i < assets.len()
        invariant
            setup@ == setup_word(),
            exe@ == exe_suffix(),
            i <= assets@.len(),
            first_setup(assets@, 0) == first_setup(assets@, i as int),
        decreases assets@.len() - i,
    {
        let name = chars_of(assets[i].name.as_str());
        let lower_string = to_lowercase(assets[i].name.as_str());
        let lower = chars_of(lower_string.as_str());
        if contains_chars(&lower, &setup) && ends_with_chars(&name, &exe) {
            return Some(i);
        }
        i += 1;
    }
    let mut j: usize = 0;
    while j < assets.len()
        invariant
            exe@ == exe_suffix(),
            j <= assets@.len(),
            first_setup(assets@, 0) == -1,
            first_executable(assets@, 0) == first_executable(assets@, j as int),
        decreases assets@.len() - j,
    {
        let name = chars_of(assets[j].name.as_str());
        if ends_with_chars(&name, &exe) {
            return Some(j);
        }
        j += 1;
    }
    None
}

/// The tag's characters with leading `v`s, then leading `V`s, removed.
fn tag_version_chars(tag: &str) -> (v: Vec<char>)
    ensures
        v@ == tag_version(tag@),
{
    let chars = chars_of(tag);
    let mut i: usize = 0;
    proof {
        assert(chars@.skip(0) =~= chars@);
    }
    while i < chars.len() && chars[i] == 'v'
        invariant
            i <= chars@.len(),
            trim_start_char(chars@, 'v') == trim_start_char(chars@.skip(i as int), 'v'),
        decreases chars@.len() - i,
    {
        proof {
            assert(chars@.skip(i as int).drop_first() =~= chars@.skip(i + 1));
        }
        i += 1;
    }
    let ghost after_v = chars@.skip(i as int);
    proof {
        assert(trim_start_char(after_v, 'v') == after_v);
        assert(after_v.skip(0) =~= after_v);
    }
    let mut k: usize = i;
    while k < chars.len() && chars[k] == 'V'
        invariant
            i <= k <= chars@.len(),
            after_v == chars@.skip(i as int),
            trim_start_char(after_v, 'V') == trim_start_char(chars@.skip(k as int), 'V'),
        decreases chars@.len() - k,
    {
        proof {
            assert(chars@.skip(k as int).drop_first() =~= chars@.skip(k + 1));
        }
        k += 1;
    }
    let mut out: Vec<char> = Vec::new();
    let mut m: usize = k;
    while m < chars.len()
        invariant
            k <= m <= chars@.len(),
            out@ == chars@.subrange(k as int, m as int),
        decreases chars@.len() - m,
    {
        out.push(chars[m]);
        proof {
            assert(chars@.subrange(k as int, m + 1) =~= chars@.subrange(k as int, m as int).push(chars@[m as int]));
        }
        m += 1;
    }
    proof {
        assert(out@ =~= chars@.skip(k as int));
        assert(trim_start_char(chars@.skip(k as int), 'V') == chars@.skip(k as int));
    }
    out
}

/// Decides what the updater shows for the latest release: up to date when
/// the tag is not newer than the running version; otherwise the installer
/// to download (the first `.exe` mentioning "setup", else the first `.exe`),
/// titled by the release name (else its tag) with its notes (else a default
/// recommendation); or a missing-installer verdict.
pub fn evaluate_release(current_version: &str, release: &ReleaseInfo) -> (d: ReleaseDecision)
    ensures
        !release_is_newer(current_version@, *release) ==> d is UpToDate,
        release_is_newer(current_version@, *release) && installer_index(release.assets@) < 0 ==> d is MissingInstaller,
        release_is_newer(current_version@, *release) && installer_index(release.assets@) >= 0 ==> match d {
            ReleaseDecision::UpdateAvailable { version, title, notes, download_url, asset_size } => {
                let a = release.assets@[installer_index(release.assets@)];
                &&& version@ == release.tag_name@
                &&& title@ == (match release.name { Some(n) => n@, None => release.tag_name@ })
                &&& notes@ == (match release.body { Some(b) => b@, None => "Actualización recomendada."@ })
                &&& download_url@ == a.browser_download_url@
                &&& asset_size == a.size
            },
            _ => false,
        },
{
    let current = chars_of(current_version);
    let remote = tag_version_chars(release.tag_name.as_str());
    if !is_newer_chars(&current, &remote) {
        return ReleaseDecision::UpToDate;
    }
    match find_installer(&release.assets) {
        Some(k) => {
            let asset = &release.assets[k];
            let title = match &release.name {
                Some(n) => n.clone(),
                None => release.tag_name.clone(),
            };
            let notes = match &release.body {
                Some(b) => b.clone(),
                None => "Actualización recomendada.".to_owned(),
            };
            ReleaseDecision::UpdateAvailable {
                version: release.tag_name.clone(),
                title,
                notes,
                download_url: asset.browser_download_url.clone(),
                asset_size: asset.size,
            }
        },
        None => ReleaseDecision::MissingInstaller,
    }
}

/// Path and drive separators become `_`.
pub open spec fn sanitize_char(c: char) -> char {
    if c == '/' || c == '\\' || c == ':' { '_' } else { c }
}

pub open spec fn sanitized_version(s: Seq<char>) -> Seq<char> {
    Seq::new(s.len(), |i: int| sanitize_char(s[i]))
}

/// `String::push`, which appends one character.
#[verifier::external_body]
fn string_push(s: &mut String, c: char)
    ensures
        final(s)@ == old(s)@.push(c),
{
    s.push(c)
}

/// The file name the installer of `version` is saved under: path and drive
/// separators (`/`, `\`, `:`) in the version become `_`.
pub fn installer_file_name(version: &str) -> (name: String)
    ensures
        name@ == "CastScreen_Setup_"@ + sanitized_version(version@) + ".exe"@,
{
    let chars = chars_of(version);
    let mut name = "CastScreen_Setup_".to_owned();
    let ghost prefix = name@;
    let mut i: usize = 0;
    while i < chars.len()
        invariant
            i <= chars@.len(),
            name@ == prefix + sanitized_version(chars@.take(i as int)),
        decreases chars@.len() - i,
    {
        let c = chars[i];
        let out = if c == '/' || c == '\\' || c == ':' { '_' } else { c };
        string_push(&mut name, out);
        proof {
            assert(sanitized_version(chars@.take(i + 1)) =~= sanitized_version(chars@.take(i as int)).push(out));
        }
        i += 1;
    }
    proof {
        assert(chars@.take(chars@.len() as int) =~= chars@);
    }
    name.append(".exe");
    name
}

/// Whatever the release calls its version, the installer's file name holds
/// no path or drive separator, so the download stays in the directory it is
/// saved to.
pub proof fn law_installer_name_stays_in_its_directory(version: Seq<char>)
    ensures
        forall|i: int|
            0 <= i < ("CastScreen_Setup_"@ + sanitized_version(version) + ".exe"@).len() ==> {
                let c = #[trigger] ("CastScreen_Setup_"@ + sanitized_version(version) + ".exe"@)[i];
                c != '/' && c != '\\' && c != ':'
            },
{
    reveal_strlit("CastScreen_Setup_");
    reveal_strlit(".exe");
    let name = "CastScreen_Setup_"@ + sanitized_version(version) + ".exe"@;
    assert forall|i: int| 0 <= i < name.len() implies name[i] != '/' && name[i] != '\\' && name[i] != ':' by {
        let p = "CastScreen_Setup_"@.len() as int;
        if p <= i < p + version.len() {
            assert(name[i] == sanitize_char(version[i - p]));
        }
    }
}

/// Trimming a leading run of `c` removes exactly the first `k` characters,
/// all equal to `c`, and stops at the first other character.
proof fn lemma_trim_start_char(s: Seq<char>, c: char) -> (k: int)
    ensures
        0 <= k <= s.len(),
        trim_start_char(s, c) == s.skip(k),
        forall|i: int| 0 <= i < k ==> s[i] == c,
        k == s.len() || s[k] != c,
    decreases s.len(),
{
    if s.len() > 0 && s[0] == c {
        let t = s.drop_first();
        let k = lemma_trim_start_char(t, c);
        assert(t.skip(k) =~= s.skip(k + 1));
        assert forall|i: int| 0 <= i < k + 1 implies s[i] == c by {
            if i > 0 {
                assert(s[i] == t[i - 1]);
            }
        }
        assert(k + 1 == s.len() || s[k + 1] == t[k]);
        k + 1
    } else {
        assert(s.skip(0) =~= s);
        0
    }
}

/// The version read from a release tag is the tag without its leading `v`s
/// and then its leading `V`s, and nothing else: what is dropped is a prefix
/// of `v`s followed by `V`s, and the version goes on from the first
/// character after it that is not a `V` (a `v` there only after a `V`). In
/// particular a tag that starts with neither letter, such as `1.0.0`, is
/// compared as it is.
pub proof fn law_tag_version_drops_only_leading_v(tag: Seq<char>)
    ensures
        tag_version(tag).len() <= tag.len(),
        tag_version(tag) == tag.skip(tag.len() - tag_version(tag).len()),
        forall|i: int| 0 <= i < tag.len() - tag_version(tag).len() ==> tag[i] == 'v' || tag[i] == 'V',
        forall|i: int, j: int|
            0 <= i < j < tag.len() - tag_version(tag).len() && tag[i] == 'V' ==> tag[j] == 'V',
        tag_version(tag).len() > 0 ==> tag_version(tag)[0] != 'V' && (tag_version(tag)[0] == 'v' ==> tag.len()
            - tag_version(tag).len() > 0 && tag[tag.len() - tag_version(tag).len() - 1] == 'V'),
        (tag.len() == 0 || (tag[0] != 'v' && tag[0] != 'V')) ==> tag_version(tag) == tag,
{
    let a = lemma_trim_start_char(tag, 'v');
    let rest = tag.skip(a);
    let b = lemma_trim_start_char(rest, 'V');
    assert(rest.skip(b) =~= tag.skip(a + b));
    assert forall|i: int| a <= i < a + b implies tag[i] == 'V' by {
        assert(tag[i] == rest[i - a]);
    }
    assert(a + b == tag.len() || tag[a + b] == rest[b]);
    assert(tag.skip(a + b).len() == tag.len() - (a + b));
    if tag.len() == 0 || (tag[0] != 'v' && tag[0] != 'V') {
        if tag.len() > 0 {
            assert(a == 0);
            assert(rest[0] == tag[0]);
            assert(b == 0);
        }
        assert(tag.skip(a + b) =~= tag);
    }
}

} // verus!