//! The updater's life cycle: what a check leads to, what a download starts
//! from, and when the installer may run.
use vstd::prelude::*;
use crate::release::{evaluate_release, installer_index, release_is_newer, ReleaseDecision, ReleaseInfo};
use crate::version::{chars_of, decimal_value, digit_value, is_ascii_digit, lemma_decimal_nonneg};

verus! {

/// Where the updater stands. Download progress is kept in whole bytes.
#[derive(Debug)]
pub enum UpdatePhase {
    /// Nothing asked yet.
    Idle,
    /// Asking for the latest release.
    Checking,
    /// The running version is current.
    UpToDate,
    /// A newer release with an installer.
    UpdateAvailable { version: String, title: String, notes: String, download_url: String, asset_size: u64 },
    /// The installer is being downloaded.
    Downloading { version: String, downloaded_bytes: u64, total_bytes: u64 },
    /// The installer is saved and can be run.
    ReadyToInstall { version: String, installer_path: String },
    /// A check or a download failed.
    Error(String),
}

pub open spec fn missing_installer_message() -> Seq<char> {
    "Se encontró una nueva versión pero no contiene instalador ejecutable."@
}

pub open spec fn not_ready_message() -> Seq<char> {
    "El instalador aún no está listo para ejecutar."@
}

/// The phase a finished check leads to.
pub fn phase_after_check(decision: ReleaseDecision) -> (p: UpdatePhase)
    ensures
        match decision {
            ReleaseDecision::UpToDate => p is UpToDate,
            ReleaseDecision::MissingInstaller => p matches UpdatePhase::Error(m) && m@
                == missing_installer_message(),
            ReleaseDecision::UpdateAvailable { version, title, notes, download_url, asset_size } => {
                p == UpdatePhase::UpdateAvailable { version, title, notes, download_url, asset_size }
            },
        },
{
    match decision {
        ReleaseDecision::UpToDate => UpdatePhase::UpToDate,
        ReleaseDecision::MissingInstaller => UpdatePhase::Error(
            "Se encontró una nueva versión pero no contiene instalador ejecutable.".to_owned(),
        ),
        ReleaseDecision::UpdateAvailable { version, title, notes, download_url, asset_size } => {
            UpdatePhase::UpdateAvailable { version, title, notes, download_url, asset_size }
        },
    }
}

/// A download starts only from an available update: its version, the
/// installer's address and its advertised size. In any other phase the
/// request is ignored.
pub fn download_request(phase: &UpdatePhase) -> (r: Option<(String, String, u64)>)
    ensures
        match phase {
            UpdatePhase::UpdateAvailable { version, download_url, asset_size, .. } => r matches Some(
                t,
            ) && t.0@ == version@ && t.1@ == download_url@ && t.2 == asset_size,
            _ => r is None,
        },
{
    match phase {
        UpdatePhase::UpdateAvailable { version, download_url, asset_size, .. } => Some(
            (version.clone(), download_url.clone(), *asset_size),
        ),
        _ => None,
    }
}

/// The installer may run only once it is saved: its path, or the message
/// the updater shows otherwise.
pub fn installer_to_run(phase: &UpdatePhase) -> (r: Result<String, String>)
    ensures
        match phase {
            UpdatePhase::ReadyToInstall { installer_path, .. } => r matches Ok(p) && p@ == installer_path@,
            _ => r matches Err(m) && m@ == not_ready_message(),
        },
{
    match phase {
        UpdatePhase::ReadyToInstall { installer_path, .. } => Ok(installer_path.clone()),
        _ => Err("El instalador aún no está listo para ejecutar.".to_owned()),
    }
}

/// A string of ASCII digits only.
pub open spec fn all_digits(ds: Seq<char>) -> bool {
    forall|i: int| 0 <= i < ds.len() ==> is_ascii_digit(#[trigger] ds[i])
}

/// The text after an optional leading `+`.
pub open spec fn unsigned_digits(s: Seq<char>) -> Seq<char> {
    if s.len() > 0 && s[0] == '+' { s.drop_first() } else { s }
}

/// The number a text denotes as an unsigned 64-bit integer: an optional `+`
/// and one or more ASCII digits, with a value that fits; nothing otherwise.
pub open spec fn unsigned_value(s: Seq<char>) -> Option<u64> {
    let ds = unsigned_digits(s);
    if ds.len() > 0 && all_digits(ds) && decimal_value(ds) <= u64::MAX {
        Some(decimal_value(ds) as u64)
    } else {
        None
    }
}

proof fn lemma_decimal_value_push(ds: Seq<char>, c: char)
    ensures
        decimal_value(ds.push(c)) == decimal_value(ds) * 10 + digit_value(c),
{
    assert(ds.push(c).drop_last() =~= ds);
}

/// Reads a `Content-Length` value as [`unsigned_value`] defines it.
pub fn parse_content_length(text: &str) -> (r: Option<u64>)
    ensures
        r == unsigned_value(text@),
{
    let chars = chars_of(text);
    let start: usize = if chars.len() > 0 && chars[0] == '+' { 1 } else { 0 };
    let ghost ds = unsigned_digits(text@);
    proof {
        assert(ds =~= chars@.skip(start as int));
    }
    if start >= chars.len() {
        return None;
    }
    let mut value: u64 = 0;
    let mut i: usize = start;
    while i < chars.len()
        invariant
            start <= i <= chars@.len(),
            chars@ == text@,
            ds == unsigned_digits(text@),
            ds == chars@.skip(start as int),
            forall|k: int| start <= k < i ==> is_ascii_digit(#[trigger] chars@[k]),
            value as int == decimal_value(chars@.subrange(start as int, i as int)),
        decreases chars@.len() - i,
    {
        let c = chars[i];
        if !('0' <= c && c <= '9') {
            proof {
                assert(!is_ascii_digit(ds[i - start]));
                assert(!all_digits(ds));
            }
            return None;
        }
        let d = (c as u32 - '0' as u32) as u64;
        proof {
            assert(chars@.subrange(start as int, i + 1) =~= chars@.subrange(start as int, i as int).push(c));
            lemma_decimal_value_push(chars@.subrange(start as int, i as int), c);
        }
        if value > (u64::MAX - d) / 10 {
            proof {
                assert(value * 10 + d > u64::MAX) by (nonlinear_arith)
                    requires
                        value > (u64::MAX - d) / 10,
                        d <= 9,
                ;
                let pre = chars@.subrange(start as int, i + 1);
                let rest = chars@.subrange(i + 1, chars@.len() as int);
                assert(pre + rest =~= ds);
                assert forall|k: int| 0 <= k < pre.len() implies is_ascii_digit(#[trigger] pre[k]) by {
                    assert(pre[k] == chars@[start + k]);
                }
                lemma_digits_only_grow(pre, rest);
                if all_digits(ds) {
                    assert forall|k: int| 0 <= k < rest.len() implies is_ascii_digit(#[trigger] rest[k]) by {
                        assert(rest[k] == ds[pre.len() + k]);
                    }
                }
            }
            return None;
        }
        value = value * 10 + d;
        i += 1;
    }
    proof {
        assert(chars@.subrange(start as int, chars@.len() as int) =~= ds);
    }
    Some(value)
}

/// Appending digits never makes a decimal value smaller.
proof fn lemma_digits_only_grow(a: Seq<char>, b: Seq<char>)
    requires
        forall|i: int| 0 <= i < a.len() ==> is_ascii_digit(#[trigger] a[i]),
    ensures
        (forall|i: int| 0 <= i < b.len() ==> is_ascii_digit(#[trigger] b[i])) ==> decimal_value(a + b)
            >= decimal_value(a),
    decreases b.len(),
{
    if b.len() > 0 && (forall|i: int| 0 <= i < b.len() ==> is_ascii_digit(#[trigger] b[i])) {
        lemma_digits_only_grow(a, b.drop_last());
        assert((a + b).drop_last() =~= a + b.drop_last());
        assert(is_ascii_digit(b[b.len() - 1]));
        assert((a + b).last() == b.last());
        lemma_decimal_nonneg(a + b.drop_last());
    } else if b.len() == 0 {
        assert(a + b =~= a);
    }
}

/// The size the download expects: the server's `Content-Length` when it
/// reads as a number, else the size the release advertised.
pub fn download_total(content_length: Option<&str>, advertised: u64) -> (total: u64)
    ensures
        total == match content_length {
            Some(h) => match unsigned_value(h@) {
                Some(v) => v,
                None => advertised,
            },
            None => advertised,
        },
{
    match content_length {
        Some(h) => match parse_content_length(h) {
            Some(v) => v,
            None => advertised,
        },
        None => advertised,
    }
}

// ---------------------------------------------------------------------------
// The background check.
// ---------------------------------------------------------------------------

/// What the background check of the latest release comes back with.
#[derive(Debug)]
pub enum CheckEvent {
    /// GitHub could not be reached; the connection error's text.
    Unreachable(String),
    /// GitHub's reply did not read as a release; the decoder's text.
    Undecodable(String),
    /// The latest published release.
    Fetched(ReleaseInfo),
}

pub open spec fn connection_error_prefix() -> Seq<char> {
    "Error de conexión con GitHub: "@
}

pub open spec fn decode_error_prefix() -> Seq<char> {
    "Error decodificando respuesta de GitHub: "@
}

/// `prefix` followed by `detail`.
fn message(prefix: &str, detail: &str) -> (m: String)
    ensures
        m@ == prefix@ + detail@,
{
    let mut m = String::from_str(prefix);
    m.append(detail);
    m
}

/// The one phase a check started in [`UpdatePhase::Checking`] ends in: an
/// error when GitHub cannot be reached or its reply cannot be read; else up
/// to date, the installer of a newer release, or an error when the newer
/// release has no installer.
pub fn finish_check(current_version: &str, event: CheckEvent) -> (p: UpdatePhase)
    ensures
        match event {
            CheckEvent::Unreachable(e) => p matches UpdatePhase::Error(m) && m@ == connection_error_prefix() + e@,
            CheckEvent::Undecodable(e) => p matches UpdatePhase::Error(m) && m@ == decode_error_prefix() + e@,
            CheckEvent::Fetched(release) => {
                &&& !release_is_newer(current_version@, release) ==> p is UpToDate
                &&& release_is_newer(current_version@, release) && installer_index(release.assets@) < 0 ==> (p matches UpdatePhase::Error(m) && m@ == missing_installer_message())
                &&& release_is_newer(current_version@, release) && installer_index(release.assets@) >= 0 ==> match p {
                    UpdatePhase::UpdateAvailable { version, title, notes, download_url, asset_size } => {
                        let a = release.assets@[installer_index(release.assets@)];
                        &&& version@ == release.tag_name@
                        &&& title@ == (match release.name { Some(n) => n@, None => release.tag_name@ })
                        &&& notes@ == (match release.body { Some(b) => b@, None => "Actualización recomendada."@ })
                        &&& download_url@ == a.browser_download_url@
                        &&& asset_size == a.size
                    },
                    _ => false,
                }
            },
        },
{
    match event {
        CheckEvent::Unreachable(e) => UpdatePhase::Error(message("Error de conexión con GitHub: ", e.as_str())),
        CheckEvent::Undecodable(e) => UpdatePhase::Error(
            message("Error decodificando respuesta de GitHub: ", e.as_str()),
        ),
        CheckEvent::Fetched(release) => phase_after_check(evaluate_release(current_version, &release)),
    }
}

// ---------------------------------------------------------------------------
// The download.
// ---------------------------------------------------------------------------

/// What the download of the installer reports, step by step.
#[derive(Debug)]
pub enum DownloadEvent {
    /// The server could not be reached; the error's text.
    ConnectFailed(String),
    /// The server answered, with its `Content-Length` header when it sent one.
    Connected(Option<String>),
    /// The file to save into could not be created; the error's text.
    CreateFailed(String),
    /// This many more bytes were read and written to the file.
    Received(u64),
    /// Writing to the file failed; the error's text.
    WriteFailed(String),
    /// Reading from the server failed; the error's text.
    ReadFailed(String),
    /// The server's stream ended and the file is flushed.
    Finished,
}

/// What the downloader does after a step.
#[derive(Debug, Clone, Copy, PartialEq, Eq, Structural)]
pub enum DownloadAction {
    /// Go on reading.
    Continue,
    /// Stop; keep whatever is on disk.
    Stop,
    /// Stop and delete the partly written file.
    DiscardFile,
}

pub struct DownloadView {
    pub version: Seq<char>,
    pub installer_path: Seq<char>,
    pub expected_size: u64,
    pub total: u64,
    pub downloaded: int,
    pub finished: bool,
}

/// The size a `Content-Length` header announces, else the advertised one.
pub open spec fn announced_total(header: Option<String>, advertised: u64) -> u64 {
    match header {
        Some(h) => match unsigned_value(h@) {
            Some(v) => v,
            None => advertised,
        },
        None => advertised,
    }
}

/// The download after one event. Once finished it takes no more.
pub open spec fn download_next(s: DownloadView, e: DownloadEvent) -> DownloadView {
    if s.finished {
        s
    } else {
        match e {
            DownloadEvent::Connected(h) => DownloadView { total: announced_total(h, s.expected_size), ..s },
            DownloadEvent::Received(n) => DownloadView { downloaded: s.downloaded + n, ..s },
            _ => DownloadView { finished: true, ..s },
        }
    }
}

/// The download after a run of events.
pub open spec fn download_run(s: DownloadView, events: Seq<DownloadEvent>) -> DownloadView
    decreases events.len(),
{
    if events.len() == 0 {
        s
    } else {
        download_next(download_run(s, events.drop_last()), events.last())
    }
}

/// One download of the installer of `version` into `installer_path`: the
/// bytes saved so far, the size expected, and whether it has ended.
pub struct DownloadSession {
    version: String,
    installer_path: String,
    expected_size: u64,
    total: u64,
    downloaded: u64,
    finished: bool,
}

impl View for DownloadSession {
    type V = DownloadView;

    closed spec fn view(&self) -> DownloadView {
        DownloadView {
            version: self.version@,
            installer_path: self.installer_path@,
            expected_size: self.expected_size,
            total: self.total,
            downloaded: self.downloaded as int,
            finished: self.finished,
        }
    }
}

impl DownloadSession {
    /// A download that has saved nothing yet and expects the advertised size.
    pub fn new(version: String, installer_path: String, expected_size: u64) -> (s: Self)
        ensures
            s@ == (DownloadView {
                version: version@,
                installer_path: installer_path@,
                expected_size,
                total: expected_size,
                downloaded: 0,
                finished: false,
            }),
    {
        DownloadSession { version, installer_path, expected_size, total: expected_size, downloaded: 0, finished: false }
    }

    /// Bytes saved so far.
    pub fn downloaded(&self) -> (d: u64)
        ensures
            d == self@.downloaded,
    {
        self.downloaded
    }

    /// The phase showing the progress so far.
    pub fn progress(&self) -> (p: UpdatePhase)
        ensures
            p matches UpdatePhase::Downloading { version, downloaded_bytes, total_bytes } && version@
                == self@.version && downloaded_bytes == self@.downloaded && total_bytes == self@.total,
    {
        UpdatePhase::Downloading {
            version: self.version.clone(),
            downloaded_bytes: self.downloaded,
            total_bytes: self.total,
        }
    }

    /// Takes one event of the download: the phase to show, if it changes,
    /// and what to do next. Progress is shown after every write; an error
    /// or the end of the stream ends the download, in an error or with the
    /// installer ready; a failed read or write also discards the file.
    pub fn step(&mut self, event: DownloadEvent) -> (r: (Option<UpdatePhase>, DownloadAction))
        requires
            !old(self)@.finished ==> (event matches DownloadEvent::Received(n) ==> old(self)@.downloaded + n
                <= u64::MAX),
        ensures
            final(self)@ == download_next(old(self)@, event),
            old(self)@.finished ==> r.0 is None && r.1 == DownloadAction::Stop,
            !old(self)@.finished ==> match event {
                DownloadEvent::ConnectFailed(e) => r.0 matches Some(UpdatePhase::Error(m)) && m@
                    == "Error iniciando descarga: "@ + e@ && r.1 == DownloadAction::Stop,
                DownloadEvent::Connected(_) => r.0 is None && r.1 == DownloadAction::Continue,
                DownloadEvent::CreateFailed(e) => r.0 matches Some(UpdatePhase::Error(m)) && m@
                    == "Error creando archivo temporal: "@ + e@ && r.1 == DownloadAction::Stop,
                DownloadEvent::Received(_) => r.0 matches Some(
                    UpdatePhase::Downloading { version, downloaded_bytes, total_bytes },
                ) && version@ == old(self)@.version && downloaded_bytes == final(self)@.downloaded
                    && total_bytes == old(self)@.total && r.1 == DownloadAction::Continue,
                DownloadEvent::WriteFailed(e) => r.0 matches Some(UpdatePhase::Error(m)) && m@
                    == "Error escribiendo datos: "@ + e@ && r.1 == DownloadAction::DiscardFile,
                DownloadEvent::ReadFailed(e) => r.0 matches Some(UpdatePhase::Error(m)) && m@
                    == "Descarga interrumpida: "@ + e@ && r.1 == DownloadAction::DiscardFile,
                DownloadEvent::Finished => r.0 matches Some(UpdatePhase::ReadyToInstall { version, installer_path })
                    && version@ == old(self)@.version && installer_path@ == old(self)@.installer_path && r.1
                    == DownloadAction::Stop,
            },
            !old(self)@.finished && final(self)@.finished ==> (r.0 matches Some(p) && (p is ReadyToInstall
                || p is Error)),
    {
        if self.finished {
            return (None, DownloadAction::Stop);
        }
        match event {
            DownloadEvent::ConnectFailed(e) => {
                self.finished = true;
                (Some(UpdatePhase::Error(message("Error iniciando descarga: ", e.as_str()))), DownloadAction::Stop)
            },
            DownloadEvent::Connected(h) => {
                self.total = match &h {
                    Some(t) => download_total(Some(t.as_str()), self.expected_size),
                    None => download_total(None, self.expected_size),
                };
                (None, DownloadAction::Continue)
            },
            DownloadEvent::CreateFailed(e) => {
                self.finished = true;
                (
                    Some(UpdatePhase::Error(message("Error creando archivo temporal: ", e.as_str()))),
                    DownloadAction::Stop,
                )
            },
            DownloadEvent::Received(n) => {
                self.downloaded = self.downloaded + n;
                (Some(self.progress()), DownloadAction::Continue)
            },
            DownloadEvent::WriteFailed(e) => {
                self.finished = true;
                (
                    Some(UpdatePhase::Error(message("Error escribiendo datos: ", e.as_str()))),
                    DownloadAction::DiscardFile,
                )
            },
            DownloadEvent::ReadFailed(e) => {
                self.finished = true;
                (
                    Some(UpdatePhase::Error(message("Descarga interrumpida: ", e.as_str()))),
                    DownloadAction::DiscardFile,
                )
            },
            DownloadEvent::Finished => {
                self.finished = true;
                (
                    Some(UpdatePhase::ReadyToInstall {
                        version: self.version.clone(),
                        installer_path: self.installer_path.clone(),
                    }),
                    DownloadAction::Stop,
                )
            },
        }
    }
}

/// Over any run of download events the saved byte count never decreases,
/// the release and the target file never change, and once the download has
/// ended (in an error or with the installer ready) nothing changes it.
pub proof fn law_download_only_moves_forward(s: DownloadView, events: Seq<DownloadEvent>, i: int, j: int)
    requires
        0 <= i <= j <= events.len(),
    ensures
        download_run(s, events.take(i)).downloaded <= download_run(s, events.take(j)).downloaded,
        download_run(s, events.take(j)).version == s.version,
        download_run(s, events.take(j)).installer_path == s.installer_path,
        download_run(s, events.take(i)).finished ==> download_run(s, events.take(j)) == download_run(
            s,
            events.take(i),
        ),
    decreases j - i,
{
    lemma_download_keeps_release(s, events.take(j));
    if i < j {
        law_download_only_moves_forward(s, events, i, j - 1);
        assert(events.take(j).drop_last() =~= events.take(j - 1));
        assert(events.take(j).last() == events[j - 1]);
    }
}

proof fn lemma_download_keeps_release(s: DownloadView, events: Seq<DownloadEvent>)
    ensures
        download_run(s, events).version == s.version,
        download_run(s, events).installer_path == s.installer_path,
        download_run(s, events).downloaded >= s.downloaded,
    decreases events.len(),
{
    if events.len() > 0 {
        lemma_download_keeps_release(s, events.drop_last());
    }
}

} // verus!
