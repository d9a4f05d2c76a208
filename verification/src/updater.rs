//! Deciding about updates: what a release description offers, and the steps of
//! the background check, download and launch of the installer.

use vstd::prelude::*;

use crate::text::{
    chars_of, eq_ignore_ascii_case_chars, eq_ignore_ascii_case_spec, extend_chars, has_prefix,
    starts_with_chars, string_from_chars,
};
use crate::version::{is_newer_spec, is_newer_version};

verus! {

/// What one poll of the updater tells the viewer.
pub enum UpdatePoll {
    /// Nothing to report.
    Idle,
    Downloading,
    LaunchInstaller,
    Error(String),
}

/// A release that offers an installer.
pub struct Release {
    pub version: String,
    pub installer_url: String,
}

/// What a background job reports.
pub enum WorkerResult {
    NoUpdate,
    Available(Release),
    Downloaded(String),
    Failed(String),
}

/// One downloadable file of a release description, with the fields that are text.
pub struct ReleaseAsset {
    pub name: Option<String>,
    pub url: Option<String>,
}

/// The fields of a release description that the updater reads: `tag_name` when it
/// is text, and `assets` when it is a list.
pub struct ReleaseInfo {
    pub tag_name: Option<String>,
    pub assets: Option<Vec<ReleaseAsset>>,
}

/// What `serde_json::from_str` followed by reading `tag_name`, `assets`, and each
/// asset's `name` and `browser_download_url` gives for the text `body`.
pub uninterp spec fn json_release(body: Seq<char>) -> Result<ReleaseInfo, String>;

/// Parses a release description with `serde_json::from_str` into a
/// `serde_json::Value` and reads the fields the updater needs, keeping a field
/// only when it has the expected JSON type; the parse error is turned into its
/// message. The contract names the result; it says nothing of its content.
#[verifier::external_body]
fn parse_release_json(body: &str) -> (r: Result<ReleaseInfo, String>)
    ensures
        r == json_release(body@),
{
    let v: serde_json::Value = match serde_json::from_str(body) {
        Ok(v) => v,
        Err(e) => return Err(e.to_string()),
    };
    let text = |x: &serde_json::Value| x.as_str().map(|s| s.to_string());
    let assets = v["assets"].as_array().map(|a| {
        a.iter().map(|x| ReleaseAsset { name: text(&x["name"]), url: text(&x["browser_download_url"]) }).collect()
    });
    Ok(ReleaseInfo { tag_name: text(&v["tag_name"]), assets })
}

/// Where installers may be downloaded from.
pub open spec fn download_prefix() -> Seq<char> {
    "https://github.com/hoangphuctv/xemanh/releases/download/"@
}

/// `s` without its leading `v` characters.
pub open spec fn trim_leading_v(s: Seq<char>) -> Seq<char>
    decreases s.len(),
{
    if s.len() > 0 && s[0] == 'v' {
        trim_leading_v(s.drop_first())
    } else {
        s
    }
}

/// The installer file name of a version.
pub open spec fn installer_name_spec(version: Seq<char>) -> Seq<char> {
    "xemanh-"@ + version + "-setup.exe"@
}

/// The asset is the installer of `version`: its name is the installer name up to
/// ASCII case, and its link is a download link of the project.
pub open spec fn is_installer_asset(asset: ReleaseAsset, version: Seq<char>) -> bool {
    match (asset.name, asset.url) {
        (Some(n), Some(u)) => eq_ignore_ascii_case_spec(n@, installer_name_spec(version))
            && has_prefix(u@, download_prefix()),
        _ => false,
    }
}

/// The first installer asset of `version` among `assets`.
pub open spec fn first_installer(assets: Seq<ReleaseAsset>, version: Seq<char>) -> Option<
    ReleaseAsset,
>
    decreases assets.len(),
{
    if assets.len() == 0 {
        None
    } else if is_installer_asset(assets[0], version) {
        Some(assets[0])
    } else {
        first_installer(assets.drop_first(), version)
    }
}

/// The version a release description announces: its tag without leading `v`s.
pub open spec fn announced_version(info: ReleaseInfo) -> Seq<char> {
    match info.tag_name {
        Some(t) => trim_leading_v(t@),
        None => Seq::empty(),
    }
}

/// The message when a newer release has no installer.
pub open spec fn no_installer_message() -> Seq<char> {
    "Không tìm thấy bộ cài Windows cho bản cập nhật mới"@
}

/// The installer file name of a version: `xemanh-<version>-setup.exe`.
pub fn installer_file_name(version: &str) -> (r: String)
    ensures
        r@ == installer_name_spec(version@),
{
    let mut v = chars_of("xemanh-");
    extend_chars(&mut v, &chars_of(version));
    extend_chars(&mut v, &chars_of("-setup.exe"));
    string_from_chars(&v)
}

fn trim_v(s: &Vec<char>) -> (r: Vec<char>)
    ensures
        r@ == trim_leading_v(s@),
{
    let mut i: usize = 0;
    assert(s@.skip(0) =~= s@);
    while i < s.len() && s[i] == 'v'
        invariant
            i <= s@.len(),
            trim_leading_v(s@.skip(i as int)) == trim_leading_v(s@),
        decreases s@.len() - i,
    {
        assert(s@.skip(i as int)[0] == s@[i as int]);
        assert(s@.skip(i as int).drop_first() =~= s@.skip(i + 1));
        i = i + 1;
    }
    assert(trim_leading_v(s@.skip(i as int)) == s@.skip(i as int)) by {
        if i < s@.len() {
            assert(s@.skip(i as int)[0] == s@[i as int]);
        }
    }
    let mut out: Vec<char> = Vec::new();
    let mut j: usize = i;
    while j < s.len()
        invariant
            i <= j <= s@.len(),
            out@ =~= s@.subrange(i as int, j as int),
        decreases s@.len() - j,
    {
        out.push(s[j]);
        j = j + 1;
    }
    out
}

/// Decides what a release description offers: nothing when its version is empty
/// or not newer than `current_version`; otherwise the first asset that is the
/// version's installer, or an error when there is none.
pub fn release_from_info(info: &ReleaseInfo, current_version: &str) -> (r: Result<
    WorkerResult,
    String,
>)
    ensures
        ({
            let version = announced_version(*info);
            if version.len() == 0 || !is_newer_spec(version, current_version@) {
                r matches Ok(WorkerResult::NoUpdate)
            } else {
                match info.assets {
                    Some(list) => match first_installer(list@, version) {
                        Some(a) => r matches Ok(WorkerResult::Available(rel)) && rel.version@
                            == version && Some(rel.installer_url@) == (match a.url {
                            Some(u) => Some(u@),
                            None => None,
                        }),
                        None => r matches Err(e) && e@ == no_installer_message(),
                    },
                    None => r matches Err(e) && e@ == no_installer_message(),
                }
            }
        }),
{
    let tag: Vec<char> = match &info.tag_name {
        Some(t) => chars_of(t.as_str()),
        None => Vec::new(),
    };
    let version_chars = trim_v(&tag);
    let version = string_from_chars(&version_chars);
    if version_chars.len() == 0 || !is_newer_version(version.as_str(), current_version) {
        return Ok(WorkerResult::NoUpdate);
    }
    let expected = chars_of(installer_file_name(version.as_str()).as_str());
    let prefix = chars_of("https://github.com/hoangphuctv/xemanh/releases/download/");
    let assets = match &info.assets {
        Some(a) => a,
        None => {
            return Err(string_from_chars(&chars_of("Không tìm thấy bộ cài Windows cho bản cập nhật mới")));
        },
    };
    let mut i: usize = 0;
    assert(assets@.skip(0) =~= assets@);
    while i < assets.len()
        invariant
            i <= assets@.len(),
            expected@ == installer_name_spec(version@),
            prefix@ == download_prefix(),
            version@ == announced_version(*info),
            version@.len() > 0,
            is_newer_spec(version@, current_version@),
            info.assets == Some(*assets),
            first_installer(assets@.skip(i as int), version@) == first_installer(assets@, version@),
        decreases assets@.len() - i,
    {
        let asset = &assets[i];
        assert(assets@.skip(i as int)[0] == assets@[i as int]);
        if let (Some(name), Some(url)) = (&asset.name, &asset.url) {
            let n = chars_of(name.as_str());
            let u = chars_of(url.as_str());
            if eq_ignore_ascii_case_chars(&n, &expected) && starts_with_chars(&u, &prefix) {
                assert(is_installer_asset(assets@[i as int], version@));
                assert(first_installer(assets@.skip(i as int), version@) == Some(assets@[i as int]));
                return Ok(
                    WorkerResult::Available(
                        Release { version, installer_url: string_from_chars(&u) },
                    ),
                );
            }
        }
        assert(assets@.skip(i as int).drop_first() =~= assets@.skip(i + 1));
        i = i + 1;
    }
    Err(string_from_chars(&chars_of("Không tìm thấy bộ cài Windows cho bản cập nhật mới")))
}

/// Decides what a fetched release description offers (see `release_from_info`);
/// a description that does not parse gives an error naming the parse failure.
pub fn release_from_body(body: &str, current_version: &str) -> (r: Result<WorkerResult, String>)
    ensures
        match json_release(body@) {
            Err(e) => r matches Err(m) && m@ == "Thông tin cập nhật không hợp lệ: "@ + e@,
            Ok(info) => ({
                let version = announced_version(info);
                if version.len() == 0 || !is_newer_spec(version, current_version@) {
                    r matches Ok(WorkerResult::NoUpdate)
                } else {
                    match info.assets {
                        Some(list) => match first_installer(list@, version) {
                            Some(a) => r matches Ok(WorkerResult::Available(rel)) && rel.version@
                                == version && Some(rel.installer_url@) == (match a.url {
                                Some(u) => Some(u@),
                                None => None,
                            }),
                            None => r matches Err(e) && e@ == no_installer_message(),
                        },
                        None => r matches Err(e) && e@ == no_installer_message(),
                    }
                }
            }),
        },
{
    match parse_release_json(body) {
        Err(e) => {
            let mut v = chars_of("Thông tin cập nhật không hợp lệ: ");
            extend_chars(&mut v, &chars_of(e.as_str()));
            Err(string_from_chars(&v))
        },
        Ok(info) => release_from_info(&info, current_version),
    }
}

/// What the check job reports for the release description it fetched (or the
/// error of fetching it): an offered installer, or else no update. The check is
/// silent: every failure counts as no update.
pub fn check_worker_result(fetched: Result<String, String>, current_version: &str) -> (r: WorkerResult)
    ensures
        match fetched {
            Err(_) => r is NoUpdate,
            Ok(body) => match json_release(body@) {
                Err(_) => r is NoUpdate,
                Ok(info) => {
                    let version = announced_version(info);
                    if version.len() == 0 || !is_newer_spec(version, current_version@) {
                        r is NoUpdate
                    } else {
                        match info.assets {
                            Some(list) => match first_installer(list@, version) {
                                Some(a) => r matches WorkerResult::Available(rel) && rel.version@
                                    == version && Some(rel.installer_url@) == (match a.url {
                                    Some(u) => Some(u@),
                                    None => None,
                                }),
                                None => r is NoUpdate,
                            },
                            None => r is NoUpdate,
                        }
                    }
                },
            },
        },
{
    match fetched {
        Err(_) => WorkerResult::NoUpdate,
        Ok(body) => match release_from_body(body.as_str(), current_version) {
            Ok(result) => result,
            Err(_) => WorkerResult::NoUpdate,
        },
    }
}

} // verus!

verus! {

/// How long after start-up the check begins.
pub const UPDATE_DELAY_MS: u64 = 12000;

/// The background update check, download and launch of the installer. The jobs
/// themselves run elsewhere: `poll` is told what happened and says what to do.
pub struct Updater {
    /// The check job has been started.
    pub checking_started: bool,
    /// A job was started and its result has not been received yet.
    pub awaiting_worker: bool,
    /// The running job is the installer download.
    pub downloading: bool,
}

/// What happened since the updater last decided.
pub enum UpdateEvent {
    /// A new poll, `elapsed_ms` after start-up.
    Tick { elapsed_ms: u64 },
    /// The check job asked for was started.
    CheckStarted,
    /// The outcome of looking for the running job's result.
    Received(Option<WorkerResult>),
    /// The user's answer to the offer of `release`.
    UserAnswered { release: Release, accepted: bool },
    /// The download job asked for was started.
    DownloadStarted,
    /// The outcome of starting the installer.
    InstallerSpawned(Result<(), String>),
}

/// What the updater asks to be done next.
pub enum UpdateAction {
    /// Start the check job, then report `CheckStarted`.
    StartCheck,
    /// Look for the running job's result without waiting, then report `Received`.
    Receive,
    /// Offer `release` to the user, then report `UserAnswered`.
    AskUser(Release),
    /// Start downloading the installer of `release`, then report `DownloadStarted`.
    StartDownload(Release),
    /// Start the downloaded installer at this path, then report `InstallerSpawned`.
    SpawnInstaller(String),
    /// The poll is over; this is its answer.
    Report(UpdatePoll),
}

/// The updater after `poll` has been told of event `e`.
pub open spec fn poll_next(u: Updater, e: UpdateEvent) -> Updater {
    match e {
        UpdateEvent::Tick { elapsed_ms } => if !u.checking_started && elapsed_ms >= UPDATE_DELAY_MS {
            Updater { checking_started: true, awaiting_worker: true, downloading: u.downloading }
        } else {
            u
        },
        UpdateEvent::Received(Some(result)) => Updater {
            checking_started: u.checking_started,
            awaiting_worker: false,
            downloading: match result {
                WorkerResult::Downloaded(_) => false,
                WorkerResult::Failed(_) => false,
                _ => u.downloading,
            },
        },
        UpdateEvent::UserAnswered { release, accepted } => if accepted {
            Updater { checking_started: true, awaiting_worker: true, downloading: true }
        } else {
            u
        },
        _ => u,
    }
}

/// `r` is what `poll` asks for when the updater `u` is told of event `e`.
pub open spec fn poll_answer(u: Updater, e: UpdateEvent, r: UpdateAction) -> bool {
    match e {
        UpdateEvent::Tick { elapsed_ms } => if !u.checking_started && elapsed_ms >= UPDATE_DELAY_MS {
            r is StartCheck
        } else if u.awaiting_worker {
            r is Receive
        } else {
            r matches UpdateAction::Report(UpdatePoll::Idle)
        },
        UpdateEvent::CheckStarted => if u.awaiting_worker {
            r is Receive
        } else {
            r matches UpdateAction::Report(UpdatePoll::Idle)
        },
        UpdateEvent::Received(None) => if u.downloading {
            r matches UpdateAction::Report(UpdatePoll::Downloading)
        } else {
            r matches UpdateAction::Report(UpdatePoll::Idle)
        },
        UpdateEvent::Received(Some(result)) => match result {
            WorkerResult::NoUpdate => r matches UpdateAction::Report(UpdatePoll::Idle),
            WorkerResult::Available(rel) => r == UpdateAction::AskUser(rel),
            WorkerResult::Downloaded(path) => r == UpdateAction::SpawnInstaller(path),
            WorkerResult::Failed(e) => r == UpdateAction::Report(UpdatePoll::Error(e)),
        },
        UpdateEvent::UserAnswered { release, accepted } => if accepted {
            r == UpdateAction::StartDownload(release)
        } else {
            r matches UpdateAction::Report(UpdatePoll::Idle)
        },
        UpdateEvent::DownloadStarted => if u.downloading {
            r matches UpdateAction::Report(UpdatePoll::Downloading)
        } else {
            r matches UpdateAction::Report(UpdatePoll::Idle)
        },
        UpdateEvent::InstallerSpawned(Ok(())) => r matches UpdateAction::Report(
            UpdatePoll::LaunchInstaller,
        ),
        UpdateEvent::InstallerSpawned(Err(e)) => r matches UpdateAction::Report(UpdatePoll::Error(m))
            && m@ == "Không thể mở trình cài đặt cập nhật: "@ + e@,
    }
}

impl Updater {
    /// A job is only awaited after the check started.
    pub open spec fn wf(&self) -> bool {
        self.awaiting_worker ==> self.checking_started
    }

    /// An updater that has not started anything.
    pub fn new() -> (r: Updater)
        ensures
            !r.checking_started && !r.awaiting_worker && !r.downloading,
            r.wf(),
    {
        Updater { checking_started: false, awaiting_worker: false, downloading: false }
    }

    /// The next step of a poll. A poll begins with `Tick`: the check starts once,
    /// after `UPDATE_DELAY_MS`; then, while a job runs, its result is looked for.
    /// No result yet reports `Downloading` during a download and `Idle` otherwise.
    /// A check finding nothing reports `Idle`; one finding a release asks the user,
    /// who may start the download; a finished download starts the installer; a
    /// failed job reports its error.
    pub fn poll(&mut self, event: UpdateEvent) -> (r: UpdateAction)
        requires
            old(self).wf(),
        ensures
            final(self).wf(),
            old(self).checking_started ==> final(self).checking_started,
            r is StartCheck ==> !old(self).checking_started,
            *final(self) == poll_next(*old(self), event),
            poll_answer(*old(self), event, r),
    {
        match event {
            UpdateEvent::Tick { elapsed_ms } => {
                if !self.checking_started && elapsed_ms >= UPDATE_DELAY_MS {
                    self.checking_started = true;
                    self.awaiting_worker = true;
                    UpdateAction::StartCheck
                } else if self.awaiting_worker {
                    UpdateAction::Receive
                } else {
                    UpdateAction::Report(UpdatePoll::Idle)
                }
            },
            UpdateEvent::CheckStarted => {
                if self.awaiting_worker {
                    UpdateAction::Receive
                } else {
                    UpdateAction::Report(UpdatePoll::Idle)
                }
            },
            UpdateEvent::Received(None) => {
                if self.downloading {
                    UpdateAction::Report(UpdatePoll::Downloading)
                } else {
                    UpdateAction::Report(UpdatePoll::Idle)
                }
            },
            UpdateEvent::Received(Some(result)) => {
                self.awaiting_worker = false;
                match result {
                    WorkerResult::NoUpdate => UpdateAction::Report(UpdatePoll::Idle),
                    WorkerResult::Available(rel) => UpdateAction::AskUser(rel),
                    WorkerResult::Downloaded(path) => {
                        self.downloading = false;
                        UpdateAction::SpawnInstaller(path)
                    },
                    WorkerResult::Failed(e) => {
                        self.downloading = false;
                        UpdateAction::Report(UpdatePoll::Error(e))
                    },
                }
            },
            UpdateEvent::UserAnswered { release, accepted } => {
                if accepted {
                    self.downloading = true;
                    self.awaiting_worker = true;
                    self.checking_started = true;
                    UpdateAction::StartDownload(release)
                } else {
                    UpdateAction::Report(UpdatePoll::Idle)
                }
            },
            UpdateEvent::DownloadStarted => {
                if self.downloading {
                    UpdateAction::Report(UpdatePoll::Downloading)
                } else {
                    UpdateAction::Report(UpdatePoll::Idle)
                }
            },
            UpdateEvent::InstallerSpawned(Ok(())) => UpdateAction::Report(UpdatePoll::LaunchInstaller),
            UpdateEvent::InstallerSpawned(Err(e)) => {
                let mut v = chars_of("Không thể mở trình cài đặt cập nhật: ");
                extend_chars(&mut v, &chars_of(e.as_str()));
                UpdateAction::Report(UpdatePoll::Error(string_from_chars(&v)))
            },
        }
    }
}

/// The updater after the first `i` of `events`, starting from `u`.
pub open spec fn state_at(u: Updater, events: Seq<UpdateEvent>, i: nat) -> Updater
    decreases i,
{
    if i == 0 {
        u
    } else {
        poll_next(state_at(u, events, (i - 1) as nat), events[i - 1])
    }
}

/// `answers` are what `poll` answered to `events`, one by one, starting from `u`.
pub open spec fn is_run(u: Updater, events: Seq<UpdateEvent>, answers: Seq<UpdateAction>) -> bool {
    &&& answers.len() == events.len()
    &&& forall|i: int|
        0 <= i < events.len() ==> poll_answer(
            state_at(u, events, i as nat),
            #[trigger] events[i],
            answers[i],
        )
}

/// An updater that has started nothing, as `Updater::new` makes it.
pub open spec fn is_fresh(u: Updater) -> bool {
    !u.checking_started && !u.awaiting_worker && !u.downloading
}

/// The event ends a download: its result, an installer or a failure, arrived.
pub open spec fn ends_download(e: UpdateEvent) -> bool {
    e matches UpdateEvent::Received(Some(WorkerResult::Downloaded(_)))
        || e matches UpdateEvent::Received(Some(WorkerResult::Failed(_)))
}

/// Law: before `UPDATE_DELAY_MS`, polling an updater that has started nothing
/// answers `Idle` every time and starts nothing.
pub proof fn lemma_quiet_before_delay(u: Updater, events: Seq<UpdateEvent>, answers: Seq<UpdateAction>)
    requires
        is_fresh(u),
        is_run(u, events, answers),
        forall|i: int|
            0 <= i < events.len() ==> (#[trigger] events[i] matches UpdateEvent::Tick { elapsed_ms }
                && elapsed_ms < UPDATE_DELAY_MS),
    ensures
        forall|i: int|
            0 <= i < answers.len() ==> #[trigger] answers[i] matches UpdateAction::Report(
                UpdatePoll::Idle,
            ),
        forall|i: nat| i <= events.len() ==> #[trigger] state_at(u, events, i) == u,
{
    assert forall|i: nat| i <= events.len() implies #[trigger] state_at(u, events, i) == u by {
        lemma_quiet_states(u, events, i);
    }
    assert forall|i: int| 0 <= i < answers.len() implies #[trigger] answers[i] matches UpdateAction::Report(
        UpdatePoll::Idle,
    ) by {
        lemma_quiet_states(u, events, i as nat);
        assert(poll_answer(state_at(u, events, i as nat), events[i], answers[i]));
    }
}

proof fn lemma_quiet_states(u: Updater, events: Seq<UpdateEvent>, i: nat)
    requires
        is_fresh(u),
        i <= events.len(),
        forall|k: int|
            0 <= k < events.len() ==> (#[trigger] events[k] matches UpdateEvent::Tick { elapsed_ms }
                && elapsed_ms < UPDATE_DELAY_MS),
    ensures
        state_at(u, events, i) == u,
    decreases i,
{
    if i > 0 {
        lemma_quiet_states(u, events, (i - 1) as nat);
        assert(events[i - 1] matches UpdateEvent::Tick { elapsed_ms } && elapsed_ms < UPDATE_DELAY_MS);
    }
}

/// Once the check has started it stays started.
proof fn lemma_check_stays_started(u: Updater, events: Seq<UpdateEvent>, i: nat, j: nat)
    requires
        i <= j <= events.len(),
        state_at(u, events, i).checking_started,
    ensures
        state_at(u, events, j).checking_started,
    decreases j - i,
{
    if j > i {
        lemma_check_stays_started(u, events, i, (j - 1) as nat);
    }
}

/// Law: in any run of the updater, the check is started at most once.
pub proof fn lemma_check_at_most_once(
    u: Updater,
    events: Seq<UpdateEvent>,
    answers: Seq<UpdateAction>,
    i: int,
    j: int,
)
    requires
        is_run(u, events, answers),
        0 <= i < j < answers.len(),
    ensures
        !(answers[i] is StartCheck && answers[j] is StartCheck),
{
    if answers[i] is StartCheck && answers[j] is StartCheck {
        assert(poll_answer(state_at(u, events, i as nat), events[i], answers[i]));
        assert(poll_answer(state_at(u, events, j as nat), events[j], answers[j]));
        assert(state_at(u, events, (i + 1) as nat) == poll_next(state_at(u, events, i as nat), events[i]));
        lemma_check_stays_started(u, events, (i + 1) as nat, j as nat);
    }
}

/// A download is running only after the user accepted an update, and no result
/// of a download arrived since.
pub open spec fn accepted_since(events: Seq<UpdateEvent>, i: int) -> bool {
    exists|j: int|
        0 <= j < i && (#[trigger] events[j] matches UpdateEvent::UserAnswered { accepted, .. } && accepted)
            && forall|k: int| j < k < i ==> !ends_download(#[trigger] events[k])
}

proof fn lemma_downloading_after_acceptance(u: Updater, events: Seq<UpdateEvent>, i: nat)
    requires
        is_fresh(u),
        i <= events.len(),
    ensures
        state_at(u, events, i).downloading ==> accepted_since(events, i as int),
    decreases i,
{
    if i > 0 {
        let p = (i - 1) as nat;
        lemma_downloading_after_acceptance(u, events, p);
        let e = events[p as int];
        if state_at(u, events, i).downloading {
            if e matches UpdateEvent::UserAnswered { accepted, .. } && accepted {
                assert(accepted_since(events, i as int)) by {
                    assert(forall|k: int| p < k < i ==> !ends_download(#[trigger] events[k]));
                }
            } else {
                assert(!ends_download(e));
                assert(state_at(u, events, p).downloading);
                let j = choose|j: int|
                    0 <= j < p && (#[trigger] events[j] matches UpdateEvent::UserAnswered { accepted, .. }
                        && accepted) && forall|k: int| j < k < p ==> !ends_download(#[trigger] events[k]);
                assert(forall|k: int| j < k < i ==> !ends_download(#[trigger] events[k])) by {
                    assert forall|k: int| j < k < i implies !ends_download(#[trigger] events[k]) by {
                        if k == p {
                            assert(events[k] == e);
                        }
                    }
                }
            }
        }
    }
}

/// Law: in any run from a fresh updater, `Downloading` is answered only after the
/// user accepted an update and before that download's result arrived;
/// `LaunchInstaller` only when the installer was started; and a failed job's error
/// is answered once, ending the download.
pub proof fn lemma_downloading_only_when_accepted(
    u: Updater,
    events: Seq<UpdateEvent>,
    answers: Seq<UpdateAction>,
    i: int,
)
    requires
        is_fresh(u),
        is_run(u, events, answers),
        0 <= i < answers.len(),
    ensures
        answers[i] matches UpdateAction::Report(UpdatePoll::Downloading) ==> accepted_since(
            events,
            i,
        ),
        answers[i] matches UpdateAction::Report(UpdatePoll::LaunchInstaller) ==> events[i] matches UpdateEvent::InstallerSpawned(Ok(_)),
        events[i] matches UpdateEvent::Received(Some(WorkerResult::Failed(e))) ==> answers[i]
            == UpdateAction::Report(UpdatePoll::Error(e)) && !state_at(
            u,
            events,
            (i + 1) as nat,
        ).downloading,
{
    assert(poll_answer(state_at(u, events, i as nat), events[i], answers[i]));
    lemma_downloading_after_acceptance(u, events, i as nat);
}

} // verus!
