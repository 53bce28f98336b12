//! The pull run itself, as a state machine. The machine decides what to
//! request, where to write, and in what order; the surrounding binary
//! performs each emitted action (an HTTP request, a directory creation, a
//! file write) and feeds the outcome back as the next event.
//!
//! A run is: one manifest request; then, per manifest entry in order,
//! directory creation, one file request, and a chunk-by-chunk streaming
//! write; the first failure of any kind aborts the whole run.

use vstd::prelude::*;
use crate::codec::{
    parse_manifest, parse_manifest_text, is_digit, digit_of, digits_end, digits_val, dec_str,
    append_dec,
};
use crate::config::{Config, ConfigView};
use crate::encode::{percent_encode, percent_encoded};
use crate::paths::{dest_path, parent_dir, dest_path_view, parent_of};
use crate::strings::{chars_of, string_of, append_str};

verus! {

// ---------------------------------------------------------------------
// Requests.
// ---------------------------------------------------------------------

/// One GET request to the server: the base endpoint and the identifying
/// headers. `location` is set only on file requests, and holds the
/// percent-encoded remote location.
pub struct HttpRequest {
    pub url: String,
    pub action: String,
    pub project: String,
    pub version: String,
    pub profile: String,
    pub auth: String,
    pub location: Option<String>,
}

/// The base endpoint, `http://{server}:{port}`.
pub open spec fn base_url_view(c: ConfigView) -> Seq<char> {
    "http://"@ + c.server + seq![':'] + dec_str(c.port as int)
}

/// The headers every request carries: the endpoint and the identifying
/// fields of the configuration.
pub open spec fn common_headers_ok(r: HttpRequest, c: ConfigView) -> bool {
    &&& r.url@ == base_url_view(c)
    &&& r.project@ == c.project
    &&& r.version@ == c.version
    &&& r.profile@ == c.profile
    &&& r.auth@ == c.auth
}

/// The one manifest request of a run.
pub open spec fn is_manifest_request(r: HttpRequest, c: ConfigView) -> bool {
    &&& common_headers_ok(r, c)
    &&& r.action@ == "pull-start"@
    &&& r.location is None
}

/// A file request for the location `loc`, with the location
/// percent-encoded in its header.
pub open spec fn is_file_request(r: HttpRequest, c: ConfigView, loc: Seq<char>) -> bool {
    &&& common_headers_ok(r, c)
    &&& r.action@ == "pull-file"@
    &&& r.location matches Some(l) && l@ == percent_encoded(vstd::utf8::encode_utf8(loc))
}

/// Builds `http://{server}:{port}`.
pub fn base_url(c: &Config) -> (u: String)
    ensures
        u@ == base_url_view(c@),
{
    let mut out: Vec<char> = Vec::new();
    append_str(&mut out, "http://");
    append_str(&mut out, c.server.as_str());
    out.push(':');
    append_dec(&mut out, c.port);
    proof {
        assert(out@ =~= base_url_view(c@));
    }
    string_of(&out)
}

fn manifest_request(c: &Config) -> (r: HttpRequest)
    ensures
        is_manifest_request(r, c@),
{
    HttpRequest {
        url: base_url(c),
        action: "pull-start".to_owned(),
        project: c.project.clone(),
        version: c.version.clone(),
        profile: c.profile.clone(),
        auth: c.auth.clone(),
        location: None,
    }
}

fn file_request(c: &Config, loc: &String) -> (r: HttpRequest)
    ensures
        is_file_request(r, c@, loc@),
{
    HttpRequest {
        url: base_url(c),
        action: "pull-file".to_owned(),
        project: c.project.clone(),
        version: c.version.clone(),
        profile: c.profile.clone(),
        auth: c.auth.clone(),
        location: Some(percent_encode(loc.as_str())),
    }
}

// ---------------------------------------------------------------------
// The content-length header.
// ---------------------------------------------------------------------

/// The progress total taken from a content-length header value: the
/// number it spells (an optional leading '+', then digits, fitting in
/// u64), or zero when it spells none.
pub open spec fn content_length_view(h: Seq<char>) -> u64 {
    let s: int = if h.len() > 0 && h[0] == '+' {
        1
    } else {
        0
    };
    if h.len() > s && digits_end(h, s) == h.len() && digits_val(h, s, h.len() as int)
        <= u64::MAX {
        digits_val(h, s, h.len() as int) as u64
    } else {
        0
    }
}

/// The progress total when the header may be absent.
pub open spec fn content_length_opt(h: Option<String>) -> u64 {
    match h {
        None => 0,
        Some(s) => content_length_view(s@),
    }
}

/// Reads a content-length header value; anything that is not a plain
/// decimal that fits in u64 counts as zero (an unknown total).
pub fn parse_content_length(h: &str) -> (n: u64)
    ensures
        n == content_length_view(h@),
{
    let v = chars_of(h);
    let start: usize = if v.len() > 0 && v[0] == '+' {
        1
    } else {
        0
    };
    if v.len() == start {
        return 0;
    }
    let mut j = start;
    let mut acc: u64 = 0;
    let mut over = false;
    while j < v.len()
        invariant
            start <= j <= v@.len(),
            v@ == h@,
            start as int == (if h@.len() > 0 && h@[0] == '+' {
                1int
            } else {
                0int
            }),
            digits_end(h@, start as int) == digits_end(h@, j as int),
            over <==> digits_val(h@, start as int, j as int) > u64::MAX,
            !over ==> acc == digits_val(h@, start as int, j as int),
        decreases v@.len() - j,
    {
        let c = v[j];
        let u = c as u32;
        if !(48 <= u && u <= 57) {
            proof {
                assert(!is_digit(h@[j as int]));
                assert(digits_end(h@, j as int) == j as int);
            }
            return 0;
        }
        let d = (u - 48) as u64;
        proof {
            assert(digits_val(h@, start as int, j + 1) == digits_val(h@, start as int, j as int)
                * 10 + digit_of(h@[j as int]));
        }
        if !over {
            if acc > 1844674407370955161 {
                over = true;
            } else {
                let acc2 = acc * 10;
                if acc2 > u64::MAX - d {
                    over = true;
                } else {
                    acc = acc2 + d;
                }
            }
        }
        j = j + 1;
    }
    if over {
        0
    } else {
        acc
    }
}

// ---------------------------------------------------------------------
// The machine.
// ---------------------------------------------------------------------

/// A structured progress or diagnostic message; the driver decides how to
/// show it.
pub enum Notice {
    /// A pull run is starting for this project/server/profile.
    PullStart { project: String, server: String, profile: String },
    /// One file is about to be downloaded.
    Downloading { location: String },
}

/// What happened outside: the outcome the driver feeds back after
/// performing the previous actions.
pub enum PullEvent {
    /// The manifest response body arrived.
    ManifestBody(String),
    /// The manifest request failed on the network.
    ManifestFailed,
    /// Directory creation finished (successfully or not).
    DirMade(bool),
    /// The file response arrived, with its content-length header if any.
    FileStarted(Option<String>),
    /// The file request or the stream failed on the network.
    FileFailed,
    /// The destination file was created (successfully or not).
    FileOpened(bool),
    /// One chunk of the response body arrived.
    Chunk(Vec<u8>),
    /// The pending chunk was written (successfully or not).
    ChunkWritten(bool),
    /// The response body ended.
    StreamEnd,
    /// The destination file was flushed (successfully or not).
    Flushed(bool),
}

/// What the driver must do next, in order.
pub enum PullAction {
    /// Issue the manifest request and feed back `ManifestBody` or
    /// `ManifestFailed`.
    FetchManifest(HttpRequest),
    /// Show a progress message.
    Announce(Notice),
    /// Create this directory and all its parents; feed back `DirMade`.
    MakeDirs(String),
    /// Issue this file request; feed back `FileStarted` or `FileFailed`.
    FetchFile(HttpRequest),
    /// Create (truncate) this file; feed back `FileOpened`.
    OpenFile(String),
    /// Start a progress display with this total (zero when unknown).
    StartProgress(u64),
    /// Write these bytes to the open file; feed back `ChunkWritten`.
    Write(Vec<u8>),
    /// Advance the progress display by this many bytes.
    BumpProgress(u64),
    /// Read the next body chunk; feed back `Chunk`, `StreamEnd` or
    /// `FileFailed`.
    NextChunk,
    /// Flush the open file; feed back `Flushed`.
    FlushFile,
    /// End the current file's progress display.
    EndProgress,
    /// The run finished: every file was downloaded.
    Finish,
    /// The run failed; the failure propagates and nothing more happens.
    Abort,
}

/// Where the machine stands.
#[derive(Clone, Copy)]
pub enum Phase {
    /// Waiting for the manifest response.
    FetchingManifest,
    /// Waiting for the current file's directories to be created.
    MakingDirs,
    /// Waiting for the current file's response.
    FetchingFile,
    /// Waiting for the destination file to be created.
    OpeningFile,
    /// Waiting for the next body chunk.
    Streaming,
    /// Waiting for a chunk of this size to be written.
    Writing { len: usize },
    /// Waiting for the destination file to be flushed.
    Finishing,
    /// The run completed.
    Done,
    /// The run failed.
    Failed,
}

/// The state of one pull run.
pub struct Machine {
    pub config: Config,
    pub files: Vec<String>,
    pub index: usize,
    pub phase: Phase,
}

/// A failing transition: the machine locks into its failed phase, the
/// rest of its state is kept, and the one emitted action is `Abort`.
pub open spec fn fails(pre: Machine, post: Machine, out: Seq<PullAction>) -> bool {
    &&& post.phase is Failed
    &&& post.config == pre.config
    &&& post.files == pre.files
    &&& post.index == pre.index
    &&& out.len() == 1
    &&& out[0] is Abort
}

/// The two actions that begin file number `i`: announce it, then create
/// its parent directories.
pub open spec fn starts_file(c: ConfigView, files: Seq<Seq<char>>, i: int, out: Seq<
    PullAction,
>) -> bool {
    &&& out.len() == 2
    &&& out[0] matches PullAction::Announce(n) && (n matches Notice::Downloading { location }
        && location@ == files[i])
    &&& out[1] matches PullAction::MakeDirs(d) && d@ == parent_of(dest_path_view(c.dir, files[i]))
}

/// An event reporting that outside work failed.
pub open spec fn is_failure_event(ev: PullEvent) -> bool {
    match ev {
        PullEvent::ManifestFailed => true,
        PullEvent::FileFailed => true,
        PullEvent::DirMade(ok) => !ok,
        PullEvent::FileOpened(ok) => !ok,
        PullEvent::ChunkWritten(ok) => !ok,
        PullEvent::Flushed(ok) => !ok,
        _ => false,
    }
}

/// The transition relation of the machine: what one `step` does for every
/// phase and event. An event that does not belong to the phase fails the
/// run.
pub open spec fn step_rel(pre: Machine, ev: PullEvent, post: Machine, out: Seq<
    PullAction,
>) -> bool {
    match (pre.phase, ev) {
        (Phase::FetchingManifest, PullEvent::ManifestBody(body)) => match parse_manifest_text(
            body@,
        ) {
            None => fails(pre, post, out),
            Some(fs) => {
                &&& post.config == pre.config
                &&& post.files.deep_view() == fs
                &&& post.index == 0
                &&& if fs.len() == 0 {
                    &&& post.phase is Done
                    &&& out.len() == 1
                    &&& out[0] is Finish
                } else {
                    &&& post.phase is MakingDirs
                    &&& starts_file(pre.config@, fs, 0, out)
                }
            },
        },
        (Phase::MakingDirs, PullEvent::DirMade(true)) => {
            if pre.index < pre.files@.len() {
                &&& post.config == pre.config
                &&& post.files == pre.files
                &&& post.index == pre.index
                &&& post.phase is FetchingFile
                &&& out.len() == 1
                &&& out[0] matches PullAction::FetchFile(r) && is_file_request(
                    r,
                    pre.config@,
                    pre.files@[pre.index as int]@,
                )
            } else {
                fails(pre, post, out)
            }
        },
        (Phase::FetchingFile, PullEvent::FileStarted(h)) => {
            if pre.index < pre.files@.len() {
                &&& post.config == pre.config
                &&& post.files == pre.files
                &&& post.index == pre.index
                &&& post.phase is OpeningFile
                &&& out.len() == 2
                &&& out[0] matches PullAction::StartProgress(t) && t == content_length_opt(h)
                &&& out[1] matches PullAction::OpenFile(p) && p@ == dest_path_view(
                    pre.config@.dir,
                    pre.files@[pre.index as int]@,
                )
            } else {
                fails(pre, post, out)
            }
        },
        (Phase::OpeningFile, PullEvent::FileOpened(true)) => {
            &&& post.config == pre.config
            &&& post.files == pre.files
            &&& post.index == pre.index
            &&& post.phase is Streaming
            &&& out.len() == 1
            &&& out[0] is NextChunk
        },
        (Phase::Streaming, PullEvent::Chunk(data)) => {
            &&& post.config == pre.config
            &&& post.files == pre.files
            &&& post.index == pre.index
            &&& post.phase matches Phase::Writing { len } && len == data@.len()
            &&& out.len() == 1
            &&& out[0] matches PullAction::Write(d) && d@ == data@
        },
        (Phase::Streaming, PullEvent::StreamEnd) => {
            &&& post.config == pre.config
            &&& post.files == pre.files
            &&& post.index == pre.index
            &&& post.phase is Finishing
            &&& out.len() == 1
            &&& out[0] is FlushFile
        },
        (Phase::Writing { len }, PullEvent::ChunkWritten(true)) => {
            &&& post.config == pre.config
            &&& post.files == pre.files
            &&& post.index == pre.index
            &&& post.phase is Streaming
            &&& out.len() == 2
            &&& out[0] matches PullAction::BumpProgress(n) && n == len as u64
            &&& out[1] is NextChunk
        },
        (Phase::Finishing, PullEvent::Flushed(true)) => {
            &&& post.config == pre.config
            &&& post.files == pre.files
            &&& if pre.index + 1 < pre.files@.len() {
                &&& post.index == pre.index + 1
                &&& post.phase is MakingDirs
                &&& out.len() == 3
                &&& out[0] is EndProgress
                &&& starts_file(
                    pre.config@,
                    pre.files.deep_view(),
                    pre.index + 1,
                    out.subrange(1, 3),
                )
            } else {
                &&& post.index == pre.index
                &&& post.phase is Done
                &&& out.len() == 2
                &&& out[0] is EndProgress
                &&& out[1] is Finish
            }
        },
        (Phase::Done, _) => {
            &&& post == pre
            &&& out.len() == 0
        },
        (Phase::Failed, _) => {
            &&& post == pre
            &&& out.len() == 0
        },
        _ => fails(pre, post, out),
    }
}

impl Machine {
    /// Begins a pull run: announces it and asks for the manifest.
    pub fn start(config: Config) -> (r: (Machine, Vec<PullAction>))
        ensures
            r.0.config == config,
            r.0.files@.len() == 0,
            r.0.index == 0,
            r.0.phase is FetchingManifest,
            r.1@.len() == 2,
            r.1@[0] matches PullAction::Announce(n) && (n matches Notice::PullStart {
                project,
                server,
                profile,
            } && project@ == config.project@ && server@ == config.server@ && profile@
                == config.profile@),
            r.1@[1] matches PullAction::FetchManifest(req) && is_manifest_request(req, config@),
    {
        let req = manifest_request(&config);
        let note = Notice::PullStart {
            project: config.project.clone(),
            server: config.server.clone(),
            profile: config.profile.clone(),
        };
        let mut out: Vec<PullAction> = Vec::new();
        out.push(PullAction::Announce(note));
        out.push(PullAction::FetchManifest(req));
        let m = Machine { config, files: Vec::new(), index: 0, phase: Phase::FetchingManifest };
        (m, out)
    }

    /// Locks the machine into its failed phase and emits `Abort`.
    fn fail(&mut self) -> (out: Vec<PullAction>)
        ensures
            fails(*old(self), *final(self), out@),
    {
        self.phase = Phase::Failed;
        let mut out: Vec<PullAction> = Vec::new();
        out.push(PullAction::Abort);
        out
    }

    /// Feeds one event to the machine; returns the actions the driver
    /// must now perform, in order.
    pub fn step(&mut self, ev: PullEvent) -> (out: Vec<PullAction>)
        ensures
            step_rel(*old(self), ev, *final(self), out@),
    {
        let phase = self.phase;
        match (phase, ev) {
            (Phase::FetchingManifest, PullEvent::ManifestBody(body)) => {
                match parse_manifest(body.as_str()) {
                    None => self.fail(),
                    Some(fs) => {
                        self.files = fs;
                        self.index = 0;
                        let mut out: Vec<PullAction> = Vec::new();
                        if self.files.len() == 0 {
                            self.phase = Phase::Done;
                            out.push(PullAction::Finish);
                        } else {
                            self.phase = Phase::MakingDirs;
                            let loc = &self.files[0];
                            let note = Notice::Downloading { location: loc.clone() };
                            let dest = dest_path(self.config.dir.as_str(), loc.as_str());
                            let parent = parent_dir(dest.as_str());
                            out.push(PullAction::Announce(note));
                            out.push(PullAction::MakeDirs(parent));
                        }
                        out
                    },
                }
            },
            (Phase::MakingDirs, PullEvent::DirMade(true)) => {
                if self.index < self.files.len() {
                    let req = file_request(&self.config, &self.files[self.index]);
                    self.phase = Phase::FetchingFile;
                    let mut out: Vec<PullAction> = Vec::new();
                    out.push(PullAction::FetchFile(req));
                    out
                } else {
                    self.fail()
                }
            },
            (Phase::FetchingFile, PullEvent::FileStarted(h)) => {
                if self.index < self.files.len() {
                    let total: u64 = match &h {
                        None => 0,
                        Some(s) => parse_content_length(s.as_str()),
                    };
                    let dest = dest_path(
                        self.config.dir.as_str(),
                        self.files[self.index].as_str(),
                    );
                    self.phase = Phase::OpeningFile;
                    let mut out: Vec<PullAction> = Vec::new();
                    out.push(PullAction::StartProgress(total));
                    out.push(PullAction::OpenFile(dest));
                    out
                } else {
                    self.fail()
                }
            },
            (Phase::OpeningFile, PullEvent::FileOpened(true)) => {
                self.phase = Phase::Streaming;
                let mut out: Vec<PullAction> = Vec::new();
                out.push(PullAction::NextChunk);
                out
            },
            (Phase::Streaming, PullEvent::Chunk(data)) => {
                self.phase = Phase::Writing { len: data.len() };
                let mut out: Vec<PullAction> = Vec::new();
                out.push(PullAction::Write(data));
                out
            },
            (Phase::Streaming, PullEvent::StreamEnd) => {
                self.phase = Phase::Finishing;
                let mut out: Vec<PullAction> = Vec::new();
                out.push(PullAction::FlushFile);
                out
            },
            (Phase::Writing { len }, PullEvent::ChunkWritten(true)) => {
                self.phase = Phase::Streaming;
                let mut out: Vec<PullAction> = Vec::new();
                out.push(PullAction::BumpProgress(len as u64));
                out.push(PullAction::NextChunk);
                out
            },
            (Phase::Finishing, PullEvent::Flushed(true)) => {
                let n = self.files.len();
                let mut out: Vec<PullAction> = Vec::new();
                out.push(PullAction::EndProgress);
                if self.index < n && n - self.index > 1 {
                    self.index = self.index + 1;
                    self.phase = Phase::MakingDirs;
                    let loc = &self.files[self.index];
                    let note = Notice::Downloading { location: loc.clone() };
                    let dest = dest_path(self.config.dir.as_str(), loc.as_str());
                    let parent = parent_dir(dest.as_str());
                    out.push(PullAction::Announce(note));
                    out.push(PullAction::MakeDirs(parent));
                    proof {
                        assert(out@.subrange(1, 3) =~= seq![out@[1], out@[2]]);
                    }
                } else {
                    self.phase = Phase::Done;
                    out.push(PullAction::Finish);
                }
                out
            },
            (Phase::Done, _) => Vec::new(),
            (Phase::Failed, _) => Vec::new(),
            _ => self.fail(),
        }
    }
}

// ---------------------------------------------------------------------
// What holds of every run.
// ---------------------------------------------------------------------

/// A file is in flight in these phases.
pub open spec fn mid_file(p: Phase) -> bool {
    match p {
        Phase::MakingDirs => true,
        Phase::FetchingFile => true,
        Phase::OpeningFile => true,
        Phase::Streaming => true,
        Phase::Writing { .. } => true,
        Phase::Finishing => true,
        _ => false,
    }
}

/// The machine's invariant: while a file is in flight, the manifest
/// position is in range.
pub open spec fn machine_inv(m: Machine) -> bool {
    mid_file(m.phase) ==> m.index < m.files@.len()
}

/// Every step keeps the invariant; `start` establishes it.
pub proof fn lemma_inv_preserved(pre: Machine, ev: PullEvent, post: Machine, out: Seq<PullAction>)
    requires
        step_rel(pre, ev, post, out),
        machine_inv(pre),
    ensures
        machine_inv(post),
{
}

/// A failing event in a live run fails it on the spot: the machine locks
/// into its failed phase and emits only `Abort` — no request, no write.
pub proof fn lemma_first_failure_aborts(
    pre: Machine,
    ev: PullEvent,
    post: Machine,
    out: Seq<PullAction>,
)
    requires
        step_rel(pre, ev, post, out),
        is_failure_event(ev),
        !(pre.phase is Done),
        !(pre.phase is Failed),
    ensures
        post.phase is Failed,
        out.len() == 1,
        out[0] is Abort,
{
}

/// A finished or failed machine never acts again: later files are never
/// attempted once the run has failed.
pub proof fn lemma_terminal_is_absorbing(
    pre: Machine,
    ev: PullEvent,
    post: Machine,
    out: Seq<PullAction>,
)
    requires
        step_rel(pre, ev, post, out),
        pre.phase is Done || pre.phase is Failed,
    ensures
        post == pre,
        out.len() == 0,
{
}

/// Every file request a step emits is for the current manifest entry,
/// with the location percent-encoded in its header; one is emitted only
/// when the current entry's directories were just made.
pub proof fn lemma_file_requests_follow_manifest(
    pre: Machine,
    ev: PullEvent,
    post: Machine,
    out: Seq<PullAction>,
)
    requires
        step_rel(pre, ev, post, out),
        machine_inv(pre),
    ensures
        forall|k: int|
            0 <= k < out.len() ==> ((#[trigger] out[k]) matches PullAction::FetchFile(r) ==> {
                &&& pre.phase is MakingDirs
                &&& ev matches PullEvent::DirMade(true)
                &&& pre.index < pre.files@.len()
                &&& is_file_request(r, pre.config@, pre.files@[pre.index as int]@)
                &&& post.index == pre.index
                &&& out.len() == 1
            }),
{
}

/// The manifest position is set once from the manifest and then advances
/// by at most one entry per step, exactly when a file finishes; the
/// manifest itself never changes after it is received.
pub proof fn lemma_index_advances_in_order(
    pre: Machine,
    ev: PullEvent,
    post: Machine,
    out: Seq<PullAction>,
)
    requires
        step_rel(pre, ev, post, out),
    ensures
        post.index == pre.index || post.index == pre.index + 1 || (pre.phase
            is FetchingManifest && post.index == 0),
        post.index == pre.index + 1 ==> pre.phase is Finishing && ev matches PullEvent::Flushed(
            true,
        ),
        post.files == pre.files || pre.phase is FetchingManifest,
{
}

/// The file requests among one step's actions, in order.
pub open spec fn fetches_of(out: Seq<PullAction>) -> Seq<PullAction>
    decreases out.len(),
{
    if out.len() == 0 {
        Seq::empty()
    } else {
        (if out[0] is FetchFile {
            seq![out[0]]
        } else {
            Seq::empty()
        }) + fetches_of(out.drop_first())
    }
}

/// The file requests a whole run has emitted, in order.
pub open spec fn run_requests(outs: Seq<Seq<PullAction>>) -> Seq<PullAction>
    decreases outs.len(),
{
    if outs.len() == 0 {
        Seq::empty()
    } else {
        run_requests(outs.drop_last()) + fetches_of(outs.last())
    }
}

/// A run of the machine: `ms` are the states it passes through under the
/// events `evs`, and `outs` the actions of each step.
pub open spec fn is_run(
    m0: Machine,
    evs: Seq<PullEvent>,
    ms: Seq<Machine>,
    outs: Seq<Seq<PullAction>>,
) -> bool {
    &&& ms.len() == evs.len() + 1
    &&& outs.len() == evs.len()
    &&& ms[0] == m0
    &&& forall|i: int|
        0 <= i < evs.len() ==> #[trigger] step_rel(ms[i], evs[i], ms[i + 1], outs[i])
}

/// How many file requests a state accounts for: one per finished file,
/// plus one for the file in flight once its request is out.
pub open spec fn request_count_ok(m: Machine, n: int) -> bool {
    match m.phase {
        Phase::FetchingManifest => n == 0,
        Phase::MakingDirs => n == m.index,
        Phase::FetchingFile => n == m.index + 1,
        Phase::OpeningFile => n == m.index + 1,
        Phase::Streaming => n == m.index + 1,
        Phase::Writing { .. } => n == m.index + 1,
        Phase::Finishing => n == m.index + 1,
        Phase::Done => n == m.files@.len(),
        Phase::Failed => n <= m.files@.len(),
    }
}

proof fn lemma_fetches_of_no_fetch(out: Seq<PullAction>)
    requires
        forall|j: int| 0 <= j < out.len() ==> !((#[trigger] out[j]) is FetchFile),
    ensures
        fetches_of(out) == Seq::<PullAction>::empty(),
    decreases out.len(),
{
    if out.len() > 0 {
        assert(forall|j: int|
            0 <= j < out.drop_first().len() ==> !((#[trigger] out.drop_first()[j]) is FetchFile));
        lemma_fetches_of_no_fetch(out.drop_first());
        assert(fetches_of(out) =~= Seq::<PullAction>::empty());
    } else {
        assert(fetches_of(out) =~= Seq::<PullAction>::empty());
    }
}

proof fn lemma_fetches_of_single(out: Seq<PullAction>)
    requires
        out.len() == 1,
        out[0] is FetchFile,
    ensures
        fetches_of(out) == seq![out[0]],
{
    assert(out.drop_first().len() == 0);
    assert(fetches_of(out.drop_first()) == Seq::<PullAction>::empty());
    assert(fetches_of(out) =~= seq![out[0]]);
}

/// Over any whole run that starts by fetching the manifest: the file
/// requests emitted so far are exactly one per manifest entry already
/// reached, in manifest order, each carrying its location
/// percent-encoded; and a run that completes has issued exactly one
/// request per manifest entry.
#[verifier::rlimit(60)]
pub proof fn lemma_run_requests_follow_manifest(
    m0: Machine,
    evs: Seq<PullEvent>,
    ms: Seq<Machine>,
    outs: Seq<Seq<PullAction>>,
)
    requires
        is_run(m0, evs, ms, outs),
        m0.phase is FetchingManifest,
    ensures
        ({
            let last = ms[ms.len() - 1];
            let reqs = run_requests(outs);
            &&& machine_inv(last)
            &&& last.config == m0.config
            &&& request_count_ok(last, reqs.len() as int)
            &&& reqs.len() <= last.files@.len()
            &&& forall|i: int|
                0 <= i < reqs.len() ==> ((#[trigger] reqs[i]) matches PullAction::FetchFile(r)
                    && is_file_request(r, last.config@, last.files@[i]@))
            &&& last.phase is Done ==> reqs.len() == last.files@.len()
        }),
    decreases evs.len(),
{
    let last = ms[ms.len() - 1];
    let reqs = run_requests(outs);
    if evs.len() == 0 {
        assert(last == m0);
        assert(reqs =~= Seq::<PullAction>::empty());
    } else {
        let k = evs.len() as int;
        let evs0 = evs.drop_last();
        let ms0 = ms.drop_last();
        let outs0 = outs.drop_last();
        assert(is_run(m0, evs0, ms0, outs0)) by {
            assert(ms0[0] == ms[0]);
            assert forall|i: int|
                0 <= i < evs0.len() implies #[trigger] step_rel(
                ms0[i],
                evs0[i],
                ms0[i + 1],
                outs0[i],
            ) by {
                assert(ms0[i] == ms[i]);
                assert(ms0[i + 1] == ms[i + 1]);
                assert(evs0[i] == evs[i]);
                assert(outs0[i] == outs[i]);
                assert(step_rel(ms[i], evs[i], ms[i + 1], outs[i]));
            }
        }
        lemma_run_requests_follow_manifest(m0, evs0, ms0, outs0);
        let prev = ms0[ms0.len() - 1];
        assert(prev == ms[k - 1]);
        let ev = evs[k - 1];
        let out = outs[k - 1];
        assert(step_rel(ms[k - 1], evs[k - 1], ms[k], outs[k - 1]));
        assert(last == ms[k]);
        let reqs0 = run_requests(outs0);
        assert(outs.last() == out);
        assert(reqs == reqs0 + fetches_of(out));
        lemma_inv_preserved(prev, ev, last, out);
        lemma_file_requests_follow_manifest(prev, ev, last, out);
        if prev.phase is MakingDirs && (ev matches PullEvent::DirMade(true)) && prev.index
            < prev.files@.len() {
            // exactly this step issues the request for the current entry
            assert(out.len() == 1 && out[0] is FetchFile);
            lemma_fetches_of_single(out);
            assert(reqs =~= reqs0.push(out[0]));
            assert(reqs.len() == reqs0.len() + 1);
            assert(reqs0.len() == prev.index);
            assert forall|i: int|
                0 <= i < reqs.len() implies ((#[trigger] reqs[i]) matches PullAction::FetchFile(r)
                && is_file_request(r, last.config@, last.files@[i]@)) by {
                if i < reqs0.len() {
                    assert(reqs[i] == reqs0[i]);
                } else {
                    assert(reqs[i] == out[0]);
                }
            }
        } else {
            // no other step issues a file request
            assert forall|j: int|
                0 <= j < out.len() implies !((#[trigger] out[j]) is FetchFile) by {
                if out[j] is FetchFile {
                    assert(prev.phase is MakingDirs && (ev matches PullEvent::DirMade(true))
                        && prev.index < prev.files@.len());
                }
            }
            lemma_fetches_of_no_fetch(out);
            assert(reqs =~= reqs0);
            if prev.phase is FetchingManifest {
                assert(reqs0.len() == 0);
            } else {
                assert(last.config == prev.config && (last.files == prev.files));
                assert forall|i: int|
                    0 <= i < reqs.len() implies ((#[trigger] reqs[i])
                    matches PullAction::FetchFile(r) && is_file_request(
                    r,
                    last.config@,
                    last.files@[i]@,
                )) by {
                    assert(reqs[i] == reqs0[i]);
                }
            }
        }
    }
}

} // verus!
