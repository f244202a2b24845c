//! What a client of a language server decides: which errors it reports, when the server is idle,
//! and what it reads out of the replies.

use vstd::prelude::*;

use crate::paths::{file_name, path_name};
use crate::text::{
    concat, contains_text, decimal, join, joined, opt_text, show_number, texts,
};

verus! {

/// The errors of a language server and of the talk with it.
#[derive(Debug, PartialEq, Eq)]
pub enum LspError {
    /// The program of the server is not installed.
    ServerNotFound(String),
    /// The server could not be started.
    StartupFailed(String),
    /// The server could not be initialized.
    InitializeFailed(String),
    /// The server did not answer within so many seconds.
    Timeout(u64),
    /// A message could not be sent.
    SendFailed(String),
    /// A reply could not be read.
    ParseFailed(String),
    /// A path has no URI.
    InvalidPath(String),
    /// The server answered with an error.
    ServerError(String),
}

impl LspError {
    /// The text that tells a reader what went wrong.
    pub open spec fn text(self) -> Seq<char> {
        match self {
            LspError::ServerNotFound(m) => m@ + " not found in PATH"@,
            LspError::StartupFailed(m) => "Failed to start language server: "@ + m@,
            LspError::InitializeFailed(m) => "Failed to initialize language server: "@ + m@,
            LspError::Timeout(s) => "LSP operation timed out after "@ + decimal(s as nat) + "s"@,
            LspError::SendFailed(m) => "Failed to send message: "@ + m@,
            LspError::ParseFailed(m) => "Failed to parse LSP response: "@ + m@,
            LspError::InvalidPath(m) => "Failed to convert a file path to a URI: "@ + m@,
            LspError::ServerError(m) => "Language server error: "@ + m@,
        }
    }

    /// The text that tells a reader what went wrong.
    pub fn describe(&self) -> (r: String)
        ensures
            r@ == self.text(),
    {
        match self {
            LspError::ServerNotFound(m) => concat(m.as_str(), " not found in PATH"),
            LspError::StartupFailed(m) => concat("Failed to start language server: ", m.as_str()),
            LspError::InitializeFailed(m) => concat(
                "Failed to initialize language server: ",
                m.as_str(),
            ),
            LspError::Timeout(s) => {
                let mut r = concat("LSP operation timed out after ", show_number(*s).as_str());
                r.append("s");
                r
            },
            LspError::SendFailed(m) => concat("Failed to send message: ", m.as_str()),
            LspError::ParseFailed(m) => concat("Failed to parse LSP response: ", m.as_str()),
            LspError::InvalidPath(m) => concat(
                "Failed to convert a file path to a URI: ",
                m.as_str(),
            ),
            LspError::ServerError(m) => concat("Language server error: ", m.as_str()),
        }
    }
}

/// What a client tells the server that it can handle.
#[derive(Debug, Clone, Copy, PartialEq, Eq, Structural)]
pub struct Capabilities {
    /// Symbols may come as trees, with the place of each name.
    pub hierarchical_document_symbols: bool,
    /// The server may report the progress of its work.
    pub work_done_progress: bool,
}

/// How long a client waits, in seconds, and what it can handle.
#[derive(Debug, Clone, Copy, PartialEq, Eq, Structural)]
pub struct LspClientOptions {
    /// For the analysis of an opened document.
    pub open_document_timeout: u64,
    /// For the handshake.
    pub initialize_timeout: u64,
    /// For the answer to a request.
    pub request_timeout: u64,
    /// For the end of the server.
    pub shutdown_timeout: u64,
    /// For the end of all work that the server has announced.
    pub idle_timeout: u64,
    /// For the first announcement of work. Without one the server has nothing to do.
    pub progress_startup_grace: u64,
    pub capabilities: Option<Capabilities>,
}

impl Default for LspClientOptions {
    fn default() -> (r: Self)
        ensures
            r == (LspClientOptions {
                open_document_timeout: 1,
                initialize_timeout: 10,
                request_timeout: 5,
                shutdown_timeout: 2,
                idle_timeout: 120,
                progress_startup_grace: 2,
                capabilities: None,
            }),
    {
        LspClientOptions {
            open_document_timeout: 1,
            initialize_timeout: 10,
            request_timeout: 5,
            shutdown_timeout: 2,
            idle_timeout: 120,
            progress_startup_grace: 2,
            capabilities: None,
        }
    }
}

impl LspClientOptions {
    /// The options for gopls. It is slow to announce its work, and it gives the place of a name
    /// only where symbols may come as trees.
    pub fn for_gopls() -> (r: Self)
        ensures
            r == (LspClientOptions {
                open_document_timeout: 30,
                initialize_timeout: 30,
                request_timeout: 30,
                shutdown_timeout: 5,
                idle_timeout: 300,
                progress_startup_grace: 10,
                capabilities: Some(
                    Capabilities { hierarchical_document_symbols: true, work_done_progress: true },
                ),
            }),
    {
        LspClientOptions {
            open_document_timeout: 30,
            initialize_timeout: 30,
            request_timeout: 30,
            shutdown_timeout: 5,
            idle_timeout: 300,
            progress_startup_grace: 10,
            capabilities: Some(
                Capabilities { hierarchical_document_symbols: true, work_done_progress: true },
            ),
        }
    }
}

/// The `file` URL of a path, which only an absolute path has.
pub uninterp spec fn file_url_of(path: Seq<char>) -> Option<Seq<char>>;

/// `Url::from_file_path` of the url crate, which lsp_types exports: the `file` URL of a path, with
/// the bytes escaped that a URL cannot hold. There is one exactly for an absolute path. On Unix,
/// whose paths this library reads, that is one which starts with a slash. The result depends on the
/// path alone.
#[verifier::external_body]
fn url_from_file_path(path: &str) -> (r: Option<String>)
    ensures
        opt_text(r) == file_url_of(path@),
        (r is Some) == (path@.len() > 0 && path@[0] == '/'),
{
    match lsp_types::Url::from_file_path(path) {
        Ok(url) => Some(url.to_string()),
        Err(()) => None,
    }
}

/// The path of a `file` URL.
pub uninterp spec fn path_of_url(url: Seq<char>) -> Option<Seq<char>>;

/// `Url::parse` and `Url::to_file_path` of the url crate, which lsp_types exports: the path that a
/// URL stands for, with its escapes resolved. There is none where the text is no URL, where it
/// names another host or has no path, and where the path is not valid UTF-8. The result depends on
/// the text alone.
#[verifier::external_body]
fn url_to_file_path(url: &str) -> (r: Option<String>)
    ensures
        opt_text(r) == path_of_url(url@),
{
    let path = lsp_types::Url::parse(url).ok()?.to_file_path().ok()?;
    path.into_os_string().into_string().ok()
}

/// The `file` URL of a path.
pub fn file_url(path: &str) -> (r: Result<String, LspError>)
    ensures
        match r {
            Ok(url) => file_url_of(path@) == Some(url@),
            Err(e) => e matches LspError::InvalidPath(p) && p@ == path@ && file_url_of(
                path@,
            ) is None,
        },
        r is Ok <==> path@.len() > 0 && path@[0] == '/',
{
    match url_from_file_path(path) {
        Some(url) => Ok(url),
        None => Err(LspError::InvalidPath(path.to_string())),
    }
}

/// The path of a `file` URL.
pub fn url_path(url: &str) -> (r: Option<String>)
    ensures
        opt_text(r) == path_of_url(url@),
{
    url_to_file_path(url)
}

/// Why a server did not start.
#[derive(Debug)]
pub enum StartupFailure {
    /// No program of this name was found.
    NoBinary(String),
    /// The process could not be started, for this reason.
    NoProcess(String),
    /// The process has no output that can be read.
    NoOutput,
    /// The process has no input that can be written.
    NoInput,
    /// The path of the workspace is not valid UTF-8.
    UnreadableWorkspace,
    /// The server could not be told that the handshake is over, for this reason.
    NotConfirmed(String),
}

/// The error that tells of a failed start.
pub fn startup_error(f: StartupFailure) -> (r: LspError)
    ensures
        match f {
            StartupFailure::NoBinary(b) => r == LspError::ServerNotFound(b),
            StartupFailure::NoProcess(e) => r matches LspError::StartupFailed(m) && m@
                == "Failed to spawn process: "@ + e@,
            StartupFailure::NoOutput => r matches LspError::StartupFailed(m) && m@
                == "Failed to get stdout handle"@,
            StartupFailure::NoInput => r matches LspError::StartupFailed(m) && m@
                == "Failed to get stdin handle"@,
            StartupFailure::UnreadableWorkspace => r matches LspError::StartupFailed(m) && m@
                == "Invalid workspace path (non-UTF8)"@,
            StartupFailure::NotConfirmed(e) => r matches LspError::InitializeFailed(m) && m@
                == "Failed to send initialized: "@ + e@,
        },
{
    match f {
        StartupFailure::NoBinary(b) => LspError::ServerNotFound(b),
        StartupFailure::NoProcess(e) => LspError::StartupFailed(
            concat("Failed to spawn process: ", e.as_str()),
        ),
        StartupFailure::NoOutput => LspError::StartupFailed(
            "Failed to get stdout handle".to_string(),
        ),
        StartupFailure::NoInput => LspError::StartupFailed(
            "Failed to get stdin handle".to_string(),
        ),
        StartupFailure::UnreadableWorkspace => LspError::StartupFailed(
            "Invalid workspace path (non-UTF8)".to_string(),
        ),
        StartupFailure::NotConfirmed(e) => LspError::InitializeFailed(
            concat("Failed to send initialized: ", e.as_str()),
        ),
    }
}

/// A directory that the server works on.
#[derive(Debug)]
pub struct WorkspaceFolder {
    pub uri: String,
    pub name: String,
}

/// The workspace in the directory `root`, under the name of the directory.
pub fn workspace_folder(root: &str) -> (r: Result<WorkspaceFolder, LspError>)
    ensures
        match r {
            Ok(f) => file_url_of(root@) == Some(f.uri@) && f.name@ == (match path_name(root@) {
                Some(n) => n,
                None => "workspace"@,
            }),
            Err(e) => e matches LspError::StartupFailed(m) && m@ == "Invalid workspace path"@
                && file_url_of(root@) is None,
        },
        r is Ok <==> root@.len() > 0 && root@[0] == '/',
{
    match url_from_file_path(root) {
        Some(uri) => {
            let name = match file_name(root) {
                Some(n) => n,
                None => "workspace".to_string(),
            };
            Ok(WorkspaceFolder { uri, name })
        },
        None => Err(LspError::StartupFailed("Invalid workspace path".to_string())),
    }
}

/// What came of a request.
#[derive(Debug)]
pub enum Reply<T> {
    Answer(T),
    /// The server failed, for this reason.
    Failure(String),
    /// The time was up.
    Elapsed,
}

/// The answer to a request that was waited for so many seconds.
pub fn answered<T>(reply: Reply<T>, seconds: u64) -> (r: Result<T, LspError>)
    ensures
        match reply {
            Reply::Answer(a) => r == Ok::<T, LspError>(a),
            Reply::Failure(e) => r == Err::<T, LspError>(LspError::ServerError(e)),
            Reply::Elapsed => r == Err::<T, LspError>(LspError::Timeout(seconds)),
        },
{
    match reply {
        Reply::Answer(a) => Ok(a),
        Reply::Failure(e) => Err(LspError::ServerError(e)),
        Reply::Elapsed => Err(LspError::Timeout(seconds)),
    }
}

/// The answer to the handshake that was waited for so many seconds.
pub fn initialized<T>(reply: Reply<T>, seconds: u64) -> (r: Result<T, LspError>)
    ensures
        match reply {
            Reply::Answer(a) => r == Ok::<T, LspError>(a),
            Reply::Failure(e) => r == Err::<T, LspError>(LspError::InitializeFailed(e)),
            Reply::Elapsed => r == Err::<T, LspError>(LspError::Timeout(seconds)),
        },
{
    match reply {
        Reply::Answer(a) => Ok(a),
        Reply::Failure(e) => Err(LspError::InitializeFailed(e)),
        Reply::Elapsed => Err(LspError::Timeout(seconds)),
    }
}

/// The documents that the server has been told of, by their URLs.
#[derive(Debug)]
pub struct OpenedDocuments {
    pub urls: Vec<String>,
}

impl OpenedDocuments {
    pub fn new() -> (r: Self)
        ensures
            texts(r.urls@) == Seq::<Seq<char>>::empty(),
    {
        let urls: Vec<String> = Vec::new();
        assert(texts(urls@) =~= Seq::<Seq<char>>::empty());
        OpenedDocuments { urls }
    }

    /// The URL under which a document has to be announced to the server, or none if it has been.
    /// The document is announced once only.
    pub fn open(&mut self, path: &str) -> (r: Result<Option<String>, LspError>)
        ensures
            match file_url_of(path@) {
                None => r matches Err(e) && e matches LspError::InvalidPath(p) && p@ == path@
                    && texts(final(self).urls@) == texts(old(self).urls@),
                Some(u) => if texts(old(self).urls@).contains(u) {
                    r == Ok::<Option<String>, LspError>(None) && texts(final(self).urls@) == texts(
                        old(self).urls@,
                    )
                } else {
                    r matches Ok(Some(x)) && x@ == u && texts(final(self).urls@) == texts(
                        old(self).urls@,
                    ).push(u)
                },
            },
    {
        let url = match file_url(path) {
            Ok(u) => u,
            Err(e) => {
                return Err(e);
            },
        };
        let ghost s = texts(self.urls@);
        if contains_text(&self.urls, url.as_str()) {
            return Ok(None);
        }
        self.urls.push(url.clone());
        assert(texts(self.urls@) =~= s.push(url@));
        Ok(Some(url))
    }
}

/// What a server says about work that it has announced.
#[derive(Debug, Clone, Copy, PartialEq, Eq, Structural)]
pub enum ProgressEvent {
    Created,
    Begun,
    Reported,
    Ended,
}

/// The number of announced works that have not ended, after an event. It wraps around, as an
/// atomic counter does.
pub fn active_after(active: usize, event: ProgressEvent) -> (r: usize)
    ensures
        r == (match event {
            ProgressEvent::Created => if active == usize::MAX {
                0
            } else {
                active + 1
            },
            ProgressEvent::Ended => if active == 0 {
                usize::MAX as int
            } else {
                active - 1
            },
            _ => active as int,
        }),
{
    match event {
        ProgressEvent::Created => if active == usize::MAX {
            0
        } else {
            active + 1
        },
        ProgressEvent::Ended => if active == 0 {
            usize::MAX
        } else {
            active - 1
        },
        _ => active,
    }
}

/// What is being waited for.
#[derive(Debug, Clone, Copy, PartialEq, Eq, Structural)]
pub enum IdleWait {
    /// That the server announces work.
    Starting,
    /// That all work has ended.
    Draining,
}

/// What can happen while waiting.
#[derive(Debug, Clone, Copy, PartialEq, Eq, Structural)]
pub enum IdleEvent {
    /// So many works are going on.
    Active(usize),
    /// The time of this wait is up.
    Deadline,
}

/// What to do next.
#[derive(Debug, Clone, Copy, PartialEq, Eq, Structural)]
pub enum IdleStep {
    /// Go on with this wait.
    Wait(IdleWait),
    /// The server is idle.
    Idle,
    /// The server did not become idle in time.
    TimedOut,
}

/// Before any work is announced, the server is idle once the time for that is up. After that it is
/// idle when no work is left, and late when the time is up first.
pub fn idle_step(wait: IdleWait, event: IdleEvent) -> (r: IdleStep)
    ensures
        r == (match (wait, event) {
            (IdleWait::Starting, IdleEvent::Active(n)) => IdleStep::Wait(
                if n > 0 {
                    IdleWait::Draining
                } else {
                    IdleWait::Starting
                },
            ),
            (IdleWait::Starting, IdleEvent::Deadline) => IdleStep::Idle,
            (IdleWait::Draining, IdleEvent::Active(n)) => if n == 0 {
                IdleStep::Idle
            } else {
                IdleStep::Wait(IdleWait::Draining)
            },
            (IdleWait::Draining, IdleEvent::Deadline) => IdleStep::TimedOut,
        }),
{
    match (wait, event) {
        (IdleWait::Starting, IdleEvent::Active(n)) => if n > 0 {
            IdleStep::Wait(IdleWait::Draining)
        } else {
            IdleStep::Wait(IdleWait::Starting)
        },
        (IdleWait::Starting, IdleEvent::Deadline) => IdleStep::Idle,
        (IdleWait::Draining, IdleEvent::Active(n)) => if n == 0 {
            IdleStep::Idle
        } else {
            IdleStep::Wait(IdleWait::Draining)
        },
        (IdleWait::Draining, IdleEvent::Deadline) => IdleStep::TimedOut,
    }
}

/// A piece of a hover text.
#[derive(Debug)]
pub enum MarkedString {
    Plain(String),
    /// Code of a language.
    LanguageString { language: String, value: String },
}

/// A hover text.
#[derive(Debug)]
pub enum HoverContents {
    Scalar(MarkedString),
    Array(Vec<MarkedString>),
    Markup(String),
}

/// What a server shows for a position.
#[derive(Debug)]
pub struct Hover {
    pub contents: HoverContents,
}

impl MarkedString {
    /// The text of the piece.
    pub open spec fn text(self) -> Seq<char> {
        match self {
            MarkedString::Plain(s) => s@,
            MarkedString::LanguageString { value, .. } => value@,
        }
    }

    /// The text of the piece, if it has one.
    fn value(&self) -> (r: Option<String>)
        ensures
            opt_text(r) == some_text(self.text()),
    {
        match self {
            MarkedString::Plain(s) => non_empty(s.as_str()),
            MarkedString::LanguageString { value, .. } => non_empty(value.as_str()),
        }
    }
}

/// The text, unless it is empty.
pub open spec fn some_text(s: Seq<char>) -> Option<Seq<char>> {
    if s.len() == 0 {
        None
    } else {
        Some(s)
    }
}

/// The texts of the pieces that have one.
pub open spec fn piece_texts(v: Seq<MarkedString>) -> Seq<Seq<char>>
    decreases v.len(),
{
    if v.len() == 0 {
        Seq::empty()
    } else if v.last().text().len() == 0 {
        piece_texts(v.drop_last())
    } else {
        piece_texts(v.drop_last()).push(v.last().text())
    }
}

/// The text of a hover; pieces stand on lines of their own, empty ones are left out.
pub open spec fn hover_text(c: HoverContents) -> Option<Seq<char>> {
    match c {
        HoverContents::Scalar(m) => some_text(m.text()),
        HoverContents::Markup(s) => some_text(s@),
        HoverContents::Array(v) => if piece_texts(v@).len() == 0 {
            None
        } else {
            Some(joined(piece_texts(v@), "\n"@))
        },
    }
}

/// The text, unless it is empty.
fn non_empty(s: &str) -> (r: Option<String>)
    ensures
        opt_text(r) == some_text(s@),
{
    if s.is_empty() {
        None
    } else {
        Some(s.to_string())
    }
}

/// The type that a hover shows, as a text for a reader.
pub fn extract_type_from_hover(hover: &Hover) -> (r: Option<String>)
    ensures
        opt_text(r) == hover_text(hover.contents),
{
    match &hover.contents {
        HoverContents::Scalar(m) => m.value(),
        HoverContents::Markup(s) => non_empty(s.as_str()),
        HoverContents::Array(items) => {
            let ghost s = items@;
            let mut values: Vec<String> = Vec::new();
            let mut i: usize = 0;
            assert(texts(values@) =~= piece_texts(s.subrange(0, 0)));
            while i < items.len()
                invariant
                    i <= items@.len(),
                    s == items@,
                    texts(values@) == piece_texts(s.subrange(0, i as int)),
                decreases items@.len() - i,
            {
                let ghost u = s.subrange(0, i + 1);
                let ghost before = texts(values@);
                assert(u.drop_last() =~= s.subrange(0, i as int));
                assert(u.last() == items@[i as int]);
                if let Some(v) = items[i].value() {
                    values.push(v);
                    assert(texts(values@) =~= before.push(v@));
                }
                i = i + 1;
            }
            assert(s.subrange(0, s.len() as int) =~= s);
            assert(texts(values@).len() == values@.len());
            if values.len() == 0 {
                None
            } else {
                Some(join(&values, "\n"))
            }
        },
    }
}

} // verus!
