//! Error types for the pi agent.

use vstd::prelude::*;

use crate::text::{decimal, decimal_text};

verus! {

/// File-system error category.
#[derive(Debug, Clone, Copy, PartialEq, Eq, Structural)]
pub enum FileErrorCode {
    /// File or directory does not exist.
    NotFound,
    /// Permission denied by the operating system or policy.
    PermissionDenied,
    /// Input path was invalid for the requested operation.
    InvalidPath,
    /// File content was malformed or could not be decoded.
    InvalidData,
    /// An unspecified file-system error occurred.
    Other,
}

/// The name of a file-system error category.
pub open spec fn file_code_text(code: FileErrorCode) -> Seq<char> {
    match code {
        FileErrorCode::NotFound => "not_found"@,
        FileErrorCode::PermissionDenied => "permission_denied"@,
        FileErrorCode::InvalidPath => "invalid_path"@,
        FileErrorCode::InvalidData => "invalid_data"@,
        FileErrorCode::Other => "other"@,
    }
}

impl FileErrorCode {
    /// The name of the category.
    pub fn to_text(&self) -> (r: String)
        ensures
            r@ == file_code_text(*self),
    {
        let code: &str = match self {
            FileErrorCode::NotFound => "not_found",
            FileErrorCode::PermissionDenied => "permission_denied",
            FileErrorCode::InvalidPath => "invalid_path",
            FileErrorCode::InvalidData => "invalid_data",
            FileErrorCode::Other => "other",
        };
        code.to_owned()
    }
}

/// Structured file-system error.
#[derive(Debug, PartialEq, Eq)]
pub struct FileError {
    /// Machine-readable file error code.
    pub code: FileErrorCode,
    /// Path involved in the operation.
    pub path: String,
    /// Human-readable error message.
    pub message: String,
}

impl FileError {
    /// Create a file-system error with a code, path, and message.
    pub fn new(code: FileErrorCode, path: &str, message: &str) -> (r: Self)
        ensures
            r.code == code,
            r.path@ == path@,
            r.message@ == message@,
    {
        FileError { code, path: path.to_owned(), message: message.to_owned() }
    }
}

/// Process or command execution error category.
#[derive(Debug, Clone, Copy, PartialEq, Eq, Structural)]
pub enum ExecutionErrorCode {
    /// Execution was aborted.
    Aborted,
    /// Execution exceeded its timeout.
    Timeout,
    /// Shell was unavailable.
    ShellUnavailable,
    /// Process exited unsuccessfully.
    ExitStatus,
    /// An unspecified execution error occurred.
    Other,
}

/// The name of an execution error category.
pub open spec fn execution_code_text(code: ExecutionErrorCode) -> Seq<char> {
    match code {
        ExecutionErrorCode::Aborted => "aborted"@,
        ExecutionErrorCode::Timeout => "timeout"@,
        ExecutionErrorCode::ShellUnavailable => "shell_unavailable"@,
        ExecutionErrorCode::ExitStatus => "exit_status"@,
        ExecutionErrorCode::Other => "other"@,
    }
}

impl ExecutionErrorCode {
    /// The name of the category.
    pub fn to_text(&self) -> (r: String)
        ensures
            r@ == execution_code_text(*self),
    {
        let code: &str = match self {
            ExecutionErrorCode::Aborted => "aborted",
            ExecutionErrorCode::Timeout => "timeout",
            ExecutionErrorCode::ShellUnavailable => "shell_unavailable",
            ExecutionErrorCode::ExitStatus => "exit_status",
            ExecutionErrorCode::Other => "other",
        };
        code.to_owned()
    }
}

/// Structured process or command execution error.
#[derive(Debug, PartialEq, Eq)]
pub struct ExecutionError {
    /// Machine-readable execution error code.
    pub code: ExecutionErrorCode,
    /// Human-readable error message.
    pub message: String,
}

impl ExecutionError {
    /// Create an execution error with a code and message.
    pub fn new(code: ExecutionErrorCode, message: &str) -> (r: Self)
        ensures
            r.code == code,
            r.message@ == message@,
    {
        ExecutionError { code, message: message.to_owned() }
    }
}

/// Structured compaction error.
#[derive(Debug, PartialEq, Eq)]
pub struct CompactionError {
    /// Human-readable error message.
    pub message: String,
}

impl CompactionError {
    /// Create a compaction error.
    pub fn new(message: &str) -> (r: Self)
        ensures
            r.message@ == message@,
    {
        CompactionError { message: message.to_owned() }
    }
}

/// Structured session persistence error.
#[derive(Debug, PartialEq, Eq)]
pub struct SessionError {
    /// Human-readable error message.
    pub message: String,
}

impl SessionError {
    /// Create a session error.
    pub fn new(message: &str) -> (r: Self)
        ensures
            r.message@ == message@,
    {
        SessionError { message: message.to_owned() }
    }
}

/// Structured extension runtime error.
#[derive(Debug, PartialEq, Eq)]
pub struct ExtensionError {
    /// Human-readable error message.
    pub message: String,
}

impl ExtensionError {
    /// Create an extension error.
    pub fn new(message: &str) -> (r: Self)
        ensures
            r.message@ == message@,
    {
        ExtensionError { message: message.to_owned() }
    }
}

/// Structured LLM provider error.
#[derive(Debug, PartialEq, Eq)]
pub enum ProviderError {
    /// Provider returned a non-success HTTP status.
    Http {
        /// HTTP status code returned by the provider.
        status: u16,
        /// Provider response body or error text.
        body: String,
    },
    /// Provider rate-limited the request.
    RateLimited {
        /// HTTP status code returned by the provider.
        status: u16,
        /// Provider response body or error text.
        body: String,
    },
    /// Provider rejected the request because the context window was exceeded.
    ContextOverflow {
        /// Number of tokens in the request.
        token_count: u32,
        /// Model context window size.
        context_window: u32,
    },
    /// Provider returned malformed or unexpected response data.
    MalformedResponse {
        /// Human-readable error message.
        message: String,
    },
    /// Provider stream failed or ended unexpectedly.
    Stream {
        /// Human-readable error message.
        message: String,
    },
    /// Provider request timed out.
    Timeout {
        /// Timeout duration in milliseconds.
        milliseconds: u64,
    },
    /// Other provider error.
    Other {
        /// Human-readable error message.
        message: String,
    },
}

/// What a provider error holds.
pub enum ProviderErrorView {
    Http { status: u16, body: Seq<char> },
    RateLimited { status: u16, body: Seq<char> },
    ContextOverflow { token_count: u32, context_window: u32 },
    MalformedResponse { message: Seq<char> },
    Stream { message: Seq<char> },
    Timeout { milliseconds: u64 },
    Other { message: Seq<char> },
}

impl DeepView for ProviderError {
    type V = ProviderErrorView;

    open spec fn deep_view(&self) -> ProviderErrorView {
        match *self {
            ProviderError::Http { status, body } => ProviderErrorView::Http { status, body: body@ },
            ProviderError::RateLimited { status, body } => ProviderErrorView::RateLimited {
                status,
                body: body@,
            },
            ProviderError::ContextOverflow { token_count, context_window } => {
                ProviderErrorView::ContextOverflow { token_count, context_window }
            },
            ProviderError::MalformedResponse { message } => ProviderErrorView::MalformedResponse {
                message: message@,
            },
            ProviderError::Stream { message } => ProviderErrorView::Stream { message: message@ },
            ProviderError::Timeout { milliseconds } => ProviderErrorView::Timeout { milliseconds },
            ProviderError::Other { message } => ProviderErrorView::Other { message: message@ },
        }
    }
}

/// The text of a provider error.
pub open spec fn provider_error_text(e: ProviderErrorView) -> Seq<char> {
    match e {
        ProviderErrorView::Http { status, body } => "http error ("@ + decimal(status as nat)
            + "): "@ + body,
        ProviderErrorView::RateLimited { status, body } => "rate limited ("@ + decimal(
            status as nat,
        ) + "): "@ + body,
        ProviderErrorView::ContextOverflow { token_count, context_window } => {
            "context window exceeded: "@ + decimal(token_count as nat) + "/"@ + decimal(
                context_window as nat,
            )
        },
        ProviderErrorView::MalformedResponse { message } => "malformed response: "@ + message,
        ProviderErrorView::Stream { message } => "stream error: "@ + message,
        ProviderErrorView::Timeout { milliseconds } => "timeout after "@ + decimal(
            milliseconds as nat,
        ) + "ms"@,
        ProviderErrorView::Other { message } => message,
    }
}

/// The provider error for an HTTP status and a response body.
pub open spec fn http_error(status: u16, body: Seq<char>) -> ProviderErrorView {
    if status == 429 {
        ProviderErrorView::RateLimited { status, body }
    } else {
        ProviderErrorView::Http { status, body }
    }
}

impl ProviderError {
    /// Build a provider error from an HTTP status code and response body.
    pub fn http_status(status: u16, body: &str) -> (r: Self)
        ensures
            r.deep_view() == http_error(status, body@),
    {
        if status == 429 {
            ProviderError::RateLimited { status, body: body.to_owned() }
        } else {
            ProviderError::Http { status, body: body.to_owned() }
        }
    }

    /// The text of the error.
    pub fn to_text(&self) -> (r: String)
        ensures
            r@ == provider_error_text(self.deep_view()),
    {
        let mut r: String = String::new();
        match self {
            ProviderError::Http { status, body } => {
                r.push_str("http error (");
                r.push_str(&decimal_text(*status as u64));
                r.push_str("): ");
                r.push_str(body);
            },
            ProviderError::RateLimited { status, body } => {
                r.push_str("rate limited (");
                r.push_str(&decimal_text(*status as u64));
                r.push_str("): ");
                r.push_str(body);
            },
            ProviderError::ContextOverflow { token_count, context_window } => {
                r.push_str("context window exceeded: ");
                r.push_str(&decimal_text(*token_count as u64));
                r.push_str("/");
                r.push_str(&decimal_text(*context_window as u64));
            },
            ProviderError::MalformedResponse { message } => {
                r.push_str("malformed response: ");
                r.push_str(message);
            },
            ProviderError::Stream { message } => {
                r.push_str("stream error: ");
                r.push_str(message);
            },
            ProviderError::Timeout { milliseconds } => {
                r.push_str("timeout after ");
                r.push_str(&decimal_text(*milliseconds));
                r.push_str("ms");
            },
            ProviderError::Other { message } => {
                r.push_str(message);
            },
        }
        assert(r@ =~= provider_error_text(self.deep_view()));
        r
    }
}

/// What kind of I/O error occurred.
#[derive(Debug, Clone, Copy, PartialEq, Eq, Structural)]
pub enum IoErrorKind {
    /// The input was not acceptable.
    InvalidInput,
    /// The data was malformed.
    InvalidData,
    /// Any other I/O error.
    Other,
}

/// An I/O error.
#[derive(Debug, PartialEq, Eq)]
pub struct IoError {
    /// What kind of error occurred.
    pub kind: IoErrorKind,
    /// Human-readable error message.
    pub message: String,
}

/// The primary error type for all pi agent operations.
#[derive(Debug, PartialEq, Eq)]
pub enum PiError {
    /// Errors from an LLM provider (API failures, rate limits, etc.).
    Provider(ProviderError),
    /// Errors during tool execution.
    Tool {
        /// Name of the tool that failed.
        tool: String,
        /// Error message.
        message: String,
    },
    /// Configuration errors (missing fields, invalid values).
    Config(String),
    /// I/O errors (file system, network).
    Io(IoError),
    /// JSON serialization/deserialization errors, by their message.
    Serialization(String),
    /// Request timed out.
    Timeout(u64),
    /// Token limit exceeded.
    TokenLimit {
        /// Tokens used.
        used: u32,
        /// Token limit.
        limit: u32,
    },
    /// Compaction accounting errors.
    Compaction(CompactionError),
    /// Structured file-system error.
    File(FileError),
    /// Structured process or command execution error.
    Execution(ExecutionError),
    /// Structured session persistence error.
    Session(SessionError),
    /// Structured extension runtime error.
    Extension(ExtensionError),
}

/// What an error holds.
#[allow(inconsistent_fields)]
pub enum ErrorView {
    Provider(ProviderErrorView),
    Tool { tool: Seq<char>, message: Seq<char> },
    Config(Seq<char>),
    Io { kind: IoErrorKind, message: Seq<char> },
    Serialization(Seq<char>),
    Timeout(u64),
    TokenLimit { used: u32, limit: u32 },
    Compaction(Seq<char>),
    File { code: FileErrorCode, path: Seq<char>, message: Seq<char> },
    Execution { code: ExecutionErrorCode, message: Seq<char> },
    Session(Seq<char>),
    Extension(Seq<char>),
}

impl DeepView for PiError {
    type V = ErrorView;

    open spec fn deep_view(&self) -> ErrorView {
        match *self {
            PiError::Provider(e) => ErrorView::Provider(e.deep_view()),
            PiError::Tool { tool, message } => ErrorView::Tool { tool: tool@, message: message@ },
            PiError::Config(m) => ErrorView::Config(m@),
            PiError::Io(e) => ErrorView::Io { kind: e.kind, message: e.message@ },
            PiError::Serialization(m) => ErrorView::Serialization(m@),
            PiError::Timeout(ms) => ErrorView::Timeout(ms),
            PiError::TokenLimit { used, limit } => ErrorView::TokenLimit { used, limit },
            PiError::Compaction(e) => ErrorView::Compaction(e.message@),
            PiError::File(e) => ErrorView::File {
                code: e.code,
                path: e.path@,
                message: e.message@,
            },
            PiError::Execution(e) => ErrorView::Execution { code: e.code, message: e.message@ },
            PiError::Session(e) => ErrorView::Session(e.message@),
            PiError::Extension(e) => ErrorView::Extension(e.message@),
        }
    }
}

/// The text of an error.
pub open spec fn error_text(e: ErrorView) -> Seq<char> {
    match e {
        ErrorView::Provider(p) => provider_error_text(p),
        ErrorView::Tool { tool, message } => "tool '"@ + tool + "' error: "@ + message,
        ErrorView::Config(m) => "config error: "@ + m,
        ErrorView::Io { kind, message } => "io error: "@ + message,
        ErrorView::Serialization(m) => "serialization error: "@ + m,
        ErrorView::Timeout(ms) => "timeout after "@ + decimal(ms as nat) + "ms"@,
        ErrorView::TokenLimit { used, limit } => "token limit exceeded: "@ + decimal(used as nat)
            + "/"@ + decimal(limit as nat),
        ErrorView::Compaction(m) => "compaction error: "@ + m,
        ErrorView::File { code, path, message } => "file error "@ + file_code_text(code) + " at "@
            + path + ": "@ + message,
        ErrorView::Execution { code, message } => "execution error "@ + execution_code_text(code)
            + ": "@ + message,
        ErrorView::Session(m) => "session error: "@ + m,
        ErrorView::Extension(m) => "extension error: "@ + m,
    }
}

impl PiError {
    /// Create a provider error from a message string.
    pub fn provider(message: &str) -> (r: Self)
        ensures
            r.deep_view() == ErrorView::Provider(ProviderErrorView::Other { message: message@ }),
    {
        PiError::Provider(ProviderError::Other { message: message.to_owned() })
    }

    /// The text of the error.
    pub fn to_text(&self) -> (r: String)
        ensures
            r@ == error_text(self.deep_view()),
    {
        let mut r: String = String::new();
        match self {
            PiError::Provider(e) => {
                r.push_str(&e.to_text());
            },
            PiError::Tool { tool, message } => {
                r.push_str("tool '");
                r.push_str(tool);
                r.push_str("' error: ");
                r.push_str(message);
            },
            PiError::Config(m) => {
                r.push_str("config error: ");
                r.push_str(m);
            },
            PiError::Io(e) => {
                r.push_str("io error: ");
                r.push_str(&e.message);
            },
            PiError::Serialization(m) => {
                r.push_str("serialization error: ");
                r.push_str(m);
            },
            PiError::Timeout(ms) => {
                r.push_str("timeout after ");
                r.push_str(&decimal_text(*ms));
                r.push_str("ms");
            },
            PiError::TokenLimit { used, limit } => {
                r.push_str("token limit exceeded: ");
                r.push_str(&decimal_text(*used as u64));
                r.push_str("/");
                r.push_str(&decimal_text(*limit as u64));
            },
            PiError::Compaction(e) => {
                r.push_str("compaction error: ");
                r.push_str(&e.message);
            },
            PiError::File(e) => {
                r.push_str("file error ");
                r.push_str(&e.code.to_text());
                r.push_str(" at ");
                r.push_str(&e.path);
                r.push_str(": ");
                r.push_str(&e.message);
            },
            PiError::Execution(e) => {
                r.push_str("execution error ");
                r.push_str(&e.code.to_text());
                r.push_str(": ");
                r.push_str(&e.message);
            },
            PiError::Session(e) => {
                r.push_str("session error: ");
                r.push_str(&e.message);
            },
            PiError::Extension(e) => {
                r.push_str("extension error: ");
                r.push_str(&e.message);
            },
        }
        assert(r@ =~= error_text(self.deep_view()));
        r
    }
}

} // verus!
