use rpi::error::{
    CompactionError, ExecutionError, ExecutionErrorCode, ExtensionError, FileError, FileErrorCode,
    IoError, IoErrorKind, PiError, ProviderError, SessionError,
};

#[test]
fn texts_are_exact() {
    let texts = [
        (PiError::provider("x"), "provider error: x"),
        (
            PiError::Tool {
                tool: "t".to_string(),
                message: "x".to_string(),
            },
            "tool 't' error: x",
        ),
        (PiError::Config("x".to_string()), "config error: x"),
        (
            PiError::Io(IoError {
                kind: IoErrorKind::InvalidData,
                message: "x".to_string(),
            }),
            "io error: x",
        ),
        (PiError::Serialization("x".to_string()), "serialization error: x"),
        (PiError::Timeout(12), "timeout after 12ms"),
        (
            PiError::TokenLimit { used: 3, limit: 2 },
            "token limit exceeded: 3/2",
        ),
        (
            PiError::Compaction(CompactionError::new("x")),
            "compaction error: x",
        ),
        (
            PiError::File(FileError::new(FileErrorCode::NotFound, "/a", "x")),
            "file error not_found at /a: x",
        ),
        (
            PiError::Execution(ExecutionError::new(ExecutionErrorCode::ExitStatus, "x")),
            "execution error exit_status: x",
        ),
        (PiError::Session(SessionError::new("x")), "session error: x"),
        (PiError::Extension(ExtensionError::new("x")), "extension error: x"),
    ];
    for (error, text) in texts {
        assert_eq!(error.to_text(), text);
    }
}

#[test]
fn codes_have_names() {
    let files = [
        (FileErrorCode::NotFound, "not_found"),
        (FileErrorCode::PermissionDenied, "permission_denied"),
        (FileErrorCode::InvalidPath, "invalid_path"),
        (FileErrorCode::InvalidData, "invalid_data"),
        (FileErrorCode::Other, "other"),
    ];
    for (code, name) in files {
        assert_eq!(code.to_text(), name);
    }
    let executions = [
        (ExecutionErrorCode::Aborted, "aborted"),
        (ExecutionErrorCode::Timeout, "timeout"),
        (ExecutionErrorCode::ShellUnavailable, "shell_unavailable"),
        (ExecutionErrorCode::ExitStatus, "exit_status"),
        (ExecutionErrorCode::Other, "other"),
    ];
    for (code, name) in executions {
        assert_eq!(code.to_text(), name);
    }
}

#[test]
fn statuses_become_errors() {
    assert_eq!(
        ProviderError::http_status(500, "b"),
        ProviderError::Http {
            status: 500,
            body: "b".to_string()
        }
    );
    assert_eq!(
        ProviderError::http_status(429, "b"),
        ProviderError::RateLimited {
            status: 429,
            body: "b".to_string()
        }
    );
    assert_eq!(
        ProviderError::ContextOverflow {
            token_count: 9,
            context_window: 8
        }
        .to_text(),
        "context window exceeded: 9/8"
    );
}
