//! The library-wide error type.
use vstd::prelude::*;
use vstd::string::*;

verus! {

/// One error family per kind of failure; each carries a description.
#[derive(Debug)]
pub enum AppError {
    ValidationError(String),
    NetworkError(String),
    AudioError(String),
    VoiceError(String),
    ConfigError(String),
    ProcessError(String),
    IoError(String),
    FileError(String),
    SerializationError(String),
    Unknown(String),
}

/// The text that introduces each kind of error.
pub open spec fn app_error_prefix(e: AppError) -> Seq<char> {
    match e {
        AppError::ValidationError(_) => "输入验证失败: "@,
        AppError::NetworkError(_) => "网络错误: "@,
        AppError::AudioError(_) => "音频设备错误: "@,
        AppError::VoiceError(_) => "语音服务错误: "@,
        AppError::ConfigError(_) => "配置错误: "@,
        AppError::ProcessError(_) => "进程错误: "@,
        AppError::IoError(_) => "IO 错误: "@,
        AppError::FileError(_) => "文件错误: "@,
        AppError::SerializationError(_) => "序列化错误: "@,
        AppError::Unknown(_) => "未知错误: "@,
    }
}

impl AppError {
    /// The description the error carries.
    pub open spec fn detail(&self) -> Seq<char> {
        match self {
            AppError::ValidationError(m) => m@,
            AppError::NetworkError(m) => m@,
            AppError::AudioError(m) => m@,
            AppError::VoiceError(m) => m@,
            AppError::ConfigError(m) => m@,
            AppError::ProcessError(m) => m@,
            AppError::IoError(m) => m@,
            AppError::FileError(m) => m@,
            AppError::SerializationError(m) => m@,
            AppError::Unknown(m) => m@,
        }
    }

    /// The full message: the kind's prefix followed by the description.
    pub open spec fn message(&self) -> Seq<char> {
        app_error_prefix(*self) + self.detail()
    }

    /// The human-readable message of the error.
    pub fn to_string(&self) -> (r: String)
        ensures
            r@ == self.message(),
    {
        let (prefix, m) = match self {
            AppError::ValidationError(m) => ("输入验证失败: ", m),
            AppError::NetworkError(m) => ("网络错误: ", m),
            AppError::AudioError(m) => ("音频设备错误: ", m),
            AppError::VoiceError(m) => ("语音服务错误: ", m),
            AppError::ConfigError(m) => ("配置错误: ", m),
            AppError::ProcessError(m) => ("进程错误: ", m),
            AppError::IoError(m) => ("IO 错误: ", m),
            AppError::FileError(m) => ("文件错误: ", m),
            AppError::SerializationError(m) => ("序列化错误: ", m),
            AppError::Unknown(m) => ("未知错误: ", m),
        };
        let mut r = String::from_str(prefix);
        r.append(m.as_str());
        r
    }
}

#[verifier::external_type_specification]
#[verifier::external_body]
pub struct ExIoError(std::io::Error);

/// Relies on the `Display` impl of `std::io::Error`: the error's text.
#[verifier::external_body]
fn describe_io_error(e: &std::io::Error) -> (r: String) {
    e.to_string()
}

/// An I/O error becomes `IoError` carrying the error's text.
pub fn io_error_to_app_error(err: std::io::Error) -> (r: AppError)
    ensures
        r is IoError,
{
    AppError::IoError(describe_io_error(&err))
}

impl From<std::io::Error> for AppError {
    fn from(err: std::io::Error) -> (r: AppError) {
        io_error_to_app_error(err)
    }
}

impl vstd::std_specs::convert::FromSpecImpl<std::io::Error> for AppError {
    open spec fn obeys_from_spec() -> bool {
        false
    }

    open spec fn from_spec(v: std::io::Error) -> AppError {
        arbitrary()
    }
}

#[verifier::external_type_specification]
#[verifier::external_body]
pub struct ExJsonError(serde_json::Error);

/// Relies on the `Display` impl of `serde_json::Error`: the error's text.
#[verifier::external_body]
fn describe_json_error(e: &serde_json::Error) -> (r: String) {
    e.to_string()
}

/// A JSON error becomes `SerializationError` carrying the error's text.
pub fn json_error_to_app_error(err: serde_json::Error) -> (r: AppError)
    ensures
        r is SerializationError,
{
    AppError::SerializationError(describe_json_error(&err))
}

impl From<serde_json::Error> for AppError {
    fn from(err: serde_json::Error) -> (r: AppError) {
        json_error_to_app_error(err)
    }
}

impl vstd::std_specs::convert::FromSpecImpl<serde_json::Error> for AppError {
    open spec fn obeys_from_spec() -> bool {
        false
    }

    open spec fn from_spec(v: serde_json::Error) -> AppError {
        arbitrary()
    }
}

/// Whether to try again after the `failures`-th failure in a row, with at
/// most `max_retries` retries: the first try plus that many.
pub fn should_retry(failures: u32, max_retries: u32) -> (r: bool)
    ensures
        r == (failures <= max_retries),
{
    failures <= max_retries
}

/// The pause before the next try under exponential backoff: twice the
/// last one, held at the largest value once doubling would overflow.
pub fn next_backoff(delay_ms: u64) -> (r: u64)
    ensures
        r == (if delay_ms <= u64::MAX / 2 {
            (2 * delay_ms) as u64
        } else {
            u64::MAX
        }),
{
    if delay_ms <= u64::MAX / 2 {
        2 * delay_ms
    } else {
        u64::MAX
    }
}

} // verus!
