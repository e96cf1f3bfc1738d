use mctier::error::{next_backoff, should_retry, AppError};

#[test]
fn test_error_display() {
    let err = AppError::ValidationError("测试错误".to_string());
    assert_eq!(err.to_string(), "输入验证失败: 测试错误");
}

#[test]
fn test_io_error_conversion() {
    let io_err = std::io::Error::new(std::io::ErrorKind::NotFound, "文件未找到");
    let app_err: AppError = io_err.into();
    match app_err {
        AppError::IoError(msg) => assert!(msg.contains("文件未找到")),
        _ => panic!("错误类型转换失败"),
    }
}

#[test]
fn every_kind_has_its_prefix() {
    assert_eq!(AppError::NetworkError("x".to_string()).to_string(), "网络错误: x");
    assert_eq!(AppError::ProcessError("x".to_string()).to_string(), "进程错误: x");
    assert_eq!(AppError::IoError("x".to_string()).to_string(), "IO 错误: x");
    assert_eq!(AppError::Unknown("".to_string()).to_string(), "未知错误: ");
}

#[test]
fn test_json_error_conversion() {
    let json_str = "{invalid json}";
    let json_err = serde_json::from_str::<serde_json::Value>(json_str).unwrap_err();
    let app_err: AppError = json_err.into();
    match app_err {
        AppError::SerializationError(_) => {}
        _ => panic!("错误类型转换失败"),
    }
}

#[test]
fn retry_decisions() {
    // Three retries: the fourth failure in a row ends it.
    assert!(should_retry(1, 3));
    assert!(should_retry(3, 3));
    assert!(!should_retry(4, 3));
    assert!(!should_retry(1, 0));
    assert_eq!(next_backoff(10), 20);
    assert_eq!(next_backoff(20), 40);
    assert_eq!(next_backoff(u64::MAX), u64::MAX);
}
