use struxio::backend::{ExtractionBackendError, TokenUsage};
use struxio::models::{BatchStatus, ExtractionStatus};

#[test]
fn status_texts() {
    assert_eq!(ExtractionStatus::Pending.as_str(), "pending");
    assert_eq!(ExtractionStatus::Failed.as_str(), "failed");
    assert_eq!(BatchStatus::PartiallyCompleted.as_str(), "partially_completed");
    assert_eq!(BatchStatus::Completed.as_str(), "completed");
}

#[test]
fn token_usage_text_and_backend_errors() {
    assert_eq!(TokenUsage::new(12, -3).to_string(), "input_tokens=12, output_tokens=-3");
    assert_eq!(TokenUsage::default(), TokenUsage::new(0, 0));
    assert_eq!(
        ExtractionBackendError::Parse("x".to_string()).message(),
        "backend response parse failed: x"
    );
}
