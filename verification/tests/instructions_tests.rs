use struxio::instructions::ProviderNeutralInstructions;

#[test]
fn rejects_blank_task() {
    assert!(ProviderNeutralInstructions::new("   ".to_string()).is_err());
    assert!(ProviderNeutralInstructions::new("Extract the invoice fields.".to_string()).is_ok());
}

#[test]
fn context_and_requirements_keep_their_order_and_reject_blanks() {
    let instructions = ProviderNeutralInstructions::new("Extract.".to_string())
        .unwrap()
        .with_context("first".to_string())
        .unwrap()
        .with_context("second".to_string())
        .unwrap()
        .with_output_requirement("json only".to_string())
        .unwrap();
    assert_eq!(instructions.task(), "Extract.");
    assert_eq!(instructions.context(), &["first".to_string(), "second".to_string()]);
    assert_eq!(instructions.output_requirements(), &["json only".to_string()]);
    assert!(instructions.clone().with_context(" ".to_string()).is_err());
    assert!(instructions.with_output_requirement("\t".to_string()).is_err());
}
