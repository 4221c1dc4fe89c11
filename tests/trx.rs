use testament::report::outcome_from;
use testament::model::{TestOutcome, TestResult};
use testament::report::{parse_duration, parse_trx};


// TestOutcome tests
#[test]
fn test_outcome_equality() {
    assert_eq!(TestOutcome::Passed, TestOutcome::Passed);
    assert_eq!(TestOutcome::Failed, TestOutcome::Failed);
    assert_eq!(TestOutcome::Skipped, TestOutcome::Skipped);
}

#[test]
fn test_outcome_inequality() {
    assert_ne!(TestOutcome::Passed, TestOutcome::Failed);
    assert_ne!(TestOutcome::Failed, TestOutcome::Skipped);
    assert_ne!(TestOutcome::Passed, TestOutcome::Skipped);
}

#[test]
fn test_outcome_clone() {
    let outcome = TestOutcome::Passed;
    let cloned = outcome.clone();
    assert_eq!(outcome, cloned);
}

#[test]
fn test_outcome_debug() {
    assert_eq!(format!("{:?}", TestOutcome::Passed), "Passed");
    assert_eq!(format!("{:?}", TestOutcome::Failed), "Failed");
    assert_eq!(format!("{:?}", TestOutcome::Skipped), "Skipped");
}

// parse_duration tests
#[test]
fn test_parse_duration_zero() {
    assert_eq!(parse_duration("00:00:00.0000000"), 0);
    assert_eq!(parse_duration("0:0:0.0"), 0);
}

#[test]
fn test_parse_duration_milliseconds_only() {
    assert_eq!(parse_duration("00:00:00.0010000"), 1);
    assert_eq!(parse_duration("00:00:00.0100000"), 10);
    assert_eq!(parse_duration("00:00:00.1000000"), 100);
    assert_eq!(parse_duration("00:00:00.5000000"), 500);
    assert_eq!(parse_duration("00:00:00.9990000"), 999);
}

#[test]
fn test_parse_duration_seconds_only() {
    assert_eq!(parse_duration("00:00:01.0000000"), 1000);
    assert_eq!(parse_duration("00:00:30.0000000"), 30000);
    assert_eq!(parse_duration("00:00:59.0000000"), 59000);
}

#[test]
fn test_parse_duration_minutes_only() {
    assert_eq!(parse_duration("00:01:00.0000000"), 60000);
    assert_eq!(parse_duration("00:30:00.0000000"), 1800000);
    assert_eq!(parse_duration("00:59:00.0000000"), 3540000);
}

#[test]
fn test_parse_duration_hours_only() {
    assert_eq!(parse_duration("01:00:00.0000000"), 3600000);
    assert_eq!(parse_duration("02:00:00.0000000"), 7200000);
    assert_eq!(parse_duration("10:00:00.0000000"), 36000000);
}

#[test]
fn test_parse_duration_combined() {
    // 1h 30m 45s 123ms
    assert_eq!(parse_duration("01:30:45.1230000"), 5445123);
    // 2h 15m 30s 500ms
    assert_eq!(parse_duration("02:15:30.5000000"), 8130500);
}

#[test]
fn test_parse_duration_short_fraction() {
    assert_eq!(parse_duration("00:00:01.1"), 1100);
    assert_eq!(parse_duration("00:00:01.12"), 1120);
    assert_eq!(parse_duration("00:00:01.123"), 1123);
}

#[test]
fn test_parse_duration_no_fraction() {
    assert_eq!(parse_duration("00:00:05"), 5000);
    assert_eq!(parse_duration("01:30:00"), 5400000);
}

#[test]
fn test_parse_duration_invalid_format() {
    assert_eq!(parse_duration(""), 0);
    assert_eq!(parse_duration("invalid"), 0);
    assert_eq!(parse_duration("00:00"), 0);
    assert_eq!(parse_duration("00"), 0);
    assert_eq!(parse_duration("00:00:00:00"), 0);
}

#[test]
fn test_parse_duration_non_numeric_parts() {
    assert_eq!(parse_duration("aa:00:00.0"), 0);
    assert_eq!(parse_duration("00:bb:00.0"), 0);
    assert_eq!(parse_duration("00:00:cc.0"), 0);
}

// parse_trx tests
#[test]
fn test_parse_trx_empty_content() {
    let result = parse_trx("").unwrap();
    assert!(result.is_empty());
}

#[test]
fn test_parse_trx_no_test_results() {
    let xml = r#"<?xml version="1.0" encoding="UTF-8"?>
        <TestRun>
            <TestSettings />
        </TestRun>"#;
    let result = parse_trx(xml).unwrap();
    assert!(result.is_empty());
}

#[test]
fn test_parse_trx_single_passed_test() {
    let xml = r#"<?xml version="1.0" encoding="UTF-8"?>
        <TestRun>
            <Results>
                <UnitTestResult testName="MyNamespace.MyClass.TestMethod1" outcome="Passed" duration="00:00:01.1234567" />
            </Results>
        </TestRun>"#;

    let result = parse_trx(xml).unwrap();
    assert_eq!(result.len(), 1);
    assert_eq!(result[0].test_name, "MyNamespace.MyClass.TestMethod1");
    assert_eq!(result[0].outcome, TestOutcome::Passed);
    assert_eq!(result[0].duration_ms, 1123);
}

#[test]
fn test_parse_trx_single_failed_test() {
    let xml = r#"<?xml version="1.0" encoding="UTF-8"?>
        <TestRun>
            <Results>
                <UnitTestResult testName="FailedTest" outcome="Failed" duration="00:00:00.5000000" />
            </Results>
        </TestRun>"#;

    let result = parse_trx(xml).unwrap();
    assert_eq!(result.len(), 1);
    assert_eq!(result[0].test_name, "FailedTest");
    assert_eq!(result[0].outcome, TestOutcome::Failed);
    assert_eq!(result[0].duration_ms, 500);
}

#[test]
fn test_parse_trx_skipped_test() {
    let xml = r#"<?xml version="1.0" encoding="UTF-8"?>
        <TestRun>
            <Results>
                <UnitTestResult testName="SkippedTest" outcome="NotExecuted" duration="00:00:00.0000000" />
            </Results>
        </TestRun>"#;

    let result = parse_trx(xml).unwrap();
    assert_eq!(result.len(), 1);
    assert_eq!(result[0].outcome, TestOutcome::Skipped);
}

#[test]
fn test_parse_trx_multiple_tests() {
    let xml = r#"<?xml version="1.0" encoding="UTF-8"?>
        <TestRun>
            <Results>
                <UnitTestResult testName="Test1" outcome="Passed" duration="00:00:00.1000000" />
                <UnitTestResult testName="Test2" outcome="Failed" duration="00:00:00.2000000" />
                <UnitTestResult testName="Test3" outcome="Passed" duration="00:00:00.3000000" />
                <UnitTestResult testName="Test4" outcome="NotExecuted" duration="00:00:00.0000000" />
            </Results>
        </TestRun>"#;

    let result = parse_trx(xml).unwrap();
    assert_eq!(result.len(), 4);

    assert_eq!(result[0].test_name, "Test1");
    assert_eq!(result[0].outcome, TestOutcome::Passed);
    assert_eq!(result[0].duration_ms, 100);

    assert_eq!(result[1].test_name, "Test2");
    assert_eq!(result[1].outcome, TestOutcome::Failed);
    assert_eq!(result[1].duration_ms, 200);

    assert_eq!(result[2].test_name, "Test3");
    assert_eq!(result[2].outcome, TestOutcome::Passed);
    assert_eq!(result[2].duration_ms, 300);

    assert_eq!(result[3].test_name, "Test4");
    assert_eq!(result[3].outcome, TestOutcome::Skipped);
}

#[test]
fn test_parse_trx_missing_attributes() {
    // Missing testName - should skip this result
    let xml = r#"<?xml version="1.0" encoding="UTF-8"?>
        <TestRun>
            <Results>
                <UnitTestResult outcome="Passed" duration="00:00:00.1000000" />
            </Results>
        </TestRun>"#;

    let result = parse_trx(xml).unwrap();
    assert!(result.is_empty());
}

#[test]
fn test_parse_trx_missing_outcome_defaults_to_passed() {
    // An absent outcome attribute counts as skipped.
    let xml = r#"<?xml version="1.0" encoding="UTF-8"?>
        <TestRun>
            <Results>
                <UnitTestResult testName="Test1" duration="00:00:00.1000000" />
            </Results>
        </TestRun>"#;

    let result = parse_trx(xml).unwrap();
    assert_eq!(result.len(), 1);
    assert_eq!(result[0].outcome, TestOutcome::Skipped);
}

#[test]
fn test_parse_trx_missing_duration_defaults_to_zero() {
    let xml = r#"<?xml version="1.0" encoding="UTF-8"?>
        <TestRun>
            <Results>
                <UnitTestResult testName="Test1" outcome="Passed" />
            </Results>
        </TestRun>"#;

    let result = parse_trx(xml).unwrap();
    assert_eq!(result.len(), 1);
    assert_eq!(result[0].duration_ms, 0);
}

#[test]
fn test_parse_trx_unknown_outcome_treated_as_skipped() {
    let xml = r#"<?xml version="1.0" encoding="UTF-8"?>
        <TestRun>
            <Results>
                <UnitTestResult testName="Test1" outcome="SomeUnknownStatus" duration="00:00:00.1000000" />
            </Results>
        </TestRun>"#;

    let result = parse_trx(xml).unwrap();
    assert_eq!(result[0].outcome, TestOutcome::Skipped);
}

#[test]
fn test_parse_trx_with_start_element() {
    // UnitTestResult with content inside (Start element instead of Empty)
    let xml = r#"<?xml version="1.0" encoding="UTF-8"?>
        <TestRun>
            <Results>
                <UnitTestResult testName="Test1" outcome="Failed" duration="00:00:01.0000000">
                    <Output>
                        <ErrorInfo>
                            <Message>Test failed</Message>
                        </ErrorInfo>
                    </Output>
                </UnitTestResult>
            </Results>
        </TestRun>"#;

    let result = parse_trx(xml).unwrap();
    assert_eq!(result.len(), 1);
    assert_eq!(result[0].test_name, "Test1");
    assert_eq!(result[0].outcome, TestOutcome::Failed);
}

#[test]
fn test_parse_trx_malformed_xml() {
    let xml = r#"<TestRun><Results><UnitTestResult"#;
    let result = parse_trx(xml);
    assert!(result.is_err());
}

#[test]
fn test_parse_trx_complex_test_names() {
    let xml = r#"<?xml version="1.0" encoding="UTF-8"?>
        <TestRun>
            <Results>
                <UnitTestResult testName="Company.Product.Tests.Integration.DatabaseTests.Should_Insert_Record_When_Valid" outcome="Passed" duration="00:00:02.5000000" />
            </Results>
        </TestRun>"#;

    let result = parse_trx(xml).unwrap();
    assert_eq!(result[0].test_name, "Company.Product.Tests.Integration.DatabaseTests.Should_Insert_Record_When_Valid");
}

#[test]
fn test_parse_trx_test_name_with_special_chars() {
    let xml = r#"<?xml version="1.0" encoding="UTF-8"?>
        <TestRun>
            <Results>
                <UnitTestResult testName="Test_With_Underscore" outcome="Passed" duration="00:00:00.0010000" />
            </Results>
        </TestRun>"#;

    let result = parse_trx(xml).unwrap();
    assert_eq!(result[0].test_name, "Test_With_Underscore");
}

#[test]
fn test_result_error_message_is_none() {
    let xml = r#"<?xml version="1.0" encoding="UTF-8"?>
        <TestRun>
            <Results>
                <UnitTestResult testName="Test1" outcome="Passed" duration="00:00:00.1000000" />
            </Results>
        </TestRun>"#;

    let result = parse_trx(xml).unwrap();
    assert!(result[0].error_message.is_none());
}

#[test]
fn test_result_clone() {
    let result = TestResult {
        test_name: "Test1".to_string(),
        outcome: TestOutcome::Passed,
        duration_ms: 100,
        error_message: Some("error".to_string()),
    };

    let cloned = result.clone();
    assert_eq!(cloned.test_name, "Test1");
    assert_eq!(cloned.outcome, TestOutcome::Passed);
    assert_eq!(cloned.duration_ms, 100);
    assert_eq!(cloned.error_message, Some("error".to_string()));
}

#[test]
fn test_result_debug() {
    let result = TestResult {
        test_name: "Test1".to_string(),
        outcome: TestOutcome::Failed,
        duration_ms: 100,
        error_message: None,
    };

    let debug_str = format!("{:?}", result);
    assert!(debug_str.contains("Test1"));
    assert!(debug_str.contains("Failed"));
}

#[test]
fn report_record_duration_and_outcome_laws() {
    let xml = r#"<TestRun><Results>
        <UnitTestResult testName="A" outcome="Passed" duration="01:30:45.1230000" />
        <UnitTestResult testName="B" outcome="Passed" duration="" />
        <UnitTestResult testName="C" outcome="Inconclusive" duration="00:00:01" />
    </Results></TestRun>"#;
    let result = parse_trx(xml).unwrap();
    assert_eq!(result.len(), 3);
    assert_eq!(result[0].duration_ms, 5445123);
    assert_eq!(result[1].duration_ms, 0);
    assert_eq!(result[2].outcome, TestOutcome::Skipped);
}

#[test]
fn report_failure_text_joins_message_and_stack_trace() {
    let xml = r#"<TestRun><Results>
        <UnitTestResult testName="NS.A.T1" outcome="Failed" duration="00:00:00.5000000">
            <Output><ErrorInfo>
                <Message>  Expected 1 but was 2  </Message>
                <StackTrace>   at NS.A.T1() in A.cs:line 10   </StackTrace>
            </ErrorInfo></Output>
        </UnitTestResult>
    </Results></TestRun>"#;
    let result = parse_trx(xml).unwrap();
    assert_eq!(result.len(), 1);
    assert_eq!(result[0].duration_ms, 500);
    assert_eq!(
        result[0].error_message,
        Some("Expected 1 but was 2\n\nat NS.A.T1() in A.cs:line 10".to_string())
    );
}

#[test]
fn report_start_element_without_error_detail_has_no_failure_text() {
    let xml = r#"<TestRun><Results>
        <UnitTestResult testName="T" outcome="Passed" duration="00:00:00.0200000"><Output/></UnitTestResult>
    </Results></TestRun>"#;
    let result = parse_trx(xml).unwrap();
    assert_eq!(result.len(), 1);
    assert!(result[0].error_message.is_none());
    assert_eq!(result[0].duration_ms, 20);
}

#[test]
fn report_parse_error_is_trx_parse() {
    let result = parse_trx("<TestRun><Results></TestRun>");
    match result {
        Err(testament::error::TestamentError::TrxParse(m)) => assert!(m.starts_with("XML parse error: ")),
        _ => panic!("expected a report parse error"),
    }
}

#[test]
fn duration_fraction_is_truncated_not_rounded() {
    assert_eq!(parse_duration("00:00:00.9999"), 999);
    assert_eq!(parse_duration("00:00:00.12a"), 120);
    assert_eq!(parse_duration("+1:00:00"), 3600000);
}

#[test]
fn duration_saturates_beyond_64_bits() {
    assert_eq!(parse_duration("18446744073709551615:00:00"), u64::MAX);
}

#[test]
fn outcome_tokens() {
    assert_eq!(outcome_from("Passed"), TestOutcome::Passed);
    assert_eq!(outcome_from("Failed"), TestOutcome::Failed);
    assert_eq!(outcome_from("passed"), TestOutcome::Skipped);
    assert_eq!(outcome_from(""), TestOutcome::Skipped);
}

#[test]
fn result_record_fields() {
    let r = TestResult { test_name: "X".to_string(), outcome: TestOutcome::Failed, duration_ms: 3, error_message: None };
    assert_eq!(r.test_name, "X");
}
