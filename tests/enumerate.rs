use testament::enumerate::{
    choose_listing,
    build_filter_expression, enumeration_error_detail, filter_build_noise, parse_fqn_listing,
    parse_solution_content, parse_test_list, should_show_line, strip_unc_prefix,
};

#[test]
fn test_list_after_header() {
    let out = "Build started\nTest run for /p/bin/Debug/net8.0/P.Tests.dll (.NETCoreApp,Version=v8.0)\nThe following Tests are available:\n    T1\n    NS.A.T2(x: 1)\n\n";
    let (tests, artifacts) = parse_test_list(out);
    assert_eq!(tests, vec!["T1".to_string(), "NS.A.T2(x: 1)".to_string()]);
    assert_eq!(artifacts, vec!["/p/bin/Debug/net8.0/P.Tests.dll".to_string()]);
}

#[test]
fn build_noise_is_filtered_out() {
    let s = "  Determining projects to restore...\n  error CS1002: ; expected  \nP -> /x/P.dll\n\nBuild succeeded.\nsecond error\r\n";
    assert_eq!(filter_build_noise(s), "error CS1002: ; expected\nsecond error");
}

#[test]
fn error_detail_prefers_stderr_then_stdout_then_exit_code() {
    assert_eq!(enumeration_error_detail("out", "err", Some(1)), "err");
    assert_eq!(enumeration_error_detail("out", "Build started", Some(1)), "out");
    assert_eq!(enumeration_error_detail("", "", Some(-3)), "Exit code: -3");
    assert_eq!(enumeration_error_detail("", "  Build started\n\n", Some(1)), "Exit code: 1");
    assert_eq!(enumeration_error_detail("", "", None), "Exit code: unknown");
}

#[test]
fn progress_lines_shown_or_hidden() {
    assert!(should_show_line("  Passed NS.A.T1 [12 ms]"));
    assert!(!should_show_line("   "));
    assert!(!should_show_line("Build succeeded."));
    assert!(!should_show_line("   at NS.A.T1() in A.cs:line 10"));
    assert!(!should_show_line("P -> /x/P.dll"));
    assert!(!should_show_line("/src/P.csproj"));
    assert!(!should_show_line("  Skipped NS.A.T3"));
}

#[test]
fn filter_expression_strips_parameters() {
    let e = build_filter_expression(&vec!["NS.A.T1".to_string(), "NS.A.T2(x: \"a|b\")".to_string()]);
    assert_eq!(e, "FullyQualifiedName~NS.A.T1|FullyQualifiedName~NS.A.T2");
}

#[test]
fn solution_lines_give_test_projects() {
    let sln = "Microsoft Visual Studio Solution File\nProject(\"{FAE}\") = \"App\", \"App\\App.csproj\", \"{1}\"\nProject(\"{FAE}\") = \"App.Tests\", \"tests\\App.Tests\\App.Tests.csproj\", \"{2}\"\nProject(\"{FAE}\") = \"MyTests\", \"MyTests\\MyTests.fsproj\", \"{3}\"\nProject(\"{FAE}\") = \"Incomplete\n";
    assert_eq!(parse_solution_content(sln), vec!["tests/App.Tests/App.Tests.csproj".to_string()]);
}

#[test]
fn unc_prefix_is_removed() {
    assert_eq!(strip_unc_prefix("\\\\?\\C:\\src\\App.sln"), "C:\\src\\App.sln");
    assert_eq!(strip_unc_prefix("/src/App.sln"), "/src/App.sln");
}

#[test]
fn fqn_listing_needs_a_name() {
    assert_eq!(parse_fqn_listing("A.B.C\n\nA.B.D\n"), Some(vec!["A.B.C".to_string(), "A.B.D".to_string()]));
    assert_eq!(parse_fqn_listing("\n\n"), None);
}

#[test]
fn qualified_listing_preferred_when_lengths_match() {
    let plain = vec!["T1".to_string(), "T2".to_string()];
    let fq = vec!["NS.A.T1".to_string(), "NS.A.T2".to_string()];
    assert_eq!(choose_listing(plain.clone(), Some(fq.clone())), fq);
    assert_eq!(choose_listing(plain.clone(), Some(vec!["NS.A.T1".to_string()])), plain);
    assert_eq!(choose_listing(plain.clone(), None), plain);
}
