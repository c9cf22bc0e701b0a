use io_lang::testing::TestRunner;

#[test]
fn runner_takes_io_files() {
    let runner = TestRunner::new();
    assert!(runner.selects_file("tests/basic.io"));
    assert!(!runner.selects_file("tests/basic.rs"));
    assert!(!runner.selects_file("tests/.io"));
    assert!(runner.selects_file("tests/a.b.io"));
}

#[test]
fn filter_narrows_the_files() {
    let mut runner = TestRunner::new();
    runner.with_filter("parser");
    runner.enable_parallel();
    assert!(runner.parallel);
    assert!(runner.selects_file("tests/parser_cases.io"));
    assert!(!runner.selects_file("tests/lexer_cases.io"));
}
