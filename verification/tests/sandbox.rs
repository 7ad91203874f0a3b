use silo::sandbox::{
    ExecutionResult, Interpreter, PythonOutcome, SandboxConfig, SandboxError, SandboxExecutor,
    SandboxStep,
};

fn sandbox() -> SandboxExecutor {
    SandboxExecutor::new(SandboxConfig {
        memory_limit: 512 * 1024 * 1024,
        timeout_seconds: 30,
        allowed_files: vec!["a.txt".to_string()],
    })
    .unwrap()
}

fn parts(r: &ExecutionResult) -> (&str, &str, i32) {
    (r.stdout.as_str(), r.stderr.as_str(), r.exit_code)
}

#[test]
fn the_sandbox_keeps_its_limits() {
    let s = sandbox();
    assert_eq!(s.config().memory_limit, 512 * 1024 * 1024);
    assert_eq!(s.config().timeout_seconds, 30);
    assert_eq!(s.config().allowed_files, vec!["a.txt"]);
}

#[test]
fn the_interpreter_goes_by_the_name_in_any_case() {
    assert_eq!(SandboxExecutor::interpreter_of("python"), Interpreter::Python);
    assert_eq!(SandboxExecutor::interpreter_of("Python"), Interpreter::Python);
    assert_eq!(SandboxExecutor::interpreter_of("JS"), Interpreter::JavaScript);
    assert_eq!(SandboxExecutor::interpreter_of("JavaScript"), Interpreter::JavaScript);
    assert_eq!(SandboxExecutor::interpreter_of("python3"), Interpreter::Other);
    assert_eq!(SandboxExecutor::interpreter_of(" python"), Interpreter::Other);
    assert_eq!(SandboxExecutor::interpreter_of(""), Interpreter::Other);
}

#[test]
fn python_is_handed_to_the_interpreter() {
    let step = sandbox().execute("print(1)", "PYTHON");
    assert!(matches!(step, SandboxStep::RunPython { code } if code == "print(1)"));
}

#[test]
fn other_languages_get_a_note() {
    match sandbox().execute("console.log(1)", "js") {
        SandboxStep::Done(r) => {
            assert_eq!(parts(&r), ("JavaScript 执行尚需集成，当前为模拟模式", "", 0))
        }
        other => panic!("{:?}", other),
    }
    match sandbox().execute("puts 1", "Ruby") {
        SandboxStep::Done(r) => assert_eq!(parts(&r), ("Ruby 执行尚需集成", "", 0)),
        other => panic!("{:?}", other),
    }
}

#[test]
fn a_run_that_ended_gives_what_it_printed() {
    let s = sandbox();
    let r = s
        .conclude(PythonOutcome::Exited {
            stdout: "out".to_string(),
            stderr: "err".to_string(),
            code: Some(3),
        })
        .unwrap();
    assert_eq!(parts(&r), ("out", "err", 3));
    let r = s
        .conclude(PythonOutcome::Exited {
            stdout: "fine".to_string(),
            stderr: String::new(),
            code: Some(0),
        })
        .unwrap();
    assert_eq!(parts(&r), ("fine", "", 0));
    let r = s
        .conclude(PythonOutcome::Exited {
            stdout: String::new(),
            stderr: String::new(),
            code: None,
        })
        .unwrap();
    assert_eq!(parts(&r), ("", "", -1));
}

#[test]
fn a_run_that_could_not_start_is_an_error() {
    let s = sandbox();
    assert_eq!(
        s.conclude(PythonOutcome::NotFound).unwrap_err(),
        SandboxError::Launch { reason: "未找到 python3，请确保已安装并加入 PATH".to_string() }
    );
    assert_eq!(
        s.conclude(PythonOutcome::Failed { message: "permission denied".to_string() })
            .unwrap_err(),
        SandboxError::Launch { reason: "执行失败: permission denied".to_string() }
    );
}

#[test]
fn a_simulated_run_prints_a_note() {
    let s = sandbox();
    assert_eq!(
        parts(&s.simulate("print('x')", "Python")),
        ("模拟执行结果：代码已执行\n", "", 0)
    );
    assert_eq!(
        parts(&s.simulate("x = 1", "python")),
        ("模拟执行：x = 1\n（注意：当前为模拟模式，实际执行需要集成 Wasmtime）", "", 0)
    );
    assert_eq!(
        parts(&s.simulate("1", "js")),
        ("模拟执行 JavaScript 代码\n（注意：当前为模拟模式）", "", 0)
    );
    assert_eq!(
        parts(&s.simulate("1", "Lua")),
        ("模拟执行 Lua 代码\n（注意：当前为模拟模式）", "", 0)
    );
}
