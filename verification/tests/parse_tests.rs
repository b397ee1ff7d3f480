use dockfoxbuild::driver::{chunks, dockerfile_path, oob_job, oob_message, seed_build_arg};
use dockfoxbuild::dockerignore::DockerIgnore;
use dockfoxbuild::parse::{parse_dockerfile, DockerfileError};
use dockfoxbuild::state::{operation_name, Operation, OutOfBandWork, State};

fn parsed(text: &str) -> Vec<(Operation, String)> {
    parse_dockerfile(text).unwrap()
}

fn op(op: Operation, line: &str) -> (Operation, String) {
    (op, line.to_string())
}

#[test]
fn instructions_comments_and_checkpoints() {
    let text = "ARG V=1\n\n# a comment\nFROM alpine AS base\nRUN  echo hi  \n# CHECKPOINT: here\nCOPY a\tb c\r\n";
    assert_eq!(
        parsed(text),
        vec![
            op(Operation::Arg, "V=1"),
            op(Operation::From, "alpine AS base"),
            op(Operation::Run, "echo hi"),
            op(Operation::Checkpoint, ""),
            op(Operation::Copy, "a\tb c"),
        ]
    );
}

#[test]
fn every_keyword_is_read_back() {
    let all = [
        Operation::From,
        Operation::Arg,
        Operation::Env,
        Operation::Run,
        Operation::Workdir,
        Operation::Copy,
        Operation::Add,
        Operation::Label,
        Operation::User,
        Operation::Entrypoint,
        Operation::Cmd,
        Operation::Expose,
        Operation::Volume,
        Operation::StopSignal,
        Operation::HealthCheck,
    ];
    for o in all {
        let line = format!("{} x y", operation_name(o));
        assert_eq!(parsed(&line), vec![op(o, "x y")]);
    }
    assert_eq!(operation_name(Operation::Checkpoint), "CHECKPOINT");
}

#[test]
fn continued_lines_are_put_together() {
    assert_eq!(
        parsed("RUN a && \\\n  b && \\\n  c\nENV X=1\n"),
        vec![op(Operation::Run, "a &&\nb &&\nc"), op(Operation::Env, "X=1")]
    );
    assert_eq!(parsed("RUN\\\n x \\\n y\n"), vec![op(Operation::Run, "x\ny")]);
}

#[test]
fn words_of_continued_lines_stay_apart() {
    let ops = parsed("COPY a \\\n  b\n");
    assert_eq!(ops, vec![op(Operation::Copy, "a\nb")]);
    assert_eq!(ops[0].1.split_whitespace().collect::<Vec<_>>(), vec!["a", "b"]);
    // There is no second line feed where one stands already.
    assert_eq!(parsed("RUN a \\\n \\\n b\n"), vec![op(Operation::Run, "a\nb")]);
    assert_eq!(parsed("RUN \\\n \\\n x \\\n\n"), vec![op(Operation::Run, "x")]);
}

#[test]
fn lone_backslashes_are_lines() {
    let instruction = |text: &str| match parse_dockerfile(text) {
        Err(DockerfileError::Unsupported { instruction }) => instruction,
        other => panic!("{:?}", other),
    };
    assert_eq!(parsed("\\\nRUN x\n"), vec![op(Operation::Run, "x")]);
    assert_eq!(parsed("\\\n\nRUN x\n"), vec![op(Operation::Run, "x")]);
    assert_eq!(instruction("\\\n\\\nRUN x\n"), "");
    assert_eq!(instruction("\\\n\\\n\n"), "");
    assert_eq!(parsed("RUN \\\n\\\n\n"), vec![op(Operation::Run, "")]);
    match parse_dockerfile("RUN \\\n\n") {
        Err(DockerfileError::NoArguments { line }) => assert_eq!(line, "RUN"),
        other => panic!("{:?}", other),
    }
}

#[test]
fn errors_name_the_line() {
    assert!(matches!(parse_dockerfile("RUN a \\\n"), Err(DockerfileError::UnexpectedEnd)));
    match parse_dockerfile("FROM a\nRUN\n") {
        Err(DockerfileError::NoArguments { line }) => assert_eq!(line, "RUN"),
        other => panic!("{:?}", other),
    }
    match parse_dockerfile("ONBUILD RUN x\n") {
        Err(DockerfileError::Unsupported { instruction }) => assert_eq!(instruction, "ONBUILD"),
        other => panic!("{:?}", other),
    }
}

#[test]
fn chunks_start_at_cache_boundaries() {
    let ops = parsed("ARG A\nARG B\nFROM x\nRUN 1\n# CHECKPOINT\nRUN 2\nRUN 3\nFROM y\n");
    let c = chunks(&ops);
    assert_eq!(c.len(), 4);
    assert_eq!(c[0], vec![op(Operation::Arg, "A"), op(Operation::Arg, "B")]);
    assert_eq!(c[1], vec![op(Operation::From, "x"), op(Operation::Run, "1")]);
    assert_eq!(
        c[2],
        vec![op(Operation::Checkpoint, ""), op(Operation::Run, "2"), op(Operation::Run, "3")]
    );
    assert_eq!(c[3], vec![op(Operation::From, "y")]);
    assert_eq!(c.concat(), ops);
    assert_eq!(chunks(&vec![]).len(), 0);
    assert!(!Operation::can_chunk(Operation::Run, Operation::Checkpoint));
    assert!(!Operation::can_chunk(Operation::Run, Operation::From));
    assert!(Operation::can_chunk(Operation::From, Operation::Run));
}

#[test]
fn build_arguments_are_given_or_inherited() {
    let mut s = State::new(DockerIgnore::empty(), "/c".to_string(), false, false, None, None, None);
    seed_build_arg("A=1=2", "ignored", &mut s);
    seed_build_arg("B", "from env", &mut s);
    seed_build_arg("C", "", &mut s);
    assert_eq!(s.global.args.get("A").unwrap(), "1=2");
    assert_eq!(s.global.args.get("B").unwrap(), "from env");
    assert_eq!(s.global.args.get("C").unwrap(), "");
    assert_eq!(dockerfile_path("/c", None), "/c/Dockerfile");
    assert_eq!(dockerfile_path("/c", Some("x/D")), "x/D");
}

#[test]
fn work_beside_the_build() {
    let to = Some("reg/to".to_string());
    let from = Some("reg/from".to_string());
    let mark = OutOfBandWork::LruMarkCache { hash: "h".to_string() };
    let push = OutOfBandWork::PushCache { buildah_id: "id".to_string(), hash: "h".to_string() };
    assert_eq!(
        oob_job(&mark, &to, &from).unwrap(),
        ("reg/from:h".to_string(), vec!["pull".to_string(), "reg/from:h".to_string()])
    );
    assert_eq!(
        oob_job(&push, &to, &from).unwrap().1,
        vec!["push".to_string(), "id".to_string(), "reg/to:h".to_string()]
    );
    assert!(oob_job(&mark, &to, &None).is_none());
    assert!(oob_job(&push, &None, &from).is_none());
    assert_eq!(oob_message(&mark, "n", false, "x"), "\x1b[35mUSED CACHE n\x1b[0m");
    assert_eq!(oob_message(&push, "n", true, "x"), "\x1b[35mPUSHED CACHE n\x1b[0m");
    assert_eq!(
        oob_message(&push, "n", false, "why"),
        "\x1b[31mFailed to push cache image: n\x1b[0m\nOutput:\nwhy"
    );
}
