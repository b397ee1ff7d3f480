use dockfoxbuild::actions::{Action, Event, Stream};
use dockfoxbuild::chunk::Chunk;
use dockfoxbuild::copy::Source;
use dockfoxbuild::dockerignore::DockerIgnore;
use dockfoxbuild::errors::BuildError;
use dockfoxbuild::parse::parse_dockerfile;
use dockfoxbuild::state::{Operation, OutOfBandWork, State};
use dockfoxbuild::steps::{head_length, prepare_all, take_preamble};

fn words(v: &[&str]) -> Vec<String> {
    v.iter().map(|s| s.to_string()).collect()
}

fn state() -> State {
    State::new(DockerIgnore::empty(), "/ctx".to_string(), false, false, None, None, None)
}

fn ops(text: &str) -> Vec<(Operation, String)> {
    parse_dockerfile(text).unwrap()
}

fn output(success: bool, stdout: &str) -> Event {
    Event::Output { success, stdout: stdout.to_string() }
}

fn command(a: &Action) -> Vec<String> {
    match a {
        Action::Command { args, .. } => args.clone(),
        other => panic!("{:?}", other),
    }
}

fn announced(a: &Action) -> Vec<String> {
    match a {
        Action::Announce { lines } => lines.clone(),
        other => panic!("{:?}", other),
    }
}

/// A driver that answers every question of a chunk in the same way, and notes the commands.
struct Driver {
    state: State,
    commands: Vec<Vec<String>>,
    lines: Vec<String>,
    hashes: Vec<String>,
    stored: Vec<(String, String)>,
    forgotten: Vec<String>,
    work: Vec<OutOfBandWork>,
    /// What the cache holds for every hash.
    row: Option<String>,
    /// Whether a cached image is there.
    there: bool,
    /// Whether the registry has the image.
    in_registry: bool,
    digest: [u8; 32],
    sources: Vec<String>,
}

impl Driver {
    fn new(state: State) -> Driver {
        Driver {
            state,
            commands: vec![],
            lines: vec![],
            hashes: vec![],
            stored: vec![],
            forgotten: vec![],
            work: vec![],
            row: None,
            there: true,
            in_registry: false,
            digest: [7; 32],
            sources: vec![],
        }
    }

    fn run(&mut self, text: &str) -> Result<(), BuildError> {
        let (mut chunk, mut turn) = Chunk::start(&ops(text), &mut self.state);
        loop {
            let event = match turn? {
                Action::Finish => return Ok(()),
                Action::Announce { lines } => {
                    self.lines.extend(lines);
                    Event::Done
                }
                Action::Command { args, .. } => {
                    self.commands.push(args.clone());
                    match args[0].as_str() {
                        "from" => output(true, "container\n"),
                        "inspect" => output(true, "PATH=/bin\nnoise\nHOME=/root\n"),
                        "commit" => output(true, "committed\n"),
                        "copy" | "add" => output(true, " content \n"),
                        "images" => output(self.there, ""),
                        "pull" if args[1].starts_with("reg/") => output(self.in_registry, "remote\n"),
                        "pull" => output(true, "pulled\n"),
                        _ => output(true, ""),
                    }
                }
                Action::RecordRemote { image } => {
                    assert_eq!(image, "pulled");
                    Event::Done
                }
                Action::HashSources { sources } => {
                    for list in &sources {
                        for s in list {
                            self.sources.push(match s {
                                Source::Literal { path } => path.clone(),
                                Source::Pattern { pattern, .. } => pattern.clone(),
                            });
                        }
                    }
                    Event::Digests { files: sources.iter().map(|_| vec![self.digest]).collect() }
                }
                Action::Lookup { hash } => {
                    self.hashes.push(hash);
                    Event::Row { image: self.row.clone() }
                }
                Action::Work { work } => {
                    self.work.push(work);
                    Event::Done
                }
                Action::Forget { line, hash } => {
                    self.lines.push(line);
                    self.forgotten.push(hash);
                    Event::Done
                }
                Action::Store { line, hash, image } => {
                    self.lines.extend(line);
                    self.stored.push((hash, image));
                    Event::Done
                }
            };
            turn = chunk.next(event, &mut self.state);
        }
    }

    fn ran(&self, name: &str) -> bool {
        self.commands.iter().any(|c| c[0] == name)
    }
}

fn transcript(parts: &[&[u8]]) -> String {
    blake3::hash(&parts.concat()).to_hex().to_string()
}

const COUNT: [u8; 8] = [1, 0, 0, 0, 0, 0, 0, 0];

#[test]
fn miss_executes_commits_and_stores() {
    let mut d = Driver::new(state());
    d.run("FROM alpine\nENV A=$HOME\nCOPY src dest\nRUN make\n").unwrap();
    let hash = transcript(&[
        b"\0FROM\0pulled",
        b"\0ENV\0A=/root",
        b"\0COPY\0src dest\0",
        &COUNT,
        &[7; 32],
        b"\0RUN\0\0make",
    ]);
    assert_eq!(d.hashes, vec![hash.clone()]);
    assert_eq!(d.sources, words(&["/ctx/src"]));
    assert_eq!(
        d.commands,
        vec![
            words(&["pull", "alpine"]),
            words(&["inspect", "--format", "{{range .OCIv1.Config.Env}}{{.}}\n{{end}}", "pulled"]),
            words(&["from", "alpine"]),
            words(&["config", "--env", "A=/root", "container"]),
            words(&["copy", "--contextdir", "/ctx", "container", "src", "dest"]),
            words(&["run", "container", "--", "sh", "-c", "make"]),
            words(&["commit", "container", &format!("localhost/dockfoxbuild_cache:{}", hash)]),
            words(&["rm", "container"]),
        ]
    );
    assert_eq!(
        d.lines,
        words(&[
            "\x1b[34mFROM alpine\x1b[0m",
            "\x1b[34mENV A=/root\x1b[0m",
            "\x1b[34mCOPY src dest\x1b[0m",
            "\x1b[34mRUN make\x1b[0m",
        ])
    );
    assert_eq!(d.stored, vec![(hash, "committed".to_string())]);
    assert_eq!(d.state.last_id, "committed");
    assert_eq!(d.state.container, None);
    assert!(d.work.is_empty());
}

#[test]
fn hit_skips_execution() {
    let mut d = Driver::new(state());
    d.row = Some("cached".to_string());
    d.run("FROM alpine\nRUN make\nCMD x\n").unwrap();
    assert!(!d.ran("from") && !d.ran("run") && !d.ran("commit") && !d.ran("rm"));
    assert_eq!(d.commands.last().unwrap(), &words(&["images", "--format", "{{.ID}}", "cached"]));
    assert_eq!(
        d.lines,
        words(&[
            "\x1b[34mFROM alpine\x1b[0m",
            "\x1b[32mRUN make\x1b[0m",
            "\x1b[32mCMD x\x1b[0m",
        ])
    );
    assert_eq!(d.state.last_id, "cached");
    assert!(d.stored.is_empty());
}

#[test]
fn hit_is_marked_in_the_registry() {
    let mut s = state();
    s.cache_from = Some("reg/cache".to_string());
    let mut d = Driver::new(s);
    d.row = Some("cached".to_string());
    d.run("FROM alpine\nRUN make\n").unwrap();
    assert!(matches!(&d.work[..], [OutOfBandWork::LruMarkCache { hash }] if *hash == d.hashes[0]));
    assert_eq!(d.state.last_id, "cached");
}

#[test]
fn no_cache_asks_nothing() {
    let mut s = state();
    s.no_cache = true;
    s.cache_from = Some("reg/cache".to_string());
    let mut d = Driver::new(s);
    d.row = Some("cached".to_string());
    d.in_registry = true;
    d.run("FROM alpine\nRUN make\n").unwrap();
    assert!(d.hashes.is_empty());
    assert!(d.ran("run") && d.ran("commit"));
    assert!(!d.ran("images"));
    assert_eq!(d.state.last_id, "committed");
}

#[test]
fn image_that_is_gone_is_forgotten_and_fetched() {
    let mut s = state();
    s.cache_from = Some("reg/cache".to_string());
    let mut d = Driver::new(s);
    d.row = Some("cached".to_string());
    d.there = false;
    d.in_registry = true;
    d.run("FROM alpine\nRUN make\n").unwrap();
    let hash = d.hashes[0].clone();
    assert_eq!(d.forgotten, vec![hash.clone()]);
    assert_eq!(d.stored, vec![(hash.clone(), "remote".to_string())]);
    assert_eq!(d.state.last_id, "remote");
    assert!(!d.ran("run"));
    assert_eq!(
        &d.lines[1..3],
        &[
            "\x1b[31mCACHE FAILURE\x1b[0m Failed to check if image exists: cached".to_string(),
            format!("\x1b[32mCACHE HIT\x1b[0m reg/cache:{}", hash),
        ]
    );
}

#[test]
fn committed_image_is_pushed() {
    let mut s = state();
    s.cache_to = true;
    s.cache_from = Some("reg/cache".to_string());
    let mut d = Driver::new(s);
    d.run("FROM alpine\nRUN make\n").unwrap();
    assert!(matches!(
        &d.work[..],
        [OutOfBandWork::PushCache { buildah_id, hash }] if buildah_id == "committed" && *hash == d.hashes[0]
    ));
    let asked = format!("reg/cache:{}", d.hashes[0]);
    assert!(d.commands.contains(&words(&["pull", &asked])));
}

#[test]
fn copies_from_images_are_executed_before_the_hash() {
    let mut s = state();
    s.as_images.insert("builder".to_string(), "built".to_string());
    let mut d = Driver::new(s);
    d.row = Some("cached".to_string());
    d.run("FROM scratch\nCOPY --from=builder /a /a\nRUN make\n").unwrap();
    let hash = transcript(&[b"\0FROM\0scratch\0", b"\0COPY\0--from=builder /a /a\0content", b"\0RUN\0\0make"]);
    assert_eq!(d.hashes, vec![hash]);
    assert_eq!(
        d.commands,
        vec![
            words(&["from", "scratch"]),
            words(&["copy", "--from", "built", "container", "/a", "/a"]),
            words(&["images", "--format", "{{.ID}}", "cached"]),
            words(&["rm", "container"]),
        ]
    );
    assert_eq!(d.state.container, None);
    assert_eq!(d.state.last_id, "cached");
    assert_eq!(d.lines.last().unwrap(), "\x1b[32mRUN make\x1b[0m");
}

#[test]
fn checkpoint_is_based_on_the_last_image() {
    let mut s = state();
    s.last_id = "base".to_string();
    let mut d = Driver::new(s);
    d.run("# CHECKPOINT\nRUN make\n").unwrap();
    assert_eq!(d.hashes, vec![transcript(&[b"\0FROM\0base", b"\0RUN\0\0make"])]);
    assert_eq!(d.commands[0], words(&["from", "base"]));
    assert_eq!(d.lines[0], "\x1b[34mCHECKPOINT\x1b[0m");
    let mut other = state();
    other.last_id = "other".to_string();
    let mut e = Driver::new(other);
    e.run("# CHECKPOINT\nRUN make\n").unwrap();
    assert_ne!(d.hashes, e.hashes);
}

#[test]
fn changed_files_change_the_hash() {
    let text = "FROM alpine\nCOPY a b\nRUN make\n";
    let mut d = Driver::new(state());
    d.run(text).unwrap();
    let mut e = Driver::new(state());
    e.digest = [8; 32];
    e.run(text).unwrap();
    assert_ne!(d.hashes, e.hashes);
}

#[test]
fn changed_instructions_change_the_hash() {
    let hash = |text: &str| {
        let mut d = Driver::new(state());
        d.run(text).unwrap();
        d.hashes
    };
    let of = hash("FROM scratch\nCOPY a /x\nENV A=1\nRUN make\n");
    assert_ne!(of, hash("FROM scratch\nCOPY a /y\nENV A=1\nRUN make\n"));
    assert_ne!(of, hash("FROM scratch\nADD a /x\nENV A=1\nRUN make\n"));
    assert_ne!(of, hash("FROM scratch\nCOPY a /x\nENV A=2\nRUN make\n"));
    assert_ne!(of, hash("FROM scratch\nCOPY a /x\nENV A=1\nRUN make all\n"));
    assert_ne!(of, hash("FROM scratch\nCOPY a /x\nRUN make\n"));
    assert_eq!(of, hash("FROM scratch\nCOPY a /x\nENV A=1\nRUN make\n"));
    let copied = |line: &str| hash(&format!("FROM scratch\n{}\nRUN make\n", line));
    assert_ne!(copied("COPY --from=b /a /x"), copied("COPY --from=b /a /y"));
}

#[test]
fn stages_start_without_variables() {
    let mut d = Driver::new(state());
    d.run("FROM scratch\nARG A=1\nRUN make\n").unwrap();
    assert!(d.commands.iter().any(|c| c.contains(&"A=1".to_string())));
    d.commands.clear();
    d.run("FROM scratch\nRUN make\n").unwrap();
    assert!(!d.commands.iter().any(|c| c.contains(&"A=1".to_string())));
    assert_eq!(d.hashes[1], transcript(&[b"\0FROM\0scratch\0", b"\0RUN\0\0make"]));
}

#[test]
fn arguments_of_run_are_sorted_and_hashed() {
    let mut d = Driver::new(state());
    d.run("FROM scratch\nARG B=2\nARG A=1\nRUN make\n").unwrap();
    assert_eq!(
        d.hashes,
        vec![transcript(&[b"\0FROM\0scratch\0", b"\0RUN\0\x01A=1\x01B=2\0make"])]
    );
    assert!(d.commands.contains(&words(&[
        "run", "--env", "A=1", "--env", "B=2", "container", "--", "sh", "-c", "make",
    ])));
}

#[test]
fn named_stages_can_be_used() {
    let mut d = Driver::new(state());
    d.state.global.args.insert("BASE".to_string(), "alpine".to_string());
    d.run("FROM ${BASE} AS build\nRUN make\n").unwrap();
    assert_eq!(d.state.cur_as.as_deref(), Some("build"));
    d.commands.clear();
    d.run("FROM build\nRUN more\n").unwrap();
    assert_eq!(d.commands[0][0], "inspect");
    assert_eq!(d.commands[0][3], "committed");
    assert_eq!(d.commands[1], words(&["from", "committed"]));
    assert_eq!(d.state.cur_as, None);
    assert_eq!(d.state.as_images.get("build").unwrap(), "committed");
}

#[test]
fn preamble_gives_defaults_only() {
    let mut s = state();
    s.global.args.insert("A".to_string(), "given".to_string());
    let mut d = Driver::new(s);
    d.run("ARG A=default\nARG B=$A\n").unwrap();
    assert_eq!(d.state.global.get("A"), "given");
    assert_eq!(d.state.global.get("B"), "given");
    assert!(d.commands.is_empty());
    assert!(matches!(d.run("RUN x\n"), Err(BuildError::BeforeFrom { op: Operation::Run })));
    assert!(matches!(d.run("ARG A\n"), Err(BuildError::NotKeyValue { .. })));
    assert!(matches!(d.run("ARG 'A\n"), Err(BuildError::Unbalanced)));
    assert!(matches!(d.run("ARG ${A\n"), Err(BuildError::MissingBrace { .. })));
    let mut t = state();
    assert!(take_preamble(&ops("ARG X=1\n"), &mut t).is_ok());
    assert_eq!(t.global.get("X"), "1");
}

#[test]
fn failures_end_the_chunk() {
    let mut s = state();
    let (mut chunk, first) = Chunk::start(&ops("FROM alpine\nRUN make\n"), &mut s);
    assert_eq!(announced(&first.unwrap()), words(&["\x1b[34mFROM alpine\x1b[0m"]));
    let pull = chunk.next(Event::Done, &mut s).unwrap();
    assert_eq!(command(&pull), words(&["pull", "alpine"]));
    assert!(matches!(
        pull,
        Action::Command { stdout: Stream::Capture, stderr: Stream::Inherit, .. }
    ));
    assert!(matches!(chunk.next(output(false, ""), &mut s), Err(BuildError::CommandFailed)));
    assert!(matches!(chunk.next(Event::Done, &mut s), Err(BuildError::UnexpectedEvent)));

    let (mut chunk, _) = Chunk::start(&ops("FROM alpine\n"), &mut s);
    assert!(matches!(chunk.next(Event::Row { image: None }, &mut s), Err(BuildError::UnexpectedEvent)));
    let mut d = Driver::new(state());
    assert!(matches!(d.run("FROM ${x\n"), Err(BuildError::MissingBrace { .. })));
    assert!(matches!(d.run("FROM scratch\nCOPY\t.\nENV A\n"), Err(BuildError::NotKeyValue { .. })));
    let mut d = Driver::new(state());
    assert!(matches!(d.run("FROM scratch\nCOPY --bad x y\n"), Err(BuildError::BadOptions)));
}

#[test]
fn digests_must_be_those_that_were_asked_for() {
    let mut s = state();
    let (mut chunk, _) = Chunk::start(&ops("FROM scratch\nCOPY a b\n"), &mut s);
    assert!(matches!(chunk.next(Event::Done, &mut s), Ok(Action::HashSources { .. })));
    assert!(matches!(
        chunk.next(Event::Digests { files: vec![] }, &mut s),
        Err(BuildError::UnexpectedEvent)
    ));
}

#[test]
fn instructions_are_prepared_in_order() {
    let mut s = state();
    s.global.args.insert("G".to_string(), "global".to_string());
    let steps = prepare_all(
        &ops("ARG G\nARG H\nARG K=v\nENV E=$G\nWORKDIR /$E\nRUN echo $E\nADD http://x /y\nLABEL a=$K\n"),
        &mut s,
    )
    .unwrap();
    let lines: Vec<(Operation, &str)> = steps.iter().map(|p| (p.op, p.line.as_str())).collect();
    assert_eq!(
        lines,
        vec![
            (Operation::Env, "E=global"),
            (Operation::Workdir, "/global"),
            (Operation::Run, "echo $E"),
            (Operation::Add, "http://x /y"),
            (Operation::Label, "a=v"),
        ]
    );
    let args: Vec<String> = steps[2].args.iter().map(|(k, v)| format!("{}={}", k, v)).collect();
    assert_eq!(args, words(&["G=global", "H=", "K=v"]));
    assert_eq!(head_length(&steps), 4);
    assert!(matches!(
        prepare_all(&ops("RUN x\n# CHECKPOINT\n"), &mut s),
        Err(BuildError::MisplacedStart { op: Operation::Checkpoint })
    ));
}
