use dockfoxbuild::copy::{
    add_can_hash, add_words_command, copy_can_hash, copy_words_command, decide_visit, execute_add,
    execute_copy, expand_source, hash_sources, read_sources, source_operands, visit, words_can_hash, Source,
    Visit,
};
use dockfoxbuild::digests::{sort_digests, EntryHash};
use dockfoxbuild::dockerignore::{compile_dockerignore, DockerIgnore};
use dockfoxbuild::errors::BuildError;
use dockfoxbuild::state::{Operation, State};

/// The paths among `files` below the context that a source refers to. A pattern is matched
/// against whole paths, one component at a time.
fn expanded(ctx: &str, files: &[&str], source: &str) -> Vec<String> {
    match expand_source(ctx, source) {
        Source::Literal { path } => vec![path],
        Source::Pattern { pattern, .. } => {
            let options = glob::MatchOptions {
                case_sensitive: true,
                require_literal_separator: true,
                require_literal_leading_dot: false,
            };
            let pattern = glob::Pattern::new(&pattern).unwrap();
            files
                .iter()
                .map(|f| format!("{}/{}", ctx, f))
                .filter(|p| pattern.matches_with(p, options))
                .collect()
        }
    }
}

fn sorted(mut v: Vec<String>) -> Vec<String> {
    v.sort();
    v
}

fn below(ctx: &str, names: &[&str]) -> Vec<String> {
    sorted(names.iter().map(|n| format!("{}/{}", ctx, n)).collect())
}

#[test]
fn plain_path_without_glob_chars_is_returned_unchanged() {
    let ctx = "/tmp/dockfoxbuild_test_plain";
    // No glob characters, so the path is joined literally even though it doesn't exist.
    let result = expanded(ctx, &[], "does/not/exist.txt");
    assert_eq!(result, below(ctx, &["does/not/exist.txt"]));
}

#[test]
fn star_glob_matches_files_including_dotfiles() {
    let ctx = "/tmp/dockfoxbuild_test_star";
    let files = ["a.txt", "b.txt", ".hidden.txt", "c.log"];
    let result = sorted(expanded(ctx, &files, "*.txt"));
    assert_eq!(result, below(ctx, &["a.txt", "b.txt", ".hidden.txt"]));
}

#[test]
fn star_glob_does_not_descend_into_subdirectories() {
    let ctx = "/tmp/dockfoxbuild_test_star_nodescend";
    let files = ["top.txt", "sub", "sub/nested.txt"];
    let result = sorted(expanded(ctx, &files, "*"));
    assert_eq!(result, below(ctx, &["top.txt", "sub"]));
}

#[test]
fn glob_with_subdirectory_prefix_matches_within_that_directory() {
    let ctx = "/tmp/dockfoxbuild_test_subdir_prefix";
    let files = ["backend/Cargo.toml", "backend/Cargo.lock", "backend/src/main.rs"];
    let result = sorted(expanded(ctx, &files, "backend/Cargo.*"));
    assert_eq!(result, below(ctx, &["backend/Cargo.toml", "backend/Cargo.lock"]));
}

#[test]
fn question_mark_matches_exactly_one_character() {
    let ctx = "/tmp/dockfoxbuild_test_question_mark";
    let files = ["a.txt", "ab.txt"];
    // "a?txt" needs exactly one character between "a" and "txt".
    let result = expanded(ctx, &files, "a?txt");
    assert_eq!(result, below(ctx, &["a.txt"]));
}

#[test]
fn bracket_char_class_matches_any_listed_character() {
    let ctx = "/tmp/dockfoxbuild_test_bracket_class";
    let files = ["file1.txt", "file2.txt", "file3.txt"];
    let result = sorted(expanded(ctx, &files, "file[12].txt"));
    assert_eq!(result, below(ctx, &["file1.txt", "file2.txt"]));
}

#[test]
fn glob_with_no_matches_returns_empty() {
    let ctx = "/tmp/dockfoxbuild_test_no_match";
    assert_eq!(expanded(ctx, &["a.txt"], "nomatch*.foo"), Vec::<String>::new());
}

#[test]
fn brace_alternation_is_not_expanded_as_a_glob() {
    let ctx = "/tmp/dockfoxbuild_test_brace";
    // `{a,b}.txt` contains no `*`, `?` or `[`, so it is treated as a literal path.
    let result = expanded(ctx, &["a.txt", "b.txt"], "{a,b}.txt");
    assert_eq!(result, below(ctx, &["{a,b}.txt"]));
}

#[test]
fn special_characters_in_context_dir_are_escaped() {
    let ctx = "/tmp/dockfoxbuild_test_special_[chars]";
    let result = expanded(ctx, &["a.txt"], "*.txt");
    assert_eq!(result, below(ctx, &["a.txt"]));
}

fn words(v: &[&str]) -> Vec<String> {
    v.iter().map(|s| s.to_string()).collect()
}

fn state() -> State {
    let mut s = State::new(
        DockerIgnore::empty(),
        "/ctx".to_string(),
        false,
        false,
        None,
        None,
        None,
    );
    s.container = Some("c1".to_string());
    s.as_images.insert("builder".to_string(), "sha-builder".to_string());
    s
}

#[test]
fn copies_from_images_cannot_be_hashed() {
    assert!(copy_can_hash("a b"));
    assert!(!copy_can_hash("--from=builder a b"));
    assert!(add_can_hash("a b"));
    assert!(!add_can_hash("--from=builder a b"));
    assert!(!add_can_hash("https://example.com/x /x"));
    assert!(!add_can_hash("--checksum=sha256:1 http://example.com/x /x"));
    // A destination is no source.
    assert!(add_can_hash("a https://example.com/x"));
    // A line that cannot be split has no sources.
    assert!(add_can_hash("a 'b"));
    assert!(words_can_hash(&words(&["http:/x", "y"])));
    assert!(!words_can_hash(&words(&["-v", "http://x", "y"])));
}

#[test]
fn sources_are_all_operands_but_the_last() {
    assert_eq!(source_operands(&words(&["a", "b", "c"])).unwrap(), words(&["a", "b"]));
    assert_eq!(source_operands(&words(&["a"])).unwrap(), words(&[]));
    assert!(matches!(source_operands(&words(&[])), Err(BuildError::NoSources)));
    assert_eq!(
        read_sources("--checksum=x 'a b' c dest").unwrap(),
        words(&["a b", "c"])
    );
    assert!(matches!(read_sources("'a"), Err(BuildError::Unbalanced)));
    assert!(matches!(read_sources("--chown=1 a b"), Err(BuildError::BadOptions)));
    assert!(matches!(read_sources(""), Err(BuildError::NoSources)));
    let found = hash_sources("src *.c dest", "/ctx").unwrap();
    assert_eq!(found.len(), 2);
    assert!(matches!(&found[0], Source::Literal { path } if path == "/ctx/src"));
    assert!(matches!(&found[1], Source::Pattern { source, pattern } if source == "*.c" && pattern == "/ctx/*.c"));
}

#[test]
fn copy_commands_name_context_or_image() {
    let s = state();
    assert_eq!(
        execute_copy("a 'b c' /dest", &s).unwrap(),
        words(&["copy", "--contextdir", "/ctx", "c1", "a", "b c", "/dest"])
    );
    assert_eq!(
        execute_copy("--from=builder /a /b", &s).unwrap(),
        words(&["copy", "--from", "sha-builder", "c1", "/a", "/b"])
    );
    assert_eq!(
        execute_copy("--from alpine /a /b", &s).unwrap(),
        words(&["copy", "--from", "alpine", "c1", "/a", "/b"])
    );
    assert!(matches!(execute_copy("'a", &s), Err(BuildError::Unbalanced)));
    assert!(matches!(execute_copy("--checksum=x a b", &s), Err(BuildError::BadOptions)));
    assert_eq!(
        copy_words_command(&None, &words(&["a", "b"]), &s).unwrap(),
        words(&["copy", "--contextdir", "/ctx", "c1", "a", "b"])
    );
    let mut none = state();
    none.container = None;
    assert!(matches!(
        execute_copy("a b", &none),
        Err(BuildError::NoContainer { op: Operation::Copy })
    ));
}

#[test]
fn add_commands_leave_out_the_context_for_urls() {
    let s = state();
    assert_eq!(
        execute_add("a.tar /dest", &s).unwrap(),
        words(&["add", "--contextdir", "/ctx", "c1", "a.tar", "/dest"])
    );
    assert_eq!(
        execute_add("--checksum=sha256:1 https://example.com/x /dest", &s).unwrap(),
        words(&["add", "--checksum", "sha256:1", "c1", "https://example.com/x", "/dest"])
    );
    assert_eq!(
        execute_add("--from=builder /a /b", &s).unwrap(),
        words(&["add", "--from", "sha-builder", "c1", "/a", "/b"])
    );
    assert_eq!(
        add_words_command(&None, &Some("k".to_string()), &words(&["a", "http://b"]), &s).unwrap(),
        words(&["add", "--contextdir", "/ctx", "--checksum", "k", "c1", "a", "http://b"])
    );
    let mut none = state();
    none.container = None;
    assert!(matches!(
        execute_add("a b", &none),
        Err(BuildError::NoContainer { op: Operation::Add })
    ));
}

#[test]
fn walk_leaves_out_what_is_excluded() {
    let di = compile_dockerignore("/ctx", "node_modules\ndata\n!data/keep\n").unwrap();
    assert_eq!(visit(&di, "node_modules", true, false, false), Visit::Skip);
    assert_eq!(visit(&di, "node_modules/x", false, false, true), Visit::Pass);
    assert_eq!(visit(&di, "data", true, false, false), Visit::Pass);
    assert_eq!(visit(&di, "data/keep", false, false, true), Visit::HashFile);
    assert_eq!(visit(&di, "src", true, false, false), Visit::Pass);
    assert_eq!(visit(&di, "src/link", false, true, true), Visit::HashLink);
    assert_eq!(visit(&di, "src/main.rs", false, false, true), Visit::HashFile);
}

#[test]
fn decisions_follow_from_what_is_known() {
    assert_eq!(decide_visit(true, true, true, false, false), Visit::Skip);
    assert_eq!(decide_visit(true, false, true, false, false), Visit::Pass);
    assert_eq!(decide_visit(true, true, false, false, true), Visit::Pass);
    assert_eq!(decide_visit(false, true, true, false, false), Visit::Pass);
    assert_eq!(decide_visit(false, false, true, true, false), Visit::HashLink);
    assert_eq!(decide_visit(false, false, false, false, true), Visit::HashFile);
}

#[test]
fn excluded_files_have_no_influence() {
    let di = compile_dockerignore("/ctx", "*.log\n!keep.log\n").unwrap();
    let digests = |files: &[(&str, &str)]| {
        let mut v: Vec<[u8; 32]> = Vec::new();
        for (path, content) in files {
            if visit(&di, path, false, false, true) == Visit::HashFile {
                let mut h = EntryHash::file(path.as_bytes());
                h.update(content.as_bytes());
                v.push(h.digest());
            }
        }
        sort_digests(&v)
    };
    let of = digests(&[("a", "1"), ("x.log", "2"), ("keep.log", "3")]);
    assert_eq!(of.len(), 2);
    assert_eq!(of, digests(&[("x.log", "changed"), ("keep.log", "3"), ("a", "1"), ("y.log", "")]));
    assert_ne!(of, digests(&[("a", "1"), ("keep.log", "changed")]));
}

#[test]
fn entries_are_hashed_with_their_paths() {
    let mut h = EntryHash::file(b"a/b");
    h.update(b"con");
    h.update(b"tent");
    assert_eq!(h.digest(), *blake3::hash(b"a/b\0content").as_bytes());
    let mut h = EntryHash::link(b"a/b");
    h.update(b"target");
    assert_eq!(h.digest(), *blake3::hash(b"a/b\x01target").as_bytes());
    assert_ne!(EntryHash::file(b"x").digest(), EntryHash::link(b"x").digest());
}

#[test]
fn digests_are_sorted_by_their_bytes() {
    let mut v: Vec<[u8; 32]> = Vec::new();
    for i in 0u8..37 {
        v.push(*blake3::hash(&[i]).as_bytes());
    }
    v.push(v[3]);
    let mut want = v.clone();
    want.sort();
    assert_eq!(sort_digests(&v), want);
    assert_eq!(sort_digests(&[]), Vec::<[u8; 32]>::new());
}
