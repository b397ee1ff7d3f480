use dockfoxbuild::dockerignore::{
    compile_dockerignore, dockerignore_candidates, is_below_root, literal_prefix, load_gitignore,
    DockerIgnore, DockerIgnoreError, IgnoreMatch,
};
use dockfoxbuild::textmap::TextMap;
use ignore::gitignore::Gitignore;

#[test]
fn literal_prefix_extraction() {
    assert_eq!(literal_prefix("a/b/c.txt"), Some("a/b/c.txt".to_string()));
    assert_eq!(literal_prefix("a/b/*.txt"), Some("a/b".to_string()));
    assert_eq!(literal_prefix("/a/b"), Some("a/b".to_string()));
    // A leading glob segment means the rule can match anywhere.
    assert_eq!(literal_prefix("**/foo"), None);
    assert_eq!(literal_prefix("*.log"), None);
}

/// A directory can be pruned only when no negation can reach into its subtree.
fn ignore_with(prefixes: &[&str], unbounded: bool) -> DockerIgnore {
    DockerIgnore {
        matcher: Gitignore::empty(),
        negation_prefixes: prefixes.iter().map(|p| p.to_string()).collect(),
        unbounded_negation: unbounded,
    }
}

#[test]
fn skips_directories_unrelated_to_negations() {
    // The negations from a real monorepo .dockerignore, all literal paths.
    let di = ignore_with(
        &[
            "terrastream/3rdparty/mdal/tests/data/dhi/OresundHD.dfsu",
            "rustweb/build.rs",
            "tileserver/build.rs",
            "dbdata/deploy",
        ],
        false,
    );

    // Excluded directories elsewhere are still pruned despite the negations existing.
    assert!(di.can_skip_dir("python-web/node_modules"));
    assert!(di.can_skip_dir("terrastream/3rdparty/mdal/build"));
    assert!(di.can_skip_dir("rustweb/target"));

    // Ancestors of a negated path must be walked into.
    assert!(!di.can_skip_dir("terrastream/3rdparty/mdal/tests"));
    assert!(!di.can_skip_dir("terrastream/3rdparty/mdal/tests/data/dhi"));
    assert!(!di.can_skip_dir("dbdata"));
}

#[test]
fn unbounded_negation_disables_all_pruning() {
    let di = ignore_with(&["a/b"], true);
    assert!(!di.can_skip_dir("anything/at/all"));
}

#[test]
fn rules_are_anchored_to_the_context() {
    let di = compile_dockerignore("/ctx", "# comment\n\n./target\nbuild/\n**/*.log\n").unwrap();
    assert_eq!(di.matched("target", true), IgnoreMatch::Ignore);
    assert_eq!(di.matched("target/debug/x", false), IgnoreMatch::Ignore);
    assert_eq!(di.matched("sub/target", true), IgnoreMatch::Unmatched);
    // A trailing slash is of no account.
    assert_eq!(di.matched("build", false), IgnoreMatch::Ignore);
    assert_eq!(di.matched("build", true), IgnoreMatch::Ignore);
    assert_eq!(di.matched("a/b/c.log", false), IgnoreMatch::Ignore);
    assert!(di.matched("a/b/c.log", false).is_ignore());
    assert!(!di.matched("a/b/c.txt", false).is_ignore());
}

#[test]
fn negations_are_re_included_and_recorded() {
    let di = compile_dockerignore("/ctx", "data\n!data/keep/*.txt\n! other\n").unwrap();
    assert_eq!(di.negation_prefixes, vec!["data/keep", "other"]);
    assert!(!di.unbounded_negation);
    assert_eq!(di.matched("data/x", false), IgnoreMatch::Ignore);
    assert_eq!(di.matched("data/keep/a.txt", false), IgnoreMatch::Whitelist);
    assert!(!di.can_skip_dir("data"));
    assert!(di.can_skip_dir("data/drop"));

    let di = compile_dockerignore("/ctx", "*\n!**/foo\n").unwrap();
    assert!(di.unbounded_negation);
    assert!(di.negation_prefixes.is_empty());
}

#[test]
fn rule_that_cannot_be_read_is_named() {
    match compile_dockerignore("/ctx", "ok\na[z-a]\n") {
        Err(DockerIgnoreError::BadRule { rule }) => assert_eq!(rule, "/a[z-a]"),
        other => panic!("{:?}", other),
    }
}

#[test]
fn no_file_means_no_rules() {
    let di = load_gitignore("/ctx", "/ctx/Dockerfile", &TextMap::new()).unwrap();
    assert_eq!(di.matched("anything", false), IgnoreMatch::Unmatched);
    let di = DockerIgnore::empty();
    assert_eq!(di.matched("x", true), IgnoreMatch::Unmatched);
    assert!(di.can_skip_dir("x"));
}

#[test]
fn files_are_searched_up_to_the_root() {
    assert_eq!(
        dockerignore_candidates("/a/b", "/a/b/docker/Dockerfile"),
        vec![
            "/a/b/docker/.dockerignore",
            "/a/b/.dockerignore",
        ]
    );
    assert_eq!(
        dockerignore_candidates("/p/c", "/p/c/x/y/Dockerfile"),
        vec!["/p/c/x/y/.dockerignore", "/p/c/x/.dockerignore", "/p/c/.dockerignore"]
    );
    assert_eq!(dockerignore_candidates("/p/c", "/p/c/Dockerfile"), vec!["/p/c/.dockerignore"]);
    assert_eq!(dockerignore_candidates(".", "Dockerfile"), vec![".dockerignore"]);
    assert_eq!(
        dockerignore_candidates(".", "docker/Dockerfile"),
        vec!["docker/.dockerignore", "./.dockerignore"]
    );
    // Outside the root, the root is all that is left.
    assert_eq!(
        dockerignore_candidates("/p/c", "/q/r/Dockerfile"),
        vec!["/q/r/.dockerignore", "/p/c/.dockerignore"]
    );
    assert_eq!(
        dockerignore_candidates("/p/c", "/p/c/../d/Dockerfile"),
        vec!["/p/c/../d/.dockerignore", "/p/c/.dockerignore"]
    );
}

#[test]
fn nearest_file_has_the_rules() {
    let mut files = TextMap::new();
    files.insert("/p/.dockerignore".to_string(), "above\n".to_string());
    // A file above the root is never read.
    let di = load_gitignore("/p/c", "/p/c/x/Dockerfile", &files).unwrap();
    assert_eq!(di.matched("above", false), IgnoreMatch::Unmatched);
    files.insert("/p/c/.dockerignore".to_string(), "root\n".to_string());
    let di = load_gitignore("/p/c", "/p/c/x/Dockerfile", &files).unwrap();
    assert_eq!(di.matched("root", false), IgnoreMatch::Ignore);
    assert_eq!(di.matched("above", false), IgnoreMatch::Unmatched);
    files.insert("/p/c/x/.dockerignore".to_string(), "beside\n".to_string());
    let di = load_gitignore("/p/c", "/p/c/x/Dockerfile", &files).unwrap();
    assert_eq!(di.matched("beside", false), IgnoreMatch::Ignore);
    assert_eq!(di.matched("root", false), IgnoreMatch::Unmatched);
}

#[test]
fn skipped_directories_hold_nothing_re_included() {
    let text = "*\n!keep/a.txt\n!/src/**\n!docs//x\n!lib/*.rs\n!data/\n";
    let di = compile_dockerignore("/ctx", text).unwrap();
    let dirs = ["keep", "src", "docs", "lib", "data", "other", "keeper", "lib2", "x", "a.txt"];
    let below = ["a.txt", "x", "m.rs", "keep/a.txt", "src/y", "deep/er/a.txt", "data"];
    for dir in dirs {
        assert_eq!(di.can_skip_dir(dir), ["other", "keeper", "lib2", "x", "a.txt"].contains(&dir));
        if di.can_skip_dir(dir) {
            for name in below {
                let path = format!("{}/{}", dir, name);
                assert_eq!(di.matched(&path, false), IgnoreMatch::Ignore, "{}", path);
                assert_eq!(di.matched(&path, true), IgnoreMatch::Ignore, "{}", path);
            }
        }
    }
    assert_eq!(di.matched("keep/a.txt", false), IgnoreMatch::Whitelist);
    assert_eq!(di.matched("src/y/z", false), IgnoreMatch::Whitelist);
    assert_eq!(di.matched("lib/m.rs", false), IgnoreMatch::Whitelist);
    assert_eq!(di.matched("lib/m.c", false), IgnoreMatch::Ignore);
    assert_eq!(di.matched("data/deep/x", false), IgnoreMatch::Whitelist);
    // The pattern has two slashes, so that it matches no path that a walk comes to.
    assert_eq!(di.matched("docs/x", false), IgnoreMatch::Ignore);
}

#[test]
fn untidy_rules_leave_other_directories_alone() {
    // The space is dropped, the first backslash is an escape, and so is the second one.
    let di = compile_dockerignore("/ctx", "*\n!foo /\n!\\baz/x\n!a\\/b\n").unwrap();
    assert_eq!(di.negation_prefixes, vec!["foo ", "\\baz/x", "a\\/b"]);
    assert_eq!(di.matched("foo", true), IgnoreMatch::Whitelist);
    assert_eq!(di.matched("baz/x", false), IgnoreMatch::Whitelist);
    assert_eq!(di.matched("a/b", false), IgnoreMatch::Whitelist);
    for dir in ["bar", "fo", "ba", "b"] {
        assert!(di.can_skip_dir(dir));
        for name in ["x", "foo", "baz/x", "a/b", "b"] {
            let path = format!("{}/{}", dir, name);
            assert_eq!(di.matched(&path, false), IgnoreMatch::Ignore, "{}", path);
            assert_eq!(di.matched(&path, true), IgnoreMatch::Ignore, "{}", path);
        }
    }
}

#[test]
fn paths_above_the_root_are_recognised() {
    assert!(is_below_root("/ctx", "a/b"));
    assert!(!is_below_root("/ctx", "/etc/passwd"));
    assert!(!is_below_root("./a", "./a//b"));
}
