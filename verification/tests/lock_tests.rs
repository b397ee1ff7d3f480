use dockfoxbuild::db::{cache_dir, cache_image_name, database_path, remote_cache_name, CacheError};
use dockfoxbuild::lock::{
    container_lock_path, image_lock_path, lock_dir, new_container_name, next_step, sweep_image_locks, Lock, ReleaseStep,
    CONTAINER_PREFIX,
};
use dockfoxbuild::pull::{pull, PullArgs};
use dockfoxbuild::push::{push, PushArgs};

fn words(v: &[&str]) -> Vec<String> {
    v.iter().map(|s| s.to_string()).collect()
}

#[test]
fn container_names_are_distinct() {
    assert_eq!(new_container_name(12, 345, 6), "dockfoxbuild-12-345-6");
    assert_eq!(new_container_name(0, u128::MAX, u64::MAX), format!("{}0-{}-{}", CONTAINER_PREFIX, u128::MAX, u64::MAX));
    assert_ne!(new_container_name(1, 23, 4), new_container_name(12, 3, 4));
}

#[test]
fn locks_name_their_files() {
    let dir = lock_dir("/cache/dockfoxbuild");
    assert_eq!(dir, "/cache/dockfoxbuild/locks");
    let l = Lock::new_container(&dir, 1, 2, 3);
    assert_eq!(l.name(), "dockfoxbuild-1-2-3");
    assert_eq!(l.path(), "/cache/dockfoxbuild/locks/container_dockfoxbuild-1-2-3.lock");
    assert!(!l.is_shared() && l.waits());
    assert_eq!(l.release(), ReleaseStep::Remove);
    let l = Lock::try_container(&dir, "c");
    assert_eq!((l.name(), l.path()), ("c", "/cache/dockfoxbuild/locks/container_c.lock"));
    assert!(!l.is_shared() && !l.waits());
    let l = Lock::image(&dir, "abc");
    assert_eq!((l.name(), l.path()), ("abc", "/cache/dockfoxbuild/locks/image_abc.lock"));
    assert!(l.is_shared() && l.waits());
    assert_eq!(l.release(), ReleaseStep::UnlockShared);
    let l = Lock::try_image(&dir, "abc");
    assert_eq!(l.path(), "/cache/dockfoxbuild/locks/image_abc.lock");
    assert!(!l.is_shared() && !l.waits());
}

#[test]
fn containers_and_images_have_locks_of_their_own() {
    let dir = lock_dir("/cache");
    assert_eq!(container_lock_path(&dir, "x"), "/cache/locks/container_x.lock");
    assert_eq!(image_lock_path(&dir, "x"), "/cache/locks/image_x.lock");
    for a in ["x", "image_x", "container_x", ""] {
        for b in ["x", "image_x", "container_x", ""] {
            assert_ne!(Lock::try_container(&dir, a).path(), Lock::try_image(&dir, b).path());
            assert_ne!(container_lock_path(&dir, a), image_lock_path(&dir, b));
        }
    }
}

fn steps(first: ReleaseStep, locked: bool) -> Vec<ReleaseStep> {
    let mut all = vec![first];
    let mut step = first;
    while let Some(next) = next_step(step, locked || step != ReleaseStep::TryLock) {
        all.push(next);
        step = next;
    }
    all
}

#[test]
fn files_are_removed_under_an_exclusive_lock() {
    assert_eq!(steps(ReleaseStep::Remove, true), vec![ReleaseStep::Remove, ReleaseStep::Unlock]);
    assert_eq!(
        steps(ReleaseStep::UnlockShared, true),
        vec![ReleaseStep::UnlockShared, ReleaseStep::TryLock, ReleaseStep::Remove, ReleaseStep::Unlock]
    );
    assert_eq!(steps(ReleaseStep::UnlockShared, false), vec![ReleaseStep::UnlockShared, ReleaseStep::TryLock]);
    assert_eq!(steps(ReleaseStep::TryLock, false), vec![ReleaseStep::TryLock]);
}

#[test]
fn left_over_image_locks_are_swept() {
    let files = words(&[
        "image_a.lock",
        "image_b.lock",
        "container_a.lock",
        "image_c",
        "image_d.e.lock",
        ".image_x",
        "other",
    ]);
    assert_eq!(
        sweep_image_locks(&files, &words(&["a", "c"])),
        words(&["image_b.lock", "image_d.e.lock"])
    );
    assert_eq!(
        sweep_image_locks(&files, &words(&[])),
        words(&["image_a.lock", "image_b.lock", "image_c", "image_d.e.lock"])
    );
}

#[test]
fn stems_agree_with_the_standard_library() {
    for name in ["image_a.lock", "image_a", ".image_a", "image_a.", "image_.b.c", "image_..x", "..image_"] {
        let stem = std::path::Path::new(name).file_stem().and_then(|s| s.to_str());
        let image = stem.and_then(|s| s.strip_prefix("image_"));
        assert_eq!(sweep_image_locks(&words(&[name]), &words(&[])).len(), image.map_or(0, |_| 1));
        if let Some(id) = image {
            assert!(sweep_image_locks(&words(&[name]), &words(&[id])).is_empty());
        }
    }
}

#[test]
fn cache_places() {
    assert_eq!(cache_dir(Some("/x"), Some("/h")).unwrap(), "/x/dockfoxbuild");
    assert_eq!(cache_dir(None, Some("/h")).unwrap(), "/h/.cache/dockfoxbuild");
    assert_eq!(cache_dir(None, None), Err(CacheError::NoHome));
    assert_eq!(database_path("/h/.cache/dockfoxbuild"), "/h/.cache/dockfoxbuild/cache.db");
    assert_eq!(cache_image_name("abc"), "localhost/dockfoxbuild_cache:abc");
    assert_eq!(remote_cache_name("reg/x", "abc"), "reg/x:abc");
}

#[test]
fn push_forwards_its_arguments() {
    let mut a = PushArgs {
        image: "img".to_string(),
        destination: None,
        rm: false,
        format: None,
        tls_verify: None,
        authfile: None,
        extra: vec![],
    };
    assert_eq!(push(&a), words(&["push", "img"]));
    a.destination = Some("dest".to_string());
    a.rm = true;
    a.format = Some("oci".to_string());
    a.tls_verify = Some(false);
    a.authfile = Some("f".to_string());
    a.extra = words(&["--x", "y"]);
    assert_eq!(
        push(&a),
        words(&[
            "push", "--rm", "--format", "oci", "--tls-verify", "false", "--authfile", "f", "--x",
            "y", "img", "dest",
        ])
    );
}

#[test]
fn pull_forwards_its_arguments() {
    let mut a = PullArgs {
        image: "img".to_string(),
        tls_verify: None,
        authfile: None,
        all_tags: false,
        extra: vec![],
    };
    assert_eq!(pull(&a), words(&["pull", "img"]));
    a.tls_verify = Some(true);
    a.authfile = Some("f".to_string());
    a.all_tags = true;
    a.extra = words(&["-q"]);
    assert_eq!(
        pull(&a),
        words(&["pull", "--tls-verify", "true", "--authfile", "f", "--all-tags", "-q", "img"])
    );
}
