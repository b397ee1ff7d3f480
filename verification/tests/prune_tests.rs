use dockfoxbuild::duration::Duration;
use dockfoxbuild::prune::{
    builder_containers, is_reported, is_stray, is_stray_since, merge_checkpoints, merge_remote,
    read_image, read_image_at, read_images, removal_outcome, removal_targets, sort_images,
    wait_step, Attempt, ContainerPsInfo, ImageInfo, ImageInfo2, PruneArgs, PruneError,
    RemoveOutcome, WaitStep,
};
use dockfoxbuild::pruner::{sizes_fit, Pruner};
use dockfoxbuild::size::Size;

fn listed(id: &str, created: &str, size: u64) -> ImageInfo {
    ImageInfo {
        id: id.to_string(),
        names: vec![format!("name-{}", id)],
        size: Size(size),
        createdatraw: created.to_string(),
    }
}

fn image(id: &str, time: u64, size: u64) -> ImageInfo2 {
    ImageInfo2 { id: id.to_string(), names: vec![], size, time, checkpoints: vec![] }
}

fn args(min: u64, max: u64, size: u64) -> PruneArgs {
    PruneArgs {
        min_age: Duration(min),
        max_age: Duration(max),
        max_cache_size: Size(size),
        quiet: false,
    }
}

fn attempt(success: bool, stderr: &str) -> Attempt {
    Attempt { success, stderr: stderr.to_string() }
}

#[test]
fn only_builders_may_be_strays() {
    let v = vec![
        ContainerPsInfo { id: "a".to_string(), builder: true },
        ContainerPsInfo { id: "b".to_string(), builder: false },
        ContainerPsInfo { id: "c".to_string(), builder: true },
    ];
    assert_eq!(builder_containers(&v), vec!["a", "c"]);
}

#[test]
fn strays_are_an_hour_old() {
    let created = "2024-01-01T00:00:00.5Z";
    // 2024-01-01T00:00:00Z
    let t: i64 = 1_704_067_200;
    assert_eq!(is_stray(created, t + 3600, 0), Ok(false));
    assert_eq!(is_stray(created, t + 3600, 500_000_000), Ok(true));
    assert_eq!(is_stray(created, t, 0), Ok(false));
    assert_eq!(is_stray("2024-01-01T01:00:00+01:00", t + 3600, 0), Ok(true));
    assert_eq!(is_stray("yesterday", t, 0), Err(PruneError::BadTime));
}

#[test]
fn ages_agree_with_the_clock_library() {
    let dates = [
        "1960-01-01T00:00:00Z",
        "1969-12-31T23:59:59.999999999Z",
        "2024-01-01T00:00:00.5Z",
        "2024-01-01T01:00:00+01:00",
        "2024-01-01T12:34:60Z",
        "2024-01-01T12:34:60.75+05:30",
        "0000-01-01T00:00:00Z",
        "9999-12-31T23:59:60Z",
    ];
    let hour = chrono::Duration::hours(1);
    for a in dates {
        let then = chrono::DateTime::parse_from_rfc3339(a).unwrap();
        let t = (then.timestamp(), then.timestamp_subsec_nanos());
        for b in dates {
            let now = chrono::DateTime::parse_from_rfc3339(b).unwrap();
            for k in [-86_400, -3601, -1, 0, 1, 3598, 3599, 3600, 3601, 50_000, 86_400] {
                let n = (now.timestamp() + k, now.timestamp_subsec_nanos());
                let later = chrono::DateTime::from_timestamp(n.0, 0).unwrap().naive_utc();
                let later = chrono::Timelike::with_nanosecond(&later, n.1).unwrap().and_utc();
                let want = later.signed_duration_since(then) >= hour;
                assert_eq!(is_stray_since(t, n), want, "{} {} {}", a, b, k);
                assert_eq!(is_stray(a, n.0, n.1), Ok(want));
            }
        }
    }
    // A leap second is counted where the time of day is later, down to the nanosecond.
    let t = (1_704_112_499, 1_000_000_000);
    assert!(is_stray_since(t, (1_704_112_499 + 3600, 0)));
    assert!(!is_stray_since(t, (1_704_112_499 + 3599, 999_999_999)));
    assert_eq!(is_stray("2024-01-01T00:00:00Z", i64::MIN, 0), Ok(false));
    assert_eq!(is_stray("2024-01-01T00:00:00Z", i64::MAX, u32::MAX), Ok(true));
}

#[test]
fn list_of_containers_is_given_a_deadline() {
    assert_eq!(wait_step(true, 0), WaitStep::Done);
    assert_eq!(wait_step(true, 90_000), WaitStep::Done);
    assert_eq!(wait_step(false, 0), WaitStep::Sleep { millis: 100 });
    assert_eq!(wait_step(false, 89_999), WaitStep::Sleep { millis: 100 });
    assert_eq!(wait_step(false, 90_000), WaitStep::TimeOut);
}

#[test]
fn images_are_read() {
    let i = read_image(&listed("sha256:abc", "2024-01-01T00:00:00Z", 5)).unwrap();
    assert_eq!(i.id, "abc");
    assert_eq!(i.names, vec!["name-sha256:abc"]);
    assert_eq!((i.size, i.time), (5, 1_704_067_200));
    assert!(i.checkpoints.is_empty());
    // A time before the epoch is taken as an unsigned number of the same bits.
    let i = read_image(&listed("sha256:abc", "1969-12-31T23:59:59Z", 5)).unwrap();
    assert_eq!(i.time, u64::MAX);
    assert_eq!(read_image(&listed("sha256:abc", "x", 5)).unwrap_err(), PruneError::BadTime);
    assert_eq!(
        read_image(&listed("abc", "2024-01-01T00:00:00Z", 5)).unwrap_err(),
        PruneError::MissingSha256
    );
    // The time is looked at first.
    assert_eq!(read_image(&listed("abc", "x", 5)).unwrap_err(), PruneError::BadTime);
    assert_eq!(read_image_at(&listed("sha256:q", "x", 5), Some(7)).unwrap().time, 7);
}

#[test]
fn later_entries_of_an_image_count() {
    let list = vec![
        listed("sha256:a", "2024-01-01T00:00:00Z", 1),
        listed("sha256:b", "2024-01-01T00:00:00Z", 2),
        listed("sha256:a", "2024-01-01T00:00:01Z", 3),
    ];
    let v = read_images(&list).unwrap();
    assert_eq!(v.len(), 2);
    assert_eq!((v[0].id.as_str(), v[0].size), ("a", 3));
    assert_eq!((v[1].id.as_str(), v[1].size), ("b", 2));
    let bad = vec![listed("sha256:a", "x", 1), listed("b", "2024-01-01T00:00:00Z", 1)];
    assert_eq!(read_images(&bad).unwrap_err(), PruneError::BadTime);
}

#[test]
fn use_moves_the_time_forward() {
    let mut v = vec![image("a", 100, 1), image("b", 200, 1)];
    let gone = merge_remote(
        &mut v,
        &vec![("a".to_string(), 150), ("x".to_string(), 1), ("b".to_string(), 150)],
    );
    assert_eq!(gone, vec!["x"]);
    assert_eq!((v[0].time, v[1].time), (150, 200));
    let gone = merge_checkpoints(
        &mut v,
        &vec![
            ("h1".to_string(), "a".to_string(), 400),
            ("h2".to_string(), "y".to_string(), 1),
            ("h3".to_string(), "a".to_string(), 300),
        ],
    );
    assert_eq!(gone, vec!["h2"]);
    assert_eq!(v[0].time, 400);
    assert_eq!(v[0].checkpoints, vec!["h1", "h3"]);
    assert!(v[1].checkpoints.is_empty());
}

#[test]
fn images_are_sorted_by_time() {
    let v = sort_images(vec![image("c", 3, 1), image("a", 1, 1), image("b", 2, 1)]);
    let ids: Vec<&str> = v.iter().map(|i| i.id.as_str()).collect();
    assert_eq!(ids, vec!["a", "b", "c"]);
}

#[test]
fn tags_are_removed_rather_than_ids() {
    let mut i = image("id", 1, 1);
    assert_eq!(removal_targets(&i), vec!["id"]);
    i.names = vec!["x".to_string(), "y".to_string()];
    assert_eq!(removal_targets(&i), vec!["x", "y"]);
}

#[test]
fn outcomes_of_removal() {
    let busy = "Error: image is in use by a container: abc";
    assert_eq!(removal_outcome(&vec![attempt(true, ""), attempt(true, "x")]), RemoveOutcome::Removed);
    assert_eq!(removal_outcome(&vec![attempt(false, "no"), attempt(false, busy)]), RemoveOutcome::InUse);
    assert_eq!(removal_outcome(&vec![attempt(true, busy), attempt(false, "no")]), RemoveOutcome::Failed);
    assert_eq!(removal_outcome(&vec![]), RemoveOutcome::Removed);
    assert!(is_reported(&attempt(false, "no")));
    assert!(!is_reported(&attempt(false, busy)));
    assert!(!is_reported(&attempt(false, "")));
    assert!(!is_reported(&attempt(true, "warning")));
}

fn run(p: &mut Pruner, outcome: RemoveOutcome) -> Vec<String> {
    let mut ids = vec![];
    loop {
        match p.next() {
            Some(i) => ids.push(i.id.clone()),
            None => return ids,
        }
        p.record(outcome);
    }
}

#[test]
fn old_images_go_and_young_ones_stay() {
    let images = || vec![image("new", 990, 50), image("old", 100, 50), image("mid", 500, 50)];
    let mut p = Pruner::new(images(), &args(100, 800, 1000), 1000);
    assert_eq!(run(&mut p, RemoveOutcome::Removed), vec!["old"]);
    assert_eq!(
        p.summary(),
        "Freed 50B out of 150B, oldest image age: 500; 3 total images, removed: 1, in use: 0, failed: 0"
    );
    // A cache that is too large loses images until it fits.
    let mut p = Pruner::new(images(), &args(100, 800, 99), 1000);
    assert_eq!(run(&mut p, RemoveOutcome::Removed), vec!["old", "mid"]);
    // An image in use frees nothing, and a young image is never removed.
    let mut p = Pruner::new(images(), &args(100, 800, 0), 1000);
    assert_eq!(run(&mut p, RemoveOutcome::InUse), vec!["old", "mid"]);
    assert_eq!(
        p.summary(),
        "Freed 0GB out of 150B, oldest image age: 10; 3 total images, removed: 0, in use: 2, failed: 0"
    );
    assert_eq!(p.boundary(), 990);
    // With no minimum everything can go, and the age is that of no image.
    let mut p = Pruner::new(images(), &args(0, 0, 0), 1000);
    assert_eq!(run(&mut p, RemoveOutcome::Failed), vec!["old", "mid", "new"]);
    assert_eq!(
        p.summary(),
        "Freed 0GB out of 150B, oldest image age: 0w; 3 total images, removed: 0, in use: 0, failed: 3"
    );
    // An image of exactly the maximum age stays, as does one of exactly the allowed size.
    let mut p = Pruner::new(images(), &args(0, 900, 150), 1000);
    assert!(run(&mut p, RemoveOutcome::Removed).is_empty());
}

#[test]
fn images_from_the_future_have_no_age() {
    let mut p = Pruner::new(vec![image("f", 2000, 1)], &args(1, 0, 0), 1000);
    assert!(run(&mut p, RemoveOutcome::Removed).is_empty());
    assert_eq!(p.boundary(), 2000);
}

#[test]
fn sizes_that_do_not_fit_are_noticed() {
    assert!(sizes_fit(&vec![image("a", 1, u64::MAX - 1), image("b", 1, 1)]));
    assert!(!sizes_fit(&vec![image("a", 1, u64::MAX), image("b", 1, 1)]));
}
