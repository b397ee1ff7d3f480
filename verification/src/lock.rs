//! Advisory locks that mark containers and images as owned by a running build.
//!
//! Builds and pruning share a single storage, so pruning needs to tell a resource belonging
//! to a live build from one left behind by a build that crashed. Age is no usable signal:
//! the creation time that is reported for a builder container is that of its base image.
//!
//! Instead a build holds a lock on a file named after each resource it depends on, for as
//! long as it depends on it. The kernel releases the lock when the owning process dies, so
//! trying to take the lock tells whether the owner is still alive.
//!
//! This module decides how the files are named, in which way they are locked, in which
//! order a lock is given up, and which files are left over.
use vstd::prelude::*;

use crate::paths::{join, join_path};
use crate::text::{
    all_digits, append, decimal, decimal_text, is_digit, lemma_decimal, same_text, strip_prefix,
    texts, to_chars, to_text, without_prefix,
};

verus! {

/// Prefix identifying containers created by this tool.
pub const CONTAINER_PREFIX: &'static str = "dockfoxbuild-";

/// The directory where lock files are stored, in the directory of the cache.
pub fn lock_dir(cache_dir: &str) -> (r: String)
    ensures
        r@ == join_path(cache_dir@, "locks"@),
{
    join(cache_dir, "locks")
}

/// The name of the lock file of a container.
pub open spec fn container_lock_name(name: Seq<char>) -> Seq<char> {
    "container_"@ + name + ".lock"@
}

/// The name of the lock file of an image.
pub open spec fn image_lock_name(id: Seq<char>) -> Seq<char> {
    "image_"@ + id + ".lock"@
}

/// The path of the file that is locked for a container. No image is claimed on it.
pub fn container_lock_path(lock_dir: &str, name: &str) -> (r: String)
    ensures
        r@ == join_path(lock_dir@, container_lock_name(name@)),
        forall|id: Seq<char>| r@ != join_path(lock_dir@, #[trigger] image_lock_name(id)),
{
    proof {
        assert forall|id: Seq<char>| join_path(lock_dir@, container_lock_name(name@)) != join_path(
            lock_dir@,
            #[trigger] image_lock_name(id),
        ) by {
            law_container_and_image_locks_are_apart(lock_dir@, name@, id);
        }
    }
    let mut c = to_chars("container_");
    append(&mut c, name);
    append(&mut c, ".lock");
    join(lock_dir, to_text(&c).as_str())
}

/// The path of the file that is locked for an image. No container is claimed on it.
pub fn image_lock_path(lock_dir: &str, id: &str) -> (r: String)
    ensures
        r@ == join_path(lock_dir@, image_lock_name(id@)),
        forall|name: Seq<char>| r@ != join_path(lock_dir@, #[trigger] container_lock_name(name)),
{
    proof {
        assert forall|name: Seq<char>| join_path(lock_dir@, image_lock_name(id@)) != join_path(
            lock_dir@,
            #[trigger] container_lock_name(name),
        ) by {
            law_container_and_image_locks_are_apart(lock_dir@, name, id@);
        }
    }
    let mut c = to_chars("image_");
    append(&mut c, id);
    append(&mut c, ".lock");
    join(lock_dir, to_text(&c).as_str())
}

/// The name of a container: the prefix, the process, the time, and a count.
pub open spec fn container_name(process: nat, nanos: nat, count: nat) -> Seq<char> {
    CONTAINER_PREFIX@ + decimal(process) + "-"@ + decimal(nanos) + "-"@ + decimal(count)
}

/// Builds a container name that no concurrent build can collide with, from the process, the
/// time in nanoseconds, and how many names the process has asked for before.
pub fn new_container_name(process: u32, nanos: u128, count: u64) -> (r: String)
    ensures
        r@ == container_name(process as nat, nanos as nat, count as nat),
{
    let mut c = to_chars(CONTAINER_PREFIX);
    append(&mut c, decimal_text(process as u128).as_str());
    append(&mut c, "-");
    append(&mut c, decimal_text(nanos).as_str());
    append(&mut c, "-");
    append(&mut c, decimal_text(count as u128).as_str());
    to_text(&c)
}

proof fn lemma_digits_end(a: Seq<char>, x: Seq<char>, b: Seq<char>, y: Seq<char>)
    requires
        all_digits(a),
        all_digits(b),
        a + seq!['-'] + x == b + seq!['-'] + y,
    ensures
        a == b,
        x == y,
{
    let s = a + seq!['-'] + x;
    let t = b + seq!['-'] + y;
    assert(s[a.len() as int] == '-');
    assert(t[b.len() as int] == '-');
    if a.len() < b.len() {
        assert(t[a.len() as int] == b[a.len() as int]);
        assert(is_digit(b[a.len() as int]));
    }
    if b.len() < a.len() {
        assert(s[b.len() as int] == a[b.len() as int]);
        assert(is_digit(a[b.len() as int]));
    }
    assert(a =~= s.take(a.len() as int));
    assert(b =~= t.take(b.len() as int));
    assert(x =~= s.skip(a.len() + 1int));
    assert(y =~= t.skip(b.len() + 1int));
}

/// Two names that are made by different processes, at different times, or with different
/// counts are different.
pub proof fn law_container_names_are_distinct(
    p: nat,
    nanos: nat,
    count: nat,
    q: nat,
    nanos2: nat,
    count2: nat,
)
    requires
        p != q || nanos != nanos2 || count != count2,
    ensures
        container_name(p, nanos, count) != container_name(q, nanos2, count2),
{
    reveal_strlit("-");
    assert("-"@ =~= seq!['-']);
    lemma_decimal(p);
    lemma_decimal(q);
    lemma_decimal(nanos);
    lemma_decimal(nanos2);
    lemma_decimal(count);
    lemma_decimal(count2);
    let s = container_name(p, nanos, count);
    let t = container_name(q, nanos2, count2);
    let n = CONTAINER_PREFIX@.len() as int;
    let x = decimal(nanos) + seq!['-'] + decimal(count);
    let y = decimal(nanos2) + seq!['-'] + decimal(count2);
    if s == t {
        assert(s.skip(n) =~= decimal(p) + seq!['-'] + x);
        assert(t.skip(n) =~= decimal(q) + seq!['-'] + y);
        lemma_digits_end(decimal(p), x, decimal(q), y);
        lemma_digits_end(decimal(nanos), decimal(count), decimal(nanos2), decimal(count2));
    }
}

/// A claim on a container or an image: the file that is to be locked, and how. Releasing the
/// lock is what tells pruning that the resource may be collected, so it is held until the
/// build is done with it.
#[derive(Debug)]
pub struct Lock {
    name: String,
    path: String,
    shared: bool,
    waits: bool,
}

/// A `Lock` with its texts as sequences of characters.
#[verifier::ext_equal]
pub struct LockView {
    pub name: Seq<char>,
    pub path: Seq<char>,
    pub shared: bool,
    pub waits: bool,
}

impl View for Lock {
    type V = LockView;

    closed spec fn view(&self) -> LockView {
        LockView { name: self.name@, path: self.path@, shared: self.shared, waits: self.waits }
    }
}

impl Lock {
    /// The claim on a new container, of a name that is made up. It must be taken before the
    /// container is created, so that pruning never sees an unowned container that is about
    /// to be used. Nothing else contends for it, so it is taken exclusively. It is waited
    /// for: pruning takes it briefly to test ownership.
    pub fn new_container(lock_dir: &str, process: u32, nanos: u128, count: u64) -> (r: Lock)
        ensures
            ({
                let name = container_name(process as nat, nanos as nat, count as nat);
                r@ == (LockView {
                    name,
                    path: join_path(lock_dir@, container_lock_name(name)),
                    shared: false,
                    waits: true,
                })
            }),
            first_step(r@.shared) is Remove,
    {
        let name = new_container_name(process, nanos, count);
        let path = container_lock_path(lock_dir, name.as_str());
        Lock { name, path, shared: false, waits: true }
    }

    /// The claim of pruning on a container, to be had only if no live build owns it. It must
    /// be held across the removal: testing it and releasing would let a build claim the name
    /// and create its container in the gap.
    pub fn try_container(lock_dir: &str, name: &str) -> (r: Lock)
        ensures
            r@ == (LockView {
                name: name@,
                path: join_path(lock_dir@, container_lock_name(name@)),
                shared: false,
                waits: false,
            }),
            first_step(r@.shared) is Remove,
    {
        let path = container_lock_path(lock_dir, name);
        Lock { name: to_text(&to_chars(name)), path, shared: false, waits: false }
    }

    /// The claim of a build on an image. It must be taken before the build relies on the
    /// image existing. It is shared: any number of builds may depend on the same image.
    pub fn image(lock_dir: &str, id: &str) -> (r: Lock)
        ensures
            r@ == (LockView {
                name: id@,
                path: join_path(lock_dir@, image_lock_name(id@)),
                shared: true,
                waits: true,
            }),
            first_step(r@.shared) is UnlockShared,
    {
        let path = image_lock_path(lock_dir, id);
        Lock { name: to_text(&to_chars(id)), path, shared: true, waits: true }
    }

    /// The claim of pruning on an image, to be had only if no live build depends on it. It is
    /// exclusive, so it also keeps out the shared claims of builds, and must be held across
    /// the removal.
    pub fn try_image(lock_dir: &str, id: &str) -> (r: Lock)
        ensures
            r@ == (LockView {
                name: id@,
                path: join_path(lock_dir@, image_lock_name(id@)),
                shared: false,
                waits: false,
            }),
            first_step(r@.shared) is Remove,
    {
        let path = image_lock_path(lock_dir, id);
        Lock { name: to_text(&to_chars(id)), path, shared: false, waits: false }
    }

    /// The name of the container or image this lock protects.
    pub fn name(&self) -> (r: &str)
        ensures
            r@ == self@.name,
    {
        self.name.as_str()
    }

    /// The file that is locked.
    pub fn path(&self) -> (r: &str)
        ensures
            r@ == self@.path,
    {
        self.path.as_str()
    }

    /// Whether others may hold the lock at the same time.
    pub fn is_shared(&self) -> (r: bool)
        ensures
            r == self@.shared,
    {
        self.shared
    }

    /// Whether to wait for the lock where someone else holds it.
    pub fn waits(&self) -> (r: bool)
        ensures
            r == self@.waits,
    {
        self.waits
    }

    /// The first step in which the lock is given up.
    pub fn release(&self) -> (r: ReleaseStep)
        ensures
            r == first_step(self@.shared),
    {
        if self.shared {
            ReleaseStep::UnlockShared
        } else {
            ReleaseStep::Remove
        }
    }
}

/// A claim on a container and one on an image are on different files.
pub proof fn law_container_and_image_locks_are_apart(
    lock_dir: Seq<char>,
    name: Seq<char>,
    id: Seq<char>,
)
    ensures
        container_lock_name(name) != image_lock_name(id),
        join_path(lock_dir, container_lock_name(name)) != join_path(lock_dir, image_lock_name(id)),
{
    reveal_strlit("container_");
    reveal_strlit("image_");
    let c = container_lock_name(name);
    let i = image_lock_name(id);
    assert(c[0] == 'c' && i[0] == 'i');
    lemma_join_keeps_apart(lock_dir, c, i);
}

/// Different names are different files of one directory.
proof fn lemma_join_keeps_apart(dir: Seq<char>, a: Seq<char>, b: Seq<char>)
    requires
        a != b,
        a.len() > 0 && a[0] != '/',
        b.len() > 0 && b[0] != '/',
    ensures
        join_path(dir, a) != join_path(dir, b),
{
    let n = join_path(dir, a).len() - a.len();
    assert(join_path(dir, a).skip(n) =~= a);
    assert(join_path(dir, b).skip(n) =~= b);
}

/// Claims on different containers are on different files, and so are those on different
/// images.
pub proof fn law_lock_names_are_distinct(a: Seq<char>, b: Seq<char>)
    requires
        a != b,
    ensures
        container_lock_name(a) != container_lock_name(b),
        image_lock_name(a) != image_lock_name(b),
{
    let n = "container_"@.len() as int;
    let m = "image_"@.len() as int;
    let e = ".lock"@.len();
    assert(container_lock_name(a).len() == n + a.len() + e);
    assert(container_lock_name(b).len() == n + b.len() + e);
    assert(image_lock_name(a).len() == m + a.len() + e);
    assert(image_lock_name(b).len() == m + b.len() + e);
    if container_lock_name(a) == container_lock_name(b) {
        let s = container_lock_name(a);
        assert(a =~= s.subrange(n, n + a.len()));
        assert(b =~= s.subrange(n, n + a.len()));
    }
    if image_lock_name(a) == image_lock_name(b) {
        let s = image_lock_name(a);
        assert(a =~= s.subrange(m, m + a.len()));
        assert(b =~= s.subrange(m, m + a.len()));
    }
}

// ---------------------------------------------------------------------------------------
// Release
// ---------------------------------------------------------------------------------------
/// One step of giving up a lock.
#[derive(Debug, Clone, Copy, PartialEq, Eq, Structural)]
pub enum ReleaseStep {
    /// Unlock the file, which is locked together with others.
    UnlockShared,
    /// Try to lock the file exclusively.
    TryLock,
    /// Remove the file.
    Remove,
    /// Unlock the file, which is locked exclusively.
    Unlock,
}

/// The first step of giving up a lock. A shared lock must be had exclusively before its file
/// may be removed.
pub open spec fn first_step(shared: bool) -> ReleaseStep {
    if shared {
        ReleaseStep::UnlockShared
    } else {
        ReleaseStep::Remove
    }
}

/// The step behind a step, given whether that one succeeded. A file whose lock someone else
/// holds is left alone.
pub open spec fn step_after(step: ReleaseStep, success: bool) -> Option<ReleaseStep> {
    match step {
        ReleaseStep::UnlockShared => Some(ReleaseStep::TryLock),
        ReleaseStep::TryLock => if success {
            Some(ReleaseStep::Remove)
        } else {
            None
        },
        ReleaseStep::Remove => Some(ReleaseStep::Unlock),
        ReleaseStep::Unlock => None,
    }
}

/// The step behind a step of giving up a lock, given whether that one succeeded. Only the
/// outcome of an attempt to lock is of account.
pub fn next_step(step: ReleaseStep, success: bool) -> (r: Option<ReleaseStep>)
    ensures
        r == step_after(step, success),
{
    match step {
        ReleaseStep::UnlockShared => Some(ReleaseStep::TryLock),
        ReleaseStep::TryLock => if success {
            Some(ReleaseStep::Remove)
        } else {
            None
        },
        ReleaseStep::Remove => Some(ReleaseStep::Unlock),
        ReleaseStep::Unlock => None,
    }
}

/// How a process holds a lock.
pub enum Hold {
    Unheld,
    Shared,
    Exclusive,
}

/// How a lock is held behind a step.
pub open spec fn held_after(hold: Hold, step: ReleaseStep, success: bool) -> Hold {
    match step {
        ReleaseStep::UnlockShared => Hold::Unheld,
        ReleaseStep::TryLock => if success {
            Hold::Exclusive
        } else {
            hold
        },
        ReleaseStep::Remove => hold,
        ReleaseStep::Unlock => Hold::Unheld,
    }
}

/// How a lock is held before each step.
pub open spec fn held_before(step: ReleaseStep) -> Hold {
    match step {
        ReleaseStep::UnlockShared => Hold::Shared,
        ReleaseStep::TryLock => Hold::Unheld,
        ReleaseStep::Remove => Hold::Exclusive,
        ReleaseStep::Unlock => Hold::Exclusive,
    }
}

/// A lock file is removed only while its lock is held exclusively: a lock is given up from
/// the way in which it is held, each step leaves it as the next one takes it, and the last
/// one leaves it unheld.
pub proof fn law_files_are_removed_under_lock(shared: bool, step: ReleaseStep, success: bool)
    ensures
        held_before(first_step(shared)) == (if shared {
            Hold::Shared
        } else {
            Hold::Exclusive
        }),
        held_before(ReleaseStep::Remove) is Exclusive,
        match step_after(step, success) {
            Some(next) => held_after(held_before(step), step, success) == held_before(next),
            None => held_after(held_before(step), step, success) is Unheld,
        },
{
}

// ---------------------------------------------------------------------------------------
// Left-over files
// ---------------------------------------------------------------------------------------
/// The place of the last dot of a file name before a given place.
pub open spec fn last_dot(name: Seq<char>, n: int) -> Option<int>
    decreases n,
{
    if n <= 0 {
        None
    } else if name[n - 1] == '.' {
        Some(n - 1)
    } else {
        last_dot(name, n - 1)
    }
}

/// A file name without its extension. A dot in front is not that of an extension.
pub open spec fn stem(name: Seq<char>) -> Seq<char> {
    match last_dot(name, name.len() as int) {
        Some(i) => if i > 0 {
            name.take(i)
        } else {
            name
        },
        None => name,
    }
}

fn stem_len(name: &[char]) -> (r: usize)
    ensures
        r <= name@.len(),
        stem(name@) == name@.take(r as int),
{
    let mut n: usize = name.len();
    proof {
        assert(name@.take(name@.len() as int) =~= name@);
    }
    while n > 0
        invariant
            n <= name@.len(),
            last_dot(name@, name@.len() as int) == last_dot(name@, n as int),
        decreases n,
    {
        if name[n - 1] == '.' {
            return if n > 1 {
                n - 1
            } else {
                name.len()
            };
        }
        n -= 1;
    }
    name.len()
}

/// The image that a lock file belongs to; `None` for any other file.
pub open spec fn locked_image(file_name: Seq<char>) -> Option<Seq<char>> {
    strip_prefix(stem(file_name), "image_"@)
}

/// Whether some texts hold a given one.
pub open spec fn listed(v: Seq<Seq<char>>, id: Seq<char>) -> bool {
    exists|i: int| 0 <= i < v.len() && #[trigger] v[i] == id
}

fn is_listed(v: &Vec<String>, id: &str) -> (r: bool)
    ensures
        r == listed(texts(v@), id@),
{
    let ghost all = texts(v@);
    let mut i: usize = 0;
    while i < v.len()
        invariant
            i <= v@.len(),
            all == texts(v@),
            forall|k: int| 0 <= k < i ==> #[trigger] all[k] != id@,
        decreases v.len() - i,
    {
        if same_text(v[i].as_str(), id) {
            proof {
                assert(all[i as int] == id@);
            }
            return true;
        }
        i += 1;
    }
    false
}

/// Whether a file is the lock file of an image that no longer exists.
pub open spec fn left_over(file_name: Seq<char>, existing: Seq<Seq<char>>) -> bool {
    locked_image(file_name) matches Some(id) && !listed(existing, id)
}

fn is_left_over(file_name: &str, existing: &Vec<String>) -> (r: bool)
    ensures
        r == left_over(file_name@, texts(existing@)),
{
    let c = to_chars(file_name);
    let n = stem_len(&c);
    let s = crate::text::head(&c, n);
    match without_prefix(s, "image_") {
        Some(id) => !is_listed(existing, to_text(id).as_str()),
        None => false,
    }
}

/// Those of some files that are left over.
pub open spec fn sweep(files: Seq<Seq<char>>, existing: Seq<Seq<char>>) -> Seq<Seq<char>>
    decreases files.len(),
{
    if files.len() == 0 {
        seq![]
    } else if left_over(files.last(), existing) {
        sweep(files.drop_last(), existing).push(files.last())
    } else {
        sweep(files.drop_last(), existing)
    }
}

/// Those of the files in the lock directory that are locks of images that no longer exist,
/// so that crashed builds do not leak them forever. Each is to be removed unless a live
/// process holds its lock, beginning with `ReleaseStep::TryLock`.
pub fn sweep_image_locks(files: &Vec<String>, existing_ids: &Vec<String>) -> (r: Vec<String>)
    ensures
        texts(r@) == sweep(texts(files@), texts(existing_ids@)),
{
    let ghost all = texts(files@);
    let ghost ids = texts(existing_ids@);
    let mut r: Vec<String> = Vec::new();
    let mut i: usize = 0;
    proof {
        assert(all.take(0) =~= seq![]);
        assert(texts(r@) =~= seq![]);
    }
    while i < files.len()
        invariant
            i <= files@.len(),
            all == texts(files@),
            ids == texts(existing_ids@),
            texts(r@) == sweep(all.take(i as int), ids),
        decreases files.len() - i,
    {
        proof {
            assert(all.take(i + 1).drop_last() =~= all.take(i as int));
            assert(all.take(i + 1).last() == files@[i as int]@);
        }
        if is_left_over(files[i].as_str(), existing_ids) {
            let ghost before = texts(r@);
            r.push(files[i].clone());
            proof {
                assert(texts(r@) =~= before.push(files@[i as int]@));
            }
        }
        i += 1;
    }
    proof {
        assert(all.take(i as int) =~= all);
    }
    r
}

/// A file is swept only where it is left over, and every file that is left over is swept.
pub proof fn law_sweep_takes_what_is_left_over(
    files: Seq<Seq<char>>,
    existing: Seq<Seq<char>>,
    name: Seq<char>,
)
    ensures
        sweep(files, existing).contains(name) <==> files.contains(name) && left_over(name, existing),
    decreases files.len(),
{
    if files.len() > 0 {
        let front = files.drop_last();
        let rest = sweep(front, existing);
        law_sweep_takes_what_is_left_over(front, existing, name);
        assert(files =~= front.push(files.last()));
        if files.contains(name) && name != files.last() {
            let i = choose|i: int| 0 <= i < files.len() && files[i] == name;
            assert(front[i] == name);
        }
        if front.contains(name) {
            let i = choose|i: int| 0 <= i < front.len() && front[i] == name;
            assert(files[i] == name);
        }
        assert(files[files.len() - 1] == files.last());
        let now = sweep(files, existing);
        if left_over(files.last(), existing) {
            assert(now[now.len() - 1] == files.last());
            if rest.contains(name) {
                let i = choose|i: int| 0 <= i < rest.len() && rest[i] == name;
                assert(now[i] == name);
            }
            if now.contains(name) && name != files.last() {
                let i = choose|i: int| 0 <= i < now.len() && now[i] == name;
                assert(rest[i] == name);
            }
        }
    }
}

proof fn lemma_last_dot(name: Seq<char>, i: int, n: int)
    requires
        0 <= i < n <= name.len(),
        name[i] == '.',
        forall|k: int| i < k < n ==> name[k] != '.',
    ensures
        last_dot(name, n) == Some(i),
    decreases n,
{
    if n - 1 > i {
        lemma_last_dot(name, i, n - 1);
    }
}

/// The lock file of an image belongs to that image, so it is swept exactly when the image no
/// longer exists.
pub proof fn law_image_locks_belong_to_their_images(id: Seq<char>, existing: Seq<Seq<char>>)
    ensures
        locked_image(image_lock_name(id)) == Some(id),
        left_over(image_lock_name(id), existing) == !listed(existing, id),
{
    reveal_strlit(".lock");
    reveal_strlit("image_");
    let name = image_lock_name(id);
    let i = 6 + id.len() as int;
    assert(name[i] == ".lock"@[0]);
    assert(name[i + 1] == ".lock"@[1] && name[i + 2] == ".lock"@[2]);
    assert(name[i + 3] == ".lock"@[3] && name[i + 4] == ".lock"@[4]);
    lemma_last_dot(name, i, name.len() as int);
    assert(name.take(i) =~= "image_"@ + id);
    assert(("image_"@ + id).skip(6) =~= id);
    assert("image_"@ =~= ("image_"@ + id).subrange(0, 6));
}

/// The lock file of a container is never swept.
pub proof fn law_container_locks_are_kept(name: Seq<char>, existing: Seq<Seq<char>>)
    ensures
        !left_over(container_lock_name(name), existing),
{
    reveal_strlit(".lock");
    reveal_strlit("image_");
    reveal_strlit("container_");
    let file = container_lock_name(name);
    let i = 10 + name.len() as int;
    assert(file[i] == ".lock"@[0]);
    assert(file[i + 1] == ".lock"@[1] && file[i + 2] == ".lock"@[2]);
    assert(file[i + 3] == ".lock"@[3] && file[i + 4] == ".lock"@[4]);
    lemma_last_dot(file, i, file.len() as int);
    assert(file.take(i)[0] == 'c');
    assert("image_"@[0] == 'i');
}

/// The names of lock files and containers, word by word.
pub proof fn law_lock_names(name: Seq<char>, process: nat, nanos: nat, count: nat)
    ensures
        container_lock_name(name) == "container_"@ + name + ".lock"@,
        image_lock_name(name) == "image_"@ + name + ".lock"@,
        container_name(process, nanos, count) == "dockfoxbuild-"@ + decimal(process) + "-"@
            + decimal(nanos) + "-"@ + decimal(count),
{
}

/// A lock that is had exclusively has its file removed and is then given up, and one that is
/// shared is first given up and taken exclusively. Only where that fails is the file left.
pub proof fn law_lock_is_given_up(success: bool)
    ensures
        first_step(false) is Remove,
        step_after(ReleaseStep::Remove, success) == Some(ReleaseStep::Unlock),
        step_after(ReleaseStep::Unlock, success) is None,
        first_step(true) is UnlockShared,
        step_after(ReleaseStep::UnlockShared, success) == Some(ReleaseStep::TryLock),
        step_after(ReleaseStep::TryLock, true) == Some(ReleaseStep::Remove),
        step_after(ReleaseStep::TryLock, false) is None,
{
}

/// A file whose name starts with `image_` is the lock file of what stands between that and the last
/// dot, whatever its extension is, and no other file is the lock file of an image.
pub proof fn law_extension_is_of_no_account(id: Seq<char>, extension: Seq<char>, other: Seq<char>)
    requires
        !extension.contains('.'),
        !"image_"@.is_prefix_of(other),
    ensures
        locked_image("image_"@ + id + seq!['.'] + extension) == Some(id),
        locked_image(other) is None,
{
    reveal_strlit("image_");
    let name = "image_"@ + id + seq!['.'] + extension;
    let i = 6 + id.len() as int;
    assert(name[i] == '.');
    assert forall|k: int| i < k < name.len() implies name[k] != '.' by {
        assert(name[k] == extension[k - i - 1]);
        assert(extension.contains(extension[k - i - 1]));
    }
    lemma_last_dot(name, i, name.len() as int);
    assert(name.take(i) =~= "image_"@ + id);
    assert(("image_"@ + id).skip(6) =~= id);
    assert("image_"@ =~= ("image_"@ + id).subrange(0, 6));
    let s = stem(other);
    lemma_stem_is_front(other);
    if "image_"@.is_prefix_of(s) {
        assert("image_"@ =~= s.subrange(0, 6));
        assert(s =~= other.subrange(0, s.len() as int));
        assert("image_"@ =~= other.subrange(0, 6));
    }
}

proof fn lemma_last_dot_bound(name: Seq<char>, n: int)
    requires
        n <= name.len(),
    ensures
        last_dot(name, n) matches Some(i) ==> 0 <= i < n,
    decreases n,
{
    if n > 0 && name[n - 1] != '.' {
        lemma_last_dot_bound(name, n - 1);
    }
}

proof fn lemma_stem_is_front(name: Seq<char>)
    ensures
        stem(name).len() <= name.len(),
        stem(name) == name.subrange(0, stem(name).len() as int),
{
    lemma_last_dot_bound(name, name.len() as int);
    assert(name =~= name.subrange(0, name.len() as int));
}

/// What is swept keeps the order of the files.
pub proof fn law_sweep_keeps_the_order(
    files: Seq<Seq<char>>,
    existing: Seq<Seq<char>>,
    name: Seq<char>,
)
    ensures
        sweep(seq![], existing) == Seq::<Seq<char>>::empty(),
        left_over(name, existing) ==> sweep(files.push(name), existing) == sweep(
            files,
            existing,
        ).push(name),
        !left_over(name, existing) ==> sweep(files.push(name), existing) == sweep(files, existing),
{
    assert(files.push(name).drop_last() =~= files);
}

} // verus!
