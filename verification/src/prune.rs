//! Pruning of old images and containers: which of them go, in which order, and when to stop.
use vstd::prelude::*;

use crate::duration::Duration;
use crate::external::{parse_time, rfc3339_time};
use crate::size::Size;
use crate::text::{
    contains, contains_text, copy_texts, same_text, strip_prefix, texts, to_chars, to_text,
    without_prefix,
};
use crate::text_laws::{law_contains, law_strip};

verus! {

/// Arguments for the prune command, including age thresholds and cache size limits.
#[derive(Debug)]
pub struct PruneArgs {
    /// Minimum age of images before they may be pruned. Images newer than this are never
    /// pruned.
    pub min_age: Duration,
    /// Maximum age of images to keep. Images older than this are pruned regardless of cache
    /// size.
    pub max_age: Duration,
    /// Maximum cache size. Older images are pruned to maintain this limit.
    pub max_cache_size: Size,
    /// If set, only output on error.
    pub quiet: bool,
}

/// Why pruning cannot go on.
#[derive(Debug, Clone, Copy, PartialEq, Eq, Structural)]
pub enum PruneError {
    /// A creation time is no RFC 3339 date.
    BadTime,
    /// The ID of an image does not say that it is a SHA-256 digest.
    MissingSha256,
}

// ---------------------------------------------------------------------------------------
// Containers
// ---------------------------------------------------------------------------------------
/// A container, as a list of containers gives it.
#[derive(Debug)]
pub struct ContainerPsInfo {
    /// The container ID.
    pub id: String,
    /// Whether this container is a builder container.
    pub builder: bool,
}

/// The IDs of the builder containers among some containers.
pub open spec fn builders(v: Seq<ContainerPsInfo>) -> Seq<Seq<char>>
    decreases v.len(),
{
    if v.len() == 0 {
        seq![]
    } else if v.last().builder {
        builders(v.drop_last()).push(v.last().id@)
    } else {
        builders(v.drop_last())
    }
}

/// The containers that may be strays: the builder containers, in the order of the list.
pub fn builder_containers(v: &Vec<ContainerPsInfo>) -> (r: Vec<String>)
    ensures
        texts(r@) == builders(v@),
{
    let mut r: Vec<String> = Vec::new();
    let mut i: usize = 0;
    proof {
        assert(v@.take(0) =~= seq![]);
        assert(texts(r@) =~= builders(v@.take(0)));
    }
    while i < v.len()
        invariant
            i <= v@.len(),
            texts(r@) == builders(v@.take(i as int)),
        decreases v.len() - i,
    {
        proof {
            assert(v@.take(i + 1).drop_last() =~= v@.take(i as int));
        }
        if v[i].builder {
            let ghost before = texts(r@);
            r.push(v[i].id.clone());
            proof {
                assert(texts(r@) =~= before.push(v@[i as int].id@));
            }
        }
        i += 1;
    }
    proof {
        assert(v@.take(i as int) =~= v@);
    }
    r
}

/// What is to be done about a command that is waited for.
#[derive(Debug, Clone, Copy, PartialEq, Eq, Structural)]
pub enum WaitStep {
    /// It has come to its end.
    Done,
    /// It is stopped: it has had its time.
    TimeOut,
    /// It is looked at again after some milliseconds.
    Sleep { millis: u64 },
}

/// How long the list of containers is waited for, in milliseconds.
pub const LIST_MILLIS: u64 = 90_000;

/// How long is slept until the list of containers is looked at again, in milliseconds.
pub const POLL_MILLIS: u64 = 100;

/// What is to be done about the command that lists the containers, given whether it has come
/// to its end and for how long it has been waited for. It can hang, so it is given a deadline.
pub fn wait_step(exited: bool, elapsed_millis: u64) -> (r: WaitStep)
    ensures
        r == (if exited {
            WaitStep::Done
        } else if elapsed_millis >= LIST_MILLIS {
            WaitStep::TimeOut
        } else {
            WaitStep::Sleep { millis: POLL_MILLIS }
        }),
        !exited && elapsed_millis >= 90_000 ==> r is TimeOut,
        !exited && elapsed_millis < 90_000 ==> r == (WaitStep::Sleep { millis: 100 }),
{
    if exited {
        WaitStep::Done
    } else if elapsed_millis >= LIST_MILLIS {
        WaitStep::TimeOut
    } else {
        WaitStep::Sleep { millis: POLL_MILLIS }
    }
}

/// A moment: a Unix time in whole seconds, and the nanoseconds behind them. In a leap second
/// the seconds are those of the second before it, and the nanoseconds start at a thousand
/// million.
pub type Moment = (i64, u32);

/// A second in nanoseconds.
pub const SECOND: u32 = 1_000_000_000;

/// A day in seconds.
pub const DAY: i64 = 86_400;

/// The leap second that the seconds of two moments do not count, in nanoseconds. It is that of
/// the moment with the earlier time of day.
pub open spec fn uncounted(then: Moment, now: Moment) -> int {
    if now.0 as int % DAY as int > then.0 as int % DAY as int && then.1 >= SECOND {
        SECOND as int
    } else if (now.0 as int % DAY as int) < then.0 as int % DAY as int && now.1 >= SECOND {
        -SECOND
    } else {
        0
    }
}

/// The time from one moment to another in nanoseconds.
pub open spec fn elapsed(then: Moment, now: Moment) -> int {
    (now.0 - then.0) * SECOND + (now.1 - then.1) + uncounted(then, now)
}

/// An hour in nanoseconds.
pub const HOUR: i128 = 3_600_000_000_000;

fn second_of_day(seconds: i64) -> (r: i64)
    ensures
        r == seconds as int % DAY as int,
{
    match seconds.checked_rem_euclid(DAY) {
        Some(s) => s,
        None => 0,
    }
}

fn nanos_between(then: Moment, now: Moment) -> (r: i128)
    ensures
        r == elapsed(then, now),
{
    let a = second_of_day(then.0);
    let b = second_of_day(now.0);
    let seconds: i128 = now.0 as i128 - then.0 as i128;
    let nanos: i128 = now.1 as i128 - then.1 as i128;
    let leap: i128 = if b > a && then.1 >= SECOND {
        1_000_000_000
    } else if b < a && now.1 >= SECOND {
        -1_000_000_000
    } else {
        0
    };
    seconds * 1_000_000_000 + nanos + leap
}

/// Whether a builder container is a stray, given when it was created and the time now: it is
/// one if it is at least an hour old.
pub fn is_stray_since(created: (i64, u32), now: (i64, u32)) -> (r: bool)
    ensures
        r == (elapsed(created, now) >= HOUR),
{
    nanos_between(created, now) >= HOUR
}

/// Whether a builder container is a stray, given when it was created and the time now, in
/// seconds and nanoseconds.
pub fn is_stray(created: &str, now: i64, nanos: u32) -> (r: Result<bool, PruneError>)
    ensures
        match rfc3339_time(created@) {
            Some(t) => r == Ok::<bool, PruneError>(elapsed(t, (now, nanos)) >= HOUR),
            None => r == Err::<bool, PruneError>(PruneError::BadTime),
        },
{
    match parse_time(created) {
        Ok(t) => Ok(is_stray_since(t, (now, nanos))),
        Err(_) => Err(PruneError::BadTime),
    }
}

/// A moment in nanoseconds.
pub open spec fn in_nanos(t: Moment) -> int {
    t.0 * SECOND + t.1
}

/// Where neither moment is in a leap second, the age of a container is the time now less the
/// time of its creation.
pub proof fn law_age_is_a_difference(then: Moment, now: Moment)
    requires
        then.1 < SECOND,
        now.1 < SECOND,
    ensures
        elapsed(then, now) == in_nanos(now) - in_nanos(then),
{
}

/// A container that is a stray stays one as time goes by.
pub proof fn law_stray_stays_stray(then: Moment, now: Moment, later: Moment)
    requires
        then.1 < SECOND,
        now.1 < SECOND,
        later.1 < SECOND,
        in_nanos(now) <= in_nanos(later),
        elapsed(then, now) >= HOUR,
    ensures
        elapsed(then, later) >= HOUR,
{
}

// ---------------------------------------------------------------------------------------
// Images
// ---------------------------------------------------------------------------------------
/// An image, as a list of images gives it.
#[derive(Debug)]
pub struct ImageInfo {
    /// The image ID, with its `sha256:` prefix.
    pub id: String,
    /// The names (tags) attached to the image.
    pub names: Vec<String>,
    /// The size of the image.
    pub size: Size,
    /// The creation time of the image in RFC 3339 format.
    pub createdatraw: String,
}

/// An image that may be pruned.
#[derive(Debug)]
pub struct ImageInfo2 {
    /// The image ID without its `sha256:` prefix.
    pub id: String,
    /// The names (tags) attached to the image.
    pub names: Vec<String>,
    /// The size of the image in bytes.
    pub size: u64,
    /// When the image was created or last used, as a Unix time.
    pub time: u64,
    /// The checkpoint hashes associated with this image.
    pub checkpoints: Vec<String>,
}

/// An `ImageInfo2` with its texts as sequences of characters.
#[verifier::ext_equal]
pub struct ImageView {
    pub id: Seq<char>,
    pub names: Seq<Seq<char>>,
    pub size: u64,
    pub time: u64,
    pub checkpoints: Seq<Seq<char>>,
}

impl View for ImageInfo2 {
    type V = ImageView;

    open spec fn view(&self) -> ImageView {
        ImageView {
            id: self.id@,
            names: texts(self.names@),
            size: self.size,
            time: self.time,
            checkpoints: texts(self.checkpoints@),
        }
    }
}

/// A signed number as an unsigned one of the same bits.
pub open spec fn unsigned(n: i64) -> u64 {
    if n >= 0 {
        n as u64
    } else {
        (n + 0x1_0000_0000_0000_0000) as u64
    }
}

fn to_unsigned(n: i64) -> (r: u64)
    ensures
        r == unsigned(n),
{
    if n >= 0 {
        n as u64
    } else {
        (n as i128 + 0x1_0000_0000_0000_0000) as u64
    }
}

/// The image that one entry of a list of images describes, given the Unix time that its
/// creation time denotes.
pub open spec fn image_at(info: ImageInfo, time: Option<i64>) -> Result<ImageView, PruneError> {
    match time {
        None => Err(PruneError::BadTime),
        Some(t) => match strip_prefix(info.id@, "sha256:"@) {
            None => Err(PruneError::MissingSha256),
            Some(id) => Ok(
                ImageView {
                    id,
                    names: texts(info.names@),
                    size: info.size.0,
                    time: unsigned(t),
                    checkpoints: seq![],
                },
            ),
        },
    }
}

/// The image that one entry of a list of images describes.
pub open spec fn image_of(info: ImageInfo) -> Result<ImageView, PruneError> {
    match rfc3339_time(info.createdatraw@) {
        Some((seconds, _)) => image_at(info, Some(seconds)),
        None => image_at(info, None),
    }
}

/// The image that one entry of a list of images describes, given the Unix time that its
/// creation time denotes.
pub fn read_image_at(info: &ImageInfo, time: Option<i64>) -> (r: Result<ImageInfo2, PruneError>)
    ensures
        match r {
            Ok(i) => image_at(*info, time) == Ok::<ImageView, PruneError>(i@),
            Err(e) => image_at(*info, time) == Err::<ImageView, PruneError>(e),
        },
{
    match time {
        None => Err(PruneError::BadTime),
        Some(t) => {
            let c = to_chars(info.id.as_str());
            match without_prefix(&c, "sha256:") {
                None => Err(PruneError::MissingSha256),
                Some(id) => {
                    let checkpoints: Vec<String> = Vec::new();
                    proof {
                        assert(texts(checkpoints@) =~= seq![]);
                    }
                    Ok(
                        ImageInfo2 {
                            id: to_text(id),
                            names: copy_texts(info.names.as_slice()),
                            size: info.size.0,
                            time: to_unsigned(t),
                            checkpoints,
                        },
                    )
                },
            }
        },
    }
}

/// The image that one entry of a list of images describes.
pub fn read_image(info: &ImageInfo) -> (r: Result<ImageInfo2, PruneError>)
    ensures
        match r {
            Ok(i) => image_of(*info) == Ok::<ImageView, PruneError>(i@),
            Err(e) => image_of(*info) == Err::<ImageView, PruneError>(e),
        },
{
    match parse_time(info.createdatraw.as_str()) {
        Ok((seconds, _)) => read_image_at(info, Some(seconds)),
        Err(_) => read_image_at(info, None),
    }
}

/// Images as views.
pub open spec fn image_views(v: Seq<ImageInfo2>) -> Seq<ImageView> {
    v.map_values(|i: ImageInfo2| i@)
}

/// Some images by their IDs.
pub open spec fn by_id(v: Seq<ImageView>) -> Map<Seq<char>, ImageView>
    decreases v.len(),
{
    if v.len() == 0 {
        Map::empty()
    } else {
        by_id(v.drop_last()).insert(v.last().id, v.last())
    }
}

/// No two of some images have the same ID.
pub open spec fn distinct(v: Seq<ImageView>) -> bool {
    forall|i: int, j: int| 0 <= i < j < v.len() ==> #[trigger] v[i].id != #[trigger] v[j].id
}

/// The images of a list by their IDs: where two have the same ID, the later one counts. The
/// first entry that describes no image decides the error.
pub open spec fn table(v: Seq<ImageInfo>) -> Result<Map<Seq<char>, ImageView>, PruneError>
    decreases v.len(),
{
    if v.len() == 0 {
        Ok(Map::empty())
    } else {
        match table(v.drop_last()) {
            Err(e) => Err(e),
            Ok(m) => match image_of(v.last()) {
                Err(e) => Err(e),
                Ok(i) => Ok(m.insert(i.id, i)),
            },
        }
    }
}

proof fn lemma_by_id(v: Seq<ImageView>)
    requires
        distinct(v),
    ensures
        forall|i: int|
            0 <= i < v.len() ==> by_id(v).dom().contains((#[trigger] v[i]).id) && by_id(v)[v[i].id]
                == v[i],
        forall|k: Seq<char>| #[trigger]
            by_id(v).dom().contains(k) ==> exists|i: int| 0 <= i < v.len() && #[trigger] v[i].id == k,
    decreases v.len(),
{
    if v.len() > 0 {
        let d = v.drop_last();
        lemma_by_id(d);
        assert forall|i: int| 0 <= i < v.len() implies by_id(v).dom().contains((#[trigger] v[i]).id)
            && by_id(v)[v[i].id] == v[i] by {
            if i < v.len() - 1 {
                assert(d[i] == v[i]);
            }
        }
        assert forall|k: Seq<char>| #[trigger] by_id(v).dom().contains(k) implies exists|i: int|
            0 <= i < v.len() && #[trigger] v[i].id == k by {
            if k == v.last().id {
                assert(v[v.len() - 1].id == k);
            } else {
                assert(by_id(d).dom().contains(k));
                let i = choose|i: int| 0 <= i < d.len() && #[trigger] d[i].id == k;
                assert(v[i] == d[i]);
            }
        }
    }
}

/// Another image in the place of one with the same ID.
proof fn lemma_by_id_update(v: Seq<ImageView>, at: int, i: ImageView)
    requires
        distinct(v),
        0 <= at < v.len(),
        i.id == v[at].id,
    ensures
        by_id(v.update(at, i)) == by_id(v).insert(i.id, i),
        distinct(v.update(at, i)),
    decreases v.len(),
{
    let d = v.drop_last();
    let u = v.update(at, i);
    if at == v.len() - 1 {
        assert(u.drop_last() =~= d);
        assert(by_id(u) =~= by_id(v).insert(i.id, i));
    } else {
        lemma_by_id_update(d, at, i);
        assert(u.drop_last() =~= d.update(at, i));
        assert(v[at].id != v[v.len() - 1].id);
        assert(by_id(u) =~= by_id(v).insert(i.id, i));
    }
}

fn find_image(v: &Vec<ImageInfo2>, id: &str) -> (r: Option<usize>)
    requires
        distinct(image_views(v@)),
    ensures
        match r {
            Some(i) => i < v@.len() && v@[i as int].id@ == id@ && by_id(image_views(v@)).dom().contains(
                id@,
            ) && by_id(image_views(v@))[id@] == v@[i as int]@,
            None => !by_id(image_views(v@)).dom().contains(id@) && forall|k: int|
                0 <= k < v@.len() ==> (#[trigger] v@[k]).id@ != id@,
        },
{
    let ghost views = image_views(v@);
    let mut i: usize = 0;
    while i < v.len()
        invariant
            i <= v@.len(),
            views == image_views(v@),
            distinct(views),
            forall|k: int| 0 <= k < i ==> (#[trigger] v@[k]).id@ != id@,
        decreases v.len() - i,
    {
        if same_text(v[i].id.as_str(), id) {
            proof {
                lemma_by_id(views);
                assert(views[i as int] == v@[i as int]@);
            }
            return Some(i);
        }
        i += 1;
    }
    proof {
        lemma_by_id(views);
        if by_id(views).dom().contains(id@) {
            let k = choose|k: int| 0 <= k < views.len() && #[trigger] views[k].id == id@;
            assert(v@[k].id@ == id@);
        }
    }
    None
}

fn put_image(v: &mut Vec<ImageInfo2>, image: ImageInfo2)
    requires
        distinct(image_views(old(v)@)),
    ensures
        distinct(image_views(final(v)@)),
        by_id(image_views(final(v)@)) == by_id(image_views(old(v)@)).insert(image@.id, image@),
{
    let ghost before = image_views(v@);
    match find_image(v, image.id.as_str()) {
        Some(i) => {
            proof {
                lemma_by_id_update(before, i as int, image@);
            }
            let ghost iv = image@;
            v.set(i, image);
            proof {
                assert(image_views(v@) =~= before.update(i as int, iv));
            }
        },
        None => {
            let ghost iv = image@;
            v.push(image);
            proof {
                let now = image_views(v@);
                assert(now =~= before.push(iv));
                assert(now.drop_last() =~= before);
                assert forall|a: int, b: int| 0 <= a < b < now.len() implies #[trigger] now[a].id
                    != #[trigger] now[b].id by {
                    if b == now.len() - 1 {
                        assert(old(v)@[a].id@ == now[a].id);
                    } else {
                        assert(before[a].id != before[b].id);
                    }
                }
            }
        },
    }
}

/// The images of a list, each ID once.
pub fn read_images(list: &Vec<ImageInfo>) -> (r: Result<Vec<ImageInfo2>, PruneError>)
    ensures
        match r {
            Ok(v) => table(list@) == Ok::<Map<Seq<char>, ImageView>, PruneError>(
                by_id(image_views(v@)),
            ) && distinct(image_views(v@)),
            Err(e) => table(list@) == Err::<Map<Seq<char>, ImageView>, PruneError>(e),
        },
{
    let mut v: Vec<ImageInfo2> = Vec::new();
    let mut i: usize = 0;
    proof {
        assert(list@.take(0) =~= seq![]);
        assert(image_views(v@) =~= seq![]);
    }
    while i < list.len()
        invariant
            i <= list@.len(),
            distinct(image_views(v@)),
            table(list@.take(i as int)) == Ok::<Map<Seq<char>, ImageView>, PruneError>(
                by_id(image_views(v@)),
            ),
        decreases list.len() - i,
    {
        let ghost front = list@.take(i + 1);
        proof {
            assert(front.drop_last() =~= list@.take(i as int));
            assert(front.last() == list@[i as int]);
        }
        match read_image(&list[i]) {
            Ok(image) => put_image(&mut v, image),
            Err(e) => {
                proof {
                    lemma_table_error(list@, i + 1);
                }
                return Err(e);
            },
        }
        i += 1;
    }
    proof {
        assert(list@.take(i as int) =~= list@);
    }
    Ok(v)
}

proof fn lemma_table_error(list: Seq<ImageInfo>, n: int)
    requires
        0 <= n <= list.len(),
        table(list.take(n)) is Err,
    ensures
        table(list) == table(list.take(n)),
    decreases list.len() - n,
{
    if n == list.len() {
        assert(list.take(n) =~= list);
    } else {
        assert(list.take(n + 1).drop_last() =~= list.take(n));
        lemma_table_error(list, n + 1);
    }
}

// ---------------------------------------------------------------------------------------
// Use
// ---------------------------------------------------------------------------------------
/// The later of two times.
pub open spec fn later(a: u64, b: u64) -> u64 {
    if a < b {
        b
    } else {
        a
    }
}

/// Some images with one of them used at a given time.
pub open spec fn used(
    m: Map<Seq<char>, ImageView>,
    id: Seq<char>,
    time: u64,
) -> Map<Seq<char>, ImageView> {
    if m.dom().contains(id) {
        m.insert(id, ImageView { time: later(m[id].time, time), ..m[id] })
    } else {
        m
    }
}

/// A row of the table of pulled images: an ID, and when the image was last used.
pub type RemoteRow = (Seq<char>, i64);

/// Rows of the table of pulled images.
pub open spec fn remote_rows(v: Seq<(String, i64)>) -> Seq<RemoteRow> {
    v.map_values(|r: (String, i64)| (r.0@, r.1))
}

/// Some images with the times of rows of the table of pulled images.
pub open spec fn with_remote(
    m: Map<Seq<char>, ImageView>,
    rows: Seq<RemoteRow>,
) -> Map<Seq<char>, ImageView>
    decreases rows.len(),
{
    if rows.len() == 0 {
        m
    } else {
        used(with_remote(m, rows.drop_last()), rows.last().0, unsigned(rows.last().1))
    }
}

/// The IDs of the rows whose image is gone.
pub open spec fn gone_remote(ids: Set<Seq<char>>, rows: Seq<RemoteRow>) -> Seq<Seq<char>>
    decreases rows.len(),
{
    if rows.len() == 0 {
        seq![]
    } else if ids.contains(rows.last().0) {
        gone_remote(ids, rows.drop_last())
    } else {
        gone_remote(ids, rows.drop_last()).push(rows.last().0)
    }
}

/// Takes the times of the table of pulled images into account. Returns the IDs of the rows
/// whose image is gone, which are to be deleted.
pub fn merge_remote(v: &mut Vec<ImageInfo2>, rows: &Vec<(String, i64)>) -> (r: Vec<String>)
    requires
        distinct(image_views(old(v)@)),
    ensures
        distinct(image_views(final(v)@)),
        by_id(image_views(final(v)@)) == with_remote(
            by_id(image_views(old(v)@)),
            remote_rows(rows@),
        ),
        texts(r@) == gone_remote(by_id(image_views(old(v)@)).dom(), remote_rows(rows@)),
{
    let ghost start = by_id(image_views(v@));
    let ghost all = remote_rows(rows@);
    let mut gone: Vec<String> = Vec::new();
    let mut i: usize = 0;
    proof {
        assert(all.take(0) =~= seq![]);
        assert(texts(gone@) =~= seq![]);
    }
    while i < rows.len()
        invariant
            i <= rows@.len(),
            all == remote_rows(rows@),
            distinct(image_views(v@)),
            by_id(image_views(v@)) == with_remote(start, all.take(i as int)),
            by_id(image_views(v@)).dom() == start.dom(),
            texts(gone@) == gone_remote(start.dom(), all.take(i as int)),
        decreases rows.len() - i,
    {
        let ghost views = image_views(v@);
        proof {
            assert(all.take(i + 1).drop_last() =~= all.take(i as int));
            assert(all.take(i + 1).last() == (rows@[i as int].0@, rows@[i as int].1));
        }
        match find_image(v, rows[i].0.as_str()) {
            Some(k) => {
                let t = to_unsigned(rows[i].1);
                let ghost new = ImageView { time: later(v@[k as int].time, t), ..v@[k as int]@ };
                if v[k].time < t {
                    v[k].time = t;
                }
                proof {
                    lemma_by_id_update(views, k as int, new);
                    assert(image_views(v@) =~= views.update(k as int, new));
                    assert(by_id(image_views(v@)).dom() =~= start.dom());
                }
            },
            None => {
                let ghost before = texts(gone@);
                gone.push(rows[i].0.clone());
                proof {
                    assert(texts(gone@) =~= before.push(rows@[i as int].0@));
                }
            },
        }
        i += 1;
    }
    proof {
        assert(all.take(i as int) =~= all);
    }
    gone
}

/// A row of the table of checkpoints: a hash, the ID of its image, and when the checkpoint
/// was last used.
pub type CheckpointRow = (Seq<char>, Seq<char>, i64);

/// Rows of the table of checkpoints.
pub open spec fn checkpoint_rows(v: Seq<(String, String, i64)>) -> Seq<CheckpointRow> {
    v.map_values(|r: (String, String, i64)| (r.0@, r.1@, r.2))
}

/// Some images with one of them used at a given time for a checkpoint.
pub open spec fn used_for(
    m: Map<Seq<char>, ImageView>,
    hash: Seq<char>,
    id: Seq<char>,
    time: u64,
) -> Map<Seq<char>, ImageView> {
    if m.dom().contains(id) {
        m.insert(
            id,
            ImageView {
                time: later(m[id].time, time),
                checkpoints: m[id].checkpoints.push(hash),
                ..m[id]
            },
        )
    } else {
        m
    }
}

/// Some images with the times and hashes of rows of the table of checkpoints.
pub open spec fn with_checkpoints(
    m: Map<Seq<char>, ImageView>,
    rows: Seq<CheckpointRow>,
) -> Map<Seq<char>, ImageView>
    decreases rows.len(),
{
    if rows.len() == 0 {
        m
    } else {
        used_for(
            with_checkpoints(m, rows.drop_last()),
            rows.last().0,
            rows.last().1,
            unsigned(rows.last().2),
        )
    }
}

/// The hashes of the checkpoints whose image is gone.
pub open spec fn gone_checkpoints(ids: Set<Seq<char>>, rows: Seq<CheckpointRow>) -> Seq<Seq<char>>
    decreases rows.len(),
{
    if rows.len() == 0 {
        seq![]
    } else if ids.contains(rows.last().1) {
        gone_checkpoints(ids, rows.drop_last())
    } else {
        gone_checkpoints(ids, rows.drop_last()).push(rows.last().0)
    }
}

/// Takes the table of checkpoints into account. Returns the hashes of the checkpoints whose
/// image is gone, which are to be deleted.
pub fn merge_checkpoints(v: &mut Vec<ImageInfo2>, rows: &Vec<(String, String, i64)>) -> (r: Vec<
    String,
>)
    requires
        distinct(image_views(old(v)@)),
    ensures
        distinct(image_views(final(v)@)),
        by_id(image_views(final(v)@)) == with_checkpoints(
            by_id(image_views(old(v)@)),
            checkpoint_rows(rows@),
        ),
        texts(r@) == gone_checkpoints(by_id(image_views(old(v)@)).dom(), checkpoint_rows(rows@)),
{
    let ghost start = by_id(image_views(v@));
    let ghost all = checkpoint_rows(rows@);
    let mut gone: Vec<String> = Vec::new();
    let mut i: usize = 0;
    proof {
        assert(all.take(0) =~= seq![]);
        assert(texts(gone@) =~= seq![]);
    }
    while i < rows.len()
        invariant
            i <= rows@.len(),
            all == checkpoint_rows(rows@),
            distinct(image_views(v@)),
            by_id(image_views(v@)) == with_checkpoints(start, all.take(i as int)),
            by_id(image_views(v@)).dom() == start.dom(),
            texts(gone@) == gone_checkpoints(start.dom(), all.take(i as int)),
        decreases rows.len() - i,
    {
        let ghost views = image_views(v@);
        let ghost row = all[i as int];
        proof {
            assert(all.take(i + 1).drop_last() =~= all.take(i as int));
            assert(all.take(i + 1).last() == row);
        }
        match find_image(v, rows[i].1.as_str()) {
            Some(k) => {
                let t = to_unsigned(rows[i].2);
                let ghost known = v@[k as int]@;
                let ghost new = ImageView {
                    time: later(known.time, t),
                    checkpoints: known.checkpoints.push(row.0),
                    ..known
                };
                if v[k].time < t {
                    v[k].time = t;
                }
                v[k].checkpoints.push(rows[i].0.clone());
                proof {
                    lemma_by_id_update(views, k as int, new);
                    assert(texts(v@[k as int].checkpoints@) =~= new.checkpoints);
                    assert(image_views(v@) =~= views.update(k as int, new));
                    assert(by_id(image_views(v@)).dom() =~= start.dom());
                }
            },
            None => {
                let ghost before = texts(gone@);
                gone.push(rows[i].0.clone());
                proof {
                    assert(texts(gone@) =~= before.push(rows@[i as int].0@));
                }
            },
        }
        i += 1;
    }
    proof {
        assert(all.take(i as int) =~= all);
    }
    gone
}

// ---------------------------------------------------------------------------------------
// Order
// ---------------------------------------------------------------------------------------
/// Whether each of some images is at least as old as the ones behind it.
pub open spec fn oldest_first(v: Seq<ImageView>) -> bool {
    forall|i: int, j: int| 0 <= i <= j < v.len() ==> #[trigger] v[i].time <= #[trigger] v[j].time
}

/// Puts images into the order of their times, the oldest first. Images of the same time may
/// come in any order.
pub fn sort_images(v: Vec<ImageInfo2>) -> (r: Vec<ImageInfo2>)
    ensures
        oldest_first(image_views(r@)),
        image_views(r@).to_multiset() == image_views(v@).to_multiset(),
{
    let ghost all = image_views(v@);
    let mut rest = v;
    let mut r: Vec<ImageInfo2> = Vec::new();
    proof {
        assert(all.skip(all.len() as int) =~= seq![]);
        assert(image_views(r@) =~= seq![]);
        assert(image_views(rest@) =~= all.take(rest@.len() as int));
    }
    while rest.len() > 0
        invariant
            rest@.len() <= all.len(),
            image_views(rest@) == all.take(rest@.len() as int),
            oldest_first(image_views(r@)),
            image_views(r@).to_multiset() == all.skip(rest@.len() as int).to_multiset(),
        decreases rest.len(),
    {
        let ghost n = rest@.len() as int;
        let ghost before = image_views(r@);
        proof {
            assert(image_views(rest@)[n - 1] == rest@[n - 1]@);
        }
        match rest.pop() {
            None => {},
            Some(image) => {
                let ghost iv = image@;
                let mut k: usize = 0;
                while k < r.len() && r[k].time < image.time
                    invariant
                        k <= r@.len(),
                        before == image_views(r@),
                        iv == image@,
                        forall|a: int| 0 <= a < k ==> (#[trigger] before[a]).time <= iv.time,
                    decreases r.len() - k,
                {
                    proof {
                        assert(before[k as int] == r@[k as int]@);
                    }
                    k += 1;
                }
                proof {
                    if k < r@.len() {
                        assert(before[k as int] == r@[k as int]@);
                    }
                }
                r.insert(k, image);
                proof {
                    let now = image_views(r@);
                    assert(now =~= before.insert(k as int, iv));
                    assert forall|a: int, b: int| 0 <= a <= b < now.len() implies #[trigger] now[a].time
                        <= #[trigger] now[b].time by {
                        let x = if a < k {
                            a
                        } else {
                            a - 1
                        };
                        let y = if b < k {
                            b
                        } else {
                            b - 1
                        };
                        if a != k {
                            assert(now[a] == before[x]);
                        }
                        if b != k {
                            assert(now[b] == before[y]);
                        }
                        if a == k && b > k {
                            assert(before[k as int].time <= before[y].time);
                        }
                    }
                    assert(image_views(rest@) =~= all.take(n - 1));
                    assert(iv == all[n - 1]);
                    assert(all.skip(n - 1) =~= all.skip(n).insert(0, iv));
                    vstd::seq_lib::to_multiset_insert(before, k as int, iv);
                    vstd::seq_lib::to_multiset_insert(all.skip(n), 0, iv);
                }
            },
        }
    }
    proof {
        assert(all.skip(0) =~= all);
    }
    r
}

// ---------------------------------------------------------------------------------------
// Removal
// ---------------------------------------------------------------------------------------
/// Outcome of attempting to delete an image during pruning.
#[derive(Debug, Clone, Copy, PartialEq, Eq, Structural)]
pub enum RemoveOutcome {
    /// Every tag was removed (or the image had none), so the image was freed.
    Removed,
    /// The image is still referenced by a container and was left in place.
    InUse,
    /// Removal failed for some other reason.
    Failed,
}

/// What is to be removed for an image to go: each of its tags, or the image by its ID where
/// it has none.
pub open spec fn targets(image: ImageView) -> Seq<Seq<char>> {
    if image.names.len() == 0 {
        seq![image.id]
    } else {
        image.names
    }
}

/// What is to be removed for an image to go: each of its tags, or the image by its ID where
/// it has none. Removal is by tag rather than by ID: deleting the final tag deletes the
/// image, so if a concurrent build has since used the image or added a tag to it, the
/// deletion fails instead of taking the image away from that build.
pub fn removal_targets(image: &ImageInfo2) -> (r: Vec<String>)
    ensures
        texts(r@) == targets(image@),
{
    if image.names.len() == 0 {
        let mut r: Vec<String> = Vec::new();
        r.push(image.id.clone());
        proof {
            assert(texts(r@) =~= seq![image.id@]);
        }
        r
    } else {
        copy_texts(image.names.as_slice())
    }
}

/// What came of the removal of one target: whether it succeeded, and what the command
/// wrote to its error output.
#[derive(Debug)]
pub struct Attempt {
    pub success: bool,
    pub stderr: String,
}

/// Whether a removal failed because a container uses the image.
pub open spec fn names_container(stderr: Seq<char>) -> bool {
    contains(stderr, "image is in use by a container"@)
}

fn says_in_use(stderr: &str) -> (r: bool)
    ensures
        r == names_container(stderr@),
{
    let c = to_chars(stderr);
    contains_text(&c, "image is in use by a container")
}

/// Whether the error output of a removal is to be printed: that of a failure is, unless it
/// says that a container uses the image, which is to be expected.
pub fn is_reported(attempt: &Attempt) -> (r: bool)
    ensures
        r == (!attempt.success && !names_container(attempt.stderr@) && attempt.stderr@.len() > 0),
{
    let c = to_chars(attempt.stderr.as_str());
    !attempt.success && !says_in_use(attempt.stderr.as_str()) && c.len() > 0
}

/// Whether every attempt succeeded.
pub open spec fn all_succeeded(v: Seq<Attempt>) -> bool {
    forall|i: int| 0 <= i < v.len() ==> (#[trigger] v[i]).success
}

/// Whether an attempt failed because a container uses the image.
pub open spec fn some_in_use(v: Seq<Attempt>) -> bool {
    exists|i: int|
        0 <= i < v.len() && !(#[trigger] v[i]).success && names_container(v[i].stderr@)
}

/// What came of the removal of all targets of an image.
pub fn removal_outcome(attempts: &Vec<Attempt>) -> (r: RemoveOutcome)
    ensures
        r is Removed <==> all_succeeded(attempts@),
        r is InUse <==> some_in_use(attempts@),
        r is Failed <==> !all_succeeded(attempts@) && !some_in_use(attempts@),
        r is Removed <==> forall|i: int|
            0 <= i < attempts@.len() ==> (#[trigger] attempts@[i]).success,
        r is InUse <==> exists|i: int|
            0 <= i < attempts@.len() && !(#[trigger] attempts@[i]).success && contains(
                attempts@[i].stderr@,
                "image is in use by a container"@,
            ),
{
    let mut all_ok: bool = true;
    let mut in_use: bool = false;
    let mut i: usize = 0;
    while i < attempts.len()
        invariant
            i <= attempts@.len(),
            all_ok == all_succeeded(attempts@.take(i as int)),
            in_use == some_in_use(attempts@.take(i as int)),
        decreases attempts.len() - i,
    {
        let ghost seen = attempts@.take(i as int);
        let ghost more = attempts@.take(i + 1);
        proof {
            assert(more[i as int] == attempts@[i as int]);
            assert forall|k: int| 0 <= k < i implies #[trigger] more[k] == seen[k] by {}
        }
        let ghost was_ok = all_ok;
        let ghost was_used = in_use;
        if !attempts[i].success {
            all_ok = false;
            if says_in_use(attempts[i].stderr.as_str()) {
                in_use = true;
            }
        }
        proof {
            assert(all_ok == all_succeeded(more)) by {
                if all_succeeded(more) {
                    assert forall|k: int| 0 <= k < i implies (#[trigger] seen[k]).success by {
                        assert(more[k].success);
                    }
                }
                if all_ok {
                    assert(all_succeeded(seen));
                    assert forall|k: int| 0 <= k < i + 1 implies (#[trigger] more[k]).success by {
                        if k < i {
                            assert(seen[k].success);
                        }
                    }
                }
            }
            assert(in_use == some_in_use(more)) by {
                if was_used {
                    let k = choose|k: int|
                        0 <= k < seen.len() && !(#[trigger] seen[k]).success && names_container(
                            seen[k].stderr@,
                        );
                    assert(!more[k].success && names_container(more[k].stderr@));
                }
                if some_in_use(more) {
                    let k = choose|k: int|
                        0 <= k < more.len() && !(#[trigger] more[k]).success && names_container(
                            more[k].stderr@,
                        );
                    if k < i {
                        assert(!seen[k].success && names_container(seen[k].stderr@));
                    }
                }
            }
        }
        i += 1;
    }
    proof {
        assert(attempts@.take(i as int) =~= attempts@);
    }
    if all_ok {
        RemoveOutcome::Removed
    } else if in_use {
        RemoveOutcome::InUse
    } else {
        RemoveOutcome::Failed
    }
}

// ---------------------------------------------------------------------------------------
// Laws
// ---------------------------------------------------------------------------------------
/// The builder containers of a list are looked at in its order, and no other container is.
pub proof fn law_only_builders_are_looked_at(v: Seq<ContainerPsInfo>, c: ContainerPsInfo)
    ensures
        builders(seq![]) == Seq::<Seq<char>>::empty(),
        c.builder ==> builders(v.push(c)) == builders(v).push(c.id@),
        !c.builder ==> builders(v.push(c)) == builders(v),
{
    assert(v.push(c).drop_last() =~= v);
}

/// A builder container is a stray from sixty minutes after its creation on, to the nanosecond.
pub proof fn law_stray_is_an_hour_old(then: Moment, now: Moment)
    requires
        then.1 < 1_000_000_000,
        now.1 < 1_000_000_000,
    ensures
        elapsed(then, now) >= HOUR <==> (now.0 - then.0) * 1_000_000_000 + (now.1 - then.1) >= 60
            * 60 * 1_000_000_000,
        now.1 == then.1 ==> (elapsed(then, now) >= HOUR <==> now.0 - then.0 >= 3600),
{
}

/// The time of an image is a Unix time in seconds; one before 1970 is far in the future, as its
/// bits are those of a large number.
pub proof fn law_time_keeps_its_bits(n: i64)
    ensures
        n >= 0 ==> unsigned(n) == n,
        n < 0 ==> unsigned(n) - n == 0x1_0000_0000_0000_0000,
{
}

/// An entry describes an image exactly where its time is known and its ID says that it is a
/// SHA-256 digest. The image keeps the names and the size of the entry, and belongs to no
/// checkpoint yet.
pub proof fn law_image_of_an_entry(info: ImageInfo, id: Seq<char>, time: i64)
    ensures
        info.id@ == "sha256:"@ + id ==> (image_at(info, Some(time)) matches Ok(i) && i.id == id
            && i.names == texts(info.names@) && i.size == info.size.0 && i.time == unsigned(time)
            && i.checkpoints.len() == 0),
        image_at(info, Some(time)) matches Ok(i) ==> info.id@ == "sha256:"@ + i.id,
        image_at(info, None) == Err::<ImageView, PruneError>(PruneError::BadTime),
        image_at(info, Some(time)) matches Err(e) ==> e is MissingSha256,
{
    law_strip(id, "sha256:"@);
    law_strip(info.id@, "sha256:"@);
}

/// A list of images is read entry by entry: one of an ID that was there before takes its place,
/// and the first entry that describes no image decides the error.
pub proof fn law_images_are_read_in_order(v: Seq<ImageInfo>, info: ImageInfo)
    ensures
        table(seq![]) == Ok::<Map<Seq<char>, ImageView>, PruneError>(Map::empty()),
        match (table(v), image_of(info)) {
            (Err(e), _) => table(v.push(info)) == Err::<Map<Seq<char>, ImageView>, PruneError>(e),
            (Ok(_), Err(e)) => table(v.push(info)) == Err::<
                Map<Seq<char>, ImageView>,
                PruneError,
            >(e),
            (Ok(m), Ok(i)) => table(v.push(info)) == Ok::<Map<Seq<char>, ImageView>, PruneError>(
                m.insert(i.id, i),
            ),
        },
{
    assert(v.push(info).drop_last() =~= v);
}

/// Pulled images count as used when they were used last: the time of an image becomes the latest
/// of its own and those of its rows, and nothing else of any image changes.
pub proof fn law_pulled_image_counts_as_used(
    m: Map<Seq<char>, ImageView>,
    rows: Seq<RemoteRow>,
    id: Seq<char>,
)
    requires
        m.dom().contains(id),
    ensures
        with_remote(m, rows).dom() == m.dom(),
        with_remote(m, rows)[id].time >= m[id].time,
        forall|i: int|
            0 <= i < rows.len() && (#[trigger] rows[i]).0 == id ==> with_remote(m, rows)[id].time
                >= unsigned(rows[i].1),
        with_remote(m, rows)[id].time == m[id].time || exists|i: int|
            0 <= i < rows.len() && (#[trigger] rows[i]).0 == id && with_remote(m, rows)[id].time
                == unsigned(rows[i].1),
        with_remote(m, rows)[id].id == m[id].id,
        with_remote(m, rows)[id].names == m[id].names,
        with_remote(m, rows)[id].size == m[id].size,
        with_remote(m, rows)[id].checkpoints == m[id].checkpoints,
    decreases rows.len(),
{
    if rows.len() > 0 {
        let front = rows.drop_last();
        law_pulled_image_counts_as_used(m, front, id);
        let before = with_remote(m, front);
        let after = with_remote(m, rows);
        assert(after.dom() =~= m.dom());
        assert forall|i: int| 0 <= i < rows.len() && (#[trigger] rows[i]).0 == id implies after[id].time
            >= unsigned(rows[i].1) by {
            if i < front.len() {
                assert(front[i] == rows[i]);
            }
        }
        if after[id].time != m[id].time {
            if after[id].time == before[id].time {
                let i = choose|i: int|
                    0 <= i < front.len() && (#[trigger] front[i]).0 == id && before[id].time
                        == unsigned(front[i].1);
                assert(rows[i] == front[i]);
            } else {
                assert(rows[rows.len() - 1].0 == id);
            }
        }
    }
}

/// A row of the table of pulled images is to be deleted exactly where no image has its ID.
pub proof fn law_rows_of_gone_images_are_deleted(
    ids: Set<Seq<char>>,
    rows: Seq<RemoteRow>,
    id: Seq<char>,
    time: i64,
)
    ensures
        gone_remote(ids, seq![]) == Seq::<Seq<char>>::empty(),
        ids.contains(id) ==> gone_remote(ids, rows.push((id, time))) == gone_remote(ids, rows),
        !ids.contains(id) ==> gone_remote(ids, rows.push((id, time))) == gone_remote(
            ids,
            rows,
        ).push(id),
{
    assert(rows.push((id, time)).drop_last() =~= rows);
}

/// The image of a checkpoint counts as used when the checkpoint was used last, and belongs to the
/// checkpoints of all its rows, in their order. Nothing else of any image changes.
pub proof fn law_checkpoint_image_counts_as_used(
    m: Map<Seq<char>, ImageView>,
    rows: Seq<CheckpointRow>,
    hash: Seq<char>,
    id: Seq<char>,
    time: i64,
    other: Seq<char>,
)
    requires
        other != id,
    ensures
        ({
            let before = with_checkpoints(m, rows);
            let after = with_checkpoints(m, rows.push((hash, id, time)));
            &&& with_checkpoints(m, seq![]) == m
            &&& after.dom() == before.dom()
            &&& before.dom().contains(other) ==> after[other] == before[other]
            &&& before.dom().contains(id) ==> {
                &&& after[id].checkpoints == before[id].checkpoints.push(hash)
                &&& after[id].time >= before[id].time
                &&& after[id].time >= unsigned(time)
                &&& after[id].time == before[id].time || after[id].time == unsigned(time)
                &&& after[id].id == before[id].id
                &&& after[id].names == before[id].names
                &&& after[id].size == before[id].size
            }
        }),
{
    assert(rows.push((hash, id, time)).drop_last() =~= rows);
    assert(with_checkpoints(m, rows.push((hash, id, time))).dom() =~= with_checkpoints(
        m,
        rows,
    ).dom());
}

/// A checkpoint is to be forgotten exactly where no image has the ID of its image.
pub proof fn law_checkpoints_of_gone_images_are_forgotten(
    ids: Set<Seq<char>>,
    rows: Seq<CheckpointRow>,
    hash: Seq<char>,
    id: Seq<char>,
    time: i64,
)
    ensures
        gone_checkpoints(ids, seq![]) == Seq::<Seq<char>>::empty(),
        ids.contains(id) ==> gone_checkpoints(ids, rows.push((hash, id, time)))
            == gone_checkpoints(ids, rows),
        !ids.contains(id) ==> gone_checkpoints(ids, rows.push((hash, id, time)))
            == gone_checkpoints(ids, rows).push(hash),
{
    assert(rows.push((hash, id, time)).drop_last() =~= rows);
}

/// An image goes by all of its names, and by its ID only where it has none.
pub proof fn law_image_goes_by_its_names(image: ImageView, i: int)
    ensures
        image.names.len() == 0 ==> targets(image) == seq![image.id],
        0 <= i < image.names.len() ==> targets(image).contains(image.names[i]),
        image.names.len() > 0 ==> targets(image).len() == image.names.len(),
{
    if 0 <= i < image.names.len() {
        assert(targets(image)[i] == image.names[i]);
    }
}

/// An attempt failed for a container exactly where its error output says so in these words.
pub proof fn law_use_by_a_container_is_named(a: Seq<char>, b: Seq<char>)
    ensures
        names_container(a + "image is in use by a container"@ + b),
        names_container(a) ==> exists|x: Seq<char>, y: Seq<char>|
            a == #[trigger] (x + "image is in use by a container"@ + y),
{
    law_contains(a, "image is in use by a container"@, b);
}

/// A leap second does not count for an age: with the earlier time of day in one, the age is what it
/// would be in the second before it.
pub proof fn law_leap_seconds_do_not_count(then: Moment, now: Moment)
    requires
        then.1 < 1_000_000_000,
        now.1 < 1_000_000_000,
    ensures
        now.0 as int % 86_400 > then.0 as int % 86_400 ==> elapsed(
            (then.0, (then.1 + 1_000_000_000) as u32),
            now,
        ) == elapsed(then, now),
        (now.0 as int % 86_400) < then.0 as int % 86_400 ==> elapsed(
            then,
            (now.0, (now.1 + 1_000_000_000) as u32),
        ) == elapsed(then, now),
{
}

/// Of two images with the same ID the later one in a list counts.
pub proof fn law_later_image_counts(v: Seq<ImageView>, image: ImageView)
    ensures
        by_id(seq![]) == Map::<Seq<char>, ImageView>::empty(),
        by_id(v.push(image)) == by_id(v).insert(image.id, image),
{
    assert(v.push(image).drop_last() =~= v);
}

} // verus!
