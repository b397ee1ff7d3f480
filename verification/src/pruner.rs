//! The order in which images are pruned, and when pruning stops.
use vstd::prelude::*;

use crate::duration::Duration;
use crate::prune::{
    image_views, oldest_first, sort_images, ImageInfo2, ImageView, PruneArgs, RemoveOutcome,
};
use crate::size::Size;
use crate::text::{append, decimal, decimal_text, to_chars, to_text};

verus! {

/// The size of some images together.
pub open spec fn total_size(v: Seq<ImageView>) -> nat
    decreases v.len(),
{
    if v.len() == 0 {
        0
    } else {
        total_size(v.drop_last()) + v.last().size as nat
    }
}

/// The size of those of some images that were removed.
pub open spec fn freed_size(v: Seq<ImageView>, outcomes: Seq<RemoveOutcome>) -> nat
    decreases outcomes.len(),
{
    if outcomes.len() == 0 {
        0
    } else {
        let before = freed_size(v, outcomes.drop_last());
        if outcomes.last() is Removed {
            before + v[outcomes.len() - 1].size as nat
        } else {
            before
        }
    }
}

/// How many outcomes are a given one.
pub open spec fn count_of(outcomes: Seq<RemoveOutcome>, o: RemoveOutcome) -> nat
    decreases outcomes.len(),
{
    if outcomes.len() == 0 {
        0
    } else {
        count_of(outcomes.drop_last(), o) + (if outcomes.last() == o {
            1nat
        } else {
            0
        })
    }
}

/// A run of the pruner: all images, and what came of the removal of the first of them, with
/// the time and the limits of the run.
#[verifier::ext_equal]
pub struct PruneRun {
    pub images: Seq<ImageView>,
    pub outcomes: Seq<RemoveOutcome>,
    pub now: u64,
    pub min_age: u64,
    pub max_age: u64,
    pub max_size: u64,
}

impl PruneRun {
    /// The age of an image in seconds. An image from the future has no age.
    pub open spec fn age(self, i: int) -> int {
        if self.images[i].time < self.now {
            self.now - self.images[i].time
        } else {
            0
        }
    }

    /// The bytes that the images took when it was the turn of an image.
    pub open spec fn size_at(self, i: int) -> int {
        total_size(self.images) - freed_size(self.images, self.outcomes.take(i))
    }

    /// Whether an image was to be removed when its turn came: one that is old enough, and is
    /// either too old or in a cache that is too large.
    pub open spec fn due(self, i: int) -> bool {
        self.age(i) >= self.min_age && (self.age(i) > self.max_age || self.size_at(i)
            > self.max_size)
    }

    /// The images are in the order of their times, and no image was removed before it was
    /// due.
    pub open spec fn valid(self) -> bool {
        &&& oldest_first(self.images)
        &&& self.outcomes.len() <= self.images.len()
        &&& forall|i: int| 0 <= i < self.outcomes.len() ==> #[trigger] self.due(i)
    }

    /// No further image is to be removed.
    pub open spec fn finished(self) -> bool {
        self.outcomes.len() == self.images.len() || !self.due(self.outcomes.len() as int)
    }

    /// The time of the oldest image that was not to be removed, or the time of the run where
    /// there is none.
    pub open spec fn boundary(self) -> u64 {
        if self.outcomes.len() < self.images.len() {
            self.images[self.outcomes.len() as int].time
        } else {
            self.now
        }
    }

    /// What is reported of a run.
    pub open spec fn report(self) -> Seq<char> {
        "Freed "@ + crate::size::shown(freed_size(self.images, self.outcomes)) + " out of "@
            + crate::size::shown(total_size(self.images)) + ", oldest image age: "@
            + crate::duration::shown((self.now - self.boundary()) as nat) + "; "@ + decimal(
            self.images.len(),
        ) + " total images, removed: "@ + decimal(count_of(self.outcomes, RemoveOutcome::Removed))
            + ", in use: "@ + decimal(count_of(self.outcomes, RemoveOutcome::InUse))
            + ", failed: "@ + decimal(count_of(self.outcomes, RemoveOutcome::Failed))
    }
}

proof fn lemma_total_insert(v: Seq<ImageView>, i: int)
    requires
        0 <= i < v.len(),
    ensures
        total_size(v) == total_size(v.remove(i)) + v[i].size,
    decreases v.len(),
{
    let n = v.len() - 1;
    if i == n {
        assert(v.remove(i) =~= v.drop_last());
    } else {
        lemma_total_insert(v.drop_last(), i);
        assert(v.remove(i).drop_last() =~= v.drop_last().remove(i));
        assert(v.remove(i).last() == v.last());
    }
}

/// The size of some images together does not depend on their order.
proof fn lemma_total_order(a: Seq<ImageView>, b: Seq<ImageView>)
    requires
        a.to_multiset() == b.to_multiset(),
    ensures
        total_size(a) == total_size(b),
        a.len() == b.len(),
    decreases a.len(),
{
    broadcast use vstd::seq_lib::group_to_multiset_ensures;

    assert(a.len() == a.to_multiset().len());
    assert(b.len() == b.to_multiset().len());
    if a.len() > 0 {
        let n = a.len() - 1;
        assert(a.contains(a[n]));
        assert(b.to_multiset().count(a[n]) > 0);
        assert(b.contains(a[n]));
        let i = choose|i: int| 0 <= i < b.len() && b[i] == a[n];
        vstd::seq_lib::to_multiset_remove(a, n);
        vstd::seq_lib::to_multiset_remove(b, i);
        lemma_total_order(a.remove(n), b.remove(i));
        lemma_total_insert(a, n);
        lemma_total_insert(b, i);
    }
}

proof fn lemma_total_grows(v: Seq<ImageView>, n: int)
    requires
        0 <= n <= v.len(),
    ensures
        total_size(v.take(n)) <= total_size(v),
    decreases v.len() - n,
{
    if n == v.len() {
        assert(v.take(n) =~= v);
    } else {
        assert(v.take(n + 1).drop_last() =~= v.take(n));
        lemma_total_grows(v, n + 1);
    }
}

proof fn lemma_freed_bound(v: Seq<ImageView>, outcomes: Seq<RemoveOutcome>)
    requires
        outcomes.len() <= v.len(),
    ensures
        freed_size(v, outcomes) <= total_size(v.take(outcomes.len() as int)),
    decreases outcomes.len(),
{
    if outcomes.len() > 0 {
        lemma_freed_bound(v, outcomes.drop_last());
        let n = outcomes.len() as int;
        assert(v.take(n).drop_last() =~= v.take(n - 1));
    }
}

/// Whether the size of some images together fits in a `u64`.
pub fn sizes_fit(v: &Vec<ImageInfo2>) -> (r: bool)
    ensures
        r == (total_size(image_views(v@)) <= u64::MAX),
{
    matches!(sum_sizes(v), Some(_))
}

fn sum_sizes(v: &Vec<ImageInfo2>) -> (r: Option<u64>)
    ensures
        match r {
            Some(n) => n == total_size(image_views(v@)),
            None => total_size(image_views(v@)) > u64::MAX,
        },
{
    let ghost all = image_views(v@);
    let mut sum: u64 = 0;
    let mut i: usize = 0;
    proof {
        assert(all.take(0) =~= seq![]);
    }
    while i < v.len()
        invariant
            i <= v@.len(),
            all == image_views(v@),
            sum == total_size(all.take(i as int)),
        decreases v.len() - i,
    {
        proof {
            assert(all.take(i + 1).drop_last() =~= all.take(i as int));
            lemma_total_grows(all, i + 1);
        }
        match sum.checked_add(v[i].size) {
            Some(s) => {
                sum = s;
            },
            None => {
                return None;
            },
        }
        i += 1;
    }
    proof {
        assert(all.take(i as int) =~= all);
    }
    Some(sum)
}

fn count_outcomes(v: &Vec<RemoveOutcome>, o: RemoveOutcome) -> (r: usize)
    ensures
        r == count_of(v@, o),
{
    let mut n: usize = 0;
    let mut i: usize = 0;
    proof {
        assert(v@.take(0) =~= seq![]);
    }
    while i < v.len()
        invariant
            i <= v@.len(),
            n == count_of(v@.take(i as int), o),
            n <= i,
        decreases v.len() - i,
    {
        proof {
            assert(v@.take(i + 1).drop_last() =~= v@.take(i as int));
        }
        if v[i] == o {
            n += 1;
        }
        i += 1;
    }
    proof {
        assert(v@.take(i as int) =~= v@);
    }
    n
}

/// Decides, one image after the other, which images are to be removed.
#[derive(Debug)]
pub struct Pruner {
    images: Vec<ImageInfo2>,
    outcomes: Vec<RemoveOutcome>,
    total: u64,
    freed: u64,
    now: u64,
    min_age: u64,
    max_age: u64,
    max_size: u64,
}

impl View for Pruner {
    type V = PruneRun;

    closed spec fn view(&self) -> PruneRun {
        PruneRun {
            images: image_views(self.images@),
            outcomes: self.outcomes@,
            now: self.now,
            min_age: self.min_age,
            max_age: self.max_age,
            max_size: self.max_size,
        }
    }
}

impl Pruner {
    #[verifier::type_invariant]
    spec fn well_formed(self) -> bool {
        &&& self@.valid()
        &&& self.total == total_size(self@.images)
        &&& self.freed == freed_size(self@.images, self@.outcomes)
    }

    /// Starts a run over some images at a given time.
    pub fn new(images: Vec<ImageInfo2>, args: &PruneArgs, now: u64) -> (r: Pruner)
        requires
            total_size(image_views(images@)) <= u64::MAX,
        ensures
            r@.valid(),
            r@.images.to_multiset() == image_views(images@).to_multiset(),
            r@.outcomes.len() == 0,
            r@.now == now,
            r@.min_age == args.min_age.0,
            r@.max_age == args.max_age.0,
            r@.max_size == args.max_cache_size.0,
            r@.finished() ==> forall|i: int|
                0 <= i < r@.images.len() && (#[trigger] r@.images[i]).time + args.min_age.0 <= now
                    ==> r@.images[i].time + args.max_age.0 >= now && total_size(
                    image_views(images@),
                ) <= args.max_cache_size.0,
    {
        let ghost all = image_views(images@);
        let images = sort_images(images);
        proof {
            lemma_total_order(image_views(images@), all);
        }
        let total: u64 = match sum_sizes(&images) {
            Some(n) => n,
            None => 0,
        };
        let r = Pruner {
            images,
            outcomes: Vec::new(),
            total,
            freed: 0,
            now,
            min_age: args.min_age.0,
            max_age: args.max_age.0,
            max_size: args.max_cache_size.0,
        };
        proof {
            if r@.finished() {
                assert forall|i: int|
                    0 <= i < r@.images.len() && (#[trigger] r@.images[i]).time + args.min_age.0
                        <= now implies r@.images[i].time + args.max_age.0 >= now && total_size(all)
                    <= args.max_cache_size.0 by {
                    if r@.images[i].time + args.max_age.0 < now {
                        law_old_images_are_removed(r@, i);
                    }
                    if total_size(all) > args.max_cache_size.0 {
                        law_cache_size_is_kept(r@, i);
                    }
                }
            }
        }
        r
    }

    /// The image that is to be removed next, if any. Images are taken from the oldest on. One
    /// that is younger than the minimum age ends the run, as does one that is neither too old
    /// nor in a cache that is too large.
    pub fn next(&self) -> (r: Option<&ImageInfo2>)
        ensures
            self@.valid(),
            match r {
                Some(image) => !self@.finished() && image@ == self@.images[self@.outcomes.len() as int],
                None => self@.finished(),
            },
    {
        proof {
            use_type_invariant(self);
            lemma_freed_bound(self@.images, self@.outcomes);
            lemma_total_grows(self@.images, self@.outcomes.len() as int);
            assert(self@.outcomes.take(self@.outcomes.len() as int) =~= self@.outcomes);
        }
        let i: usize = self.outcomes.len();
        if i >= self.images.len() {
            return None;
        }
        proof {
            assert(self@.images[i as int] == self.images@[i as int]@);
        }
        let time = self.images[i].time;
        let age: u64 = if time < self.now {
            self.now - time
        } else {
            0
        };
        if age < self.min_age {
            return None;
        }
        if age > self.max_age || self.total - self.freed > self.max_size {
            Some(&self.images[i])
        } else {
            None
        }
    }

    /// Notes what came of the removal of the image that was to be removed next.
    pub fn record(&mut self, outcome: RemoveOutcome)
        requires
            !old(self)@.finished(),
        ensures
            final(self)@ == (PruneRun { outcomes: old(self)@.outcomes.push(outcome), ..old(self)@ }),
            final(self)@.valid(),
    {
        let ghost run = self@;
        let ghost next = PruneRun { outcomes: run.outcomes.push(outcome), ..run };
        proof {
            use_type_invariant(&*self);
            lemma_freed_bound(next.images, next.outcomes);
            lemma_total_grows(next.images, next.outcomes.len() as int);
            assert(next.outcomes.drop_last() =~= run.outcomes);
            assert forall|i: int| 0 <= i < next.outcomes.len() implies #[trigger] next.due(i) by {
                assert(next.outcomes.take(i) =~= run.outcomes.take(i));
                if i < run.outcomes.len() {
                    assert(run.due(i));
                } else {
                    assert(run.due(run.outcomes.len() as int));
                }
            }
            assert(run.images[run.outcomes.len() as int] == self.images@[self.outcomes@.len() as int]@);
        }
        let mut taken = Pruner {
            images: Vec::new(),
            outcomes: Vec::new(),
            total: 0,
            freed: 0,
            now: self.now,
            min_age: self.min_age,
            max_age: self.max_age,
            max_size: self.max_size,
        };
        std::mem::swap(&mut taken, self);
        let Pruner { images, mut outcomes, total, mut freed, now, min_age, max_age, max_size } = taken;
        if let RemoveOutcome::Removed = outcome {
            freed += images[outcomes.len()].size;
        }
        outcomes.push(outcome);
        *self = Pruner { images, outcomes, total, freed, now, min_age, max_age, max_size };
    }

    /// The time of the oldest image that was not to be removed, or the time of the run where
    /// there is none.
    pub fn boundary(&self) -> (r: u64)
        ensures
            r == self@.boundary(),
    {
        proof {
            use_type_invariant(self);
        }
        let i: usize = self.outcomes.len();
        if i < self.images.len() {
            proof {
                assert(self@.images[i as int] == self.images@[i as int]@);
            }
            self.images[i].time
        } else {
            self.now
        }
    }

    /// The line that is reported of a run, which ends at an image that is not from the
    /// future.
    pub fn summary(&self) -> (r: String)
        requires
            self@.boundary() <= self@.now,
        ensures
            r@ == self@.report(),
    {
        proof {
            use_type_invariant(self);
        }
        let age = Duration(self.now - self.boundary());
        let removed = count_outcomes(&self.outcomes, RemoveOutcome::Removed);
        let in_use = count_outcomes(&self.outcomes, RemoveOutcome::InUse);
        let failed = count_outcomes(&self.outcomes, RemoveOutcome::Failed);
        let mut out = to_chars("Freed ");
        append(&mut out, Size(self.freed).to_string().as_str());
        append(&mut out, " out of ");
        append(&mut out, Size(self.total).to_string().as_str());
        append(&mut out, ", oldest image age: ");
        append(&mut out, age.to_string().as_str());
        append(&mut out, "; ");
        append(&mut out, decimal_text(self.images.len() as u128).as_str());
        append(&mut out, " total images, removed: ");
        append(&mut out, decimal_text(removed as u128).as_str());
        append(&mut out, ", in use: ");
        append(&mut out, decimal_text(in_use as u128).as_str());
        append(&mut out, ", failed: ");
        append(&mut out, decimal_text(failed as u128).as_str());
        to_text(&out)
    }
}

/// An image that is younger than the minimum age is never removed.
pub proof fn law_young_images_are_kept(run: PruneRun, i: int)
    requires
        run.valid(),
        0 <= i < run.images.len(),
        run.age(i) < run.min_age,
    ensures
        i >= run.outcomes.len(),
{
    if i < run.outcomes.len() {
        assert(run.due(i));
    }
}

/// When a run is over, the removal of every image has been tried that is older than the
/// maximum age and not younger than the minimum age, whatever the size of the cache.
pub proof fn law_old_images_are_removed(run: PruneRun, i: int)
    requires
        run.valid(),
        run.finished(),
        0 <= i < run.images.len(),
        run.age(i) > run.max_age,
        run.age(i) >= run.min_age,
    ensures
        i < run.outcomes.len(),
{
    let n = run.outcomes.len() as int;
    if i >= n {
        assert(run.images[n].time <= run.images[i].time);
        assert(run.due(n));
    }
}

/// When a run is over, the cache is no larger than allowed, or no image is left that is old
/// enough to be removed.
pub proof fn law_cache_size_is_kept(run: PruneRun, i: int)
    requires
        run.valid(),
        run.finished(),
        total_size(run.images) - freed_size(run.images, run.outcomes) > run.max_size,
        run.outcomes.len() <= i < run.images.len(),
    ensures
        run.age(i) < run.min_age,
{
    let n = run.outcomes.len() as int;
    assert(run.outcomes.take(n) =~= run.outcomes);
    assert(run.images[n].time <= run.images[i].time);
}

/// No image is removed unless it is older than the maximum age or the cache is too large
/// when its turn comes.
pub proof fn law_no_image_is_removed_without_need(run: PruneRun, i: int)
    requires
        run.valid(),
        0 <= i < run.outcomes.len(),
    ensures
        run.age(i) > run.max_age || run.size_at(i) > run.max_size,
{
    assert(run.due(i));
}

/// Images are removed in the order of their age: one that is removed is at least as old as
/// every one that is not.
pub proof fn law_oldest_images_go_first(run: PruneRun, i: int, j: int)
    requires
        run.valid(),
        0 <= i < run.outcomes.len() <= j < run.images.len(),
    ensures
        run.images[i].time <= run.images[j].time,
{
}

/// Every image whose removal was tried is counted once.
pub proof fn law_every_outcome_is_counted(outcomes: Seq<RemoveOutcome>)
    ensures
        count_of(outcomes, RemoveOutcome::Removed) + count_of(outcomes, RemoveOutcome::InUse)
            + count_of(outcomes, RemoveOutcome::Failed) == outcomes.len(),
    decreases outcomes.len(),
{
    if outcomes.len() > 0 {
        law_every_outcome_is_counted(outcomes.drop_last());
    }
}

/// When a run is over, the removal of every image has been tried whose time lies more than the
/// maximum age and at least the minimum age before the run.
pub proof fn law_images_before_the_limits_are_removed(run: PruneRun, i: int)
    requires
        run.valid(),
        run.finished(),
        0 <= i < run.images.len(),
        run.images[i].time + run.max_age < run.now,
        run.images[i].time + run.min_age <= run.now,
    ensures
        i < run.outcomes.len(),
{
    law_old_images_are_removed(run, i);
}

/// While there is a minimum age, no removal is tried of an image whose time lies less than it
/// before the run.
pub proof fn law_images_behind_the_minimum_age_are_kept(run: PruneRun, i: int)
    requires
        run.valid(),
        0 <= i < run.images.len(),
        run.min_age > 0,
        run.images[i].time + run.min_age > run.now,
    ensures
        i >= run.outcomes.len(),
{
    law_young_images_are_kept(run, i);
}

/// The removal of an image is tried only where its time lies more than the maximum age before
/// the run, or where the images that were left took more than the cache may.
pub proof fn law_removal_has_a_reason(run: PruneRun, i: int)
    requires
        run.valid(),
        0 <= i < run.outcomes.len(),
    ensures
        run.images[i].time + run.max_age < run.now || total_size(run.images) - freed_size(
            run.images,
            run.outcomes.take(i),
        ) > run.max_size,
        run.images[i].time + run.min_age <= run.now || run.min_age == 0,
{
    assert(run.due(i));
}

/// When a run is over and the images that are left take more than the cache may, none of them
/// lies the minimum age before the run.
pub proof fn law_too_large_a_cache_holds_young_images(run: PruneRun, i: int)
    requires
        run.valid(),
        run.finished(),
        total_size(run.images) > run.max_size + freed_size(run.images, run.outcomes),
        run.outcomes.len() <= i < run.images.len(),
    ensures
        run.images[i].time + run.min_age > run.now,
{
    law_cache_size_is_kept(run, i);
}

/// A run is over no sooner than it has to be: when it is over, either all removals were tried,
/// or the oldest image that is left is too young, or it is neither too old nor are the images
/// that are left too large together.
pub proof fn law_run_ends_with_a_reason(run: PruneRun)
    requires
        run.valid(),
        run.finished(),
        run.outcomes.len() < run.images.len(),
    ensures
        ({
            let time = run.images[run.outcomes.len() as int].time;
            let left = total_size(run.images) - freed_size(run.images, run.outcomes);
            time + run.min_age > run.now || (time + run.max_age >= run.now && left <= run.max_size)
        }),
{
    let n = run.outcomes.len() as int;
    assert(run.outcomes.take(n) =~= run.outcomes);
}

/// While a run is not over, its next image is to be removed: it lies the minimum age before the
/// run, and it is too old or the images that are left are too large together.
pub proof fn law_run_goes_on_with_a_reason(run: PruneRun)
    requires
        run.valid(),
        !run.finished(),
    ensures
        run.outcomes.len() < run.images.len(),
        ({
            let time = run.images[run.outcomes.len() as int].time;
            let left = total_size(run.images) - freed_size(run.images, run.outcomes);
            &&& time + run.min_age <= run.now || run.min_age == 0
            &&& time + run.max_age < run.now || left > run.max_size
        }),
{
    let n = run.outcomes.len() as int;
    assert(run.outcomes.take(n) =~= run.outcomes);
}

/// Every image counts with its whole size, wherever it stands.
pub proof fn law_sizes_are_added(v: Seq<ImageView>, image: ImageView)
    ensures
        total_size(seq![]) == 0,
        total_size(v.push(image)) == total_size(v) + image.size,
{
    assert(v.push(image).drop_last() =~= v);
}

/// What is freed is the size of the images whose removal succeeded, and of no other: each
/// outcome adds the size of its image where it is a removal, and nothing otherwise.
pub proof fn law_freed_sizes_are_added(
    v: Seq<ImageView>,
    outcomes: Seq<RemoveOutcome>,
    outcome: RemoveOutcome,
)
    requires
        outcomes.len() < v.len(),
    ensures
        freed_size(v, seq![]) == 0,
        outcome is Removed ==> freed_size(v, outcomes.push(outcome)) == freed_size(v, outcomes)
            + v[outcomes.len() as int].size,
        outcome is InUse || outcome is Failed ==> freed_size(v, outcomes.push(outcome))
            == freed_size(v, outcomes),
        freed_size(v, outcomes.push(outcome)) <= total_size(v),
{
    let more = outcomes.push(outcome);
    assert(more.drop_last() =~= outcomes);
    lemma_freed_bound(v, more);
    lemma_total_grows(v, more.len() as int);
}

/// What a run is said to have come to is the time of the oldest image that is left, or the
/// time of the run where none is: every image that is left is at least as young.
pub proof fn law_boundary_is_the_oldest_image_left(run: PruneRun, i: int)
    requires
        run.valid(),
        run.outcomes.len() <= i < run.images.len(),
    ensures
        run.boundary() <= run.images[i].time,
        exists|j: int|
            run.outcomes.len() <= j < run.images.len() && (#[trigger] run.images[j]).time
                == run.boundary(),
{
    let n = run.outcomes.len() as int;
    assert(run.images[n].time == run.boundary());
}

/// Each outcome is counted once, under what it is.
pub proof fn law_outcomes_are_counted_one_by_one(
    outcomes: Seq<RemoveOutcome>,
    outcome: RemoveOutcome,
    other: RemoveOutcome,
)
    requires
        other != outcome,
    ensures
        count_of(seq![], outcome) == 0,
        count_of(outcomes.push(outcome), outcome) == count_of(outcomes, outcome) + 1,
        count_of(outcomes.push(outcome), other) == count_of(outcomes, other),
{
    assert(outcomes.push(outcome).drop_last() =~= outcomes);
}

/// What is reported of a run: how much was freed of how much, how old the oldest image is that is
/// left, how many images there were, and what came of how many removals.
pub proof fn law_report_of_a_run(run: PruneRun, age: nat)
    requires
        run.valid(),
        run.outcomes.len() < run.images.len(),
        run.images[run.outcomes.len() as int].time + age == run.now,
    ensures
        run.report() == "Freed "@ + crate::size::shown(freed_size(run.images, run.outcomes))
            + " out of "@ + crate::size::shown(total_size(run.images)) + ", oldest image age: "@
            + crate::duration::shown(age) + "; "@ + decimal(run.images.len())
            + " total images, removed: "@ + decimal(
            count_of(run.outcomes, RemoveOutcome::Removed),
        ) + ", in use: "@ + decimal(count_of(run.outcomes, RemoveOutcome::InUse)) + ", failed: "@
            + decimal(count_of(run.outcomes, RemoveOutcome::Failed)),
{
}

} // verus!
