//! Instances by key, gathered anew each frame and drawn a key at a time.
//!
//! The buffer that a key's instances are drawn from belongs to the graphics
//! library; a bucket carries it along as `B`.

use super::live_render_objects::same_id;
use vstd::laws_eq::obeys_concrete_eq;
use vstd::prelude::*;

verus! {

/// The instances of one key.
pub struct Bucket<K, I, B> {
    pub key: K,
    pub scratch: Vec<I>,
    pub buffer: B,
}

/// Where the key stands from `from` on; `buckets.len()` if it does not.
pub open spec fn find_bucket<K, I, B>(buckets: Seq<Bucket<K, I, B>>, key: K, from: int) -> int
    decreases buckets.len() - from,
{
    if from >= buckets.len() {
        buckets.len() as int
    } else if buckets[from].key == key {
        from
    } else {
        find_bucket(buckets, key, from + 1)
    }
}

/// No two buckets have the same key, and none is over the capacity.
pub open spec fn buckets_wf<K, I, B>(buckets: Seq<Bucket<K, I, B>>, capacity: u32) -> bool {
    &&& forall|i: int, j: int|
        0 <= i < j < buckets.len() ==> (#[trigger] buckets[i]).key != (#[trigger] buckets[j]).key
    &&& forall|i: int| 0 <= i < buckets.len() ==> (#[trigger] buckets[i]).scratch@.len() <= capacity
}

proof fn lemma_find_bucket<K, I, B>(
    buckets: Seq<Bucket<K, I, B>>,
    key: K,
    from: int,
    at: int,
)
    requires
        0 <= from <= at <= buckets.len(),
        forall|i: int| from <= i < at ==> (#[trigger] buckets[i]).key != key,
        at == buckets.len() || buckets[at].key == key,
    ensures
        find_bucket(buckets, key, from) == at,
    decreases at - from,
{
    if from < at {
        assert(buckets[from].key != key);
        lemma_find_bucket(buckets, key, from + 1, at);
    }
}

/// The buckets that hold something, in order.
pub open spec fn filled<K, I, B>(buckets: Seq<Bucket<K, I, B>>) -> Seq<Bucket<K, I, B>>
    decreases buckets.len(),
{
    if buckets.len() == 0 {
        Seq::empty()
    } else if buckets.last().scratch@.len() > 0 {
        filled(buckets.drop_last()).push(buckets.last())
    } else {
        filled(buckets.drop_last())
    }
}

/// The bucket holds the same buffer under the same key, and the given instances.
pub open spec fn holds<K, I, B>(
    after: Bucket<K, I, B>,
    before: Bucket<K, I, B>,
    instances: Seq<I>,
) -> bool {
    &&& after.key == before.key
    &&& after.buffer == before.buffer
    &&& after.scratch@ == instances
}

/// The key has an empty bucket with the buffer, in place of the one it had or
/// behind the others.
pub open spec fn is_registered<K, I, B>(
    before: Seq<Bucket<K, I, B>>,
    after: Seq<Bucket<K, I, B>>,
    key: K,
    buffer: B,
) -> bool {
    let at = find_bucket(before, key, 0);
    &&& after.len() == (if at < before.len() {
        before.len()
    } else {
        before.len() + 1
    })
    &&& forall|i: int| 0 <= i < after.len() && i != at ==> #[trigger] after[i] == before[i]
    &&& after[at].key == key
    &&& after[at].buffer == buffer
    &&& after[at].scratch@.len() == 0
}

/// The bucket of the key has the instance behind the others, unless it was at
/// its capacity.
pub open spec fn is_pushed<K, I, B>(
    before: Seq<Bucket<K, I, B>>,
    after: Seq<Bucket<K, I, B>>,
    key: K,
    instance: I,
    capacity: u32,
) -> bool {
    let at = find_bucket(before, key, 0);
    &&& after.len() == before.len()
    &&& forall|i: int| 0 <= i < after.len() && i != at ==> #[trigger] after[i] == before[i]
    &&& holds(
        after[at],
        before[at],
        if before[at].scratch@.len() < capacity {
            before[at].scratch@.push(instance)
        } else {
            before[at].scratch@
        },
    )
}

/// Buckets of instances, in the order in which their keys were registered.
pub struct InstanceBuckets<K, I, B> {
    buckets: Vec<Bucket<K, I, B>>,
    label: String,
    capacity: u32,
}

impl<K: Copy + Eq, I: Copy, B> InstanceBuckets<K, I, B> {
    pub closed spec fn buckets(self) -> Seq<Bucket<K, I, B>> {
        self.buckets@
    }

    /// The most instances that a bucket takes.
    pub closed spec fn spec_capacity(self) -> u32 {
        self.capacity
    }

    pub closed spec fn spec_label(self) -> Seq<char> {
        self.label@
    }

    /// No two buckets have the same key, and none is over the capacity.
    pub open spec fn wf(self) -> bool {
        buckets_wf(self.buckets(), self.spec_capacity()) && self.spec_capacity() > 0
    }

    /// No buckets, with room for `capacity` instances in each.
    pub fn new(label: &str, capacity: u32) -> (r: Self)
        requires
            capacity > 0,
        ensures
            r.wf(),
            r.buckets().len() == 0,
            r.spec_capacity() == capacity,
            r.spec_label() == label@,
    {
        InstanceBuckets { buckets: Vec::new(), label: label.to_owned(), capacity }
    }

    /// The most instances that a bucket takes.
    pub fn capacity(&self) -> (r: u32)
        ensures
            r == self.spec_capacity(),
    {
        self.capacity
    }

    /// What the buffers are called.
    pub fn label(&self) -> (r: &str)
        ensures
            r@ == self.spec_label(),
    {
        self.label.as_str()
    }

    /// The bytes of a buffer, for instances of `size` bytes.
    pub fn buffer_size(&self, size: u32) -> (r: u64)
        ensures
            r == self.spec_capacity() * size,
    {
        proof {
            assert(self.capacity * size <= 0xffff_ffff * 0xffff_ffff) by (nonlinear_arith)
                requires
                    self.capacity <= 0xffff_ffff,
                    size <= 0xffff_ffff,
            ;
        }
        self.capacity as u64 * size as u64
    }

    fn find(&self, key: K) -> (r: usize)
        requires
            obeys_concrete_eq::<K>(),
        ensures
            r == find_bucket(self.buckets@, key, 0),
            r <= self.buckets@.len(),
            r < self.buckets@.len() ==> self.buckets@[r as int].key == key,
            forall|i: int| 0 <= i < r ==> (#[trigger] self.buckets@[i]).key != key,
    {
        let mut at: usize = 0;
        while at < self.buckets.len() && !same_id(&self.buckets[at].key, &key)
            invariant
                obeys_concrete_eq::<K>(),
                at <= self.buckets@.len(),
                forall|i: int| 0 <= i < at ==> (#[trigger] self.buckets@[i]).key != key,
            decreases self.buckets@.len() - at,
        {
            at += 1;
        }
        proof {
            lemma_find_bucket(self.buckets@, key, 0, at as int);
        }
        at
    }

    /// An empty bucket for `key`, in place of the one it has.
    pub fn register(&mut self, key: K, buffer: B)
        requires
            old(self).wf(),
            obeys_concrete_eq::<K>(),
        ensures
            final(self).wf(),
            final(self).spec_capacity() == old(self).spec_capacity(),
            final(self).spec_label() == old(self).spec_label(),
            is_registered(old(self).buckets(), final(self).buckets(), key, buffer),
    {
        let ghost before = self.buckets@;
        let at = self.find(key);
        let fresh = Bucket { key, scratch: Vec::new(), buffer };
        if at < self.buckets.len() {
            self.buckets[at] = fresh;
        } else {
            self.buckets.push(fresh);
        }
        proof {
            let after = self.buckets@;
            assert forall|i: int, j: int| 0 <= i < j < after.len() implies (#[trigger] after[i]).key
                != (#[trigger] after[j]).key by {
                if i != at && j != at {
                    assert(before[i].key != before[j].key);
                } else if i == at {
                    assert(before[i].key != before[j].key);
                } else {
                    assert(before[i].key != key);
                }
            }
        }
    }

    /// Starts a frame: every bucket is empty.
    pub fn begin_frame(&mut self)
        requires
            old(self).wf(),
        ensures
            final(self).wf(),
            final(self).spec_capacity() == old(self).spec_capacity(),
            final(self).spec_label() == old(self).spec_label(),
            final(self).buckets().len() == old(self).buckets().len(),
            forall|i: int|
                0 <= i < final(self).buckets().len() ==> holds(
                    #[trigger] final(self).buckets()[i],
                    old(self).buckets()[i],
                    Seq::empty(),
                ),
    {
        let ghost before = self.buckets@;
        let mut i: usize = 0;
        while i < self.buckets.len()
            invariant
                self.capacity == old(self).capacity,
                self.label@ == old(self).label@,
                i <= self.buckets@.len(),
                self.buckets@.len() == before.len(),
                forall|j: int|
                    0 <= j < i ==> holds(#[trigger] self.buckets@[j], before[j], Seq::empty()),
                forall|j: int|
                    i <= j < before.len() ==> #[trigger] self.buckets@[j] == before[j],
            decreases self.buckets@.len() - i,
        {
            self.buckets[i].scratch = Vec::new();
            assert(self.buckets@[i as int].scratch@ =~= Seq::<I>::empty());
            i += 1;
        }
        proof {
            let after = self.buckets@;
            assert forall|i: int, j: int| 0 <= i < j < after.len() implies (#[trigger] after[i]).key
                != (#[trigger] after[j]).key by {
                assert(before[i].key != before[j].key);
            }
        }
    }

    /// Adds an instance to the bucket of `key`, which is registered. A bucket
    /// at its capacity stays as it is.
    pub fn push(&mut self, key: K, instance: I)
        requires
            old(self).wf(),
            obeys_concrete_eq::<K>(),
            find_bucket(old(self).buckets(), key, 0) < old(self).buckets().len(),
        ensures
            final(self).wf(),
            final(self).spec_capacity() == old(self).spec_capacity(),
            final(self).spec_label() == old(self).spec_label(),
            is_pushed(
                old(self).buckets(),
                final(self).buckets(),
                key,
                instance,
                old(self).spec_capacity(),
            ),
    {
        let ghost before = self.buckets@;
        let at = self.find(key);
        if self.buckets[at].scratch.len() < self.capacity as usize {
            self.buckets[at].scratch.push(instance);
        }
        proof {
            let after = self.buckets@;
            assert forall|i: int, j: int| 0 <= i < j < after.len() implies (#[trigger] after[i]).key
                != (#[trigger] after[j]).key by {
                assert(before[i].key != before[j].key);
            }
        }
    }

    /// What is to be written to the buffers: those of the buckets that hold
    /// something, each with its instances.
    pub fn upload(&self) -> (r: Vec<(&B, &Vec<I>)>)
        ensures
            r@.len() == filled(self.buckets()).len(),
            forall|i: int|
                0 <= i < r@.len() ==> *(#[trigger] r@[i]).0 == filled(self.buckets())[i].buffer
                    && *r@[i].1 == filled(self.buckets())[i].scratch,
    {
        let mut out: Vec<(&B, &Vec<I>)> = Vec::new();
        let mut i: usize = 0;
        assert(self.buckets@.take(0) =~= Seq::empty());
        while i < self.buckets.len()
            invariant
                i <= self.buckets@.len(),
                out@.len() == filled(self.buckets@.take(i as int)).len(),
                forall|j: int|
                    0 <= j < out@.len() ==> *(#[trigger] out@[j]).0 == filled(
                        self.buckets@.take(i as int),
                    )[j].buffer && *out@[j].1 == filled(self.buckets@.take(i as int))[j].scratch,
            decreases self.buckets@.len() - i,
        {
            assert(self.buckets@.take(i + 1).drop_last() =~= self.buckets@.take(i as int));
            if self.buckets[i].scratch.len() > 0 {
                out.push((&self.buckets[i].buffer, &self.buckets[i].scratch));
            }
            i += 1;
        }
        assert(self.buckets@.take(i as int) =~= self.buckets@);
        out
    }

    /// The buckets that hold something: key, buffer and number of instances.
    pub fn iter_filled(&self) -> (r: Vec<(K, &B, u32)>)
        requires
            self.wf(),
        ensures
            r@.len() == filled(self.buckets()).len(),
            forall|i: int|
                0 <= i < r@.len() ==> {
                    let bucket = filled(self.buckets())[i];
                    &&& (#[trigger] r@[i]).0 == bucket.key
                    &&& *r@[i].1 == bucket.buffer
                    &&& r@[i].2 == bucket.scratch@.len()
                },
    {
        let mut out: Vec<(K, &B, u32)> = Vec::new();
        let mut i: usize = 0;
        assert(self.buckets@.take(0) =~= Seq::empty());
        while i < self.buckets.len()
            invariant
                self.wf(),
                i <= self.buckets@.len(),
                out@.len() == filled(self.buckets@.take(i as int)).len(),
                forall|j: int|
                    0 <= j < out@.len() ==> {
                        let bucket = filled(self.buckets@.take(i as int))[j];
                        &&& (#[trigger] out@[j]).0 == bucket.key
                        &&& *out@[j].1 == bucket.buffer
                        &&& out@[j].2 == bucket.scratch@.len()
                    },
            decreases self.buckets@.len() - i,
        {
            assert(self.buckets@.take(i + 1).drop_last() =~= self.buckets@.take(i as int));
            let bucket = &self.buckets[i];
            assert(self.buckets()[i as int] == *bucket);
            let count = bucket.scratch.len() as u32;
            if count > 0 {
                out.push((bucket.key, &bucket.buffer, count));
            }
            i += 1;
        }
        assert(self.buckets@.take(i as int) =~= self.buckets@);
        out
    }
}

proof fn lemma_filled<K, I, B>(buckets: Seq<Bucket<K, I, B>>, bucket: Bucket<K, I, B>)
    ensures
        filled(buckets).contains(bucket) <==> buckets.contains(bucket) && bucket.scratch@.len()
            > 0,
    decreases buckets.len(),
{
    if buckets.len() > 0 {
        let rest = buckets.drop_last();
        lemma_filled(rest, bucket);
        let before = filled(rest);
        let after = filled(buckets);
        if buckets.contains(bucket) {
            let i = choose|i: int| 0 <= i < buckets.len() && buckets[i] == bucket;
            if i < rest.len() {
                assert(rest[i] == bucket);
            }
        }
        if rest.contains(bucket) {
            let i = choose|i: int| 0 <= i < rest.len() && rest[i] == bucket;
            assert(buckets[i] == bucket);
        }
        if before.contains(bucket) {
            let i = choose|i: int| 0 <= i < before.len() && before[i] == bucket;
            assert(after[i] == bucket);
        }
        if after.contains(bucket) {
            let i = choose|i: int| 0 <= i < after.len() && after[i] == bucket;
            if i < before.len() {
                assert(before[i] == bucket);
            } else {
                assert(buckets[buckets.len() - 1] == bucket);
            }
        }
        if bucket == buckets.last() && bucket.scratch@.len() > 0 {
            assert(after[after.len() - 1] == bucket);
        }
    }
}

/// A bucket is drawn if and only if it holds something.
pub proof fn law_filled_buckets_are_drawn<K, I, B>(
    buckets: Seq<Bucket<K, I, B>>,
    bucket: Bucket<K, I, B>,
)
    requires
        buckets.contains(bucket),
    ensures
        filled(buckets).contains(bucket) <==> bucket.scratch@.len() > 0,
{
    lemma_filled(buckets, bucket);
}

/// What is pushed goes behind what the bucket of the key holds, if there is
/// room; no other bucket changes, and no bucket's key or buffer.
pub proof fn law_pushes_go_to_their_bucket<K, I, B>(
    before: Seq<Bucket<K, I, B>>,
    after: Seq<Bucket<K, I, B>>,
    key: K,
    instance: I,
    capacity: u32,
    at: int,
)
    requires
        buckets_wf(before, capacity),
        0 <= at < before.len(),
        before[at].key == key,
        is_pushed(before, after, key, instance, capacity),
    ensures
        after.len() == before.len(),
        forall|i: int|
            0 <= i < before.len() ==> (#[trigger] after[i]).key == before[i].key && after[i].buffer
                == before[i].buffer,
        forall|i: int| 0 <= i < before.len() && i != at ==> #[trigger] after[i] == before[i],
        forall|k: int|
            0 <= k < before[at].scratch@.len() ==> #[trigger] after[at].scratch@[k]
                == before[at].scratch@[k],
        before[at].scratch@.len() < capacity ==> after[at].scratch@.len()
            == before[at].scratch@.len() + 1 && after[at].scratch@.last() == instance,
        before[at].scratch@.len() == capacity ==> after[at].scratch@.len() == capacity,
{
    lemma_find_bucket(before, key, 0, at);
}

/// A registered key has one bucket, empty and with the buffer it was registered
/// with; the buckets of other keys stay as and where they are.
pub proof fn law_registered_keys_have_a_bucket<K, I, B>(
    before: Seq<Bucket<K, I, B>>,
    after: Seq<Bucket<K, I, B>>,
    key: K,
    buffer: B,
    capacity: u32,
) -> (at: int)
    requires
        buckets_wf(before, capacity),
        is_registered(before, after, key, buffer),
    ensures
        0 <= at < after.len(),
        after[at].key == key,
        after[at].buffer == buffer,
        after[at].scratch@.len() == 0,
        forall|i: int|
            0 <= i < before.len() && (#[trigger] before[i]).key != key ==> i < after.len()
                && after[i] == before[i],
        forall|i: int| 0 <= i < after.len() && (#[trigger] after[i]).key == key ==> i == at,
        after.len() == before.len() || after.len() == before.len() + 1,
        after.len() == before.len() <==> exists|i: int|
            0 <= i < before.len() && (#[trigger] before[i]).key == key,
{
    let at = lemma_bucket_place(before, key, 0);
    assert forall|i: int| 0 <= i < after.len() && (#[trigger] after[i]).key == key implies i == at by {
        if i != at {
            assert(after[i] == before[i]);
            if at < before.len() {
                assert(before[at].key == key);
            }
        }
    }
    assert forall|i: int| 0 <= i < before.len() && (#[trigger] before[i]).key != key implies i
        < after.len() && after[i] == before[i] by {
        assert(i != at);
        assert(after[i] == before[i]);
    }
    at
}

proof fn lemma_bucket_place<K, I, B>(buckets: Seq<Bucket<K, I, B>>, key: K, from: int) -> (at: int)
    requires
        0 <= from <= buckets.len(),
    ensures
        at == find_bucket(buckets, key, from),
        from <= at <= buckets.len(),
        at < buckets.len() ==> buckets[at].key == key,
        forall|i: int| from <= i < at ==> (#[trigger] buckets[i]).key != key,
    decreases buckets.len() - from,
{
    if from >= buckets.len() || buckets[from].key == key {
        from
    } else {
        lemma_bucket_place(buckets, key, from + 1)
    }
}

/// Uploaded and drawn are the buckets that hold something, each once and in the
/// order of the buckets, with all that they hold: `places` tells where.
pub proof fn law_filled_buckets_keep_their_order<K: Copy + Eq, I: Copy, B>(
    buckets: InstanceBuckets<K, I, B>,
    uploaded: Vec<(&B, &Vec<I>)>,
    drawn: Vec<(K, &B, u32)>,
) -> (places: Seq<int>)
    requires
        buckets.wf(),
        call_ensures(InstanceBuckets::<K, I, B>::upload, (&buckets,), uploaded),
        call_ensures(InstanceBuckets::<K, I, B>::iter_filled, (&buckets,), drawn),
    ensures
        uploaded@.len() == places.len(),
        drawn@.len() == places.len(),
        forall|p: int, q: int| 0 <= p < q < places.len() ==> #[trigger] places[p] < #[trigger] places[q],
        forall|p: int|
            0 <= p < places.len() ==> {
                let at = #[trigger] places[p];
                let bucket = buckets.buckets()[at];
                &&& 0 <= at < buckets.buckets().len()
                &&& bucket.scratch@.len() > 0
                &&& *uploaded@[p].0 == bucket.buffer
                &&& *uploaded@[p].1 == bucket.scratch
                &&& drawn@[p].0 == bucket.key
                &&& *drawn@[p].1 == bucket.buffer
                &&& drawn@[p].2 == bucket.scratch@.len()
            },
        forall|at: int|
            0 <= at < buckets.buckets().len() && (#[trigger] buckets.buckets()[at]).scratch@.len()
                > 0 ==> places.contains(at),
{
    let places = lemma_filled_places(buckets.buckets());
    assert forall|p: int| 0 <= p < places.len() implies {
        let at = #[trigger] places[p];
        let bucket = buckets.buckets()[at];
        &&& 0 <= at < buckets.buckets().len()
        &&& bucket.scratch@.len() > 0
        &&& *uploaded@[p].0 == bucket.buffer
        &&& *uploaded@[p].1 == bucket.scratch
        &&& drawn@[p].0 == bucket.key
        &&& *drawn@[p].1 == bucket.buffer
        &&& drawn@[p].2 == bucket.scratch@.len()
    } by {
        let u = uploaded@[p];
        let d = drawn@[p];
        assert(filled(buckets.buckets())[p] == buckets.buckets()[places[p]]);
    }
    places
}

proof fn lemma_filled_places<K, I, B>(buckets: Seq<Bucket<K, I, B>>) -> (places: Seq<int>)
    ensures
        places.len() == filled(buckets).len(),
        forall|p: int, q: int| 0 <= p < q < places.len() ==> #[trigger] places[p] < #[trigger] places[q],
        forall|p: int|
            0 <= p < places.len() ==> 0 <= #[trigger] places[p] < buckets.len()
                && buckets[places[p]].scratch@.len() > 0 && filled(buckets)[p] == buckets[places[p]],
        forall|at: int|
            0 <= at < buckets.len() && (#[trigger] buckets[at]).scratch@.len() > 0
                ==> places.contains(at),
    decreases buckets.len(),
{
    if buckets.len() == 0 {
        Seq::empty()
    } else {
        let rest = buckets.drop_last();
        let last = buckets.len() - 1;
        let before = lemma_filled_places(rest);
        let places = if buckets.last().scratch@.len() > 0 {
            before.push(last)
        } else {
            before
        };
        assert forall|p: int| 0 <= p < places.len() implies 0 <= #[trigger] places[p]
            < buckets.len() && buckets[places[p]].scratch@.len() > 0 && filled(buckets)[p]
            == buckets[places[p]] by {
            if p < before.len() {
                assert(before[p] == places[p]);
                assert(rest[before[p]] == buckets[before[p]]);
            }
        }
        assert forall|p: int, q: int| 0 <= p < q < places.len() implies #[trigger] places[p]
            < #[trigger] places[q] by {
            assert(before[p] == places[p]);
            if q < before.len() {
                assert(before[q] == places[q]);
            }
        }
        assert forall|at: int|
            0 <= at < buckets.len() && (#[trigger] buckets[at]).scratch@.len() > 0 implies places.contains(
            at,
        ) by {
            if at < last {
                assert(rest[at] == buckets[at]);
                let p = choose|p: int| 0 <= p < before.len() && before[p] == at;
                assert(places[p] == at);
            } else {
                assert(places[places.len() - 1] == last);
            }
        }
        places
    }
}

/// A bucket keeps its key and its buffer, whatever instances it holds; a new
/// frame finds it empty.
pub proof fn law_buckets_keep_key_and_buffer<K, I, B>(
    after: Bucket<K, I, B>,
    before: Bucket<K, I, B>,
    instances: Seq<I>,
)
    requires
        holds(after, before, instances),
    ensures
        after.key == before.key,
        after.buffer == before.buffer,
        after.scratch@.len() == instances.len(),
        forall|k: int| 0 <= k < instances.len() ==> #[trigger] after.scratch@[k] == instances[k],
{
}

} // verus!
