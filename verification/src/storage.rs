//! The storage capability consumed by the dispatcher, and an in-memory
//! implementation of it.

use vstd::prelude::*;
use vstd::string::*;

use crate::error_code::S3ErrorCode;
use crate::text::StrOrder;

verus! {

/// Contents of every stored object, keyed by bucket name and object key.
pub type ObjectMap = Map<(Seq<char>, Seq<char>), Seq<u8>>;

/// The abstract backend providing object and bucket operations to the
/// dispatcher. Every fault condition is reported distinguishably so the
/// dispatcher can select the matching error code.
pub trait Storage {
    /// Names of the buckets that exist.
    spec fn buckets(&self) -> Set<Seq<char>>;

    /// The stored objects.
    spec fn objects(&self) -> ObjectMap;

    fn create_bucket(&mut self, bucket: &str) -> (r: Result<(), S3ErrorCode>)
        ensures
            match r {
                Ok(_) => !old(self).buckets().contains(bucket@) && final(self).buckets() == old(
                    self,
                ).buckets().insert(bucket@) && final(self).objects() == old(self).objects(),
                Err(e) => e == S3ErrorCode::BucketAlreadyExists && old(self).buckets().contains(
                    bucket@,
                ) && final(self).buckets() == old(self).buckets() && final(self).objects() == old(
                    self,
                ).objects(),
            },
    ;

    fn delete_bucket(&mut self, bucket: &str) -> (r: Result<(), S3ErrorCode>)
        ensures
            match r {
                Ok(_) => {
                    &&& old(self).buckets().contains(bucket@)
                    &&& forall|bk: (Seq<char>, Seq<char>)|
                        old(self).objects().contains_key(bk) ==> bk.0 != bucket@
                    &&& final(self).buckets() == old(self).buckets().remove(bucket@)
                    &&& final(self).objects() == old(self).objects()
                },
                Err(e) => {
                    &&& final(self).buckets() == old(self).buckets()
                    &&& final(self).objects() == old(self).objects()
                    &&& if !old(self).buckets().contains(bucket@) {
                        e == S3ErrorCode::NoSuchBucket
                    } else {
                        e == S3ErrorCode::BucketNotEmpty && exists|bk: (Seq<char>, Seq<char>)|
                            old(self).objects().contains_key(bk) && bk.0 == bucket@
                    }
                },
            },
    ;

    fn head_bucket(&self, bucket: &str) -> (r: Result<(), S3ErrorCode>)
        ensures
            match r {
                Ok(_) => self.buckets().contains(bucket@),
                Err(e) => e == S3ErrorCode::NoSuchBucket && !self.buckets().contains(bucket@),
            },
    ;

    fn put_object(&mut self, bucket: &str, key: &str, body: Vec<u8>) -> (r: Result<
        (),
        S3ErrorCode,
    >)
        ensures
            match r {
                Ok(_) => {
                    &&& old(self).buckets().contains(bucket@)
                    &&& final(self).buckets() == old(self).buckets()
                    &&& final(self).objects() == old(self).objects().insert(
                        (bucket@, key@),
                        body@,
                    )
                },
                Err(e) => e == S3ErrorCode::NoSuchBucket && !old(self).buckets().contains(bucket@)
                    && final(self).buckets() == old(self).buckets() && final(self).objects()
                    == old(self).objects(),
            },
    ;

    fn get_object(&self, bucket: &str, key: &str) -> (r: Result<Vec<u8>, S3ErrorCode>)
        ensures
            match r {
                Ok(body) => self.objects().contains_key((bucket@, key@)) && body@ == self.objects()[
                    (bucket@, key@)
                ],
                Err(e) => {
                    &&& !self.objects().contains_key((bucket@, key@))
                    &&& if !self.buckets().contains(bucket@) {
                        e == S3ErrorCode::NoSuchBucket
                    } else {
                        e == S3ErrorCode::NoSuchKey
                    }
                },
            },
    ;

    fn delete_object(&mut self, bucket: &str, key: &str) -> (r: Result<(), S3ErrorCode>)
        ensures
            match r {
                Ok(_) => old(self).buckets().contains(bucket@) && final(self).buckets() == old(
                    self,
                ).buckets() && final(self).objects() == old(self).objects().remove(
                    (bucket@, key@),
                ),
                Err(e) => e == S3ErrorCode::NoSuchBucket && !old(self).buckets().contains(bucket@)
                    && final(self).buckets() == old(self).buckets() && final(self).objects()
                    == old(self).objects(),
            },
    ;
}

/// One stored object: bucket name, key, and contents.
pub type ObjectEntry = ((String, String), Vec<u8>);

/// The predicate keeping every name other than one bucket's.
pub open spec fn keeps_name(b: Seq<char>) -> spec_fn(String) -> bool {
    |nm: String| nm@ != b
}

/// The predicate keeping every entry not stored under one bucket/key pair.
pub open spec fn keeps_entry(b: Seq<char>, k: Seq<char>) -> spec_fn(ObjectEntry) -> bool {
    |e: ObjectEntry| (e.0.0@, e.0.1@) != (b, k)
}

/// The bucket-name set denoted by a name list.
pub open spec fn bucket_set(s: Seq<String>) -> Set<Seq<char>>
    decreases s.len(),
{
    if s.len() == 0 {
        Set::empty()
    } else {
        bucket_set(s.drop_last()).insert(s.last()@)
    }
}

/// The object map denoted by a put history: later entries win.
pub open spec fn object_map(s: Seq<ObjectEntry>) -> ObjectMap
    decreases s.len(),
{
    if s.len() == 0 {
        Map::empty()
    } else {
        object_map(s.drop_last()).insert((s.last().0.0@, s.last().0.1@), s.last().1@)
    }
}

/// A name is in the bucket set exactly when some list entry spells it.
pub proof fn lemma_bucket_set_contains(s: Seq<String>, b: Seq<char>)
    ensures
        bucket_set(s).contains(b) <==> exists|i: int| 0 <= i < s.len() && (#[trigger] s[i])@ == b,
    decreases s.len(),
{
    if s.len() > 0 {
        lemma_bucket_set_contains(s.drop_last(), b);
        if s.last()@ == b {
            assert(s[s.len() - 1]@ == b);
        } else {
            if bucket_set(s).contains(b) {
                let i = choose|i: int|
                    0 <= i < s.drop_last().len() && (#[trigger] s.drop_last()[i])@ == b;
                assert(s[i]@ == b);
            }
            if exists|i: int| 0 <= i < s.len() && (#[trigger] s[i])@ == b {
                let i = choose|i: int| 0 <= i < s.len() && (#[trigger] s[i])@ == b;
                assert(i != s.len() - 1);
                assert(s.drop_last()[i]@ == b);
            }
        }
    }
}

/// A bucket/key pair is in the object map exactly when some history entry
/// carries it.
pub proof fn lemma_object_map_contains(s: Seq<ObjectEntry>, bk: (Seq<char>, Seq<char>))
    ensures
        object_map(s).contains_key(bk) <==> exists|i: int|
            0 <= i < s.len() && ((#[trigger] s[i]).0.0@, s[i].0.1@) == bk,
    decreases s.len(),
{
    if s.len() > 0 {
        lemma_object_map_contains(s.drop_last(), bk);
        if (s.last().0.0@, s.last().0.1@) == bk {
            assert(((s[s.len() - 1]).0.0@, s[s.len() - 1].0.1@) == bk);
        } else {
            if object_map(s).contains_key(bk) {
                let i = choose|i: int|
                    0 <= i < s.drop_last().len() && ((#[trigger] s.drop_last()[i]).0.0@,
                    s.drop_last()[i].0.1@) == bk;
                assert((s[i].0.0@, s[i].0.1@) == bk);
            }
            if exists|i: int| 0 <= i < s.len() && ((#[trigger] s[i]).0.0@, s[i].0.1@) == bk {
                let i = choose|i: int|
                    0 <= i < s.len() && ((#[trigger] s[i]).0.0@, s[i].0.1@) == bk;
                assert(i != s.len() - 1);
                assert((s.drop_last()[i].0.0@, s.drop_last()[i].0.1@) == bk);
            }
        }
    }
}

/// An in-memory storage backend, suitable for tests and small deployments.
#[derive(Debug)]
pub struct InMemStorage {
    names: Vec<String>,
    entries: Vec<ObjectEntry>,
}

impl InMemStorage {
    /// Empty storage: no buckets, no objects.
    pub fn new() -> (r: Self)
        ensures
            r.buckets() == Set::<Seq<char>>::empty(),
            r.objects() == Map::<(Seq<char>, Seq<char>), Seq<u8>>::empty(),
    {
        InMemStorage { names: Vec::new(), entries: Vec::new() }
    }

    fn bucket_exists(&self, bucket: &str) -> (r: bool)
        ensures
            r == self.buckets().contains(bucket@),
    {
        proof {
            lemma_bucket_set_contains(self.names@, bucket@);
        }
        let n = self.names.len();
        let mut i: usize = 0;
        while i < n
            invariant
                i <= n,
                n == self.names@.len(),
                forall|j: int| 0 <= j < i ==> (#[trigger] self.names@[j])@ != bucket@,
                self.buckets().contains(bucket@) <==> exists|j: int|
                    0 <= j < self.names@.len() && (#[trigger] self.names@[j])@ == bucket@,
            decreases n - i,
        {
            match crate::text::str_compare(self.names[i].as_str(), bucket) {
                StrOrder::Equal => {
                    proof {
                        assert(self.names@[i as int]@ == bucket@);
                    }
                    return true;
                },
                _ => {},
            }
            i = i + 1;
        }
        proof {
            if self.buckets().contains(bucket@) {
                let j = choose|j: int|
                    0 <= j < self.names@.len() && (#[trigger] self.names@[j])@ == bucket@;
                assert(false);
            }
        }
        false
    }

    fn find_object(&self, bucket: &str, key: &str) -> (r: Option<&Vec<u8>>)
        ensures
            match r {
                Some(v) => self.objects().contains_key((bucket@, key@)) && v@ == self.objects()[
                    (bucket@, key@)
                ],
                None => !self.objects().contains_key((bucket@, key@)),
            },
    {
        let ghost es = self.entries@;
        let ghost bk = (bucket@, key@);
        let mut i: usize = self.entries.len();
        proof {
            assert(es.take(i as int) =~= es);
        }
        loop
            invariant
                i <= es.len(),
                es == self.entries@,
                bk == (bucket@, key@),
                self.objects().contains_key(bk) <==> object_map(es.take(i as int)).contains_key(
                    bk,
                ),
                self.objects().contains_key(bk) ==> self.objects()[bk] == object_map(
                    es.take(i as int),
                )[bk],
            decreases i,
        {
            if i == 0 {
                proof {
                    assert(es.take(0) =~= Seq::empty());
                }
                return None;
            }
            proof {
                let t = es.take(i as int);
                assert(t.len() == i);
                assert(t.last() == es[i - 1]);
                assert(t.drop_last() =~= es.take(i as int - 1));
            }
            let same_bucket = match crate::text::str_compare(
                self.entries[i - 1].0.0.as_str(),
                bucket,
            ) {
                StrOrder::Equal => true,
                _ => false,
            };
            let same_key = match crate::text::str_compare(self.entries[i - 1].0.1.as_str(), key) {
                StrOrder::Equal => true,
                _ => false,
            };
            if same_bucket && same_key {
                let v: &Vec<u8> = &self.entries[i - 1].1;
                proof {
                    assert(object_map(es.take(i as int)).contains_key(bk));
                }
                return Some(v);
            }
            proof {
                assert((es[i - 1].0.0@, es[i - 1].0.1@) != bk);
            }
            i = i - 1;
        }
    }

    fn bucket_has_objects(&self, bucket: &str) -> (r: bool)
        ensures
            r == exists|bk: (Seq<char>, Seq<char>)|
                self.objects().contains_key(bk) && bk.0 == bucket@,
    {
        let n = self.entries.len();
        let mut i: usize = 0;
        while i < n
            invariant
                i <= n,
                n == self.entries@.len(),
                forall|j: int| 0 <= j < i ==> (#[trigger] self.entries@[j]).0.0@ != bucket@,
            decreases n - i,
        {
            match crate::text::str_compare(self.entries[i].0.0.as_str(), bucket) {
                StrOrder::Equal => {
                    proof {
                        let bk = (self.entries@[i as int].0.0@, self.entries@[i as int].0.1@);
                        lemma_object_map_contains(self.entries@, bk);
                        assert(((self.entries@[i as int]).0.0@, self.entries@[i as int].0.1@)
                            == bk);
                        assert(self.objects().contains_key(bk));
                    }
                    return true;
                },
                _ => {},
            }
            i = i + 1;
        }
        proof {
            if exists|bk: (Seq<char>, Seq<char>)|
                self.objects().contains_key(bk) && bk.0 == bucket@ {
                let bk = choose|bk: (Seq<char>, Seq<char>)|
                    self.objects().contains_key(bk) && bk.0 == bucket@;
                lemma_object_map_contains(self.entries@, bk);
                let j = choose|j: int|
                    0 <= j < self.entries@.len() && ((#[trigger] self.entries@[j]).0.0@,
                    self.entries@[j].0.1@) == bk;
                assert(self.entries@[j].0.0@ == bucket@);
                assert(false);
            }
        }
        false
    }
}

impl Storage for InMemStorage {
    closed spec fn buckets(&self) -> Set<Seq<char>> {
        bucket_set(self.names@)
    }

    closed spec fn objects(&self) -> ObjectMap {
        object_map(self.entries@)
    }

    fn create_bucket(&mut self, bucket: &str) -> (r: Result<(), S3ErrorCode>) {
        if self.bucket_exists(bucket) {
            return Err(S3ErrorCode::BucketAlreadyExists);
        }
        let ghost olds = self.names@;
        self.names.push(bucket.to_owned());
        proof {
            assert(self.names@.drop_last() =~= olds);
            assert(self.names@.last()@ == bucket@);
        }
        Ok(())
    }

    fn delete_bucket(&mut self, bucket: &str) -> (r: Result<(), S3ErrorCode>) {
        if !self.bucket_exists(bucket) {
            return Err(S3ErrorCode::NoSuchBucket);
        }
        if self.bucket_has_objects(bucket) {
            return Err(S3ErrorCode::BucketNotEmpty);
        }
        let mut drained: Vec<String> = Vec::new();
        core::mem::swap(&mut self.names, &mut drained);
        let ghost olds = drained@;
        let ghost entries0 = self.entries@;
        let ghost mut taken: int = 0;
        proof {
            reveal(Seq::filter);
            assert(olds.skip(0) =~= olds);
            assert(olds.take(0) =~= Seq::<String>::empty());
            assert(self.names@ =~= olds.take(0).filter(keeps_name(bucket@)));
        }
        loop
            invariant
                0 <= taken,
                taken + drained.len() == olds.len(),
                drained@ =~= olds.skip(taken),
                self.names@ == olds.take(taken).filter(keeps_name(bucket@)),
                self.entries@ == entries0,
            ensures
                self.names@ == olds.filter(keeps_name(bucket@)),
                self.entries@ == entries0,
            decreases drained.len(),
        {
            if drained.len() == 0 {
                proof {
                    assert(olds.take(taken) =~= olds);
                }
                break;
            }
            let ghost prev = drained@;
            let nm = drained.remove(0);
            proof {
                assert(nm == olds[taken]);
                assert forall|k: int| 0 <= k < drained@.len() implies drained@[k] == olds.skip(
                    taken + 1,
                )[k] by {
                    assert(drained@[k] == prev[k + 1]);
                }
                assert(drained@ =~= olds.skip(taken + 1));
                reveal(Seq::filter);
                let tk = olds.take(taken + 1);
                assert(tk.drop_last() =~= olds.take(taken));
                assert(tk.last() == olds[taken]);
            }
            let keep = match crate::text::str_compare(nm.as_str(), bucket) {
                StrOrder::Equal => false,
                _ => true,
            };
            if keep {
                self.names.push(nm);
            }
            proof {
                taken = taken + 1;
            }
        }
        proof {
            lemma_bucket_filter_removes(olds, bucket@);
            assert forall|bk: (Seq<char>, Seq<char>)|
                old(self).objects().contains_key(bk) implies bk.0 != bucket@ by {
                if bk.0 == bucket@ {
                    assert(exists|w: (Seq<char>, Seq<char>)|
                        old(self).objects().contains_key(w) && w.0 == bucket@);
                }
            }
        }
        Ok(())
    }

    fn head_bucket(&self, bucket: &str) -> (r: Result<(), S3ErrorCode>) {
        if self.bucket_exists(bucket) {
            Ok(())
        } else {
            Err(S3ErrorCode::NoSuchBucket)
        }
    }

    fn put_object(&mut self, bucket: &str, key: &str, body: Vec<u8>) -> (r: Result<
        (),
        S3ErrorCode,
    >) {
        if !self.bucket_exists(bucket) {
            return Err(S3ErrorCode::NoSuchBucket);
        }
        let ghost olds = self.entries@;
        self.entries.push(((bucket.to_owned(), key.to_owned()), body));
        proof {
            assert(self.entries@.drop_last() =~= olds);
        }
        Ok(())
    }

    fn get_object(&self, bucket: &str, key: &str) -> (r: Result<Vec<u8>, S3ErrorCode>) {
        match self.find_object(bucket, key) {
            Some(v) => Ok(vstd::slice::slice_to_vec(v.as_slice())),
            None => {
                if self.bucket_exists(bucket) {
                    Err(S3ErrorCode::NoSuchKey)
                } else {
                    Err(S3ErrorCode::NoSuchBucket)
                }
            },
        }
    }

    fn delete_object(&mut self, bucket: &str, key: &str) -> (r: Result<(), S3ErrorCode>) {
        if !self.bucket_exists(bucket) {
            return Err(S3ErrorCode::NoSuchBucket);
        }
        let mut drained: Vec<ObjectEntry> = Vec::new();
        core::mem::swap(&mut self.entries, &mut drained);
        let ghost olds = drained@;
        let ghost names0 = self.names@;
        let ghost mut taken: int = 0;
        proof {
            reveal(Seq::filter);
            assert(olds.skip(0) =~= olds);
            assert(olds.take(0) =~= Seq::<ObjectEntry>::empty());
            assert(self.entries@ =~= olds.take(0).filter(
                keeps_entry(bucket@, key@)));
        }
        loop
            invariant
                0 <= taken,
                taken + drained.len() == olds.len(),
                drained@ =~= olds.skip(taken),
                self.entries@ == olds.take(taken).filter(
                    keeps_entry(bucket@, key@)),
                self.names@ == names0,
            ensures
                self.entries@ == olds.filter(keeps_entry(bucket@, key@)),
                self.names@ == names0,
            decreases drained.len(),
        {
            if drained.len() == 0 {
                proof {
                    assert(olds.take(taken) =~= olds);
                }
                break;
            }
            let ghost prev = drained@;
            let e = drained.remove(0);
            proof {
                assert(e == olds[taken]);
                assert forall|k: int| 0 <= k < drained@.len() implies drained@[k] == olds.skip(
                    taken + 1,
                )[k] by {
                    assert(drained@[k] == prev[k + 1]);
                }
                assert(drained@ =~= olds.skip(taken + 1));
                reveal(Seq::filter);
                let tk = olds.take(taken + 1);
                assert(tk.drop_last() =~= olds.take(taken));
                assert(tk.last() == olds[taken]);
            }
            let same_bucket = match crate::text::str_compare(e.0.0.as_str(), bucket) {
                StrOrder::Equal => true,
                _ => false,
            };
            let same_key = match crate::text::str_compare(e.0.1.as_str(), key) {
                StrOrder::Equal => true,
                _ => false,
            };
            if !(same_bucket && same_key) {
                self.entries.push(e);
            }
            proof {
                taken = taken + 1;
            }
        }
        proof {
            lemma_object_filter_removes(olds, bucket@, key@);
        }
        Ok(())
    }
}

/// Filtering the name list by inequality with one name removes exactly that
/// name from the denoted set.
proof fn lemma_bucket_filter_removes(s: Seq<String>, b: Seq<char>)
    ensures
        bucket_set(s.filter(keeps_name(b))) == bucket_set(s).remove(b),
    decreases s.len(),
{
    reveal(Seq::filter);
    if s.len() == 0 {
        assert(bucket_set(s.filter(keeps_name(b))) =~= bucket_set(s).remove(b));
    } else {
        lemma_bucket_filter_removes(s.drop_last(), b);
        let f = s.filter(keeps_name(b));
        if s.last()@ == b {
            assert(f == s.drop_last().filter(keeps_name(b)));
            assert(bucket_set(f) =~= bucket_set(s).remove(b));
        } else {
            assert(f == s.drop_last().filter(keeps_name(b)).push(s.last()));
            assert(f.drop_last() =~= s.drop_last().filter(keeps_name(b)));
            assert(f.last() == s.last());
            assert(bucket_set(f) =~= bucket_set(s).remove(b));
        }
    }
}

/// Filtering the put history by inequality with one bucket/key pair removes
/// exactly that pair from the denoted map.
proof fn lemma_object_filter_removes(s: Seq<ObjectEntry>, b: Seq<char>, k: Seq<char>)
    ensures
        object_map(s.filter(keeps_entry(b, k))) == object_map(s).remove(
            (b, k),
        ),
    decreases s.len(),
{
    reveal(Seq::filter);
    if s.len() == 0 {
        assert(object_map(s.filter(keeps_entry(b, k))) =~= object_map(
            s,
        ).remove((b, k)));
    } else {
        lemma_object_filter_removes(s.drop_last(), b, k);
        let f = s.filter(keeps_entry(b, k));
        if (s.last().0.0@, s.last().0.1@) == (b, k) {
            assert(f == s.drop_last().filter(keeps_entry(b, k)));
            assert(object_map(f) =~= object_map(s).remove((b, k)));
        } else {
            assert(f == s.drop_last().filter(keeps_entry(b, k)).push(
                s.last(),
            ));
            assert(f.drop_last() =~= s.drop_last().filter(
                keeps_entry(b, k)));
            assert(f.last() == s.last());
            assert(object_map(f) =~= object_map(s).remove((b, k)));
        }
    }
}

} // verus!
