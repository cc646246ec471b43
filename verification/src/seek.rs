//! The convergence loop's decisions: which extracted posts of one
//! window are genuinely new against the running high-water mark, and
//! a verified in-memory model of the persistence contract, keyed by
//! post number and drawing id.

use vstd::prelude::*;
use crate::body::opt_oekaki_view;
use crate::board::pairs_view;
use crate::res::{Oekaki, OekakiView, Res, ResView};

verus! {

/// Walking one window's pairs left to right: a pair whose post number
/// exceeds the running mark is kept and advances the mark; everything
/// else is skipped. This guards against a window re-delivering posts
/// already seen at its boundary.
pub open spec fn filter_new(pairs: Seq<(ResView, Option<OekakiView>)>, max: int) -> (
    Seq<(ResView, Option<OekakiView>)>,
    int,
)
    decreases pairs.len(),
{
    if pairs.len() == 0 {
        (Seq::empty(), max)
    } else {
        let prev = filter_new(pairs.drop_last(), max);
        if pairs.last().0.no > prev.1 {
            (prev.0.push(pairs.last()), pairs.last().0.no)
        } else {
            prev
        }
    }
}

/// Nothing selected regresses: every kept post is numbered above the
/// initial mark, the kept posts are in strictly increasing order, and
/// the new mark is the last kept post's number (or the old mark when
/// nothing was kept).
pub proof fn lemma_filter_new_monotone(pairs: Seq<(ResView, Option<OekakiView>)>, max: int)
    ensures
        forall|i: int|
            0 <= i < filter_new(pairs, max).0.len() ==> #[trigger] filter_new(
                pairs,
                max,
            ).0[i].0.no > max,
        forall|i: int, j: int|
            0 <= i < j < filter_new(pairs, max).0.len() ==> filter_new(pairs, max).0[i].0.no
                < filter_new(pairs, max).0[j].0.no,
        filter_new(pairs, max).1 >= max,
        filter_new(pairs, max).0.len() > 0 ==> filter_new(pairs, max).1 == filter_new(
            pairs,
            max,
        ).0.last().0.no,
        filter_new(pairs, max).0.len() == 0 ==> filter_new(pairs, max).1 == max,
        forall|i: int|
            0 <= i < filter_new(pairs, max).0.len() ==> #[trigger] filter_new(
                pairs,
                max,
            ).0[i].0.no <= filter_new(pairs, max).1,
    decreases pairs.len(),
{
    if pairs.len() > 0 {
        lemma_filter_new_monotone(pairs.drop_last(), max);
    }
}

/// Selects the genuinely new pairs of one extracted window and the
/// advanced high-water mark.
pub fn select_new(pairs: Vec<(Res, Option<Oekaki>)>, max_no: i32) -> (r: (
    Vec<(Res, Option<Oekaki>)>,
    i32,
))
    ensures
        pairs_view(r.0@) == filter_new(pairs_view(pairs@), max_no as int).0,
        r.1 as int == filter_new(pairs_view(pairs@), max_no as int).1,
{
    let mut out: Vec<(Res, Option<Oekaki>)> = Vec::new();
    let mut max: i32 = max_no;
    let n = pairs.len();
    let mut i: usize = 0;
    let ghost all = pairs_view(pairs@);
    assert(all.take(0) =~= Seq::<(ResView, Option<OekakiView>)>::empty());
    assert(pairs_view(out@) =~= Seq::<(ResView, Option<OekakiView>)>::empty());
    while i < n
        invariant
            0 <= i <= n,
            n == pairs@.len(),
            all == pairs_view(pairs@),
            pairs_view(out@) == filter_new(all.take(i as int), max_no as int).0,
            max as int == filter_new(all.take(i as int), max_no as int).1,
        decreases n - i,
    {
        assert(all.take(i as int + 1).drop_last() =~= all.take(i as int));
        assert(all.take(i as int + 1).last() == all[i as int]);
        let keep = pairs[i].0.no > max;
        if keep {
            max = pairs[i].0.no;
            let p0 = pairs[i].0.clone();
            let p1 = match &pairs[i].1 {
                Some(o) => Some(o.clone()),
                None => None,
            };
            proof {
                crate::board::lemma_pairs_view_push(out@, (p0, p1));
                assert(opt_oekaki_view(p1) == opt_oekaki_view(pairs@[i as int].1));
            }
            out.push((p0, p1));
            assert(pairs_view(out@) =~= filter_new(all.take(i as int + 1), max_no as int).0);
        }
        i = i + 1;
    }
    assert(all.take(n as int) =~= all);
    (out, max)
}

/// Why the store refused an insert.
#[derive(Clone, Copy, Debug, PartialEq, Eq, Structural)]
pub enum PersistenceError {
    /// A record with that key already exists.
    DuplicateKey,
}

/// First stored post with the given number.
pub open spec fn find_post(posts: Seq<Res>, no: int) -> Option<Res>
    decreases posts.len(),
{
    if posts.len() == 0 {
        None
    } else if posts[0].no == no {
        Some(posts[0])
    } else {
        find_post(posts.drop_first(), no)
    }
}

/// An in-memory model of the persistence contract: posts keyed by
/// post number, drawings by drawing id, duplicates refused, and the
/// high-water mark derived from what is stored. Tests run the
/// convergence logic against it; a relational store must satisfy the
/// same contract.
#[derive(Debug)]
pub struct MemStore {
    pub posts: Vec<Res>,
    pub oekakis: Vec<Oekaki>,
}

/// Keys are unique.
pub open spec fn store_wf(s: MemStore) -> bool {
    (forall|i: int, j: int|
        0 <= i < j < s.posts@.len() ==> s.posts@[i].no != s.posts@[j].no) && (forall|i: int, j: int|
        0 <= i < j < s.oekakis@.len() ==> s.oekakis@[i].oekaki_id != s.oekakis@[j].oekaki_id)
}

/// Highest stored post number, zero when no posts exist yet.
pub open spec fn max_no_spec(posts: Seq<Res>) -> int
    decreases posts.len(),
{
    if posts.len() == 0 {
        0
    } else {
        let rest = max_no_spec(posts.drop_last());
        if posts.last().no > rest {
            posts.last().no as int
        } else {
            rest
        }
    }
}

impl MemStore {
    /// An empty store: no posts, no drawings.
    pub fn new() -> (s: MemStore)
        ensures
            s.posts@.len() == 0,
            s.oekakis@.len() == 0,
            store_wf(s),
    {
        MemStore { posts: Vec::new(), oekakis: Vec::new() }
    }

    /// Inserts a post; a duplicate post number is refused and the
    /// store is unchanged.
    pub fn insert_res(&mut self, r: Res) -> (result: Result<(), PersistenceError>)
        requires
            store_wf(*old(self)),
        ensures
            store_wf(*final (self)),
            match result {
                Ok(()) => (forall|i: int|
                    0 <= i < old(self).posts@.len() ==> old(self).posts@[i].no != r.no) && final (
                self).posts@ == old(self).posts@.push(r),
                Err(PersistenceError::DuplicateKey) => (exists|i: int|
                    0 <= i < old(self).posts@.len() && old(self).posts@[i].no == r.no) && *final (
                self) == *old(self),
            },
            final (self).oekakis@ == old(self).oekakis@,
    {
        let n = self.posts.len();
        let mut i: usize = 0;
        while i < n
            invariant
                0 <= i <= n,
                n == self.posts@.len(),
                *self == *old(self),
                store_wf(*old(self)),
                forall|j: int| 0 <= j < i ==> self.posts@[j].no != r.no,
            decreases n - i,
        {
            if self.posts[i].no == r.no {
                return Err(PersistenceError::DuplicateKey);
            }
            i = i + 1;
        }
        self.posts.push(r);
        Ok(())
    }

    /// Inserts a drawing; a duplicate drawing id is refused and the
    /// store is unchanged.
    pub fn insert_oekaki(&mut self, o: Oekaki) -> (result: Result<(), PersistenceError>)
        requires
            store_wf(*old(self)),
        ensures
            store_wf(*final (self)),
            match result {
                Ok(()) => (forall|i: int|
                    0 <= i < old(self).oekakis@.len() ==> old(self).oekakis@[i].oekaki_id
                        != o.oekaki_id) && final (self).oekakis@ == old(self).oekakis@.push(o),
                Err(PersistenceError::DuplicateKey) => (exists|i: int|
                    0 <= i < old(self).oekakis@.len() && old(self).oekakis@[i].oekaki_id
                        == o.oekaki_id) && *final (self) == *old(self),
            },
            final (self).posts@ == old(self).posts@,
    {
        let n = self.oekakis.len();
        let mut i: usize = 0;
        while i < n
            invariant
                0 <= i <= n,
                n == self.oekakis@.len(),
                *self == *old(self),
                store_wf(*old(self)),
                forall|j: int| 0 <= j < i ==> self.oekakis@[j].oekaki_id != o.oekaki_id,
            decreases n - i,
        {
            if self.oekakis[i].oekaki_id == o.oekaki_id {
                return Err(PersistenceError::DuplicateKey);
            }
            i = i + 1;
        }
        self.oekakis.push(o);
        Ok(())
    }

    /// The high-water mark: the highest stored post number, zero when
    /// no posts exist yet.
    pub fn get_max_res_no(&self) -> (r: i32)
        ensures
            r as int == max_no_spec(self.posts@),
    {
        let mut max: i32 = 0;
        let n = self.posts.len();
        let mut i: usize = 0;
        assert(self.posts@.take(0) =~= Seq::<Res>::empty());
        while i < n
            invariant
                0 <= i <= n,
                n == self.posts@.len(),
                max as int == max_no_spec(self.posts@.take(i as int)),
            decreases n - i,
        {
            assert(self.posts@.take(i as int + 1).drop_last() =~= self.posts@.take(i as int));
            assert(self.posts@.take(i as int + 1).last() == self.posts@[i as int]);
            if self.posts[i].no > max {
                max = self.posts[i].no;
            }
            i = i + 1;
        }
        assert(self.posts@.take(n as int) =~= self.posts@);
        max
    }

    /// Re-reads a stored post by number.
    pub fn get_res(&self, no: i32) -> (r: Option<&Res>)
        ensures
            match r {
                Some(p) => find_post(self.posts@, no as int) == Some(*p),
                None => find_post(self.posts@, no as int) is None,
            },
    {
        let n = self.posts.len();
        let mut i: usize = 0;
        assert(self.posts@.skip(0) =~= self.posts@);
        while i < n
            invariant
                0 <= i <= n,
                n == self.posts@.len(),
                find_post(self.posts@, no as int) == find_post(
                    self.posts@.skip(i as int),
                    no as int,
                ),
            decreases n - i,
        {
            assert(self.posts@.skip(i as int)[0] == self.posts@[i as int]);
            assert(self.posts@.skip(i as int).drop_first() =~= self.posts@.skip(i as int + 1));
            if self.posts[i].no == no {
                return Some(&self.posts[i]);
            }
            i = i + 1;
        }
        assert(self.posts@.skip(n as int) =~= Seq::<Res>::empty());
        None
    }
}

/// Round trip: a post whose number is fresh, once persisted, is
/// re-read field for field equal — looking its number up in the
/// extended store yields exactly the inserted record.
pub proof fn lemma_store_round_trip(posts: Seq<Res>, r: Res)
    requires
        forall|i: int| 0 <= i < posts.len() ==> posts[i].no != r.no,
    ensures
        find_post(posts.push(r), r.no as int) == Some(r),
    decreases posts.len(),
{
    if posts.len() == 0 {
        assert(posts.push(r)[0] == r);
    } else {
        assert(posts.push(r)[0] == posts[0]);
        assert(posts.push(r).drop_first() =~= posts.drop_first().push(r));
        lemma_store_round_trip(posts.drop_first(), r);
    }
}

/// Idempotent resume: against a store already holding posts up to the
/// mark, nothing the filter selects was already stored — every
/// selected post number exceeds the stored high-water mark, so no
/// stored number is selected again.
pub proof fn lemma_idempotent_resume(
    store_posts: Seq<Res>,
    pairs: Seq<(ResView, Option<OekakiView>)>,
)
    ensures
        forall|i: int, j: int|
            0 <= i < filter_new(pairs, max_no_spec(store_posts)).0.len() && 0 <= j
                < store_posts.len() ==> #[trigger] filter_new(
                pairs,
                max_no_spec(store_posts),
            ).0[i].0.no != #[trigger] store_posts[j].no as int,
{
    let h = max_no_spec(store_posts);
    lemma_filter_new_monotone(pairs, h);
    lemma_max_no_bound(store_posts);
}

proof fn lemma_max_no_bound(posts: Seq<Res>)
    ensures
        forall|j: int| 0 <= j < posts.len() ==> #[trigger] posts[j].no <= max_no_spec(posts),
    decreases posts.len(),
{
    if posts.len() > 0 {
        lemma_max_no_bound(posts.drop_last());
        assert(forall|j: int|
            0 <= j < posts.len() - 1 ==> #[trigger] posts[j].no == posts.drop_last()[j].no);
    }
}

} // verus!
