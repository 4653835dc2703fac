//! Cascade origins, sets of origins, and per-origin storage.

use vstd::prelude::*;

verus! {

/// The cascade origin a stylesheet belongs to.
///
/// Origins partition the sheets of a document; each origin is tracked
/// independently of the other two.
#[derive(Clone, Copy, Debug, PartialEq, Eq, Structural, Hash)]
pub enum Origin {
    /// Sheets supplied by the platform itself.
    UserAgent,
    /// Sheets supplied by the user.
    User,
    /// Sheets supplied by the page author.
    Author,
}

/// The position of an origin in iteration order: author sheets come first,
/// user-agent sheets last.
pub open spec fn origin_rank(origin: Origin) -> nat {
    match origin {
        Origin::Author => 0,
        Origin::User => 1,
        Origin::UserAgent => 2,
    }
}

/// The origins of `set` whose rank is at least `from`, by increasing rank.
pub open spec fn origins_from(set: Set<Origin>, from: nat) -> Seq<Origin>
    decreases 3 - from,
{
    if from >= 3 {
        Seq::empty()
    } else {
        let origin = if from == 0 {
            Origin::Author
        } else if from == 1 {
            Origin::User
        } else {
            Origin::UserAgent
        };
        if set.contains(origin) {
            seq![origin] + origins_from(set, from + 1)
        } else {
            origins_from(set, from + 1)
        }
    }
}

impl Origin {
    /// The origin with the given rank, if there is one.
    pub fn from_index(index: u8) -> (r: Option<Origin>)
        ensures
            match r {
                Some(origin) => origin_rank(origin) == index,
                None => index >= 3,
            },
    {
        if index == 0 {
            Some(Origin::Author)
        } else if index == 1 {
            Some(Origin::User)
        } else if index == 2 {
            Some(Origin::UserAgent)
        } else {
            None
        }
    }

    /// The bit that stands for this origin in an `OriginSet`.
    pub open spec fn mask(self) -> u8 {
        match self {
            Origin::UserAgent => 1u8,
            Origin::User => 2u8,
            Origin::Author => 4u8,
        }
    }

    fn bit(self) -> (b: u8)
        ensures
            b == self.mask(),
    {
        match self {
            Origin::UserAgent => 1u8,
            Origin::User => 2u8,
            Origin::Author => 4u8,
        }
    }
}

/// A set of origins, kept as a bit mask.
#[derive(Clone, Copy, Debug)]
pub struct OriginSet {
    bits: u8,
}

impl View for OriginSet {
    type V = Set<Origin>;

    closed spec fn view(&self) -> Set<Origin> {
        Set::new(|origin: Origin| self.bits & origin.mask() != 0)
    }
}

impl OriginSet {
    /// The set without any origin.
    pub fn empty() -> (s: OriginSet)
        ensures
            s@ == Set::<Origin>::empty(),
    {
        let s = OriginSet { bits: 0u8 };
        proof {
            assert forall|origin: Origin| !s@.contains(origin) by {
                let m = origin.mask();
                assert(0u8 & m == 0) by (bit_vector);
            }
            assert(s@ =~= Set::<Origin>::empty());
        }
        s
    }

    /// The set of all three origins.
    pub fn all() -> (s: OriginSet)
        ensures
            s@ == Set::<Origin>::full(),
    {
        let s = OriginSet { bits: 7u8 };
        proof {
            assert(7u8 & 1u8 != 0) by (bit_vector);
            assert(7u8 & 2u8 != 0) by (bit_vector);
            assert(7u8 & 4u8 != 0) by (bit_vector);
            assert(s@ =~= Set::<Origin>::full());
        }
        s
    }

    /// The set that holds `origin` and nothing else.
    pub fn from_origin(origin: Origin) -> (s: OriginSet)
        ensures
            s@ == set![origin],
    {
        let s = OriginSet { bits: origin.bit() };
        proof {
            assert(1u8 & 1u8 != 0 && 1u8 & 2u8 == 0 && 1u8 & 4u8 == 0) by (bit_vector);
            assert(2u8 & 1u8 == 0 && 2u8 & 2u8 != 0 && 2u8 & 4u8 == 0) by (bit_vector);
            assert(4u8 & 1u8 == 0 && 4u8 & 2u8 == 0 && 4u8 & 4u8 != 0) by (bit_vector);
            assert(s@ =~= set![origin]);
        }
        s
    }

    /// Whether `origin` is in the set.
    pub fn contains(&self, origin: Origin) -> (b: bool)
        ensures
            b == self@.contains(origin),
    {
        self.bits & origin.bit() != 0
    }

    /// Whether the set holds no origin.
    pub fn is_empty(&self) -> (b: bool)
        ensures
            b == (self@ == Set::<Origin>::empty()),
    {
        let bits = self.bits;
        proof {
            assert((bits & 7u8 == 0) <==> (bits & 1u8 == 0 && bits & 2u8 == 0 && bits & 4u8 == 0))
                by (bit_vector);
            if bits & 7u8 == 0 {
                assert(self@ =~= Set::<Origin>::empty());
            } else {
                assert(self@.contains(Origin::UserAgent) || self@.contains(Origin::User)
                    || self@.contains(Origin::Author));
            }
        }
        bits & 7u8 == 0
    }

    /// Adds `origin` to the set.
    pub fn insert(&mut self, origin: Origin)
        ensures
            final(self)@ == old(self)@.insert(origin),
    {
        let before = self.bits;
        let m = origin.bit();
        self.bits = before | m;
        proof {
            assert forall|other: Origin|
                self@.contains(other) == old(self)@.insert(origin).contains(other) by {
                let k = other.mask();
                assert((before | m) & k == (before & k) | (m & k)) by (bit_vector);
                assert(((before & k) | (m & k) != 0) <==> (before & k != 0 || m & k != 0))
                    by (bit_vector);
                assert(1u8 & 1u8 != 0 && 1u8 & 2u8 == 0 && 1u8 & 4u8 == 0) by (bit_vector);
                assert(2u8 & 1u8 == 0 && 2u8 & 2u8 != 0 && 2u8 & 4u8 == 0) by (bit_vector);
                assert(4u8 & 1u8 == 0 && 4u8 & 2u8 == 0 && 4u8 & 4u8 != 0) by (bit_vector);
            }
            assert(self@ =~= old(self)@.insert(origin));
        }
    }

    /// The origins that are in either set.
    pub fn union(self, other: OriginSet) -> (s: OriginSet)
        ensures
            s@ == self@.union(other@),
    {
        let a = self.bits;
        let b = other.bits;
        let s = OriginSet { bits: a | b };
        proof {
            assert forall|origin: Origin|
                s@.contains(origin) == self@.union(other@).contains(origin) by {
                let k = origin.mask();
                assert(((a | b) & k != 0) <==> (a & k != 0 || b & k != 0)) by (bit_vector);
            }
            assert(s@ =~= self@.union(other@));
        }
        s
    }

    /// A cursor over the origins of the set, author first and user agent last.
    pub fn iter(&self) -> (it: OriginSetIterator)
        ensures
            it.remaining() == origins_from(self@, 0),
    {
        OriginSetIterator { set: *self, cur: 0 }
    }
}

/// A cursor over the origins of an `OriginSet`.
#[derive(Clone, Copy, Debug)]
pub struct OriginSetIterator {
    set: OriginSet,
    cur: u8,
}

impl OriginSetIterator {
    /// The origins still to come, in the order in which `next` hands them out.
    pub closed spec fn remaining(&self) -> Seq<Origin> {
        origins_from(self.set@, self.cur as nat)
    }

    /// Hands out the next origin of the set, or `None` when all were handed out.
    pub fn next(&mut self) -> (r: Option<Origin>)
        ensures
            r == if old(self).remaining().len() == 0 {
                None
            } else {
                Some(old(self).remaining()[0])
            },
            final(self).remaining() == if old(self).remaining().len() == 0 {
                old(self).remaining()
            } else {
                old(self).remaining().drop_first()
            },
    {
        loop
            invariant
                self.set == old(self).set,
                self.remaining() == old(self).remaining(),
            decreases 3 - self.cur,
        {
            match Origin::from_index(self.cur) {
                None => {
                    return None;
                },
                Some(origin) => {
                    let ghost before = self.remaining();
                    self.cur += 1;
                    if self.set.contains(origin) {
                        assert(before == seq![origin] + self.remaining());
                        assert(before.drop_first() =~= self.remaining());
                        return Some(origin);
                    }
                },
            }
        }
    }
}

/// One value of type `T` for each origin.
#[derive(Debug)]
pub struct PerOrigin<T> {
    /// The value for the user-agent origin.
    pub user_agent: T,
    /// The value for the user origin.
    pub user: T,
    /// The value for the author origin.
    pub author: T,
}

impl<T> PerOrigin<T> {
    /// The value kept for `origin`.
    pub open spec fn get(self, origin: Origin) -> T {
        match origin {
            Origin::UserAgent => self.user_agent,
            Origin::User => self.user,
            Origin::Author => self.author,
        }
    }

    /// This value with `value` in the place of `origin`.
    pub open spec fn with(self, origin: Origin, value: T) -> PerOrigin<T> {
        match origin {
            Origin::UserAgent => PerOrigin { user_agent: value, ..self },
            Origin::User => PerOrigin { user: value, ..self },
            Origin::Author => PerOrigin { author: value, ..self },
        }
    }

    /// Borrows the value kept for `origin`.
    pub fn borrow_for_origin(&self, origin: &Origin) -> (r: &T)
        ensures
            *r == self.get(*origin),
    {
        match *origin {
            Origin::UserAgent => &self.user_agent,
            Origin::User => &self.user,
            Origin::Author => &self.author,
        }
    }

    /// Borrows the value kept for `origin` for writing.
    pub fn borrow_mut_for_origin(&mut self, origin: &Origin) -> (r: &mut T)
        ensures
            *r == old(self).get(*origin),
            *final(self) == old(self).with(*origin, *final(r)),
    {
        match *origin {
            Origin::UserAgent => &mut self.user_agent,
            Origin::User => &mut self.user,
            Origin::Author => &mut self.author,
        }
    }
}

/// The origins that `origins_from` lists are those of the set from the given
/// rank on, each of them once.
pub proof fn lemma_origins_from(set: Set<Origin>, from: nat)
    ensures
        origins_from(set, from).no_duplicates(),
        forall|origin: Origin| #[trigger]
            origins_from(set, from).contains(origin) <==> set.contains(origin) && origin_rank(
                origin,
            ) >= from,
    decreases 3 - from,
{
    if from < 3 {
        lemma_origins_from(set, from + 1);
        let rest = origins_from(set, from + 1);
        let here = if from == 0 {
            Origin::Author
        } else if from == 1 {
            Origin::User
        } else {
            Origin::UserAgent
        };
        let all = origins_from(set, from);
        if set.contains(here) {
            assert(all == seq![here] + rest);
            assert(all[0] == here);
            assert forall|i: int| 1 <= i < all.len() implies all[i] == rest[i - 1] by {}
            assert forall|origin: Origin| #[trigger]
                all.contains(origin) <==> set.contains(origin) && origin_rank(origin)
                    >= from by {
                if all.contains(origin) {
                    let i = choose|i: int| 0 <= i < all.len() && all[i] == origin;
                    if i > 0 {
                        assert(rest[i - 1] == origin);
                        assert(rest.contains(origin));
                    }
                }
                if set.contains(origin) && origin_rank(origin) >= from {
                    if origin == here {
                        assert(all[0] == origin);
                    } else {
                        assert(rest.contains(origin));
                        let j = choose|j: int| 0 <= j < rest.len() && rest[j] == origin;
                        assert(all[j + 1] == origin);
                    }
                }
            }
            assert forall|i: int, j: int| 0 <= i < all.len() && 0 <= j < all.len() && i != j implies all[i] != all[j] by {
                if i > 0 {
                    assert(rest.contains(rest[i - 1]));
                }
                if j > 0 {
                    assert(rest.contains(rest[j - 1]));
                }
            }
        } else {
            assert(all == rest);
            assert forall|origin: Origin| #[trigger]
                all.contains(origin) <==> set.contains(origin) && origin_rank(origin)
                    >= from by {
                assert(rest.contains(origin) <==> set.contains(origin) && origin_rank(origin) >= from + 1);
            }
        }
    } else {
        assert(origins_from(set, from) =~= Seq::<Origin>::empty());
        assert forall|origin: Origin| !(#[trigger] origins_from(set, from).contains(origin)) by {}
    }
}

/// Behind the first of a list without duplicates stand the others.
pub proof fn lemma_drop_first_contains(origins: Seq<Origin>, origin: Origin)
    requires
        origins.len() > 0,
        origins.no_duplicates(),
    ensures
        origins.drop_first().no_duplicates(),
        origins.drop_first().contains(origin) <==> origins.contains(origin) && origin
            != origins[0],
{
    let rest = origins.drop_first();
    assert forall|i: int| 0 <= i < rest.len() implies rest[i] == origins[i + 1] by {}
    if rest.contains(origin) {
        let i = choose|i: int| 0 <= i < rest.len() && rest[i] == origin;
        assert(origins[i + 1] == origin);
    }
    if origins.contains(origin) && origin != origins[0] {
        let i = choose|i: int| 0 <= i < origins.len() && origins[i] == origin;
        assert(rest[i - 1] == origin);
    }
}

} // verus!
