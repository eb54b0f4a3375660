//! The per-chat dialogue store: a total map from chat id to dialogue state
//! in which an absent chat reads as idle, with the independence laws that
//! make per-chat dialogues safe to interleave.

use vstd::prelude::*;
use crate::state::{State, StateView};

verus! {

/// The dialogue store. A chat that was never written reads as
/// `State::Start`; writing `State::Start` is equivalent to removal.
pub struct AtriState {
    entries: Vec<(i64, State)>,
}

/// The state a sequence of entries associates with `chat`: the first entry
/// with that key, or idle when there is none.
spec fn lookup(s: Seq<(i64, StateView)>, chat: i64) -> StateView
    decreases s.len(),
{
    if s.len() == 0 {
        StateView::Start
    } else if s[0].0 == chat {
        s[0].1
    } else {
        lookup(s.drop_first(), chat)
    }
}

/// The views of the stored entries.
spec fn entry_views(s: Seq<(i64, State)>) -> Seq<(i64, StateView)> {
    s.map_values(|e: (i64, State)| (e.0, e.1@))
}

impl AtriState {
    /// The total map the store denotes.
    pub closed spec fn state_of(self, chat: i64) -> StateView {
        lookup(entry_views(self.entries@), chat)
    }

    /// An empty store: every chat is idle.
    pub fn new() -> (r: AtriState)
        ensures
            forall|chat: i64| r.state_of(chat) == StateView::Start,
    {
        AtriState { entries: Vec::new() }
    }

    /// The dialogue state of `chat`.
    pub fn get(&self, chat: i64) -> (r: State)
        ensures
            r@ == self.state_of(chat),
    {
        proof {
            assert(entry_views(self.entries@).skip(0) =~= entry_views(self.entries@));
        }
        let mut i: usize = 0;
        while i < self.entries.len()
            invariant
                i <= self.entries@.len(),
                lookup(entry_views(self.entries@), chat) == lookup(
                    entry_views(self.entries@).skip(i as int),
                    chat,
                ),
            decreases self.entries@.len() - i,
        {
            proof {
                assert(entry_views(self.entries@)[i as int] == (
                    self.entries@[i as int].0,
                    self.entries@[i as int].1@,
                ));
                assert(entry_views(self.entries@).skip(i as int)[0] == entry_views(
                    self.entries@,
                )[i as int]);
                assert(entry_views(self.entries@).skip(i as int).drop_first() =~= entry_views(
                    self.entries@,
                ).skip(i + 1));
            }
            if self.entries[i].0 == chat {
                return self.entries[i].1.duplicate();
            }
            i += 1;
        }
        proof {
            assert(entry_views(self.entries@).skip(i as int).len() == 0);
        }
        State::Start
    }

    /// Overwrites the dialogue state of `chat`, touching no other chat.
    pub fn put(&mut self, chat: i64, st: State)
        ensures
            final(self).state_of(chat) == st@,
            forall|other: i64| other != chat ==> final(self).state_of(other) == old(
                self,
            ).state_of(other),
    {
        let ghost st_view = st@;
        let mut i: usize = 0;
        while i < self.entries.len()
            invariant
                i <= self.entries@.len(),
                self.entries@ == old(self).entries@,
                st_view == st@,
                forall|j: int| 0 <= j < i ==> (#[trigger] self.entries@[j]).0 != chat,
            decreases self.entries@.len() - i,
        {
            if self.entries[i].0 == chat {
                proof {
                    assert(forall|j: int|
                        0 <= j < entry_views(old(self).entries@).len() ==> (
                        #[trigger] entry_views(old(self).entries@)[j]) == (
                        old(self).entries@[j].0,
                        old(self).entries@[j].1@,
                        ));
                }
                self.entries.set(i, (chat, st));
                proof {
                    lemma_lookup_set(entry_views(old(self).entries@), i as int, chat, st_view);
                    assert(entry_views(self.entries@) =~= entry_views(old(self).entries@).update(
                        i as int,
                        (chat, st_view),
                    ));
                }
                return ;
            }
            i += 1;
        }
        proof {
            assert(forall|j: int|
                0 <= j < entry_views(old(self).entries@).len() ==> (#[trigger] entry_views(
                    old(self).entries@,
                )[j]) == (old(self).entries@[j].0, old(self).entries@[j].1@));
        }
        self.entries.push((chat, st));
        proof {
            lemma_lookup_push(entry_views(old(self).entries@), chat, st_view);
            assert(entry_views(self.entries@) =~= entry_views(old(self).entries@).push((
                chat,
                st_view,
            )));
        }
    }
}

/// Replacing the first entry for `chat` makes `chat` read as the new state
/// and changes no other chat.
proof fn lemma_lookup_set(s: Seq<(i64, StateView)>, i: int, chat: i64, st: StateView)
    requires
        0 <= i < s.len(),
        s[i].0 == chat,
        forall|j: int| 0 <= j < i ==> s[j].0 != chat,
    ensures
        lookup(s.update(i, (chat, st)), chat) == st,
        forall|other: i64| other != chat ==> lookup(s.update(i, (chat, st)), other) == lookup(
            s,
            other,
        ),
    decreases s.len(),
{
    let p = s.update(i, (chat, st));
    if i == 0 {
        assert(p[0] == (chat, st));
        assert(lookup(p, chat) == st);
        assert forall|other: i64| other != chat implies lookup(p, other) == lookup(s, other) by {
            assert(p.drop_first() =~= s.drop_first());
            assert(lookup(p, other) == lookup(p.drop_first(), other));
            assert(lookup(s, other) == lookup(s.drop_first(), other));
        }
    } else {
        assert(forall|j: int|
            0 <= j < s.drop_first().len() ==> (#[trigger] s.drop_first()[j]) == s[j + 1]);
        lemma_lookup_set(s.drop_first(), i - 1, chat, st);
        assert(p[0] == s[0]);
        assert(p.drop_first() =~= s.drop_first().update(i - 1, (chat, st)));
        assert(s[0].0 != chat);
        assert(lookup(p, chat) == lookup(p.drop_first(), chat));
        assert(lookup(p, chat) == st);
        assert forall|other: i64| other != chat implies lookup(p, other) == lookup(s, other) by {
            if s[0].0 == other {
                assert(lookup(p, other) == s[0].1);
                assert(lookup(s, other) == s[0].1);
            } else {
                assert(lookup(p, other) == lookup(p.drop_first(), other));
                assert(lookup(s, other) == lookup(s.drop_first(), other));
            }
        }
    }
}

/// Appending an entry for a chat that has none makes that chat read as the
/// new state and changes no other chat.
proof fn lemma_lookup_push(s: Seq<(i64, StateView)>, chat: i64, st: StateView)
    requires
        forall|j: int| 0 <= j < s.len() ==> s[j].0 != chat,
    ensures
        lookup(s.push((chat, st)), chat) == st,
        forall|other: i64| other != chat ==> lookup(s.push((chat, st)), other) == lookup(s, other),
    decreases s.len(),
{
    let p = s.push((chat, st));
    if s.len() == 0 {
        assert(p[0] == (chat, st));
        assert(lookup(p, chat) == st);
        assert forall|other: i64| other != chat implies lookup(p, other) == lookup(s, other) by {
            assert(p.drop_first() =~= Seq::<(i64, StateView)>::empty());
            assert(lookup(p, other) == lookup(p.drop_first(), other));
            assert(lookup(p.drop_first(), other) == StateView::Start);
            assert(lookup(s, other) == StateView::Start);
        }
    } else {
        assert(forall|j: int|
            0 <= j < s.drop_first().len() ==> (#[trigger] s.drop_first()[j]) == s[j + 1]);
        lemma_lookup_push(s.drop_first(), chat, st);
        assert(p[0] == s[0]);
        assert(p.drop_first() =~= s.drop_first().push((chat, st)));
        assert(s[0].0 != chat);
        assert(lookup(p, chat) == lookup(p.drop_first(), chat));
        assert(lookup(p, chat) == st);
        assert forall|other: i64| other != chat implies lookup(p, other) == lookup(s, other) by {
            if s[0].0 == other {
                assert(lookup(p, other) == s[0].1);
                assert(lookup(s, other) == s[0].1);
            } else {
                assert(lookup(p, other) == lookup(p.drop_first(), other));
                assert(lookup(s, other) == lookup(s.drop_first(), other));
            }
        }
    }
}

/// What `put` promises, as a relation between the store before and after:
/// the written chat reads as the new state, every other chat is untouched.
pub open spec fn put_sem(pre: AtriState, chat: i64, st: StateView, post: AtriState) -> bool {
    &&& post.state_of(chat) == st
    &&& forall|other: i64| other != chat ==> post.state_of(other) == pre.state_of(other)
}

/// Law: chats are independent. Writes to two distinct chats commute: every
/// chat reads the same whichever of the two writes happened first, so the
/// state traces of concurrent per-chat dialogues interleave serially and
/// never contaminate each other.
pub proof fn lemma_distinct_puts_commute(
    s0: AtriState,
    a: i64,
    x: StateView,
    b: i64,
    y: StateView,
    s_a: AtriState,
    s_ab: AtriState,
    s_b: AtriState,
    s_ba: AtriState,
)
    requires
        a != b,
        put_sem(s0, a, x, s_a),
        put_sem(s_a, b, y, s_ab),
        put_sem(s0, b, y, s_b),
        put_sem(s_b, a, x, s_ba),
    ensures
        forall|chat: i64| s_ab.state_of(chat) == s_ba.state_of(chat),
{
}

} // verus!
