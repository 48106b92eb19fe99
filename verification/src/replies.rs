//! The messages a draft replies to.
use vstd::prelude::*;
use crate::text::text_eq;

verus! {

/// A message being replied to, and whether the reply mentions its author.
pub struct ReplyIntent<M> {
    pub message_id: String,
    pub message: M,
    pub mention: bool,
}

/// A reply as sent with a new message.
#[derive(Debug, PartialEq, Eq)]
pub struct OutgoingReply {
    pub id: String,
    pub mention: bool,
    pub fail_if_not_exists: Option<bool>,
}

/// The replies of a draft, in the order they were added; no message appears
/// twice.
pub struct ReplyController<M> {
    replies: Vec<ReplyIntent<M>>,
}

pub open spec fn ids_distinct<M>(s: Seq<ReplyIntent<M>>) -> bool {
    forall|i: int, j: int|
        0 <= i < j < s.len() ==> #[trigger] s[i].message_id@ != #[trigger] s[j].message_id@
}

pub open spec fn has_id<M>(s: Seq<ReplyIntent<M>>, id: Seq<char>) -> bool {
    exists|i: int| 0 <= i < s.len() && #[trigger] s[i].message_id@ == id
}

pub open spec fn toggled<M>(r: ReplyIntent<M>, id: Seq<char>) -> ReplyIntent<M> {
    if r.message_id@ == id {
        ReplyIntent { mention: !r.mention, ..r }
    } else {
        r
    }
}

pub open spec fn outgoing<M>(r: ReplyIntent<M>) -> (Seq<char>, bool) {
    (r.message_id@, r.mention)
}

impl<M> View for ReplyController<M> {
    type V = Seq<ReplyIntent<M>>;

    closed spec fn view(&self) -> Seq<ReplyIntent<M>> {
        self.replies@
    }
}

impl<M> ReplyController<M> {
    #[verifier::type_invariant]
    spec fn distinct(self) -> bool {
        ids_distinct(self.replies@)
    }

    pub fn new() -> (r: Self)
        ensures
            r@ == Seq::<ReplyIntent<M>>::empty(),
            ids_distinct(r@),
    {
        ReplyController { replies: Vec::new() }
    }

    /// The current replies, in order.
    pub fn get_replies(&self) -> (r: &Vec<ReplyIntent<M>>)
        ensures
            r@ == self@,
            ids_distinct(r@),
    {
        proof {
            use_type_invariant(self);
        }
        &self.replies
    }

    fn position(&self, message_id: &str) -> (r: Option<usize>)
        ensures
            match r {
                Some(i) => i < self@.len() && self@[i as int].message_id@ == message_id@,
                None => !has_id(self@, message_id@),
            },
    {
        let mut i: usize = 0;
        while i < self.replies.len()
            invariant
                0 <= i <= self.replies.len(),
                forall|j: int| 0 <= j < i ==> (#[trigger] self.replies@[j]).message_id@ != message_id@,
            decreases self.replies.len() - i,
        {
            if text_eq(self.replies[i].message_id.as_str(), message_id) {
                return Some(i);
            }
            i = i + 1;
        }
        None
    }

    /// Flips whether the reply to `message_id` mentions its author; without
    /// such a reply nothing changes.
    pub fn toggle_mention(&mut self, message_id: &str)
        ensures
            final(self)@ == old(self)@.map_values(|r: ReplyIntent<M>| toggled(r, message_id@)),
            ids_distinct(final(self)@),
    {
        proof {
            use_type_invariant(&*self);
        }
        match self.position(message_id) {
            Some(i) => {
                let mut v: Vec<ReplyIntent<M>> = Vec::new();
                std::mem::swap(&mut v, &mut self.replies);
                let ghost before = v@;
                let b = v[i].mention;
                v[i].mention = !b;
                assert(v@ =~= before.map_values(|r: ReplyIntent<M>| toggled(r, message_id@)));
                self.replies = v;
            },
            None => {
                assert(self.replies@ =~= self.replies@.map_values(
                    |r: ReplyIntent<M>| toggled(r, message_id@),
                ));
            },
        }
    }

    /// Adds a reply to `message_id` at the end, unless the draft already
    /// replies to that message, in which case nothing changes.
    pub fn add_reply(&mut self, message_id: String, message: M, mention: bool)
        ensures
            has_id(old(self)@, message_id@) ==> final(self)@ == old(self)@,
            !has_id(old(self)@, message_id@) ==> final(self)@ == old(self)@.push(
                ReplyIntent { message_id: message_id, message: message, mention: mention },
            ),
            has_id(final(self)@, message_id@),
            ids_distinct(final(self)@),
    {
        proof {
            use_type_invariant(&*self);
        }
        match self.position(message_id.as_str()) {
            Some(i) => {
                assert(self.replies@[i as int].message_id@ == message_id@);
            },
            None => {
                let mut v: Vec<ReplyIntent<M>> = Vec::new();
                std::mem::swap(&mut v, &mut self.replies);
                let ghost id = message_id@;
                v.push(ReplyIntent { message_id, message, mention });
                assert(v@[v@.len() - 1].message_id@ == id);
                assert forall|i: int, j: int|
                    0 <= i < j < v@.len() implies #[trigger] v@[i].message_id@
                    != #[trigger] v@[j].message_id@ by {
                    if j == v@.len() - 1 {
                        assert(v@[i].message_id@ != id);
                    }
                }
                self.replies = v;
            },
        }
    }

    /// Drops the reply to `message_id`, if there is one; the others keep
    /// their order.
    pub fn remove_reply(&mut self, message_id: &str)
        ensures
            final(self)@ == old(self)@.filter(|r: ReplyIntent<M>| r.message_id@ != message_id@),
            !has_id(final(self)@, message_id@),
            ids_distinct(final(self)@),
    {
        proof {
            use_type_invariant(&*self);
        }
        let ghost keep = |r: ReplyIntent<M>| r.message_id@ != message_id@;
        match self.position(message_id) {
            Some(i) => {
                let mut v: Vec<ReplyIntent<M>> = Vec::new();
                std::mem::swap(&mut v, &mut self.replies);
                let ghost before = v@;
                let _ = v.remove(i);
                proof {
                    assert(before =~= before.take(i as int) + seq![before[i as int]] + before.skip(
                        i + 1,
                    ));
                    Seq::filter_distributes_over_add(
                        before.take(i as int) + seq![before[i as int]],
                        before.skip(i + 1),
                        keep,
                    );
                    Seq::filter_distributes_over_add(
                        before.take(i as int),
                        seq![before[i as int]],
                        keep,
                    );
                    lemma_filter_keeps_all(before.take(i as int), keep);
                    lemma_filter_keeps_all(before.skip(i + 1), keep);
                    lemma_filter_keeps_all(Seq::<ReplyIntent<M>>::empty(), keep);
                    assert(seq![before[i as int]] =~= Seq::<ReplyIntent<M>>::empty().push(
                        before[i as int],
                    ));
                    Seq::<ReplyIntent<M>>::empty().lemma_filter_push(before[i as int], keep);
                    assert(v@ =~= before.take(i as int) + before.skip(i + 1));
                }
                self.replies = v;
            },
            None => {
                proof {
                    lemma_filter_keeps_all(self.replies@, keep);
                }
            },
        }
        proof {
            old(self)@.filter_lemma(keep);
            if has_id(self.replies@, message_id@) {
                let k = choose|k: int| 0 <= k < self.replies@.len() && #[trigger] self.replies@[k].message_id@ == message_id@;
                assert(keep(self.replies@[k]));
            }
        }
    }

    /// Empties the draft's replies and gives them, in order, as they are
    /// sent: each with its message id and mention, failing if the message no
    /// longer exists.
    pub fn take_replies(&mut self) -> (r: Vec<OutgoingReply>)
        ensures
            final(self)@ == Seq::<ReplyIntent<M>>::empty(),
            r.len() == old(self)@.len(),
            forall|i: int|
                0 <= i < r.len() ==> (#[trigger] r@[i]).id@ == old(self)@[i].message_id@
                    && r@[i].mention == old(self)@[i].mention && r@[i].fail_if_not_exists
                    == Some(true),
    {
        let mut v: Vec<ReplyIntent<M>> = Vec::new();
        std::mem::swap(&mut v, &mut self.replies);
        let mut out: Vec<OutgoingReply> = Vec::new();
        let mut i: usize = 0;
        while i < v.len()
            invariant
                0 <= i <= v.len(),
                out.len() == i,
                forall|j: int|
                    0 <= j < i ==> (#[trigger] out@[j]).id@ == v@[j].message_id@ && out@[j].mention
                        == v@[j].mention && out@[j].fail_if_not_exists == Some(true),
            decreases v.len() - i,
        {
            out.push(
                OutgoingReply {
                    id: v[i].message_id.clone(),
                    mention: v[i].mention,
                    fail_if_not_exists: Some(true),
                },
            );
            i = i + 1;
        }
        out
    }
}

/// Toggling the mention of the same reply twice gives back the replies as
/// they were.
pub proof fn law_toggle_twice<M>(s: Seq<ReplyIntent<M>>, id: Seq<char>)
    ensures
        s.map_values(|r: ReplyIntent<M>| toggled(r, id)).map_values(
            |r: ReplyIntent<M>| toggled(r, id),
        ) == s,
{
    let once = s.map_values(|r: ReplyIntent<M>| toggled(r, id));
    let twice = once.map_values(|r: ReplyIntent<M>| toggled(r, id));
    assert(twice =~= s);
}

/// Adding a reply to a message the draft did not reply to, then removing
/// it, gives back the replies as they were.
pub proof fn law_add_then_remove<M>(s: Seq<ReplyIntent<M>>, r: ReplyIntent<M>)
    requires
        !has_id(s, r.message_id@),
    ensures
        s.push(r).filter(|x: ReplyIntent<M>| x.message_id@ != r.message_id@) == s,
{
    let keep = |x: ReplyIntent<M>| x.message_id@ != r.message_id@;
    s.lemma_filter_push(r, keep);
    assert forall|i: int| 0 <= i < s.len() implies keep(#[trigger] s[i]) by {
        if s[i].message_id@ == r.message_id@ {
            assert(has_id(s, r.message_id@));
        }
    }
    lemma_filter_keeps_all(s, keep);
}

/// Filtering by a predicate that every element meets keeps the sequence.
pub proof fn lemma_filter_keeps_all<A>(s: Seq<A>, p: spec_fn(A) -> bool)
    requires
        forall|i: int| 0 <= i < s.len() ==> p(#[trigger] s[i]),
    ensures
        s.filter(p) == s,
    decreases s.len(),
{
    reveal(Seq::filter);
    if s.len() > 0 {
        lemma_filter_keeps_all(s.drop_last(), p);
        assert(s.drop_last().push(s.last()) =~= s);
    }
}

} // verus!
