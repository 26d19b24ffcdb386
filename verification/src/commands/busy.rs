//! Which conversations are being answered.

use vstd::prelude::*;

use crate::clock::new_uuid;
use crate::text::concat2;
use crate::text::{copy_str, str_eq};

verus! {

/// The runs that are going on, each with its conversation.
#[derive(Debug)]
pub struct ActiveReplies {
    runs: Vec<(String, String)>,
}

/// A conversation and a run of it.
pub type RunKey = (Seq<char>, Seq<char>);

/// The runs of a list, in order.
pub open spec fn run_keys(v: Seq<(String, String)>) -> Seq<RunKey> {
    Seq::new(v.len(), |i: int| (v[i].0@, v[i].1@))
}

/// A run of the conversation is going on.
pub open spec fn is_busy(runs: Set<RunKey>, conversation_id: Seq<char>) -> bool {
    exists|run_id: Seq<char>| #[trigger] runs.contains((conversation_id, run_id))
}

/// The run that keeps a conversation while a message is sent.
pub open spec fn reservation(unique: Seq<char>) -> Seq<char> {
    "chat-send-reservation-"@ + unique
}

impl View for ActiveReplies {
    type V = Set<RunKey>;

    closed spec fn view(&self) -> Set<RunKey> {
        run_keys(self.runs@).to_set()
    }
}

impl ActiveReplies {
    /// Nothing is going on.
    pub fn new() -> (r: ActiveReplies)
        ensures
            r@ == Set::<RunKey>::empty(),
    {
        let r = ActiveReplies { runs: Vec::new() };
        assert(r@ =~= Set::<RunKey>::empty());
        r
    }

    /// Whether a run of the conversation is going on.
    pub fn conversation_has_active_reply(&self, conversation_id: &str) -> (r: bool)
        ensures
            r == is_busy(self@, conversation_id@),
    {
        let ghost keys = run_keys(self.runs@);
        let mut i: usize = 0;
        while i < self.runs.len()
            invariant
                i <= self.runs@.len(),
                keys == run_keys(self.runs@),
                forall|j: int| 0 <= j < i ==> (#[trigger] keys[j]).0 != conversation_id@,
            decreases self.runs@.len() - i,
        {
            if str_eq(self.runs[i].0.as_str(), conversation_id) {
                proof {
                    assert(keys[i as int] == (conversation_id@, self.runs@[i as int].1@));
                    assert(self@.contains((conversation_id@, self.runs@[i as int].1@)));
                }
                return true;
            }
            i += 1;
        }
        proof {
            if is_busy(self@, conversation_id@) {
                let run_id = choose|run_id: Seq<char>|
                    #[trigger] self@.contains((conversation_id@, run_id));
                let j = choose|j: int|
                    0 <= j < keys.len() && keys[j] == (conversation_id@, run_id);
                assert(keys[j].0 == conversation_id@);
            }
        }
        false
    }

    fn holds(&self, conversation_id: &str, run_id: &str) -> (r: bool)
        ensures
            r == self@.contains((conversation_id@, run_id@)),
    {
        let ghost keys = run_keys(self.runs@);
        let mut i: usize = 0;
        while i < self.runs.len()
            invariant
                i <= self.runs@.len(),
                keys == run_keys(self.runs@),
                forall|j: int| 0 <= j < i ==> #[trigger] keys[j] != (conversation_id@, run_id@),
            decreases self.runs@.len() - i,
        {
            if str_eq(self.runs[i].0.as_str(), conversation_id) && str_eq(
                self.runs[i].1.as_str(),
                run_id,
            ) {
                assert(keys[i as int] == (conversation_id@, run_id@));
                return true;
            }
            i += 1;
        }
        false
    }

    fn note(&mut self, conversation_id: &str, run_id: &str)
        ensures
            final(self)@ == old(self)@.insert((conversation_id@, run_id@)),
    {
        let ghost before = self.runs@;
        let ghost key = (conversation_id@, run_id@);
        self.runs.push((copy_str(conversation_id), copy_str(run_id)));
        proof {
            let keys = run_keys(self.runs@);
            let old_keys = run_keys(before);
            assert(keys =~= old_keys.push(key));
            assert forall|k: RunKey|
                self@.contains(k) == old(self)@.insert(key).contains(k) by {
                if old_keys.contains(k) {
                    let j = choose|j: int| 0 <= j < old_keys.len() && old_keys[j] == k;
                    assert(keys[j] == k);
                }
                assert(keys[before.len() as int] == key);
            }
            assert(self@ =~= old(self)@.insert(key));
        }
    }

    /// Notes a run; one that is going on already is not noted again.
    pub fn try_begin_chat_reply(&mut self, conversation_id: &str, run_id: &str) -> (r: bool)
        ensures
            r == !old(self)@.contains((conversation_id@, run_id@)),
            final(self)@ == old(self)@.insert((conversation_id@, run_id@)),
    {
        if self.holds(conversation_id, run_id) {
            assert(self@ =~= self@.insert((conversation_id@, run_id@)));
            return false;
        }
        self.note(conversation_id, run_id);
        true
    }

    /// Keeps a conversation for one message, unless it is being answered.
    pub fn try_acquire(&mut self, conversation_id: &str) -> (r: Option<String>)
        ensures
            match r {
                None => is_busy(old(self)@, conversation_id@) && final(self)@ == old(self)@,
                Some(run_id) => !is_busy(old(self)@, conversation_id@) && final(self)@ == old(
                    self,
                )@.insert((conversation_id@, run_id@)) && exists|unique: Seq<char>|
                    run_id@ == #[trigger] reservation(unique),
            },
    {
        if self.conversation_has_active_reply(conversation_id) {
            return None;
        }
        let unique = new_uuid();
        let run_id = concat2("chat-send-reservation-", unique.as_str());
        assert(run_id@ == reservation(unique@));
        self.note(conversation_id, run_id.as_str());
        Some(run_id)
    }

    /// The run is over.
    pub fn end_chat_reply(&mut self, conversation_id: &str, run_id: &str)
        ensures
            final(self)@ == old(self)@.remove((conversation_id@, run_id@)),
    {
        let ghost start = self.runs@;
        let ghost keys = run_keys(start);
        let ghost key = (conversation_id@, run_id@);
        let mut kept: Vec<(String, String)> = Vec::new();
        let mut i: usize = 0;
        while i < self.runs.len()
            invariant
                i <= self.runs@.len(),
                self.runs@ == start,
                keys == run_keys(start),
                key == (conversation_id@, run_id@),
                forall|k: RunKey|
                    #[trigger] run_keys(kept@).contains(k) == (k != key && keys.take(
                        i as int,
                    ).contains(k)),
            decreases self.runs@.len() - i,
        {
            let same = str_eq(self.runs[i].0.as_str(), conversation_id) && str_eq(
                self.runs[i].1.as_str(),
                run_id,
            );
            let ghost before = kept@;
            let ghost here = keys[i as int];
            if !same {
                kept.push((copy_str(self.runs[i].0.as_str()), copy_str(self.runs[i].1.as_str())));
            }
            proof {
                assert(keys.take(i + 1) =~= keys.take(i as int).push(here));
                assert(same == (here == key));
                if !same {
                    assert(run_keys(kept@) =~= run_keys(before).push(here));
                }
                assert forall|k: RunKey|
                    #[trigger] run_keys(kept@).contains(k) == (k != key && keys.take(
                        i + 1,
                    ).contains(k)) by {
                    lemma_push_contains(keys.take(i as int), here, k);
                    lemma_push_contains(run_keys(before), here, k);
                }
            }
            i += 1;
        }
        self.runs = kept;
        proof {
            assert(keys.take(keys.len() as int) =~= keys);
            assert forall|k: RunKey| self@.contains(k) == old(self)@.remove(key).contains(k) by {
                assert(run_keys(self.runs@).contains(k) == (k != key && keys.contains(k)));
            }
            assert(self@ =~= old(self)@.remove(key));
        }
    }
}

proof fn lemma_push_contains(s: Seq<RunKey>, x: RunKey, k: RunKey)
    ensures
        s.push(x).contains(k) == (s.contains(k) || x == k),
{
    if s.contains(k) {
        let j = choose|j: int| 0 <= j < s.len() && s[j] == k;
        assert(s.push(x)[j] == k);
    }
    assert(s.push(x)[s.len() as int] == x);
    if s.push(x).contains(k) {
        let j = choose|j: int| 0 <= j < s.push(x).len() && s.push(x)[j] == k;
        if j < s.len() {
            assert(s[j] == k);
        }
    }
}

/// A conversation that is kept for one message takes no second one, and it is free
/// again once the run that kept it is over and no other has begun.
pub proof fn law_one_message_at_a_time(
    runs: Set<RunKey>,
    conversation_id: Seq<char>,
    run_id: Seq<char>,
)
    requires
        !is_busy(runs, conversation_id),
    ensures
        is_busy(runs.insert((conversation_id, run_id)), conversation_id),
        !is_busy(
            runs.insert((conversation_id, run_id)).remove((conversation_id, run_id)),
            conversation_id,
        ),
{
    let key = (conversation_id, run_id);
    assert(runs.insert(key).contains((conversation_id, run_id)));
    let after = runs.insert(key).remove(key);
    if is_busy(after, conversation_id) {
        let other = choose|other: Seq<char>| #[trigger] after.contains((conversation_id, other));
        assert(runs.contains((conversation_id, other)));
    }
}

} // verus!
