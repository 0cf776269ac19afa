//! The history of a multi-turn conversation, bounded by a token budget.
//!
//! Each message is stored with its token cost, which the caller computes
//! with the tokenizer of its choice. After every append the oldest messages
//! are evicted until the total cost fits the window.
use crate::model::{CompletionMessage, CompletionRole, system_preamble};
use std::collections::VecDeque;
use vstd::prelude::*;

verus! {

/// Total cost of `cs`.
pub open spec fn total(cs: Seq<usize>) -> int
    decreases cs.len(),
{
    if cs.len() == 0 {
        0
    } else {
        cs[0] + total(cs.drop_first())
    }
}

/// How many of the oldest entries must go for the rest to cost at most `w`.
pub open spec fn evicted(cs: Seq<usize>, w: nat) -> nat
    decreases cs.len(),
{
    if cs.len() == 0 || total(cs) <= w {
        0
    } else {
        1 + evicted(cs.drop_first(), w)
    }
}

proof fn lemma_total_push(cs: Seq<usize>, c: usize)
    ensures
        total(cs.push(c)) == total(cs) + c,
    decreases cs.len(),
{
    if cs.len() > 0 {
        lemma_total_push(cs.drop_first(), c);
        assert(cs.push(c).drop_first() =~= cs.drop_first().push(c));
        assert(cs.push(c)[0] == cs[0]);
    } else {
        assert(cs.push(c).drop_first() =~= Seq::<usize>::empty());
        assert(cs.push(c)[0] == c);
        assert(total(Seq::<usize>::empty()) == 0);
    }
}

proof fn lemma_total_nonneg(cs: Seq<usize>)
    ensures
        total(cs) >= 0,
    decreases cs.len(),
{
    if cs.len() > 0 {
        lemma_total_nonneg(cs.drop_first());
    }
}

/// Eviction keeps the longest suffix that fits: what remains costs at most
/// `w`, and every longer suffix costs more than `w`.
pub proof fn lemma_eviction_fits(cs: Seq<usize>, w: nat)
    ensures
        evicted(cs, w) <= cs.len(),
        total(cs.skip(evicted(cs, w) as int)) <= w,
        forall|j: int| 0 <= j < evicted(cs, w) ==> total(#[trigger] cs.skip(j)) > w,
    decreases cs.len(),
{
    if cs.len() == 0 || total(cs) <= w {
        assert(cs.skip(0) =~= cs);
    } else {
        let rest = cs.drop_first();
        lemma_eviction_fits(rest, w);
        assert(cs.skip(evicted(cs, w) as int) =~= rest.skip(evicted(rest, w) as int));
        assert forall|j: int| 0 <= j < evicted(cs, w) implies total(#[trigger] cs.skip(j)) > w by {
            if j == 0 {
                assert(cs.skip(0) =~= cs);
            } else {
                assert(cs.skip(j) =~= rest.skip(j - 1));
            }
        }
    }
}

/// A message that costs more than the whole window cannot stay: after it is
/// appended the window is empty.
pub proof fn lemma_oversized_message_empties_window(cs: Seq<usize>, c: usize, w: nat)
    requires
        c > w,
    ensures
        evicted(cs.push(c), w) == cs.len() + 1,
    decreases cs.len(),
{
    let all = cs.push(c);
    lemma_total_push(cs, c);
    lemma_total_nonneg(cs);
    assert(total(all) > w);
    if cs.len() == 0 {
        assert(all.drop_first() =~= Seq::<usize>::empty());
        assert(evicted(all.drop_first(), w) == 0);
    } else {
        lemma_oversized_message_empties_window(cs.drop_first(), c, w);
        assert(all.drop_first() =~= cs.drop_first().push(c));
    }
}

/// Appending a message that fits the window evicts only older messages: the
/// new message always stays, and what remains fits the window.
pub proof fn lemma_fitting_message_stays(cs: Seq<usize>, c: usize, w: nat)
    requires
        c <= w,
    ensures
        evicted(cs.push(c), w) <= cs.len(),
        total(cs.push(c).skip(evicted(cs.push(c), w) as int)) <= w,
    decreases cs.len(),
{
    let all = cs.push(c);
    lemma_eviction_fits(all, w);
    if evicted(all, w) == all.len() {
        // the last suffix before the empty one is the new message alone
        let j = cs.len() as int;
        assert(all.skip(j) =~= seq![c]);
        assert(seq![c].drop_first() =~= Seq::<usize>::empty());
        assert(total(seq![c]) == c + total(Seq::<usize>::empty()));
        assert(total(all.skip(j)) == c);
    }
}

/// The messages of a conversation, oldest first, whose total token cost
/// never exceeds the window size.
pub struct Conversation {
    window_size: usize,
    history: VecDeque<CompletionMessage>,
    costs: VecDeque<usize>,
    cost_sum: usize,
}

impl Conversation {
    pub closed spec fn wf(&self) -> bool {
        &&& self.history@.len() == self.costs@.len()
        &&& self.cost_sum == total(self.costs@)
        &&& self.cost_sum <= self.window_size
    }

    pub closed spec fn messages(&self) -> Seq<CompletionMessage> {
        self.history@
    }

    pub closed spec fn costs(&self) -> Seq<usize> {
        self.costs@
    }

    pub closed spec fn budget(&self) -> nat {
        self.window_size as nat
    }

    /// An empty conversation whose messages may cost `window_size` tokens in all.
    pub fn new(window_size: usize) -> (r: Self)
        ensures
            r.wf(),
            r.budget() == window_size,
            r.messages() == Seq::<CompletionMessage>::empty(),
            r.costs() == Seq::<usize>::empty(),
            r.messages().len() == r.costs().len(),
    {
        Conversation {
            window_size,
            history: VecDeque::new(),
            costs: VecDeque::new(),
            cost_sum: 0,
        }
    }

    pub fn window_size(&self) -> (r: usize)
        ensures
            r == self.budget(),
    {
        self.window_size
    }

    /// Number of messages held.
    pub fn len(&self) -> (r: usize)
        requires
            self.wf(),
        ensures
            r == self.messages().len(),
    {
        self.history.len()
    }

    /// Total token cost of the messages held.
    pub fn total_cost(&self) -> (r: usize)
        requires
            self.wf(),
        ensures
            r == total(self.costs()),
            r <= self.budget(),
    {
        self.cost_sum
    }

    /// Appends `message`, which costs `cost` tokens, then evicts the oldest
    /// messages, whatever their role, until the total fits the window. A
    /// message that alone exceeds the window is evicted too.
    pub fn append(&mut self, message: CompletionMessage, cost: usize)
        requires
            old(self).wf(),
        ensures
            final(self).wf(),
            final(self).budget() == old(self).budget(),
            final(self).messages().len() == final(self).costs().len(),
            ({
                let all = old(self).costs().push(cost);
                let k = evicted(all, old(self).budget()) as int;
                &&& final(self).costs() == all.skip(k)
                &&& final(self).messages() == old(self).messages().push(message).skip(k)
            }),
    {
        let ghost all_costs = self.costs@.push(cost);
        let ghost all_msgs = self.history@.push(message);
        let ghost w = self.window_size as nat;
        proof {
            lemma_total_push(self.costs@, cost);
        }
        self.history.push_back(message);
        self.costs.push_back(cost);
        let mut sum: u128 = self.cost_sum as u128 + cost as u128;
        let ghost mut dropped: int = 0;
        assert(all_costs.skip(0) =~= all_costs);
        assert(all_msgs.skip(0) =~= all_msgs);
        while sum > self.window_size as u128
            invariant
                w == self.window_size,
                0 <= dropped <= all_costs.len(),
                self.costs@ == all_costs.skip(dropped),
                self.history@ == all_msgs.skip(dropped),
                all_costs.len() == all_msgs.len(),
                sum == total(self.costs@),
                evicted(all_costs, w) == dropped + evicted(self.costs@, w),
            decreases self.costs@.len(),
        {
            let ghost cur = self.costs@;
            assert(cur.len() > 0);
            let c = self.costs.pop_front();
            let _ = self.history.pop_front();
            match c {
                Some(c) => {
                    proof {
                        lemma_total_nonneg(cur.drop_first());
                        assert(self.costs@ =~= all_costs.skip(dropped + 1));
                        assert(self.history@ =~= all_msgs.skip(dropped + 1));
                        dropped = dropped + 1;
                    }
                    sum = sum - c as u128;
                },
                None => {},
            }
        }
        assert(evicted(self.costs@, w) == 0);
        self.cost_sum = sum as usize;
    }

    /// The messages held, oldest first.
    pub fn snapshot(&self) -> (r: Vec<CompletionMessage>)
        requires
            self.wf(),
        ensures
            r@ == self.messages(),
    {
        let mut out: Vec<CompletionMessage> = Vec::new();
        let mut i: usize = 0;
        while i < self.history.len()
            invariant
                self.wf(),
                i <= self.history@.len(),
                out@ == self.history@.take(i as int),
            decreases self.history@.len() - i,
        {
            out.push(self.history[i].clone());
            i = i + 1;
            assert(out@ =~= self.history@.take(i as int));
        }
        assert(self.history@.take(i as int) =~= self.history@);
        out
    }

    /// The messages of the next request: the system message, the
    /// conversation so far, then the new user message.
    pub fn request_messages(&self, prompt: String) -> (r: Vec<CompletionMessage>)
        requires
            self.wf(),
        ensures
            r@.len() == self.messages().len() + 2,
            r@[0].role == CompletionRole::System,
            r@[0].content@ == system_preamble(),
            r@.subrange(1, r@.len() - 1) == self.messages(),
            r@.last() == (CompletionMessage { role: CompletionRole::User, content: prompt }),
    {
        let mut out: Vec<CompletionMessage> = Vec::new();
        out.push(CompletionMessage::default_system_message());
        let mut rest = self.snapshot();
        out.append(&mut rest);
        out.push(CompletionMessage::new_user_message(prompt));
        assert(out@.subrange(1, out@.len() - 1) =~= self.messages());
        out
    }
}

} // verus!
