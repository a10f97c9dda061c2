//! The queue of actions the user goes through, and the actions on offer.
use vstd::prelude::*;
use std::collections::VecDeque;

verus! {

/// The state the application is in.
#[derive(Clone, Copy, Debug, PartialEq, Eq, Structural)]
pub enum ActionState {
    Idle,
    SpawnBase,
    EditBase,
}

impl Default for ActionState {
    fn default() -> (s: Self)
        ensures
            s == ActionState::Idle,
    {
        ActionState::Idle
    }
}

/// The actions waiting to be carried out: added at the front, taken from
/// the back, so the oldest action is the current one.
pub struct ActionQue {
    pub que: VecDeque<ActionState>,
}

impl View for ActionQue {
    type V = Seq<ActionState>;

    /// The actions from the newest to the oldest.
    open spec fn view(&self) -> Seq<ActionState> {
        self.que@
    }
}

/// The state the queue puts the application in: its oldest action, or
/// [ActionState::Idle] when it is empty.
pub open spec fn spec_current(q: Seq<ActionState>) -> ActionState {
    if q.len() == 0 {
        ActionState::Idle
    } else {
        q[q.len() - 1]
    }
}

impl Default for ActionQue {
    fn default() -> (q: Self)
        ensures
            q@ == Seq::<ActionState>::empty(),
    {
        ActionQue { que: VecDeque::new() }
    }
}

impl ActionQue {
    /// An empty queue.
    pub fn new() -> (q: Self)
        ensures
            q@ == Seq::<ActionState>::empty(),
    {
        ActionQue { que: VecDeque::new() }
    }

    /// Drops the current (oldest) action, if any.
    pub fn next(&mut self)
        ensures
            final(self)@ == (if old(self)@.len() == 0 {
                old(self)@
            } else {
                old(self)@.drop_last()
            }),
    {
        let _ = self.que.pop_back();
    }

    /// Queues an action behind the ones already waiting.
    pub fn add(&mut self, state: ActionState)
        ensures
            final(self)@ == seq![state] + old(self)@,
    {
        self.que.push_front(state);
    }

    /// The state the queue puts the application in.
    pub fn current(&self) -> (s: ActionState)
        ensures
            s == spec_current(self@),
    {
        let n = self.que.len();
        if n == 0 {
            ActionState::Idle
        } else {
            self.que[n - 1]
        }
    }
}

/// The queue is first in, first out: an action added to an empty queue is
/// the current one, an action added to a non-empty queue leaves the current
/// one as it is, and dropping the current action of a non-empty queue keeps
/// the newly added one waiting.
pub proof fn lemma_queue_fifo(q: Seq<ActionState>, a: ActionState)
    ensures
        spec_current(seq![a] + q) == (if q.len() == 0 {
            a
        } else {
            spec_current(q)
        }),
        q.len() > 0 ==> (seq![a] + q).drop_last() == seq![a] + q.drop_last(),
{
    if q.len() > 0 {
        assert((seq![a] + q).drop_last() =~= seq![a] + q.drop_last());
    }
}

/// The queue the application starts with: spawning a base.
pub fn initial_que() -> (q: ActionQue)
    ensures
        q@ == seq![ActionState::SpawnBase],
{
    let mut que = ActionQue::new();
    que.add(ActionState::SpawnBase);
    assert(que@ =~= seq![ActionState::SpawnBase]);
    que
}

/// The actions offered in the action panel.
#[derive(Clone, Copy, Debug, PartialEq, Eq, Structural)]
pub enum Actions {
    AddBase,
    ResizeBaze,
}

/// The label of an action.
pub open spec fn spec_action_label(a: Actions) -> Seq<char> {
    match a {
        Actions::AddBase => "Add Base"@,
        Actions::ResizeBaze => "Resize Base"@,
    }
}

impl Actions {
    /// The label of the action.
    pub fn to_string(&self) -> (s: String)
        ensures
            s@ == spec_action_label(*self),
    {
        match self {
            Actions::AddBase => String::from_str("Add Base"),
            Actions::ResizeBaze => String::from_str("Resize Base"),
        }
    }
}

/// The actions the application offers: adding and resizing a base.
pub fn action_list() -> (v: Vec<Actions>)
    ensures
        v@ == seq![Actions::AddBase, Actions::ResizeBaze],
{
    let v = vec![Actions::AddBase, Actions::ResizeBaze];
    assert(v@ =~= seq![Actions::AddBase, Actions::ResizeBaze]);
    v
}

} // verus!
