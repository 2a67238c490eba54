//! The password loop that unlocks an encrypted key, as a state machine. The
//! caller performs each action (prompting, trying a password, reporting a
//! wrong one) and hands back what came of it as the next event.
use vstd::prelude::*;

verus! {

/// Where an unlock session stands.
#[derive(Clone, Copy, Debug, PartialEq, Eq, Structural)]
pub enum UnlockState {
    Prompting,
    Attempting,
    Unlocked,
    Cancelled,
}

/// What came of the last action.
#[derive(Clone, Copy, Debug, PartialEq, Eq, Structural)]
pub enum UnlockEvent {
    /// The prompt returned a password.
    PasswordEntered,
    /// The user interrupted the prompt.
    PromptCancelled,
    /// The password decrypted the key.
    KeyDecrypted,
    /// The password did not decrypt the key.
    WrongPassword,
}

/// What the caller does next.
#[derive(Clone, Copy, Debug, PartialEq, Eq, Structural)]
pub enum UnlockAction {
    /// Ask for a password.
    Prompt,
    /// Try the password just entered against the key.
    TryPassword,
    /// Tell the user the password was wrong, then ask again.
    ReportWrongPassword,
    /// Stop: the key is unlocked.
    Finish,
    /// Stop: the user cancelled.
    Abort,
    /// The event does not apply in this state; nothing changes.
    Ignore,
}

/// The state after `e` in state `s`. Terminal states absorb every event.
pub open spec fn next_state(s: UnlockState, e: UnlockEvent) -> UnlockState {
    match (s, e) {
        (UnlockState::Prompting, UnlockEvent::PasswordEntered) => UnlockState::Attempting,
        (UnlockState::Prompting, UnlockEvent::PromptCancelled) => UnlockState::Cancelled,
        (UnlockState::Attempting, UnlockEvent::KeyDecrypted) => UnlockState::Unlocked,
        (UnlockState::Attempting, UnlockEvent::WrongPassword) => UnlockState::Prompting,
        _ => s,
    }
}

/// What the caller does after `e` in state `s`.
pub open spec fn next_action(s: UnlockState, e: UnlockEvent) -> UnlockAction {
    match (s, e) {
        (UnlockState::Prompting, UnlockEvent::PasswordEntered) => UnlockAction::TryPassword,
        (UnlockState::Prompting, UnlockEvent::PromptCancelled) => UnlockAction::Abort,
        (UnlockState::Attempting, UnlockEvent::KeyDecrypted) => UnlockAction::Finish,
        (UnlockState::Attempting, UnlockEvent::WrongPassword) => UnlockAction::ReportWrongPassword,
        _ => UnlockAction::Ignore,
    }
}

/// The state reached from `s` through the events `es`, in order.
pub open spec fn run_events(s: UnlockState, es: Seq<UnlockEvent>) -> UnlockState
    decreases es.len(),
{
    if es.len() == 0 {
        s
    } else {
        next_state(run_events(s, es.drop_last()), es.last())
    }
}

/// `k` rounds of a password that does not decrypt the key.
pub open spec fn wrong_rounds(k: nat) -> Seq<UnlockEvent>
    decreases k,
{
    if k == 0 {
        seq![]
    } else {
        wrong_rounds((k - 1) as nat) + seq![UnlockEvent::PasswordEntered, UnlockEvent::WrongPassword]
    }
}

/// The state a new unlock session starts in.
pub fn start() -> (r: (UnlockState, UnlockAction))
    ensures
        r == (UnlockState::Prompting, UnlockAction::Prompt),
{
    (UnlockState::Prompting, UnlockAction::Prompt)
}

/// One transition of the unlock session.
pub fn unlock_step(s: UnlockState, e: UnlockEvent) -> (r: (UnlockState, UnlockAction))
    ensures
        r.0 == next_state(s, e),
        r.1 == next_action(s, e),
{
    match (s, e) {
        (UnlockState::Prompting, UnlockEvent::PasswordEntered) => (UnlockState::Attempting, UnlockAction::TryPassword),
        (UnlockState::Prompting, UnlockEvent::PromptCancelled) => (UnlockState::Cancelled, UnlockAction::Abort),
        (UnlockState::Attempting, UnlockEvent::KeyDecrypted) => (UnlockState::Unlocked, UnlockAction::Finish),
        (UnlockState::Attempting, UnlockEvent::WrongPassword) => (UnlockState::Prompting, UnlockAction::ReportWrongPassword),
        _ => (s, UnlockAction::Ignore),
    }
}

/// The state reached from `s` through the events `es`, in order.
pub fn run_unlock(s: UnlockState, es: &Vec<UnlockEvent>) -> (r: UnlockState)
    ensures
        r == run_events(s, es@),
{
    let mut cur = s;
    let mut i: usize = 0;
    while i < es.len()
        invariant
            i <= es@.len(),
            cur == run_events(s, es@.subrange(0, i as int)),
        decreases es@.len() - i,
    {
        proof {
            assert(es@.subrange(0, i + 1).drop_last() =~= es@.subrange(0, i as int));
        }
        cur = unlock_step(cur, es[i]).0;
        i = i + 1;
    }
    proof {
        assert(es@.subrange(0, es@.len() as int) =~= es@);
    }
    cur
}

proof fn lemma_run_one(s: UnlockState, e: UnlockEvent)
    ensures
        run_events(s, seq![e]) == next_state(s, e),
{
    assert(seq![e].drop_last() =~= Seq::<UnlockEvent>::empty());
    assert(run_events(s, Seq::<UnlockEvent>::empty()) == s);
    assert(seq![e].last() == e);
    assert(seq![e].len() == 1);
}

proof fn lemma_run_two(s: UnlockState, e: UnlockEvent, f: UnlockEvent)
    ensures
        run_events(s, seq![e, f]) == next_state(next_state(s, e), f),
{
    lemma_run_one(s, e);
    assert(seq![e, f].drop_last() =~= seq![e]);
    assert(seq![e, f].last() == f);
}

proof fn lemma_run_concat(s: UnlockState, a: Seq<UnlockEvent>, b: Seq<UnlockEvent>)
    ensures
        run_events(s, a + b) == run_events(run_events(s, a), b),
    decreases b.len(),
{
    if b.len() == 0 {
        assert(a + b =~= a);
    } else {
        lemma_run_concat(s, a, b.drop_last());
        assert((a + b).drop_last() =~= a + b.drop_last());
    }
}

proof fn lemma_wrong_rounds(k: nat)
    ensures
        run_events(UnlockState::Prompting, wrong_rounds(k)) == UnlockState::Prompting,
        forall|n: int|
            0 <= n <= wrong_rounds(k).len() ==> run_events(
                UnlockState::Prompting,
                #[trigger] wrong_rounds(k).subrange(0, n),
            ) != UnlockState::Unlocked && run_events(UnlockState::Prompting, wrong_rounds(k).subrange(0, n))
                != UnlockState::Cancelled,
    decreases k,
{
    let w = wrong_rounds(k);
    if k == 0 {
        assert forall|n: int| 0 <= n <= w.len() implies run_events(UnlockState::Prompting, #[trigger] w.subrange(0, n))
            == UnlockState::Prompting by {
            assert(w.subrange(0, n) =~= Seq::<UnlockEvent>::empty());
        }
    } else {
        let p = wrong_rounds((k - 1) as nat);
        let round = seq![UnlockEvent::PasswordEntered, UnlockEvent::WrongPassword];
        lemma_wrong_rounds((k - 1) as nat);
        lemma_run_concat(UnlockState::Prompting, p, round);
        lemma_run_two(UnlockState::Prompting, UnlockEvent::PasswordEntered, UnlockEvent::WrongPassword);
        lemma_run_one(UnlockState::Prompting, UnlockEvent::PasswordEntered);
        assert(run_events(UnlockState::Prompting, round) == UnlockState::Prompting);
        assert forall|n: int| 0 <= n <= w.len() implies run_events(UnlockState::Prompting, #[trigger] w.subrange(0, n))
            != UnlockState::Unlocked && run_events(UnlockState::Prompting, w.subrange(0, n)) != UnlockState::Cancelled by {
            if n <= p.len() {
                assert(w.subrange(0, n) =~= p.subrange(0, n));
            } else if n == p.len() + 1 {
                assert(w.subrange(0, n) =~= p + seq![UnlockEvent::PasswordEntered]);
                lemma_run_concat(UnlockState::Prompting, p, seq![UnlockEvent::PasswordEntered]);
            } else {
                assert(w.subrange(0, n) =~= w);
            }
        }
    }
}

/// However many wrong passwords come first, the session keeps prompting, and
/// the first password that decrypts the key unlocks it.
pub proof fn lemma_retry_until_unlocked(k: nat)
    ensures
        run_events(UnlockState::Prompting, wrong_rounds(k)) == UnlockState::Prompting,
        run_events(
            UnlockState::Prompting,
            wrong_rounds(k) + seq![UnlockEvent::PasswordEntered, UnlockEvent::KeyDecrypted],
        ) == UnlockState::Unlocked,
{
    let ok = seq![UnlockEvent::PasswordEntered, UnlockEvent::KeyDecrypted];
    lemma_wrong_rounds(k);
    lemma_run_concat(UnlockState::Prompting, wrong_rounds(k), ok);
    lemma_run_two(UnlockState::Prompting, UnlockEvent::PasswordEntered, UnlockEvent::KeyDecrypted);
}

/// A session cancelled after any number of wrong passwords ends cancelled and
/// is never unlocked on the way.
pub proof fn lemma_cancel_never_unlocks(k: nat)
    ensures
        run_events(UnlockState::Prompting, wrong_rounds(k) + seq![UnlockEvent::PromptCancelled])
            == UnlockState::Cancelled,
        forall|n: int|
            0 <= n <= wrong_rounds(k).len() + 1 ==> run_events(
                UnlockState::Prompting,
                #[trigger] (wrong_rounds(k) + seq![UnlockEvent::PromptCancelled]).subrange(0, n),
            ) != UnlockState::Unlocked,
{
    let w = wrong_rounds(k);
    let es = w + seq![UnlockEvent::PromptCancelled];
    lemma_wrong_rounds(k);
    lemma_run_concat(UnlockState::Prompting, w, seq![UnlockEvent::PromptCancelled]);
    lemma_run_one(UnlockState::Prompting, UnlockEvent::PromptCancelled);
    assert forall|n: int| 0 <= n <= w.len() + 1 implies run_events(UnlockState::Prompting, #[trigger] es.subrange(0, n))
        != UnlockState::Unlocked by {
        if n <= w.len() {
            assert(es.subrange(0, n) =~= w.subrange(0, n));
        } else {
            assert(es.subrange(0, n) =~= es);
        }
    }
}

} // verus!
