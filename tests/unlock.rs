use sshsign_commit::unlock::{run_unlock, start, unlock_step, UnlockAction, UnlockEvent, UnlockState};

#[test]
fn unlocks_on_third_password() {
    let (mut s, a) = start();
    assert_eq!(a, UnlockAction::Prompt);
    let mut actions = Vec::new();
    for e in [UnlockEvent::PasswordEntered, UnlockEvent::WrongPassword, UnlockEvent::PasswordEntered, UnlockEvent::WrongPassword, UnlockEvent::PasswordEntered, UnlockEvent::KeyDecrypted] {
        let (n, a) = unlock_step(s, e);
        s = n;
        actions.push(a);
    }
    assert_eq!(s, UnlockState::Unlocked);
    assert_eq!(
        actions,
        vec![
            UnlockAction::TryPassword,
            UnlockAction::ReportWrongPassword,
            UnlockAction::TryPassword,
            UnlockAction::ReportWrongPassword,
            UnlockAction::TryPassword,
            UnlockAction::Finish
        ]
    );
}

#[test]
fn cancel_after_wrong_passwords() {
    let events = vec![UnlockEvent::PasswordEntered, UnlockEvent::WrongPassword, UnlockEvent::PasswordEntered, UnlockEvent::WrongPassword, UnlockEvent::PromptCancelled];
    for n in 0..=events.len() {
        assert_ne!(run_unlock(UnlockState::Prompting, &events[..n].to_vec()), UnlockState::Unlocked);
    }
    assert_eq!(run_unlock(UnlockState::Prompting, &events), UnlockState::Cancelled);
    assert_eq!(unlock_step(UnlockState::Prompting, UnlockEvent::PromptCancelled).1, UnlockAction::Abort);
}

#[test]
fn terminal_states_absorb_events() {
    assert_eq!(
        unlock_step(UnlockState::Unlocked, UnlockEvent::PasswordEntered),
        (UnlockState::Unlocked, UnlockAction::Ignore)
    );
    assert_eq!(
        unlock_step(UnlockState::Cancelled, UnlockEvent::KeyDecrypted),
        (UnlockState::Cancelled, UnlockAction::Ignore)
    );
    assert_eq!(
        unlock_step(UnlockState::Prompting, UnlockEvent::KeyDecrypted),
        (UnlockState::Prompting, UnlockAction::Ignore)
    );
}
