//! The life of a tunnel: what is done next, given how the last thing went.
use crate::cli::Mode;
use crate::logging::Status;
use vstd::prelude::*;

verus! {

/// How a run ends.
#[derive(Clone, Copy, PartialEq, Eq, Structural, Debug)]
pub enum Outcome {
    Finished,
    /// Something failed, which the failure itself tells.
    Failed,
    /// There is no WireGuard configuration to run.
    NoWireGuard,
}

/// What is done for a tunnel.
#[derive(Clone, Copy, PartialEq, Eq, Structural, Debug)]
pub enum Action {
    /// Read and prepare the WireGuard configuration.
    Prepare,
    /// Read the certificates that the server is checked with.
    Secure,
    /// Tell that the configuration is valid.
    TellValid,
    /// Open the local port.
    Listen,
    /// Find the server, and connect to it.
    Connect,
    /// Bring the WireGuard interface up.
    StartInterface,
    /// Carry packets.
    Relay,
    /// Take the WireGuard interface down.
    StopInterface,
    /// Tell what was carried.
    Summarize,
    End(Outcome),
}

/// How an action went.
#[derive(Clone, Copy, PartialEq, Eq, Structural, Debug)]
pub enum Event {
    Done,
    /// The user asked to stop while the action was under way.
    Stopped,
    Failed,
}

/// A run of a tunnel.
#[derive(Clone, Copy, PartialEq, Eq, Structural, Debug)]
pub struct Run {
    pub mode: Mode,
    /// Whether the configuration has a WireGuard section.
    pub wireguard: bool,
    /// What is being done.
    pub doing: Action,
    /// Whether the relay failed.
    pub failed: bool,
}

impl Run {
    /// Whether the run manages a WireGuard interface.
    pub open spec fn manages(&self) -> bool {
        self.mode == Mode::Run && self.wireguard
    }
}

/// What is done first.
pub open spec fn first(mode: Mode, wireguard: bool) -> Run {
    Run {
        mode,
        wireguard,
        doing: if mode != Mode::Relay && wireguard {
            Action::Prepare
        } else {
            Action::Secure
        },
        failed: false,
    }
}

/// What is done once the certificates are read. Looking at a configuration ends there.
pub open spec fn secured(r: Run) -> Action {
    match r.mode {
        Mode::Check => Action::TellValid,
        Mode::Relay => Action::Listen,
        Mode::Run => if r.wireguard {
            Action::Listen
        } else {
            Action::End(Outcome::NoWireGuard)
        },
    }
}

/// What is done after an action that went well.
pub open spec fn following(r: Run) -> Action {
    match r.doing {
        Action::Prepare => Action::Secure,
        Action::Secure => secured(r),
        Action::TellValid => Action::End(Outcome::Finished),
        Action::Listen => Action::Connect,
        Action::Connect => if r.manages() {
            Action::StartInterface
        } else {
            Action::Relay
        },
        Action::StartInterface => Action::Relay,
        Action::Relay => if r.manages() {
            Action::StopInterface
        } else {
            Action::Summarize
        },
        Action::StopInterface => Action::Summarize,
        Action::Summarize => Action::End(
            if r.failed {
                Outcome::Failed
            } else {
                Outcome::Finished
            },
        ),
        Action::End(outcome) => Action::End(outcome),
    }
}

/// A run after an event. A relay that failed is cleaned up like one that was stopped; to be stopped
/// before the tunnel is up is to be finished.
pub open spec fn after(r: Run, event: Event) -> Run {
    match (r.doing, event) {
        (Action::End(_), _) => r,
        (Action::Relay, Event::Failed) => Run { doing: following(r), failed: true, ..r },
        (Action::TellValid, _) => Run { doing: following(r), ..r },
        (Action::Summarize, _) => Run { doing: following(r), ..r },
        (_, Event::Failed) => Run { doing: Action::End(Outcome::Failed), ..r },
        (Action::Connect, Event::Stopped) => Run { doing: Action::End(Outcome::Finished), ..r },
        (_, _) => Run { doing: following(r), ..r },
    }
}

/// The state to show while an action is under way, where it changes.
pub open spec fn shown(doing: Action) -> Option<Status> {
    match doing {
        Action::Listen => Some(Status::Connecting),
        Action::Relay => Some(Status::Connected),
        _ => None,
    }
}

impl Run {
    /// Begins a run.
    pub fn begin(mode: Mode, wireguard: bool) -> (r: Self)
        ensures
            r == first(mode, wireguard),
    {
        let doing = match mode {
            Mode::Relay => Action::Secure,
            _ => if wireguard {
                Action::Prepare
            } else {
                Action::Secure
            },
        };
        Run { mode, wireguard, doing, failed: false }
    }

    fn has_interface(&self) -> (r: bool)
        ensures
            r == self.manages(),
    {
        match self.mode {
            Mode::Run => self.wireguard,
            _ => false,
        }
    }

    fn follow(&self) -> (r: Action)
        ensures
            r == following(*self),
    {
        match self.doing {
            Action::Prepare => Action::Secure,
            Action::Secure => match self.mode {
                Mode::Check => Action::TellValid,
                Mode::Relay => Action::Listen,
                Mode::Run => if self.wireguard {
                    Action::Listen
                } else {
                    Action::End(Outcome::NoWireGuard)
                },
            },
            Action::TellValid => Action::End(Outcome::Finished),
            Action::Listen => Action::Connect,
            Action::Connect => if self.has_interface() {
                Action::StartInterface
            } else {
                Action::Relay
            },
            Action::StartInterface => Action::Relay,
            Action::Relay => if self.has_interface() {
                Action::StopInterface
            } else {
                Action::Summarize
            },
            Action::StopInterface => Action::Summarize,
            Action::Summarize => if self.failed {
                Action::End(Outcome::Failed)
            } else {
                Action::End(Outcome::Finished)
            },
            Action::End(outcome) => Action::End(outcome),
        }
    }

    /// Goes on after an action.
    pub fn next(&mut self, event: Event)
        ensures
            *final(self) == after(*old(self), event),
    {
        let next = self.follow();
        match (self.doing, event) {
            (Action::End(_), _) => {},
            (Action::Relay, Event::Failed) => {
                self.failed = true;
                self.doing = next;
            },
            (Action::TellValid, _) => {
                self.doing = next;
            },
            (Action::Summarize, _) => {
                self.doing = next;
            },
            (_, Event::Failed) => {
                self.doing = Action::End(Outcome::Failed);
            },
            (Action::Connect, Event::Stopped) => {
                self.doing = Action::End(Outcome::Finished);
            },
            (_, _) => {
                self.doing = next;
            },
        }
    }

    /// The state to show while the action is under way, where it changes.
    pub fn status(&self) -> (r: Option<Status>)
        ensures
            r == shown(self.doing),
    {
        match self.doing {
            Action::Listen => Some(Status::Connecting),
            Action::Relay => Some(Status::Connected),
            _ => None,
        }
    }
}

/// Why there is nothing to run.
pub fn no_wireguard() -> (r: &'static str)
    ensures
        r@ == "run requires a [wireguard] section"@,
{
    "run requires a [wireguard] section"
}

/// What is told of a configuration that was looked at.
pub fn valid_line() -> (r: &'static str)
    ensures
        r@ == "configuration valid; no connection or system changes made"@,
{
    "configuration valid; no connection or system changes made"
}

// ---------------------------------------------------------------- laws

/// A run after a number of events.
pub open spec fn after_all(r: Run, all: Seq<Event>) -> Run
    decreases all.len(),
{
    if all.len() == 0 {
        r
    } else {
        after(after_all(r, all.drop_last()), all.last())
    }
}

/// Whether an action reaches the network or changes the system.
pub open spec fn reaches_out(doing: Action) -> bool {
    ||| doing == Action::Listen
    ||| doing == Action::Connect
    ||| doing == Action::StartInterface
    ||| doing == Action::Relay
    ||| doing == Action::StopInterface
}

/// To look at a configuration makes no connection and changes nothing, whatever happens.
pub proof fn checking_reaches_out_to_nothing(wireguard: bool, all: Seq<Event>)
    ensures
        !reaches_out(after_all(first(Mode::Check, wireguard), all).doing),
        after_all(first(Mode::Check, wireguard), all).mode == Mode::Check,
    decreases all.len(),
{
    if all.len() > 0 {
        checking_reaches_out_to_nothing(wireguard, all.drop_last());
    }
}

/// A relay alone neither reads a WireGuard configuration nor manages an interface.
pub proof fn relaying_manages_no_interface(wireguard: bool, all: Seq<Event>)
    ensures
        ({
            let r = after_all(first(Mode::Relay, wireguard), all);
            &&& r.mode == Mode::Relay
            &&& r.doing != Action::Prepare
            &&& r.doing != Action::StartInterface
            &&& r.doing != Action::StopInterface
        }),
    decreases all.len(),
{
    if all.len() > 0 {
        relaying_manages_no_interface(wireguard, all.drop_last());
    }
}

/// An interface is brought up only once the connection is there.
pub proof fn interfaces_wait_for_the_connection(r: Run, event: Event)
    requires
        after(r, event).doing == Action::StartInterface,
    ensures
        r.doing == Action::Connect && event != Event::Failed && event != Event::Stopped,
{
}

/// However a relay ends, the interface that the run manages is taken down next, and whether the
/// relay failed is told at the end.
pub proof fn relays_are_cleaned_up(r: Run, event: Event)
    requires
        r.doing == Action::Relay,
        r.manages(),
        !r.failed,
    ensures
        after(r, event).doing == Action::StopInterface,
        after(after(after(r, event), Event::Done), Event::Done).doing == Action::End(
            if event == Event::Failed {
                Outcome::Failed
            } else {
                Outcome::Finished
            },
        ),
{
}

/// How far a run has come.
pub open spec fn place(doing: Action) -> nat {
    match doing {
        Action::Prepare => 0,
        Action::Secure => 1,
        Action::TellValid => 2,
        Action::Listen => 3,
        Action::Connect => 4,
        Action::StartInterface => 5,
        Action::Relay => 6,
        Action::StopInterface => 7,
        Action::Summarize => 8,
        Action::End(_) => 9,
    }
}

/// Every event leads on until the end: nine events end any run.
pub proof fn runs_end(mode: Mode, wireguard: bool, all: Seq<Event>)
    ensures
        place(after_all(first(mode, wireguard), all).doing) >= if all.len() < 9 {
            all.len()
        } else {
            9
        },
        all.len() >= 9 ==> after_all(first(mode, wireguard), all).doing is End,
    decreases all.len(),
{
    if all.len() > 0 {
        runs_end(mode, wireguard, all.drop_last());
    }
}

/// As many events that all went well.
pub open spec fn all_well(n: nat) -> Seq<Event> {
    Seq::new(n, |i: int| Event::Done)
}

/// What is done after so many actions that went well.
pub open spec fn doing_after(mode: Mode, wireguard: bool, n: nat) -> Action {
    after_all(first(mode, wireguard), all_well(n)).doing
}

proof fn lemma_one_more(mode: Mode, wireguard: bool, n: nat)
    ensures
        after_all(first(mode, wireguard), all_well(n + 1)) == after(
            after_all(first(mode, wireguard), all_well(n)),
            Event::Done,
        ),
        all_well(0).len() == 0,
        after_all(first(mode, wireguard), all_well(0)) == first(mode, wireguard),
{
    assert(all_well(n + 1).drop_last() =~= all_well(n));
}

/// What a run goes through where all goes well. A managed tunnel reads its WireGuard configuration
/// and the certificates, opens the local port, connects, brings the interface up, carries packets,
/// takes the interface down and tells what was carried. A relay does the same without an interface.
/// A check reads the same as a run and tells that it is valid. A run without a WireGuard
/// configuration ends before it reaches out.
pub proof fn runs_go_through_their_actions(wireguard: bool)
    ensures
        doing_after(Mode::Run, true, 0) == Action::Prepare,
        doing_after(Mode::Run, true, 1) == Action::Secure,
        doing_after(Mode::Run, true, 2) == Action::Listen,
        doing_after(Mode::Run, true, 3) == Action::Connect,
        doing_after(Mode::Run, true, 4) == Action::StartInterface,
        doing_after(Mode::Run, true, 5) == Action::Relay,
        doing_after(Mode::Run, true, 6) == Action::StopInterface,
        doing_after(Mode::Run, true, 7) == Action::Summarize,
        doing_after(Mode::Run, true, 8) == Action::End(Outcome::Finished),
        doing_after(Mode::Run, false, 0) == Action::Secure,
        doing_after(Mode::Run, false, 1) == Action::End(Outcome::NoWireGuard),
        doing_after(Mode::Relay, wireguard, 0) == Action::Secure,
        doing_after(Mode::Relay, wireguard, 1) == Action::Listen,
        doing_after(Mode::Relay, wireguard, 2) == Action::Connect,
        doing_after(Mode::Relay, wireguard, 3) == Action::Relay,
        doing_after(Mode::Relay, wireguard, 4) == Action::Summarize,
        doing_after(Mode::Relay, wireguard, 5) == Action::End(Outcome::Finished),
        doing_after(Mode::Check, true, 0) == Action::Prepare,
        doing_after(Mode::Check, true, 1) == Action::Secure,
        doing_after(Mode::Check, true, 2) == Action::TellValid,
        doing_after(Mode::Check, true, 3) == Action::End(Outcome::Finished),
        doing_after(Mode::Check, false, 0) == Action::Secure,
        doing_after(Mode::Check, false, 1) == Action::TellValid,
        doing_after(Mode::Check, false, 2) == Action::End(Outcome::Finished),
{
    lemma_one_more(Mode::Run, true, 0);
    lemma_one_more(Mode::Run, true, 1);
    lemma_one_more(Mode::Run, true, 2);
    lemma_one_more(Mode::Run, true, 3);
    lemma_one_more(Mode::Run, true, 4);
    lemma_one_more(Mode::Run, true, 5);
    lemma_one_more(Mode::Run, true, 6);
    lemma_one_more(Mode::Run, true, 7);
    lemma_one_more(Mode::Run, false, 0);
    lemma_one_more(Mode::Relay, wireguard, 0);
    lemma_one_more(Mode::Relay, wireguard, 1);
    lemma_one_more(Mode::Relay, wireguard, 2);
    lemma_one_more(Mode::Relay, wireguard, 3);
    lemma_one_more(Mode::Relay, wireguard, 4);
    lemma_one_more(Mode::Check, true, 0);
    lemma_one_more(Mode::Check, true, 1);
    lemma_one_more(Mode::Check, true, 2);
    lemma_one_more(Mode::Check, false, 0);
    lemma_one_more(Mode::Check, false, 1);
}

/// Where something fails before packets are carried, or the interface is not taken down, the run
/// ends with that failure; where the user stops it while it connects, it is finished. What is told
/// of a run that was valid, or at its end, does not change how it ends.
pub proof fn failures_end_runs(r: Run)
    ensures
        r.doing == Action::Prepare || r.doing == Action::Secure || r.doing == Action::Listen || r.doing
            == Action::Connect || r.doing == Action::StartInterface || r.doing
            == Action::StopInterface ==> after(r, Event::Failed).doing == Action::End(
            Outcome::Failed,
        ),
        r.doing == Action::Connect ==> after(r, Event::Stopped).doing == Action::End(
            Outcome::Finished,
        ),
        r.doing == Action::Summarize || r.doing == Action::TellValid ==> forall|event: Event|
            #[trigger] after(r, event) == after(r, Event::Done),
        r.doing != Action::Connect ==> after(r, Event::Stopped) == after(r, Event::Done),
        r.doing is End ==> forall|event: Event| #[trigger] after(r, event) == r,
{
}

/// Whether a run failed while it carried packets is kept to its end, and told there.
pub proof fn failures_are_kept(r: Run, event: Event)
    ensures
        after(r, event).mode == r.mode,
        after(r, event).wireguard == r.wireguard,
        after(r, event).failed == (r.failed || (r.doing == Action::Relay && event == Event::Failed)),
        r.doing == Action::Relay && !(r.mode == Mode::Run && r.wireguard) ==> after(r, event).doing
            == Action::Summarize,
        r.doing == Action::Summarize ==> after(r, event).doing == Action::End(
            if r.failed {
                Outcome::Failed
            } else {
                Outcome::Finished
            },
        ),
{
}

/// A tunnel is shown as connecting from when it opens the local port, and as connected from when it
/// carries packets.
pub proof fn runs_show_their_state(doing: Action)
    ensures
        shown(doing) == Some(Status::Connecting) <==> doing == Action::Listen,
        shown(doing) == Some(Status::Connected) <==> doing == Action::Relay,
        doing != Action::Listen && doing != Action::Relay ==> shown(doing) is None,
{
}

} // verus!
