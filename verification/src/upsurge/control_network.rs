//! The control network: the machines UpSurge knows, each with its connexion
//! information and, when one is open, a session. A machine's id is its index.
//!
//! The network decides; the caller performs the remote work. Each operation that
//! needs the remote side takes it as closures (`check` a session, `connect` to a
//! machine, `close` a session, `request` a command), and its contract says what
//! holds for whatever those closures gave back.

use vstd::prelude::*;
use crate::upsurge::connexion_info::{ConnexionInfo, connexion_text};

verus! {

/// Why a network operation failed.
#[derive(Debug, Clone, Copy, PartialEq, Eq, Structural)]
pub enum NetworkError {
    /// The id names no machine of the network.
    IdOutOfRange,
    /// The machine has no session.
    NoSession,
    /// The session did not answer, or could not be closed.
    SessionNotConnected,
    /// Some session could not be closed.
    CannotCloseAll,
    /// `exec` found no session for the machine.
    NoSessionInExec,
    /// The command could not be run on the machine.
    ExecFailed,
}

impl NetworkError {
    /// The text that reports this error.
    pub fn message(&self) -> (r: &'static str)
        ensures
            r@ == network_error_text(*self),
    {
        match self {
            NetworkError::IdOutOfRange => "id isn't in the vector of connexions",
            NetworkError::NoSession => "No Session",
            NetworkError::SessionNotConnected => "Session is not connected",
            NetworkError::CannotCloseAll => "Can't close all sessions",
            NetworkError::NoSessionInExec => "No Session in exec function",
            NetworkError::ExecFailed => "Error while executing the command in exec function of ControlNetwork",
        }
    }
}

/// The text that reports a network error.
pub open spec fn network_error_text(e: NetworkError) -> Seq<char> {
    match e {
        NetworkError::IdOutOfRange => "id isn't in the vector of connexions"@,
        NetworkError::NoSession => "No Session"@,
        NetworkError::SessionNotConnected => "Session is not connected"@,
        NetworkError::CannotCloseAll => "Can't close all sessions"@,
        NetworkError::NoSessionInExec => "No Session in exec function"@,
        NetworkError::ExecFailed => "Error while executing the command in exec function of ControlNetwork"@,
    }
}

/// What `update_session` did.
#[derive(Debug, Clone, Copy, PartialEq, Eq, Structural)]
pub enum SessionUpdate {
    /// The machine's session answered; it was kept.
    AlreadyConnected,
    /// A new session was opened and stored.
    Connected,
    /// Opening a session failed; the machine's entry is unchanged.
    ConnectionFailed,
}

/// The machines of a network: for each, its session (if one is open) and its
/// connexion information. A machine's id is its index in this sequence.
pub type Machines<S> = Seq<(Option<S>, ConnexionInfo)>;

/// The machines with the session of machine `id` dropped.
pub open spec fn without_session<S>(v: Machines<S>, id: int) -> Machines<S> {
    v.update(id, (None, v[id].1))
}

/// The machines with the sessions of the first `k` machines dropped.
pub open spec fn sessions_cleared<S>(v: Machines<S>, k: int) -> Machines<S> {
    Seq::new(v.len(), |j: int| if j < k { (None, v[j].1) } else { v[j] })
}

/// The sessions of the first `k` machines were there and closed.
pub open spec fn closed_before<S, H: Fn(S) -> bool>(close: H, v: Machines<S>, k: int) -> bool {
    forall|j: int| 0 <= j < k ==> #[trigger] v[j].0 is Some && close.ensures((v[j].0->Some_0,), true)
}

/// The machine's session answered `check` with `answer`.
pub open spec fn checked<S, F: Fn(&S) -> bool>(check: F, e: (Option<S>, ConnexionInfo), answer: bool) -> bool {
    e.0 matches Some(s) && check.ensures((&s,), answer)
}

/// The machine is reported alive: it has a session, and that session answered.
pub open spec fn reported_alive<S, F: Fn(&S) -> bool>(check: F, e: (Option<S>, ConnexionInfo)) -> bool {
    checked(check, e, true)
}

/// The machine is reported dead: it has no session, or its session did not answer.
pub open spec fn reported_dead<S, F: Fn(&S) -> bool>(check: F, e: (Option<S>, ConnexionInfo)) -> bool {
    e.0 is None || checked(check, e, false)
}

/// The state line of a machine: `- USER@IP:PORT > Alive` or `- USER@IP:PORT > Dead`.
pub open spec fn state_line(info: ConnexionInfo, alive: bool) -> Seq<char> {
    seq!['-', ' '] + connexion_text(info@) + if alive {
        seq![' ', '>', ' ', 'A', 'l', 'i', 'v', 'e']
    } else {
        seq![' ', '>', ' ', 'D', 'e', 'a', 'd']
    }
}

/// Removing the machine just added gives back the machines as they were.
pub proof fn lemma_add_then_remove<S>(v: Machines<S>, c: ConnexionInfo)
    ensures
        v.push((None, c)).remove(v.len() as int) == v,
{
    assert(v.push((None, c)).remove(v.len() as int) =~= v);
}

/// Removing machine `id` keeps the machines before it at their ids and moves
/// each later machine down by one id.
pub proof fn lemma_remove_shifts_ids<S>(v: Machines<S>, id: int)
    requires
        0 <= id < v.len(),
    ensures
        v.remove(id).len() == v.len() - 1,
        forall|j: int| 0 <= j < id ==> #[trigger] v.remove(id)[j] == v[j],
        forall|j: int| id <= j < v.len() - 1 ==> #[trigger] v.remove(id)[j] == v[j + 1],
{
}

/// Dropping sessions keeps every machine and its connexion information: after
/// all sessions are dropped, no machine has a session.
pub proof fn lemma_sessions_cleared<S>(v: Machines<S>, k: int)
    requires
        0 <= k <= v.len(),
    ensures
        sessions_cleared(v, k).len() == v.len(),
        forall|j: int| 0 <= j < v.len() ==> (#[trigger] sessions_cleared(v, k)[j]).1 == v[j].1,
        forall|j: int| 0 <= j < k ==> (#[trigger] sessions_cleared(v, k)[j]).0 is None,
        forall|j: int| k <= j < v.len() ==> #[trigger] sessions_cleared(v, k)[j] == v[j],
{
}

/// A network of machines addressed by their index.
pub struct ControlNetwork<S> {
    connexions: Vec<(Option<S>, ConnexionInfo)>,
}

impl<S> View for ControlNetwork<S> {
    type V = Machines<S>;

    closed spec fn view(&self) -> Machines<S> {
        self.connexions@
    }
}

impl<S> Default for ControlNetwork<S> {
    /// A network without machines.
    fn default() -> (r: Self)
        ensures
            r@ == Seq::<(Option<S>, ConnexionInfo)>::empty(),
    {
        ControlNetwork { connexions: Vec::new() }
    }
}

impl<S> ControlNetwork<S> {
    /// A network of the given machines.
    pub fn new(infos: Vec<(Option<S>, ConnexionInfo)>) -> (r: Self)
        ensures
            r@ == infos@,
    {
        ControlNetwork { connexions: infos }
    }

    /// Adds a machine, without a session; its id is the former number of machines.
    pub fn add_machine(&mut self, con: ConnexionInfo)
        ensures
            final(self)@ == old(self)@.push((None, con)),
    {
        self.connexions.push((None, con));
    }

    /// The machines, in id order.
    pub fn get_connexions(&self) -> (r: &Vec<(Option<S>, ConnexionInfo)>)
        ensures
            r@ == self@,
    {
        &self.connexions
    }

    /// The number of machines.
    pub fn get_connexions_len(&self) -> (r: usize)
        ensures
            r == self@.len(),
    {
        self.connexions.len()
    }

    /// Whether machine `id` has a session that answers `check`.
    pub fn is_connected<F: Fn(&S) -> bool>(&self, id: usize, check: &F) -> (r: Result<(), NetworkError>)
        requires
            id < self@.len(),
            forall|s: &S| check.requires((s,)),
        ensures
            match r {
                Ok(()) => reported_alive(*check, self@[id as int]),
                Err(e) => e == (if self@[id as int].0 is None {
                    NetworkError::NoSession
                } else {
                    NetworkError::SessionNotConnected
                }) && reported_dead(*check, self@[id as int]),
            },
    {
        match &self.connexions[id].0 {
            None => Err(NetworkError::NoSession),
            Some(sess) => {
                if check(sess) {
                    Ok(())
                } else {
                    Err(NetworkError::SessionNotConnected)
                }
            },
        }
    }

    /// Makes sure machine `id` has a live session: a session that answers `check`
    /// is kept; otherwise `connect` opens one, which replaces the old one when it
    /// succeeds (when it fails, the entry is left as it was).
    pub fn update_session<F: Fn(&S) -> bool, G: Fn(&ConnexionInfo) -> Option<S>>(
        &mut self,
        id: usize,
        check: &F,
        connect: &G,
    ) -> (r: SessionUpdate)
        requires
            id < old(self)@.len(),
            forall|s: &S| check.requires((s,)),
            forall|c: &ConnexionInfo| connect.requires((c,)),
        ensures
            ({
                let v = old(self)@;
                let e = v[id as int];
                match r {
                    SessionUpdate::AlreadyConnected => reported_alive(*check, e) && final(self)@ == v,
                    SessionUpdate::Connected => {
                        &&& reported_dead(*check, e)
                        &&& final(self)@[id as int].0 matches Some(ns)
                        &&& connect.ensures((&e.1,), Some(ns))
                        &&& final(self)@ == v.update(id as int, (final(self)@[id as int].0, e.1))
                    },
                    SessionUpdate::ConnectionFailed => {
                        &&& reported_dead(*check, e)
                        &&& connect.ensures((&e.1,), None::<S>)
                        &&& final(self)@ == v
                    },
                }
            }),
    {
        let alive = match &self.connexions[id].0 {
            None => false,
            Some(sess) => check(sess),
        };
        if alive {
            return SessionUpdate::AlreadyConnected;
        }
        let opened = connect(&self.connexions[id].1);
        match opened {
            None => SessionUpdate::ConnectionFailed,
            Some(sess) => {
                self.connexions[id].0 = Some(sess);
                SessionUpdate::Connected
            },
        }
    }

    /// Drops the session of machine `id` and closes it with `close`.
    /// Whatever happens, the machine has no session afterwards.
    pub fn close_session<H: Fn(S) -> bool>(&mut self, id: usize, close: &H) -> (r: Result<(), NetworkError>)
        requires
            id < old(self)@.len(),
            forall|s: S| close.requires((s,)),
        ensures
            final(self)@ == without_session(old(self)@, id as int),
            match old(self)@[id as int].0 {
                None => r == Err::<(), NetworkError>(NetworkError::NoSession),
                Some(s) => match r {
                    Ok(()) => close.ensures((s,), true),
                    Err(e) => e == NetworkError::SessionNotConnected && close.ensures((s,), false),
                },
            },
    {
        let taken = self.connexions[id].0.take();
        assert(self.connexions@ =~= without_session(old(self)@, id as int));
        match taken {
            None => Err(NetworkError::NoSession),
            Some(sess) => {
                if close(sess) {
                    Ok(())
                } else {
                    Err(NetworkError::SessionNotConnected)
                }
            },
        }
    }

    /// Removes machine `id`; the machines after it move down by one id.
    /// A machine whose session answers `check` has that session closed first;
    /// when closing fails the machine stays, without its session.
    pub fn remove_machine<F: Fn(&S) -> bool, H: Fn(S) -> bool>(
        &mut self,
        id: usize,
        check: &F,
        close: &H,
    ) -> (r: Result<(), NetworkError>)
        requires
            forall|s: &S| check.requires((s,)),
            forall|s: S| close.requires((s,)),
        ensures
            ({
                let v = old(self)@;
                match r {
                    Ok(()) => {
                        &&& id < v.len()
                        &&& final(self)@ == v.remove(id as int)
                        &&& reported_dead(*check, v[id as int]) || (reported_alive(*check, v[id as int])
                            && close.ensures((v[id as int].0->Some_0,), true))
                    },
                    Err(e) => if id >= v.len() {
                        e == NetworkError::IdOutOfRange && final(self)@ == v
                    } else {
                        &&& e == NetworkError::SessionNotConnected
                        &&& reported_alive(*check, v[id as int])
                        &&& close.ensures((v[id as int].0->Some_0,), false)
                        &&& final(self)@ == without_session(v, id as int)
                    },
                }
            }),
    {
        if id >= self.connexions.len() {
            return Err(NetworkError::IdOutOfRange);
        }
        match self.is_connected(id, check) {
            Ok(()) => {
                match self.close_session(id, close) {
                    Ok(()) => {
                        self.connexions.remove(id);
                        assert(self.connexions@ =~= old(self)@.remove(id as int));
                        Ok(())
                    },
                    Err(_) => Err(NetworkError::SessionNotConnected),
                }
            },
            Err(_) => {
                self.connexions.remove(id);
                Ok(())
            },
        }
    }

    /// Closes the session of every machine, in id order, stopping at the first
    /// machine whose session is missing or cannot be closed.
    pub fn close_all_session<H: Fn(S) -> bool>(&mut self, close: &H) -> (r: Result<(), NetworkError>)
        requires
            forall|s: S| close.requires((s,)),
        ensures
            ({
                let v = old(self)@;
                match r {
                    Ok(()) => {
                        &&& forall|j: int| 0 <= j < v.len() ==> #[trigger] v[j].0 is Some && close.ensures((v[j].0->Some_0,), true)
                        &&& final(self)@ == sessions_cleared(v, v.len() as int)
                    },
                    Err(e) => {
                        &&& e == NetworkError::CannotCloseAll
                        &&& exists|k: int| #![trigger closed_before(*close, v, k)] {
                            &&& 0 <= k < v.len()
                            &&& closed_before(*close, v, k)
                            &&& (v[k].0 is None || close.ensures((v[k].0->Some_0,), false))
                            &&& final(self)@ == sessions_cleared(v, k + 1)
                        }
                    },
                }
            }),
    {
        let n = self.connexions.len();
        let ghost v = self@;
        let mut i: usize = 0;
        assert(self@ =~= sessions_cleared(v, 0));
        while i < n
            invariant
                n == v.len(),
                v == old(self)@,
                i <= n,
                forall|s: S| close.requires((s,)),
                self@ == sessions_cleared(v, i as int),
                forall|j: int| 0 <= j < i ==> #[trigger] v[j].0 is Some && close.ensures((v[j].0->Some_0,), true),
            decreases n - i,
        {
            assert(self@[i as int] == v[i as int]);
            let res = self.close_session(i, close);
            assert(self@ =~= sessions_cleared(v, i + 1));
            match res {
                Ok(()) => {},
                Err(_) => {
                    assert(v[i as int].0 is None || close.ensures((v[i as int].0->Some_0,), false));
                    assert(closed_before(*close, v, i as int));
                    assert(exists|k: int| #![trigger closed_before(*close, v, k)] {
                        &&& 0 <= k < v.len()
                        &&& closed_before(*close, v, k)
                        &&& (v[k].0 is None || close.ensures((v[k].0->Some_0,), false))
                        &&& self@ == sessions_cleared(v, k + 1)
                    });
                    return Err(NetworkError::CannotCloseAll);
                },
            }
            i = i + 1;
        }
        Ok(())
    }

    /// Runs `command` on machine `id` through `request` (told the machine's id and
    /// session), giving its output.
    pub fn exec<R: Fn(usize, &S, &str) -> Option<String>>(&self, command: &str, id: usize, request: &R) -> (r: Result<String, NetworkError>)
        requires
            id < self@.len(),
            forall|i: usize, s: &S, c: &str| request.requires((i, s, c)),
        ensures
            match self@[id as int].0 {
                None => r == Err::<String, NetworkError>(NetworkError::NoSessionInExec),
                Some(s) => match r {
                    Ok(out) => request.ensures((id, &s, command), Some(out)),
                    Err(e) => e == NetworkError::ExecFailed && request.ensures((id, &s, command), None::<String>),
                },
            },
    {
        match &self.connexions[id].0 {
            None => Err(NetworkError::NoSessionInExec),
            Some(sess) => match request(id, sess, command) {
                Some(out) => Ok(out),
                None => Err(NetworkError::ExecFailed),
            },
        }
    }

    /// One line per machine, in id order: `- USER@IP:PORT`, then ` > Alive` when
    /// its session answers `check`, ` > Dead` otherwise.
    pub fn get_network_state<F: Fn(&S) -> bool>(&self, check: &F) -> (r: Result<Vec<String>, NetworkError>)
        requires
            forall|s: &S| check.requires((s,)),
        ensures
            r matches Ok(states) && states@.len() == self@.len() && forall|i: int|
                0 <= i < self@.len() ==> {
                    ||| (#[trigger] states@[i])@ == state_line(self@[i].1, true) && reported_alive(*check, self@[i])
                    ||| states@[i]@ == state_line(self@[i].1, false) && reported_dead(*check, self@[i])
                },
    {
        let n = self.connexions.len();
        let mut states: Vec<String> = Vec::new();
        let mut i: usize = 0;
        while i < n
            invariant
                n == self@.len(),
                i <= n,
                states@.len() == i,
                forall|s: &S| check.requires((s,)),
                forall|j: int|
                    0 <= j < i ==> {
                        ||| (#[trigger] states@[j])@ == state_line(self@[j].1, true) && reported_alive(*check, self@[j])
                        ||| states@[j]@ == state_line(self@[j].1, false) && reported_dead(*check, self@[j])
                    },
            decreases n - i,
        {
            let mut line = String::from_str("- ");
            proof {
                reveal_strlit("- ");
            }
            let address = self.connexions[i].1.formatted();
            line.append(address.as_str());
            let alive = self.is_connected(i, check).is_ok();
            proof {
                reveal_strlit(" > Alive");
                reveal_strlit(" > Dead");
            }
            if alive {
                line.append(" > Alive");
            } else {
                line.append(" > Dead");
            }
            assert(line@ =~= state_line(self@[i as int].1, alive));
            states.push(line);
            i = i + 1;
        }
        Ok(states)
    }
}

#[verifier::external_type_specification]
#[verifier::external_body]
pub struct ExSession(openssh::Session);

/// The control network of SSH machines, holding `openssh` sessions.
pub type SshControlNetwork = ControlNetwork<openssh::Session>;

} // verus!
