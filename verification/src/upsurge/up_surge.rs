//! UpSurge over SSH: for each connexion, connect, run every command in order,
//! report each output, then close.
//!
//! `process` is a machine: the caller performs each action it asks for (connect,
//! run a command, close) and hands back what happened; the machine decides the
//! next action and which output line to report.

use vstd::prelude::*;
use crate::upsurge::config::{Config, default_config};
use crate::upsurge::connexion_info::{ConnexionInfo, describe_text};
use crate::upsurge::ssh_requester::RequestError;
use crate::text::texts;

verus! {

/// Where a connexion's processing stands.
#[derive(Debug, Clone, Copy, PartialEq, Eq, Structural)]
pub enum ProcessStage {
    /// Waiting for the connexion to open.
    Connecting,
    /// Waiting for the output of the command with this index.
    Running(usize),
    /// Waiting for the session to close.
    Closing,
    /// Finished.
    Done,
}

/// What happened to the last action.
#[derive(Debug)]
pub enum ProcessEvent {
    /// The session opened (`true`) or could not be opened.
    Connected(bool),
    /// The command gave this output, or could not be run (`None`).
    Answered(Option<String>),
    /// The session closed (`true`) or could not be closed.
    Closed(bool),
}

/// What the caller must do next.
#[derive(Debug)]
pub enum ProcessAction {
    /// Open a session to the connexion.
    Connect,
    /// Run the command with this index over the session.
    Request(usize),
    /// Close the session.
    Close,
    /// Stop: the processing ended with this result.
    Finish(Result<(), RequestError>),
}

/// One decision: the new stage, the line to report (if any), and the next action.
#[derive(Debug)]
pub struct ProcessStep {
    pub stage: ProcessStage,
    pub report: Option<String>,
    pub action: ProcessAction,
}

/// The line reported for a command's output: `<connexion> > <command> > <output>`.
pub open spec fn report_line(info: ConnexionInfo, command: Seq<char>, out: Seq<char>) -> Seq<char> {
    describe_text(info@) + seq![' ', '>', ' '] + command + seq![' ', '>', ' '] + out
}

/// The event answers the action that the stage waits for.
pub open spec fn event_fits(stage: ProcessStage, event: ProcessEvent, count: nat) -> bool {
    match stage {
        ProcessStage::Connecting => event is Connected,
        ProcessStage::Running(i) => event is Answered && i < count,
        ProcessStage::Closing => event is Closed,
        ProcessStage::Done => false,
    }
}

/// The action that starts (or continues) running the commands from index `i`.
pub open spec fn next_command(i: nat, count: nat) -> (ProcessStage, ProcessAction) {
    if i < count {
        (ProcessStage::Running(i as usize), ProcessAction::Request(i as usize))
    } else {
        (ProcessStage::Closing, ProcessAction::Close)
    }
}

/// The decision after `event`: the new stage, the reported line, the next action.
pub open spec fn process_decision(
    commands: Seq<Seq<char>>,
    info: ConnexionInfo,
    stage: ProcessStage,
    event: ProcessEvent,
) -> (ProcessStage, Option<Seq<char>>, ProcessAction) {
    match (stage, event) {
        (ProcessStage::Connecting, ProcessEvent::Connected(ok)) => if ok {
            let (s, a) = next_command(0, commands.len());
            (s, None, a)
        } else {
            (ProcessStage::Done, None, ProcessAction::Finish(Err(RequestError::SessionCreationFailed)))
        },
        (ProcessStage::Running(i), ProcessEvent::Answered(out)) => match out {
            Some(text) => {
                let (s, a) = next_command((i + 1) as nat, commands.len());
                (s, Some(report_line(info, commands[i as int], text@)), a)
            },
            None => (ProcessStage::Done, None, ProcessAction::Finish(Err(RequestError::NoSession))),
        },
        (_, ProcessEvent::Closed(ok)) => (
            ProcessStage::Done,
            None,
            ProcessAction::Finish(if ok {
                Ok(())
            } else {
                Err(RequestError::ClosingFailed)
            }),
        ),
        _ => (ProcessStage::Done, None, ProcessAction::Finish(Err(RequestError::NoSession))),
    }
}

/// Feeding `events` in turn from `stage`: the final stage, the reported lines in
/// order, and the actions asked for in order (one per event).
pub open spec fn process_run(
    commands: Seq<Seq<char>>,
    info: ConnexionInfo,
    stage: ProcessStage,
    events: Seq<ProcessEvent>,
) -> (ProcessStage, Seq<Seq<char>>, Seq<ProcessAction>)
    decreases events.len(),
{
    if events.len() == 0 {
        (stage, Seq::empty(), Seq::empty())
    } else {
        let (s, line, a) = process_decision(commands, info, stage, events[0]);
        let (end, lines, actions) = process_run(commands, info, s, events.skip(1));
        (
            end,
            match line {
                Some(l) => seq![l] + lines,
                None => lines,
            },
            seq![a] + actions,
        )
    }
}

/// The events of commands that all gave an output.
pub open spec fn answers(outs: Seq<String>) -> Seq<ProcessEvent> {
    outs.map_values(|o: String| ProcessEvent::Answered(Some(o)))
}

/// The lines reported for the outputs of the commands `from..to`.
pub open spec fn reports(commands: Seq<Seq<char>>, info: ConnexionInfo, outs: Seq<String>, from: int, to: int) -> Seq<Seq<char>> {
    Seq::new((to - from) as nat, |j: int| report_line(info, commands[from + j], outs[from + j]@))
}

/// The actions asked after the commands `from..to` gave their outputs.
pub open spec fn followups(count: nat, from: int, to: int) -> Seq<ProcessAction> {
    Seq::new((to - from) as nat, |j: int| next_command((from + j + 1) as nat, count).1)
}

proof fn lemma_run_to_close(commands: Seq<Seq<char>>, info: ConnexionInfo, outs: Seq<String>, k: nat)
    requires
        outs.len() == commands.len() <= usize::MAX,
        k <= commands.len(),
    ensures
        process_run(commands, info, next_command(k, commands.len()).0, answers(outs).skip(k as int) + seq![ProcessEvent::Closed(true)])
            == (ProcessStage::Done, reports(commands, info, outs, k as int, commands.len() as int),
                followups(commands.len(), k as int, commands.len() as int) + seq![ProcessAction::Finish(Ok(()))]),
    decreases commands.len() - k,
{
    let n = commands.len();
    let events = answers(outs).skip(k as int) + seq![ProcessEvent::Closed(true)];
    if k == n {
        assert(answers(outs).skip(k as int) =~= Seq::<ProcessEvent>::empty());
        assert(events =~= seq![ProcessEvent::Closed(true)]);
        assert(events.skip(1) =~= Seq::<ProcessEvent>::empty());
        assert(process_run(commands, info, ProcessStage::Done, events.skip(1)) == (
            ProcessStage::Done,
            Seq::<Seq<char>>::empty(),
            Seq::<ProcessAction>::empty(),
        ));
        assert(seq![ProcessAction::Finish(Ok(()))] + Seq::<ProcessAction>::empty() =~= seq![ProcessAction::Finish(Ok(()))]);
        assert(reports(commands, info, outs, k as int, n as int) =~= Seq::<Seq<char>>::empty());
        assert(followups(n, k as int, n as int) =~= Seq::<ProcessAction>::empty());
    } else {
        lemma_run_to_close(commands, info, outs, k + 1);
        assert(events[0] == ProcessEvent::Answered(Some(outs[k as int])));
        assert(events.skip(1) =~= answers(outs).skip(k as int + 1) + seq![ProcessEvent::Closed(true)]);
        assert(reports(commands, info, outs, k as int, n as int) =~= seq![report_line(info, commands[k as int], outs[k as int]@)]
            + reports(commands, info, outs, k as int + 1, n as int));
        assert(followups(n, k as int, n as int) + seq![ProcessAction::Finish(Ok(()))] =~= seq![next_command((k + 1) as nat, n).1]
            + (followups(n, k as int + 1, n as int) + seq![ProcessAction::Finish(Ok(()))]));
    }
}

/// Processing a connexion whose session opens, whose commands all give an
/// output and whose session closes: one line is reported per command, in the
/// commands' order; the commands are asked for in order, then the closing; the
/// result is success.
pub proof fn lemma_process_reports_every_output(commands: Seq<Seq<char>>, info: ConnexionInfo, outs: Seq<String>)
    requires
        outs.len() == commands.len() <= usize::MAX,
    ensures
        process_run(
            commands,
            info,
            ProcessStage::Connecting,
            seq![ProcessEvent::Connected(true)] + answers(outs) + seq![ProcessEvent::Closed(true)],
        ) == (
            ProcessStage::Done,
            Seq::new(commands.len(), |i: int| report_line(info, commands[i], outs[i]@)),
            Seq::new(commands.len() + 1, |i: int| next_command(i as nat, commands.len()).1)
                + seq![ProcessAction::Finish(Ok(()))],
        ),
{
    let n = commands.len();
    let events = seq![ProcessEvent::Connected(true)] + answers(outs) + seq![ProcessEvent::Closed(true)];
    lemma_run_to_close(commands, info, outs, 0);
    assert(events.skip(1) =~= answers(outs).skip(0) + seq![ProcessEvent::Closed(true)]);
    assert(events[0] == ProcessEvent::Connected(true));
    assert(reports(commands, info, outs, 0, n as int) =~= Seq::new(n, |i: int| report_line(info, commands[i], outs[i]@)));
    assert(seq![next_command(0, n).1] + (followups(n, 0, n as int) + seq![ProcessAction::Finish(Ok(()))])
        =~= Seq::new(n + 1, |i: int| next_command(i as nat, n).1) + seq![ProcessAction::Finish(Ok(()))]);
}

proof fn lemma_run_to_failure(commands: Seq<Seq<char>>, info: ConnexionInfo, outs: Seq<String>, failed: nat, k: nat)
    requires
        commands.len() <= usize::MAX,
        failed < commands.len(),
        outs.len() == failed,
        k <= failed,
    ensures
        process_run(commands, info, next_command(k, commands.len()).0, answers(outs).skip(k as int) + seq![ProcessEvent::Answered(None)])
            == (ProcessStage::Done, reports(commands, info, outs, k as int, failed as int),
                followups(commands.len(), k as int, failed as int) + seq![ProcessAction::Finish(Err(RequestError::NoSession))]),
    decreases failed - k,
{
    let n = commands.len();
    let events = answers(outs).skip(k as int) + seq![ProcessEvent::Answered(None)];
    if k == failed {
        assert(answers(outs).skip(k as int) =~= Seq::<ProcessEvent>::empty());
        assert(events =~= seq![ProcessEvent::Answered(None)]);
        assert(events.skip(1) =~= Seq::<ProcessEvent>::empty());
        assert(process_run(commands, info, ProcessStage::Done, events.skip(1)) == (
            ProcessStage::Done,
            Seq::<Seq<char>>::empty(),
            Seq::<ProcessAction>::empty(),
        ));
        assert(seq![ProcessAction::Finish(Err(RequestError::NoSession))] + Seq::<ProcessAction>::empty()
            =~= seq![ProcessAction::Finish(Err(RequestError::NoSession))]);
        assert(reports(commands, info, outs, k as int, failed as int) =~= Seq::<Seq<char>>::empty());
        assert(followups(n, k as int, failed as int) =~= Seq::<ProcessAction>::empty());
    } else {
        lemma_run_to_failure(commands, info, outs, failed, k + 1);
        assert(events[0] == ProcessEvent::Answered(Some(outs[k as int])));
        assert(events.skip(1) =~= answers(outs).skip(k as int + 1) + seq![ProcessEvent::Answered(None)]);
        assert(reports(commands, info, outs, k as int, failed as int) =~= seq![report_line(info, commands[k as int], outs[k as int]@)]
            + reports(commands, info, outs, k as int + 1, failed as int));
        assert(followups(n, k as int, failed as int) + seq![ProcessAction::Finish(Err(RequestError::NoSession))] =~= seq![next_command((k + 1) as nat, n).1]
            + (followups(n, k as int + 1, failed as int) + seq![ProcessAction::Finish(Err(RequestError::NoSession))]));
    }
}

/// Processing a connexion whose command `failed` cannot be run, after the
/// earlier commands gave their outputs: the earlier outputs are reported in
/// order, the processing ends with `NoSession` at once, and the session is
/// never asked to close.
pub proof fn lemma_process_stops_at_failed_command(commands: Seq<Seq<char>>, info: ConnexionInfo, outs: Seq<String>)
    requires
        commands.len() <= usize::MAX,
        outs.len() < commands.len(),
    ensures
        process_run(
            commands,
            info,
            ProcessStage::Connecting,
            seq![ProcessEvent::Connected(true)] + answers(outs) + seq![ProcessEvent::Answered(None)],
        ) == (
            ProcessStage::Done,
            Seq::new(outs.len(), |i: int| report_line(info, commands[i], outs[i]@)),
            Seq::new(outs.len() + 1, |i: int| ProcessAction::Request(i as usize))
                + seq![ProcessAction::Finish(Err(RequestError::NoSession))],
        ),
{
    let n = commands.len();
    let f = outs.len();
    let events = seq![ProcessEvent::Connected(true)] + answers(outs) + seq![ProcessEvent::Answered(None)];
    lemma_run_to_failure(commands, info, outs, f, 0);
    assert(events.skip(1) =~= answers(outs).skip(0) + seq![ProcessEvent::Answered(None)]);
    assert(events[0] == ProcessEvent::Connected(true));
    assert(reports(commands, info, outs, 0, f as int) =~= Seq::new(f, |i: int| report_line(info, commands[i], outs[i]@)));
    assert(seq![next_command(0, n).1] + (followups(n, 0, f as int) + seq![ProcessAction::Finish(Err(RequestError::NoSession))])
        =~= Seq::new(f + 1, |i: int| ProcessAction::Request(i as usize)) + seq![ProcessAction::Finish(Err(RequestError::NoSession))]);
}

/// Processing a connexion whose session cannot be opened ends at once with
/// `SessionCreationFailed`, reporting nothing.
pub proof fn lemma_process_without_session(commands: Seq<Seq<char>>, info: ConnexionInfo)
    ensures
        process_run(commands, info, ProcessStage::Connecting, seq![ProcessEvent::Connected(false)]) == (
            ProcessStage::Done,
            Seq::<Seq<char>>::empty(),
            seq![ProcessAction::Finish(Err(RequestError::SessionCreationFailed))],
        ),
{
    let events = seq![ProcessEvent::Connected(false)];
    assert(events.skip(1) =~= Seq::<ProcessEvent>::empty());
    assert(process_run(commands, info, ProcessStage::Done, events.skip(1)) == (
        ProcessStage::Done,
        Seq::<Seq<char>>::empty(),
        Seq::<ProcessAction>::empty(),
    ));
    assert(seq![ProcessAction::Finish(Err(RequestError::SessionCreationFailed))] + Seq::<ProcessAction>::empty()
        =~= seq![ProcessAction::Finish(Err(RequestError::SessionCreationFailed))]);
}

/// The events of a connexion whose session opens, whose commands all give the
/// outputs `outs`, and whose session closes.
pub open spec fn full_run(outs: Seq<String>) -> Seq<ProcessEvent> {
    seq![ProcessEvent::Connected(true)] + answers(outs) + seq![ProcessEvent::Closed(true)]
}

/// Every command runs on every connexion: processing each connexion of `infos`
/// whose session opens, whose commands all answer and whose session closes
/// reports, for that connexion, one line per command in the commands' order,
/// and succeeds.
pub proof fn lemma_every_command_on_every_connexion(
    commands: Seq<Seq<char>>,
    infos: Seq<ConnexionInfo>,
    outs: Seq<Seq<String>>,
)
    requires
        commands.len() <= usize::MAX,
        outs.len() == infos.len(),
        forall|i: int| 0 <= i < outs.len() ==> (#[trigger] outs[i]).len() == commands.len(),
    ensures
        forall|i: int| 0 <= i < infos.len() ==> {
            let run = #[trigger] process_run(commands, infos[i], ProcessStage::Connecting, full_run(outs[i]));
            &&& run.0 == ProcessStage::Done
            &&& run.1 == Seq::new(commands.len(), |j: int| report_line(infos[i], commands[j], outs[i][j]@))
            &&& run.2.last() == ProcessAction::Finish(Ok(()))
        },
{
    assert forall|i: int| 0 <= i < infos.len() implies {
        let run = #[trigger] process_run(commands, infos[i], ProcessStage::Connecting, full_run(outs[i]));
        &&& run.0 == ProcessStage::Done
        &&& run.1 == Seq::new(commands.len(), |j: int| report_line(infos[i], commands[j], outs[i][j]@))
        &&& run.2.last() == ProcessAction::Finish(Ok(()))
    } by {
        assert(outs[i].len() == commands.len());
        lemma_process_reports_every_output(commands, infos[i], outs[i]);
    }
}

/// UpSurge over SSH, with its configuration.
pub struct SSHUpSurge {
    config: Config,
}

impl Default for SSHUpSurge {
    fn default() -> (r: Self)
        ensures
            r.configuration() == default_config(),
    {
        SSHUpSurge { config: Config::default() }
    }
}

impl SSHUpSurge {
    /// The configuration this UpSurge runs with.
    pub closed spec fn configuration(&self) -> Config {
        self.config
    }

    /// UpSurge with the given configuration.
    pub fn new(config: Config) -> (r: Self)
        ensures
            r.configuration() == config,
    {
        Self { config }
    }

    /// The first step of processing a connexion: connect.
    pub fn process_start(&self) -> (r: ProcessStep)
        ensures
            r.stage == ProcessStage::Connecting,
            r.report is None,
            r.action == ProcessAction::Connect,
    {
        ProcessStep { stage: ProcessStage::Connecting, report: None, action: ProcessAction::Connect }
    }

    /// The next step of processing `connexion` with `commands`, after `event`
    /// answered the action that `stage` waits for.
    pub fn process(
        &self,
        commands: &Vec<String>,
        connexion: &ConnexionInfo,
        stage: ProcessStage,
        event: ProcessEvent,
    ) -> (r: ProcessStep)
        requires
            event_fits(stage, event, commands@.len()),
        ensures
            ({
                let (s, line, a) = process_decision(texts(commands@), *connexion, stage, event);
                &&& r.stage == s
                &&& r.action == a
                &&& match line {
                    Some(l) => r.report matches Some(t) && t@ == l,
                    None => r.report is None,
                }
            }),
    {
        match event {
            ProcessEvent::Connected(ok) => {
                if ok {
                    self.next(0, commands.len())
                } else {
                    ProcessStep {
                        stage: ProcessStage::Done,
                        report: None,
                        action: ProcessAction::Finish(Err(RequestError::SessionCreationFailed)),
                    }
                }
            },
            ProcessEvent::Answered(out) => {
                let i = match stage {
                    ProcessStage::Running(i) => i,
                    _ => 0,
                };
                let count = commands.len();
                assert(stage == ProcessStage::Running(i) && i < count);
                match out {
                    Some(text) => {
                        let line = Self::report(connexion, commands[i].as_str(), text.as_str());
                        let mut step = self.next(i + 1, count);
                        step.report = Some(line);
                        step
                    },
                    None => ProcessStep {
                        stage: ProcessStage::Done,
                        report: None,
                        action: ProcessAction::Finish(Err(RequestError::NoSession)),
                    },
                }
            },
            ProcessEvent::Closed(ok) => ProcessStep {
                stage: ProcessStage::Done,
                report: None,
                action: ProcessAction::Finish(
                    if ok {
                        Ok(())
                    } else {
                        Err(RequestError::ClosingFailed)
                    },
                ),
            },
        }
    }

    fn next(&self, i: usize, count: usize) -> (r: ProcessStep)
        ensures
            (r.stage, r.action) == next_command(i as nat, count as nat),
            r.report is None,
    {
        if i < count {
            ProcessStep { stage: ProcessStage::Running(i), report: None, action: ProcessAction::Request(i) }
        } else {
            ProcessStep { stage: ProcessStage::Closing, report: None, action: ProcessAction::Close }
        }
    }

    /// The line reported for a command's output.
    pub fn report(connexion: &ConnexionInfo, command: &str, out: &str) -> (r: String)
        ensures
            r@ == report_line(*connexion, command@, out@),
    {
        let mut line = connexion.describe();
        proof {
            reveal_strlit(" > ");
        }
        line.append(" > ");
        line.append(command);
        line.append(" > ");
        line.append(out);
        assert(line@ =~= report_line(*connexion, command@, out@));
        line
    }
}

} // verus!
