//! The interactive mode: a shell whose commands add, remove, connect,
//! disconnect and use the machines of a control network.
//!
//! The shell reads a line, splits it into words, and acts on the network; the
//! remote work is done by the caller's closures, as in `ControlNetwork`.

use vstd::prelude::*;
use crate::groups::Groups;
use crate::text::{
    all_digits, chars_of, decimal_value, i32_value, join_from, joined, nat_text, nat_to_text,
    parse_i32, parse_usize, pieces, split_pieces, split_words, string_of, texts, usize_value, words,
};
use crate::upsurge::connexion_info::ConnexionInfo;
use crate::upsurge::control_network::{
    ControlNetwork, NetworkError, SessionUpdate, network_error_text, reported_alive, reported_dead,
    state_line, without_session,
};

verus! {

/// Why a shell command failed.
#[derive(Debug, Clone, Copy, PartialEq, Eq, Structural)]
pub enum ShellError {
    /// The port of `/add` is no `i32`.
    PortNotValid,
    /// The id is no `usize`.
    IdNotValid,
    /// `/exec` could not run the command (on some machine).
    ExecFailed,
    /// No group has the name.
    GroupNotFound,
    /// The network refused the operation.
    Network(NetworkError),
}

/// The text that reports a shell error.
pub open spec fn shell_error_text(e: ShellError) -> Seq<char> {
    match e {
        ShellError::PortNotValid => "Port not valid\n"@,
        ShellError::IdNotValid => "Id not valid\n"@,
        ShellError::ExecFailed => "Error while executing command\n"@,
        ShellError::GroupNotFound => "Group not found\n"@,
        ShellError::Network(n) => network_error_text(n),
    }
}

impl ShellError {
    /// The text that reports this error.
    pub fn message(&self) -> (r: &'static str)
        ensures
            r@ == shell_error_text(*self),
    {
        match self {
            ShellError::PortNotValid => "Port not valid\n",
            ShellError::IdNotValid => "Id not valid\n",
            ShellError::ExecFailed => "Error while executing command\n",
            ShellError::GroupNotFound => "Group not found\n",
            ShellError::Network(n) => n.message(),
        }
    }
}

/// The shell's commands, by their first word.
#[derive(Debug, Clone, Copy, PartialEq, Eq, Structural)]
pub enum ShellCommand {
    Help,
    Network,
    Exit,
    Add,
    Remove,
    Connect,
    Disconnect,
    Exec,
    CreateGroup,
    RemoveGroup,
    Unknown,
}

/// The command that a first word names.
pub open spec fn shell_command_of(w: Seq<char>) -> ShellCommand {
    if w == "/help"@ {
        ShellCommand::Help
    } else if w == "/network"@ {
        ShellCommand::Network
    } else if w == "/exit"@ {
        ShellCommand::Exit
    } else if w == "/add"@ {
        ShellCommand::Add
    } else if w == "/remove"@ {
        ShellCommand::Remove
    } else if w == "/connect"@ {
        ShellCommand::Connect
    } else if w == "/disconnect"@ {
        ShellCommand::Disconnect
    } else if w == "/exec"@ {
        ShellCommand::Exec
    } else if w == "/create_group"@ {
        ShellCommand::CreateGroup
    } else if w == "/remove_group"@ {
        ShellCommand::RemoveGroup
    } else {
        ShellCommand::Unknown
    }
}

/// Whether two texts are equal.
pub(crate) fn same_text(a: &str, b: &str) -> (r: bool)
    ensures
        r == (a@ == b@),
{
    let x = chars_of(a);
    let y = chars_of(b);
    if x.len() != y.len() {
        return false;
    }
    let mut i: usize = 0;
    while i < x.len()
        invariant
            x@ == a@,
            y@ == b@,
            x@.len() == y@.len(),
            i <= x@.len(),
            forall|j: int| 0 <= j < i ==> x@[j] == y@[j],
        decreases x@.len() - i,
    {
        if x[i] != y[i] {
            return false;
        }
        i = i + 1;
    }
    assert(x@ =~= y@);
    true
}

/// The id that a shell command names: its second word.
pub open spec fn id_word(inputs: Seq<String>) -> Option<usize> {
    usize_value(inputs[1]@)
}

/// The id is a number that names no machine of the network (the shell cannot
/// act on it).
pub open spec fn names_no_machine(inputs: Seq<String>, count: nat) -> bool {
    id_word(inputs) matches Some(id) && id >= count
}

/// The state line of the machine with this id: `id: <id>, <state>`.
pub open spec fn numbered_line(id: nat, state: Seq<char>) -> Seq<char> {
    seq!['i', 'd', ':', ' '] + nat_text(id) + seq![',', ' '] + state
}

/// The command ran on the machine (`ok`), or could not (`!ok`): the machine has
/// no session, or `request` gave no output for the command.
pub open spec fn ran<S, R: Fn(usize, &S, &str) -> Option<String>>(
    request: R,
    machines: Seq<(Option<S>, ConnexionInfo)>,
    id: usize,
    command: Seq<char>,
    ok: bool,
) -> bool {
    let e = machines[id as int];
    if ok {
        e.0 matches Some(s) && exists|c: &str, out: String| c@ == command && #[trigger] request.ensures((id, &s, c), Some(out))
    } else {
        e.0 is None || (e.0 matches Some(s) && exists|c: &str| c@ == command && #[trigger] request.ensures((id, &s, c), None::<String>))
    }
}

/// What running `command` on the machines `ids` gives: when some id names no
/// machine, nothing runs and the error says so; otherwise success means the
/// command ran on every machine, and `ExecFailed` that it could not on some.
pub open spec fn exec_result<S, R: Fn(usize, &S, &str) -> Option<String>>(
    machines: Seq<(Option<S>, ConnexionInfo)>,
    request: R,
    ids: Seq<usize>,
    command: Seq<char>,
    r: Result<(), ShellError>,
) -> bool {
    if exists|j: int| 0 <= j < ids.len() && #[trigger] ids[j] >= machines.len() {
        r == Err::<(), ShellError>(ShellError::Network(NetworkError::IdOutOfRange))
    } else {
        match r {
            Ok(()) => forall|j: int| 0 <= j < ids.len() ==> ran(request, machines, #[trigger] ids[j], command, true),
            Err(e) => e == ShellError::ExecFailed && exists|j: int|
                0 <= j < ids.len() && ran(request, machines, #[trigger] ids[j], command, false),
        }
    }
}

/// The ids that the words spell, when each is a `usize`.
pub open spec fn ids_of(ws: Seq<Seq<char>>) -> Option<Seq<usize>>
    decreases ws.len(),
{
    if ws.len() == 0 {
        Some(Seq::empty())
    } else {
        match (ids_of(ws.drop_last()), usize_value(ws.last())) {
            (Some(ids), Some(id)) => Some(ids.push(id)),
            _ => None,
        }
    }
}

proof fn lemma_ids_of_prefix(ws: Seq<Seq<char>>, k: int)
    requires
        0 <= k <= ws.len(),
        ids_of(ws.take(k)) is None,
    ensures
        ids_of(ws) is None,
    decreases ws.len() - k,
{
    if k < ws.len() {
        assert(ws.take(k + 1).drop_last() =~= ws.take(k));
        lemma_ids_of_prefix(ws, k + 1);
    } else {
        assert(ws.take(k) =~= ws);
    }
}

/// The id that a shell command acts on is the number its second word spells:
/// a word of decimal digits (after an optional `+`) gives its value, when that
/// fits in a `usize`; any other word gives none.
pub proof fn lemma_id_word_is_the_number(inputs: Seq<String>)
    requires
        inputs.len() >= 2,
    ensures
        ({
            let w = inputs[1]@;
            &&& w.len() > 0 && all_digits(w) && decimal_value(w) <= usize::MAX
                ==> id_word(inputs) == Some(decimal_value(w) as usize)
            &&& id_word(inputs) matches Some(id) ==> exists|body: Seq<char>|
                body.len() > 0 && all_digits(body) && decimal_value(body) == id
                    && (w == body || w == seq!['+'] + body)
        }),
{
    let w = inputs[1]@;
    if id_word(inputs) is Some {
        let body = if w.len() > 0 && w[0] == '+' { w.skip(1) } else { w };
        if w.len() > 0 && w[0] == '+' {
            assert(w =~= seq!['+'] + body);
        }
        assert(body.len() > 0 && all_digits(body) && decimal_value(body) == id_word(inputs)->Some_0);
    }
    if w.len() > 0 && all_digits(w) && decimal_value(w) <= usize::MAX {
        assert(crate::text::is_digit(w[0]));
    }
}

/// The ids that words spell are the numbers of the words, one per word, in
/// order: there are ids exactly when every word is a `usize`.
pub proof fn lemma_ids_of_values(ws: Seq<Seq<char>>)
    ensures
        ids_of(ws) is Some <==> forall|k: int| 0 <= k < ws.len() ==> (#[trigger] usize_value(ws[k])) is Some,
        ids_of(ws) matches Some(ids) ==> ids.len() == ws.len() && forall|k: int|
            0 <= k < ws.len() ==> Some(#[trigger] ids[k]) == usize_value(ws[k]),
    decreases ws.len(),
{
    if ws.len() > 0 {
        let front = ws.drop_last();
        lemma_ids_of_values(front);
        if ids_of(ws) is Some {
            assert forall|k: int| 0 <= k < ws.len() implies (#[trigger] usize_value(ws[k])) is Some by {
                if k < ws.len() - 1 {
                    assert(front[k] == ws[k]);
                    assert(usize_value(front[k]) is Some);
                }
            }
            let ids = ids_of(ws)->Some_0;
            let before = ids_of(front)->Some_0;
            assert forall|k: int| 0 <= k < ws.len() implies Some(#[trigger] ids[k]) == usize_value(ws[k]) by {
                if k < ws.len() - 1 {
                    assert(front[k] == ws[k]);
                    assert(Some(before[k]) == usize_value(front[k]));
                }
            }
        }
        if forall|k: int| 0 <= k < ws.len() ==> (#[trigger] usize_value(ws[k])) is Some {
            assert forall|k: int| 0 <= k < front.len() implies (#[trigger] usize_value(front[k])) is Some by {
                assert(front[k] == ws[k]);
                assert(usize_value(ws[k]) is Some);
            }
            assert(usize_value(ws[ws.len() - 1]) is Some);
        }
    }
}

/// `/create_group <name> <ids...>` reads one id per word after the name, each
/// the number its word spells, in order; it reads ids exactly when every such
/// word is a `usize`.
pub proof fn lemma_group_ids_are_the_numbers(inputs: Seq<String>)
    requires
        inputs.len() >= 2,
    ensures
        ids_of(texts(inputs).skip(2)) is Some <==> forall|k: int| 2 <= k < inputs.len() ==> (#[trigger] usize_value(inputs[k]@)) is Some,
        ids_of(texts(inputs).skip(2)) matches Some(ids) ==> ids.len() == inputs.len() - 2 && forall|k: int|
            0 <= k < ids.len() ==> Some(#[trigger] ids[k]) == usize_value(inputs[k + 2]@),
{
    let ws = texts(inputs).skip(2);
    lemma_ids_of_values(ws);
    assert forall|k: int| 2 <= k < inputs.len() implies usize_value(inputs[k]@) == usize_value(#[trigger] ws[k - 2]) by {}
    if forall|k: int| 2 <= k < inputs.len() ==> (#[trigger] usize_value(inputs[k]@)) is Some {
        assert forall|k: int| 0 <= k < ws.len() implies (#[trigger] usize_value(ws[k])) is Some by {
            assert(ws[k] == inputs[k + 2]@);
            assert(usize_value(inputs[k + 2]@) is Some);
        }
    }
    if ids_of(ws) is Some {
        assert forall|k: int| 2 <= k < inputs.len() implies (#[trigger] usize_value(inputs[k]@)) is Some by {
            assert(ws[k - 2] == inputs[k]@);
            assert(usize_value(ws[k - 2]) is Some);
        }
        let ids = ids_of(ws)->Some_0;
        assert forall|k: int| 0 <= k < ids.len() implies Some(#[trigger] ids[k]) == usize_value(inputs[k + 2]@) by {
            assert(ws[k] == inputs[k + 2]@);
            assert(Some(ids[k]) == usize_value(ws[k]));
        }
    }
}

/// The word is a bracketed list `[...]`.
pub open spec fn is_bracketed(w: Seq<char>) -> bool {
    w.len() >= 2 && w[0] == '[' && w.last() == ']'
}

/// The ids of a bracketed list `[i,j,...]`.
pub open spec fn listed_ids(w: Seq<char>) -> Option<Seq<usize>> {
    ids_of(pieces(w.subrange(1, w.len() - 1), ','))
}

/// What `/exec` runs: the ids of the target machines and the command text, or
/// why the target names none.
pub open spec fn exec_plan(inputs: Seq<String>, groups: Map<Seq<char>, Seq<usize>>) -> Result<(Seq<usize>, Seq<char>), ShellError> {
    let target = inputs[1]@;
    if target == seq!['g'] {
        if inputs.len() >= 3 && groups.contains_key(inputs[2]@) {
            Ok((groups[inputs[2]@], joined(texts(inputs).skip(3), seq![' '])))
        } else {
            Err(ShellError::GroupNotFound)
        }
    } else if is_bracketed(target) {
        match listed_ids(target) {
            Some(ids) => Ok((ids, joined(texts(inputs).skip(2), seq![' ']))),
            None => Err(ShellError::IdNotValid),
        }
    } else {
        match usize_value(target) {
            Some(id) => Ok((seq![id], joined(texts(inputs).skip(2), seq![' ']))),
            None => Err(ShellError::IdNotValid),
        }
    }
}

/// `/exec [i,j,...] <command...>` runs on exactly the ids listed, one per
/// comma-separated item, in order, each the number its item spells; it runs
/// at all exactly when every item is a `usize`.
pub proof fn lemma_listed_target_runs_every_listed_id(inputs: Seq<String>, groups: Map<Seq<char>, Seq<usize>>)
    requires
        inputs.len() >= 2,
        inputs[1]@ != seq!['g'],
        is_bracketed(inputs[1]@),
    ensures
        ({
            let items = pieces(inputs[1]@.subrange(1, inputs[1]@.len() - 1), ',');
            &&& exec_plan(inputs, groups) is Ok <==> forall|k: int| 0 <= k < items.len() ==> (#[trigger] usize_value(items[k])) is Some
            &&& exec_plan(inputs, groups) matches Ok((ids, command)) ==> {
                &&& ids.len() == items.len()
                &&& forall|k: int| 0 <= k < ids.len() ==> Some(#[trigger] ids[k]) == usize_value(items[k])
                &&& command == joined(texts(inputs).skip(2), seq![' '])
            }
        }),
{
    lemma_ids_of_values(pieces(inputs[1]@.subrange(1, inputs[1]@.len() - 1), ','));
}

/// `/exec <id> <command...>` with a plain number runs on that one machine only:
/// a target of decimal digits whose value fits in a `usize` runs on exactly the
/// machine with that id, and a target that is no number, no list and no `g`
/// runs nothing.
pub proof fn lemma_single_target_runs_that_id(inputs: Seq<String>, groups: Map<Seq<char>, Seq<usize>>)
    requires
        inputs.len() >= 2,
        inputs[1]@ != seq!['g'],
        !is_bracketed(inputs[1]@),
    ensures
        ({
            let w = inputs[1]@;
            &&& w.len() > 0 && all_digits(w) && decimal_value(w) <= usize::MAX ==> exec_plan(inputs, groups)
                == Ok::<(Seq<usize>, Seq<char>), ShellError>((seq![decimal_value(w) as usize], joined(texts(inputs).skip(2), seq![' '])))
            &&& exec_plan(inputs, groups) matches Ok((ids, command)) ==> ids.len() == 1 && Some(ids[0]) == id_word(inputs)
            &&& exec_plan(inputs, groups) is Err <==> id_word(inputs) is None
        }),
{
    lemma_id_word_is_the_number(inputs);
}

/// Line `i` of `/network` starts `id: `, then a decimal number that reads back
/// as `i`, then `, ` and the machine's state.
pub proof fn lemma_numbered_line_reads_back(id: nat, state: Seq<char>)
    ensures
        exists|number: Seq<char>|
            number.len() > 0 && all_digits(number) && decimal_value(number) == id
                && #[trigger] numbered_line(id, state) == seq!['i', 'd', ':', ' '] + number + seq![',', ' '] + state,
{
    crate::text::lemma_nat_text_reads_back(id);
    assert(numbered_line(id, state) == seq!['i', 'd', ':', ' '] + nat_text(id) + seq![',', ' '] + state);
}

/// Once `/create_group <name> <ids...>` has set a group, `/exec g <name> <command...>`
/// runs the command on exactly the group's ids, in the order they were given.
pub proof fn lemma_created_group_is_exec_target(
    create: Seq<String>,
    exec: Seq<String>,
    groups: Map<Seq<char>, Seq<usize>>,
)
    requires
        create.len() >= 2,
        ids_of(texts(create).skip(2)) is Some,
        exec.len() >= 3,
        exec[1]@ == seq!['g'],
        exec[2]@ == create[1]@,
    ensures
        exec_plan(exec, groups.insert(create[1]@, ids_of(texts(create).skip(2))->Some_0)) == Ok::<
            (Seq<usize>, Seq<char>),
            ShellError,
        >((ids_of(texts(create).skip(2))->Some_0, joined(texts(exec).skip(3), seq![' ']))),
{
}

/// Once `/remove_group <name>` has removed a group, `/exec g <name> ...` finds no
/// such group and runs nothing.
pub proof fn lemma_removed_group_is_no_target(
    exec: Seq<String>,
    name: Seq<char>,
    groups: Map<Seq<char>, Seq<usize>>,
)
    requires
        exec.len() >= 2,
        exec[1]@ == seq!['g'],
        exec.len() >= 3 ==> exec[2]@ == name,
    ensures
        exec_plan(exec, groups.remove(name)) == Err::<(Seq<usize>, Seq<char>), ShellError>(
            ShellError::GroupNotFound,
        ),
{
}

/// The ids of a bracketed list word: `None` when the word is no bracketed list,
/// `Some(None)` when it is one whose items are not all ids.
pub fn parse_id_list(word: &str) -> (r: Option<Option<Vec<usize>>>)
    ensures
        match r {
            None => !is_bracketed(word@),
            Some(None) => is_bracketed(word@) && listed_ids(word@) is None,
            Some(Some(ids)) => is_bracketed(word@) && listed_ids(word@) == Some(ids@),
        },
{
    let cs = chars_of(word);
    let n = cs.len();
    if n < 2 || cs[0] != '[' || cs[n - 1] != ']' {
        return None;
    }
    let inner = string_of(&cs, 1, n - 1);
    let items = split_pieces(inner.as_str(), ',');
    assert(is_bracketed(word@));
    assert(texts(items@) == pieces(word@.subrange(1, word@.len() - 1), ','));
    let mut ids: Vec<usize> = Vec::new();
    let mut i: usize = 0;
    while i < items.len()
        invariant
            i <= items@.len(),
            is_bracketed(word@),
            texts(items@) == pieces(word@.subrange(1, word@.len() - 1), ','),
            ids_of(texts(items@).take(i as int)) == Some(ids@),
        decreases items@.len() - i,
    {
        let ghost done = texts(items@).take(i as int);
        let ghost next = texts(items@).take(i + 1);
        assert(next.drop_last() =~= done);
        assert(next.last() == items@[i as int]@);
        match parse_usize(items[i].as_str()) {
            None => {
                proof {
                    lemma_ids_of_prefix(texts(items@), i + 1);
                }
                return Some(None);
            },
            Some(id) => {
                ids.push(id);
            },
        }
        i = i + 1;
    }
    assert(texts(items@).take(items@.len() as int) =~= texts(items@));
    Some(Some(ids))
}

/// The interactive shell.
pub struct Interactiv;

impl Interactiv {
    /// The words of an input line.
    pub fn split_line(line: &str) -> (r: Vec<String>)
        ensures
            texts(r@) == words(line@),
    {
        split_words(line)
    }

    /// The command that the first word of the input names.
    pub fn command(inputs: &Vec<String>) -> (r: ShellCommand)
        requires
            inputs@.len() >= 1,
        ensures
            r == shell_command_of(inputs@[0]@),
    {
        let w = inputs[0].as_str();
        if same_text(w, "/help") {
            ShellCommand::Help
        } else if same_text(w, "/network") {
            ShellCommand::Network
        } else if same_text(w, "/exit") {
            ShellCommand::Exit
        } else if same_text(w, "/add") {
            ShellCommand::Add
        } else if same_text(w, "/remove") {
            ShellCommand::Remove
        } else if same_text(w, "/connect") {
            ShellCommand::Connect
        } else if same_text(w, "/disconnect") {
            ShellCommand::Disconnect
        } else if same_text(w, "/exec") {
            ShellCommand::Exec
        } else if same_text(w, "/create_group") {
            ShellCommand::CreateGroup
        } else if same_text(w, "/remove_group") {
            ShellCommand::RemoveGroup
        } else {
            ShellCommand::Unknown
        }
    }

    /// `/add <user> <ip> <port>`: adds a machine without a session.
    pub fn add_machine<S>(network: &mut ControlNetwork<S>, inputs: Vec<String>) -> (r: Result<(), ShellError>)
        requires
            inputs@.len() >= 4,
        ensures
            match i32_value(inputs@[3]@) {
                None => r == Err::<(), ShellError>(ShellError::PortNotValid) && final(network)@ == old(network)@,
                Some(port) => {
                    &&& r == Ok::<(), ShellError>(())
                    &&& final(network)@.len() == old(network)@.len() + 1
                    &&& final(network)@.drop_last() == old(network)@
                    &&& final(network)@.last().0 is None
                    &&& final(network)@.last().1@ == (inputs@[1]@, inputs@[2]@, port)
                },
            },
    {
        let user = inputs[1].clone();
        let ip = inputs[2].clone();
        match parse_i32(inputs[3].as_str()) {
            None => Err(ShellError::PortNotValid),
            Some(port) => {
                let conn_info = ConnexionInfo::new(user, ip, port);
                network.add_machine(conn_info);
                assert(network@.drop_last() =~= old(network)@);
                Ok(())
            },
        }
    }

    /// `/remove <id>`: removes a machine (see `ControlNetwork::remove_machine`).
    pub fn remove_machine<S, F: Fn(&S) -> bool, H: Fn(S) -> bool>(
        network: &mut ControlNetwork<S>,
        inputs: Vec<String>,
        check: &F,
        close: &H,
    ) -> (r: Result<(), ShellError>)
        requires
            inputs@.len() >= 2,
            forall|s: &S| check.requires((s,)),
            forall|s: S| close.requires((s,)),
        ensures
            match id_word(inputs@) {
                None => r == Err::<(), ShellError>(ShellError::IdNotValid) && final(network)@ == old(network)@,
                Some(id) => {
                    let v = old(network)@;
                    match r {
                        Ok(()) => {
                            &&& id < v.len()
                            &&& final(network)@ == v.remove(id as int)
                            &&& reported_dead(*check, v[id as int]) || (reported_alive(*check, v[id as int])
                                && close.ensures((v[id as int].0->Some_0,), true))
                        },
                        Err(e) => if id >= v.len() {
                            e == ShellError::Network(NetworkError::IdOutOfRange) && final(network)@ == v
                        } else {
                            &&& e == ShellError::Network(NetworkError::SessionNotConnected)
                            &&& reported_alive(*check, v[id as int])
                            &&& close.ensures((v[id as int].0->Some_0,), false)
                            &&& final(network)@ == without_session(v, id as int)
                        },
                    }
                },
            },
    {
        match parse_usize(inputs[1].as_str()) {
            None => Err(ShellError::IdNotValid),
            Some(id) => match network.remove_machine(id, check, close) {
                Ok(()) => Ok(()),
                Err(e) => Err(ShellError::Network(e)),
            },
        }
    }

    /// `/connect <id>`: makes sure the machine has a live session
    /// (see `ControlNetwork::update_session`).
    pub fn connect_machine<S, F: Fn(&S) -> bool, G: Fn(&ConnexionInfo) -> Option<S>>(
        network: &mut ControlNetwork<S>,
        inputs: Vec<String>,
        check: &F,
        connect: &G,
    ) -> (r: Result<SessionUpdate, ShellError>)
        requires
            inputs@.len() >= 2,
            !names_no_machine(inputs@, old(network)@.len()),
            forall|s: &S| check.requires((s,)),
            forall|c: &ConnexionInfo| connect.requires((c,)),
        ensures
            match id_word(inputs@) {
                None => r == Err::<SessionUpdate, ShellError>(ShellError::IdNotValid) && final(network)@ == old(network)@,
                Some(id) => r matches Ok(u) && ({
                    let v = old(network)@;
                    let e = v[id as int];
                    match u {
                        SessionUpdate::AlreadyConnected => reported_alive(*check, e) && final(network)@ == v,
                        SessionUpdate::Connected => {
                            &&& reported_dead(*check, e)
                            &&& final(network)@[id as int].0 matches Some(ns)
                            &&& connect.ensures((&e.1,), Some(ns))
                            &&& final(network)@ == v.update(id as int, (final(network)@[id as int].0, e.1))
                        },
                        SessionUpdate::ConnectionFailed => {
                            &&& reported_dead(*check, e)
                            &&& connect.ensures((&e.1,), None::<S>)
                            &&& final(network)@ == v
                        },
                    }
                }),
            },
    {
        match parse_usize(inputs[1].as_str()) {
            None => Err(ShellError::IdNotValid),
            Some(id) => Ok(network.update_session(id, check, connect)),
        }
    }

    /// `/disconnect <id>`: drops and closes the machine's session
    /// (see `ControlNetwork::close_session`).
    pub fn disconnect_machine<S, H: Fn(S) -> bool>(
        network: &mut ControlNetwork<S>,
        inputs: Vec<String>,
        close: &H,
    ) -> (r: Result<(), ShellError>)
        requires
            inputs@.len() >= 2,
            !names_no_machine(inputs@, old(network)@.len()),
            forall|s: S| close.requires((s,)),
        ensures
            match id_word(inputs@) {
                None => r == Err::<(), ShellError>(ShellError::IdNotValid) && final(network)@ == old(network)@,
                Some(id) => {
                    &&& final(network)@ == without_session(old(network)@, id as int)
                    &&& match old(network)@[id as int].0 {
                        None => r == Err::<(), ShellError>(ShellError::Network(NetworkError::NoSession)),
                        Some(s) => match r {
                            Ok(()) => close.ensures((s,), true),
                            Err(e) => e == ShellError::Network(NetworkError::SessionNotConnected)
                                && close.ensures((s,), false),
                        },
                    }
                },
            },
    {
        match parse_usize(inputs[1].as_str()) {
            None => Err(ShellError::IdNotValid),
            Some(id) => match network.close_session(id, close) {
                Ok(()) => Ok(()),
                Err(e) => Err(ShellError::Network(e)),
            },
        }
    }

    /// `/exec <target> <command...>`: runs the words after the target, joined by
    /// spaces, on each machine the target names (see `ControlNetwork::exec`); the
    /// outputs are dropped. The target is an id, a list `[i,j,...]` of ids, or
    /// `g <name>` for the machines of a group. A list or group that names a
    /// machine the network does not have runs nothing; otherwise every machine
    /// is tried, and the command fails when it fails on any of them.
    pub fn exec_command<S, R: Fn(usize, &S, &str) -> Option<String>>(
        network: &ControlNetwork<S>,
        groups: &Groups,
        inputs: Vec<String>,
        request: &R,
    ) -> (r: Result<(), ShellError>)
        requires
            inputs@.len() >= 2,
            !names_no_machine(inputs@, network@.len()),
            forall|i: usize, s: &S, c: &str| request.requires((i, s, c)),
        ensures
            match exec_plan(inputs@, groups@) {
                Err(e) => r == Err::<(), ShellError>(e),
                Ok((ids, command)) => exec_result(network@, *request, ids, command, r),
            },
    {
        proof {
            reveal_strlit("g");
            reveal_strlit(" ");
        }
        assert(" "@ =~= seq![' ']);
        assert("g"@ =~= seq!['g']);
        let target = inputs[1].as_str();
        let ghost plan = exec_plan(inputs@, groups@);
        if same_text(target, "g") {
            assert(inputs@[1]@ == seq!['g']);
            if inputs.len() < 3 {
                return Err(ShellError::GroupNotFound);
            }
            match groups.get(inputs[2].as_str()) {
                None => Err(ShellError::GroupNotFound),
                Some(ids) => {
                    let command = join_from(&inputs, 3, " ");
                    assert(plan == Ok::<(Seq<usize>, Seq<char>), ShellError>((ids@, command@)));
                    Self::exec_on(network, ids, command.as_str(), request)
                },
            }
        } else {
            assert(inputs@[1]@ != seq!['g']);
            let listed = parse_id_list(target);
            match listed {
                Some(Some(ids)) => {
                    let command = join_from(&inputs, 2, " ");
                    assert(plan == Ok::<(Seq<usize>, Seq<char>), ShellError>((ids@, command@)));
                    Self::exec_on(network, &ids, command.as_str(), request)
                },
                Some(None) => Err(ShellError::IdNotValid),
                None => match parse_usize(target) {
                    None => Err(ShellError::IdNotValid),
                    Some(id) => {
                        let command = join_from(&inputs, 2, " ");
                        let ids = vec![id];
                        assert(ids@ =~= seq![id]);
                        assert(plan == Ok::<(Seq<usize>, Seq<char>), ShellError>((ids@, command@)));
                        Self::exec_on(network, &ids, command.as_str(), request)
                    },
                },
            }
        }
    }

    /// Runs `command` on each machine of `ids`, in order, once all are known to exist.
    fn exec_on<S, R: Fn(usize, &S, &str) -> Option<String>>(
        network: &ControlNetwork<S>,
        ids: &Vec<usize>,
        command: &str,
        request: &R,
    ) -> (r: Result<(), ShellError>)
        requires
            forall|i: usize, s: &S, c: &str| request.requires((i, s, c)),
        ensures
            exec_result(network@, *request, ids@, command@, r),
    {
        let n = network.get_connexions_len();
        let mut j: usize = 0;
        while j < ids.len()
            invariant
                n == network@.len(),
                j <= ids@.len(),
                forall|i: int| 0 <= i < j ==> #[trigger] ids@[i] < n,
            decreases ids@.len() - j,
        {
            if ids[j] >= n {
                return Err(ShellError::Network(NetworkError::IdOutOfRange));
            }
            j = j + 1;
        }
        let mut all_ran = true;
        let mut j: usize = 0;
        while j < ids.len()
            invariant
                n == network@.len(),
                j <= ids@.len(),
                forall|i: int| 0 <= i < ids@.len() ==> #[trigger] ids@[i] < n,
                forall|i: usize, s: &S, c: &str| request.requires((i, s, c)),
                all_ran ==> forall|i: int| 0 <= i < j ==> ran(*request, network@, #[trigger] ids@[i], command@, true),
                !all_ran ==> exists|i: int| 0 <= i < j && ran(*request, network@, #[trigger] ids@[i], command@, false),
            decreases ids@.len() - j,
        {
            let id = ids[j];
            let res = network.exec(command, id, request);
            proof {
                let e = network@[id as int];
                if e.0 is Some {
                    let s = e.0->Some_0;
                    if res is Ok {
                        assert(request.ensures((id, &s, command), Some(res->Ok_0)));
                    } else {
                        assert(request.ensures((id, &s, command), None::<String>));
                    }
                }
            }
            match res {
                Ok(_) => {},
                Err(_) => {
                    all_ran = false;
                },
            }
            assert(ids@[j as int] == id);
            j = j + 1;
        }
        if all_ran {
            Ok(())
        } else {
            Err(ShellError::ExecFailed)
        }
    }

    /// `/create_group <name> <id>...`: sets the group `name` to these ids
    /// (replacing a group of that name).
    pub fn create_group(groups: &mut Groups, inputs: Vec<String>) -> (r: Result<(), ShellError>)
        requires
            inputs@.len() >= 2,
        ensures
            match ids_of(texts(inputs@).skip(2)) {
                None => r == Err::<(), ShellError>(ShellError::IdNotValid) && final(groups)@ == old(groups)@,
                Some(ids) => r == Ok::<(), ShellError>(()) && final(groups)@ == old(groups)@.insert(inputs@[1]@, ids),
            },
    {
        let mut ids: Vec<usize> = Vec::new();
        let mut i: usize = 2;
        while i < inputs.len()
            invariant
                2 <= i <= inputs@.len(),
                ids_of(texts(inputs@).skip(2).take(i - 2)) == Some(ids@),
            decreases inputs@.len() - i,
        {
            let ghost done = texts(inputs@).skip(2).take(i - 2);
            let ghost next = texts(inputs@).skip(2).take(i + 1 - 2);
            assert(next.drop_last() =~= done);
            assert(next.last() == inputs@[i as int]@);
            match parse_usize(inputs[i].as_str()) {
                None => {
                    proof {
                        lemma_ids_of_prefix(texts(inputs@).skip(2), i + 1 - 2);
                    }
                    return Err(ShellError::IdNotValid);
                },
                Some(id) => {
                    ids.push(id);
                },
            }
            i = i + 1;
        }
        assert(texts(inputs@).skip(2).take(inputs@.len() - 2) =~= texts(inputs@).skip(2));
        groups.insert(inputs[1].clone(), ids);
        Ok(())
    }

    /// `/remove_group <name>`: removes the group `name`.
    pub fn remove_group(groups: &mut Groups, inputs: Vec<String>) -> (r: Result<(), ShellError>)
        requires
            inputs@.len() >= 2,
        ensures
            final(groups)@ == old(groups)@.remove(inputs@[1]@),
            r == (if old(groups)@.contains_key(inputs@[1]@) {
                Ok::<(), ShellError>(())
            } else {
                Err(ShellError::GroupNotFound)
            }),
    {
        if groups.remove(inputs[1].as_str()) {
            Ok(())
        } else {
            Err(ShellError::GroupNotFound)
        }
    }

    /// `/network`: one line per machine, `id: <id>, <state line>`
    /// (see `ControlNetwork::get_network_state`).
    pub fn show_network<S, F: Fn(&S) -> bool>(
        network: &ControlNetwork<S>,
        inputs: Vec<String>,
        check: &F,
    ) -> (lines: Vec<String>)
        requires
            forall|s: &S| check.requires((s,)),
        ensures
            lines@.len() == network@.len(),
            forall|i: int|
                0 <= i < network@.len() ==> {
                    ||| (#[trigger] lines@[i])@ == numbered_line(i as nat, state_line(network@[i].1, true))
                        && reported_alive(*check, network@[i])
                    ||| lines@[i]@ == numbered_line(i as nat, state_line(network@[i].1, false))
                        && reported_dead(*check, network@[i])
                },
    {
        let mut lines: Vec<String> = Vec::new();
        match network.get_network_state(check) {
            Ok(states) => {
                let n = states.len();
                let mut i: usize = 0;
                while i < n
                    invariant
                        n == states@.len(),
                        n == network@.len(),
                        i <= n,
                        lines@.len() == i,
                        forall|j: int|
                            0 <= j < n ==> {
                                ||| (#[trigger] states@[j])@ == state_line(network@[j].1, true) && reported_alive(*check, network@[j])
                                ||| states@[j]@ == state_line(network@[j].1, false) && reported_dead(*check, network@[j])
                            },
                        forall|j: int|
                            0 <= j < i ==> {
                                ||| (#[trigger] lines@[j])@ == numbered_line(j as nat, state_line(network@[j].1, true))
                                    && reported_alive(*check, network@[j])
                                ||| lines@[j]@ == numbered_line(j as nat, state_line(network@[j].1, false))
                                    && reported_dead(*check, network@[j])
                            },
                    decreases n - i,
                {
                    let mut line = String::from_str("id: ");
                    proof {
                        reveal_strlit("id: ");
                        reveal_strlit(", ");
                    }
                    let number = nat_to_text(i as u64);
                    line.append(number.as_str());
                    line.append(", ");
                    line.append(states[i].as_str());
                    assert(line@ =~= numbered_line(i as nat, states@[i as int]@));
                    lines.push(line);
                    i = i + 1;
                }
            },
            Err(_) => {},
        }
        lines
    }
}

} // verus!
