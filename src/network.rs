//! The supervisor's decisions: how a child's exit is judged and reported, and
//! the identity maps written for the switch's user namespace.
use vstd::prelude::*;
use crate::config::decimal;
use crate::config::decimal_string;

verus! {

/// How a child process ended.
#[derive(Clone, Copy, Debug, PartialEq, Eq, Structural)]
pub enum ExitOutcome {
    /// It exited with this code.
    Exited(i32),
    /// A signal with this number ended it.
    Signaled(i32),
    /// Anything else that waiting reported.
    Other,
}

/// Why the network failed.
#[derive(Clone, Copy, Debug, PartialEq, Eq, Structural)]
pub enum NetworkError {
    /// The switch reported that some nodes failed.
    SomeNodesFailed,
}

/// Decimal text of a signed integer, with a leading `-` when negative.
pub open spec fn signed_decimal(x: int) -> Seq<char> {
    if x < 0 {
        seq!['-'] + decimal((-x) as nat)
    } else {
        decimal(x as nat)
    }
}

fn signed_decimal_string(x: i32) -> (r: String)
    ensures
        r@ == signed_decimal(x as int),
{
    if x < 0 {
        let mut s = String::from_str("-");
        let m: i64 = -(x as i64);
        s.append(decimal_string(m as u64).as_str());
        proof {
            reveal_strlit("-");
        }
        assert(s@ =~= signed_decimal(x as int));
        s
    } else {
        decimal_string(x as u64)
    }
}

/// Names what nix gives as the name of signal number `n` (`SIGKILL` for 9 on
/// Linux), or nothing for a number that is no signal it knows.
pub uninterp spec fn signal_name(n: i32) -> Option<Seq<char>>;

/// Relies on nix's `Signal::try_from` and `Signal::as_str`: the signal's name, as
/// nix's `Debug` of `Signal` also writes it.
#[verifier::external_body]
fn signal_name_string(n: i32) -> (r: Option<String>)
    ensures
        match r {
            Some(t) => signal_name(n) == Some(t@),
            None => signal_name(n) is None,
        },
{
    match nix::sys::signal::Signal::try_from(n) {
        Ok(sig) => Some(sig.as_str().to_string()),
        Err(_) => None,
    }
}

/// How a signal is named in a report: its name, or its number when it has none.
pub open spec fn signal_text(n: i32) -> Seq<char> {
    match signal_name(n) {
        Some(name) => name,
        None => signed_decimal(n as int),
    }
}

/// Whether a child succeeded: it exited with code 0.
pub open spec fn succeeded(o: ExitOutcome) -> bool {
    o == ExitOutcome::Exited(0)
}

/// Whether a child succeeded: it exited with code 0.
pub fn exit_ok(o: &ExitOutcome) -> (r: bool)
    ensures
        r == succeeded(*o),
{
    match o {
        ExitOutcome::Exited(c) => *c == 0,
        _ => false,
    }
}

/// How an exit is reported: `code <n>`, `signal <name>` or `unknown`.
pub open spec fn outcome_text(o: ExitOutcome) -> Seq<char> {
    match o {
        ExitOutcome::Exited(c) => seq!['c', 'o', 'd', 'e', ' '] + signed_decimal(c as int),
        ExitOutcome::Signaled(s) => seq!['s', 'i', 'g', 'n', 'a', 'l', ' '] + signal_text(s),
        ExitOutcome::Other => seq!['u', 'n', 'k', 'n', 'o', 'w', 'n'],
    }
}

/// How an exit is reported: `code <n>`, `signal <name>` or `unknown`.
pub fn exit_text(o: &ExitOutcome) -> (r: String)
    ensures
        r@ == outcome_text(*o),
{
    let mut s: String;
    match o {
        ExitOutcome::Exited(c) => {
            s = String::from_str("code ");
            s.append(signed_decimal_string(*c).as_str());
            proof {
                reveal_strlit("code ");
            }
        },
        ExitOutcome::Signaled(g) => {
            s = String::from_str("signal ");
            match signal_name_string(*g) {
                Some(name) => s.append(name.as_str()),
                None => s.append(signed_decimal_string(*g).as_str()),
            }
            proof {
                reveal_strlit("signal ");
            }
        },
        ExitOutcome::Other => {
            s = String::from_str("unknown");
            proof {
                reveal_strlit("unknown");
            }
        },
    }
    assert(s@ =~= outcome_text(*o));
    s
}

/// The report line of node `i`: `- node <i> exited with <outcome>`.
pub open spec fn node_line(i: nat, o: ExitOutcome) -> Seq<char> {
    seq!['-', ' ', 'n', 'o', 'd', 'e', ' '] + decimal(i) + seq![
        ' ',
        'e',
        'x',
        'i',
        't',
        'e',
        'd',
        ' ',
        'w',
        'i',
        't',
        'h',
        ' ',
    ] + outcome_text(o) + seq!['\n']
}

/// The report lines of the first `k` nodes.
pub open spec fn node_lines(os: Seq<ExitOutcome>, k: int) -> Seq<char>
    decreases k,
{
    if k <= 0 {
        Seq::empty()
    } else {
        node_lines(os, k - 1) + node_line((k - 1) as nat, os[k - 1])
    }
}

/// The header of the failure report.
pub open spec fn report_header() -> Seq<char> {
    seq![
        's',
        'o',
        'm',
        'e',
        ' ',
        'n',
        'o',
        'd',
        'e',
        's',
        ' ',
        'f',
        'a',
        'i',
        'l',
        'e',
        'd',
        ':',
        '\n',
    ]
}

/// Judges the nodes' exits: success when every node succeeded, else the report
/// that lists how each node ended.
pub fn judge_nodes(outcomes: &Vec<ExitOutcome>) -> (r: Result<(), String>)
    ensures
        match r {
            Ok(_) => forall|i: int| 0 <= i < outcomes@.len() ==> succeeded(#[trigger] outcomes@[i]),
            Err(s) => (exists|i: int| 0 <= i < outcomes@.len() && !succeeded(#[trigger] outcomes@[i]))
                && s@ == report_header() + node_lines(outcomes@, outcomes@.len() as int),
        },
{
    let mut i: usize = 0;
    let mut all_ok = true;
    while i < outcomes.len()
        invariant
            i <= outcomes@.len(),
            all_ok == forall|j: int| 0 <= j < i ==> succeeded(#[trigger] outcomes@[j]),
        decreases outcomes@.len() - i,
    {
        if !exit_ok(&outcomes[i]) {
            all_ok = false;
        }
        i = i + 1;
    }
    if all_ok {
        return Ok(());
    }
    let mut s = String::from_str("some nodes failed:\n");
    proof {
        reveal_strlit("some nodes failed:\n");
        reveal_strlit("- node ");
        reveal_strlit(" exited with ");
        reveal_strlit("\n");
    }
    assert(s@ =~= report_header());
    let mut i: usize = 0;
    while i < outcomes.len()
        invariant
            i <= outcomes@.len(),
            s@ == report_header() + node_lines(outcomes@, i as int),
            "- node "@ == seq!['-', ' ', 'n', 'o', 'd', 'e', ' '],
            " exited with "@ == seq![' ', 'e', 'x', 'i', 't', 'e', 'd', ' ', 'w', 'i', 't', 'h', ' '],
            "\n"@ == seq!['\n'],
        decreases outcomes@.len() - i,
    {
        s.append("- node ");
        s.append(decimal_string(i as u64).as_str());
        s.append(" exited with ");
        s.append(exit_text(&outcomes[i]).as_str());
        s.append("\n");
        i = i + 1;
        assert(s@ =~= report_header() + node_lines(outcomes@, i as int));
    }
    Err(s)
}

/// Judges the switch's exit: the network succeeded when the switch exited with 0.
pub fn judge_switch(o: &ExitOutcome) -> (r: Result<(), NetworkError>)
    ensures
        r is Ok <==> succeeded(*o),
        r is Err ==> r == Err::<(), NetworkError>(NetworkError::SomeNodesFailed),
{
    if exit_ok(o) {
        Ok(())
    } else {
        Err(NetworkError::SomeNodesFailed)
    }
}

/// `/proc/<pid>/<file>`.
pub open spec fn proc_path(pid: u32, file: Seq<char>) -> Seq<char> {
    seq!['/', 'p', 'r', 'o', 'c', '/'] + decimal(pid as nat) + seq!['/'] + file
}

/// An identity map of one id: `0 <id> 1`, the id seen as root inside.
pub open spec fn id_map_line(id: u32) -> Seq<char> {
    seq!['0', ' '] + decimal(id as nat) + seq![' ', '1']
}

/// The running virtual network, known by its switch process.
pub struct Network {
    switch_pid: u32,
}

impl Network {
    pub closed spec fn pid_spec(&self) -> u32 {
        self.switch_pid
    }

    /// The network whose switch runs as process `switch_pid`.
    pub fn new(switch_pid: u32) -> (r: Network)
        ensures
            r.pid_spec() == switch_pid,
    {
        Network { switch_pid }
    }

    /// The switch's process id.
    pub fn switch_pid(&self) -> (r: u32)
        ensures
            r == self.pid_spec(),
    {
        self.switch_pid
    }

    fn proc_file(&self, file: &str) -> (r: String)
        ensures
            r@ == proc_path(self.pid_spec(), file@),
    {
        let mut s = String::from_str("/proc/");
        s.append(decimal_string(self.switch_pid as u64).as_str());
        s.append("/");
        s.append(file);
        proof {
            reveal_strlit("/proc/");
            reveal_strlit("/");
        }
        assert(s@ =~= proc_path(self.switch_pid, file@));
        s
    }

    /// Where the switch's user map is written.
    pub fn uid_map_path(&self) -> (r: String)
        ensures
            r@ == proc_path(self.pid_spec(), seq!['u', 'i', 'd', '_', 'm', 'a', 'p']),
    {
        proof {
            reveal_strlit("uid_map");
        }
        self.proc_file("uid_map")
    }

    /// Where the switch's group map is written.
    pub fn gid_map_path(&self) -> (r: String)
        ensures
            r@ == proc_path(self.pid_spec(), seq!['g', 'i', 'd', '_', 'm', 'a', 'p']),
    {
        proof {
            reveal_strlit("gid_map");
        }
        self.proc_file("gid_map")
    }

    /// Where `deny` is written, before the group map, so that the kernel accepts it.
    pub fn setgroups_path(&self) -> (r: String)
        ensures
            r@ == proc_path(
                self.pid_spec(),
                seq!['s', 'e', 't', 'g', 'r', 'o', 'u', 'p', 's'],
            ),
    {
        proof {
            reveal_strlit("setgroups");
        }
        self.proc_file("setgroups")
    }

    /// The map line that makes `id` root inside the switch's namespace.
    pub fn id_map(id: u32) -> (r: String)
        ensures
            r@ == id_map_line(id),
    {
        let mut s = String::from_str("0 ");
        s.append(decimal_string(id as u64).as_str());
        s.append(" 1");
        proof {
            reveal_strlit("0 ");
            reveal_strlit(" 1");
        }
        assert(s@ =~= id_map_line(id));
        s
    }
}

/// The name a process of the network shows: `testnet/<name>`.
pub open spec fn process_name_of(name: Seq<char>) -> Seq<char> {
    seq!['t', 'e', 's', 't', 'n', 'e', 't', '/'] + name
}

/// The name a process of the network shows: `testnet/<name>`.
pub fn process_name(name: &str) -> (r: String)
    ensures
        r@ == process_name_of(name@),
{
    let mut s = String::from_str("testnet/");
    s.append(name);
    proof {
        reveal_strlit("testnet/");
    }
    assert(s@ =~= process_name_of(name@));
    s
}

} // verus!
