//! The process id of the daemon, as its file tells it to other processes.

use vstd::prelude::*;
use vstd::string::*;

use crate::text::{
    decimal, is_digit, is_white, lemma_decimal_spells, number_in, push_decimal, read_number,
    trimmed_end, trimmed_start, with_number,
};

verus! {

/// The largest process id.
pub const PID_MAX: u32 = 0x7fff_ffff;

/// The process id in a text: decimal digits, with white space around them or not.
pub open spec fn pid_in(text: Seq<char>) -> Option<u32> {
    match number_in(trimmed_end(trimmed_start(text)), PID_MAX) {
        Some(n) if n > 0 => Some(n),
        _ => None,
    }
}

/// Reads the process id in a text.
pub fn read_pid(text: &str) -> (r: Option<u32>)
    ensures
        r == pid_in(text@),
{
    match read_number(text.trim(), PID_MAX) {
        Some(n) => if n > 0 {
            Some(n)
        } else {
            None
        },
        None => None,
    }
}

/// What the daemon writes into its file.
pub open spec fn pid_text(pid: u32) -> Seq<char> {
    decimal(pid as nat).push('\n')
}

/// What the daemon writes into its file.
pub fn pid_line(pid: u32) -> (r: String)
    ensures
        r@ == pid_text(pid),
{
    let mut line = String::from_str("");
    push_decimal(&mut line, pid as u64);
    line.append("\n");
    proof {
        reveal_strlit("");
        reveal_strlit("\n");
        assert(line@ =~= pid_text(pid));
    }
    line
}

/// What is shown of the daemon: the process it runs in, or that it does not run.
pub open spec fn status_text(running: Option<u32>) -> Seq<char> {
    match running {
        Some(pid) => "running (pid="@ + decimal(pid as nat) + ")"@,
        None => "stopped"@,
    }
}

/// What is shown of the daemon: the process it runs in, or that it does not run.
pub fn status_line(running: Option<u32>) -> (r: String)
    ensures
        r@ == status_text(running),
{
    match running {
        Some(pid) => {
            let mut line = with_number("running (pid=", pid as u64);
            line.append(")");
            line
        },
        None => String::from_str("stopped"),
    }
}

/// What the daemon writes into its file reads back as its process id.
pub proof fn lemma_pid_reads_back(pid: u32)
    requires
        0 < pid <= PID_MAX,
    ensures
        pid_in(pid_text(pid)) == Some(pid),
{
    let d = decimal(pid as nat);
    let text = pid_text(pid);
    lemma_decimal_spells(pid as nat);
    assert(is_digit(d[0]));
    assert(is_digit(d[d.len() - 1]));
    assert(text[0] == d[0]);
    assert(trimmed_start(text) == text);
    assert(is_white('\n'));
    assert(text.last() == '\n');
    assert(text.drop_last() =~= d);
    assert(!is_white(d.last()));
    assert(trimmed_end(d) == d);
    assert(trimmed_end(text) == d);
}

/// What is no process id: zero, and a number above `2^31 - 1`.
pub proof fn lemma_what_is_no_pid(text: Seq<char>, n: u32)
    ensures
        n == 0 || n > 0x7fff_ffff ==> pid_in(decimal(n as nat)) is None,
        pid_in(text) matches Some(p) ==> p > 0,
{
    let d = decimal(n as nat);
    lemma_decimal_spells(n as nat);
    assert(is_digit(d[0]));
    assert(is_digit(d[d.len() - 1]));
    assert(trimmed_start(d) == d);
    assert(trimmed_end(d) == d);
}

/// What is shown: `running`, with the process id, or `stopped`.
pub proof fn lemma_what_is_shown(pid: u32)
    ensures
        status_text(Some(pid)) == "running (pid="@ + decimal(pid as nat) + ")"@,
        status_text(None) == "stopped"@,
{
}

} // verus!
