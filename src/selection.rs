//! Which services a command offers, preselects and acts on.
use vstd::prelude::*;
use crate::logstore::{lines_of, split_lines, texts};
use crate::text::{parse_u32, parsed_u32};

verus! {

/// Preselects the services that have a known port and are not running yet.
pub fn preselect(ports: &Vec<Option<u16>>, running: &Vec<bool>) -> (r: Vec<bool>)
    requires
        ports@.len() == running@.len(),
    ensures
        r@.len() == ports@.len(),
        forall|i: int| 0 <= i < r@.len() ==> r@[i] == (ports@[i] is Some && !running@[i]),
{
    let mut r: Vec<bool> = Vec::new();
    let mut i: usize = 0;
    while i < ports.len()
        invariant
            ports@.len() == running@.len(),
            i <= ports@.len(),
            r@.len() == i,
            forall|j: int| 0 <= j < i ==> r@[j] == (ports@[j] is Some && !running@[j]),
        decreases ports@.len() - i,
    {
        r.push(ports[i].is_some() && !running[i]);
        i = i + 1;
    }
    r
}

/// Whether every service is running already, so that there is nothing to start.
pub fn all_running(running: &Vec<bool>) -> (r: bool)
    ensures
        r == forall|i: int| 0 <= i < running@.len() ==> running@[i],
{
    let mut i: usize = 0;
    while i < running.len()
        invariant
            i <= running@.len(),
            forall|j: int| 0 <= j < i ==> running@[j],
        decreases running@.len() - i,
    {
        if !running[i] {
            return false;
        }
        i = i + 1;
    }
    true
}

/// The picked positions whose service is not running, in order.
pub open spec fn not_running(picks: Seq<usize>, running: Seq<bool>) -> Seq<usize>
    decreases picks.len(),
{
    if picks.len() == 0 {
        Seq::empty()
    } else {
        let rest = not_running(picks.drop_last(), running);
        if running[picks.last() as int] {
            rest
        } else {
            rest.push(picks.last())
        }
    }
}

/// Drops from the user's picks the services that already run.
pub fn launchable(picks: &Vec<usize>, running: &Vec<bool>) -> (r: Vec<usize>)
    requires
        forall|i: int| 0 <= i < picks@.len() ==> picks@[i] < running@.len(),
    ensures
        r@ == not_running(picks@, running@),
{
    let mut r: Vec<usize> = Vec::new();
    let mut i: usize = 0;
    while i < picks.len()
        invariant
            i <= picks@.len(),
            forall|k: int| 0 <= k < picks@.len() ==> picks@[k] < running@.len(),
            r@ == not_running(picks@.subrange(0, i as int), running@),
        decreases picks@.len() - i,
    {
        let p = picks[i];
        proof {
            assert(picks@.subrange(0, i + 1).drop_last() =~= picks@.subrange(0, i as int));
        }
        if !running[p] {
            r.push(p);
        }
        i = i + 1;
    }
    proof {
        assert(picks@.subrange(0, i as int) =~= picks@);
    }
    r
}

/// What stopping one service came to.
#[derive(Clone, Copy, Debug, PartialEq, Eq, Structural)]
pub enum StopVerdict {
    /// No process listens on the service's port.
    NotFound,
    /// At least one of its processes was stopped.
    Stopped,
    /// None of its processes could be stopped.
    Failed,
}

/// The verdict for a service, from how many processes held its port and
/// whether stopping any of them succeeded.
pub fn stop_verdict(found: usize, stopped_any: bool) -> (r: StopVerdict)
    ensures
        r == (if found == 0 {
            StopVerdict::NotFound
        } else if stopped_any {
            StopVerdict::Stopped
        } else {
            StopVerdict::Failed
        }),
{
    if found == 0 {
        StopVerdict::NotFound
    } else if stopped_any {
        StopVerdict::Stopped
    } else {
        StopVerdict::Failed
    }
}

/// What `str::trim` leaves of a text.
pub uninterp spec fn trim_of(s: Seq<char>) -> Seq<char>;

/// Relies on `str::trim`: the text without leading and trailing whitespace.
#[verifier::external_body]
fn trim(s: &str) -> (r: String)
    ensures
        r@ == trim_of(s@),
{
    s.trim().to_string()
}

/// The process ids listed one per line, in order: each line, trimmed, that
/// reads as a `u32`; other lines are skipped.
pub open spec fn pids_in(lines: Seq<Seq<char>>) -> Seq<u32>
    decreases lines.len(),
{
    if lines.len() == 0 {
        Seq::empty()
    } else {
        let rest = pids_in(lines.drop_last());
        match parsed_u32(trim_of(lines.last())) {
            Some(p) => rest.push(p),
            None => rest,
        }
    }
}

/// Reads the process ids of a port lookup's output (one per line).
pub fn parse_pid_lines(text: &str) -> (r: Vec<u32>)
    ensures
        r@ == pids_in(lines_of(text@)),
{
    let lines = split_lines(text);
    let ghost ls = texts(lines@);
    let mut r: Vec<u32> = Vec::new();
    let mut i: usize = 0;
    while i < lines.len()
        invariant
            ls == texts(lines@),
            i <= lines@.len(),
            r@ == pids_in(ls.subrange(0, i as int)),
        decreases lines@.len() - i,
    {
        proof {
            assert(ls.subrange(0, i + 1).drop_last() =~= ls.subrange(0, i as int));
            assert(ls[i as int] == lines@[i as int]@);
        }
        let t = trim(lines[i].as_str());
        if let Some(p) = parse_u32(t.as_str()) {
            r.push(p);
        }
        i = i + 1;
    }
    proof {
        assert(ls.subrange(0, i as int) =~= ls);
    }
    r
}

} // verus!
