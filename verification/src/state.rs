//! The state of a supervised process and its latest output.

use crate::text::texts;
use std::collections::VecDeque;
use vstd::prelude::*;
use vstd::string::StringExecFns;

verus! {

/// How many lines of output are kept.
pub const OUTPUT_CAP: usize = 1000;

/// The state of a process, as it is reported.
#[derive(Debug)]
pub struct ProcessStatus {
    pub running: bool,
    pub pid: Option<u32>,
    /// The latest lines of output.
    pub output: Vec<String>,
}

/// What a look at a child process showed.
#[derive(Debug, Clone, Copy, PartialEq, Eq, Structural)]
pub enum ChildPoll {
    Exited,
    Alive,
    /// The look failed.
    Unknown,
}

/// A supervised process.
pub struct ProcessState {
    /// A child process was started and not seen to end.
    pub has_child: bool,
    pub pid: Option<u32>,
    pub output: VecDeque<String>,
}

/// [`ProcessState`] with the output as texts.
#[verifier::ext_equal]
pub struct ProcessModel {
    pub has_child: bool,
    pub pid: Option<u32>,
    pub output: Seq<Seq<char>>,
}

impl View for ProcessState {
    type V = ProcessModel;

    open spec fn view(&self) -> ProcessModel {
        ProcessModel { has_child: self.has_child, pid: self.pid, output: texts(self.output@) }
    }
}

/// The process after a look at it.
pub open spec fn polled(m: ProcessModel, poll: ChildPoll) -> ProcessModel {
    if m.has_child && poll == ChildPoll::Exited {
        ProcessModel { has_child: false, pid: None, ..m }
    } else {
        m
    }
}

/// The process once a child was started.
pub open spec fn process_started(m: ProcessModel, pid: Option<u32>) -> ProcessModel {
    ProcessModel { has_child: true, pid, ..m }
}

/// The process once its child was killed.
pub open spec fn process_stopped(m: ProcessModel) -> ProcessModel {
    ProcessModel { has_child: false, pid: None, ..m }
}

/// What is reported after a look at the process: whether it runs, its id and its
/// output.
pub open spec fn reported_state(m: ProcessModel, poll: ChildPoll) -> (
    bool,
    Option<u32>,
    Seq<Seq<char>>,
) {
    (m.has_child && poll == ChildPoll::Alive, polled(m, poll).pid, m.output)
}

/// A started process is reported with its id until it was seen to exit or was stopped,
/// and as running while it was seen alive; its output is reported throughout.
pub proof fn started_process_is_reported(m: ProcessModel, pid: Option<u32>, poll: ChildPoll)
    ensures
        reported_state(process_started(m, pid), ChildPoll::Alive) == (true, pid, m.output),
        reported_state(process_started(m, pid), ChildPoll::Unknown) == (false, pid, m.output),
        reported_state(process_started(m, pid), ChildPoll::Exited) == (
            false,
            None::<u32>,
            m.output,
        ),
        reported_state(process_stopped(process_started(m, pid)), poll) == (
            false,
            None::<u32>,
            m.output,
        ),
{
}

/// The latest lines, as many as are kept.
pub open spec fn latest(lines: Seq<Seq<char>>) -> Seq<Seq<char>> {
    if lines.len() <= OUTPUT_CAP {
        lines
    } else {
        lines.subrange(lines.len() - OUTPUT_CAP, lines.len() as int)
    }
}

/// The output is the latest lines of all lines ever written: keeping the latest
/// line by line loses nothing of them.
pub proof fn output_is_latest(all: Seq<Seq<char>>, line: Seq<char>)
    ensures
        latest(latest(all).push(line)) == latest(all.push(line)),
{
    assert(latest(latest(all).push(line)) =~= latest(all.push(line)));
}

/// The kept output is the end of what was written, at most a thousand lines of it.
pub proof fn latest_is_the_end(lines: Seq<Seq<char>>, i: int)
    ensures
        latest(lines).len() == (if lines.len() <= 1000 {
            lines.len()
        } else {
            1000
        }),
        0 <= i < latest(lines).len() ==> latest(lines)[i] == lines[lines.len() - latest(lines).len()
            + i],
{
}

/// Only a child that was seen to exit is forgotten; its output stays.
pub proof fn exit_is_noticed_once(m: ProcessModel, poll: ChildPoll)
    ensures
        polled(m, poll).output == m.output,
        m.has_child && poll is Exited ==> !polled(m, poll).has_child && polled(m, poll).pid is None,
        !m.has_child || !(poll is Exited) ==> polled(m, poll) == m,
        polled(polled(m, poll), poll) == polled(m, poll),
{
}

impl ProcessState {
    /// No more lines than are kept.
    pub open spec fn wf(self) -> bool {
        self.output@.len() <= OUTPUT_CAP
    }

    /// No process.
    pub fn new() -> (r: Self)
        ensures
            r.wf(),
            r@ == (ProcessModel { has_child: false, pid: None, output: Seq::empty() }),
    {
        let r = ProcessState { has_child: false, pid: None, output: VecDeque::new() };
        assert(r@.output =~= Seq::<Seq<char>>::empty());
        r
    }

    /// A child process was started.
    pub fn started(&mut self, pid: Option<u32>)
        ensures
            final(self)@ == process_started(old(self)@, pid),
            final(self).wf() == old(self).wf(),
    {
        self.has_child = true;
        self.pid = pid;
    }

    /// Whether the process runs, given a look at it. One that has exited is
    /// forgotten.
    pub fn is_running(&mut self, poll: ChildPoll) -> (r: bool)
        ensures
            r == (old(self).has_child && poll == ChildPoll::Alive),
            final(self)@ == polled(old(self)@, poll),
            final(self).wf() == old(self).wf(),
    {
        if !self.has_child {
            return false;
        }
        match poll {
            ChildPoll::Exited => {
                self.has_child = false;
                self.pid = None;
                false
            },
            ChildPoll::Alive => true,
            ChildPoll::Unknown => false,
        }
    }

    /// The state to report, given a look at the process.
    pub fn status_snapshot(&mut self, poll: ChildPoll) -> (r: ProcessStatus)
        ensures
            final(self)@ == polled(old(self)@, poll),
            final(self).wf() == old(self).wf(),
            (r.running, r.pid, texts(r.output@)) == reported_state(old(self)@, poll),
    {
        let running = self.is_running(poll);
        let mut output: Vec<String> = Vec::new();
        let mut i: usize = 0;
        assert(texts(output@) =~= texts(self.output@).subrange(0, 0));
        while i < self.output.len()
            invariant
                i <= self.output@.len(),
                texts(output@) == texts(self.output@).subrange(0, i as int),
            decreases self.output@.len() - i,
        {
            let line = self.output[i].clone();
            let ghost before = texts(output@);
            output.push(line);
            i += 1;
            assert(texts(output@) =~= before.push(line@));
            assert(texts(output@) =~= texts(self.output@).subrange(0, i as int));
        }
        assert(texts(self.output@).subrange(0, i as int) =~= texts(self.output@));
        ProcessStatus { running, pid: self.pid, output }
    }

    /// Whether there is a process to kill.
    pub fn can_stop(&self) -> (r: bool)
        ensures
            r == self.has_child,
    {
        self.has_child
    }

    /// Takes in what killing the process led to: without a process there is
    /// nothing to stop, and one that could not be killed stays.
    pub fn stop(&mut self, killed: Result<(), String>) -> (r: Result<(), String>)
        ensures
            final(self).wf() == old(self).wf(),
            if !old(self).has_child {
                &&& r matches Err(e) && e@ == "not running"@
                &&& final(self)@ == old(self)@
            } else if killed is Err {
                &&& r matches Err(e) && e@ == killed->Err_0@
                &&& final(self)@ == old(self)@
            } else {
                r is Ok && final(self)@ == process_stopped(old(self)@)
            },
    {
        if !self.has_child {
            return Err(String::from_str("not running"));
        }
        match killed {
            Ok(()) => {
                self.has_child = false;
                self.pid = None;
                Ok(())
            },
            Err(e) => Err(e),
        }
    }

    /// Adds a line of output; the oldest goes where there are too many.
    pub fn push_line(&mut self, line: String)
        requires
            old(self).wf(),
        ensures
            final(self).wf(),
            final(self)@ == (ProcessModel {
                output: latest(old(self)@.output.push(line@)),
                ..old(self)@
            }),
    {
        if self.output.len() >= OUTPUT_CAP {
            self.output.pop_front();
        }
        self.output.push_back(line);
        assert(self@.output =~= latest(old(self)@.output.push(line@)));
    }

    /// Forgets the output.
    pub fn clear_output(&mut self)
        ensures
            final(self).wf(),
            final(self)@ == (ProcessModel { output: Seq::empty(), ..old(self)@ }),
    {
        self.output.clear();
        assert(self@.output =~= Seq::<Seq<char>>::empty());
    }
}

} // verus!
