//! The pool whose workers take their work from one queue.

use vstd::prelude::*;

verus! {

/// What travels on the queue: a job to run, or the word to stop.
pub enum ThreadPoolMessage<J> {
    RunJob(J),
    Shutdown,
}

/// What a worker does next.
pub enum Step<J> {
    /// Run this job, then wait for the next message.
    Run(J),
    /// Leave the loop.
    Stop,
}

/// What a worker does with what it received: it runs a job, and it stops
/// when it is told to or when the queue is gone.
pub fn next_step<J>(received: Option<ThreadPoolMessage<J>>) -> (step: Step<J>)
    ensures
        step == match received {
            Some(ThreadPoolMessage::RunJob(job)) => Step::Run(job),
            Some(ThreadPoolMessage::Shutdown) => Step::Stop,
            None => Step::Stop,
        },
{
    match received {
        Some(ThreadPoolMessage::RunJob(job)) => Step::Run(job),
        Some(ThreadPoolMessage::Shutdown) => Step::Stop,
        None => Step::Stop,
    }
}

/// The messages that shut a pool of `threads` workers down: one word to
/// stop for each worker.
pub fn shutdown_messages<J>(threads: u32) -> (messages: Vec<ThreadPoolMessage<J>>)
    ensures
        messages.len() == threads,
        forall|i: int| 0 <= i < messages.len() ==> messages[i] is Shutdown,
{
    let mut messages: Vec<ThreadPoolMessage<J>> = Vec::new();
    let mut sent: u32 = 0;
    while sent < threads
        invariant
            sent <= threads,
            messages.len() == sent,
            forall|i: int| 0 <= i < messages.len() ==> messages[i] is Shutdown,
        decreases threads - sent,
    {
        messages.push(ThreadPoolMessage::Shutdown);
        sent = sent + 1;
    }
    messages
}

} // verus!
