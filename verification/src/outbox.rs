//! Putting a message into a bounded queue.
//!
//! A message that carries something is never thrown away at once when the queue is full: it waits for
//! the other end, and only where that takes too long it is given up, and it is told.

use vstd::prelude::*;

use crate::text;
use crate::text::{concat3, to_dec};

verus! {

/// How long a message to one device waits, in seconds.
pub const PAYLOAD_SEND_TIMEOUT: u64 = 10;

/// How long a message to all devices waits for each of them, in seconds. It is short, for the others
/// wait behind it.
pub const BROADCAST_SEND_TIMEOUT: u64 = 3;

/// What became of a message.
#[derive(Debug, Clone, Copy, PartialEq, Eq, Structural)]
pub enum SendOutcome {
    /// It stands in the queue.
    Queued,
    /// The other end is gone.
    Closed,
    /// The queue stayed full.
    TimedOut,
}

/// What is told of a message, and how loudly.
#[derive(Debug)]
pub enum SendNotice {
    Silent,
    Debug(String),
    Warn(String),
}

/// What is told of a message.
pub open spec fn notice_is(
    n: SendNotice,
    outcome: SendOutcome,
    what: Seq<char>,
    ctx: Seq<char>,
    timeout: u64,
) -> bool {
    match outcome {
        SendOutcome::Queued => n is Silent,
        SendOutcome::Closed => n matches SendNotice::Debug(m) && m@ == ctx + " 已断开，"@ + what
            + " 未发送"@,
        SendOutcome::TimedOut => n matches SendNotice::Warn(m) && m@ == ctx + " 出站队列 "@ + what
            + " 等待 "@ + text::dec(timeout as nat) + "s 仍满，已丢弃（对端疑似卡死）"@,
    }
}

/// What became of a message: whether it stands in the queue, and what is told of it. `what` says what
/// it is, `ctx` where it goes.
pub fn judge_send(outcome: SendOutcome, what: &str, ctx: &str, timeout: u64) -> (r: (bool, SendNotice))
    ensures
        r.0 == (outcome is Queued),
        notice_is(r.1, outcome, what@, ctx@, timeout),
{
    match outcome {
        SendOutcome::Queued => (true, SendNotice::Silent),
        SendOutcome::Closed => {
            let mut m = concat3(ctx, " 已断开，", what);
            m.append(" 未发送");
            (false, SendNotice::Debug(m))
        },
        SendOutcome::TimedOut => {
            let mut m = concat3(ctx, " 出站队列 ", what);
            m.append(" 等待 ");
            m.append(to_dec(timeout).as_str());
            m.append("s 仍满，已丢弃（对端疑似卡死）");
            (false, SendNotice::Warn(m))
        },
    }
}

/// A message that stands in the queue is not told of; one that was dropped because the queue stayed full is
/// told loudly, one to a closed connection quietly.
pub proof fn law_dropped_messages_are_told(
    n: SendNotice,
    o: SendOutcome,
    what: Seq<char>,
    ctx: Seq<char>,
    timeout: u64,
)
    requires
        notice_is(n, o, what, ctx, timeout),
    ensures
        o is Queued <==> n is Silent,
        o is Closed <==> n is Debug,
        o is TimedOut <==> n is Warn,
        n matches SendNotice::Debug(m) ==> ctx.is_prefix_of(m@),
        n matches SendNotice::Warn(m) ==> ctx.is_prefix_of(m@),
{
    match n {
        SendNotice::Debug(m) => {
            assert(m@.subrange(0, ctx.len() as int) =~= ctx);
        },
        SendNotice::Warn(m) => {
            assert(m@.subrange(0, ctx.len() as int) =~= ctx);
        },
        SendNotice::Silent => {},
    }
}

} // verus!
