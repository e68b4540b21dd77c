//! The transient-message queue: a FIFO of de-duplicated, counted
//! notifications with an externally driven decay timer.
//!
//! A push that repeats the current head bumps the head's counter instead of
//! enqueueing a duplicate; any other push joins the tail as a fresh entry.
//! The caller owns the timer: it decrements `timer` once per tick and calls
//! `dequeue` when it reaches zero; every push and every pop restarts the
//! timer.
use std::collections::VecDeque;

use vstd::prelude::*;
use vstd::string::*;

verus! {

/// The number of render ticks a message stays on display; the queue's decay
/// timer restarts at this value on every push and pop.
pub const INFO_TIMER_START: usize = 30;

/// One transient notification.
#[derive(Debug)]
pub struct InfoMessage {
    pub counter: usize,
    pub title: String,
    pub message: String,
}

/// The mathematical contents of an `InfoMessage`.
#[verifier::ext_equal]
pub ghost struct InfoMessageV {
    pub counter: usize,
    pub title: Seq<char>,
    pub message: Seq<char>,
}

impl View for InfoMessage {
    type V = InfoMessageV;

    open spec fn view(&self) -> InfoMessageV {
        InfoMessageV { counter: self.counter, title: self.title@, message: self.message@ }
    }
}

/// The character of the decimal digit `d`.
pub open spec fn spec_digit_char(d: int) -> char {
    if d == 0 {
        '0'
    } else if d == 1 {
        '1'
    } else if d == 2 {
        '2'
    } else if d == 3 {
        '3'
    } else if d == 4 {
        '4'
    } else if d == 5 {
        '5'
    } else if d == 6 {
        '6'
    } else if d == 7 {
        '7'
    } else if d == 8 {
        '8'
    } else {
        '9'
    }
}

/// The decimal digits of `n`, most significant first.
pub open spec fn spec_usize_digits(n: int) -> Seq<char>
    decreases n,
{
    if n < 10 {
        seq![spec_digit_char(n)]
    } else {
        spec_usize_digits(n / 10).push(spec_digit_char(n % 10))
    }
}

/// The displayed text of a message: the body alone the first time, the body
/// prefixed with its repeat count afterwards.
pub open spec fn spec_message_text(m: InfoMessageV) -> Seq<char> {
    if m.counter == 1 {
        m.message
    } else {
        spec_usize_digits(m.counter as int) + " mal: "@ + m.message
    }
}

/// Relies on `String::push`: appends one character at the end.
#[verifier::external_body]
fn push_char(s: &mut String, c: char)
    ensures
        final(s)@ == old(s)@.push(c),
{
    s.push(c);
}

/// The character of the decimal digit `d`.
fn digit_char(d: usize) -> (c: char)
    requires
        d < 10,
    ensures
        c == spec_digit_char(d as int),
{
    match d {
        0 => '0',
        1 => '1',
        2 => '2',
        3 => '3',
        4 => '4',
        5 => '5',
        6 => '6',
        7 => '7',
        8 => '8',
        _ => '9',
    }
}

/// The decimal rendering of `n`.
fn usize_to_string(n: usize) -> (r: String)
    ensures
        r@ == spec_usize_digits(n as int),
    decreases n,
{
    if n < 10 {
        let mut s = String::new();
        push_char(&mut s, digit_char(n));
        proof {
            assert(s@ =~= seq![spec_digit_char(n as int)]);
        }
        s
    } else {
        let mut s = usize_to_string(n / 10);
        push_char(&mut s, digit_char(n % 10));
        s
    }
}

impl InfoMessage {
    /// A fresh notification, seen once.
    pub fn new(title: String, message: String) -> (r: InfoMessage)
        ensures
            r@ == (InfoMessageV { counter: 1, title: title@, message: message@ }),
    {
        InfoMessage { title, message, counter: 1 }
    }

    /// The text shown for this message.
    pub fn to_string(&self) -> (r: String)
        ensures
            r@ == spec_message_text(self@),
    {
        if self.counter == 1 {
            self.message.clone()
        } else {
            let mut s = usize_to_string(self.counter);
            s.append(" mal: ");
            s.append(self.message.as_str());
            s
        }
    }
}

/// The queue of pending notifications, oldest first, with its decay timer.
#[derive(Debug)]
pub struct InfoQueue {
    pub queue: VecDeque<InfoMessage>,
    pub timer: usize,
}

/// The mathematical contents of an `InfoQueue`.
#[verifier::ext_equal]
pub ghost struct InfoQueueV {
    pub queue: Seq<InfoMessageV>,
    pub timer: usize,
}

impl View for InfoQueue {
    type V = InfoQueueV;

    open spec fn view(&self) -> InfoQueueV {
        InfoQueueV {
            queue: self.queue@.map_values(|m: InfoMessage| m@),
            timer: self.timer,
        }
    }
}

/// How a push changes the queue: a message equal to the head bumps the
/// head's counter (which sticks at `usize::MAX` instead of wrapping), any
/// other message joins the tail as a fresh entry; the decay timer restarts
/// either way.
pub open spec fn spec_queue_push(q: InfoQueueV, title: Seq<char>, message: Seq<char>) -> InfoQueueV {
    if q.queue.len() > 0 && q.queue[0].title == title && q.queue[0].message == message {
        let c = q.queue[0].counter;
        let bumped: usize = if c < usize::MAX {
            (c + 1) as usize
        } else {
            c
        };
        InfoQueueV {
            queue: q.queue.update(0, (InfoMessageV { counter: bumped, ..q.queue[0] })),
            timer: INFO_TIMER_START,
        }
    } else {
        InfoQueueV {
            queue: q.queue.push((InfoMessageV { counter: 1, title, message })),
            timer: INFO_TIMER_START,
        }
    }
}

/// How a pop changes the queue: the head leaves (an empty queue stays
/// empty) and the decay timer restarts.
pub open spec fn spec_dequeue(q: InfoQueueV) -> InfoQueueV {
    InfoQueueV {
        queue: if q.queue.len() == 0 {
            q.queue
        } else {
            q.queue.skip(1)
        },
        timer: INFO_TIMER_START,
    }
}

impl InfoQueue {
    /// An empty queue with a full timer.
    pub fn new() -> (r: InfoQueue)
        ensures
            r@.queue.len() == 0,
            r@.timer == INFO_TIMER_START,
    {
        InfoQueue { queue: VecDeque::new(), timer: INFO_TIMER_START }
    }

    /// Pushes a notification, merging it into the head when it repeats it.
    pub fn queue(&mut self, title: String, message: String)
        ensures
            final(self)@ == spec_queue_push(old(self)@, title@, message@),
    {
        let mut head_matches = false;
        if self.queue.len() > 0 {
            let h = &self.queue[0];
            head_matches = h.title == title && h.message == message;
        }
        if head_matches {
            let popped = self.queue.pop_front();
            match popped {
                Some(mut msg) => {
                    if msg.counter < usize::MAX {
                        msg.counter = msg.counter + 1;
                    }
                    self.queue.push_front(msg);
                },
                None => {
                    proof {
                        assert(false);
                    }
                },
            }
            self.timer = INFO_TIMER_START;
            proof {
                assert(self@.queue =~~= spec_queue_push(old(self)@, title@, message@).queue);
                assert(self@ =~~= spec_queue_push(old(self)@, title@, message@));
            }
        } else {
            self.queue.push_back(InfoMessage::new(title, message));
            self.timer = INFO_TIMER_START;
            proof {
                assert(self@.queue =~~= spec_queue_push(old(self)@, title@, message@).queue);
                assert(self@ =~~= spec_queue_push(old(self)@, title@, message@));
            }
        }
    }

    /// Drops the head, if any, and restarts the decay timer for whatever
    /// message shows next.
    pub fn dequeue(&mut self)
        ensures
            final(self)@ == spec_dequeue(old(self)@),
    {
        self.timer = INFO_TIMER_START;
        self.queue.pop_front();
        proof {
            assert(self@.queue =~~= spec_dequeue(old(self)@).queue);
            assert(self@ =~~= spec_dequeue(old(self)@));
        }
    }

    /// The oldest pending notification, if any.
    pub fn head(&self) -> (r: Option<&InfoMessage>)
        ensures
            match r {
                Some(m) => self@.queue.len() > 0 && m@ == self@.queue[0],
                None => self@.queue.len() == 0,
            },
    {
        if self.queue.len() > 0 {
            Some(&self.queue[0])
        } else {
            None
        }
    }
}

/// Pushing the same message twice onto an empty queue yields a single entry
/// whose counter is 2 and whose display text is the body prefixed with the
/// count.
pub proof fn lemma_queue_dedup(q: InfoQueueV, title: Seq<char>, message: Seq<char>)
    requires
        q.queue.len() == 0,
    ensures
        ({
            let q2 = spec_queue_push(spec_queue_push(q, title, message), title, message);
            &&& q2.queue.len() == 1
            &&& q2.queue[0].counter == 2
            &&& q2.queue[0].title == title
            &&& q2.queue[0].message == message
            &&& spec_message_text(q2.queue[0]) == seq!['2'] + " mal: "@ + message
        }),
{
    let q1 = spec_queue_push(q, title, message);
    let q2 = spec_queue_push(q1, title, message);
    assert(q1.queue.len() == 1 && q1.queue[0].counter == 1);
    assert(q2.queue[0].counter == 2);
    assert(spec_usize_digits(2) =~= seq!['2']);
}

/// No cross-entry merging: a push whose title or body differs from the
/// current head's always appends a fresh tail entry with counter 1 and
/// leaves every existing entry unchanged, even when an older, already
/// pushed-back entry holds the same title and body.
pub proof fn lemma_queue_appends_when_head_differs(
    q: InfoQueueV,
    title: Seq<char>,
    message: Seq<char>,
)
    requires
        q.queue.len() == 0 || q.queue[0].title != title || q.queue[0].message != message,
    ensures
        ({
            let q2 = spec_queue_push(q, title, message);
            &&& q2.queue.len() == q.queue.len() + 1
            &&& q2.queue.subrange(0, q.queue.len() as int) == q.queue
            &&& q2.queue.last() == (InfoMessageV { counter: 1, title, message })
        }),
{
    let q2 = spec_queue_push(q, title, message);
    assert(q2.queue.subrange(0, q.queue.len() as int) =~= q.queue);
}

} // verus!
