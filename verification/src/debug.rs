//! Text for trace messages: tags, reactions and events in readable form.

use vstd::prelude::*;
use vstd::string::StringExecFns;
use crate::event_queue::{Event, EventPayload};
use crate::ids::GlobalReactionId;
use crate::reactions::ExecutableReactions;
use crate::time::{Nanos, Tag};

verus! {

/// The character of a decimal digit.
pub open spec fn digit_char(d: int) -> char {
    if d == 0 {
        '0'
    } else if d == 1 {
        '1'
    } else if d == 2 {
        '2'
    } else if d == 3 {
        '3'
    } else if d == 4 {
        '4'
    } else if d == 5 {
        '5'
    } else if d == 6 {
        '6'
    } else if d == 7 {
        '7'
    } else if d == 8 {
        '8'
    } else {
        '9'
    }
}

/// The decimal digits of a number, without leading zeros.
pub open spec fn decimal(n: nat) -> Seq<char>
    decreases n,
{
    if n < 10 {
        seq![digit_char(n as int)]
    } else {
        decimal(n / 10).push(digit_char((n % 10) as int))
    }
}

/// One decimal digit as text.
fn digit_str(d: u64) -> (s: &'static str)
    requires
        d < 10,
    ensures
        s@ == seq![digit_char(d as int)],
{
    proof {
        reveal_strlit("0");
        reveal_strlit("1");
        reveal_strlit("2");
        reveal_strlit("3");
        reveal_strlit("4");
        reveal_strlit("5");
        reveal_strlit("6");
        reveal_strlit("7");
        reveal_strlit("8");
        reveal_strlit("9");
    }
    let s = if d == 0 {
        "0"
    } else if d == 1 {
        "1"
    } else if d == 2 {
        "2"
    } else if d == 3 {
        "3"
    } else if d == 4 {
        "4"
    } else if d == 5 {
        "5"
    } else if d == 6 {
        "6"
    } else if d == 7 {
        "7"
    } else if d == 8 {
        "8"
    } else {
        "9"
    };
    assert(s@ =~= seq![digit_char(d as int)]);
    s
}

/// A number in decimal notation.
pub fn decimal_string(n: u64) -> (s: String)
    ensures
        s@ == decimal(n as nat),
    decreases n,
{
    if n < 10 {
        String::from_str(digit_str(n))
    } else {
        let mut s = decimal_string(n / 10);
        s.append(digit_str(n % 10));
        assert(s@ =~= decimal(n as nat));
        s
    }
}

/// The nanoseconds from `initial_time` to the instant of `tag`, zero for
/// a tag before it.
pub open spec fn elapsed(initial_time: Nanos, tag: Tag) -> nat {
    if tag.instant >= initial_time {
        (tag.instant - initial_time) as nat
    } else {
        0
    }
}

/// A tag as text: its distance from startup in nanoseconds and in whole
/// milliseconds, and its microstep.
pub open spec fn tag_text(initial_time: Nanos, tag: Tag) -> Seq<char> {
    "(T0 + "@ + decimal(elapsed(initial_time, tag)) + " ns = "@ + decimal(
        elapsed(initial_time, tag) / 1_000_000,
    ) + " ms, "@ + decimal(tag.microstep as nat) + ")"@
}

/// A reaction as text: the number of its reactor and its number therein.
pub open spec fn reaction_text(r: GlobalReactionId) -> Seq<char> {
    decimal(r.container_spec().0 as nat) + ":"@ + decimal(r.local_spec().0 as nat)
}

/// The first `n` reactions of a batch as text, separated by commas.
pub open spec fn joined(batch: Seq<GlobalReactionId>, n: int) -> Seq<char>
    decreases n,
{
    if n <= 0 {
        Seq::empty()
    } else if n == 1 {
        reaction_text(batch[0])
    } else {
        joined(batch, n - 1) + ", "@ + reaction_text(batch[n - 1])
    }
}

/// A batch as text: its level, and its reactions in braces.
pub open spec fn batch_text(level: int, batch: Seq<GlobalReactionId>) -> Seq<char> {
    decimal(level as nat) + ": "@ + "{"@ + joined(batch, batch.len() as int) + "}"@
}

/// The batches below level `n` as text, the empty ones left out.
pub open spec fn batches_text(reactions: ExecutableReactions, n: int) -> Seq<char>
    decreases n,
{
    if n <= 0 {
        Seq::empty()
    } else if reactions.batch_spec(n - 1).len() > 0 {
        batches_text(reactions, n - 1) + batch_text(n - 1, reactions.batch_spec(n - 1))
    } else {
        batches_text(reactions, n - 1)
    }
}

/// An event as text.
pub open spec fn event_text(initial_time: Nanos, evt: Event) -> Seq<char> {
    match evt.payload {
        EventPayload::Reactions(reactions) => "Event(at "@ + tag_text(initial_time, evt.tag)
            + ": run ["@ + batches_text(reactions, reactions.level_count_spec()) + "])"@,
        EventPayload::Terminate => "Event(at "@ + tag_text(initial_time, evt.tag)
            + ": terminate program"@,
    }
}

/// Formats tags, reactions and events for trace messages.
#[derive(Clone, Copy, Debug, PartialEq, Eq, Structural)]
pub struct DebugInfoProvider {
    /// The instant of startup, which tags are shown relative to.
    pub initial_time: Nanos,
}

impl DebugInfoProvider {
    pub fn new(initial_time: Nanos) -> (d: DebugInfoProvider)
        ensures
            d.initial_time == initial_time,
    {
        DebugInfoProvider { initial_time }
    }

    /// A tag as text, such as `(T0 + 1500000 ns = 1 ms, 0)`.
    pub fn display_tag(&self, tag: Tag) -> (s: String)
        ensures
            s@ == tag_text(self.initial_time, tag),
    {
        let ns: u64 = if tag.instant >= self.initial_time {
            tag.instant - self.initial_time
        } else {
            0
        };
        let mut s = String::from_str("(T0 + ");
        s.append(decimal_string(ns).as_str());
        s.append(" ns = ");
        s.append(decimal_string(ns / 1_000_000).as_str());
        s.append(" ms, ");
        s.append(decimal_string(tag.microstep as u64).as_str());
        s.append(")");
        s
    }

    /// A reaction as text, such as `3:1`.
    pub fn display_reaction(&self, global: GlobalReactionId) -> (s: String)
        ensures
            s@ == reaction_text(global),
    {
        let mut s = decimal_string(global.container().raw() as u64);
        s.append(":");
        s.append(decimal_string(global.local().raw() as u64).as_str());
        s
    }

    /// A batch as text, such as `2: {0:1, 4:0}`.
    fn display_batch(&self, level: u32, batch: &Vec<GlobalReactionId>) -> (s: String)
        ensures
            s@ == batch_text(level as int, batch@),
    {
        let mut s = decimal_string(level as u64);
        s.append(": ");
        s.append("{");
        let ghost head = s@;
        let mut k: usize = 0;
        assert(s@ =~= head + joined(batch@, 0));
        while k < batch.len()
            invariant
                k <= batch@.len(),
                s@ == head + joined(batch@, k as int),
            decreases batch@.len() - k,
        {
            let ghost before = s@;
            if k > 0 {
                s.append(", ");
            }
            s.append(self.display_reaction(batch[k]).as_str());
            proof {
                if k > 0 {
                    assert(s@ =~= head + (joined(batch@, k as int) + ", "@ + reaction_text(
                        batch@[k as int],
                    )));
                } else {
                    assert(s@ =~= head + reaction_text(batch@[0]));
                }
            }
            k = k + 1;
        }
        s.append("}");
        assert(s@ =~= batch_text(level as int, batch@));
        s
    }

    /// An event as text: its tag, and the reactions that it runs, batch by
    /// batch, or the notice that it terminates the program.
    pub fn display_event(&self, evt: &Event) -> (s: String)
        requires
            evt.wf(),
        ensures
            s@ == event_text(self.initial_time, *evt),
    {
        let mut s = String::from_str("Event(at ");
        s.append(self.display_tag(evt.tag).as_str());
        match &evt.payload {
            EventPayload::Reactions(reactions) => {
                s.append(": run [");
                let ghost head = s@;
                let n = reactions.level_count();
                let mut l: u32 = 0;
                assert(s@ =~= head + batches_text(*reactions, 0));
                while l < n
                    invariant
                        l <= n,
                        n == reactions.level_count_spec(),
                        reactions.wf(),
                        s@ == head + batches_text(*reactions, l as int),
                    decreases n - l,
                {
                    let batch = reactions.batch(l);
                    if batch.len() > 0 {
                        s.append(self.display_batch(l, &batch).as_str());
                        assert(s@ =~= head + (batches_text(*reactions, l as int) + batch_text(
                            l as int,
                            reactions.batch_spec(l as int),
                        )));
                    }
                    l = l + 1;
                }
                s.append("])");
                assert(s@ =~= event_text(self.initial_time, *evt));
                s
            },
            EventPayload::Terminate => {
                s.append(": terminate program");
                assert(s@ =~= event_text(self.initial_time, *evt));
                s
            },
        }
    }
}

} // verus!
