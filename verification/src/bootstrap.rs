//! The environment installed inside the sandbox before user code runs:
//! the console polyfill's formatting rules and the timer registry that
//! backs `setTimeout` / `setInterval` handles.

use vstd::prelude::*;
use vstd::string::StringExecFns;

verus! {

/// One argument handed to a console method, as the sandbox classifies it:
/// the null value, the undefined value, a structured value together with its
/// JSON text (or its fallback textual form when serialization fails), or any
/// other value in its default textual form.
pub enum ConsoleValue {
    Null,
    Undefined,
    Structured(String),
    Text(String),
}

/// The abstract form of a console argument.
pub enum ConsoleItem {
    Null,
    Undefined,
    Structured(Seq<char>),
    Text(Seq<char>),
}

impl DeepView for ConsoleValue {
    type V = ConsoleItem;

    open spec fn deep_view(&self) -> ConsoleItem {
        match self {
            ConsoleValue::Null => ConsoleItem::Null,
            ConsoleValue::Undefined => ConsoleItem::Undefined,
            ConsoleValue::Structured(s) => ConsoleItem::Structured(s@),
            ConsoleValue::Text(s) => ConsoleItem::Text(s@),
        }
    }
}

/// The severity of a console call; `Log` carries no tag, the others prepend
/// a bracketed tag as an extra first argument.
pub enum ConsoleLevel {
    Log,
    Error,
    Warn,
    Info,
    Debug,
}

/// The single-line text of one console argument: null and undefined become
/// their literal names, everything else its carried text.
pub open spec fn console_text(item: ConsoleItem) -> Seq<char> {
    match item {
        ConsoleItem::Null => "null"@,
        ConsoleItem::Undefined => "undefined"@,
        ConsoleItem::Structured(s) => s,
        ConsoleItem::Text(s) => s,
    }
}

/// The arguments' texts joined by single spaces; no arguments give the empty
/// message.
pub open spec fn console_message(items: Seq<ConsoleItem>) -> Seq<char>
    decreases items.len(),
{
    if items.len() == 0 {
        Seq::empty()
    } else if items.len() == 1 {
        console_text(items[0])
    } else {
        console_message(items.drop_last()) + " "@ + console_text(items.last())
    }
}

/// The bracketed tag a level prepends, if any.
pub open spec fn level_tag(level: ConsoleLevel) -> Option<Seq<char>> {
    match level {
        ConsoleLevel::Log => None,
        ConsoleLevel::Error => Some("[ERROR]"@),
        ConsoleLevel::Warn => Some("[WARN]"@),
        ConsoleLevel::Info => Some("[INFO]"@),
        ConsoleLevel::Debug => Some("[DEBUG]"@),
    }
}

/// The arguments a console call forwards: the level's tag, when there is
/// one, stands in front as an extra textual argument.
pub open spec fn leveled_items(level: ConsoleLevel, items: Seq<ConsoleItem>) -> Seq<ConsoleItem> {
    match level_tag(level) {
        None => items,
        Some(tag) => seq![ConsoleItem::Text(tag)] + items,
    }
}

proof fn lemma_console_message_push(items: Seq<ConsoleItem>, item: ConsoleItem)
    ensures
        console_message(items.push(item)) == if items.len() == 0 {
            console_text(item)
        } else {
            console_message(items) + " "@ + console_text(item)
        },
{
    let pushed = items.push(item);
    assert(pushed.drop_last() =~= items);
    assert(pushed.last() == item);
    if items.len() == 0 {
        assert(console_message(pushed) == console_text(item));
    }
}

/// Format one console call as the single line forwarded to the logging
/// capability: the level's tag (if any) and each argument's text, joined by
/// single spaces.
pub fn format_console_message(level: ConsoleLevel, args: &Vec<ConsoleValue>) -> (r: String)
    ensures
        r@ == console_message(leveled_items(level, args.deep_view())),
{
    let ghost items = leveled_items(level, args.deep_view());
    let mut out = String::new();
    let mut need_sep: bool;
    match level {
        ConsoleLevel::Log => {
            need_sep = false;
        },
        ConsoleLevel::Error => {
            out.append("[ERROR]");
            need_sep = true;
        },
        ConsoleLevel::Warn => {
            out.append("[WARN]");
            need_sep = true;
        },
        ConsoleLevel::Info => {
            out.append("[INFO]");
            need_sep = true;
        },
        ConsoleLevel::Debug => {
            out.append("[DEBUG]");
            need_sep = true;
        },
    }
    let ghost base: int = if level_tag(level) is Some {
        1int
    } else {
        0int
    };
    assert(out@ == console_message(items.take(base)));
    let mut i: usize = 0;
    while i < args.len()
        invariant
            0 <= i <= args.len(),
            items == leveled_items(level, args.deep_view()),
            base == if level_tag(level) is Some { 1int } else { 0int },
            items.len() == base + args.len(),
            forall|j: int| 0 <= j < args.len() ==> items[base + j] == args.deep_view()[j],
            need_sep == (base + i > 0),
            out@ == console_message(items.take(base + i)),
        decreases args.len() - i,
    {
        if need_sep {
            out.append(" ");
        }
        match &args[i] {
            ConsoleValue::Null => out.append("null"),
            ConsoleValue::Undefined => out.append("undefined"),
            ConsoleValue::Structured(s) => out.append(s.as_str()),
            ConsoleValue::Text(s) => out.append(s.as_str()),
        }
        proof {
            let taken = items.take(base + i);
            lemma_console_message_push(taken, items[base + i]);
            assert(items.take(base + i + 1) =~= taken.push(items[base + i]));
            assert(console_text(items[base + i]) == console_text(args.deep_view()[i as int]));
        }
        need_sep = true;
        i = i + 1;
    }
    proof {
        assert(items.take(base + args.len()) =~= items);
    }
    out
}

/// The bookkeeping behind the sandbox's timer primitives: every timer gets a
/// fresh, monotonically increasing integer handle, and a handle stays in the
/// active set until it is cleared. Clearing an unknown or already cleared
/// handle has no effect. The registry belongs to one environment instance
/// and is never shared.
pub struct TimerRegistry {
    /// The last handle issued; handles start at 1.
    issued: u64,
    /// Handles of timers whose callbacks are still reachable, oldest first.
    active: Vec<u64>,
}

impl TimerRegistry {
    /// The handles of the timers still pending, in the order issued.
    pub closed spec fn active_ids(&self) -> Seq<u64> {
        self.active@
    }

    /// The number of handles issued so far.
    pub closed spec fn issued_count(&self) -> u64 {
        self.issued
    }

    /// Every active handle was issued, no handle repeats, and they stand in
    /// issue order.
    pub closed spec fn wf(&self) -> bool {
        &&& forall|i: int|
            0 <= i < self.active@.len() ==> 1 <= #[trigger] self.active@[i] <= self.issued
        &&& forall|i: int, j: int|
            0 <= i < j < self.active@.len() ==> self.active@[i] < self.active@[j]
    }

    /// A fresh registry: nothing issued, nothing active.
    pub fn new() -> (r: TimerRegistry)
        ensures
            r.wf(),
            r.active_ids() == Seq::<u64>::empty(),
            r.issued_count() == 0,
    {
        TimerRegistry { issued: 0, active: Vec::new() }
    }

    /// Issue the next handle and mark it active. Handles increase strictly,
    /// so a new handle never collides with a live or cleared one.
    pub fn register(&mut self) -> (id: u64)
        requires
            old(self).wf(),
            old(self).issued_count() < u64::MAX,
        ensures
            final(self).wf(),
            id == old(self).issued_count() + 1,
            final(self).issued_count() == id,
            final(self).active_ids() == old(self).active_ids().push(id),
            !old(self).active_ids().contains(id),
    {
        proof {
            if old(self).active_ids().contains((self.issued + 1) as u64) {
                let i = choose|i: int|
                    0 <= i < old(self).active@.len() && old(self).active@[i] == old(self).issued
                        + 1;
                assert(old(self).active@[i] <= old(self).issued);
            }
        }
        self.issued = self.issued + 1;
        let id = self.issued;
        self.active.push(id);
        id
    }

    /// Whether a handle's timer is still pending.
    pub fn is_active(&self, id: u64) -> (r: bool)
        ensures
            r == self.active_ids().contains(id),
    {
        let mut i: usize = 0;
        while i < self.active.len()
            invariant
                0 <= i <= self.active@.len(),
                forall|j: int| 0 <= j < i ==> self.active@[j] != id,
            decreases self.active@.len() - i,
        {
            if self.active[i] == id {
                assert(self.active_ids()[i as int] == id);
                return true;
            }
            i = i + 1;
        }
        false
    }

    /// Clear a handle: its timer's callback becomes permanently unreachable.
    /// A handle not active (unknown, or already cleared) leaves the registry
    /// unchanged, as the same filter shows.
    pub fn clear(&mut self, id: u64)
        requires
            old(self).wf(),
        ensures
            final(self).wf(),
            final(self).issued_count() == old(self).issued_count(),
            final(self).active_ids() == old(self).active_ids().filter(|x: u64| x != id),
    {
        let ghost orig = self.active@;
        let mut kept: Vec<u64> = Vec::new();
        let mut i: usize = 0;
        while i < self.active.len()
            invariant
                0 <= i <= self.active@.len(),
                self.active@ == orig,
                kept@ == orig.take(i as int).filter(|x: u64| x != id),
            decreases self.active@.len() - i,
        {
            let x = self.active[i];
            proof {
                reveal(Seq::filter);
                let taken = orig.take(i as int + 1);
                assert(taken.drop_last() =~= orig.take(i as int));
                assert(taken.last() == orig[i as int]);
            }
            if x != id {
                kept.push(x);
            }
            i = i + 1;
        }
        proof {
            assert(orig.take(orig.len() as int) =~= orig);
            orig.lemma_filter_len(|x: u64| x != id);
            assert forall|a: int, b: int| 0 <= a < b < kept@.len() implies kept@[a] < kept@[b] by {
                lemma_filter_subseq(orig, |x: u64| x != id, a, b);
            }
            assert forall|a: int| 0 <= a < kept@.len() implies 1 <= #[trigger] kept@[a]
                <= self.issued by {
                lemma_filter_elem_from(orig, |x: u64| x != id, a);
                let i = choose|i: int|
                    0 <= i < orig.len() && orig[i] == orig.filter(|x: u64| x != id)[a];
            }
        }
        self.active = kept;
    }
}

/// Two positions of a filtered sequence come from two positions of the
/// original in the same order; so a filter keeps any strict ordering of the
/// original's elements.
proof fn lemma_filter_subseq(s: Seq<u64>, pred: spec_fn(u64) -> bool, a: int, b: int)
    requires
        0 <= a < b < s.filter(pred).len(),
        forall|i: int, j: int| 0 <= i < j < s.len() ==> s[i] < s[j],
    ensures
        s.filter(pred)[a] < s.filter(pred)[b],
    decreases s.len(),
{
    reveal(Seq::filter);
    if s.len() > 0 {
        let sub = s.drop_last().filter(pred);
        if pred(s.last()) {
            if b < sub.len() {
                lemma_filter_subseq(s.drop_last(), pred, a, b);
            } else {
                // b names the pushed last element; a comes from the prefix
                lemma_filter_elem_from(s.drop_last(), pred, a);
                let i = choose|i: int|
                    0 <= i < s.drop_last().len() && s.drop_last()[i] == sub[a];
                assert(s[i] == sub[a]);
                assert(s.filter(pred)[b] == s.last());
            }
        } else {
            lemma_filter_subseq(s.drop_last(), pred, a, b);
        }
    }
}

/// Every element of a filtered sequence stands somewhere in the original.
proof fn lemma_filter_elem_from(s: Seq<u64>, pred: spec_fn(u64) -> bool, a: int)
    requires
        0 <= a < s.filter(pred).len(),
    ensures
        exists|i: int| 0 <= i < s.len() && s[i] == s.filter(pred)[a],
    decreases s.len(),
{
    reveal(Seq::filter);
    if s.len() > 0 {
        let sub = s.drop_last().filter(pred);
        if pred(s.last()) && a == sub.len() {
            assert(s[s.len() - 1] == s.filter(pred)[a]);
        } else {
            lemma_filter_elem_from(s.drop_last(), pred, a);
            let i = choose|i: int| 0 <= i < s.drop_last().len() && s.drop_last()[i] == sub[a];
            assert(s[i] == s.filter(pred)[a]);
        }
    }
}

} // verus!
