//! Words that threads share, with a record of what was done to them.
//!
//! What a shared word shows is up to everybody who has it. What one holder does to it is not:
//! a `WordAccess` records each of its own steps, and the laws below say what the word shows
//! once the steps of all holders are put in the order in which they took effect. Only the
//! functions that take a step write the record.

use std::ops::Deref;
use std::sync::atomic::AtomicU64;
use std::sync::atomic::AtomicUsize;
use std::sync::atomic::Ordering;
use std::sync::Arc;

use vstd::arithmetic::div_mod::lemma_add_mod_noop;
use vstd::arithmetic::div_mod::lemma_mod_bound;
use vstd::arithmetic::div_mod::lemma_mod_twice;
use vstd::arithmetic::div_mod::lemma_small_mod;
use vstd::arithmetic::div_mod::lemma_sub_mod_noop;
use vstd::prelude::*;

verus! {

/// One atomic step on a shared word. `found` is the value that the step came upon.
pub enum WordStep {
    /// `amount` is added.
    Add { found: usize, amount: usize },
    /// `amount` is taken off.
    Subtract { amount: usize },
    /// `bits` are set.
    Mark { bits: usize },
    /// The word is only looked at.
    Load { found: usize },
}

/// A shared word, and the steps that one of its holders took on it.
pub struct WordView {
    pub word: AtomicUsize,
    pub steps: Seq<WordStep>,
}

impl WordView {
    /// A word on which its holder took no step yet.
    pub open spec fn untouched(word: AtomicUsize) -> WordView {
        WordView { word, steps: Seq::empty() }
    }

    /// The word after one more step of its holder.
    pub open spec fn stepped(self, step: WordStep) -> WordView {
        WordView { steps: self.steps.push(step), ..self }
    }
}

/// What gives access to a shared word: a reference to it, or a share in it.
pub trait WordHandle: Deref<Target = AtomicUsize> {
    /// The shared word.
    spec fn word(self) -> AtomicUsize;
}

impl WordHandle for &AtomicUsize {
    open spec fn word(self) -> AtomicUsize {
        *self
    }
}

impl WordHandle for Arc<AtomicUsize> {
    open spec fn word(self) -> AtomicUsize {
        *self
    }
}

/// Access to a shared word that records every step.
pub struct WordAccess<H> {
    handle: H,
    steps: Ghost<Seq<WordStep>>,
}

impl<H: WordHandle> View for WordAccess<H> {
    type V = WordView;

    closed spec fn view(&self) -> WordView {
        WordView { word: self.handle.word(), steps: self.steps@ }
    }
}

impl<H: WordHandle> WordAccess<H> {
    /// Access to a word, with nothing recorded yet.
    pub fn to(handle: H) -> (access: WordAccess<H>)
        ensures
            access@ == WordView::untouched(handle.word()),
        opens_invariants none
        no_unwind
    {
        WordAccess { handle, steps: Ghost(Seq::empty()) }
    }

    /// `AtomicUsize::fetch_add`: adds to the word, wrapping around, and returns what it came
    /// upon, which is up to everybody who shares the word. The step is what the record grows
    /// by. Nothing is said of the memory order.
    #[verifier::external_body]
    pub(crate) fn add_to(&mut self, amount: usize, order: Ordering) -> (found: usize)
        ensures
            final(self)@ == old(self)@.stepped(WordStep::Add { found, amount }),
    {
        self.handle.fetch_add(amount, order)
    }

    /// `AtomicUsize::fetch_sub`: takes off the word, wrapping around, and never panics. The
    /// step is what the record grows by. Nothing is said of the memory order.
    #[verifier::external_body]
    pub(crate) fn subtract(&mut self, amount: usize, order: Ordering)
        ensures
            final(self)@ == old(self)@.stepped(WordStep::Subtract { amount }),
        opens_invariants none
        no_unwind
    {
        self.handle.fetch_sub(amount, order);
    }

    /// `AtomicUsize::fetch_or`: sets bits of the word, and never panics. The step is what the
    /// record grows by. Nothing is said of the memory order.
    #[verifier::external_body]
    pub(crate) fn set_bits(&mut self, bits: usize, order: Ordering)
        ensures
            final(self)@ == old(self)@.stepped(WordStep::Mark { bits }),
        opens_invariants none
        no_unwind
    {
        self.handle.fetch_or(bits, order);
    }

    /// `AtomicUsize::load`: what the word shows, which is up to everybody who shares it. The
    /// step is what the record grows by. A load has no release order. Nothing else is said of
    /// the memory order.
    #[verifier::external_body]
    pub(crate) fn load(&mut self, order: Ordering) -> (found: usize)
        requires
            !(order is Release) && !(order is AcqRel),
        ensures
            final(self)@ == old(self)@.stepped(WordStep::Load { found }),
    {
        self.handle.load(order)
    }
}

impl WordAccess<Arc<AtomicUsize>> {
    /// Another share in the word.
    pub fn share(&self) -> (word: Arc<AtomicUsize>)
        ensures
            *word == self@.word,
    {
        self.handle.clone()
    }

    /// Access to the same word for a short while, with a record of its own.
    pub fn borrowed(&self) -> (access: WordAccess<&'_ AtomicUsize>)
        ensures
            access@ == WordView::untouched(self@.word),
    {
        WordAccess::to(&*self.handle)
    }
}

/// Whether a word came out of `AtomicUsize::new`, made to show `start`.
pub open spec fn made_with(word: AtomicUsize, start: usize) -> bool {
    call_ensures(AtomicUsize::new, (start,), word)
}

/// A total that only ever grows, and what one of its holders added to it.
pub struct TotalView {
    pub total: AtomicU64,
    pub added: Seq<u64>,
}

/// Access to a shared total that records what is added.
pub struct TotalAccess<'a> {
    total: &'a AtomicU64,
    added: Ghost<Seq<u64>>,
}

impl View for TotalAccess<'_> {
    type V = TotalView;

    closed spec fn view(&self) -> TotalView {
        TotalView { total: *self.total, added: self.added@ }
    }
}

impl<'a> TotalAccess<'a> {
    /// Access to a total, with nothing recorded yet.
    pub fn to(total: &'a AtomicU64) -> (access: TotalAccess<'a>)
        ensures
            access@ == (TotalView { total: *total, added: Seq::empty() }),
    {
        TotalAccess { total, added: Ghost(Seq::empty()) }
    }

    /// `AtomicU64::fetch_add`, relaxed: adds to the total, wrapping around, and never panics.
    /// The amount is what the record grows by.
    #[verifier::external_body]
    pub(crate) fn grow(&mut self, amount: u64)
        ensures
            final(self)@ == (TotalView { added: old(self)@.added.push(amount), ..old(self)@ }),
    {
        self.total.fetch_add(amount, Ordering::Relaxed);
    }
}

/// A number as a word holds it: it wraps around.
pub open spec fn wrapped(number: int) -> int {
    number % (usize::MAX + 1)
}

/// What a word shows after a step.
pub open spec fn word_after(word: int, step: WordStep) -> int {
    match step {
        WordStep::Add { amount, .. } => wrapped(word + amount),
        WordStep::Subtract { amount } => wrapped(word - amount),
        WordStep::Mark { bits } => ((word as usize) | bits) as int,
        WordStep::Load { .. } => word,
    }
}

/// A step in the history of a word: whether the holder in question took it, or somebody else.
pub struct HistoryStep {
    pub own: bool,
    pub step: WordStep,
}

/// What a word that showed `start` shows after all the steps.
pub open spec fn shown_after(start: usize, history: Seq<HistoryStep>) -> int
    decreases history.len(),
{
    if history.len() == 0 {
        start as int
    } else {
        word_after(shown_after(start, history.drop_last()), history.last().step)
    }
}

/// Whether every step came upon what the word showed then, and none set bits: so a counter is
/// used.
pub open spec fn counts(start: usize, history: Seq<HistoryStep>) -> bool
    decreases history.len(),
{
    history.len() == 0 || {
        &&& counts(start, history.drop_last())
        &&& match history.last().step {
            WordStep::Add { found, .. } | WordStep::Load { found } => found == shown_after(
                start,
                history.drop_last(),
            ),
            WordStep::Subtract { .. } => true,
            WordStep::Mark { .. } => false,
        }
    }
}

/// The holder's own steps among all.
pub open spec fn own_steps(history: Seq<HistoryStep>) -> Seq<WordStep>
    decreases history.len(),
{
    if history.len() == 0 {
        Seq::empty()
    } else if history.last().own {
        own_steps(history.drop_last()).push(history.last().step)
    } else {
        own_steps(history.drop_last())
    }
}

/// By how much a step moves a counter up.
pub open spec fn rise(step: WordStep) -> int {
    match step {
        WordStep::Add { amount, .. } => amount as int,
        WordStep::Subtract { amount } => -amount,
        _ => 0,
    }
}

/// By how much the steps of others move a counter up, in all.
pub open spec fn risen_elsewhere(history: Seq<HistoryStep>) -> int
    decreases history.len(),
{
    if history.len() == 0 {
        0
    } else {
        risen_elsewhere(history.drop_last()) + if history.last().own {
            0
        } else {
            rise(history.last().step)
        }
    }
}

/// How much a holder took off a counter, in all.
pub open spec fn lowered(steps: Seq<WordStep>) -> nat
    decreases steps.len(),
{
    if steps.len() == 0 {
        0
    } else {
        lowered(steps.drop_last()) + match steps.last() {
            WordStep::Subtract { amount } => amount as nat,
            _ => 0,
        }
    }
}

/// Whether a holder only ever took off a counter or looked at it.
pub open spec fn only_lowers(steps: Seq<WordStep>) -> bool {
    forall|i: int|
        0 <= i < steps.len() ==> (#[trigger] steps[i] is Subtract || steps[i] is Load)
}

/// One more step changes what was taken off by what it takes off.
pub proof fn lemma_lowered_of_push(steps: Seq<WordStep>, step: WordStep)
    ensures
        lowered(steps.push(step)) == lowered(steps) + match step {
            WordStep::Subtract { amount } => amount as nat,
            _ => 0,
        },
        only_lowers(steps) && (step is Subtract || step is Load) ==> only_lowers(steps.push(step)),
{
    assert(steps.push(step).drop_last() == steps);
}

proof fn lemma_wrapped(number: int)
    ensures
        0 <= wrapped(number) <= usize::MAX,
        0 <= number <= usize::MAX ==> wrapped(number) == number,
        wrapped(wrapped(number)) == wrapped(number),
{
    let size = usize::MAX + 1;
    lemma_mod_bound(number, size);
    lemma_mod_twice(number, size);
    if 0 <= number <= usize::MAX {
        lemma_small_mod(number as nat, size as nat);
    }
}

/// A step that stays within a word does not wrap around.
pub proof fn lemma_step_without_wrapping(word: int, step: WordStep)
    requires
        0 <= word <= usize::MAX,
        0 <= word + rise(step) <= usize::MAX,
        !(step is Mark),
    ensures
        word_after(word, step) == word + rise(step),
{
    lemma_wrapped(word + rise(step));
}

/// A counter shows what it started with and what others added, less what its holder took off,
/// wrapped around; it shows exactly that wherever that fits in a word.
pub proof fn law_counters_show_what_is_left(start: usize, history: Seq<HistoryStep>)
    requires
        counts(start, history),
        only_lowers(own_steps(history)),
    ensures
        ({
            let left = start + risen_elsewhere(history) - lowered(own_steps(history));
            &&& shown_after(start, history) == wrapped(left)
            &&& 0 <= left <= usize::MAX ==> shown_after(start, history) == left
        }),
    decreases history.len(),
{
    let size = usize::MAX + 1;
    let left = start + risen_elsewhere(history) - lowered(own_steps(history));
    lemma_wrapped(left);
    if history.len() > 0 {
        let earlier = history.drop_last();
        let last = history.last();
        if last.own {
            let steps = own_steps(earlier);
            lemma_lowered_of_push(steps, last.step);
            assert(own_steps(history)[steps.len() as int] == last.step);
            assert forall|i: int| 0 <= i < steps.len() implies (#[trigger] steps[i] is Subtract
                || steps[i] is Load) by {
                assert(own_steps(history)[i] == steps[i]);
            }
        }
        law_counters_show_what_is_left(start, earlier);
        let before = start + risen_elsewhere(earlier) - lowered(own_steps(earlier));
        lemma_wrapped(before);
        match last.step {
            WordStep::Add { amount, .. } => {
                lemma_add_mod_noop(wrapped(before), amount as int, size);
                lemma_add_mod_noop(before, amount as int, size);
            },
            WordStep::Subtract { amount } => {
                lemma_sub_mod_noop(wrapped(before), amount as int, size);
                lemma_sub_mod_noop(before, amount as int, size);
            },
            _ => {},
        }
    }
}

/// A number as a total holds it: it wraps around.
pub open spec fn wrapped_total(number: int) -> int {
    number % (u64::MAX + 1)
}

/// An addition in the history of a total: whether the holder in question made it, or somebody
/// else, through whatever handle.
pub struct Addition {
    pub own: bool,
    pub amount: u64,
}

/// What a total that showed `start` shows after all the additions.
pub open spec fn total_after(start: u64, history: Seq<Addition>) -> int
    decreases history.len(),
{
    if history.len() == 0 {
        start as int
    } else {
        wrapped_total(total_after(start, history.drop_last()) + history.last().amount)
    }
}

/// The sum of all the additions, through every handle.
pub open spec fn added_in_all(history: Seq<Addition>) -> nat
    decreases history.len(),
{
    if history.len() == 0 {
        0
    } else {
        added_in_all(history.drop_last()) + history.last().amount as nat
    }
}

/// The sum of the additions by everybody but the holder in question.
pub open spec fn added_elsewhere(history: Seq<Addition>) -> nat
    decreases history.len(),
{
    if history.len() == 0 {
        0
    } else {
        added_elsewhere(history.drop_last()) + if history.last().own {
            0
        } else {
            history.last().amount as nat
        }
    }
}

/// The holder's own amounts among all.
pub open spec fn own_amounts(history: Seq<Addition>) -> Seq<u64>
    decreases history.len(),
{
    if history.len() == 0 {
        Seq::empty()
    } else if history.last().own {
        own_amounts(history.drop_last()).push(history.last().amount)
    } else {
        own_amounts(history.drop_last())
    }
}

/// The sum of amounts.
pub open spec fn sum_of(amounts: Seq<u64>) -> nat
    decreases amounts.len(),
{
    if amounts.len() == 0 {
        0
    } else {
        sum_of(amounts.drop_last()) + amounts.last() as nat
    }
}

/// A total shows what it started with and everything that was added to it, through every
/// handle, wrapped around; it shows exactly that wherever that fits. What one holder added is in
/// it as its record says.
pub proof fn law_totals_show_everything_that_was_added(start: u64, history: Seq<Addition>)
    ensures
        total_after(start, history) == wrapped_total((start + added_in_all(history)) as int),
        start + added_in_all(history) <= u64::MAX ==> total_after(start, history) == start
            + added_in_all(history),
        added_in_all(history) == sum_of(own_amounts(history)) + added_elsewhere(history),
    decreases history.len(),
{
    let size = u64::MAX + 1;
    let all = start + added_in_all(history);
    if all <= u64::MAX {
        lemma_small_mod(all as nat, size as nat);
    }
    if history.len() == 0 {
        lemma_small_mod(start as nat, size as nat);
    } else {
        let earlier = history.drop_last();
        let last = history.last();
        let before = start + added_in_all(earlier);
        law_totals_show_everything_that_was_added(start, earlier);
        lemma_add_mod_noop(wrapped_total(before as int), last.amount as int, size);
        lemma_add_mod_noop(before as int, last.amount as int, size);
        lemma_mod_twice(before as int, size);
        if last.own {
            assert(own_amounts(history).drop_last() == own_amounts(earlier));
        }
    }
}

} // verus!
