//! A producer door that counts the producers inside it and can be shut once.
//!
//! The whole door is one word: the top bit says that it is closed, the bits below it
//! count the producers that hold a reservation.

use std::sync::atomic::AtomicUsize;
use std::sync::atomic::Ordering;
use std::sync::Arc;

use vstd::prelude::*;

use crate::shared::lemma_step_without_wrapping;
use crate::shared::made_with;
use crate::shared::rise;
use crate::shared::word_after;
use crate::shared::WordAccess;
use crate::shared::WordHandle;
use crate::shared::WordStep;
use crate::shared::WordView;

verus! {

/// The bit of the door word that says that the door is closed.
pub const CLOSED: usize = 1 << (usize::BITS - 1);

/// Whether a door word says that the door is closed.
pub open spec fn is_closed(word: usize) -> bool {
    word >= CLOSED
}

/// How many reservations a door word counts.
pub open spec fn inside(word: usize) -> nat {
    if is_closed(word) {
        (word - CLOSED) as nat
    } else {
        word as nat
    }
}

/// Whether a producer that found `previous` in the door is turned away.
pub fn refuses_entry(previous: usize) -> (refused: bool)
    ensures
        refused == is_closed(previous),
{
    assert(previous & CLOSED != 0 <==> previous >= CLOSED) by (bit_vector);
    previous & CLOSED != 0
}

/// The number of reservations that a door word counts, whether it is closed or not.
pub fn reservations(word: usize) -> (count: usize)
    ensures
        count == inside(word),
        count < CLOSED,
{
    assert(word & !CLOSED < CLOSED) by (bit_vector);
    assert(word & !CLOSED == if word >= CLOSED {
        word - CLOSED
    } else {
        word as int
    }) by (bit_vector);
    word & !CLOSED
}

/// The door that producers pass before they hand an item to a queue. Clones share it.
pub struct Admission {
    state: Arc<AtomicUsize>,
}

/// A reservation inside the door, given back when it is dropped.
pub struct EnqueueGuard<'a> {
    access: WordAccess<&'a AtomicUsize>,
}

impl Admission {
    /// The shared word behind this handle.
    pub closed spec fn door(self) -> AtomicUsize {
        *self.state
    }

    /// Reserves admission atomically with respect to closing the producer door.
    ///
    /// The word is shared with other threads, so which of the two answers comes back is
    /// theirs to decide: it is the one that `try_enter` gave.
    pub fn enter(&self) -> (guard: Option<EnqueueGuard<'_>>)
        ensures
            exists|entry: Result<EnqueueGuard<'_>, WordAccess<&'_ AtomicUsize>>| #[trigger]
                call_ensures(Admission::try_enter, (self,), entry) && match entry {
                    Ok(admitted) => guard == Some(admitted),
                    Err(_) => guard is None,
                },
            guard matches Some(guard) ==> entered(guard@, self.door()),
    {
        match self.try_enter() {
            Ok(guard) => Some(guard),
            Err(_) => None,
        }
    }

    /// Reserves admission: a guard whose reservation found the door open, or the access through
    /// which a reservation found it closed and was taken back.
    pub fn try_enter(&self) -> (entry: Result<EnqueueGuard<'_>, WordAccess<&'_ AtomicUsize>>)
        ensures
            match entry {
                Ok(guard) => entered(guard@, self.door()),
                Err(access) => turned_away(access@, self.door()),
            },
    {
        let mut access = WordAccess::to(&*self.state);
        let previous: usize = access.add_to(1, Ordering::Acquire);
        assert(access@ == WordView::untouched(self.door()).stepped(
            DoorStep::Reserve { found: previous }.on_word(),
        ));
        Self::settle(access, previous)
    }

    /// What becomes of a reservation that was added to the word and found `previous` there: a
    /// guard while the door is open; behind a closed door it is taken back.
    fn settle<'a>(access: WordAccess<&'a AtomicUsize>, previous: usize) -> (entry: Result<
        EnqueueGuard<'a>,
        WordAccess<&'a AtomicUsize>,
    >)
        ensures
            match entry {
                Ok(guard) => !is_closed(previous) && guard@ == access@,
                Err(after) => is_closed(previous) && after@ == access@.stepped(
                    DoorStep::Withdraw.on_word(),
                ),
            },
    {
        if refuses_entry(previous) {
            let mut access = access;
            access.subtract(1, Ordering::Release);
            Err(access)
        } else {
            Ok(EnqueueGuard { access })
        }
    }

    /// Shuts the door for good; producers inside keep their reservations.
    pub fn close(&self)
        ensures
            exists|access: WordAccess<&'_ AtomicUsize>| #[trigger]
                call_ensures(Admission::shut, (self,), access),
        opens_invariants none
        no_unwind
    {
        self.shut();
    }

    /// Shuts the door: the access through which that was done.
    pub fn shut(&self) -> (access: WordAccess<&'_ AtomicUsize>)
        ensures
            access@ == WordView::untouched(self.door()).stepped(DoorStep::Close.on_word()),
        opens_invariants none
        no_unwind
    {
        let mut access = WordAccess::to(&*self.state);
        shut_through(&mut access);
        access
    }

    /// Access to the shared word that lasts as long as it is wanted.
    pub(crate) fn access(&self) -> (access: WordAccess<Arc<AtomicUsize>>)
        ensures
            access@ == WordView::untouched(self.door()),
    {
        WordAccess::to(self.state.clone())
    }

    /// The number of producers that hold a reservation at this moment.
    pub fn producers_inside(&self) -> (count: usize)
        ensures
            exists|looked: (usize, WordAccess<&'_ AtomicUsize>)| #[trigger]
                call_ensures(Admission::look, (self,), looked) && count == looked.0,
            count < CLOSED,
    {
        self.look().0
    }

    /// The number of producers that the word counts when it is looked at, with the access
    /// through which that was done.
    pub fn look(&self) -> (looked: (usize, WordAccess<&'_ AtomicUsize>))
        ensures
            looked.0 < CLOSED,
            exists|found: usize|
                looked.0 == #[trigger] inside(found) && looked.1@ == WordView::untouched(
                    self.door(),
                ).stepped(DoorStep::Look { found }.on_word()),
    {
        let mut access = WordAccess::to(&*self.state);
        let found: usize = access.load(Ordering::Acquire);
        let count: usize = reservations(found);
        assert(count == inside(found));
        (count, access)
    }
}

impl Default for Admission {
    /// An open door with nobody inside.
    fn default() -> (admission: Self)
        ensures
            made_with(admission.door(), DoorModel::open_door().word),
    {
        Admission { state: Arc::new(AtomicUsize::new(0)) }
    }
}

impl Clone for Admission {
    /// Another handle on the same door.
    fn clone(&self) -> (handle: Self)
        ensures
            handle.door() == self.door(),
    {
        Admission { state: self.state.clone() }
    }
}

impl View for EnqueueGuard<'_> {
    type V = WordView;

    /// The shared word that counts this reservation, and what was done to it through this
    /// guard.
    closed spec fn view(&self) -> WordView {
        self.access@
    }
}

impl Drop for EnqueueGuard<'_> {
    /// Gives the reservation back.
    fn drop(&mut self)
        ensures
            final(self)@ == old(self)@.stepped(DoorStep::Leave.on_word()),
        opens_invariants none
        no_unwind
    {
        self.access.subtract(1, Ordering::Release);
    }
}

/// Closes a door through access to its word.
pub(crate) fn shut_through<H: WordHandle>(access: &mut WordAccess<H>)
    ensures
        final(access)@ == old(access)@.stepped(DoorStep::Close.on_word()),
    opens_invariants none
    no_unwind
{
    access.set_bits(CLOSED, Ordering::AcqRel);
}

/// Whether the steps on a door's word are those of a reservation that found it open.
pub open spec fn entered(access: WordView, door: AtomicUsize) -> bool {
    exists|found: usize|
        !is_closed(found) && access == WordView::untouched(door).stepped(
            #[trigger] DoorStep::Reserve { found }.on_word(),
        )
}

/// Whether the steps on a door's word are those of a reservation that found it closed and was
/// taken back.
pub open spec fn turned_away(access: WordView, door: AtomicUsize) -> bool {
    exists|found: usize|
        is_closed(found) && access == WordView::untouched(door).stepped(
            #[trigger] DoorStep::Reserve { found }.on_word(),
        ).stepped(DoorStep::Withdraw.on_word())
}

/// A door with everything that happened to it: the word, how many producers were let in
/// and are still inside, and how many were refused and have not yet taken their
/// reservation back.
pub struct DoorModel {
    pub word: usize,
    pub admitted: nat,
    pub refused: nat,
}

/// One atomic step on the door's word. `found` is the word that it came upon.
pub enum DoorStep {
    /// A producer adds its reservation; whether it is let in depends on the word it finds.
    Reserve { found: usize },
    /// A refused producer takes its reservation back.
    Withdraw,
    /// A producer that was let in drops its guard.
    Leave,
    /// The door is closed.
    Close,
    /// Somebody looks how many producers are inside.
    Look { found: usize },
}

impl DoorStep {
    /// What the step does to the word.
    pub open spec fn on_word(self) -> WordStep {
        match self {
            DoorStep::Reserve { found } => WordStep::Add { found, amount: 1 },
            DoorStep::Withdraw | DoorStep::Leave => WordStep::Subtract { amount: 1 },
            DoorStep::Close => WordStep::Mark { bits: CLOSED },
            DoorStep::Look { found } => WordStep::Load { found },
        }
    }
}

impl DoorModel {
    /// A new door: open, nobody inside.
    pub open spec fn open_door() -> DoorModel {
        DoorModel { word: 0, admitted: 0, refused: 0 }
    }

    /// The word counts exactly the producers that were let in or have yet to withdraw.
    pub open spec fn counted(self) -> bool {
        inside(self.word) == self.admitted + self.refused
    }

    /// Whether a step can happen here: it comes upon the word as it is. A reservation needs
    /// room below the closing bit.
    pub open spec fn enables(self, step: DoorStep) -> bool {
        match step {
            DoorStep::Reserve { found } => found == self.word && inside(self.word) + 1 < CLOSED,
            DoorStep::Withdraw => self.refused > 0,
            DoorStep::Leave => self.admitted > 0,
            DoorStep::Close => true,
            DoorStep::Look { found } => found == self.word,
        }
    }

    /// The door after a step.
    pub open spec fn after(self, step: DoorStep) -> DoorModel {
        match step {
            DoorStep::Reserve { found } => if is_closed(found) {
                DoorModel {
                    word: (self.word + 1) as usize,
                    refused: self.refused + 1,
                    ..self
                }
            } else {
                DoorModel {
                    word: (self.word + 1) as usize,
                    admitted: self.admitted + 1,
                    ..self
                }
            },
            DoorStep::Withdraw => DoorModel {
                word: (self.word - 1) as usize,
                refused: (self.refused - 1) as nat,
                ..self
            },
            DoorStep::Leave => DoorModel {
                word: (self.word - 1) as usize,
                admitted: (self.admitted - 1) as nat,
                ..self
            },
            DoorStep::Close => DoorModel { word: self.word | CLOSED, ..self },
            DoorStep::Look { .. } => self,
        }
    }

    /// Whether the steps can happen one after the other.
    pub open spec fn enables_all(self, steps: Seq<DoorStep>) -> bool
        decreases steps.len(),
    {
        steps.len() == 0 || (self.enables_all(steps.drop_last()) && self.after_all(
            steps.drop_last(),
        ).enables(steps.last()))
    }

    /// The door after all the steps.
    pub open spec fn after_all(self, steps: Seq<DoorStep>) -> DoorModel
        decreases steps.len(),
    {
        if steps.len() == 0 {
            self
        } else {
            self.after_all(steps.drop_last()).after(steps.last())
        }
    }
}

/// Whether the door was closed in the course of the steps.
pub open spec fn closes(steps: Seq<DoorStep>) -> bool {
    exists|i: int| 0 <= i < steps.len() && (#[trigger] steps[i]) is Close
}

/// Closing sets the closing bit and leaves the count as it is. Closing again changes nothing.
pub proof fn law_closing_keeps_reservations(word: usize)
    ensures
        is_closed(word | CLOSED),
        inside(word | CLOSED) == inside(word),
        is_closed(word) ==> word | CLOSED == word,
{
    assert((word | CLOSED) >= CLOSED) by (bit_vector);
    assert((word | CLOSED) - CLOSED == if word >= CLOSED {
        word - CLOSED
    } else {
        word as int
    }) by (bit_vector);
    assert(word >= CLOSED ==> word | CLOSED == word) by (bit_vector);
}

/// Each step keeps the word equal to the number of producers it counts, opens no closed door
/// and closes none but by closing, lets a producer in only while the door is open, and does to
/// the word what the atomic operation behind it does.
pub proof fn law_step_keeps_count(door: DoorModel, step: DoorStep)
    requires
        door.counted(),
        door.enables(step),
    ensures
        door.after(step).counted(),
        is_closed(door.after(step).word) <==> is_closed(door.word) || step is Close,
        door.after(step).admitted > door.admitted ==> !is_closed(door.word),
        door.after(step).word == word_after(door.word as int, step.on_word()),
{
    assert(CLOSED >= 1) by (bit_vector);
    assert(CLOSED + CLOSED - 1 <= !0usize) by (bit_vector);
    law_closing_keeps_reservations(door.word);
    if !(step is Close) {
        lemma_step_without_wrapping(door.word as int, step.on_word());
    }
}

/// Every door that starts open and empty keeps its count right, and is closed exactly if it was
/// ever closed, whatever else happens to it.
pub proof fn law_door_counts_its_producers(steps: Seq<DoorStep>)
    requires
        DoorModel::open_door().enables_all(steps),
    ensures
        DoorModel::open_door().after_all(steps).counted(),
        is_closed(DoorModel::open_door().after_all(steps).word) <==> closes(steps),
    decreases steps.len(),
{
    assert(0usize < CLOSED) by (bit_vector);
    if steps.len() > 0 {
        let earlier = steps.drop_last();
        law_door_counts_its_producers(earlier);
        law_step_keeps_count(DoorModel::open_door().after_all(earlier), steps.last());
        assert(steps[steps.len() - 1] == steps.last());
        if closes(earlier) {
            let i = choose|i: int| 0 <= i < earlier.len() && (#[trigger] earlier[i]) is Close;
            assert(steps[i] is Close);
        }
        if closes(steps) && !(steps.last() is Close) {
            let i = choose|i: int| 0 <= i < steps.len() && (#[trigger] steps[i]) is Close;
            assert(earlier[i] is Close);
        }
    }
}

proof fn lemma_enables_prefix(door: DoorModel, steps: Seq<DoorStep>, i: int)
    requires
        door.enables_all(steps),
        0 <= i <= steps.len(),
    ensures
        door.enables_all(steps.take(i)),
    decreases steps.len(),
{
    if i == steps.len() {
        assert(steps.take(i) == steps);
    } else {
        lemma_enables_prefix(door, steps.drop_last(), i);
        assert(steps.drop_last().take(i) == steps.take(i));
    }
}

proof fn lemma_step_in_history(door: DoorModel, steps: Seq<DoorStep>, i: int)
    requires
        door.enables_all(steps),
        0 <= i < steps.len(),
    ensures
        door.enables_all(steps.take(i)),
        door.after_all(steps.take(i)).enables(steps[i]),
        door.after_all(steps.take(i + 1)) == door.after_all(steps.take(i)).after(steps[i]),
{
    lemma_enables_prefix(door, steps, i);
    lemma_enables_prefix(door, steps, i + 1);
    assert(steps.take(i + 1).drop_last() == steps.take(i));
    assert(steps.take(i + 1).last() == steps[i]);
}

/// A reservation is refused exactly if the door was closed before it took effect, by whichever
/// handle. One that is let in adds one guard; one that is refused adds none, and neither does
/// taking it back.
pub proof fn law_entry_is_refused_after_closing(steps: Seq<DoorStep>, i: int)
    requires
        DoorModel::open_door().enables_all(steps),
        0 <= i < steps.len(),
        steps[i] is Reserve || steps[i] is Withdraw,
    ensures
        steps[i] matches DoorStep::Reserve { found } ==> (is_closed(found) <==> closes(
            steps.take(i),
        )),
        DoorModel::open_door().after_all(steps.take(i + 1)).admitted
            == DoorModel::open_door().after_all(steps.take(i)).admitted + if steps[i] is Reserve
            && !closes(steps.take(i)) {
            1int
        } else {
            0int
        },
{
    lemma_step_in_history(DoorModel::open_door(), steps, i);
    law_door_counts_its_producers(steps.take(i));
}

/// Closing leaves the guards as they are, and every reservation that comes later is refused,
/// however often the door is closed again.
pub proof fn law_closing_is_for_good(steps: Seq<DoorStep>, i: int, later: int)
    requires
        DoorModel::open_door().enables_all(steps),
        0 <= i < later < steps.len(),
        steps[i] is Close,
    ensures
        DoorModel::open_door().after_all(steps.take(i + 1)).admitted
            == DoorModel::open_door().after_all(steps.take(i)).admitted,
        inside(DoorModel::open_door().after_all(steps.take(i + 1)).word) == inside(
            DoorModel::open_door().after_all(steps.take(i)).word,
        ),
        closes(steps.take(i)) ==> DoorModel::open_door().after_all(steps.take(i + 1))
            == DoorModel::open_door().after_all(steps.take(i)),
        steps[later] matches DoorStep::Reserve { found } ==> is_closed(found),
{
    lemma_step_in_history(DoorModel::open_door(), steps, i);
    lemma_step_in_history(DoorModel::open_door(), steps, later);
    law_door_counts_its_producers(steps.take(i));
    law_door_counts_its_producers(steps.take(later));
    law_closing_keeps_reservations(DoorModel::open_door().after_all(steps.take(i)).word);
    assert(steps.take(later)[i] is Close);
}

/// A guard that is dropped, in whatever way, leaves one guard less, and the door open or closed
/// as it was. The last one to leave, with no refused reservation outstanding, leaves a word that
/// counts nobody.
pub proof fn law_leaving_gives_one_reservation_back(steps: Seq<DoorStep>, i: int)
    requires
        DoorModel::open_door().enables_all(steps),
        0 <= i < steps.len(),
        steps[i] is Leave,
    ensures
        ({
            let before = DoorModel::open_door().after_all(steps.take(i));
            let after = DoorModel::open_door().after_all(steps.take(i + 1));
            &&& after.admitted == before.admitted - 1
            &&& is_closed(after.word) <==> is_closed(before.word)
            &&& after.admitted == 0 && after.refused == 0 ==> inside(after.word) == 0
        }),
{
    lemma_step_in_history(DoorModel::open_door(), steps, i);
    law_door_counts_its_producers(steps.take(i));
    law_step_keeps_count(DoorModel::open_door().after_all(steps.take(i)), steps[i]);
}

/// What a guard does to its door in its whole life, from entering to being dropped: it takes one
/// reservation while the door is open and gives that one back.
pub proof fn law_guards_give_back_what_they_took(
    entry: WordView,
    dropped: WordView,
    door: AtomicUsize,
)
    requires
        entered(entry, door),
        dropped == entry.stepped(DoorStep::Leave.on_word()),
    ensures
        dropped.word == door,
        exists|found: usize|
            !is_closed(found) && dropped.steps == seq![
                #[trigger] DoorStep::Reserve { found }.on_word(),
                DoorStep::Leave.on_word(),
            ],
        rise(dropped.steps[0]) + rise(dropped.steps[1]) == 0,
{
    let found = choose|found: usize|
        !is_closed(found) && entry == WordView::untouched(door).stepped(
            #[trigger] DoorStep::Reserve { found }.on_word(),
        );
    assert(dropped.steps =~= seq![
        DoorStep::Reserve { found }.on_word(),
        DoorStep::Leave.on_word(),
    ]);
}

/// How many reservations were let in.
pub open spec fn let_in(steps: Seq<DoorStep>) -> nat
    decreases steps.len(),
{
    if steps.len() == 0 {
        0
    } else {
        let_in(steps.drop_last()) + match steps.last() {
            DoorStep::Reserve { found } if !is_closed(found) => 1nat,
            _ => 0nat,
        }
    }
}

/// How many guards were dropped.
pub open spec fn gone(steps: Seq<DoorStep>) -> nat
    decreases steps.len(),
{
    if steps.len() == 0 {
        0
    } else {
        gone(steps.drop_last()) + if steps.last() is Leave {
            1nat
        } else {
            0nat
        }
    }
}

/// The guards that are there are those that were let in and are not dropped yet.
pub proof fn law_guards_are_those_not_dropped(steps: Seq<DoorStep>)
    requires
        DoorModel::open_door().enables_all(steps),
    ensures
        DoorModel::open_door().after_all(steps).admitted == let_in(steps) - gone(steps),
    decreases steps.len(),
{
    if steps.len() > 0 {
        law_guards_are_those_not_dropped(steps.drop_last());
    }
}

/// However producers and guards interleave after the door was closed, it stays closed, its
/// count stays right, and nobody else is let in.
pub proof fn law_closed_door_admits_nobody(door: DoorModel, steps: Seq<DoorStep>)
    requires
        door.counted(),
        is_closed(door.word),
        door.enables_all(steps),
    ensures
        door.after_all(steps).counted(),
        is_closed(door.after_all(steps).word),
        door.after_all(steps).admitted <= door.admitted,
    decreases steps.len(),
{
    if steps.len() > 0 {
        law_closed_door_admits_nobody(door, steps.drop_last());
        law_step_keeps_count(door.after_all(steps.drop_last()), steps.last());
    }
}

/// Once a closed door counts no reservation, every producer that was ever let in has left,
/// and none comes after: whoever drains the queues then sees every accepted item.
pub proof fn law_drained_door_has_no_producers(door: DoorModel, steps: Seq<DoorStep>)
    requires
        door.counted(),
        is_closed(door.word),
        inside(door.word) == 0,
        door.enables_all(steps),
    ensures
        door.admitted == 0,
        door.after_all(steps).admitted == 0,
{
    law_closed_door_admits_nobody(door, steps);
}

/// Whoever closes a door and then looks until it counts nobody waits for every guard, and has
/// waited for all: a look that counts nobody finds no guard, no look does while a guard is there,
/// and no reservation that comes later is let in.
pub proof fn law_waiting_ends_when_every_guard_is_gone(
    steps: Seq<DoorStep>,
    closed: int,
    look: int,
)
    requires
        DoorModel::open_door().enables_all(steps),
        0 <= closed < look < steps.len(),
        steps[closed] is Close,
        steps[look] is Look,
    ensures
        DoorModel::open_door().after_all(steps.take(look)).admitted > 0 ==> inside(
            steps[look]->Look_found,
        ) > 0,
        inside(steps[look]->Look_found) == 0 ==> {
            &&& DoorModel::open_door().after_all(steps.take(look)).admitted == 0
            &&& DoorModel::open_door().after_all(steps).admitted == 0
            &&& forall|later: int|
                look < later < steps.len() && (#[trigger] steps[later]) is Reserve ==> is_closed(
                    steps[later]->Reserve_found,
                )
        },
{
    let door = DoorModel::open_door().after_all(steps.take(look));
    lemma_step_in_history(DoorModel::open_door(), steps, look);
    law_door_counts_its_producers(steps.take(look));
    assert(steps.take(look)[closed] is Close);
    assert forall|later: int| look < later < steps.len() && (
    #[trigger] steps[later]) is Reserve implies is_closed(steps[later]->Reserve_found) by {
        law_closing_is_for_good(steps, closed, later);
    }
    lemma_history_splits(DoorModel::open_door(), steps, look);
    law_closed_door_admits_nobody(door, steps.skip(look));
}

proof fn lemma_history_splits(door: DoorModel, steps: Seq<DoorStep>, i: int)
    requires
        door.enables_all(steps),
        0 <= i <= steps.len(),
    ensures
        door.after_all(steps.take(i)).enables_all(steps.skip(i)),
        door.after_all(steps.take(i)).after_all(steps.skip(i)) == door.after_all(steps),
    decreases steps.len(),
{
    if i == steps.len() {
        assert(steps.take(i) == steps);
        assert(steps.skip(i) == Seq::<DoorStep>::empty());
    } else {
        let earlier = steps.drop_last();
        lemma_history_splits(door, earlier, i);
        assert(earlier.take(i) == steps.take(i));
        assert(steps.skip(i).drop_last() == earlier.skip(i));
        assert(steps.skip(i).last() == steps.last());
    }
}

/// What a refused reservation does to its door: it is taken, finds the door closed, and is taken
/// back, so that it leaves nothing behind.
pub proof fn law_refused_reservations_leave_nothing(access: WordView, door: AtomicUsize)
    requires
        turned_away(access, door),
    ensures
        access.word == door,
        access.steps.len() == 2,
        access.steps[0] is Add,
        access.steps[0]->Add_amount == 1,
        access.steps[0]->Add_found >= CLOSED,
        access.steps[1] == (WordStep::Subtract { amount: 1 }),
        rise(access.steps[0]) + rise(access.steps[1]) == 0,
{
}

/// What an admitted reservation does to its door: one is taken while the top bit of the word is
/// not set.
pub proof fn law_admitted_reservations_find_the_door_open(access: WordView, door: AtomicUsize)
    requires
        entered(access, door),
    ensures
        access.word == door,
        access.steps.len() == 1,
        access.steps[0] is Add,
        access.steps[0]->Add_amount == 1,
        access.steps[0]->Add_found < CLOSED,
{
}

/// The closing bit is the top bit: the words without it are as many as those with it. A word
/// counts what is left of it without that bit.
pub proof fn law_half_of_all_words_are_closed(word: usize, count: usize, refused: bool)
    requires
        call_ensures(reservations, (word,), count),
        call_ensures(refuses_entry, (word,), refused),
    ensures
        usize::MAX - CLOSED == CLOSED - 1,
        refused <==> word > usize::MAX / 2,
        count == word || count == word - CLOSED,
        refused <==> count != word,
        count <= usize::MAX / 2,
{
    assert(!0usize - CLOSED == CLOSED - 1) by (bit_vector);
    let max = usize::MAX;
    assert(max <= !0usize) by (bit_vector);
}

} // verus!
