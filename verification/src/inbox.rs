//! The receiving end of a channel, with a record of everything it ever answered.

use vstd::prelude::*;

use crate::queue::Queued;

verus! {

/// `tokio::sync::mpsc::UnboundedReceiver`, looked into only through the functions below.
#[verifier::external_type_specification]
#[verifier::external_body]
#[verifier::reject_recursive_types(T)]
pub struct ExUnboundedReceiver<T>(tokio::sync::mpsc::UnboundedReceiver<T>);

/// The receiving end of a channel of queued items.
#[verifier::reject_recursive_types(T)]
pub struct Inbox<T> {
    receiver: tokio::sync::mpsc::UnboundedReceiver<Queued<T>>,
    answers: Ghost<Seq<Option<Queued<T>>>>,
}

/// The items among the answers, in the order in which they came.
pub open spec fn items_of<T>(answers: Seq<Option<Queued<T>>>) -> Seq<Queued<T>>
    decreases answers.len(),
{
    if answers.len() == 0 {
        Seq::empty()
    } else {
        match answers.last() {
            Some(item) => items_of(answers.drop_last()).push(item),
            None => items_of(answers.drop_last()),
        }
    }
}

impl<T> View for Inbox<T> {
    type V = Seq<Option<Queued<T>>>;

    /// What each poll of the channel answered so far: an item, or that there was none.
    closed spec fn view(&self) -> Seq<Option<Queued<T>>> {
        self.answers@
    }
}

impl<T> Inbox<T> {
    /// An inbox that was never polled.
    pub(crate) fn new(
        receiver: tokio::sync::mpsc::UnboundedReceiver<Queued<T>>,
    ) -> (inbox: Inbox<T>)
        ensures
            inbox@ == Seq::<Option<Queued<T>>>::empty(),
    {
        Inbox { receiver, answers: Ghost(Seq::empty()) }
    }

    /// `UnboundedReceiver::try_recv`: the next item, if the channel holds one. Whether it
    /// does is up to the senders; the answer is what the record grows by.
    #[verifier::external_body]
    pub(crate) fn poll(&mut self) -> (answer: Option<Queued<T>>)
        ensures
            final(self)@ == old(self)@.push(answer),
    {
        self.receiver.try_recv().ok()
    }

    /// `UnboundedReceiver::is_empty`: whether the channel holds no item at this moment.
    /// That is up to the senders, so nothing is said of it.
    #[verifier::external_body]
    pub(crate) fn is_empty(&self) -> (empty: bool) {
        self.receiver.is_empty()
    }
}

/// The items are what the channel gave, one after the other; an answer that nothing is there adds
/// none.
pub proof fn law_items_come_in_the_order_of_answers<T>(
    answers: Seq<Option<Queued<T>>>,
    item: Queued<T>,
)
    ensures
        items_of(Seq::<Option<Queued<T>>>::empty()).len() == 0,
        items_of(answers.push(Some(item))) == items_of(answers).push(item),
        items_of(answers.push(None)) == items_of(answers),
{
    assert(answers.push(Some(item)).drop_last() =~= answers);
    assert(answers.push(None).drop_last() =~= answers);
}

} // verus!
