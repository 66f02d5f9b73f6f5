use vstd::prelude::*;

verus! {

/// What the owner of a `Sponge` must do after a push: start the timeout timer
/// (the first item of a new batch), and wake the flusher (the batch is full).
#[derive(Debug, Clone, Copy, PartialEq, Eq, Structural)]
pub struct PushActions {
    pub start_timer: bool,
    pub notify: bool,
}

/// The decisions of a sponge: it gathers items and releases them as one batch
/// once it holds `capacity` of them or once the first of them has waited longer
/// than the timeout. The owner keeps the clock, the timer and the notifications.
pub struct Sponge<Item> {
    items: Vec<Item>,
    capacity: usize,
}

impl<Item> Sponge<Item> {
    /// The items gathered since the last flush, in order.
    pub closed spec fn spec_items(&self) -> Seq<Item> {
        self.items@
    }

    pub closed spec fn spec_capacity(&self) -> nat {
        self.capacity as nat
    }

    pub fn new(capacity: usize) -> (result: Sponge<Item>)
        ensures
            result.spec_items() == Seq::<Item>::empty(),
            result.spec_capacity() == capacity,
    {
        Sponge { items: Vec::new(), capacity }
    }

    /// Gathers `item`.
    pub fn push(&mut self, item: Item) -> (result: PushActions)
        ensures
            final(self).spec_items() == old(self).spec_items().push(item),
            final(self).spec_capacity() == old(self).spec_capacity(),
            result.start_timer == (final(self).spec_items().len() == 1),
            result.notify == (final(self).spec_items().len() >= old(self).spec_capacity()),
    {
        self.items.push(item);
        let length = self.items.len();
        PushActions { start_timer: length == 1, notify: length >= self.capacity }
    }

    /// Upon a notification: releases all the items gathered, if there are some and
    /// either they fill the capacity or the first of them has waited longer than
    /// the timeout (`expired`); otherwise releases nothing.
    pub fn flush(&mut self, expired: bool) -> (result: Option<Vec<Item>>)
        ensures
            final(self).spec_capacity() == old(self).spec_capacity(),
            ({
                let items = old(self).spec_items();
                if items.len() > 0 && (items.len() >= old(self).spec_capacity() || expired) {
                    &&& result matches Some(flushed)
                    &&& flushed@ == items
                    &&& final(self).spec_items() == Seq::<Item>::empty()
                } else {
                    &&& result is None
                    &&& final(self).spec_items() == items
                }
            }),
    {
        if self.items.len() == 0 {
            return None;
        }
        if self.items.len() >= self.capacity || expired {
            let mut flushed: Vec<Item> = Vec::new();
            std::mem::swap(&mut flushed, &mut self.items);
            Some(flushed)
        } else {
            None
        }
    }
}

} // verus!
