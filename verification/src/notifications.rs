//! In-memory user notifications, held in an explicit process-scoped state
//! value rather than a hidden global: created at startup, handed to the
//! serving layer, torn down at exit.

use vstd::prelude::*;
use crate::text::str_eq;
use crate::types::Notification;

verus! {

/// `b` is `a`, except that it may additionally have been marked read.
pub open spec fn same_but_maybe_read(a: Notification, b: Notification) -> bool {
    &&& b.id == a.id
    &&& b.title == a.title
    &&& b.message == a.message
    &&& b.timestamp == a.timestamp
    &&& b.severity == a.severity
    &&& (b.is_read == a.is_read || b.is_read)
}

/// The most recent notifications, oldest first, capped at 50.
pub struct NotificationCenter {
    pub items: Vec<Notification>,
}

/// Cap on how many notifications are retained.
pub const NOTIFICATION_CAP: usize = 50;

impl NotificationCenter {
    /// An empty notification list.
    pub fn new() -> (c: NotificationCenter)
        ensures
            c.items@ == Seq::<Notification>::empty(),
    {
        let c = NotificationCenter { items: Vec::new() };
        proof {
            assert(c.items@ =~= Seq::<Notification>::empty());
        }
        c
    }

    /// Appends a notification, dropping the oldest one when the cap is
    /// reached. The caller supplies the fresh id and the current time.
    pub fn add_notification(&mut self, n: Notification)
        ensures
            old(self).items@.len() < NOTIFICATION_CAP ==> final(self).items@ == old(
                self,
            ).items@.push(n),
            old(self).items@.len() >= NOTIFICATION_CAP ==> final(self).items@ == old(
                self,
            ).items@.push(n).drop_first(),
            old(self).items@.len() <= NOTIFICATION_CAP ==> final(self).items@.len()
                <= NOTIFICATION_CAP,
    {
        self.items.push(n);
        if self.items.len() > NOTIFICATION_CAP {
            self.items.remove(0);
            proof {
                assert(self.items@ =~= old(self).items@.push(n).drop_first());
            }
        }
    }

    /// The current notifications, oldest first.
    pub fn get_notifications(&self) -> (r: &Vec<Notification>)
        ensures
            r@ == self.items@,
    {
        &self.items
    }

    /// Marks the first notification with the given id as read; nothing
    /// changes when no id matches.
    pub fn mark_as_read(&mut self, id: &str)
        ensures
            final(self).items@.len() == old(self).items@.len(),
            forall|j: int|
                0 <= j < old(self).items@.len() && (#[trigger] old(self).items@[j]).id@ != id@
                    ==> final(self).items@[j] == old(self).items@[j],
            forall|j: int|
                0 <= j < old(self).items@.len() ==> same_but_maybe_read(
                    #[trigger] old(self).items@[j],
                    final(self).items@[j],
                ),
            (exists|j: int|
                0 <= j < old(self).items@.len() && (#[trigger] old(self).items@[j]).id@ == id@)
                ==> exists|j: int|
                0 <= j < final(self).items@.len() && (#[trigger] final(self).items@[j]).id@ == id@
                    && final(self).items@[j].is_read,
    {
        let n = self.items.len();
        let mut i: usize = 0;
        while i < n
            invariant
                n == self.items@.len(),
                i <= n,
                forall|j: int| 0 <= j < i ==> (#[trigger] self.items@[j]).id@ != id@,
                self == old(self),
            decreases n - i,
        {
            if str_eq(self.items[i].id.as_str(), id) {
                let mut item = self.items.remove(i);
                item.is_read = true;
                self.items.insert(i, item);
                proof {
                    assert(forall|j: int|
                        0 <= j < old(self).items@.len() && j != i ==> self.items@[j] == old(
                            self,
                        ).items@[j]);
                    assert(self.items@[i as int].id == old(self).items@[i as int].id);
                    assert(self.items@[i as int].is_read);
                }
                return ;
            }
            i = i + 1;
        }
    }

    /// Removes every notification.
    pub fn clear_notifications(&mut self)
        ensures
            final(self).items@ == Seq::<Notification>::empty(),
    {
        self.items.clear();
        proof {
            assert(self.items@ =~= Seq::<Notification>::empty());
        }
    }
}

} // verus!
