//! Text lines for the device's terminal, fanned out to subscribers.
//!
//! Subscribers are addressed by the id that `subscribe` hands out. A
//! subscriber that has gone away is marked with `unsubscribe` and is skipped
//! from then on; delivering to it is never attempted.

use vstd::prelude::*;

verus! {

/// What a subscriber of the terminal implements.
pub trait TerminalObserver {
    fn on_add_text(&self, text: &str);
}

/// One text for one subscriber.
pub struct Delivery {
    pub subscriber: u64,
    pub text: String,
}

/// The terminal's subscribers, in the order they subscribed.
pub struct Terminal {
    observers: Vec<(u64, bool)>,
    next_id: u64,
}

/// Ids of the subscribers still there, in order of subscription.
pub open spec fn live_ids(observers: Seq<(u64, bool)>) -> Seq<u64>
    decreases observers.len(),
{
    if observers.len() == 0 {
        seq![]
    } else if observers.last().1 {
        live_ids(observers.drop_last()).push(observers.last().0)
    } else {
        live_ids(observers.drop_last())
    }
}

/// The deliveries of `text` to each of `ids`, in order.
pub open spec fn deliveries_of(ids: Seq<u64>, text: Seq<char>) -> Seq<(u64, Seq<char>)> {
    ids.map_values(|id: u64| (id, text))
}

pub open spec fn deliveries_view(d: Seq<Delivery>) -> Seq<(u64, Seq<char>)> {
    d.map_values(|x: Delivery| (x.subscriber, x.text@))
}

impl Terminal {
    /// The ids of the subscribers still there, in order of subscription.
    pub closed spec fn live(&self) -> Seq<u64> {
        live_ids(self.observers@)
    }

    /// Every id handed out so far is below this one.
    pub closed spec fn issued(&self) -> u64 {
        self.next_id
    }

    pub fn new() -> (t: Self)
        ensures
            t.live() == Seq::<u64>::empty(),
            t.issued() == 0,
    {
        Terminal { observers: Vec::new(), next_id: 0 }
    }

    /// Adds a subscriber and gives its id. `None` once every id is taken.
    pub fn subscribe(&mut self) -> (r: Option<u64>)
        ensures
            old(self).issued() < u64::MAX ==> r == Some(old(self).issued()) && final(self).live()
                == old(self).live().push(old(self).issued()) && final(self).issued() == old(
                self,
            ).issued() + 1,
            old(self).issued() == u64::MAX ==> r is None && final(self).live() == old(self).live()
                && final(self).issued() == old(self).issued(),
    {
        if self.next_id == u64::MAX {
            return None;
        }
        let id = self.next_id;
        let ghost before = self.observers@;
        self.observers.push((id, true));
        assert(self.observers@.drop_last() =~= before);
        self.next_id = id + 1;
        Some(id)
    }

    /// Marks the subscriber `id` as gone.
    pub fn unsubscribe(&mut self, id: u64)
        ensures
            final(self).live() == old(self).live().filter(|x: u64| x != id),
            final(self).issued() == old(self).issued(),
    {
        let ghost orig = self.observers@;
        let mut i: usize = 0;
        while i < self.observers.len()
            invariant
                i <= orig.len(),
                self.next_id == old(self).next_id,
                orig == old(self).observers@,
                self.observers@.len() == orig.len(),
                self.observers@.skip(i as int) == orig.skip(i as int),
                live_ids(self.observers@.take(i as int)) == live_ids(orig.take(i as int)).filter(
                    |x: u64| x != id,
                ),
            decreases orig.len() - i,
        {
            let ghost prev = self.observers@;
            let entry = self.observers[i];
            if entry.0 == id {
                self.observers.set(i, (entry.0, false));
            }
            proof {
                assert(entry == orig[i as int]) by {
                    assert(prev.skip(i as int)[0] == orig.skip(i as int)[0]);
                }
                assert(self.observers@.take(i as int) =~= prev.take(i as int));
                assert(self.observers@.take(i + 1).drop_last() =~= self.observers@.take(i as int));
                assert(orig.take(i + 1).drop_last() =~= orig.take(i as int));
                assert(self.observers@.skip(i + 1) =~= orig.skip(i + 1)) by {
                    assert(self.observers@.skip(i + 1) =~= prev.skip(i as int).skip(1));
                    assert(orig.skip(i + 1) =~= orig.skip(i as int).skip(1));
                }
                let l = live_ids(orig.take(i as int));
                if orig[i as int].1 {
                    assert(l.push(orig[i as int].0).filter(|x: u64| x != id) =~= if orig[i as int].0
                        != id {
                        l.filter(|x: u64| x != id).push(orig[i as int].0)
                    } else {
                        l.filter(|x: u64| x != id)
                    }) by {
                        l.lemma_filter_push(orig[i as int].0, |x: u64| x != id);
                    }
                }
            }
            i = i + 1;
        }
        assert(self.observers@.take(i as int) =~= self.observers@);
        assert(orig.take(i as int) =~= orig);
    }

    /// A new line, then the text: `"\n"` to every live subscriber, then
    /// `txt` to every live subscriber.
    pub fn add_text_new_line(&self, txt: &str) -> (r: Vec<Delivery>)
        ensures
            deliveries_view(r@) == deliveries_of(self.live(), "\n"@) + deliveries_of(
                self.live(),
                txt@,
            ),
    {
        let mut r = self.notify_add_text("\n");
        let mut rest = self.notify_add_text(txt);
        let ghost a = r@;
        let ghost b = rest@;
        r.append(&mut rest);
        assert(deliveries_view(r@) =~= deliveries_view(a) + deliveries_view(b));
        r
    }

    /// The text, to every live subscriber, on the current line.
    pub fn add_text_same_line(&self, txt: &str) -> (r: Vec<Delivery>)
        ensures
            deliveries_view(r@) == deliveries_of(self.live(), txt@),
    {
        self.notify_add_text(txt)
    }

    /// `text` for each live subscriber, in order of subscription; gone
    /// subscribers are skipped.
    pub fn notify_add_text(&self, text: &str) -> (r: Vec<Delivery>)
        ensures
            deliveries_view(r@) == deliveries_of(self.live(), text@),
    {
        let mut out: Vec<Delivery> = Vec::new();
        let mut i: usize = 0;
        while i < self.observers.len()
            invariant
                i <= self.observers@.len(),
                deliveries_view(out@) == deliveries_of(
                    live_ids(self.observers@.take(i as int)),
                    text@,
                ),
            decreases self.observers@.len() - i,
        {
            let ghost prev = out@;
            let (id, alive) = self.observers[i];
            assert(self.observers@.take(i + 1).drop_last() =~= self.observers@.take(i as int));
            if alive {
                out.push(Delivery { subscriber: id, text: text.to_owned() });
                assert(deliveries_view(out@) =~= deliveries_view(prev).push((id, text@)));
                assert(deliveries_of(live_ids(self.observers@.take(i + 1)), text@) =~= deliveries_of(
                    live_ids(self.observers@.take(i as int)),
                    text@,
                ).push((id, text@)));
            }
            i = i + 1;
        }
        assert(self.observers@.take(i as int) =~= self.observers@);
        out
    }
}

} // verus!
