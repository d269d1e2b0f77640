//! Transient notification banners of the remote-control front end.
//!
//! A notification carries a message and a severity, remembers the
//! moment it was created, and may be given a duration after which it
//! expires.  The front end stamps each notification with a millisecond
//! clock reading and periodically prunes the ones that were clicked
//! away or have outlived their duration.

use vstd::prelude::*;

verus! {

/// How loudly a notification is shown.
#[derive(Clone, Copy, Debug, PartialEq, Eq, Structural)]
pub enum Severity {
    Error,
    Info,
}

/// One on-screen notification banner.
#[derive(Debug)]
pub struct Notification {
    pub content: String,
    pub severity: Severity,
    /// The clock reading, in milliseconds, at which the notification
    /// was created.
    pub created_at_ms: u64,
    /// How long the notification stays up, in milliseconds; `None`
    /// keeps it until it is clicked away.
    pub duration_ms: Option<u64>,
    /// Set when the banner was clicked and should be dropped at the
    /// next pruning.
    pub to_delete: bool,
}

impl Notification {
    /// A fresh notification, stamped with the clock reading `now_ms`
    /// and not yet marked for deletion.
    pub fn new(content: String, severity: Severity, duration_ms: Option<u64>, now_ms: u64) -> (r:
        Notification)
        ensures
            r.content == content,
            r.severity == severity,
            r.created_at_ms == now_ms,
            r.duration_ms == duration_ms,
            !r.to_delete,
    {
        Notification { content, severity, created_at_ms: now_ms, duration_ms, to_delete: false }
    }

    /// Whether the notification's duration has elapsed at the clock
    /// reading `now_ms`.  One without a duration never expires.
    pub open spec fn spec_expired(self, now_ms: u64) -> bool {
        match self.duration_ms {
            Some(d) => self.created_at_ms <= now_ms && now_ms - self.created_at_ms >= d,
            None => false,
        }
    }

    /// Whether the notification should be dropped at a pruning run:
    /// it was clicked away, or it has expired.
    pub open spec fn spec_discard(self, now_ms: u64) -> bool {
        self.to_delete || self.spec_expired(now_ms)
    }

    /// Decides [`Self::spec_discard`] for this notification.
    pub fn should_discard(&self, now_ms: u64) -> (r: bool)
        ensures
            r == self.spec_discard(now_ms),
    {
        self.to_delete || match self.duration_ms {
            Some(d) => self.created_at_ms <= now_ms && now_ms - self.created_at_ms >= d,
            None => false,
        }
    }
}

/// The notifications that survive a pruning run at `now_ms`: the ones
/// not to be discarded, in their order.
pub open spec fn spec_pruned(s: Seq<Notification>, now_ms: u64) -> Seq<Notification>
    decreases s.len(),
{
    if s.len() == 0 {
        Seq::empty()
    } else {
        let rest = spec_pruned(s.drop_last(), now_ms);
        if s.last().spec_discard(now_ms) {
            rest
        } else {
            rest.push(s.last())
        }
    }
}

/// Drops, in place, every notification that was clicked away or has
/// outlived its duration; the rest stay in order.
pub fn prune_notifications(list: &mut Vec<Notification>, now_ms: u64)
    ensures
        final(list)@ == spec_pruned(old(list)@, now_ms),
{
    let ghost orig = old(list)@;
    let mut k: usize = 0;
    let ghost mut j: int = 0;
    proof {
        assert(orig.take(0) =~= Seq::<Notification>::empty());
        assert(orig.skip(0) =~= orig);
        assert(spec_pruned(orig.take(0), now_ms) + orig.skip(0) =~= list@);
    }
    while k < list.len()
        invariant
            0 <= j <= orig.len(),
            k == spec_pruned(orig.take(j), now_ms).len(),
            list@ == spec_pruned(orig.take(j), now_ms) + orig.skip(j),
        decreases orig.len() - j,
    {
        proof {
            assert(orig.take(j + 1).drop_last() =~= orig.take(j));
            assert(orig.take(j + 1).last() == orig[j]);
            assert(list@[k as int] == orig[j]);
        }
        if list[k].should_discard(now_ms) {
            let _ = list.remove(k);
            proof {
                assert(spec_pruned(orig.take(j + 1), now_ms) == spec_pruned(
                    orig.take(j),
                    now_ms,
                ));
                assert(list@ =~= spec_pruned(orig.take(j + 1), now_ms) + orig.skip(j + 1));
            }
        } else {
            k = k + 1;
            proof {
                assert(spec_pruned(orig.take(j + 1), now_ms) == spec_pruned(
                    orig.take(j),
                    now_ms,
                ).push(orig[j]));
                assert(list@ =~= spec_pruned(orig.take(j + 1), now_ms) + orig.skip(j + 1));
            }
        }
        proof {
            j = j + 1;
        }
    }
    proof {
        assert(orig.take(j) =~= orig);
        assert(orig.skip(j) =~= Seq::<Notification>::empty());
        assert(spec_pruned(orig, now_ms) + Seq::<Notification>::empty() =~= spec_pruned(
            orig,
            now_ms,
        ));
    }
}

} // verus!
