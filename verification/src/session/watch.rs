//! The windows whose destruction is subscribed to, one subscription per window, and the
//! decisions of the three creating entrances around that subscription: a session is created
//! only after the window's destruction is watched, and a window that can no longer be found
//! has its session released first.
use vstd::prelude::*;
use crate::ports::WindowLabel;
use crate::session::state::SessionError;
use crate::text::{str_equal, views};

verus! {

/// The labels of the windows whose destruction is currently subscribed to.
pub struct WatchedWindows {
    labels: Vec<String>,
}

impl View for WatchedWindows {
    type V = Set<Seq<char>>;

    closed spec fn view(&self) -> Set<Seq<char>> {
        views(self.labels@).to_set()
    }
}

impl WatchedWindows {
    /// No label is held twice.
    #[verifier::type_invariant]
    closed spec fn distinct(&self) -> bool {
        views(self.labels@).no_duplicates()
    }

    /// No window is watched yet.
    pub fn new() -> (r: Self)
        ensures
            r@ == Set::<Seq<char>>::empty(),
    {
        let r = WatchedWindows { labels: Vec::new() };
        assert(views(r.labels@) =~= Seq::<Seq<char>>::empty());
        assert(r@ =~= Set::<Seq<char>>::empty());
        r
    }

    /// Where the label stands among the held labels, if it is held.
    fn position(&self, label: &WindowLabel) -> (r: Option<usize>)
        ensures
            match r {
                Some(i) => i < self.labels.len() && views(self.labels@)[i as int] == label@,
                None => !self@.contains(label@),
            },
    {
        let mut i: usize = 0;
        while i < self.labels.len()
            invariant
                i <= self.labels.len(),
                forall|j: int| 0 <= j < i ==> views(self.labels@)[j] != label@,
            decreases self.labels.len() - i,
        {
            if str_equal(self.labels[i].as_str(), label.as_str()) {
                return Some(i);
            }
            i = i + 1;
        }
        proof {
            if self@.contains(label@) {
                let j = views(self.labels@).index_of(label@);
                assert(views(self.labels@)[j] == label@);
            }
        }
        None
    }

    /// Whether the window's destruction is already subscribed to.
    pub fn is_watched(&self, label: &WindowLabel) -> (r: bool)
        ensures
            r == self@.contains(label@),
    {
        match self.position(label) {
            Some(i) => {
                assert(views(self.labels@).contains(label@));
                true
            },
            None => false,
        }
    }

    /// How many windows are watched.
    pub fn len(&self) -> (r: usize)
        ensures
            r == self@.len(),
    {
        proof {
            use_type_invariant(self);
            views(self.labels@).unique_seq_to_set();
        }
        self.labels.len()
    }

    /// Records that the window's destruction is subscribed to.
    fn watch(&mut self, label: &WindowLabel)
        ensures
            final(self)@ == old(self)@.insert(label@),
    {
        proof {
            use_type_invariant(&*self);
        }
        if self.position(label).is_none() {
            let ghost before = views(self.labels@);
            let mut labels: Vec<String> = Vec::new();
            std::mem::swap(&mut labels, &mut self.labels);
            labels.push(label.as_str().to_owned());
            assert(views(labels@) =~= before.push(label@));
            self.labels = labels;
            assert(self@ =~= before.to_set().insert(label@)) by {
                assert forall|x: Seq<char>| #[trigger] views(self.labels@).contains(x) <==> (
                before.contains(x) || x == label@) by {
                    if views(self.labels@).contains(x) {
                        let j = views(self.labels@).index_of(x);
                        if j < before.len() {
                            assert(before[j] == x);
                        }
                    }
                    if before.contains(x) {
                        let j = before.index_of(x);
                        assert(views(self.labels@)[j] == x);
                    }
                    if x == label@ {
                        assert(views(self.labels@)[before.len() as int] == x);
                    }
                }
            }
        } else {
            assert(self@ =~= self@.insert(label@));
        }
    }

    /// Drops the window's subscription record; the other windows stay watched.
    pub fn release(&mut self, label: &WindowLabel)
        ensures
            final(self)@ == old(self)@.remove(label@),
    {
        proof {
            use_type_invariant(&*self);
        }
        match self.position(label) {
            None => {
                assert(self@ =~= self@.remove(label@));
            },
            Some(i) => {
                let ghost before = views(self.labels@);
                let mut labels: Vec<String> = Vec::new();
                std::mem::swap(&mut labels, &mut self.labels);
                labels.remove(i);
                assert(views(labels@) =~= before.remove(i as int));
                self.labels = labels;
                assert(self@ =~= before.to_set().remove(label@)) by {
                    assert forall|x: Seq<char>| #[trigger] views(self.labels@).contains(x) <==> (
                    before.contains(x) && x != label@) by {
                        let after = views(self.labels@);
                        if after.contains(x) {
                            let j = after.index_of(x);
                            if j < i {
                                assert(before[j] == x);
                            } else {
                                assert(before[j + 1] == x);
                            }
                        }
                        if before.contains(x) && x != label@ {
                            let j = before.index_of(x);
                            if j < i {
                                assert(after[j] == x);
                            } else {
                                assert(j != i);
                                assert(after[j - 1] == x);
                            }
                        }
                    }
                }
            },
        }
    }

    /// The second step of a creating entrance for a window that is already watched, once it
    /// is known whether the window can still be found. A window that is found keeps its
    /// subscription and the entrance goes on; one that is gone lost its destruction notice,
    /// so its record is dropped and the entrance is refused with `NoDocument` (the caller
    /// releases the window's session before answering).
    pub fn settle_watched(&mut self, label: &WindowLabel, window_present: bool) -> (r: Result<
        (),
        SessionError,
    >)
        ensures
            window_present ==> r is Ok && final(self)@ == old(self)@,
            !window_present ==> r == Err::<(), SessionError>(SessionError::NoDocument)
                && final(self)@ == old(self)@.remove(label@),
            old(self)@.contains(label@) ==> final(self)@ == entrance_after(old(self)@, label@, window_present),
    {
        if window_present {
            assert(old(self)@.contains(label@) ==> self@ =~= self@.insert(label@));
            Ok(())
        } else {
            self.release(label);
            Err(SessionError::NoDocument)
        }
    }

    /// The second step of a creating entrance for a window that was not watched, once the
    /// subscription was attempted. A subscription that took is recorded and the entrance goes
    /// on; one that did not (the window was destroyed in between) leaves the window unwatched
    /// and the entrance is refused with `NoDocument` (the caller releases the window's session
    /// before answering, and creates none).
    pub fn settle_subscription(&mut self, label: &WindowLabel, subscribed: bool) -> (r: Result<
        (),
        SessionError,
    >)
        ensures
            subscribed ==> r is Ok && final(self)@ == old(self)@.insert(label@),
            !subscribed ==> r == Err::<(), SessionError>(SessionError::NoDocument)
                && final(self)@ == old(self)@.remove(label@),
            final(self)@ == entrance_after(old(self)@, label@, subscribed),
    {
        if subscribed {
            self.watch(label);
            Ok(())
        } else {
            self.release(label);
            Err(SessionError::NoDocument)
        }
    }

    /// The clean-up path: whether the window's session is to be released because the window
    /// can no longer be found. A window that is found is left alone.
    pub fn forget_unresolvable(&mut self, label: &WindowLabel, window_present: bool) -> (r: bool)
        ensures
            r == !window_present,
            window_present ==> final(self)@ == old(self)@,
            !window_present ==> final(self)@ == old(self)@.remove(label@),
    {
        if window_present {
            false
        } else {
            self.release(label);
            true
        }
    }
}

} // verus!

verus! {

/// Whether an entrance for the window subscribes to its destruction: only when it is not
/// watched yet (`is_watched` answers false).
pub open spec fn entrance_subscribes(watched: Set<Seq<char>>, label: Seq<char>) -> bool {
    !watched.contains(label)
}

/// The watched windows after an entrance for `label`, as `settle_watched` (a watched window,
/// found or not) and `settle_subscription` (a new subscription, taken or not) leave them.
pub open spec fn entrance_after(watched: Set<Seq<char>>, label: Seq<char>, found: bool) -> Set<Seq<char>> {
    if found {
        watched.insert(label)
    } else {
        watched.remove(label)
    }
}

/// A window's destruction is subscribed to at most once while it stays watched: an entrance
/// that goes on (the window was found, or the subscription took) leaves the window watched,
/// so every later entrance for it subscribes nothing until the window is found gone or its
/// destruction is noticed; an entrance that is refused leaves the window unwatched. Other
/// windows are not touched.
pub proof fn lemma_subscription_is_made_once(
    watched: Set<Seq<char>>,
    label: Seq<char>,
    found: bool,
    later_found: bool,
)
    ensures
        entrance_after(watched, label, found).contains(label) == found,
        found ==> !entrance_subscribes(entrance_after(watched, label, found), label),
        found && later_found ==> entrance_after(entrance_after(watched, label, found), label, later_found)
            == entrance_after(watched, label, found),
        !found ==> entrance_subscribes(entrance_after(watched, label, found), label),
        forall|other: Seq<char>|
            other != label ==> (#[trigger] entrance_after(watched, label, found).contains(other)
                == watched.contains(other)),
{
    if found {
        assert(watched.insert(label).insert(label) =~= watched.insert(label));
    }
}

} // verus!
