//! The connection hub: the registry of currently live sessions.
//!
//! Each session is known by the handle the transport layer assigned
//! to its outbound delivery path. A registration is added once at
//! connect time and removed exactly once when the session ends; a
//! broadcast goes to every live session except an optionally excluded
//! one (the requester, which gets the same event as its direct reply).

use vstd::prelude::*;

verus! {

/// The sessions a broadcast reaches: everyone live, except the
/// excluded one.
pub open spec fn recipients_of(live: Seq<u64>, exclude: Option<u64>) -> Seq<u64> {
    live.filter(|s: u64| Some(s) != exclude)
}

/// The registry of live sessions' handles, in registration order.
pub struct Hub {
    sessions: Vec<u64>,
}

impl Hub {
    /// The live sessions, in registration order.
    pub closed spec fn live(self) -> Seq<u64> {
        self.sessions@
    }

    /// Internal invariant: a session is registered at most once.
    pub open spec fn wf(self) -> bool {
        self.live().no_duplicates()
    }

    /// A hub with no live session.
    pub fn new() -> (h: Hub)
        ensures
            h.wf(),
            h.live() == Seq::<u64>::empty(),
    {
        Hub { sessions: Vec::new() }
    }

    /// Adds a session's handle to the live set; called once per
    /// session, at connect time.
    pub fn register(&mut self, session: u64)
        requires
            old(self).wf(),
            !old(self).live().contains(session),
        ensures
            final(self).wf(),
            final(self).live() == old(self).live().push(session),
    {
        self.sessions.push(session);
        proof {
            assert forall|a: int, b: int|
                0 <= a < b < self.sessions@.len() implies self.sessions@[a]
                != self.sessions@[b] by {
                if b < old(self).sessions@.len() {
                    assert(old(self).sessions@[a] != old(self).sessions@[b]);
                } else {
                    assert(old(self).live().contains(old(self).sessions@[a])) by {
                        assert(old(self).sessions@[a] == old(self).live()[a]);
                    }
                }
            }
        }
    }

    /// Removes a session's handle from the live set when it is there;
    /// called exactly once, when the session ends.
    pub fn unregister(&mut self, session: u64)
        requires
            old(self).wf(),
        ensures
            final(self).wf(),
            final(self).live() == old(self).live().filter(|s: u64| s != session),
    {
        let kept = keep_others(&self.sessions, session);
        self.sessions = kept;
        proof {
            lemma_filter_no_duplicates(old(self).sessions@, |s: u64| s != session);
        }
    }

    /// The handles a broadcast must reach: every live session except
    /// the excluded one. Delivery itself is the transport layer's
    /// task, one best-effort send per returned handle.
    pub fn recipients(&self, exclude: Option<u64>) -> (r: Vec<u64>)
        ensures
            r@ == recipients_of(self.live(), exclude),
    {
        let mut out: Vec<u64> = Vec::new();
        let mut i: usize = 0;
        let ghost p = |s: u64| Some(s) != exclude;
        proof {
            assert(self.sessions@.take(0).filter(p) =~= Seq::<u64>::empty()) by {
                reveal(Seq::filter);
            }
        }
        while i < self.sessions.len()
            invariant
                0 <= i <= self.sessions@.len(),
                out@ == self.sessions@.take(i as int).filter(p),
                p == (|s: u64| Some(s) != exclude),
            decreases self.sessions@.len() - i,
        {
            let s = self.sessions[i];
            let keep = match exclude {
                Some(ex) => s != ex,
                None => true,
            };
            if keep {
                out.push(s);
            }
            proof {
                lemma_filter_take_step(self.sessions@, p, i as int);
            }
            i += 1;
        }
        proof {
            assert(self.sessions@.take(self.sessions@.len() as int) =~= self.sessions@);
        }
        out
    }
}

/// Who hears a broadcast: exactly the live sessions other than the
/// excluded one.
pub proof fn lemma_recipients_membership(live: Seq<u64>, exclude: Option<u64>, s: u64)
    ensures
        recipients_of(live, exclude).contains(s) <==> (live.contains(s) && Some(s) != exclude),
{
    let p = |x: u64| Some(x) != exclude;
    if recipients_of(live, exclude).contains(s) {
        live.lemma_filter_contains_rev(p, s);
    }
    if live.contains(s) && p(s) {
        let j = choose|j: int| 0 <= j < live.len() && live[j] == s;
        live.lemma_filter_contains(p, j);
    }
}

/// A copy of the handles with every occurrence of one handle left out.
fn keep_others(v: &Vec<u64>, without: u64) -> (r: Vec<u64>)
    ensures
        r@ == v@.filter(|s: u64| s != without),
{
    let mut out: Vec<u64> = Vec::new();
    let mut i: usize = 0;
    let ghost p = |s: u64| s != without;
    proof {
        assert(v@.take(0).filter(p) =~= Seq::<u64>::empty()) by {
            reveal(Seq::filter);
        }
    }
    while i < v.len()
        invariant
            0 <= i <= v@.len(),
            out@ == v@.take(i as int).filter(p),
            p == (|s: u64| s != without),
        decreases v@.len() - i,
    {
        let s = v[i];
        if s != without {
            out.push(s);
        }
        proof {
            lemma_filter_take_step(v@, p, i as int);
        }
        i += 1;
    }
    proof {
        assert(v@.take(v@.len() as int) =~= v@);
    }
    out
}

/// One loop step of filtering: extending the prefix by its next
/// element extends the filtered prefix by that element when the
/// predicate keeps it.
proof fn lemma_filter_take_step(s: Seq<u64>, p: spec_fn(u64) -> bool, i: int)
    requires
        0 <= i < s.len(),
    ensures
        s.take(i + 1).filter(p) == if p(s[i]) {
            s.take(i).filter(p).push(s[i])
        } else {
            s.take(i).filter(p)
        },
{
    reveal(Seq::filter);
    assert(s.take(i + 1).drop_last() =~= s.take(i));
    assert(s.take(i + 1).last() == s[i]);
}

/// Filtering never introduces a duplicate.
proof fn lemma_filter_no_duplicates(s: Seq<u64>, p: spec_fn(u64) -> bool)
    requires
        s.no_duplicates(),
    ensures
        s.filter(p).no_duplicates(),
    decreases s.len(),
{
    reveal(Seq::filter);
    if s.len() > 0 {
        let t = s.drop_last();
        assert(t.no_duplicates());
        lemma_filter_no_duplicates(t, p);
        if p(s.last()) {
            assert(!t.contains(s.last())) by {
                if t.contains(s.last()) {
                    let j = choose|j: int| 0 <= j < t.len() && t[j] == s.last();
                    assert(s[j] == s[s.len() - 1]);
                }
            }
            assert(!t.filter(p).contains(s.last())) by {
                if t.filter(p).contains(s.last()) {
                    t.lemma_filter_contains_rev(p, s.last());
                }
            }
            assert forall|a: int, b: int|
                0 <= a < b < s.filter(p).len() implies s.filter(p)[a] != s.filter(p)[b] by {
                let f = t.filter(p);
                assert(s.filter(p) == f.push(s.last()));
                if b < f.len() {
                    assert(f[a] != f[b]);
                } else {
                    assert(f.contains(f[a]));
                }
            }
        }
    }
}

} // verus!
