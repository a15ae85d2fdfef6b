//! The session registry: which domains have a crawl running right now.
//!
//! At most one session per domain may be active. The registry is a value
//! type; the control layer shares it behind a lock and calls `try_start`
//! before spawning a session and `finish` when the session's run returns.

use vstd::prelude::*;
use crate::urls::CrawlUrl;

verus! {

spec fn in_list(s: Seq<String>, t: Seq<char>) -> bool {
    exists|i: int| 0 <= i < s.len() && s[i]@ == t
}

spec fn list_set(s: Seq<String>) -> Set<Seq<char>> {
    Set::new(|t: Seq<char>| in_list(s, t))
}

spec fn list_wf(s: Seq<String>) -> bool {
    forall|i: int, j: int| 0 <= i < j < s.len() ==> s[i]@ != s[j]@
}

/// The domains (by URL serialization) with an active crawl session.
pub struct SessionRegistry {
    active: Vec<String>,
}

impl View for SessionRegistry {
    type V = Set<Seq<char>>;

    closed spec fn view(&self) -> Set<Seq<char>> {
        list_set(self.active@)
    }
}

impl Default for SessionRegistry {
    /// A registry with no active session.
    fn default() -> (r: SessionRegistry)
        ensures
            r@ == Set::<Seq<char>>::empty(),
            r.wf(),
    {
        let r = SessionRegistry { active: Vec::new() };
        proof {
            assert(r@ =~= Set::<Seq<char>>::empty());
        }
        r
    }
}

impl SessionRegistry {
    /// Each active domain is registered once.
    pub closed spec fn wf(&self) -> bool {
        list_wf(self.active@)
    }

    fn find(&self, text: &String) -> (r: Option<usize>)
        ensures
            match r {
                Some(i) => i < self.active@.len() && self.active@[i as int]@ == text@,
                None => !in_list(self.active@, text@),
            },
    {
        let n = self.active.len();
        let mut i: usize = 0;
        while i < n
            invariant
                n == self.active@.len(),
                i <= n,
                forall|p: int| 0 <= p < i ==> self.active@[p]@ != text@,
            decreases n - i,
        {
            if self.active[i] == *text {
                return Some(i);
            }
            i = i + 1;
        }
        None
    }

    /// Whether a session for `domain` is active.
    pub fn is_active(&self, domain: &CrawlUrl) -> (r: bool)
        ensures
            r == self@.contains(domain@.text),
    {
        self.find(domain.text()).is_some()
    }

    /// Register a session for `domain` unless one is active: true when the
    /// caller now owns the (single) session for it.
    pub fn try_start(&mut self, domain: &CrawlUrl) -> (r: bool)
        requires
            old(self).wf(),
        ensures
            final(self).wf(),
            r == !old(self)@.contains(domain@.text),
            final(self)@ == old(self)@.insert(domain@.text),
    {
        let ghost s = self.active@;
        match self.find(domain.text()) {
            Some(_) => {
                proof {
                    assert(list_set(s) =~= list_set(s).insert(domain@.text));
                }
                false
            },
            None => {
                self.active.push(domain.text().clone());
                proof {
                    let s2 = self.active@;
                    assert forall|t: Seq<char>|
                        in_list(s2, t) <==> (in_list(s, t) || t == domain@.text) by {
                        if in_list(s2, t) {
                            let p = choose|p: int| 0 <= p < s2.len() && s2[p]@ == t;
                            if p < s.len() {
                                assert(s[p]@ == t);
                            }
                        }
                        if in_list(s, t) {
                            let p = choose|p: int| 0 <= p < s.len() && s[p]@ == t;
                            assert(s2[p]@ == t);
                        }
                        assert(s2[s.len() as int]@ == domain@.text);
                    }
                    assert(list_set(s2) =~= list_set(s).insert(domain@.text));
                    assert forall|i: int, j: int| 0 <= i < j < s2.len() implies s2[i]@ != s2[j]@ by {
                        if j < s.len() {
                            assert(s2[i] == s[i] && s2[j] == s[j]);
                        } else {
                            assert(s2[i] == s[i]);
                            if s[i]@ == domain@.text {
                                assert(in_list(s, domain@.text));
                            }
                        }
                    }
                }
                true
            },
        }
    }

    /// Remove `domain`'s entry: its session is over.
    pub fn finish(&mut self, domain: &CrawlUrl)
        requires
            old(self).wf(),
        ensures
            final(self).wf(),
            final(self)@ == old(self)@.remove(domain@.text),
    {
        let ghost s = self.active@;
        match self.find(domain.text()) {
            Some(i) => {
                self.active.remove(i);
                proof {
                    let s2 = self.active@;
                    assert(s2 == s.remove(i as int));
                    assert forall|t: Seq<char>|
                        in_list(s2, t) <==> (in_list(s, t) && t != domain@.text) by {
                        if in_list(s2, t) {
                            let p = choose|p: int| 0 <= p < s2.len() && s2[p]@ == t;
                            if p < i {
                                assert(s[p]@ == t);
                                assert(p != i);
                            } else {
                                assert(s2[p] == s[p + 1]);
                                assert(s[p + 1]@ == t);
                            }
                            if t == domain@.text {
                                let q = choose|q: int| 0 <= q < s.len() && s[q]@ == t;
                                assert(s[i as int]@ == t);
                                if q < i {
                                    assert(s[q]@ != s[i as int]@);
                                } else if i < q {
                                    assert(s[i as int]@ != s[q]@);
                                }
                                assert(false);
                            }
                        }
                        if in_list(s, t) && t != domain@.text {
                            let p = choose|p: int| 0 <= p < s.len() && s[p]@ == t;
                            if p < i {
                                assert(s2[p]@ == t);
                            } else {
                                assert(p != i);
                                assert(s2[p - 1] == s[p]);
                                assert(s2[p - 1]@ == t);
                            }
                        }
                    }
                    assert(list_set(s2) =~= list_set(s).remove(domain@.text));
                    assert forall|p: int, q: int| 0 <= p < q < s2.len() implies s2[p]@ != s2[q]@ by {
                        let p0: int = if p < i {
                            p
                        } else {
                            p + 1
                        };
                        let q0: int = if q < i {
                            q
                        } else {
                            q + 1
                        };
                        assert(s2[p] == s[p0] && s2[q] == s[q0]);
                    }
                }
            },
            None => {
                proof {
                    assert(list_set(s) =~= list_set(s).remove(domain@.text));
                }
            },
        }
    }
}

} // verus!
