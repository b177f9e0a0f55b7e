use vstd::prelude::*;

verus! {

/// At most this many channels may be live at once, across all source
/// addresses together; attempts beyond the cap wait instead of failing.
pub const GLOBAL_CAP: usize = 10;

/// What the admission controller answers one connection attempt.
#[derive(Clone, Copy, Debug, PartialEq, Eq, Structural)]
pub enum Decision {
    /// The attempt gets a channel now.
    Admitted,
    /// A channel is already live (or waiting) for this source address; the
    /// new attempt is refused and the existing channel is unaffected.
    Rejected,
    /// Every global slot is taken; the attempt waits for a free slot
    /// rather than being refused.
    Deferred,
}

/// The controller's abstract state: the source addresses holding a live
/// channel, and those waiting — oldest first — for a global slot.
#[verifier::ext_equal]
pub ghost struct AdmissionModel {
    pub active: Seq<u128>,
    pub pending: Seq<u128>,
}

/// No address appears twice in the sequence.
pub open spec fn no_dups(s: Seq<u128>) -> bool {
    forall|i: int, j: int| 0 <= i < j < s.len() ==> s[i] != s[j]
}

/// No address appears in both sequences.
pub open spec fn no_overlap(a: Seq<u128>, b: Seq<u128>) -> bool {
    forall|x: u128| #[trigger] a.contains(x) ==> !b.contains(x)
}

/// The address already holds a live or a waiting channel.
pub open spec fn known(m: AdmissionModel, key: u128) -> bool {
    m.active.contains(key) || m.pending.contains(key)
}

/// The controller's invariant: at most one channel per address (live or
/// waiting), never more than `GLOBAL_CAP` live channels, and a waiting
/// list only while every global slot is taken.
pub open spec fn wf(m: AdmissionModel) -> bool {
    &&& no_dups(m.active)
    &&& no_dups(m.pending)
    &&& no_overlap(m.active, m.pending)
    &&& m.active.len() <= GLOBAL_CAP as nat
    &&& (m.pending.len() > 0 ==> m.active.len() == GLOBAL_CAP as nat)
}

/// The admission rule for one connection attempt: an address with a
/// channel already live or waiting is refused outright; otherwise the
/// attempt takes a free global slot, or joins the back of the waiting
/// list when none is free.
pub open spec fn spec_connect(m: AdmissionModel, key: u128) -> (AdmissionModel, Decision) {
    if known(m, key) {
        (m, Decision::Rejected)
    } else if m.active.len() < GLOBAL_CAP as nat {
        (AdmissionModel { active: m.active.push(key), pending: m.pending }, Decision::Admitted)
    } else {
        (AdmissionModel { active: m.active, pending: m.pending.push(key) }, Decision::Deferred)
    }
}

/// The release rule when an address's connection closes: its live slot is
/// freed and the oldest waiting address, if any, is admitted into it; an
/// address that was only waiting leaves the waiting list; an unknown
/// address changes nothing.
pub open spec fn spec_disconnect(m: AdmissionModel, key: u128) -> (AdmissionModel, Option<u128>) {
    if m.active.contains(key) {
        let act = m.active.remove_value(key);
        if m.pending.len() > 0 {
            (
                AdmissionModel { active: act.push(m.pending[0]), pending: m.pending.drop_first() },
                Some(m.pending[0]),
            )
        } else {
            (AdmissionModel { active: act, pending: m.pending }, None)
        }
    } else if m.pending.contains(key) {
        (AdmissionModel { active: m.active, pending: m.pending.remove_value(key) }, None)
    } else {
        (m, None)
    }
}

/// Removing the first occurrence of a value from a duplicate-free sequence
/// drops exactly that value and keeps everything else.
proof fn lemma_remove_first(s: Seq<u128>, key: u128, i: int)
    requires
        no_dups(s),
        0 <= i < s.len(),
        s[i] == key,
        forall|j: int| 0 <= j < i ==> s[j] != key,
    ensures
        s.index_of_first(key) == Some(i),
        s.remove_value(key) == s.remove(i),
        s.remove(i).len() == s.len() - 1,
        no_dups(s.remove(i)),
        !s.remove(i).contains(key),
        forall|x: u128| x != key ==> (#[trigger] s.remove(i).contains(x) <==> s.contains(x)),
{
    s.index_of_first_ensures(key);
    s.remove_ensures(i);
    let r = s.remove(i);
    assert forall|a: int, b: int| 0 <= a < b < r.len() implies r[a] != r[b] by {
        if a < i {
            assert(r[a] == s[a]);
        } else {
            assert(r[a] == s[a + 1]);
        }
        if b < i {
            assert(r[b] == s[b]);
        } else {
            assert(r[b] == s[b + 1]);
        }
    }
    assert(!r.contains(key)) by {
        if r.contains(key) {
            let j = choose|j: int| 0 <= j < r.len() && r[j] == key;
            if j < i {
                assert(s[j] == key);
            } else {
                assert(s[j + 1] == key);
            }
        }
    }
    assert forall|x: u128| x != key implies (#[trigger] r.contains(x) <==> s.contains(x)) by {
        if s.contains(x) {
            let j = choose|j: int| 0 <= j < s.len() && s[j] == x;
            if j < i {
                assert(r[j] == x);
            } else {
                assert(r[j - 1] == x);
            }
        }
        if r.contains(x) {
            let j = choose|j: int| 0 <= j < r.len() && r[j] == x;
            if j < i {
                assert(s[j] == x);
            } else {
                assert(s[j + 1] == x);
            }
        }
    }
}

/// Finds the first position of an address in a vector.
fn index_of(v: &Vec<u128>, key: u128) -> (r: Option<usize>)
    ensures
        match r {
            Some(i) => i < v@.len() && v@[i as int] == key && (forall|j: int|
                0 <= j < i ==> v@[j] != key),
            None => !v@.contains(key),
        },
{
    let mut i: usize = 0;
    while i < v.len()
        invariant
            i <= v@.len(),
            forall|j: int| 0 <= j < i ==> v@[j] != key,
        decreases v@.len() - i,
    {
        if v[i] == key {
            return Some(i);
        }
        i = i + 1;
    }
    None
}

/// The connection admission controller: decides, per attempt, whether a
/// channel opens now, waits, or is refused.
pub struct AdmissionControl {
    active: Vec<u128>,
    pending: Vec<u128>,
}

impl View for AdmissionControl {
    type V = AdmissionModel;

    closed spec fn view(&self) -> AdmissionModel {
        AdmissionModel { active: self.active@, pending: self.pending@ }
    }
}

impl AdmissionControl {
    /// A controller with no channels and nothing waiting.
    pub fn new() -> (c: AdmissionControl)
        ensures
            c@.active.len() == 0,
            c@.pending.len() == 0,
            wf(c@),
    {
        AdmissionControl { active: Vec::new(), pending: Vec::new() }
    }

    /// How many channels are live now.
    pub fn active_count(&self) -> (n: usize)
        ensures
            n == self@.active.len(),
    {
        self.active.len()
    }

    /// How many attempts are waiting for a slot.
    pub fn pending_count(&self) -> (n: usize)
        ensures
            n == self@.pending.len(),
    {
        self.pending.len()
    }

    /// Decide one connection attempt from the given source address.
    pub fn connect(&mut self, key: u128) -> (d: Decision)
        requires
            wf(old(self)@),
        ensures
            wf(final(self)@),
            final(self)@ == spec_connect(old(self)@, key).0,
            d == spec_connect(old(self)@, key).1,
    {
        let in_active = index_of(&self.active, key);
        let in_pending = index_of(&self.pending, key);
        if in_active.is_some() || in_pending.is_some() {
            proof {
                if in_active is Some {
                    assert(old(self)@.active.contains(key));
                }
                if in_pending is Some {
                    assert(old(self)@.pending.contains(key));
                }
            }
            Decision::Rejected
        } else if self.active.len() < GLOBAL_CAP {
            self.active.push(key);
            Decision::Admitted
        } else {
            self.pending.push(key);
            Decision::Deferred
        }
    }

    /// Release whatever the given source address holds: a closing live
    /// channel frees its slot and the oldest waiting address, returned as
    /// the promoted one, is admitted into it; a waiting address is simply
    /// forgotten.
    pub fn disconnect(&mut self, key: u128) -> (promoted: Option<u128>)
        requires
            wf(old(self)@),
        ensures
            wf(final(self)@),
            final(self)@ == spec_disconnect(old(self)@, key).0,
            promoted == spec_disconnect(old(self)@, key).1,
    {
        match index_of(&self.active, key) {
            Some(i) => {
                proof {
                    lemma_remove_first(self@.active, key, i as int);
                }
                self.active.remove(i);
                if self.pending.len() > 0 {
                    let k = self.pending.remove(0);
                    self.active.push(k);
                    proof {
                        let m0 = old(self)@;
                        let act = m0.active.remove_value(key);
                        let pen = m0.pending.drop_first();
                        assert(m0.pending.remove(0) =~= pen);
                        assert(m0.pending.contains(k));
                        assert(!m0.active.contains(k));
                        assert(k != key);
                        assert(!act.contains(k));
                        assert forall|a: int, b: int|
                            0 <= a < b < act.push(k).len() implies act.push(k)[a] != act.push(
                            k,
                        )[b] by {
                            if b == act.len() {
                                if act.push(k)[a] == k {
                                    assert(act.contains(k));
                                }
                            }
                        }
                        assert forall|x: u128| #[trigger]
                            pen.contains(x) implies m0.pending.contains(x) by {
                            let j = choose|j: int| 0 <= j < pen.len() && pen[j] == x;
                            assert(m0.pending[j + 1] == x);
                        }
                        assert(!pen.contains(k)) by {
                            if pen.contains(k) {
                                let j = choose|j: int| 0 <= j < pen.len() && pen[j] == k;
                                assert(m0.pending[j + 1] == m0.pending[0]);
                            }
                        }
                        assert forall|a: int, b: int|
                            0 <= a < b < pen.len() implies pen[a] != pen[b] by {
                            assert(pen[a] == m0.pending[a + 1]);
                            assert(pen[b] == m0.pending[b + 1]);
                        }
                        assert forall|x: u128| #[trigger]
                            act.push(k).contains(x) implies !pen.contains(x) by {
                            let j = choose|j: int|
                                0 <= j < act.push(k).len() && act.push(k)[j] == x;
                            if j < act.len() {
                                assert(act.contains(x));
                                assert(x != key);
                                assert(m0.active.contains(x));
                            }
                        }
                        assert(self@ == spec_disconnect(old(self)@, key).0);
                    }
                    Some(k)
                } else {
                    None
                }
            },
            None => {
                match index_of(&self.pending, key) {
                    Some(i) => {
                        proof {
                            lemma_remove_first(self@.pending, key, i as int);
                        }
                        self.pending.remove(i);
                        proof {
                            let m0 = old(self)@;
                            let pen = m0.pending.remove_value(key);
                            assert forall|x: u128| #[trigger]
                                m0.active.contains(x) implies !pen.contains(x) by {
                                assert(x != key);
                            }
                        }
                        None
                    },
                    None => None,
                }
            },
        }
    }
}

/// Per-address exclusion and readmission law: while a channel is live for
/// an address, a second attempt from that address is refused and the state
/// — in particular the live channel — is unchanged; once that channel
/// closes (with no attempts waiting for a slot), a fresh attempt from the
/// same address is admitted.
pub proof fn lemma_per_key_readmission(m: AdmissionModel, key: u128)
    requires
        wf(m),
        m.active.contains(key),
        m.pending.len() == 0,
    ensures
        spec_connect(m, key).1 == Decision::Rejected,
        spec_connect(m, key).0 == m,
        spec_disconnect(m, key).1 == None::<u128>,
        spec_connect(spec_disconnect(m, key).0, key).1 == Decision::Admitted,
{
    m.active.index_of_first_ensures(key);
    let i = m.active.index_of_first(key).unwrap();
    lemma_remove_first(m.active, key, i);
}

/// Global cap law: with every one of the `GLOBAL_CAP` slots taken, an
/// attempt from a fresh address is not refused but deferred, and the live
/// channels are untouched; when one live channel then closes, that waiting
/// address is admitted into the freed slot.
pub proof fn lemma_global_cap_defers(m: AdmissionModel, key: u128, closing: u128)
    requires
        wf(m),
        m.active.len() == GLOBAL_CAP as nat,
        m.pending.len() == 0,
        !m.active.contains(key),
        m.active.contains(closing),
        closing != key,
    ensures
        spec_connect(m, key).1 == Decision::Deferred,
        spec_connect(m, key).0.active == m.active,
        spec_disconnect(spec_connect(m, key).0, closing).1 == Some(key),
        spec_disconnect(spec_connect(m, key).0, closing).0.active.contains(key),
{
    let m1 = spec_connect(m, key).0;
    assert(m1.pending == m.pending.push(key));
    assert(m1.pending[0] == key);
    m1.active.index_of_first_ensures(closing);
    let i = m1.active.index_of_first(closing).unwrap();
    lemma_remove_first(m1.active, closing, i);
    let m2 = spec_disconnect(m1, closing).0;
    assert(m2.active == m1.active.remove_value(closing).push(key));
    assert(m2.active.last() == key);
    assert(m2.active.contains(key));
}

} // verus!
