//! The server's registry of connected users and the dispatcher that applies
//! each event in turn and works out who is told what.

use vstd::prelude::*;
use vstd::string::*;
use vstd::utf8::*;
use crate::cipher::MAX_PLAINTEXT_LEN;
use crate::frame::{encode_frame, frame_text};

verus! {

/// What a connection reader hands the dispatcher.
pub enum ServerEvent {
    /// A peer finished its handshake under `username`; `handle` names its
    /// connection.
    NewClient { username: String, handle: u64 },
    /// The connection registered under `username` closed.
    ClientDisconnected { username: String },
    /// `sender` sent `text`.
    ChatMessage { sender: String, text: String },
}

/// One notice that the dispatcher owes one registered user.
pub struct Delivery {
    pub recipient: String,
    pub handle: u64,
    pub text: String,
}

/// One encrypted frame to write to one registered user's connection.
pub struct Outbound {
    pub recipient: String,
    pub handle: u64,
    pub frame: Vec<u8>,
}

/// The user an event is about: the one who joined or left, or the sender.
pub open spec fn subject(ev: ServerEvent) -> Seq<char> {
    match ev {
        ServerEvent::NewClient { username, .. } => username@,
        ServerEvent::ClientDisconnected { username } => username@,
        ServerEvent::ChatMessage { sender, .. } => sender@,
    }
}

/// The text that an event has broadcast.
pub open spec fn notice(ev: ServerEvent) -> Seq<char> {
    match ev {
        ServerEvent::NewClient { username, .. } => username@ + " has joined chat."@,
        ServerEvent::ClientDisconnected { username } => username@ + " has left chat."@,
        ServerEvent::ChatMessage { sender, text } => "["@ + sender@ + "]: "@ + text@,
    }
}

/// The registry after one event: a join inserts or overwrites the name, a
/// leave removes it if present, a chat message changes nothing.
pub open spec fn step(m: Map<Seq<char>, u64>, ev: ServerEvent) -> Map<Seq<char>, u64> {
    match ev {
        ServerEvent::NewClient { username, handle } => m.insert(username@, handle),
        ServerEvent::ClientDisconnected { username } => m.remove(username@),
        ServerEvent::ChatMessage { .. } => m,
    }
}

/// The registry after a sequence of events, applied in order.
pub open spec fn replay(m: Map<Seq<char>, u64>, evs: Seq<ServerEvent>) -> Map<Seq<char>, u64>
    decreases evs.len(),
{
    if evs.len() == 0 {
        m
    } else {
        step(replay(m, evs.drop_last()), evs.last())
    }
}

/// Whether an event joins or removes the user `n`.
pub open spec fn mentions(ev: ServerEvent, n: Seq<char>) -> bool {
    match ev {
        ServerEvent::NewClient { username, .. } => username@ == n,
        ServerEvent::ClientDisconnected { username } => username@ == n,
        ServerEvent::ChatMessage { .. } => false,
    }
}

/// Whether the latest event in `evs` that joins or removes `n` is a join.
pub open spec fn joined_last(evs: Seq<ServerEvent>, n: Seq<char>) -> bool {
    exists|i: int|
        0 <= i < evs.len() && (#[trigger] evs[i]) is NewClient && mentions(evs[i], n)
            && forall|j: int| i < j < evs.len() ==> !mentions(#[trigger] evs[j], n)
}

/// No two users share a connection handle.
pub open spec fn handles_distinct(m: Map<Seq<char>, u64>) -> bool {
    forall|a: Seq<char>, b: Seq<char>|
        m.contains_key(a) && m.contains_key(b) && a != b ==> #[trigger] m[a] != #[trigger] m[b]
}

/// Whether `d` tells each registered user of `m` but `skip` the text `text`,
/// exactly once each, at that user's handle, and tells no one else.
pub open spec fn tells_each_other(
    m: Map<Seq<char>, u64>,
    skip: Seq<char>,
    d: Seq<(Seq<char>, u64)>,
) -> bool {
    &&& forall|t: int|
        0 <= t < d.len() ==> {
            let (r, h) = #[trigger] d[t];
            &&& m.contains_key(r)
            &&& r != skip
            &&& h == m[r]
        }
    &&& forall|t1: int, t2: int| 0 <= t1 < t2 < d.len() ==> (#[trigger] d[t1]).0 != (#[trigger] d[t2]).0
    &&& forall|k: Seq<char>|
        #[trigger] m.contains_key(k) && k != skip ==> exists|t: int| 0 <= t < d.len() && (#[trigger] d[t]).0 == k
}

/// The map that a list of pairs with distinct keys stands for.
pub open spec fn to_map(s: Seq<(Seq<char>, u64)>) -> Map<Seq<char>, u64>
    decreases s.len(),
{
    if s.len() == 0 {
        Map::empty()
    } else {
        to_map(s.drop_last()).insert(s.last().0, s.last().1)
    }
}

pub open spec fn keys_unique(s: Seq<(Seq<char>, u64)>) -> bool {
    forall|i: int, j: int| 0 <= i < j < s.len() ==> (#[trigger] s[i]).0 != (#[trigger] s[j]).0
}

proof fn lemma_to_map(s: Seq<(Seq<char>, u64)>)
    requires
        keys_unique(s),
    ensures
        forall|i: int|
            0 <= i < s.len() ==> to_map(s).contains_key((#[trigger] s[i]).0) && to_map(s)[s[i].0] == s[i].1,
        forall|k: Seq<char>|
            #[trigger] to_map(s).contains_key(k) ==> exists|i: int| 0 <= i < s.len() && (#[trigger] s[i]).0 == k,
    decreases s.len(),
{
    if s.len() > 0 {
        let p = s.drop_last();
        assert(keys_unique(p)) by {
            assert forall|i: int, j: int| 0 <= i < j < p.len() implies (#[trigger] p[i]).0 != (#[trigger] p[j]).0 by {
                assert(p[i] == s[i] && p[j] == s[j]);
            }
        }
        lemma_to_map(p);
        assert forall|i: int| 0 <= i < s.len() implies to_map(s).contains_key((#[trigger] s[i]).0) && to_map(s)[s[i].0] == s[i].1 by {
            if i < p.len() {
                assert(p[i] == s[i]);
                assert(s[i].0 != s.last().0);
            }
        }
        assert forall|k: Seq<char>| #[trigger] to_map(s).contains_key(k) implies exists|i: int| 0 <= i < s.len() && (#[trigger] s[i]).0 == k by {
            if k != s.last().0 {
                assert(to_map(p).contains_key(k));
                let i = choose|i: int| 0 <= i < p.len() && (#[trigger] p[i]).0 == k;
                assert(s[i] == p[i]);
                assert(s[i].0 == k);
            } else {
                assert(s[s.len() - 1].0 == k);
            }
        }
    }
}

proof fn lemma_same_map(s: Seq<(Seq<char>, u64)>, m: Map<Seq<char>, u64>)
    requires
        keys_unique(s),
        forall|i: int| 0 <= i < s.len() ==> m.contains_key((#[trigger] s[i]).0) && m[s[i].0] == s[i].1,
        forall|k: Seq<char>| #[trigger] m.contains_key(k) ==> exists|i: int| 0 <= i < s.len() && (#[trigger] s[i]).0 == k,
    ensures
        to_map(s) == m,
{
    lemma_to_map(s);
    assert forall|k: Seq<char>| #[trigger] to_map(s).contains_key(k) <==> m.contains_key(k) by {
        if to_map(s).contains_key(k) {
            let i = choose|i: int| 0 <= i < s.len() && (#[trigger] s[i]).0 == k;
        }
        if m.contains_key(k) {
            let i = choose|i: int| 0 <= i < s.len() && (#[trigger] s[i]).0 == k;
        }
    }
    assert forall|k: Seq<char>| #[trigger] to_map(s).contains_key(k) implies to_map(s)[k] == m[k] by {
        let i = choose|i: int| 0 <= i < s.len() && (#[trigger] s[i]).0 == k;
    }
    assert(to_map(s) =~= m);
}

proof fn lemma_remove_at(s: Seq<(Seq<char>, u64)>, i: int)
    requires
        keys_unique(s),
        0 <= i < s.len(),
    ensures
        keys_unique(s.remove(i)),
        forall|j: int| 0 <= j < i ==> #[trigger] s.remove(i)[j] == s[j],
        forall|j: int| i <= j < s.len() - 1 ==> #[trigger] s.remove(i)[j] == s[j + 1],
        forall|j: int| 0 <= j < s.len() - 1 ==> (#[trigger] s.remove(i)[j]).0 != s[i].0,
{
    let r = s.remove(i);
    assert forall|a: int, b: int| 0 <= a < b < r.len() implies (#[trigger] r[a]).0 != (#[trigger] r[b]).0 by {
        let a2 = if a < i { a } else { a + 1 };
        let b2 = if b < i { b } else { b + 1 };
        assert(r[a] == s[a2] && r[b] == s[b2]);
    }
    assert forall|j: int| 0 <= j < s.len() - 1 implies (#[trigger] r[j]).0 != s[i].0 by {
        let j2 = if j < i { j } else { j + 1 };
        assert(r[j] == s[j2]);
    }
}

/// Who is connected: each username once, with its connection's handle.
pub struct Registry {
    entries: Vec<(String, u64)>,
}

impl Registry {
    pub closed spec fn pairs(&self) -> Seq<(Seq<char>, u64)> {
        self.entries@.map_values(|e: (String, u64)| (e.0@, e.1))
    }

    /// The registry as a map from username to handle.
    pub closed spec fn view(&self) -> Map<Seq<char>, u64> {
        to_map(self.pairs())
    }

    /// The usernames are distinct.
    pub closed spec fn wf(&self) -> bool {
        keys_unique(self.pairs())
    }

    /// An empty registry.
    pub fn new() -> (r: Registry)
        ensures
            r.wf(),
            r.view() == Map::<Seq<char>, u64>::empty(),
    {
        let r = Registry { entries: Vec::new() };
        assert(r.pairs() =~= Seq::<(Seq<char>, u64)>::empty());
        r
    }

    /// The number of registered users.
    pub fn len(&self) -> (r: usize)
        requires
            self.wf(),
        ensures
            r == self.view().len(),
    {
        proof {
            self.lemma_view_len();
        }
        self.entries.len()
    }

    proof fn lemma_view_len(&self)
        requires
            self.wf(),
        ensures
            self.view().len() == self.entries@.len(),
        decreases self.entries@.len(),
    {
        let s = self.pairs();
        lemma_to_map(s);
        let dom = self.view().dom();
        let idx = Set::new(|i: int| 0 <= i < s.len());
        assert(idx =~= vstd::set_lib::set_int_range(0, s.len() as int));
        vstd::set_lib::lemma_int_range(0, s.len() as int);
        let f = |i: int| s[i].0;
        assert(idx.map(f) =~= dom) by {
            assert forall|k: Seq<char>| dom.contains(k) implies idx.map(f).contains(k) by {
                let i = choose|i: int| 0 <= i < s.len() && (#[trigger] s[i]).0 == k;
                assert(idx.contains(i) && f(i) == k);
            }
            assert forall|k: Seq<char>| idx.map(f).contains(k) implies dom.contains(k) by {
                let i = choose|i: int| idx.contains(i) && f(i) == k;
                assert(s[i].0 == k);
            }
        }
        assert(vstd::relations::injective_on(f, idx)) by {
            assert forall|a: int, b: int| idx.contains(a) && idx.contains(b) && #[trigger] f(a) == #[trigger] f(b) implies a == b by {
                if a < b {
                    assert(s[a].0 != s[b].0);
                } else if b < a {
                    assert(s[b].0 != s[a].0);
                }
            }
        }
        vstd::set_lib::lemma_map_size(idx, dom, f);
        assert(self.view().dom() == dom);
    }

    fn find(&self, name: &String) -> (r: Option<usize>)
        requires
            self.wf(),
        ensures
            r matches Some(i) ==> i < self.entries@.len() && self.pairs()[i as int].0 == name@,
            r is None ==> !self.view().contains_key(name@),
    {
        let mut i: usize = 0;
        while i < self.entries.len()
            invariant
                i <= self.entries@.len(),
                forall|j: int| 0 <= j < i ==> (#[trigger] self.pairs()[j]).0 != name@,
            decreases self.entries@.len() - i,
        {
            if self.entries[i].0 == *name {
                return Some(i);
            }
            i = i + 1;
        }
        proof {
            lemma_to_map(self.pairs());
            if self.view().contains_key(name@) {
                let j = choose|j: int| 0 <= j < self.pairs().len() && (#[trigger] self.pairs()[j]).0 == name@;
            }
        }
        None
    }

    /// Registers `name` under `handle`, replacing any handle it had.
    fn insert(&mut self, name: String, handle: u64)
        requires
            old(self).wf(),
        ensures
            final(self).wf(),
            final(self).view() == old(self).view().insert(name@, handle),
    {
        let ghost m = self.view();
        let ghost nv = name@;
        let ghost before = self.pairs();
        proof {
            lemma_to_map(before);
        }
        match self.find(&name) {
            Some(i) => {
                self.entries.remove(i);
                proof {
                    assert(self.pairs() =~= before.remove(i as int));
                    lemma_remove_at(before, i as int);
                }
            },
            None => {},
        }
        let ghost mid = self.pairs();
        proof {
            assert(keys_unique(mid));
            assert forall|j: int| 0 <= j < mid.len() implies (#[trigger] mid[j]).0 != nv && m.contains_key(mid[j].0) && m[mid[j].0] == mid[j].1 by {
                if mid != before {
                    let i = choose|i: int| 0 <= i < before.len() && before[i].0 == nv && mid == before.remove(i);
                    let j2 = if j < i { j } else { j + 1 };
                    assert(mid[j] == before[j2]);
                } else {
                    assert(mid[j] == before[j]);
                }
            }
        }
        self.entries.push((name, handle));
        proof {
            let s = self.pairs();
            assert(s =~= mid.push((nv, handle)));
            let m2 = m.insert(nv, handle);
            assert forall|a: int, b: int| 0 <= a < b < s.len() implies (#[trigger] s[a]).0 != (#[trigger] s[b]).0 by {
                if b == s.len() - 1 {
                    assert(s[a] == mid[a]);
                } else {
                    assert(s[a] == mid[a] && s[b] == mid[b]);
                }
            }
            assert forall|j: int| 0 <= j < s.len() implies m2.contains_key((#[trigger] s[j]).0) && m2[s[j].0] == s[j].1 by {
                if j < mid.len() {
                    assert(s[j] == mid[j]);
                }
            }
            assert forall|k: Seq<char>| #[trigger] m2.contains_key(k) implies exists|j: int| 0 <= j < s.len() && (#[trigger] s[j]).0 == k by {
                if k == nv {
                    assert(s[s.len() - 1].0 == k);
                } else {
                    let j = choose|j: int| 0 <= j < old(self).pairs().len() && (#[trigger] old(self).pairs()[j]).0 == k;
                    self.lemma_kept_after_remove(old(self).pairs(), mid, nv, j);
                    let t = choose|t: int| 0 <= t < mid.len() && (#[trigger] mid[t]).0 == k;
                    assert(s[t] == mid[t]);
                }
            }
            lemma_same_map(s, m2);
        }
    }

    proof fn lemma_kept_after_remove(
        &self,
        before: Seq<(Seq<char>, u64)>,
        after: Seq<(Seq<char>, u64)>,
        gone: Seq<char>,
        j: int,
    )
        requires
            0 <= j < before.len(),
            before[j].0 != gone,
            after == before || exists|i: int|
                0 <= i < before.len() && before[i].0 == gone && after == before.remove(i),
        ensures
            exists|t: int| 0 <= t < after.len() && (#[trigger] after[t]).0 == before[j].0,
    {
        if after == before {
            assert(after[j].0 == before[j].0);
        } else {
            let i = choose|i: int| 0 <= i < before.len() && before[i].0 == gone && after == before.remove(i);
            if j < i {
                assert(after[j] == before[j]);
            } else {
                assert(j != i);
                assert(after[j - 1] == before[j]);
            }
        }
    }

    /// Removes `name` if it is registered.
    fn remove(&mut self, name: &String)
        requires
            old(self).wf(),
        ensures
            final(self).wf(),
            final(self).view() == old(self).view().remove(name@),
    {
        let ghost m = self.view();
        let ghost before = self.pairs();
        proof {
            lemma_to_map(before);
        }
        match self.find(name) {
            Some(i) => {
                self.entries.remove(i);
                proof {
                    assert(self.pairs() =~= before.remove(i as int));
                    lemma_remove_at(before, i as int);
                }
            },
            None => {},
        }
        proof {
            let s = self.pairs();
            let m2 = m.remove(name@);
            assert(keys_unique(s));
            assert forall|j: int| 0 <= j < s.len() implies m2.contains_key((#[trigger] s[j]).0) && m2[s[j].0] == s[j].1 by {
                if s != before {
                    let i = choose|i: int| 0 <= i < before.len() && before[i].0 == name@ && s == before.remove(i);
                    let j2 = if j < i { j } else { j + 1 };
                    assert(s[j] == before[j2]);
                } else {
                    assert(s[j] == before[j]);
                }
            }
            assert forall|k: Seq<char>| #[trigger] m2.contains_key(k) implies exists|j: int| 0 <= j < s.len() && (#[trigger] s[j]).0 == k by {
                let j = choose|j: int| 0 <= j < before.len() && (#[trigger] before[j]).0 == k;
                self.lemma_kept_after_remove(before, s, name@, j);
            }
            lemma_same_map(s, m2);
        }
    }
}


/// The recipients and handles that a list of deliveries names.
pub open spec fn delivery_targets(d: Seq<Delivery>) -> Seq<(Seq<char>, u64)> {
    d.map_values(|x: Delivery| (x.recipient@, x.handle))
}

/// The recipients and handles that a list of frames goes to.
pub open spec fn outbound_targets(d: Seq<Outbound>) -> Seq<(Seq<char>, u64)> {
    d.map_values(|x: Outbound| (x.recipient@, x.handle))
}

/// The notice text of an event.
pub fn notice_of(ev: &ServerEvent) -> (r: String)
    ensures
        r@ == notice(*ev),
{
    let mut r = String::new();
    match ev {
        ServerEvent::NewClient { username, .. } => {
            r.append(username.as_str());
            r.append(" has joined chat.");
        },
        ServerEvent::ClientDisconnected { username } => {
            r.append(username.as_str());
            r.append(" has left chat.");
        },
        ServerEvent::ChatMessage { sender, text } => {
            r.append("[");
            r.append(sender.as_str());
            r.append("]: ");
            r.append(text.as_str());
        },
    }
    r
}

fn subject_of(ev: &ServerEvent) -> (r: String)
    ensures
        r@ == subject(*ev),
{
    match ev {
        ServerEvent::NewClient { username, .. } => username.clone(),
        ServerEvent::ClientDisconnected { username } => username.clone(),
        ServerEvent::ChatMessage { sender, .. } => sender.clone(),
    }
}

impl Registry {
    /// Applies one event: a join registers the user (overwriting an earlier
    /// handle under the same name), a leave removes the user if present, a
    /// chat message leaves the registry as it is. Returns the event's notice
    /// for every registered user but the event's subject, once each.
    pub fn apply(&mut self, ev: ServerEvent) -> (d: Vec<Delivery>)
        requires
            old(self).wf(),
        ensures
            final(self).wf(),
            final(self).view() == step(old(self).view(), ev),
            tells_each_other(final(self).view(), subject(ev), delivery_targets(d@)),
            forall|t: int| 0 <= t < d@.len() ==> (#[trigger] d@[t]).text@ == notice(ev),
    {
        let text = notice_of(&ev);
        let skip = subject_of(&ev);
        match ev {
            ServerEvent::NewClient { username, handle } => self.insert(username, handle),
            ServerEvent::ClientDisconnected { username } => self.remove(&username),
            ServerEvent::ChatMessage { .. } => {},
        }
        let ghost s = self.pairs();
        let mut d: Vec<Delivery> = Vec::new();
        let ghost mut idx: Seq<int> = Seq::empty();
        let mut i: usize = 0;
        while i < self.entries.len()
            invariant
                self.wf(),
                s == self.pairs(),
                i <= s.len(),
                idx.len() == d@.len(),
                skip@ == subject(ev),
                text@ == notice(ev),
                forall|t: int|
                    0 <= t < idx.len() ==> 0 <= #[trigger] idx[t] < i && delivery_targets(d@)[t] == s[idx[t]]
                        && s[idx[t]].0 != skip@ && d@[t].text@ == text@,
                forall|t1: int, t2: int| 0 <= t1 < t2 < idx.len() ==> #[trigger] idx[t1] < #[trigger] idx[t2],
                forall|p: int| 0 <= p < i && (#[trigger] s[p]).0 != skip@ ==> exists|t: int| 0 <= t < idx.len() && idx[t] == p,
            decreases s.len() - i,
        {
            let ghost before = d@;
            let ghost idx0 = idx;
            if self.entries[i].0 != skip {
                d.push(Delivery {
                    recipient: self.entries[i].0.clone(),
                    handle: self.entries[i].1,
                    text: text.clone(),
                });
                proof {
                    idx = idx.push(i as int);
                    assert forall|t: int| 0 <= t < idx.len() implies 0 <= #[trigger] idx[t] < i + 1 && delivery_targets(d@)[t] == s[idx[t]]
                        && s[idx[t]].0 != skip@ && d@[t].text@ == text@ by {
                        if t < before.len() {
                            assert(d@[t] == before[t]);
                        }
                    }
                    assert forall|p: int| 0 <= p < i + 1 && (#[trigger] s[p]).0 != skip@ implies exists|t: int| 0 <= t < idx.len() && idx[t] == p by {
                        if p == i {
                            assert(idx[idx.len() - 1] == p);
                        } else {
                            let t = choose|t: int| 0 <= t < idx0.len() && idx0[t] == p;
                            assert(idx[t] == p);
                        }
                    }
                }
            } else {
                proof {
                    assert forall|p: int| 0 <= p < i + 1 && (#[trigger] s[p]).0 != skip@ implies exists|t: int| 0 <= t < idx.len() && idx[t] == p by {
                        if p == i {
                            assert(s[p].0 == skip@);
                        }
                    }
                }
            }
            i = i + 1;
        }
        proof {
            let m = self.view();
            let tt = delivery_targets(d@);
            lemma_to_map(s);
            assert forall|t1: int, t2: int| 0 <= t1 < t2 < tt.len() implies (#[trigger] tt[t1]).0 != (#[trigger] tt[t2]).0 by {
                assert(idx[t1] < idx[t2]);
                assert(s[idx[t1]].0 != s[idx[t2]].0);
            }
            assert forall|t: int| 0 <= t < tt.len() implies {
                let (r, h) = #[trigger] tt[t];
                &&& m.contains_key(r)
                &&& r != skip@
                &&& h == m[r]
            } by {
                assert(tt[t] == s[idx[t]]);
            }
            assert forall|k: Seq<char>| #[trigger] m.contains_key(k) && k != skip@ implies exists|t: int| 0 <= t < tt.len() && (#[trigger] tt[t]).0 == k by {
                let p = choose|p: int| 0 <= p < s.len() && (#[trigger] s[p]).0 == k;
                let t = choose|t: int| 0 <= t < idx.len() && idx[t] == p;
                assert(tt[t] == s[p]);
            }
            assert forall|t: int| 0 <= t < d@.len() implies (#[trigger] d@[t]).text@ == notice(ev) by {
                assert(0 <= idx[t]);
            }
        }
        d
    }
}

/// The dispatcher: the registry, and the key that every outgoing notice is
/// encrypted under.
pub struct Dispatcher {
    registry: Registry,
    key: [u8; 32],
}

/// Whether the notice of `ev` is short enough to encrypt.
pub open spec fn notice_fits(ev: ServerEvent) -> bool {
    encode_utf8(notice(ev)).len() <= MAX_PLAINTEXT_LEN
}

/// Tests whether the notice of `ev` is short enough to encrypt.
pub fn fits(ev: &ServerEvent) -> (r: bool)
    ensures
        r == notice_fits(*ev),
{
    let text = notice_of(ev);
    let bytes = text.as_str().as_bytes();
    bytes.len() as u64 <= MAX_PLAINTEXT_LEN
}

impl Dispatcher {
    /// Who is registered, by username.
    pub closed spec fn members(&self) -> Map<Seq<char>, u64> {
        self.registry.view()
    }

    /// The key that frames are encrypted under.
    pub closed spec fn key_bytes(&self) -> Seq<u8> {
        self.key@
    }

    pub closed spec fn wf(&self) -> bool {
        self.registry.wf()
    }

    /// A dispatcher with nobody registered.
    pub fn new(key: [u8; 32]) -> (r: Dispatcher)
        ensures
            r.wf(),
            r.members() == Map::<Seq<char>, u64>::empty(),
            r.key_bytes() == key@,
    {
        Dispatcher { registry: Registry::new(), key }
    }

    /// The number of registered users.
    pub fn len(&self) -> (r: usize)
        requires
            self.wf(),
        ensures
            r == self.members().len(),
    {
        self.registry.len()
    }

    /// Processes one event: updates the registry as `Registry::apply` does
    /// and returns, for every registered user but the event's subject, a
    /// frame of the event's notice encrypted with a nonce of its own.
    pub fn process(&mut self, ev: ServerEvent) -> (r: Vec<Outbound>)
        requires
            old(self).wf(),
            notice_fits(ev),
        ensures
            final(self).wf(),
            final(self).key_bytes() == old(self).key_bytes(),
            final(self).members() == step(old(self).members(), ev),
            tells_each_other(final(self).members(), subject(ev), outbound_targets(r@)),
            forall|t: int|
                0 <= t < r@.len() ==> frame_text(final(self).key_bytes(), (#[trigger] r@[t]).frame@) == Some(notice(ev)),
    {
        let ghost text = notice(ev);
        let ghost skip = subject(ev);
        let d = self.registry.apply(ev);
        let mut out: Vec<Outbound> = Vec::new();
        let mut i: usize = 0;
        while i < d.len()
            invariant
                i <= d@.len(),
                out@.len() == i,
                forall|t: int| 0 <= t < d@.len() ==> (#[trigger] d@[t]).text@ == text,
                encode_utf8(text).len() <= MAX_PLAINTEXT_LEN,
                forall|t: int|
                    0 <= t < i ==> (#[trigger] out@[t]).recipient@ == d@[t].recipient@ && out@[t].handle == d@[t].handle
                        && frame_text(self.key@, out@[t].frame@) == Some(text),
            decreases d@.len() - i,
        {
            let frame = encode_frame(d[i].text.as_str(), &self.key);
            out.push(Outbound { recipient: d[i].recipient.clone(), handle: d[i].handle, frame });
            i = i + 1;
        }
        proof {
            assert(outbound_targets(out@) =~= delivery_targets(d@));
        }
        out
    }
}

/// Registry law: after any sequence of events, starting from nobody, the
/// users registered are exactly those whose latest join or leave event is
/// a join.
pub proof fn lemma_registry_holds_latest_joins(evs: Seq<ServerEvent>)
    ensures
        forall|n: Seq<char>| #[trigger] replay(Map::empty(), evs).contains_key(n) <==> joined_last(evs, n),
    decreases evs.len(),
{
    if evs.len() > 0 {
        let pre = evs.drop_last();
        let e = evs.last();
        lemma_registry_holds_latest_joins(pre);
        assert forall|n: Seq<char>| #[trigger] replay(Map::empty(), evs).contains_key(n) <==> joined_last(evs, n) by {
            let last = evs.len() - 1;
            assert(evs[last] == e);
            if mentions(e, n) {
                if e is NewClient {
                    assert(joined_last(evs, n));
                } else {
                    if joined_last(evs, n) {
                        let i = choose|i: int|
                            0 <= i < evs.len() && (#[trigger] evs[i]) is NewClient && mentions(evs[i], n)
                                && forall|j: int| i < j < evs.len() ==> !mentions(#[trigger] evs[j], n);
                        assert(i != last);
                        assert(!mentions(evs[last], n));
                    }
                }
            } else {
                assert(replay(Map::empty(), evs).contains_key(n) == replay(Map::empty(), pre).contains_key(n));
                if joined_last(pre, n) {
                    let i = choose|i: int|
                        0 <= i < pre.len() && (#[trigger] pre[i]) is NewClient && mentions(pre[i], n)
                            && forall|j: int| i < j < pre.len() ==> !mentions(#[trigger] pre[j], n);
                    assert(evs[i] == pre[i]);
                    assert forall|j: int| i < j < evs.len() implies !mentions(#[trigger] evs[j], n) by {
                        if j < last {
                            assert(evs[j] == pre[j]);
                        }
                    }
                    assert(joined_last(evs, n));
                }
                if joined_last(evs, n) {
                    let i = choose|i: int|
                        0 <= i < evs.len() && (#[trigger] evs[i]) is NewClient && mentions(evs[i], n)
                            && forall|j: int| i < j < evs.len() ==> !mentions(#[trigger] evs[j], n);
                    assert(i != last);
                    assert(pre[i] == evs[i]);
                    assert forall|j: int| i < j < pre.len() implies !mentions(#[trigger] pre[j], n) by {
                        assert(evs[j] == pre[j]);
                    }
                    assert(joined_last(pre, n));
                }
            }
        }
    }
}

/// Broadcast exclusion: where no two users share a handle, a fan-out that
/// skips the sender never reaches the sender's handle.
pub proof fn lemma_sender_not_told(m: Map<Seq<char>, u64>, sender: Seq<char>, d: Seq<(Seq<char>, u64)>)
    requires
        handles_distinct(m),
        m.contains_key(sender),
        tells_each_other(m, sender, d),
    ensures
        forall|t: int| 0 <= t < d.len() ==> (#[trigger] d[t]).1 != m[sender] && d[t].0 != sender,
{
    assert forall|t: int| 0 <= t < d.len() implies (#[trigger] d[t]).1 != m[sender] && d[t].0 != sender by {
        let r = d[t].0;
        assert(m.contains_key(r) && r != sender && d[t].1 == m[r]);
        assert(m[r] != m[sender]);
    }
}

} // verus!
