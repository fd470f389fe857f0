//! The registry of live connections, keyed by the peer's address text, and
//! the fan-out rules that read and prune it.
use vstd::prelude::*;

verus! {

/// Every live connection's address, each at most once.
pub struct Registry {
    peers: Vec<String>,
}

/// `v` with every entry equal to `a` left out: the recipients of a message
/// that came from `a`.
pub open spec fn others(v: Seq<Seq<char>>, a: Seq<char>) -> Seq<Seq<char>> {
    survivors(v, seq![a])
}

/// `v` with every entry of `failed` left out.
pub open spec fn survivors(v: Seq<Seq<char>>, failed: Seq<Seq<char>>) -> Seq<Seq<char>> {
    v.filter(|x: Seq<char>| !failed.contains(x))
}

/// The registry after an accept of `a`: a new address is appended, a known one
/// changes nothing.
pub open spec fn with_peer(v: Seq<Seq<char>>, a: Seq<char>) -> Seq<Seq<char>> {
    if v.contains(a) {
        v
    } else {
        v.push(a)
    }
}

/// The registry after accepting each address of `s` in turn, from empty.
pub open spec fn accepted_all(s: Seq<Seq<char>>) -> Seq<Seq<char>>
    decreases s.len(),
{
    if s.len() == 0 {
        Seq::empty()
    } else {
        with_peer(accepted_all(s.drop_last()), s.last())
    }
}

/// The address texts of a vector of strings.
pub open spec fn texts(v: Seq<String>) -> Seq<Seq<char>> {
    v.map_values(|s: String| s@)
}

impl View for Registry {
    type V = Seq<Seq<char>>;

    closed spec fn view(&self) -> Seq<Seq<char>> {
        texts(self.peers@)
    }
}

impl Registry {
    /// No address appears twice.
    pub open spec fn wf(&self) -> bool {
        self@.no_duplicates()
    }

    /// An empty registry.
    pub fn new() -> (r: Registry)
        ensures
            r.wf(),
            r@ == Seq::<Seq<char>>::empty(),
    {
        let r = Registry { peers: Vec::new() };
        assert(r@ =~= Seq::<Seq<char>>::empty());
        r
    }

    /// The number of live connections.
    pub fn len(&self) -> (r: usize)
        ensures
            r == self@.len(),
    {
        self.peers.len()
    }

    /// Whether `addr` is registered.
    pub fn contains(&self, addr: &str) -> (r: bool)
        ensures
            r == self@.contains(addr@),
    {
        let a = addr.to_owned();
        let mut i: usize = 0;
        while i < self.peers.len()
            invariant
                i <= self.peers@.len(),
                a@ == addr@,
                forall|k: int| 0 <= k < i ==> self@[k] != addr@,
            decreases self.peers@.len() - i,
        {
            if self.peers[i] == a {
                assert(self@[i as int] == addr@);
                return true;
            }
            i = i + 1;
        }
        false
    }

    /// The addresses of all live connections, in order of registration.
    pub fn addresses(&self) -> (r: Vec<String>)
        ensures
            texts(r@) == self@,
    {
        let r = self.peers.clone();
        assert(texts(r@) =~= self@);
        r
    }

    /// Registers a newly accepted connection; returns whether `addr` was new.
    /// A known address is not added a second time.
    pub fn register(&mut self, addr: &str) -> (r: bool)
        requires
            old(self).wf(),
        ensures
            final(self).wf(),
            final(self)@ == with_peer(old(self)@, addr@),
            r == !old(self)@.contains(addr@),
    {
        if self.contains(addr) {
            return false;
        }
        self.peers.push(addr.to_owned());
        assert(self@ =~= old(self)@.push(addr@));
        assert(self@.no_duplicates()) by {
            assert forall|i: int, j: int| 0 <= i < j < self@.len() implies self@[i] != self@[j] by {
                if j == self@.len() - 1 {
                    assert(old(self)@.contains(old(self)@[i]));
                }
            }
        }
        true
    }

    /// The addresses a message from `origin` goes to: every live connection
    /// but `origin` itself.
    pub fn recipients(&self, origin: &str) -> (r: Vec<String>)
        ensures
            texts(r@) == others(self@, origin@),
            !texts(r@).contains(origin@),
    {
        proof {
            broadcast use Seq::lemma_filter_push;
        }
        let o = origin.to_owned();
        let mut r: Vec<String> = Vec::new();
        let mut i: usize = 0;
        while i < self.peers.len()
            invariant
                i <= self.peers@.len(),
                o@ == origin@,
                texts(r@) == others(self@.take(i as int), origin@),
            decreases self.peers@.len() - i,
        {
            let ghost r0 = r@;
            assert(self@.take(i + 1) =~= self@.take(i as int).push(self@[i as int]));
            proof {
                lemma_others_push(self@.take(i as int), self@[i as int], origin@);
            }
            assert(self@[i as int] == self.peers@[i as int]@);
            if self.peers[i] != o {
                r.push(self.peers[i].clone());
                assert(texts(r@) =~= texts(r0).push(self@[i as int]));
            }
            i = i + 1;
            assert(texts(r@) =~= others(self@.take(i as int), origin@));
        }
        assert(self@.take(i as int) =~= self@);
        proof {
            lemma_no_echo(self@, origin@);
        }
        r
    }

    /// Removes the connections whose writes failed; every other connection
    /// stays, in its place.
    pub fn prune(&mut self, failed: &Vec<String>)
        requires
            old(self).wf(),
        ensures
            final(self).wf(),
            final(self)@ == survivors(old(self)@, texts(failed@)),
    {
        proof {
            broadcast use Seq::lemma_filter_push;
        }
        let ghost f = texts(failed@);
        let ghost v = self@;
        let mut kept: Vec<String> = Vec::new();
        let mut i: usize = 0;
        while i < self.peers.len()
            invariant
                i <= self.peers@.len(),
                self@ == v,
                v.no_duplicates(),
                f == texts(failed@),
                texts(kept@) == survivors(v.take(i as int), f),
                texts(kept@).no_duplicates(),
            decreases self.peers@.len() - i,
        {
            assert(v.take(i + 1) =~= v.take(i as int).push(v[i as int]));
            let mut hit = false;
            let mut j: usize = 0;
            while j < failed.len()
                invariant
                    j <= failed@.len(),
                    f == texts(failed@),
                    i < self.peers@.len(),
                    hit == exists|k: int| 0 <= k < j && f[k] == v[i as int],
                    self@ == v,
                decreases failed@.len() - j,
            {
                assert(f[j as int] == failed@[j as int]@);
                assert(v[i as int] == self.peers@[i as int]@);
                if failed[j] == self.peers[i] {
                    hit = true;
                }
                j = j + 1;
            }
            assert(hit == f.contains(v[i as int]));
            let ghost k0 = kept@;
            proof {
                lemma_survivors_push(v.take(i as int), v[i as int], f);
            }
            if !hit {
                proof {
                    let ks = texts(kept@);
                    assert(!v.take(i as int).contains(v[i as int]));
                    if ks.contains(v[i as int]) {
                        v.take(i as int).lemma_filter_contains_rev(
                            |x: Seq<char>| !f.contains(x),
                            v[i as int],
                        );
                    }
                }
                kept.push(self.peers[i].clone());
                proof {
                    let ks = texts(kept@);
                    assert(ks =~= texts(k0).push(v[i as int]));
                    assert(ks.no_duplicates()) by {
                        assert forall|a: int, b: int|
                            0 <= a < b < ks.len() implies ks[a] != ks[b] by {
                            if b == ks.len() - 1 {
                                assert(texts(k0)[a] == ks[a]);
                            }
                        }
                    }
                }
            }
            i = i + 1;
            assert(texts(kept@) =~= survivors(v.take(i as int), f));
        }
        assert(v.take(i as int) =~= v);
        self.peers = kept;
    }
}

proof fn lemma_others_push(v: Seq<Seq<char>>, e: Seq<char>, a: Seq<char>)
    ensures
        others(v.push(e), a) == if e != a {
            others(v, a).push(e)
        } else {
            others(v, a)
        },
{
    lemma_survivors_push(v, e, seq![a]);
    assert(seq![a][0] == a);
}

proof fn lemma_survivors_push(v: Seq<Seq<char>>, x: Seq<char>, f: Seq<Seq<char>>)
    ensures
        survivors(v.push(x), f) == if !f.contains(x) {
            survivors(v, f).push(x)
        } else {
            survivors(v, f)
        },
{
    v.lemma_filter_push(x, |y: Seq<char>| !f.contains(y));
}

/// A message is never sent back to where it came from.
pub proof fn lemma_no_echo(v: Seq<Seq<char>>, origin: Seq<char>)
    ensures
        !others(v, origin).contains(origin),
{
    broadcast use vstd::seq_lib::group_filter_ensures;

    if others(v, origin).contains(origin) {
        let k = choose|k: int| 0 <= k < others(v, origin).len() && others(v, origin)[k] == origin;
        assert(seq![origin][0] == origin);
        assert(seq![origin].contains(others(v, origin)[k]));
    }
}

/// A failed write removes only its own connection: during a fan-out from
/// `origin`, every other registered connection was sent the frame, and after
/// pruning the connections whose writes failed, exactly the others remain.
pub proof fn lemma_isolation(v: Seq<Seq<char>>, origin: Seq<char>, failed: Seq<Seq<char>>)
    ensures
        forall|x: Seq<char>| v.contains(x) && x != origin ==> #[trigger] others(v, origin).contains(x),
        forall|x: Seq<char>|
            #[trigger] survivors(v, failed).contains(x) <==> v.contains(x) && !failed.contains(x),
{
    broadcast use vstd::seq_lib::group_filter_ensures;

    assert forall|x: Seq<char>| v.contains(x) && x != origin implies #[trigger] others(
        v,
        origin,
    ).contains(x) by {
        let i = choose|i: int| 0 <= i < v.len() && v[i] == x;
        if seq![origin].contains(x) {
            let k = choose|k: int| 0 <= k < 1 && seq![origin][k] == x;
            assert(seq![origin][0] == origin);
        }
        v.lemma_filter_contains(|y: Seq<char>| !seq![origin].contains(y), i);
    }
    assert forall|x: Seq<char>| #[trigger]
        survivors(v, failed).contains(x) <==> v.contains(x) && !failed.contains(x) by {
        if survivors(v, failed).contains(x) {
            let k = choose|k: int| 0 <= k < survivors(v, failed).len() && survivors(v, failed)[k] == x;
            v.lemma_filter_pred(|y: Seq<char>| !failed.contains(y), k);
            v.lemma_filter_contains_rev(|y: Seq<char>| !failed.contains(y), x);
        }
        if v.contains(x) && !failed.contains(x) {
            let i = choose|i: int| 0 <= i < v.len() && v[i] == x;
            v.lemma_filter_contains(|y: Seq<char>| !failed.contains(y), i);
        }
    }
}

/// Accepting `n` distinct peers, one after another, leaves exactly those `n`
/// addresses registered, each once, in order of acceptance.
pub proof fn lemma_distinct_accepts(s: Seq<Seq<char>>)
    requires
        s.no_duplicates(),
    ensures
        accepted_all(s) == s,
        accepted_all(s).len() == s.len(),
        accepted_all(s).no_duplicates(),
    decreases s.len(),
{
    if s.len() > 0 {
        let init = s.drop_last();
        assert(init.no_duplicates());
        lemma_distinct_accepts(init);
        if init.contains(s.last()) {
            let k = choose|k: int| 0 <= k < init.len() && init[k] == s.last();
            assert(s[k] == s[s.len() - 1]);
        }
        assert(init.push(s.last()) =~= s);
    }
}

} // verus!
