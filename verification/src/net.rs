//! The net that a program leaves behind: its nodes and its substitutions.
use vstd::prelude::*;
use crate::hvm::{FREE, NONE, Pair, Port, ROOT, VAR};

verus! {

/// A word of the device's memory as the host reads it: the root, and a variable
/// outside the heap, stand for variable zero.
pub open spec fn remapped(p: u32, heap: u32) -> u32 {
    if p == ROOT || p % 8 == VAR && p / 8 >= heap {
        0
    } else {
        p
    }
}

/// A word of the device's memory as the host reads it. The device keeps the root
/// in variable zero; the net of the host has `heap` variables only.
pub fn remap_port(p: u32, heap: u32) -> (r: u32)
    ensures
        r == remapped(p, heap),
{
    if p == ROOT {
        return 0;
    }
    if p % 8 == VAR as u32 && p / 8 >= heap {
        return 0;
    }
    p
}

/// Every variable that the host reads is inside the heap.
pub proof fn law_remapped_inside(p: u32, heap: u32)
    requires
        heap > 0,
    ensures
        Port(remapped(p, heap)).tag() == VAR ==> Port(remapped(p, heap)).val() < heap,
        Port(p).tag() != VAR ==> remapped(p, heap) == p,
        remapped(remapped(p, heap), heap) == remapped(p, heap),
{
}

/// What a net holds: nodes by location and substitutions by variable.
#[verifier::ext_equal]
pub struct NetModel {
    pub node: Seq<Pair>,
    pub vars: Seq<Port>,
}

/// The net that the device's memory holds: of each of `heap` nodes its two words,
/// of each of `heap` variables its word.
pub open spec fn device_net(nodes: Seq<u32>, vars: Seq<u32>, heap: u32) -> NetModel {
    NetModel {
        node: Seq::new(
            heap as nat,
            |i: int|
                Pair(
                    (remapped(nodes[2 * i + 1], heap) * 0x1_0000_0000 + remapped(
                        nodes[2 * i],
                        heap,
                    )) as u64,
                ),
        ),
        vars: Seq::new(heap as nat, |i: int| Port(remapped(vars[i], heap))),
    }
}

impl NetModel {
    /// `port` is a variable of the net that has a substitution.
    pub open spec fn bound(self, port: Port) -> bool {
        &&& port.tag() == VAR
        &&& port.val() < self.vars.len()
        &&& self.vars[port.val() as int].0 != NONE
        &&& self.vars[port.val() as int].0 != FREE
    }

    /// `port` is no variable, or a variable of the net without a substitution.
    pub open spec fn settled(self, port: Port) -> bool {
        port.tag() != VAR || port.val() < self.vars.len() && !self.bound(port)
    }

    /// The port at the end of the substitutions of `port`, where there are at
    /// most `n` of them.
    pub open spec fn follow(self, port: Port, n: nat) -> Option<Port>
        decreases n,
    {
        if self.settled(port) {
            Some(port)
        } else if n == 0 || !self.bound(port) {
            None
        } else {
            self.follow(self.vars[port.val() as int], (n - 1) as nat)
        }
    }

    /// The substitutions of `port` end, at a port of the net.
    pub open spec fn ends(self, port: Port) -> bool {
        exists|n: nat| self.follow(port, n) is Some
    }

    /// The port at the end of the substitutions of `port`.
    pub open spec fn entered(self, port: Port) -> Port
        recommends
            self.ends(port),
    {
        self.follow(port, choose|n: nat| self.follow(port, n) is Some)->0
    }

    proof fn lemma_follow_more(self, port: Port, n: nat, m: nat)
        requires
            n <= m,
            self.follow(port, n) is Some,
        ensures
            self.follow(port, m) == self.follow(port, n),
        decreases n,
    {
        if !self.settled(port) {
            self.lemma_follow_more(
                self.vars[port.val() as int],
                (n - 1) as nat,
                (m - 1) as nat,
            );
        }
    }

    /// However many steps are granted, the end is the same.
    pub(crate) proof fn lemma_entered(self, port: Port, n: nat)
        requires
            self.follow(port, n) is Some,
        ensures
            self.ends(port),
            self.entered(port) == self.follow(port, n)->0,
    {
        let c = choose|c: nat| self.follow(port, c) is Some;
        if n <= c {
            self.lemma_follow_more(port, n, c);
        } else {
            self.lemma_follow_more(port, c, n);
        }
    }

    /// What is at the end of the substitutions of a port has no substitution
    /// itself: entering it again leads nowhere else.
    pub proof fn law_enter_once(self, port: Port)
        requires
            self.ends(port),
        ensures
            self.settled(self.entered(port)),
            self.ends(self.entered(port)),
            self.entered(self.entered(port)) == self.entered(port),
    {
        let c = choose|c: nat| self.follow(port, c) is Some;
        self.lemma_follow_settled(port, c);
        self.lemma_entered(self.entered(port), 0);
    }

    proof fn lemma_follow_settled(self, port: Port, n: nat)
        requires
            self.follow(port, n) is Some,
        ensures
            self.settled(self.follow(port, n)->0),
        decreases n,
    {
        if !self.settled(port) {
            self.lemma_follow_settled(self.vars[port.val() as int], (n - 1) as nat);
        }
    }

    /// `port` after `k` substitutions.
    spec fn hop(self, port: Port, k: nat) -> Port
        decreases k,
    {
        if k == 0 {
            port
        } else {
            self.vars[self.hop(port, (k - 1) as nat).val() as int]
        }
    }

    proof fn lemma_hop(self, port: Port, n: nat, k: nat)
        requires
            n > 0,
            self.follow(port, n) is Some,
            self.follow(port, (n - 1) as nat) is None,
            k < n,
        ensures
            self.bound(self.hop(port, k)),
            self.follow(self.hop(port, k), (n - k) as nat) is Some,
            self.follow(self.hop(port, k), (n - k - 1) as nat) is None,
        decreases k,
    {
        if k > 0 {
            self.lemma_hop(port, n, (k - 1) as nat);
        }
    }

    /// Substitutions that end do so within as many steps as there are variables.
    proof fn lemma_ends_within(self, port: Port)
        requires
            self.ends(port),
        ensures
            self.follow(port, self.vars.len()) is Some,
    {
        let len = self.vars.len();
        let c = choose|c: nat| self.follow(port, c) is Some;
        if self.follow(port, len) is None {
            if c <= len {
                self.lemma_follow_more(port, c, len);
            }
            let n = self.lemma_least(port, c);
            if n <= len {
                self.lemma_follow_more(port, n, len);
            }
            let vals = Seq::new(n, |k: int| self.hop(port, k as nat).val() as int);
            assert(vals.no_duplicates()) by {
                assert forall|i: int, j: int| 0 <= i < j < vals.len() implies vals[i] != vals[j] by {
                    self.lemma_hop(port, n, i as nat);
                    self.lemma_hop(port, n, j as nat);
                    let p = self.hop(port, i as nat);
                    let q = self.hop(port, j as nat);
                    if p.val() == q.val() {
                        assert(p == q);
                        self.lemma_follow_more(p, (n - j) as nat, (n - i - 1) as nat);
                    }
                }
            }
            vals.unique_seq_to_set();
            let range = vstd::set_lib::set_int_range(0, len as int);
            vstd::set_lib::lemma_int_range(0, len as int);
            assert(vals.to_set().subset_of(range)) by {
                assert forall|x: int| vals.to_set().contains(x) implies range.contains(x) by {
                    let k = choose|k: int| 0 <= k < vals.len() && vals[k] == x;
                    self.lemma_hop(port, n, k as nat);
                }
            }
            vstd::set_lib::lemma_len_subset(vals.to_set(), range);
        }
    }

    proof fn lemma_least(self, port: Port, c: nat) -> (n: nat)
        requires
            self.follow(port, c) is Some,
            self.follow(port, 0) is None,
        ensures
            0 < n <= c,
            self.follow(port, n) is Some,
            self.follow(port, (n - 1) as nat) is None,
        decreases c,
    {
        if self.follow(port, (c - 1) as nat) is Some {
            self.lemma_least(port, (c - 1) as nat)
        } else {
            c
        }
    }
}

/// Nodes by location and substitutions by variable.
pub struct GNet {
    pub node: Vec<Pair>,
    pub vars: Vec<Port>,
}

impl View for GNet {
    type V = NetModel;

    open spec fn view(&self) -> NetModel {
        NetModel { node: self.node@, vars: self.vars@ }
    }
}

impl GNet {
    /// A net of `nlen` free nodes and `vlen` free variables.
    pub fn new(nlen: usize, vlen: usize) -> (r: GNet)
        ensures
            r.node@ == Seq::new(nlen as nat, |i: int| Pair(0)),
            r.vars@ == Seq::new(vlen as nat, |i: int| Port(FREE)),
    {
        let mut node: Vec<Pair> = Vec::new();
        while node.len() < nlen
            invariant
                node@.len() <= nlen,
                node@ == Seq::new(node@.len(), |i: int| Pair(0)),
            decreases nlen - node@.len(),
        {
            node.push(Pair(0));
        }
        let mut vars: Vec<Port> = Vec::new();
        while vars.len() < vlen
            invariant
                vars@.len() <= vlen,
                vars@ == Seq::new(vars@.len(), |i: int| Port(FREE)),
            decreases vlen - vars@.len(),
        {
            vars.push(Port(FREE));
        }
        GNet { node, vars }
    }

    /// The net that the device's memory holds: of each node its two words, of each
    /// variable its word.
    pub fn from_device(nodes: &Vec<u32>, vars: &Vec<u32>, heap: u32) -> (r: GNet)
        requires
            nodes@.len() >= 2 * heap,
            vars@.len() >= heap,
        ensures
            r@ == device_net(nodes@, vars@, heap),
    {
        let n = heap as usize;
        let len = nodes.len();
        let mut net = GNet::new(n, n);
        let mut i: usize = 0;
        while i < n
            invariant
                n == heap,
                i <= n,
                len == nodes@.len(),
                len >= 2 * heap,
                vars@.len() >= heap,
                net.node@.len() == heap,
                net.vars@.len() == heap,
                forall|j: int|
                    0 <= j < i ==> #[trigger] net.node@[j] == device_net(nodes@, vars@, heap).node[j],
                forall|j: int|
                    0 <= j < i ==> #[trigger] net.vars@[j] == device_net(nodes@, vars@, heap).vars[j],
            decreases n - i,
        {
            let lo = remap_port(nodes[i * 2], heap);
            let hi = remap_port(nodes[i * 2 + 1], heap);
            net.node_create(i, Pair::new(Port(lo), Port(hi)));
            net.vars_create(i, Port(remap_port(vars[i], heap)));
            i += 1;
        }
        proof {
            assert(net@ =~= device_net(nodes@, vars@, heap));
        }
        net
    }

    /// Puts a node at `loc`.
    pub fn node_create(&mut self, loc: usize, val: Pair)
        requires
            loc < old(self).node@.len(),
        ensures
            final(self).node@ == old(self).node@.update(loc as int, val),
            final(self).vars@ == old(self).vars@,
    {
        self.node.set(loc, val);
    }

    /// Gives the variable `var` the substitution `val`.
    pub fn vars_create(&mut self, var: usize, val: Port)
        requires
            var < old(self).vars@.len(),
        ensures
            final(self).vars@ == old(self).vars@.update(var as int, val),
            final(self).node@ == old(self).node@,
    {
        self.vars.set(var, val);
    }

    /// The node at `loc`.
    pub fn node_load(&self, loc: usize) -> (r: Pair)
        requires
            loc < self.node@.len(),
        ensures
            r == self.node@[loc as int],
    {
        self.node[loc]
    }

    /// The port at the end of the substitutions of `port`; nothing where they
    /// run in a circle or lead to a variable outside the net.
    pub fn try_enter(&self, port: Port) -> (r: Option<Port>)
        ensures
            match r {
                Some(p) => self@.ends(port) && p == self@.entered(port),
                None => !self@.ends(port),
            },
    {
        let mut at = port;
        let mut left = self.vars.len();
        proof {
            if self@.ends(port) {
                self@.lemma_ends_within(port);
            }
        }
        loop
            invariant
                left <= self.vars@.len(),
                self@.follow(port, self.vars@.len()) == self@.follow(at, left as nat),
                self@.ends(port) ==> self@.follow(port, self.vars@.len()) is Some,
            decreases left,
        {
            if at.get_tag() != VAR {
                proof {
                    self@.lemma_entered(port, self.vars@.len());
                }
                return Some(at);
            }
            let var = at.get_val();
            if var as u64 >= self.vars.len() as u64 {
                return None;
            }
            let sub = self.vars[var as usize];
            if sub.0 == NONE || sub.0 == FREE {
                proof {
                    self@.lemma_entered(port, self.vars@.len());
                }
                return Some(at);
            }
            if left == 0 {
                return None;
            }
            at = sub;
            left = left - 1;
        }
    }

    /// The port at the end of the substitutions of `port`.
    pub fn enter(&self, port: Port) -> (r: Port)
        requires
            self@.ends(port),
        ensures
            r == self@.entered(port),
    {
        let mut at = port;
        let ghost n = choose|n: nat| self@.follow(port, n) is Some;
        let ghost mut left: nat = n;
        while at.get_tag() == VAR
            invariant
                self@.follow(port, n) is Some,
                self@.follow(at, left) == self@.follow(port, n),
            ensures
                Some(at) == self@.follow(port, n),
            decreases left,
        {
            let sub = self.vars[at.get_val() as usize];
            if sub.0 == NONE || sub.0 == FREE {
                break;
            }
            at = sub;
            proof {
                left = (left - 1) as nat;
            }
        }
        at
    }
}

} // verus!
