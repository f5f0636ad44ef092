use vstd::prelude::*;

verus! {

/// An IP address as plain values: a v4 address as its 32-bit number, a v6
/// address as its 128-bit number.
#[derive(Clone, Copy, Debug, PartialEq, Eq, Structural, Hash)]
pub enum IpAddr {
    V4(u32),
    V6(u128),
}

impl View for IpAddr {
    type V = IpAddr;

    open spec fn view(&self) -> IpAddr {
        *self
    }
}

/// An IP address together with a port.
#[derive(Clone, Copy, Debug, PartialEq, Eq, Structural, Hash)]
pub struct SocketAddr {
    pub ip: IpAddr,
    pub port: u16,
}

impl SocketAddr {
    pub fn new(ip: IpAddr, port: u16) -> (r: SocketAddr)
        ensures
            r == (SocketAddr { ip, port }),
    {
        SocketAddr { ip, port }
    }

    pub fn ip(&self) -> (r: IpAddr)
        ensures
            r == self.ip,
    {
        self.ip
    }

    pub fn port(&self) -> (r: u16)
        ensures
            r == self.port,
    {
        self.port
    }
}

impl View for SocketAddr {
    type V = SocketAddr;

    open spec fn view(&self) -> SocketAddr {
        *self
    }
}

/// How many elements of `s` have the view `v`.
pub open spec fn count_of<T: View>(s: Seq<T>, v: T::V) -> nat
    decreases s.len(),
{
    if s.len() == 0 {
        0
    } else {
        count_of(s.drop_last(), v) + if s.last()@ == v {
            1nat
        } else {
            0nat
        }
    }
}

/// Whether some element of `s` has the view `v`.
pub open spec fn holds<T: View>(s: Seq<T>, v: T::V) -> bool {
    exists|i: int| 0 <= i < s.len() && #[trigger] s[i]@ == v
}

/// `s` without the elements whose view is `v`, the others in their order.
pub open spec fn remove_all<T: View>(s: Seq<T>, v: T::V) -> Seq<T>
    decreases s.len(),
{
    if s.len() == 0 {
        s
    } else if s.last()@ == v {
        remove_all(s.drop_last(), v)
    } else {
        remove_all(s.drop_last(), v).push(s.last())
    }
}

/// `s` with `x` appended, unless an element with the same view is there.
pub open spec fn push_absent<T: View>(s: Seq<T>, x: T) -> Seq<T> {
    if holds(s, x@) {
        s
    } else {
        s.push(x)
    }
}

pub(crate) proof fn lemma_count_zero_iff_absent<T: View>(s: Seq<T>, v: T::V)
    ensures
        (count_of(s, v) == 0) == !holds(s, v),
    decreases s.len(),
{
    if s.len() > 0 {
        let p = s.drop_last();
        lemma_count_zero_iff_absent(p, v);
        if holds(p, v) {
            let i = choose|i: int| 0 <= i < p.len() && #[trigger] p[i]@ == v;
            assert(s[i]@ == v);
        }
        if holds(s, v) && s.last()@ != v {
            let i = choose|i: int| 0 <= i < s.len() && #[trigger] s[i]@ == v;
            assert(p[i]@ == v);
        }
        if s.last()@ == v {
            assert(s[s.len() - 1]@ == v);
        }
    }
}

pub(crate) proof fn lemma_remove_all_absent<T: View>(s: Seq<T>, v: T::V)
    ensures
        count_of(remove_all(s, v), v) == 0,
    decreases s.len(),
{
    if s.len() > 0 {
        lemma_remove_all_absent(s.drop_last(), v);
        let r = remove_all(s.drop_last(), v);
        if s.last()@ != v {
            assert(r.push(s.last()).drop_last() == r);
        }
    }
}

pub(crate) proof fn lemma_remove_all_idempotent<T: View>(s: Seq<T>, v: T::V)
    ensures
        remove_all(remove_all(s, v), v) == remove_all(s, v),
    decreases s.len(),
{
    if s.len() > 0 {
        lemma_remove_all_idempotent(s.drop_last(), v);
        let r = remove_all(s.drop_last(), v);
        if s.last()@ != v {
            assert(r.push(s.last()).drop_last() == r);
        }
    }
}

pub(crate) proof fn lemma_count_push<T: View>(s: Seq<T>, x: T, v: T::V)
    ensures
        count_of(s.push(x), v) == count_of(s, v) + if x@ == v {
            1nat
        } else {
            0nat
        },
{
    assert(s.push(x).drop_last() == s);
}

pub(crate) proof fn lemma_push_absent<T: View>(s: Seq<T>, x: T)
    ensures
        holds(push_absent(s, x), x@),
        push_absent(push_absent(s, x), x) == push_absent(s, x),
        count_of(push_absent(s, x), x@) == if holds(s, x@) {
            count_of(s, x@)
        } else {
            1
        },
{
    if !holds(s, x@) {
        let t = s.push(x);
        assert(t[s.len() as int]@ == x@);
        lemma_count_zero_iff_absent(s, x@);
        lemma_count_push(s, x, x@);
    }
}

} // verus!
