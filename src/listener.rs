use crate::config::{expand, find_peer_ips, peer_ips, Config};
use crate::net::SocketAddr;
use vstd::prelude::*;
use vstd::string::StrSliceExecFns;

verus! {

/// A reference to a peer's endpoints: the peer's name and a port. Written
/// as `name:port`.
#[derive(Debug)]
pub struct Listener(String, u16);

impl View for Listener {
    type V = (Seq<char>, u16);

    closed spec fn view(&self) -> (Seq<char>, u16) {
        (self.0@, self.1)
    }
}

impl Listener {
    pub fn new(name: String, port: u16) -> (r: Listener)
        ensures
            r@ == (name@, port),
    {
        Listener(name, port)
    }

    pub fn name(&self) -> (r: String)
        ensures
            r@ == self@.0,
    {
        self.0.clone()
    }

    pub fn port(&self) -> (r: u16)
        ensures
            r == self@.1,
    {
        self.1
    }

    /// The socket addresses this listener stands for: each IP of the peer
    /// it names, in order, with its port; `None` where no peer has its name.
    pub fn addr(&self, c: &Config) -> (r: Option<Vec<SocketAddr>>)
        ensures
            r is Some <==> peer_ips(c.peers@, self@.0) is Some,
            r is Some ==> r->0@ == expand(peer_ips(c.peers@, self@.0)->0, self@.1),
    {
        match find_peer_ips(&c.peers, &self.0) {
            Some(ips) => {
                let mut out: Vec<SocketAddr> = Vec::new();
                let mut i: usize = 0;
                while i < ips.len()
                    invariant
                        i <= ips.len(),
                        out@ == expand(ips@.take(i as int), self.1),
                    decreases ips.len() - i,
                {
                    out.push(SocketAddr::new(ips[i], self.1));
                    i += 1;
                    assert(expand(ips@.take(i as int), self.1) =~= expand(
                        ips@.take(i - 1),
                        self.1,
                    ).push(SocketAddr { ip: ips@[i - 1], port: self.1 }));
                }
                assert(ips@.take(ips.len() as int) == ips@);
                Some(out)
            },
            None => None,
        }
    }
}

impl Clone for Listener {
    fn clone(&self) -> (r: Self)
        ensures
            r == *self,
    {
        Listener(self.0.clone(), self.1)
    }
}

impl PartialEq for Listener {
    fn eq(&self, other: &Listener) -> (r: bool)
        ensures
            r == (self@ == other@),
    {
        self.0 == other.0 && self.1 == other.1
    }
}

impl vstd::std_specs::cmp::PartialEqSpecImpl for Listener {
    open spec fn obeys_eq_spec() -> bool {
        true
    }

    open spec fn eq_spec(&self, other: &Listener) -> bool {
        self@ == other@
    }
}

impl Eq for Listener {
}

/// Whether `c` is a decimal digit.
pub open spec fn is_digit(c: char) -> bool {
    '0' <= c <= '9'
}

/// The number that the decimal digits `s` write.
pub open spec fn digits_value(s: Seq<char>) -> int
    decreases s.len(),
{
    if s.len() == 0 {
        0
    } else {
        digits_value(s.drop_last()) * 10 + (s.last() as int - '0' as int)
    }
}

/// The port that `s` writes: an optional `+` then one or more decimal
/// digits whose value fits in 16 bits.
pub open spec fn port_of(s: Seq<char>) -> Option<u16> {
    let d = port_digits(s);
    if d.len() > 0 && all_digits(d) && digits_value(d) <= u16::MAX {
        Some(digits_value(d) as u16)
    } else {
        None
    }
}

/// `s` without a leading `+`.
pub open spec fn port_digits(s: Seq<char>) -> Seq<char> {
    if s.len() > 0 && s[0] == '+' {
        s.drop_first()
    } else {
        s
    }
}

pub open spec fn all_digits(d: Seq<char>) -> bool {
    forall|i: int| 0 <= i < d.len() ==> is_digit(#[trigger] d[i])
}

/// The index of the first `:` of `s`, if any.
pub open spec fn first_colon(s: Seq<char>) -> Option<int>
    decreases s.len(),
{
    if s.len() == 0 {
        None
    } else if s[0] == ':' {
        Some(0)
    } else {
        match first_colon(s.drop_first()) {
            Some(i) => Some(i + 1),
            None => None,
        }
    }
}

/// The listener that `s` writes: the text before the first `:` names the
/// peer, the text after it is the port.
pub open spec fn listener_of(s: Seq<char>) -> Result<(Seq<char>, u16), ListenerError> {
    match first_colon(s) {
        None => Err(ListenerError::MissingPort),
        Some(i) => match port_of(s.subrange(i + 1, s.len() as int)) {
            Some(p) => Ok((s.take(i), p)),
            None => Err(ListenerError::InvalidPort),
        },
    }
}

/// Why a text is not a listener.
#[derive(Clone, Copy, Debug, PartialEq, Eq, Structural)]
pub enum ListenerError {
    /// The text has no `:`.
    MissingPort,
    /// The text after the first `:` is no port.
    InvalidPort,
}

fn parse_port(s: &str) -> (r: Option<u16>)
    ensures
        r == port_of(s@),
{
    let n = s.unicode_len();
    let mut start: usize = 0;
    if n > 0 && s.get_char(0) == '+' {
        start = 1;
    }
    let ghost d = port_digits(s@);
    assert(d == s@.subrange(start as int, n as int));
    if start >= n {
        return None;
    }
    let mut value: u32 = 0;
    let mut i: usize = start;
    while i < n
        invariant
            start <= i <= n,
            n == s@.len(),
            d == s@.subrange(start as int, n as int),
            d == port_digits(s@),
            forall|j: int| 0 <= j < i - start ==> is_digit(#[trigger] d[j]),
            value == digits_value(d.take(i - start)),
            value <= u16::MAX,
        decreases n - i,
    {
        let c = s.get_char(i);
        assert(d[i - start] == c);
        assert(d.take(i + 1 - start).last() == c);
        if c < '0' || c > '9' {
            assert(!is_digit(d[i - start]));
            assert(!all_digits(d));
            return None;
        }
        assert(d.take(i + 1 - start).drop_last() == d.take(i - start));
        let next: u32 = value * 10 + (c as u32 - '0' as u32);
        if next > 65535 {
            proof {
                assert(digits_value(d.take(i + 1 - start)) == next);
                if all_digits(d) {
                    lemma_digits_value_prefix(d, i + 1 - start);
                }
            }
            return None;
        }
        value = next;
        i += 1;
    }
    assert(d.take(n - start) == d);
    Some(value as u16)
}

proof fn lemma_digits_value_prefix(d: Seq<char>, k: int)
    requires
        0 <= k <= d.len(),
        forall|j: int| 0 <= j < d.len() ==> is_digit(#[trigger] d[j]),
    ensures
        0 <= digits_value(d.take(k)) <= digits_value(d),
    decreases d.len(),
{
    if k == d.len() {
        assert(d.take(k) == d);
        if d.len() > 0 {
            lemma_digits_value_prefix(d.drop_last(), k - 1);
            assert(d.drop_last().take(k - 1) == d.drop_last());
            assert(is_digit(d[d.len() - 1]));
        }
    } else {
        let p = d.drop_last();
        lemma_digits_value_prefix(p, k);
        lemma_digits_value_prefix(p, p.len() as int);
        assert(p.take(k) == d.take(k));
        assert(p.take(p.len() as int) == p);
        assert(is_digit(d[d.len() - 1]));
    }
}

/// The character of decimal digit `d`.
pub open spec fn digit_char(d: nat) -> char {
    if d == 0 {
        '0'
    } else if d == 1 {
        '1'
    } else if d == 2 {
        '2'
    } else if d == 3 {
        '3'
    } else if d == 4 {
        '4'
    } else if d == 5 {
        '5'
    } else if d == 6 {
        '6'
    } else if d == 7 {
        '7'
    } else if d == 8 {
        '8'
    } else {
        '9'
    }
}

/// `n` written in decimal, with no leading zero.
pub open spec fn decimal(n: nat) -> Seq<char>
    decreases n,
{
    if n < 10 {
        seq![digit_char(n)]
    } else {
        decimal(n / 10).push(digit_char(n % 10))
    }
}

/// The text of a listener: its peer name, `:`, its port in decimal.
pub open spec fn listener_text(l: (Seq<char>, u16)) -> Seq<char> {
    l.0 + seq![':'] + decimal(l.1 as nat)
}

fn digit_str(d: u16) -> (r: &'static str)
    requires
        d < 10,
    ensures
        r@ == seq![digit_char(d as nat)],
{
    proof {
        reveal_strlit("0");
        reveal_strlit("1");
        reveal_strlit("2");
        reveal_strlit("3");
        reveal_strlit("4");
        reveal_strlit("5");
        reveal_strlit("6");
        reveal_strlit("7");
        reveal_strlit("8");
        reveal_strlit("9");
    }
    let r = if d == 0 {
        "0"
    } else if d == 1 {
        "1"
    } else if d == 2 {
        "2"
    } else if d == 3 {
        "3"
    } else if d == 4 {
        "4"
    } else if d == 5 {
        "5"
    } else if d == 6 {
        "6"
    } else if d == 7 {
        "7"
    } else if d == 8 {
        "8"
    } else {
        "9"
    };
    assert(r@ =~= seq![digit_char(d as nat)]);
    r
}

fn append_decimal(s: &mut String, n: u16)
    ensures
        final(s)@ == old(s)@ + decimal(n as nat),
    decreases n,
{
    if n >= 10 {
        append_decimal(s, n / 10);
    }
    let ghost mid = s@;
    s.append(digit_str(n % 10));
    assert(s@ =~= old(s)@ + decimal(n as nat));
}

proof fn lemma_first_colon(s: Seq<char>, i: int)
    requires
        0 <= i <= s.len(),
        forall|j: int| 0 <= j < i ==> s[j] != ':',
        i < s.len() ==> s[i] == ':',
    ensures
        first_colon(s) == if i < s.len() {
            Some(i)
        } else {
            None::<int>
        },
    decreases i,
{
    if i > 0 {
        assert forall|j: int| 0 <= j < i - 1 implies s.drop_first()[j] != ':' by {
            assert(s.drop_first()[j] == s[j + 1]);
        }
        lemma_first_colon(s.drop_first(), i - 1);
        assert(s[0] != ':');
    }
}

proof fn lemma_digit_char(d: nat)
    requires
        d < 10,
    ensures
        digit_char(d) as int == '0' as int + d,
        is_digit(digit_char(d)),
{
}

proof fn lemma_decimal_port(n: nat)
    requires
        n <= u16::MAX,
    ensures
        decimal(n).len() > 0,
        decimal(n)[0] != '+',
        decimal(n)[0] != ':',
        all_digits(decimal(n)),
        forall|j: int| 0 <= j < decimal(n).len() ==> #[trigger] decimal(n)[j] != ':',
        digits_value(decimal(n)) == n,
        port_of(decimal(n)) == Some(n as u16),
    decreases n,
{
    lemma_digit_char(n % 10);
    if n < 10 {
        assert(decimal(n).drop_last() =~= Seq::<char>::empty());
        assert(n % 10 == n);
        assert(digits_value(Seq::<char>::empty()) == 0);
        assert(decimal(n).last() == digit_char(n));
        assert(digits_value(decimal(n)) == n);
        assert(port_digits(decimal(n)) == decimal(n));
    }
    if n >= 10 {
        lemma_decimal_port(n / 10);
        let p = decimal(n / 10);
        assert(decimal(n).drop_last() == p);
        assert(decimal(n)[0] == p[0]);
        assert forall|j: int| 0 <= j < decimal(n).len() implies is_digit(#[trigger] decimal(n)[j]) by {
            if j < p.len() {
                assert(decimal(n)[j] == p[j]);
                assert(is_digit(p[j]));
            }
        }
        vstd::arithmetic::div_mod::lemma_fundamental_div_mod(n as int, 10);
        assert(decimal(n).last() == digit_char(n % 10));
        assert(digits_value(decimal(n)) == digits_value(p) * 10 + (n % 10));
        assert(digits_value(decimal(n)) == n);
        assert(port_digits(decimal(n)) == decimal(n));
    }
}

/// A listener whose peer name holds no `:` reads back from its text as
/// itself.
pub proof fn lemma_listener_text_round_trip(l: (Seq<char>, u16))
    requires
        forall|j: int| 0 <= j < l.0.len() ==> #[trigger] l.0[j] != ':',
    ensures
        listener_of(listener_text(l)) == Ok::<(Seq<char>, u16), ListenerError>(l),
{
    let t = listener_text(l);
    let i = l.0.len() as int;
    lemma_decimal_port(l.1 as nat);
    assert forall|j: int| 0 <= j < i implies t[j] != ':' by {
        assert(t[j] == l.0[j]);
    }
    assert(t[i] == ':');
    lemma_first_colon(t, i);
    assert(t.subrange(i + 1, t.len() as int) =~= decimal(l.1 as nat));
    assert(t.take(i) =~= l.0);
}

impl Listener {
    /// Reads a listener from its text `name:port`.
    pub fn parse(s: &str) -> (r: Result<Listener, ListenerError>)
        ensures
            match r {
                Ok(l) => listener_of(s@) == Ok::<(Seq<char>, u16), ListenerError>(l@),
                Err(e) => listener_of(s@) == Err::<(Seq<char>, u16), ListenerError>(e),
            },
    {
        let n = s.unicode_len();
        let mut i: usize = 0;
        while i < n
            invariant
                i <= n,
                n == s@.len(),
                forall|j: int| 0 <= j < i ==> s@[j] != ':',
            ensures
                i < n ==> s@[i as int] == ':',
            decreases n - i,
        {
            if s.get_char(i) == ':' {
                break;
            }
            i += 1;
        }
        proof {
            lemma_first_colon(s@, i as int);
        }
        if i == n {
            return Err(ListenerError::MissingPort);
        }
        let name = s.substring_char(0, i).to_owned();
        let rest = s.substring_char(i + 1, n);
        match parse_port(rest) {
            Some(port) => {
                assert(name@ =~= s@.take(i as int));
                Ok(Listener(name, port))
            },
            None => Err(ListenerError::InvalidPort),
        }
    }

    /// The text of the listener, `name:port`.
    pub fn to_text(&self) -> (r: String)
        ensures
            r@ == listener_text(self@),
    {
        let mut text = self.0.clone();
        text.append(":");
        proof {
            reveal_strlit(":");
        }
        append_decimal(&mut text, self.1);
        text
    }
}

} // verus!
