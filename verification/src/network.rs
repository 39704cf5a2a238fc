//! The address under which a phone reaches this computer.
use crate::text::{
    decimal, decimal_is_digits, decimal_is_injective, decimal_reads_back, decimal_text,
    decimal_value,
};
use vstd::prelude::*;
#[allow(unused_imports)]
use vstd::string::*;

verus! {

/// An IPv4 address. The server listens on IPv4, and the sockets that find out the
/// computer's own address are IPv4 sockets.
#[derive(Clone, Copy, Debug, PartialEq, Eq, Structural)]
pub struct HostAddr {
    pub a: u8,
    pub b: u8,
    pub c: u8,
    pub d: u8,
}

impl HostAddr {
    /// Whether the address is one of 127.0.0.0/8.
    pub open spec fn loopback(self) -> bool {
        self.a == 127
    }

    /// Whether the address is 0.0.0.0.
    pub open spec fn unspecified(self) -> bool {
        self.a == 0 && self.b == 0 && self.c == 0 && self.d == 0
    }

    /// Whether another computer can use the address.
    pub open spec fn usable(self) -> bool {
        !self.loopback() && !self.unspecified()
    }

    fn is_usable(self) -> (r: bool)
        ensures
            r == self.usable(),
    {
        self.a != 127 && !(self.a == 0 && self.b == 0 && self.c == 0 && self.d == 0)
    }
}

/// The address that is used where none is found: 127.0.0.1.
pub open spec fn fallback_addr() -> HostAddr {
    HostAddr { a: 127, b: 0, c: 0, d: 1 }
}

/// The public addresses towards which a socket is directed, in turn, to learn the address
/// of the outgoing interface.
pub open spec fn probe_targets() -> Seq<Seq<char>> {
    seq!["8.8.8.8:80"@, "1.1.1.1:80"@, "223.5.5.5:80"@]
}

/// Whether `probe` can report `answer` for a target.
pub open spec fn reported<F: Fn(&str) -> Option<HostAddr>>(
    probe: F,
    target: Seq<char>,
    answer: Option<HostAddr>,
) -> bool {
    exists|t: &str| t@ == target && #[trigger] probe.ensures((t,), answer)
}

/// Whether `probe` can report nothing usable for a target.
pub open spec fn reported_nothing_usable<F: Fn(&str) -> Option<HostAddr>>(
    probe: F,
    target: Seq<char>,
) -> bool {
    exists|answer: Option<HostAddr>| #[trigger]
        reported(probe, target, answer) && (answer matches Some(addr) ==> !addr.usable())
}

/// Whether `found` is what the search for the own address ends with, by the reports of
/// `probe`: the first usable address, or nothing where no target gave one.
pub open spec fn search_ends_with<F: Fn(&str) -> Option<HostAddr>>(
    probe: F,
    found: Option<HostAddr>,
) -> bool {
    match found {
        Some(addr) => addr.usable() && exists|k: int|
            {
                &&& 0 <= k < probe_targets().len()
                &&& reported(probe, #[trigger] probe_targets()[k], Some(addr))
                &&& forall|j: int|
                    0 <= j < k ==> reported_nothing_usable(probe, #[trigger] probe_targets()[j])
            },
        None => forall|j: int|
            0 <= j < probe_targets().len() ==> reported_nothing_usable(
                probe,
                #[trigger] probe_targets()[j],
            ),
    }
}

/// The computer's address in the local network: asks `probe`, for each target in turn,
/// which own address a socket directed there has, and takes the first usable one.
pub fn local_ip<F: Fn(&str) -> Option<HostAddr>>(probe: F) -> (r: Option<HostAddr>)
    requires
        forall|t: &str| #[trigger] probe.requires((t,)),
    ensures
        search_ends_with(probe, r),
{
    let targets: [&str; 3] = ["8.8.8.8:80", "1.1.1.1:80", "223.5.5.5:80"];
    let mut i: usize = 0;
    while i < 3
        invariant
            i <= 3,
            targets@.len() == 3,
            forall|j: int| 0 <= j < 3 ==> (#[trigger] targets@[j])@ == probe_targets()[j],
            forall|t: &str| #[trigger] probe.requires((t,)),
            forall|j: int|
                0 <= j < i ==> reported_nothing_usable(probe, #[trigger] probe_targets()[j]),
        decreases 3 - i,
    {
        let target = targets[i];
        let answer = probe(target);
        proof {
            assert(target@ == probe_targets()[i as int]);
            assert(reported(probe, probe_targets()[i as int], answer));
        }
        match answer {
            Some(addr) => {
                if addr.is_usable() {
                    return Some(addr);
                }
            },
            None => {},
        }
        i = i + 1;
    }
    None
}

/// An address in dotted decimal notation.
pub open spec fn dotted(addr: HostAddr) -> Seq<char> {
    decimal(addr.a as nat) + seq!['.'] + decimal(addr.b as nat) + seq!['.'] + decimal(addr.c as nat)
        + seq!['.'] + decimal(addr.d as nat)
}

/// The URL of the server at the given address and port.
pub open spec fn url_of(addr: HostAddr, port: u16) -> Seq<char> {
    "http://"@ + dotted(addr) + seq![':'] + decimal(port as nat) + seq!['/']
}

/// The URL under which the server is reached.
pub fn server_url(found: Option<HostAddr>, port: u16) -> (r: String)
    ensures
        r@ == url_of(
            match found {
                Some(addr) => addr,
                None => fallback_addr(),
            },
            port,
        ),
{
    let addr = match found {
        Some(addr) => addr,
        None => HostAddr { a: 127, b: 0, c: 0, d: 1 },
    };
    let mut url = "http://".to_owned();
    url.append(decimal_text(addr.a as u64).as_str());
    url.push('.');
    url.append(decimal_text(addr.b as u64).as_str());
    url.push('.');
    url.append(decimal_text(addr.c as u64).as_str());
    url.push('.');
    url.append(decimal_text(addr.d as u64).as_str());
    url.push(':');
    url.append(decimal_text(port as u64).as_str());
    url.push('/');
    proof {
        assert(url@ =~= url_of(addr, port));
    }
    url
}

// ---------------------------------------------------------------------------
// What the URL guarantees
// ---------------------------------------------------------------------------

/// Where the reports of `probe` depend on the target alone, the search finds the first
/// usable one of them.
pub proof fn search_finds_the_first_usable_address<F: Fn(&str) -> Option<HostAddr>>(
    probe: F,
    found: Option<HostAddr>,
    report: spec_fn(Seq<char>) -> Option<HostAddr>,
    k: int,
)
    requires
        search_ends_with(probe, found),
        forall|t: &str, answer: Option<HostAddr>| #[trigger]
            probe.ensures((t,), answer) ==> answer == report(t@),
        0 <= k < probe_targets().len(),
        report(probe_targets()[k]) matches Some(addr) && addr.usable(),
        forall|j: int|
            0 <= j < k ==> (report(#[trigger] probe_targets()[j]) matches Some(addr)
                ==> !addr.usable()),
    ensures
        found == report(probe_targets()[k]),
{
    if found is None {
        assert(reported_nothing_usable(probe, probe_targets()[k]));
        assert(false);
    } else {
        let addr = found->Some_0;
        let m = choose|m: int|
            {
                &&& 0 <= m < probe_targets().len()
                &&& reported(probe, #[trigger] probe_targets()[m], Some(addr))
                &&& forall|j: int|
                    0 <= j < m ==> reported_nothing_usable(probe, #[trigger] probe_targets()[j])
            };
        assert(report(probe_targets()[m]) == Some(addr));
        if k < m {
            assert(reported_nothing_usable(probe, probe_targets()[k]));
            assert(false);
        }
        assert(k == m);
    }
}

proof fn split_at_separator(a: Seq<char>, b: Seq<char>, c: Seq<char>, d: Seq<char>, sep: char)
    requires
        a + seq![sep] + b == c + seq![sep] + d,
        forall|i: int| 0 <= i < a.len() ==> #[trigger] a[i] != sep,
        forall|i: int| 0 <= i < c.len() ==> #[trigger] c[i] != sep,
    ensures
        a == c,
        b == d,
{
    let s = a + seq![sep] + b;
    let t = c + seq![sep] + d;
    assert(s[a.len() as int] == sep);
    assert(t[c.len() as int] == sep);
    if a.len() < c.len() {
        assert(t[a.len() as int] == c[a.len() as int]);
    }
    if c.len() < a.len() {
        assert(s[c.len() as int] == a[c.len() as int]);
    }
    assert(a =~= s.take(a.len() as int));
    assert(c =~= t.take(c.len() as int));
    assert(b =~= s.skip(a.len() as int + 1));
    assert(d =~= t.skip(c.len() as int + 1));
}

proof fn split_off_number(m: nat, rest: Seq<char>, n: nat, rest2: Seq<char>, sep: char)
    requires
        decimal(m) + seq![sep] + rest == decimal(n) + seq![sep] + rest2,
        sep < '0' || sep > '9',
    ensures
        m == n,
        rest == rest2,
{
    decimal_is_digits(m);
    decimal_is_digits(n);
    split_at_separator(decimal(m), rest, decimal(n), rest2, sep);
    decimal_is_injective(m, n);
}

/// The URL without its scheme, as one number after the other.
spec fn numbers_of(addr: HostAddr, port: u16) -> Seq<char> {
    decimal(addr.a as nat) + seq!['.'] + (decimal(addr.b as nat) + seq!['.'] + (decimal(
        addr.c as nat,
    ) + seq!['.'] + (decimal(addr.d as nat) + seq![':'] + (decimal(port as nat) + seq!['/']
        + Seq::empty()))))
}

proof fn url_is_numbers(addr: HostAddr, port: u16)
    ensures
        url_of(addr, port).skip("http://"@.len() as int) == numbers_of(addr, port),
{
    assert(url_of(addr, port).skip("http://"@.len() as int) =~= numbers_of(addr, port));
}

/// A URL leads to one address and one port: no two servers share a URL.
pub proof fn url_names_one_server(addr: HostAddr, port: u16, addr2: HostAddr, port2: u16)
    requires
        url_of(addr, port) == url_of(addr2, port2),
    ensures
        addr == addr2,
        port == port2,
{
    url_is_numbers(addr, port);
    url_is_numbers(addr2, port2);
    let r4 = decimal(port as nat) + seq!['/'] + Seq::empty();
    let r3 = decimal(addr.d as nat) + seq![':'] + r4;
    let r2 = decimal(addr.c as nat) + seq!['.'] + r3;
    let r1 = decimal(addr.b as nat) + seq!['.'] + r2;
    let q4 = decimal(port2 as nat) + seq!['/'] + Seq::empty();
    let q3 = decimal(addr2.d as nat) + seq![':'] + q4;
    let q2 = decimal(addr2.c as nat) + seq!['.'] + q3;
    let q1 = decimal(addr2.b as nat) + seq!['.'] + q2;
    split_off_number(addr.a as nat, r1, addr2.a as nat, q1, '.');
    split_off_number(addr.b as nat, r2, addr2.b as nat, q2, '.');
    split_off_number(addr.c as nat, r3, addr2.c as nat, q3, '.');
    split_off_number(addr.d as nat, r4, addr2.d as nat, q4, ':');
    split_off_number(port as nat, Seq::empty(), port2 as nat, Seq::empty(), '/');
}

/// An address is usable exactly if it is not of the computer itself, 127 followed by
/// anything, and not the one that stands for none.
pub proof fn usable_address_is_not_local(addr: HostAddr)
    ensures
        addr.usable() == (addr.a != 127 && (addr.a != 0 || addr.b != 0 || addr.c != 0 || addr.d
            != 0)),
{
}

/// The address found is the first usable one that the three targets give, in their order;
/// there is none only where none of them gives one.
pub proof fn address_is_the_first_usable_one<F: Fn(&str) -> Option<HostAddr>>(
    probe: F,
    r: Option<HostAddr>,
    report: spec_fn(Seq<char>) -> Option<HostAddr>,
)
    requires
        call_ensures(local_ip::<F>, (probe,), r),
        forall|t: &str, answer: Option<HostAddr>| #[trigger]
            probe.ensures((t,), answer) ==> answer == report(t@),
    ensures
        ({
            let good = |answer: Option<HostAddr>|
                answer matches Some(x) && x.a != 127 && (x.a != 0 || x.b != 0 || x.c != 0 || x.d
                    != 0);
            let first = report("8.8.8.8:80"@);
            let second = report("1.1.1.1:80"@);
            let third = report("223.5.5.5:80"@);
            r == if good(first) {
                first
            } else if good(second) {
                second
            } else if good(third) {
                third
            } else {
                None
            }
        }),
{
    let targets = probe_targets();
    assert(targets[0] == "8.8.8.8:80"@ && targets[1] == "1.1.1.1:80"@ && targets[2]
        == "223.5.5.5:80"@ && targets.len() == 3);
    if r is None {
        assert(reported_nothing_usable(probe, targets[0]));
        assert(reported_nothing_usable(probe, targets[1]));
        assert(reported_nothing_usable(probe, targets[2]));
    } else {
        let addr = r->Some_0;
        let k = choose|k: int|
            {
                &&& 0 <= k < probe_targets().len()
                &&& reported(probe, #[trigger] probe_targets()[k], Some(addr))
                &&& forall|j: int|
                    0 <= j < k ==> reported_nothing_usable(probe, #[trigger] probe_targets()[j])
            };
        assert(report(targets[k]) == Some(addr));
        if k > 0 {
            assert(reported_nothing_usable(probe, targets[0]));
        }
        if k > 1 {
            assert(reported_nothing_usable(probe, targets[1]));
        }
    }
}

/// Whether a text is a number written out: digits, with no zero before another digit, that
/// read back as the number.
pub open spec fn writes_out(s: Seq<char>, n: int) -> bool {
    &&& s.len() > 0
    &&& forall|i: int| 0 <= i < s.len() ==> '0' <= #[trigger] s[i] <= '9'
    &&& s.len() > 1 ==> s[0] != '0'
    &&& decimal_value(s) == n
}

/// Whether a URL is made of four parts of an address, with dots between them, and a port.
pub open spec fn made_of(
    url: Seq<char>,
    a: Seq<char>,
    b: Seq<char>,
    c: Seq<char>,
    d: Seq<char>,
    p: Seq<char>,
) -> bool {
    url == "http://"@ + a + seq!['.'] + b + seq!['.'] + c + seq!['.'] + d + seq![':'] + p + seq![
        '/',
    ]
}

proof fn decimal_writes_out(n: nat)
    ensures
        writes_out(decimal(n), n as int),
{
    decimal_is_digits(n);
    decimal_reads_back(n);
}

/// The URL reads back as the address and the port: the scheme, four numbers with dots
/// between them, a colon, the port, and a slash; 127.0.0.1 where no address was found.
pub proof fn url_reads_back(found: Option<HostAddr>, port: u16, r: String)
    requires
        call_ensures(server_url, (found, port), r),
    ensures
        exists|a: Seq<char>, b: Seq<char>, c: Seq<char>, d: Seq<char>, p: Seq<char>|
            {
                &&& #[trigger] made_of(r@, a, b, c, d, p)
                &&& found matches Some(addr) ==> writes_out(a, addr.a as int) && writes_out(
                    b,
                    addr.b as int,
                ) && writes_out(c, addr.c as int) && writes_out(d, addr.d as int)
                &&& found is None ==> writes_out(a, 127) && writes_out(b, 0) && writes_out(c, 0)
                    && writes_out(d, 1)
                &&& writes_out(p, port as int)
            },
{
    let addr = match found {
        Some(addr) => addr,
        None => fallback_addr(),
    };
    let a = decimal(addr.a as nat);
    let b = decimal(addr.b as nat);
    let c = decimal(addr.c as nat);
    let d = decimal(addr.d as nat);
    let p = decimal(port as nat);
    decimal_writes_out(addr.a as nat);
    decimal_writes_out(addr.b as nat);
    decimal_writes_out(addr.c as nat);
    decimal_writes_out(addr.d as nat);
    decimal_writes_out(port as nat);
    assert("http://"@ + dotted(addr) + seq![':'] + p + seq!['/'] =~= "http://"@ + a + seq!['.'] + b
        + seq!['.'] + c + seq!['.'] + d + seq![':'] + p + seq!['/']);
    assert(made_of(r@, a, b, c, d, p));
}

} // verus!
