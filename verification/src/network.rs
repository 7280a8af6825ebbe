//! Addresses: the endpoints that the proxy listens on and forwards to.

use crate::formatter::decimal;
use crate::formatter::decimal_string;
use vstd::prelude::*;

verus! {

/// A transport endpoint.
#[derive(Debug, Clone, PartialEq, Eq, Hash)]
pub enum Address {
    /// A TCP endpoint, `host:port`.
    Inet(String),
    /// A local socket, by its path.
    Unix(String),
    /// A bare port, which stands for both a local socket and a TCP endpoint.
    PortOnly(u16),
}

/// The mathematical value of an [`Address`].
pub enum AddressView {
    Inet(Seq<char>),
    Unix(Seq<char>),
    PortOnly(u16),
}

impl View for Address {
    type V = AddressView;

    open spec fn view(&self) -> AddressView {
        match self {
            Address::Inet(a) => AddressView::Inet(a@),
            Address::Unix(p) => AddressView::Unix(p@),
            Address::PortOnly(n) => AddressView::PortOnly(*n),
        }
    }
}

/// The views of a sequence of addresses, in order.
pub open spec fn address_views(addresses: Seq<Address>) -> Seq<AddressView> {
    addresses.map_values(|a: Address| a@)
}

/// An address string that has none of the three shapes.
#[derive(Debug, Clone, PartialEq, Eq)]
pub struct InvalidAddress {
    pub text: String,
}

impl InvalidAddress {
    /// The message of the error: what was rejected.
    pub fn message(&self) -> (m: String)
        ensures
            m@ == "invalid address: "@ + self.text@,
    {
        let mut m = String::from_str("invalid address: ");
        m.append(self.text.as_str());
        m
    }
}

/// The separator that makes a string a path.
pub const SEPARATOR: char = '/';

/// The value of the ASCII digit `c`.
pub open spec fn digit_value(c: char) -> nat
    recommends
        is_digit(c),
{
    (c as u32 - 0x30) as nat
}

/// `c` is one of the ASCII digits.
pub open spec fn is_digit(c: char) -> bool {
    0x30 <= c as u32 <= 0x39
}

/// Every character of `s` is an ASCII digit.
pub open spec fn all_digits(s: Seq<char>) -> bool {
    forall|i: int| 0 <= i < s.len() ==> is_digit(#[trigger] s[i])
}

/// The number that the digits `s` write in decimal.
pub open spec fn decimal_value(s: Seq<char>) -> nat
    decreases s.len(),
{
    if s.len() == 0 {
        0
    } else {
        10 * decimal_value(s.drop_last()) + digit_value(s.last())
    }
}

/// The digits of a number that may carry a plus sign in front.
pub open spec fn unsigned_digits(s: Seq<char>) -> Seq<char> {
    if s.len() > 0 && s[0] == '+' {
        s.skip(1)
    } else {
        s
    }
}

/// The port that `s` writes: one or more decimal digits, after an optional
/// plus sign, whose value fits in sixteen bits.
pub open spec fn port_number(s: Seq<char>) -> Option<u16> {
    let digits = unsigned_digits(s);
    if digits.len() > 0 && all_digits(digits) && decimal_value(digits) <= 0xffff {
        Some(decimal_value(digits) as u16)
    } else {
        None
    }
}

/// The address that `s` names, where `resolves` says whether the resolver
/// takes `s` for a `host:port`; nothing where `s` has none of the three
/// shapes.
pub open spec fn parsed_address(s: Seq<char>, resolves: bool) -> Option<AddressView> {
    if s.contains(SEPARATOR) {
        Some(AddressView::Unix(s))
    } else if resolves {
        Some(AddressView::Inet(s))
    } else {
        match port_number(s) {
            Some(n) => Some(AddressView::PortOnly(n)),
            None => None,
        }
    }
}

/// A longer run of digits writes a number that is no smaller.
proof fn lemma_decimal_value_grows(s: Seq<char>, k: int)
    requires
        0 <= k <= s.len(),
    ensures
        decimal_value(s.take(k)) <= decimal_value(s),
    decreases s.len() - k,
{
    if k == s.len() {
        assert(s.take(k) =~= s);
    } else {
        lemma_decimal_value_grows(s, k + 1);
        assert(s.take(k + 1).drop_last() =~= s.take(k));
    }
}

/// Whether `s` holds the path separator.
pub fn has_separator(s: &str) -> (found: bool)
    ensures
        found == s@.contains(SEPARATOR),
{
    broadcast use vstd::string::axiom_spec_iter;

    let mut found: bool = false;
    for c in it: s.chars()
        invariant
            it.seq() == s@,
            found <==> exists|j: int| 0 <= j < it.index() && s@[j] == SEPARATOR,
    {
        if c == SEPARATOR {
            found = true;
        }
    }
    found
}

/// Reads `s` as a port number.
pub fn parse_port(s: &str) -> (port: Option<u16>)
    ensures
        port == port_number(s@),
{
    broadcast use vstd::string::axiom_spec_iter;

    let ghost digits = unsigned_digits(s@);
    let ghost shift: int = s@.len() - digits.len();
    let ghost mut count: int = 0;
    let mut value: u32 = 0;
    let mut first: bool = true;
    let mut seen: bool = false;
    let mut valid: bool = true;
    assert(digits.take(0) =~= Seq::<char>::empty());
    for c in it: s.chars()
        invariant
            it.seq() == s@,
            digits == unsigned_digits(s@),
            shift == s@.len() - digits.len(),
            first <==> it.index() == 0,
            first ==> count == 0 && valid && value == 0,
            !first ==> count == it.index() - shift,
            0 <= count <= digits.len(),
            seen <==> count > 0,
            valid ==> all_digits(digits.take(count)) && value == decimal_value(digits.take(count))
                && value <= 0xffff,
            !valid ==> !all_digits(digits) || decimal_value(digits) > 0xffff,
    {
        if first && c == '+' {
            first = false;
        } else {
            first = false;
            let u: u32 = c as u32;
            assert(digits[count] == c);
            assert(digits.take(count + 1).drop_last() =~= digits.take(count));
            if valid {
                if 0x30 <= u && u <= 0x39 {
                    let next: u32 = 10 * value + (u - 0x30);
                    proof {
                        assert(all_digits(digits.take(count + 1))) by {
                            assert forall|i: int| 0 <= i < count + 1 implies is_digit(
                                #[trigger] digits.take(count + 1)[i],
                            ) by {
                                if i < count {
                                    assert(digits.take(count + 1)[i] == digits.take(count)[i]);
                                }
                            }
                        }
                        assert(next == decimal_value(digits.take(count + 1)));
                        if next > 0xffff && all_digits(digits) {
                            lemma_decimal_value_grows(digits, count + 1);
                        }
                    }
                    if next > 0xffff {
                        valid = false;
                    } else {
                        value = next;
                    }
                } else {
                    valid = false;
                }
            }
            seen = true;
            proof {
                count = count + 1;
            }
        }
    }
    assert(digits.take(count) =~= digits);
    if valid && seen {
        Some(value as u16)
    } else {
        None
    }
}

impl Address {
    /// Classifies `s` by its shape: a string with a path separator is a
    /// local socket; one that resolves as `host:port` is a TCP endpoint; a
    /// port number is a bare port.  `resolves` is the resolver's verdict on
    /// `s`; it is not looked at where `s` is a path.
    pub fn parse(s: &str, resolves: bool) -> (r: Result<Address, InvalidAddress>)
        ensures
            match parsed_address(s@, resolves) {
                Some(a) => r is Ok && r->Ok_0@ == a,
                None => r is Err && r->Err_0.text@ == s@,
            },
    {
        if has_separator(s) {
            Ok(Address::Unix(String::from_str(s)))
        } else if resolves {
            Ok(Address::Inet(String::from_str(s)))
        } else {
            match parse_port(s) {
                Some(n) => Ok(Address::PortOnly(n)),
                None => Err(InvalidAddress { text: String::from_str(s) }),
            }
        }
    }

    /// The TCP endpoint that the address stands for, if any: a bare port
    /// means that port on `localhost`.
    pub open spec fn spec_to_inet(self) -> Option<AddressView> {
        match self@ {
            AddressView::Inet(a) => Some(AddressView::Inet(a)),
            AddressView::Unix(_) => None,
            AddressView::PortOnly(n) => Some(AddressView::Inet("localhost:"@ + decimal(n as nat))),
        }
    }

    /// The local socket that the address stands for, if any: a bare port
    /// means the socket that a server on that port keeps under `/tmp`.
    pub open spec fn spec_to_unix(self) -> Option<AddressView> {
        match self@ {
            AddressView::Inet(_) => None,
            AddressView::Unix(p) => Some(AddressView::Unix(p)),
            AddressView::PortOnly(n) => Some(
                AddressView::Unix("/tmp/.s.monetdb."@ + decimal(n as nat)),
            ),
        }
    }

    /// The endpoints to try for the address, in order: the local socket
    /// first, then the TCP endpoint.
    pub open spec fn spec_expand(self) -> Seq<AddressView> {
        (match self.spec_to_unix() {
            Some(u) => seq![u],
            None => Seq::empty(),
        }) + (match self.spec_to_inet() {
            Some(i) => seq![i],
            None => Seq::empty(),
        })
    }

    /// The TCP endpoint that the address stands for, if any.
    pub fn to_inet(&self) -> (r: Option<Address>)
        ensures
            match self.spec_to_inet() {
                Some(a) => r is Some && r->0@ == a,
                None => r is None,
            },
    {
        match self {
            Address::Inet(a) => Some(Address::Inet(a.clone())),
            Address::Unix(_) => None,
            Address::PortOnly(n) => {
                let mut s = String::from_str("localhost:");
                let port = decimal_string(*n as usize);
                s.append(port.as_str());
                Some(Address::Inet(s))
            },
        }
    }

    /// The local socket that the address stands for, if any.
    pub fn to_unix(&self) -> (r: Option<Address>)
        ensures
            match self.spec_to_unix() {
                Some(a) => r is Some && r->0@ == a,
                None => r is None,
            },
    {
        match self {
            Address::Inet(_) => None,
            Address::Unix(p) => Some(Address::Unix(p.clone())),
            Address::PortOnly(n) => {
                let mut s = String::from_str("/tmp/.s.monetdb.");
                let port = decimal_string(*n as usize);
                s.append(port.as_str());
                Some(Address::Unix(s))
            },
        }
    }

    /// The endpoints to try for the address, the local socket first.
    pub fn expand(&self) -> (r: Vec<Address>)
        ensures
            address_views(r@) == self.spec_expand(),
    {
        let mut r: Vec<Address> = Vec::new();
        if let Some(u) = self.to_unix() {
            r.push(u);
        }
        if let Some(i) = self.to_inet() {
            r.push(i);
        }
        assert(address_views(r@) =~= self.spec_expand());
        r
    }

    /// Whether the address is a local socket.
    pub fn is_unix(&self) -> (b: bool)
        ensures
            b == (self@ is Unix),
    {
        match self {
            Address::Unix(_) => true,
            _ => false,
        }
    }

    /// The address as it is written: the endpoint, the path, or the port in
    /// decimal.
    pub open spec fn spec_text(self) -> Seq<char> {
        match self@ {
            AddressView::Inet(a) => a,
            AddressView::Unix(p) => p,
            AddressView::PortOnly(n) => decimal(n as nat),
        }
    }

    /// The address as it is written.
    pub fn to_text(&self) -> (s: String)
        ensures
            s@ == self.spec_text(),
    {
        match self {
            Address::Inet(a) => a.clone(),
            Address::Unix(p) => p.clone(),
            Address::PortOnly(n) => decimal_string(*n as usize),
        }
    }
}

/// One TCP endpoint for each socket address in `resolved`.
pub open spec fn inet_views(resolved: Seq<String>) -> Seq<AddressView> {
    Seq::new(resolved.len(), |i: int| AddressView::Inet(resolved[i]@))
}

/// The addresses to listen on for `listen`: its local socket, if it has
/// one, then one TCP endpoint for each socket address in `resolved`, which
/// is what the resolver made of its TCP endpoint.
pub open spec fn listen_addresses(listen: Address, resolved: Seq<String>) -> Seq<AddressView> {
    (match listen.spec_to_unix() {
        Some(u) => seq![u],
        None => Seq::empty(),
    }) + (if listen.spec_to_inet() is Some {
        inet_views(resolved)
    } else {
        Seq::empty()
    })
}

/// The addresses to listen on for `listen`, given the socket addresses
/// that its TCP endpoint resolves to.
pub fn expand_listen_address(listen: &Address, resolved: &Vec<String>) -> (answers: Vec<Address>)
    ensures
        address_views(answers@) == listen_addresses(*listen, resolved@),
{
    let mut answers: Vec<Address> = Vec::new();
    if let Some(u) = listen.to_unix() {
        answers.push(u);
    }
    let ghost head = address_views(answers@);
    if listen.to_inet().is_some() {
        let mut i: usize = 0;
        assert(address_views(answers@) =~= head + inet_views(resolved@.take(0)));
        while i < resolved.len()
            invariant
                i <= resolved.len(),
                address_views(answers@) == head + inet_views(resolved@.take(i as int)),
            decreases resolved.len() - i,
        {
            let ghost before = address_views(answers@);
            answers.push(Address::Inet(resolved[i].clone()));
            assert(address_views(answers@) =~= before + seq![AddressView::Inet(resolved@[i as int]@)]);
            assert(inet_views(resolved@.take(i + 1)) =~= inet_views(resolved@.take(i as int))
                + seq![AddressView::Inet(resolved@[i as int]@)]);
            i = i + 1;
        }
        assert(resolved@.take(i as int) =~= resolved@);
    }
    assert(address_views(answers@) =~= listen_addresses(*listen, resolved@));
    answers
}

} // verus!
