//! The command-line configuration of a worker, and the reading of node
//! addresses from it.
use vstd::prelude::*;

use crate::errors::AntsError;
use crate::nodes::NodeAddress;
use crate::text::{chars_of, decimal, digit_char, push_char};

verus! {

/// The command-line arguments of a worker.
#[derive(Debug, Clone)]
pub struct CliArgs {
    /// The host to listen on.
    pub host: String,
    /// The port of the HTTP server.
    pub port: u16,
    /// The port of the RPC server.
    pub grpc_port: u16,
    /// The other nodes, as `host:port`.
    pub nodes: Vec<String>,
}

/// The characters of `s` before the first `:` (all of `s` if there is none).
pub open spec fn before_colon(s: Seq<char>) -> Seq<char>
    decreases s.len(),
{
    if s.len() == 0 || s[0] == ':' {
        Seq::empty()
    } else {
        seq![s[0]] + before_colon(s.drop_first())
    }
}

/// The characters of `s` after the first `:`.
pub open spec fn after_colon(s: Seq<char>) -> Seq<char>
    decreases s.len(),
{
    if s.len() == 0 {
        Seq::empty()
    } else if s[0] == ':' {
        s.drop_first()
    } else {
        after_colon(s.drop_first())
    }
}

/// The first and second fields of `s` split at `:`.
pub open spec fn first_field(s: Seq<char>) -> Seq<char> {
    before_colon(s)
}

/// The text between the first and the second `:`.
pub open spec fn second_field(s: Seq<char>) -> Seq<char> {
    before_colon(after_colon(s))
}

/// Whether a character is a decimal digit.
pub open spec fn is_digit(c: char) -> bool {
    '0' <= c && c <= '9'
}

/// The value of a decimal digit.
pub open spec fn digit_value(c: char) -> nat {
    ((c as u32) - ('0' as u32)) as nat
}

/// The value of a sequence of decimal digits.
pub open spec fn digits_value(s: Seq<char>) -> nat
    decreases s.len(),
{
    if s.len() == 0 {
        0
    } else {
        digits_value(s.drop_last()) * 10 + digit_value(s.last())
    }
}

/// The text without a leading `+`.
pub open spec fn strip_plus(s: Seq<char>) -> Seq<char> {
    if s.len() > 0 && s[0] == '+' {
        s.drop_first()
    } else {
        s
    }
}

/// All characters are decimal digits.
pub open spec fn all_digits(t: Seq<char>) -> bool {
    forall|i: int| 0 <= i < t.len() ==> is_digit(#[trigger] t[i])
}

/// What `u16::from_str` reads from a text: an optional `+`, then one or more
/// decimal digits whose value fits in 16 bits.
pub open spec fn parse_u16(s: Seq<char>) -> Option<u16> {
    let t = strip_plus(s);
    if t.len() > 0 && all_digits(t) && digits_value(t) <= 65535 {
        Some(digits_value(t) as u16)
    } else {
        None
    }
}

#[verifier::opaque]
/// The node address a text names: the host is the text before the first
/// `:`, the port the text between the first and the second `:`.
pub open spec fn parse_node_address(s: Seq<char>) -> Option<(Seq<char>, u16)> {
    match parse_u16(second_field(s)) {
        Some(p) => Some((first_field(s), p)),
        None => None,
    }
}

proof fn lemma_parse_u16_none(s: Seq<char>, k: int)
    requires
        0 <= k < strip_plus(s).len(),
        !is_digit(strip_plus(s)[k]),
    ensures
        parse_u16(s) is None,
{
}

proof fn lemma_digits_value_step(s: Seq<char>, i: int)
    requires
        0 <= i < s.len(),
    ensures
        digits_value(s.take(i + 1)) == digits_value(s.take(i)) * 10 + digit_value(s[i]),
{
    assert(s.take(i + 1).drop_last() =~= s.take(i));
}

proof fn lemma_digits_value_monotone(s: Seq<char>, i: int, j: int)
    requires
        0 <= i <= j <= s.len(),
        forall|k: int| 0 <= k < s.len() ==> is_digit(#[trigger] s[k]),
    ensures
        digits_value(s.take(i)) <= digits_value(s.take(j)),
    decreases j - i,
{
    if i < j {
        lemma_digits_value_monotone(s, i, j - 1);
        lemma_digits_value_step(s, j - 1);
    }
}

/// Reads a `u16` as `u16::from_str` does.
pub fn parse_u16_chars(s: &Vec<char>) -> (r: Option<u16>)
    ensures
        r == parse_u16(s@),
{
    let start: usize = if s.len() > 0 && s[0] == '+' {
        1
    } else {
        0
    };
    let ghost t = strip_plus(s@);
    proof {
        assert(t =~= s@.skip(start as int));
    }
    if start == s.len() {
        return None;
    }
    let mut value: u32 = 0;
    let mut i: usize = start;
    while i < s.len()
        invariant
            start <= i <= s.len(),
            start < s.len(),
            t =~= s@.skip(start as int),
            t == strip_plus(s@),
            forall|k: int| start <= k < i ==> is_digit(#[trigger] s@[k]),
            value as nat == digits_value(t.take(i - start)),
            value <= 65535,
        decreases s.len() - i,
    {
        let c = s[i];
        if !('0' <= c && c <= '9') {
            proof {
                assert(t[i - start] == c);
                assert(!is_digit(t[i - start]));
                lemma_parse_u16_none(s@, i - start);
            }
            return None;
        }
        let d: u32 = (c as u32) - ('0' as u32);
        proof {
            lemma_digits_value_step(t, i - start);
            assert(t[i - start] == c);
        }
        let next = value * 10 + d;
        if next > 65535 {
            proof {
                assert(next == digits_value(t.take(i + 1 - start)));
                assert forall|k: int| 0 <= k < i + 1 - start implies is_digit(#[trigger] t.take(i + 1 - start)[k]) by {
                    assert(t.take(i + 1 - start)[k] == s@[k + start]);
                }
                if all_digits(t) {
                    lemma_digits_value_monotone(t, i + 1 - start, t.len() as int);
                    assert(t.take(t.len() as int) =~= t);
                    assert(digits_value(t) > 65535);
                } else {
                    let k = choose|k: int| 0 <= k < t.len() && !is_digit(#[trigger] t[k]);
                    lemma_parse_u16_none(s@, k);
                }
            }
            return None;
        }
        value = next;
        i = i + 1;
    }
    proof {
        assert(t.take(i - start) =~= t);
        assert forall|k: int| 0 <= k < t.len() implies is_digit(#[trigger] t[k]) by {
            assert(t[k] == s@[k + start]);
        }
    }
    Some(value as u16)
}

proof fn lemma_before_colon_prefix(s: Seq<char>, i: int)
    requires
        0 <= i <= s.len(),
        forall|k: int| 0 <= k < i ==> s[k] != ':',
    ensures
        before_colon(s) == s.take(i) + before_colon(s.skip(i)),
        after_colon(s) == after_colon(s.skip(i)),
    decreases i,
{
    if i > 0 {
        lemma_before_colon_prefix(s.drop_first(), i - 1);
        assert(s.drop_first().take(i - 1) =~= s.take(i).drop_first());
        assert(s.drop_first().skip(i - 1) =~= s.skip(i));
        assert(s.take(i) =~= seq![s[0]] + s.take(i).drop_first());
    } else {
        assert(s.skip(0) =~= s);
    }
}

/// The fields of `s` before the first `:` and between the first and the
/// second `:`.
fn split_fields(s: &Vec<char>) -> (r: (Vec<char>, Vec<char>))
    ensures
        r.0@ == first_field(s@),
        r.1@ == second_field(s@),
{
    let mut first: Vec<char> = Vec::new();
    let mut i: usize = 0;
    while i < s.len() && s[i] != ':'
        invariant
            0 <= i <= s.len(),
            first@ == s@.take(i as int),
            forall|k: int| 0 <= k < i ==> s@[k] != ':',
        decreases s.len() - i,
    {
        first.push(s[i]);
        i = i + 1;
        assert(first@ =~= s@.take(i as int));
    }
    proof {
        lemma_before_colon_prefix(s@, i as int);
        if i < s.len() {
            assert(s@.skip(i as int)[0] == ':');
        }
        assert(before_colon(s@.skip(i as int)) =~= Seq::<char>::empty());
        assert(first@ =~= first_field(s@));
    }
    let mut second: Vec<char> = Vec::new();
    if i < s.len() {
        let ghost rest = s@.skip(i + 1);
        proof {
            assert(after_colon(s@.skip(i as int)) == s@.skip(i as int).drop_first());
            assert(s@.skip(i as int).drop_first() =~= rest);
        }
        let mut j: usize = i + 1;
        while j < s.len() && s[j] != ':'
            invariant
                i + 1 <= j <= s.len(),
                rest =~= s@.skip(i + 1),
                second@ == rest.take(j - i - 1),
                forall|k: int| 0 <= k < j - i - 1 ==> rest[k] != ':',
            decreases s.len() - j,
        {
            second.push(s[j]);
            j = j + 1;
            assert(second@ =~= rest.take(j - i - 1));
        }
        proof {
            lemma_before_colon_prefix(rest, j - i - 1);
            if j < s.len() {
                assert(rest.skip(j - i - 1)[0] == ':');
            }
            assert(before_colon(rest.skip(j - i - 1)) =~= Seq::<char>::empty());
            assert(second@ =~= before_colon(rest));
        }
    } else {
        proof {
            assert(s@.skip(i as int) =~= Seq::<char>::empty());
            assert(second@ =~= second_field(s@));
        }
    }
    (first, second)
}

fn string_of(v: &Vec<char>) -> (s: String)
    ensures
        s@ == v@,
{
    let mut s = String::new();
    let mut i: usize = 0;
    while i < v.len()
        invariant
            0 <= i <= v.len(),
            s@ == v@.take(i as int),
        decreases v.len() - i,
    {
        push_char(&mut s, v[i]);
        i = i + 1;
        assert(s@ =~= v@.take(i as int));
    }
    assert(v@.take(v.len() as int) =~= v@);
    s
}

/// Reads a node address `host:port`.
pub fn parse_node(node: &String) -> (r: Option<NodeAddress>)
    ensures
        r matches Some(a) ==> parse_node_address(node@) == Some((a.0@, a.1)),
        r is None <==> parse_node_address(node@) is None,
{
    let chars = chars_of(node.as_str());
    let (first, second) = split_fields(&chars);
    proof {
        reveal(parse_node_address);
    }
    match parse_u16_chars(&second) {
        Some(port) => Some((string_of(&first), port)),
        None => None,
    }
}

impl CliArgs {
    /// The nodes as addresses; the first node that cannot be read is
    /// reported as [`AntsError::InvalidNodeAddress`]. Each node must hold a
    /// `:`.
    pub fn node_addresses(&self) -> (r: Result<Vec<NodeAddress>, AntsError>)
        requires
            forall|i: int| 0 <= i < self.nodes@.len() ==> #[trigger] self.nodes@[i]@.contains(':'),
        ensures
            r is Ok <==> forall|i: int|
                0 <= i < self.nodes@.len() ==> parse_node_address(#[trigger] self.nodes@[i]@) is Some,
            r matches Ok(v) ==> v@.len() == self.nodes@.len() && forall|i: int|
                0 <= i < v@.len() ==> parse_node_address(self.nodes@[i]@) == Some(
                    (#[trigger] v@[i].0@, v@[i].1),
                ),
            r matches Err(e) ==> exists|i: int|
                0 <= i < self.nodes@.len() && parse_node_address(#[trigger] self.nodes@[i]@) is None
                    && (forall|j: int| 0 <= j < i ==> parse_node_address(#[trigger] self.nodes@[j]@) is Some)
                    && (e matches AntsError::InvalidNodeAddress(n) && n@ == self.nodes@[i]@),
    {
        let mut out: Vec<NodeAddress> = Vec::new();
        let mut i: usize = 0;
        while i < self.nodes.len()
            invariant
                0 <= i <= self.nodes.len(),
                out@.len() == i,
                forall|k: int|
                    0 <= k < i ==> parse_node_address(self.nodes@[k]@) == Some(
                        (#[trigger] out@[k].0@, out@[k].1),
                    ),
            decreases self.nodes.len() - i,
        {
            match parse_node(&self.nodes[i]) {
                Some(a) => {
                    out.push(a);
                },
                None => {
                    let n = self.nodes[i].clone();
                    proof {
                        assert forall|j: int| 0 <= j < i implies parse_node_address(
                            #[trigger] self.nodes@[j]@,
                        ) is Some by {
                            assert(parse_node_address(self.nodes@[j]@) == Some((out@[j].0@, out@[j].1)));
                        }
                        assert(parse_node_address(self.nodes@[i as int]@) is None);
                    }
                    return Err(AntsError::InvalidNodeAddress(n));
                },
            }
            i = i + 1;
        }
        proof {
            assert forall|j: int| 0 <= j < self.nodes@.len() implies parse_node_address(
                #[trigger] self.nodes@[j]@,
            ) is Some by {
                assert(parse_node_address(self.nodes@[j]@) == Some((out@[j].0@, out@[j].1)));
            }
        }
        Ok(out)
    }
}

proof fn lemma_digit_char(d: nat)
    requires
        d < 10,
    ensures
        is_digit(digit_char(d)),
        digit_value(digit_char(d)) == d,
{
    assert(('0' as u32) == 48);
    assert(('9' as u32) == 57);
    if d == 0 {
    } else if d == 1 {
        assert(('1' as u32) == 49);
    } else if d == 2 {
        assert(('2' as u32) == 50);
    } else if d == 3 {
        assert(('3' as u32) == 51);
    } else if d == 4 {
        assert(('4' as u32) == 52);
    } else if d == 5 {
        assert(('5' as u32) == 53);
    } else if d == 6 {
        assert(('6' as u32) == 54);
    } else if d == 7 {
        assert(('7' as u32) == 55);
    } else if d == 8 {
        assert(('8' as u32) == 56);
    }
}

proof fn lemma_decimal_digits(n: nat)
    ensures
        decimal(n).len() > 0,
        all_digits(decimal(n)),
        digits_value(decimal(n)) == n,
    decreases n,
{
    if n < 10 {
        lemma_digit_char(n);
        assert(decimal(n).drop_last() =~= Seq::<char>::empty());
        assert(digits_value(Seq::<char>::empty()) == 0);
        assert(decimal(n).last() == digit_char(n));
    } else {
        lemma_digit_char(n % 10);
        lemma_decimal_digits(n / 10);
        let d = decimal(n);
        assert(d.drop_last() =~= decimal(n / 10));
        assert(d.last() == digit_char(n % 10));
        assert((n / 10) * 10 + n % 10 == n) by (nonlinear_arith);
        assert(digits_value(d) == digits_value(d.drop_last()) * 10 + digit_value(d.last()));
        assert forall|i: int| 0 <= i < d.len() implies is_digit(#[trigger] d[i]) by {
            if i < d.len() - 1 {
                assert(d[i] == decimal(n / 10)[i]);
            }
        }
    }
}

proof fn lemma_no_colon(s: Seq<char>)
    requires
        forall|i: int| 0 <= i < s.len() ==> s[i] != ':',
    ensures
        before_colon(s) == s,
    decreases s.len(),
{
    if s.len() > 0 {
        lemma_no_colon(s.drop_first());
        assert(seq![s[0]] + s.drop_first() =~= s);
    }
}

proof fn lemma_split_at_colon(host: Seq<char>, rest: Seq<char>)
    requires
        forall|i: int| 0 <= i < host.len() ==> host[i] != ':',
    ensures
        before_colon(host + seq![':'] + rest) == host,
        after_colon(host + seq![':'] + rest) == rest,
    decreases host.len(),
{
    let s = host + seq![':'] + rest;
    if host.len() == 0 {
        assert(s.drop_first() =~= rest);
    } else {
        lemma_split_at_colon(host.drop_first(), rest);
        assert(s.drop_first() =~= host.drop_first() + seq![':'] + rest);
        assert(seq![host[0]] + host.drop_first() =~= host);
    }
}

/// A node address written as `host:port`, with a host that holds no `:`
/// and the port in decimal, reads back as that host and port.
pub proof fn lemma_node_address_roundtrip(host: Seq<char>, port: u16)
    requires
        forall|i: int| 0 <= i < host.len() ==> host[i] != ':',
    ensures
        parse_node_address(host + ":"@ + decimal(port as nat)) == Some((host, port)),
{
    reveal(parse_node_address);
    reveal_strlit(":");
    let d = decimal(port as nat);
    lemma_decimal_digits(port as nat);
    assert(":"@ =~= seq![':']);
    lemma_split_at_colon(host, d);
    assert forall|i: int| 0 <= i < d.len() implies d[i] != ':' by {
        assert(is_digit(d[i]));
    }
    lemma_no_colon(d);
    assert(is_digit(d[0]));
    assert(strip_plus(d) == d);
}

} // verus!
