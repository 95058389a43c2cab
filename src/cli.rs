//! The listening configuration: port and address, each taken from a
//! command-line flag, else from the environment, else from a default.
use vstd::prelude::*;
use crate::text::{ascii_chars, is_visible_ascii, visible_text};

verus! {

/// Port used when neither a flag nor the environment gives one.
pub const DEFAULT_PORT: u16 = 8080;

/// Where the server listens.
pub struct Args {
    pub port: u16,
    pub address: String,
}

/// Why no configuration could be resolved.
#[derive(Debug, Clone, Copy, PartialEq, Eq)]
pub enum ConfigError {
    /// The port given by the environment is not a decimal number below 65536.
    InvalidPort,
}

/// The address used when neither a flag nor the environment gives one.
pub open spec fn default_address() -> Seq<char> {
    seq!['l', 'o', 'c', 'a', 'l', 'h', 'o', 's', 't']
}

pub open spec fn is_digit(c: char) -> bool {
    '0' <= c && c <= '9'
}

/// The number that a string of decimal digits stands for.
pub open spec fn digits_value(s: Seq<char>) -> int
    decreases s.len(),
{
    if s.len() == 0 {
        0
    } else {
        digits_value(s.drop_last()) * 10 + (s.last() as int - '0' as int)
    }
}

/// The port that a text names: one or more decimal digits, at most 65535.
pub open spec fn port_of(s: Seq<char>) -> Option<u16> {
    if s.len() > 0 && (forall|i: int| 0 <= i < s.len() ==> is_digit(#[trigger] s[i])) && digits_value(s)
        <= 65535 {
        Some(digits_value(s) as u16)
    } else {
        None
    }
}

/// The decimal digits of a number, without leading zeros.
pub open spec fn decimal_text(n: nat) -> Seq<char>
    decreases n,
{
    if n < 10 {
        seq![((48 + n) as u8) as char]
    } else {
        decimal_text(n / 10).push(((48 + n % 10) as u8) as char)
    }
}

/// `address:port`, the form the server binds to.
pub open spec fn listen_text(address: Seq<char>, port: u16) -> Seq<char> {
    address + seq![':'] + decimal_text(port as nat)
}

proof fn lemma_digits_nonneg(s: Seq<char>)
    requires
        forall|k: int| 0 <= k < s.len() ==> is_digit(#[trigger] s[k]),
    ensures
        digits_value(s) >= 0,
    decreases s.len(),
{
    if s.len() > 0 {
        let q = s.drop_last();
        assert forall|k: int| 0 <= k < q.len() implies is_digit(#[trigger] q[k]) by {
            assert(is_digit(s[k]));
        }
        lemma_digits_nonneg(q);
        assert(is_digit(s.last()));
    }
}

proof fn lemma_digits_grow(s: Seq<char>, i: int, j: int)
    requires
        0 <= i <= j <= s.len(),
        forall|k: int| 0 <= k < j ==> is_digit(#[trigger] s[k]),
    ensures
        digits_value(s.take(i)) <= digits_value(s.take(j)),
    decreases j - i,
{
    if i < j {
        lemma_digits_grow(s, i, j - 1);
        let p = s.take(j - 1);
        assert(s.take(j).drop_last() =~= p);
        assert forall|k: int| 0 <= k < p.len() implies is_digit(#[trigger] p[k]) by {
            assert(is_digit(s[k]));
        }
        lemma_digits_nonneg(p);
        assert(is_digit(s[j - 1]));
        assert(s.take(j).last() == s[j - 1]);
    }
}

/// Reads a port number written in decimal digits.
pub fn parse_port(text: &String) -> (r: Option<u16>)
    ensures
        r == port_of(text@),
{
    let s = text.as_str();
    let n = s.unicode_len();
    if n == 0 {
        return None;
    }
    let mut value: u32 = 0;
    let mut i: usize = 0;
    while i < n
        invariant
            n == text@.len(),
            s@ == text@,
            i <= n,
            value <= 65535,
            value == digits_value(text@.take(i as int)),
            forall|k: int| 0 <= k < i ==> is_digit(#[trigger] text@[k]),
        decreases n - i,
    {
        let c = s.get_char(i);
        if !('0' <= c && c <= '9') {
            return None;
        }
        assert(text@.take(i + 1).drop_last() =~= text@.take(i as int));
        let next = value * 10 + (c as u32 - '0' as u32);
        if next > 65535 {
            proof {
                if forall|k: int| 0 <= k < n ==> is_digit(#[trigger] text@[k]) {
                    lemma_digits_grow(text@, i + 1, n as int);
                    assert(text@.take(n as int) =~= text@);
                }
            }
            return None;
        }
        value = next;
        i = i + 1;
    }
    assert(text@.take(n as int) =~= text@);
    Some(value as u16)
}

/// Resolves where to listen. A flag wins over the environment, which wins
/// over the defaults (port 8080, address `localhost`). A port from the
/// environment must be decimal digits naming a number below 65536.
pub fn parse_args(
    flag_port: Option<u16>,
    flag_address: Option<String>,
    env_port: Option<String>,
    env_address: Option<String>,
) -> (r: Result<Args, ConfigError>)
    ensures
        r is Err <==> (flag_port is None && env_port is Some && port_of(env_port.unwrap()@) is None),
        r matches Err(e) ==> e == ConfigError::InvalidPort,
        r matches Ok(args) ==> args.port == match flag_port {
            Some(p) => p,
            None => match env_port {
                Some(p) => port_of(p@).unwrap(),
                None => DEFAULT_PORT,
            },
        },
        r matches Ok(args) ==> args.address@ == match flag_address {
            Some(a) => a@,
            None => match env_address {
                Some(a) => a@,
                None => default_address(),
            },
        },
{
    let port = match flag_port {
        Some(p) => p,
        None => match env_port {
            Some(text) => match parse_port(&text) {
                Some(p) => p,
                None => return Err(ConfigError::InvalidPort),
            },
            None => DEFAULT_PORT,
        },
    };
    let address = match flag_address {
        Some(a) => a,
        None => match env_address {
            Some(a) => a,
            None => {
                proof {
                    reveal_strlit("localhost");
                }
                let a = String::from_str("localhost");
                assert(a@ =~= default_address());
                a
            },
        },
    };
    Ok(Args { port, address })
}

fn decimal_bytes(n: u16) -> (r: Vec<u8>)
    ensures
        ascii_chars(r@) == decimal_text(n as nat),
        forall|i: int| 0 <= i < r@.len() ==> is_visible_ascii(#[trigger] r@[i]),
    decreases n,
{
    if n < 10 {
        let v = vec![48 + n as u8];
        assert(ascii_chars(v@) =~= decimal_text(n as nat));
        v
    } else {
        let mut v = decimal_bytes(n / 10);
        let ghost before = v@;
        v.push(48 + (n % 10) as u8);
        assert(v@.drop_last() =~= before);
        assert(ascii_chars(v@) =~= ascii_chars(before).push(((48 + n % 10) as u8) as char));
        v
    }
}

/// The `address:port` text that the server binds to.
pub fn listen_address(args: &Args) -> (r: String)
    ensures
        r@ == listen_text(args.address@, args.port),
{
    let digits = decimal_bytes(args.port);
    let port = visible_text(&digits).unwrap();
    let mut r = args.address.clone();
    proof {
        reveal_strlit(":");
    }
    r.append(":");
    r.append(port.as_str());
    assert(r@ =~= listen_text(args.address@, args.port));
    r
}

} // verus!
