use vstd::prelude::*;
use vstd::slice::{slice_index_get, slice_subrange, slice_to_vec};
use vstd::string::StringSliceAdditionalSpecFns;
use crate::errors::ConfigError;

verus! {

/// ASCII codes used by the address grammar.
pub const COLON: u8 = 58;

pub const SLASH: u8 = 47;

pub const LBRACK: u8 = 91;

pub const RBRACK: u8 = 93;

pub const DIGIT_0: u8 = 48;

pub const DIGIT_9: u8 = 57;

pub const LOWER_A: u8 = 97;

pub const LOWER_Z: u8 = 122;

pub const UPPER_A: u8 = 65;

pub const UPPER_Z: u8 = 90;

pub const PLUS: u8 = 43;

pub const MINUS: u8 = 45;

pub const DOT: u8 = 46;

/// The mathematical shape of a parsed endpoint: an optional scheme,
/// a host, and a port, all read from one address string.
#[verifier::ext_equal]
pub ghost struct EndpointView {
    pub scheme: Seq<u8>,
    pub host: Seq<u8>,
    pub port: u16,
}

/// One network address the channel may connect to. Immutable once
/// parsed; two endpoints are the same exactly when their parsed
/// scheme, host and port agree.
#[derive(Debug)]
pub struct Endpoint {
    pub scheme: Vec<u8>,
    pub host: Vec<u8>,
    pub port: u16,
}

impl View for Endpoint {
    type V = EndpointView;

    open spec fn view(&self) -> EndpointView {
        EndpointView { scheme: self.scheme@, host: self.host@, port: self.port }
    }
}

impl Clone for Endpoint {
    fn clone(&self) -> (r: Self)
        ensures
            r@ == self@,
    {
        Endpoint { scheme: slice_to_vec(self.scheme.as_slice()), host: slice_to_vec(self.host.as_slice()), port: self.port }
    }
}

/// A byte allowed in a scheme: an ASCII letter, digit, `+`, `-` or `.`.
pub open spec fn is_scheme_byte(c: u8) -> bool {
    (LOWER_A <= c <= LOWER_Z) || (UPPER_A <= c <= UPPER_Z) || (DIGIT_0 <= c <= DIGIT_9) || c == PLUS || c == MINUS
        || c == DOT
}

pub open spec fn all_scheme_bytes(s: Seq<u8>) -> bool {
    forall|i: int| 0 <= i < s.len() ==> is_scheme_byte(#[trigger] s[i])
}

/// An ASCII decimal digit.
pub open spec fn is_digit(c: u8) -> bool {
    DIGIT_0 <= c <= DIGIT_9
}

pub open spec fn all_digits(s: Seq<u8>) -> bool {
    forall|i: int| 0 <= i < s.len() ==> is_digit(#[trigger] s[i])
}

/// The number written in decimal by `s` (leading zeros allowed).
pub open spec fn digits_val(s: Seq<u8>) -> int
    decreases s.len(),
{
    if s.len() == 0 {
        0
    } else {
        digits_val(s.take(s.len() - 1)) * 10 + (s.last() - DIGIT_0)
    }
}

/// True when the scheme separator `://` sits at position `i` of `b`.
pub open spec fn sep_at(b: Seq<u8>, i: int) -> bool {
    0 <= i && i + 3 <= b.len() && b[i] == COLON && b[i + 1] == SLASH && b[i + 2] == SLASH
}

/// The position of the first `://` at or after `i`, if any.
pub open spec fn find_sep_from(b: Seq<u8>, i: int) -> Option<int>
    decreases b.len() - i,
{
    if i < 0 || i + 3 > b.len() {
        None
    } else if sep_at(b, i) {
        Some(i)
    } else {
        find_sep_from(b, i + 1)
    }
}

/// The position of the first occurrence of `c` at or after `i`, if any.
pub open spec fn find_byte_from(b: Seq<u8>, c: u8, i: int) -> Option<int>
    decreases b.len() - i,
{
    if i < 0 || i >= b.len() {
        None
    } else if b[i] == c {
        Some(i)
    } else {
        find_byte_from(b, c, i + 1)
    }
}

/// The position of the last occurrence of `c` at or before `i`, if any.
pub open spec fn rfind_byte_upto(b: Seq<u8>, c: u8, i: int) -> Option<int>
    decreases i + 1,
{
    if i < 0 || i >= b.len() {
        None
    } else if b[i] == c {
        Some(i)
    } else {
        rfind_byte_upto(b, c, i - 1)
    }
}

/// The port denoted by `p`: defined when `p` is a nonempty digit
/// string whose value fits a `u16`.
pub open spec fn port_spec(p: Seq<u8>) -> Option<u16> {
    if p.len() == 0 || !all_digits(p) || digits_val(p) > 65535 {
        None
    } else {
        Some(digits_val(p) as u16)
    }
}

/// The host and port read from `rest`, the address after any scheme.
/// A host in brackets (`[::1]:50051`) ends at the first `]` and must
/// be followed by `:port`; otherwise the last `:` separates host from
/// port.
pub open spec fn hostport_spec(scheme: Seq<u8>, rest: Seq<u8>) -> Result<EndpointView, ConfigError> {
    if rest.len() == 0 {
        Err(ConfigError::Empty)
    } else if rest[0] == LBRACK {
        match find_byte_from(rest, RBRACK, 1) {
            Option::None => Err(ConfigError::UnclosedBracket),
            Option::Some(j) => {
                if j == 1 {
                    Err(ConfigError::EmptyHost)
                } else if j + 1 >= rest.len() || rest[j + 1] != COLON {
                    Err(ConfigError::MissingPort)
                } else {
                    match port_spec(rest.skip(j + 2)) {
                        Option::None => Err(ConfigError::BadPort),
                        Option::Some(v) => Ok(
                            EndpointView { scheme, host: rest.subrange(1, j), port: v },
                        ),
                    }
                }
            },
        }
    } else {
        match rfind_byte_upto(rest, COLON, rest.len() - 1) {
            Option::None => Err(ConfigError::MissingPort),
            Option::Some(k) => {
                if k == 0 {
                    Err(ConfigError::EmptyHost)
                } else {
                    match port_spec(rest.skip(k + 1)) {
                        Option::None => Err(ConfigError::BadPort),
                        Option::Some(v) => Ok(
                            EndpointView { scheme, host: rest.take(k), port: v },
                        ),
                    }
                }
            },
        }
    }
}

/// The endpoint denoted by the address bytes `b`, or the reason `b`
/// is rejected. An address is `scheme://host:port` or `host:port`.
pub open spec fn parse_spec(b: Seq<u8>) -> Result<EndpointView, ConfigError> {
    if b.len() == 0 {
        Err(ConfigError::Empty)
    } else {
        match find_sep_from(b, 0) {
            Option::None => hostport_spec(Seq::empty(), b),
            Option::Some(i) => {
                if i == 0 || !all_scheme_bytes(b.take(i)) {
                    Err(ConfigError::BadScheme)
                } else {
                    hostport_spec(b.take(i), b.skip(i + 3))
                }
            },
        }
    }
}

fn find_scheme_sep(b: &[u8]) -> (r: Option<usize>)
    ensures
        match r {
            Option::Some(i) => find_sep_from(b@, 0) == Option::Some(i as int),
            Option::None => find_sep_from(b@, 0) is None,
        },
{
    let n: usize = b.len();
    if n < 3 {
        return None;
    }
    let mut i: usize = 0;
    while i <= n - 3
        invariant
            i <= n,
            n >= 3,
            n == b@.len(),
            find_sep_from(b@, 0) == find_sep_from(b@, i as int),
        decreases n - i,
    {
        if *slice_index_get(b, i) == COLON && *slice_index_get(b, i + 1) == SLASH
            && *slice_index_get(b, i + 2) == SLASH {
            assert(sep_at(b@, i as int));
            return Some(i);
        }
        assert(find_sep_from(b@, i as int) == find_sep_from(b@, i + 1 as int));
        i = i + 1;
    }
    None
}

fn find_byte(b: &[u8], c: u8, from: usize) -> (r: Option<usize>)
    ensures
        match r {
            Option::Some(i) => find_byte_from(b@, c, from as int) == Option::Some(i as int) && from
                <= i < b@.len(),
            Option::None => find_byte_from(b@, c, from as int) is None,
        },
{
    let n: usize = b.len();
    let mut i: usize = from;
    while i < n
        invariant
            from <= i <= n || (from > n && i == from),
            n == b@.len(),
            find_byte_from(b@, c, from as int) == find_byte_from(b@, c, i as int),
        decreases n - i,
    {
        if *slice_index_get(b, i) == c {
            return Some(i);
        }
        i = i + 1;
    }
    None
}

fn rfind_byte(b: &[u8], c: u8) -> (r: Option<usize>)
    requires
        b@.len() >= 1,
    ensures
        match r {
            Option::Some(i) => rfind_byte_upto(b@, c, b@.len() - 1) == Option::Some(i as int) && i
                < b@.len(),
            Option::None => rfind_byte_upto(b@, c, b@.len() - 1) is None,
        },
{
    let n: usize = b.len();
    let mut i: usize = n;
    while i > 0
        invariant
            i <= n,
            n == b@.len(),
            rfind_byte_upto(b@, c, n - 1) == rfind_byte_upto(b@, c, i - 1),
        decreases i,
    {
        i = i - 1;
        if *slice_index_get(b, i) == c {
            return Some(i);
        }
        assert(rfind_byte_upto(b@, c, i as int) == rfind_byte_upto(b@, c, i - 1));
    }
    None
}

proof fn lemma_digits_val_nonneg(s: Seq<u8>)
    requires
        all_digits(s),
    ensures
        digits_val(s) >= 0,
    decreases s.len(),
{
    if s.len() > 0 {
        assert(all_digits(s.take(s.len() - 1)));
        lemma_digits_val_nonneg(s.take(s.len() - 1));
    }
}

fn parse_port_bytes(p: &[u8]) -> (r: Option<u16>)
    ensures
        r == port_spec(p@),
{
    let n: usize = p.len();
    if n == 0 {
        return None;
    }
    let mut acc: u32 = 0;
    let mut j: usize = 0;
    while j < n
        invariant
            j <= n,
            n == p@.len(),
            all_digits(p@.take(j as int)),
            acc <= 65535 ==> acc == digits_val(p@.take(j as int)),
            acc > 65535 ==> acc == 65536 && digits_val(p@.take(j as int)) > 65535,
        decreases n - j,
    {
        let c: u8 = *slice_index_get(p, j);
        if c < DIGIT_0 || c > DIGIT_9 {
            return None;
        }
        proof {
            assert(p@.take(j + 1 as int).take(j as int) =~= p@.take(j as int));
            assert(p@.take(j + 1 as int).last() == p@[j as int]);
            assert(all_digits(p@.take(j + 1 as int)));
            assert(digits_val(p@.take(j + 1 as int)) == digits_val(p@.take(j as int)) * 10 + (
            p@[j as int] - DIGIT_0));
            lemma_digits_val_nonneg(p@.take(j as int));
        }
        let d: u32 = (c - DIGIT_0) as u32;
        let next: u32 = acc * 10 + d;
        if next > 65535 {
            acc = 65536;
        } else {
            acc = next;
        }
        j = j + 1;
    }
    proof {
        assert(p@.take(n as int) =~= p@);
    }
    if acc > 65535 {
        None
    } else {
        Some(acc as u16)
    }
}

fn check_scheme_bytes(s: &[u8]) -> (r: bool)
    ensures
        r == all_scheme_bytes(s@),
{
    let n: usize = s.len();
    let mut i: usize = 0;
    while i < n
        invariant
            i <= n,
            n == s@.len(),
            forall|k: int| 0 <= k < i ==> is_scheme_byte(#[trigger] s@[k]),
        decreases n - i,
    {
        let c: u8 = *slice_index_get(s, i);
        let ok: bool = (LOWER_A <= c && c <= LOWER_Z) || (UPPER_A <= c && c <= UPPER_Z) || (DIGIT_0 <= c && c
            <= DIGIT_9) || c == PLUS || c == MINUS || c == DOT;
        if !ok {
            return false;
        }
        i = i + 1;
    }
    true
}

fn parse_hostport(scheme: Vec<u8>, rest: &[u8]) -> (r: Result<Endpoint, ConfigError>)
    ensures
        match r {
            Ok(e) => hostport_spec(scheme@, rest@) == Ok::<EndpointView, ConfigError>(e@),
            Err(c) => hostport_spec(scheme@, rest@) == Err::<EndpointView, ConfigError>(c),
        },
{
    let n: usize = rest.len();
    if n == 0 {
        return Err(ConfigError::Empty);
    }
    if *slice_index_get(rest, 0) == LBRACK {
        match find_byte(rest, RBRACK, 1) {
            Option::None => Err(ConfigError::UnclosedBracket),
            Option::Some(j) => {
                if j == 1 {
                    Err(ConfigError::EmptyHost)
                } else if j + 1 >= n || *slice_index_get(rest, j + 1) != COLON {
                    Err(ConfigError::MissingPort)
                } else {
                    match parse_port_bytes(slice_subrange(rest, j + 2, n)) {
                        Option::None => Err(ConfigError::BadPort),
                        Option::Some(v) => {
                            let host: Vec<u8> = slice_to_vec(slice_subrange(rest, 1, j));
                            assert(rest@.subrange(j + 2, n as int) =~= rest@.skip(j + 2));
                            Ok(Endpoint { scheme, host, port: v })
                        },
                    }
                }
            },
        }
    } else {
        match rfind_byte(rest, COLON) {
            Option::None => Err(ConfigError::MissingPort),
            Option::Some(k) => {
                if k == 0 {
                    Err(ConfigError::EmptyHost)
                } else {
                    match parse_port_bytes(slice_subrange(rest, k + 1, n)) {
                        Option::None => Err(ConfigError::BadPort),
                        Option::Some(v) => {
                            let host: Vec<u8> = slice_to_vec(slice_subrange(rest, 0, k));
                            assert(rest@.subrange(k + 1, n as int) =~= rest@.skip(k + 1));
                            assert(rest@.subrange(0, k as int) =~= rest@.take(k as int));
                            Ok(Endpoint { scheme, host, port: v })
                        },
                    }
                }
            },
        }
    }
}

/// Reads one endpoint from an address written `scheme://host:port` or
/// `host:port`; says exactly why a malformed address is rejected.
pub fn parse(addr: &str) -> (r: Result<Endpoint, ConfigError>)
    ensures
        match r {
            Ok(e) => parse_spec(addr.spec_bytes()) == Ok::<EndpointView, ConfigError>(e@),
            Err(c) => parse_spec(addr.spec_bytes()) == Err::<EndpointView, ConfigError>(c),
        },
{
    let b: &[u8] = addr.as_bytes();
    let n: usize = b.len();
    if n == 0 {
        return Err(ConfigError::Empty);
    }
    match find_scheme_sep(b) {
        Option::None => {
            let empty_scheme: Vec<u8> = Vec::new();
            assert(empty_scheme@ =~= Seq::<u8>::empty());
            parse_hostport(empty_scheme, b)
        },
        Option::Some(i) => {
            proof {
                if find_sep_from(b@, 0) is Some {
                    lemma_find_sep_bounds(b@, 0);
                }
            }
            let scheme_part: &[u8] = slice_subrange(b, 0, i);
            assert(b@.subrange(0, i as int) =~= b@.take(i as int));
            if i == 0 || !check_scheme_bytes(scheme_part) {
                Err(ConfigError::BadScheme)
            } else {
                let scheme: Vec<u8> = slice_to_vec(scheme_part);
                let rest: &[u8] = slice_subrange(b, i + 3, n);
                assert(b@.subrange(i + 3, n as int) =~= b@.skip(i + 3));
                parse_hostport(scheme, rest)
            }
        },
    }
}

proof fn lemma_find_sep_bounds(b: Seq<u8>, i: int)
    requires
        find_sep_from(b, i) is Some,
    ensures
        i <= find_sep_from(b, i)->0,
        find_sep_from(b, i)->0 + 3 <= b.len(),
    decreases b.len() - i,
{
    if !(i < 0 || i + 3 > b.len()) && !sep_at(b, i) {
        lemma_find_sep_bounds(b, i + 1);
    }
}

/// Two endpoints denote the same address exactly when scheme, host
/// and port all agree.
pub fn same_endpoint(a: &Endpoint, b: &Endpoint) -> (r: bool)
    ensures
        r == (a@ == b@),
{
    if a.port != b.port {
        proof {
            assert(a@ != b@);
        }
        return false;
    }
    let se: bool = bytes_eq(a.scheme.as_slice(), b.scheme.as_slice());
    if !se {
        return false;
    }
    let he: bool = bytes_eq(a.host.as_slice(), b.host.as_slice());
    if !he {
        return false;
    }
    proof {
        assert(a@ =~= b@);
    }
    true
}

fn bytes_eq(a: &[u8], b: &[u8]) -> (r: bool)
    ensures
        r == (a@ == b@),
{
    let n: usize = a.len();
    if n != b.len() {
        proof {
            assert(a@ != b@);
        }
        return false;
    }
    let mut i: usize = 0;
    while i < n
        invariant
            i <= n,
            n == a@.len(),
            n == b@.len(),
            forall|k: int| 0 <= k < i ==> a@[k] == b@[k],
        decreases n - i,
    {
        if *slice_index_get(a, i) != *slice_index_get(b, i) {
            proof {
                assert(a@[i as int] != b@[i as int]);
            }
            return false;
        }
        i = i + 1;
    }
    proof {
        assert(a@ =~= b@);
    }
    true
}

} // verus!
