//! The blocked-server list: a set of SHA-1 hashes of blocked hostnames
//! and address patterns, checked with wildcard suffix matching. The
//! list itself comes from a remote service; this module holds the
//! matching rules.
use vstd::prelude::*;

use sha1::Digest;

use crate::text::{join_with, lemma_join_with_push, split_on, split_string};
use vstd::string::StrSliceExecFns;
use vstd::string::StringExecFns;
use vstd::utf8::encode_utf8;

verus! {

/// The SHA-1 digest of a byte sequence: twenty bytes that depend on the
/// input alone.
pub uninterp spec fn sha1_of(data: Seq<u8>) -> Seq<u8>;

/// The lowercase form of a character sequence, as Unicode defines it:
/// a function of the characters alone.
pub uninterp spec fn lower_of(s: Seq<char>) -> Seq<char>;

/// The sequence with leading and trailing whitespace removed: a
/// function of the characters alone.
pub uninterp spec fn trim_of(s: Seq<char>) -> Seq<char>;

/// Relies on `sha1::Sha1::digest`: the digest is twenty bytes and
/// depends on the input bytes alone.
#[verifier::external_body]
fn sha1_digest(data: &[u8]) -> (r: Vec<u8>)
    ensures
        r@ == sha1_of(data@),
        r@.len() == 20,
{
    sha1::Sha1::digest(data).to_vec()
}

/// Relies on `hex::encode`: two lowercase hexadecimal digits for each
/// byte, high nibble first.
#[verifier::external_body]
fn hex_encode(data: &[u8]) -> (r: String)
    ensures
        r@ == hex_of(data@),
{
    hex::encode(data)
}

/// Relies on `str::to_lowercase`: the result depends on the characters
/// alone.
#[verifier::external_body]
fn lowercase(s: &str) -> (r: String)
    ensures
        r@ == lower_of(s@),
{
    s.to_lowercase()
}

/// Relies on `str::trim`: the result depends on the characters alone.
#[verifier::external_body]
fn trim_str(s: &str) -> (r: &str)
    ensures
        r@ == trim_of(s@),
{
    s.trim()
}

/// Relies on the standard decimal formatting of `u8` values: the plain
/// base-ten digits with no sign, padding or leading zeros.
#[verifier::external_body]
fn u8_to_string(n: u8) -> (r: String)
    ensures
        r@ == dec_str(n as int),
{
    format!("{}", n)
}

/// One lowercase hexadecimal digit.
pub open spec fn hex_char(d: u8) -> char {
    if d < 10 {
        ((0x30 + d) as u8) as char
    } else {
        ((0x57 + d) as u8) as char
    }
}

/// The lowercase hexadecimal spelling of a byte sequence, two digits
/// per byte with the high nibble first.
pub open spec fn hex_of(data: Seq<u8>) -> Seq<char> {
    Seq::new(
        data.len() * 2,
        |i: int|
            if i % 2 == 0 {
                hex_char(data[i / 2] / 16)
            } else {
                hex_char(data[i / 2] % 16)
            },
    )
}

/// One decimal digit character.
pub open spec fn dec_digit(d: int) -> char {
    ((0x30 + d) as u8) as char
}

/// The decimal spelling of a byte value, with no leading zeros.
pub open spec fn dec_str(n: int) -> Seq<char> {
    if n < 10 {
        seq![dec_digit(n)]
    } else if n < 100 {
        seq![dec_digit(n / 10), dec_digit(n % 10)]
    } else {
        seq![dec_digit(n / 100), dec_digit((n / 10) % 10), dec_digit(n % 10)]
    }
}

/// The entry a name would have in the list: the hexadecimal spelling of
/// the SHA-1 digest of its UTF-8 bytes.
pub open spec fn hash_hex(s: Seq<char>) -> Seq<char> {
    hex_of(sha1_of(encode_utf8(s)))
}

/// The wildcard pattern that covers a domain from its `i`-th
/// dot-separated part on: a `*.` followed by those parts.
pub open spec fn wildcard_candidate(lc: Seq<char>, i: int) -> Seq<char> {
    seq!['*', '.'] + join_with(split_on(lc, '.').skip(i), '.')
}

/// Whether a domain is blocked: its lowercase form is listed, or some
/// wildcard pattern covering one of its dot-separated suffixes is.
pub open spec fn spec_domain_blocked(hashes: Seq<Seq<char>>, domain: Seq<char>) -> bool {
    let lc = lower_of(domain);
    domain.len() > 0 && (hashes.contains(hash_hex(lc)) || exists|i: int|
        0 <= i < split_on(lc, '.').len() && hashes.contains(
            #[trigger] hash_hex(wildcard_candidate(lc, i)),
        ))
}

/// The decimal, dot-separated spelling of a four-octet address.
pub open spec fn addr_chars(a: u8, b: u8, c: u8, d: u8) -> Seq<char> {
    dec_str(a as int) + seq!['.'] + dec_str(b as int) + seq!['.'] + dec_str(c as int) + seq!['.']
        + dec_str(d as int)
}

/// Whether an address is blocked: its exact spelling is listed, or one
/// of the three wildcard prefixes covering it is.
pub open spec fn spec_addr_blocked(hashes: Seq<Seq<char>>, a: u8, b: u8, c: u8, d: u8) -> bool {
    ||| hashes.contains(hash_hex(addr_chars(a, b, c, d)))
    ||| hashes.contains(
        hash_hex(
            dec_str(a as int) + seq!['.'] + dec_str(b as int) + seq!['.'] + dec_str(c as int)
                + seq!['.', '*'],
        ),
    )
    ||| hashes.contains(
        hash_hex(dec_str(a as int) + seq!['.'] + dec_str(b as int) + seq!['.', '*']),
    )
    ||| hashes.contains(hash_hex(dec_str(a as int) + seq!['.', '*']))
}

/// Whether a character is an ASCII decimal digit.
pub open spec fn is_dec_digit(c: char) -> bool {
    0x30 <= c as u32 <= 0x39
}

/// The number an ASCII digit string denotes in base ten.
pub open spec fn dec_value(s: Seq<char>) -> int
    decreases s.len(),
{
    if s.len() == 0 {
        0
    } else {
        dec_value(s.drop_last()) * 10 + (s.last() as u32 - 0x30)
    }
}

/// Whether a character sequence is one octet of a dotted-quad address:
/// one to three digits, no leading zero, value at most 255.
pub open spec fn is_octet_str(s: Seq<char>) -> bool {
    &&& 1 <= s.len() <= 3
    &&& forall|i: int| 0 <= i < s.len() ==> is_dec_digit(#[trigger] s[i])
    &&& (s.len() > 1 ==> s[0] as u32 != 0x30)
    &&& dec_value(s) <= 255
}

/// The four octets a character sequence spells as a dotted-quad
/// address, when it does: exactly four octet strings joined by dots.
pub open spec fn parse_ipv4_spec(s: Seq<char>) -> Option<(u8, u8, u8, u8)> {
    let ps = split_on(s, '.');
    if ps.len() == 4 && is_octet_str(ps[0]) && is_octet_str(ps[1]) && is_octet_str(ps[2])
        && is_octet_str(ps[3]) {
        Some(
            (
                dec_value(ps[0]) as u8,
                dec_value(ps[1]) as u8,
                dec_value(ps[2]) as u8,
                dec_value(ps[3]) as u8,
            ),
        )
    } else {
        None
    }
}

/// One octet of a dotted-quad address: one to three digits, no leading
/// zero, value at most 255.
fn parse_octet(p: &str) -> (r: Option<u8>)
    ensures
        match r {
            Some(v) => is_octet_str(p@) && v as int == dec_value(p@),
            None => !is_octet_str(p@),
        },
{
    let n = p.unicode_len();
    if n < 1 || n > 3 {
        return None;
    }
    if n > 1 && p.get_char(0) as u32 == 0x30 {
        return None;
    }
    let mut val: u32 = 0;
    let mut i: usize = 0;
    proof {
        assert(p@.take(0) =~= Seq::<char>::empty());
    }
    while i < n
        invariant
            n == p@.len(),
            n <= 3,
            i <= n,
            forall|t: int| 0 <= t < i ==> is_dec_digit(#[trigger] p@[t]),
            val == dec_value(p@.take(i as int)),
            val <= (if i == 0 {
                0int
            } else if i == 1 {
                9int
            } else if i == 2 {
                99int
            } else {
                999int
            }),
        decreases n - i,
    {
        let u = p.get_char(i) as u32;
        if u < 0x30 || u > 0x39 {
            return None;
        }
        proof {
            assert(p@.take(i + 1).drop_last() =~= p@.take(i as int));
            assert(p@.take(i + 1).last() == p@[i as int]);
        }
        val = val * 10 + (u - 0x30);
        i = i + 1;
    }
    proof {
        assert(p@.take(n as int) =~= p@);
    }
    if val > 255 {
        return None;
    }
    Some(val as u8)
}

/// The four octets a string spells as a dotted-quad address, when it
/// does.
pub fn parse_ipv4(s: &str) -> (r: Option<[u8; 4]>)
    ensures
        match r {
            Some(o) => parse_ipv4_spec(s@) == Some((o[0], o[1], o[2], o[3])),
            None => parse_ipv4_spec(s@) is None,
        },
{
    let parts = split_string(s, '.');
    if parts.len() != 4 {
        return None;
    }
    let a = match parse_octet(parts[0].as_str()) {
        Some(v) => v,
        None => {
            return None;
        },
    };
    let b = match parse_octet(parts[1].as_str()) {
        Some(v) => v,
        None => {
            return None;
        },
    };
    let c = match parse_octet(parts[2].as_str()) {
        Some(v) => v,
        None => {
            return None;
        },
    };
    let d = match parse_octet(parts[3].as_str()) {
        Some(v) => v,
        None => {
            return None;
        },
    };
    Some([a, b, c, d])
}

/// The deny list: hexadecimal SHA-1 hashes of blocked names and address
/// patterns.
pub struct BlockedServers {
    hashes: Vec<String>,
}

impl View for BlockedServers {
    type V = Seq<Seq<char>>;

    closed spec fn view(&self) -> Seq<Seq<char>> {
        self.hashes.deep_view()
    }
}

impl BlockedServers {
    /// Builds the list from the service's response text: one hash per
    /// line, with surrounding whitespace trimmed first.
    pub fn from_response_text(text: &str) -> (r: Self)
        ensures
            r@ =~~= split_on(trim_of(text@), '\n'),
    {
        let trimmed = trim_str(text);
        let hashes = split_string(trimmed, '\n');
        BlockedServers { hashes }
    }

    /// The stored hashes.
    pub fn hashes(&self) -> (r: &Vec<String>)
        ensures
            r.deep_view() == self@,
    {
        &self.hashes
    }

    /// Whether the list holds the hash of the given name.
    pub fn contains(&self, s: &str) -> (r: bool)
        ensures
            r == self@.contains(hash_hex(s@)),
    {
        let digest = sha1_digest(s.as_bytes());
        let hx = hex_encode(digest.as_slice());
        let mut i: usize = 0;
        while i < self.hashes.len()
            invariant
                hx@ == hash_hex(s@),
                forall|t: int| 0 <= t < i ==> self@[t] != hash_hex(s@),
                i <= self.hashes@.len(),
                self@ == self.hashes.deep_view(),
            decreases self.hashes@.len() - i,
        {
            if self.hashes[i] == hx {
                proof {
                    assert(self@[i as int] == hash_hex(s@));
                }
                return true;
            }
            i = i + 1;
        }
        proof {
            assert(!self@.contains(hash_hex(s@))) by {
                if self@.contains(hash_hex(s@)) {
                    let t = choose|t: int|
                        0 <= t < self@.len() && self@[t] == hash_hex(s@);
                    assert(self@[t] != hash_hex(s@));
                }
            }
        }
        false
    }

    /// Whether a domain is blocked: the lowercase name itself, or a
    /// wildcard pattern covering one of its dot-separated suffixes.
    pub fn is_domain_blocked(&self, domain: &str) -> (r: bool)
        ensures
            r == spec_domain_blocked(self@, domain@),
    {
        if domain.is_empty() {
            return false;
        }
        let lower = lowercase(domain);
        if self.contains(lower.as_str()) {
            return true;
        }
        let ghost lc = lower_of(domain@);
        let parts = split_string(lower.as_str(), '.');
        let mut i: usize = 0;
        while i < parts.len()
            invariant
                domain@.len() > 0,
                lc == lower_of(domain@),
                parts.deep_view() =~~= split_on(lc, '.'),
                i <= parts@.len(),
                forall|t: int|
                    0 <= t < i ==> !self@.contains(#[trigger] hash_hex(wildcard_candidate(lc, t))),
            decreases parts@.len() - i,
        {
            let mut cand = String::from_str("*.");
            cand.append(parts[i].as_str());
            proof {
                reveal_strlit("*.");
                assert(split_on(lc, '.').skip(i as int).subrange(0, 1) =~~= seq![
                    parts.deep_view()[i as int],
                ]);
                assert(cand@ =~= seq!['*', '.'] + join_with(
                    parts.deep_view().subrange(i as int, i + 1),
                    '.',
                ));
            }
            let mut t: usize = i + 1;
            while t < parts.len()
                invariant
                    i < t <= parts@.len(),
                    parts.deep_view() =~~= split_on(lc, '.'),
                    cand@ =~= seq!['*', '.'] + join_with(
                        parts.deep_view().subrange(i as int, t as int),
                        '.',
                    ),
                decreases parts@.len() - t,
            {
                cand.append(".");
                cand.append(parts[t].as_str());
                proof {
                    reveal_strlit(".");
                    let sub = parts.deep_view().subrange(i as int, t as int);
                    lemma_join_with_push(sub, '.', parts.deep_view()[t as int]);
                    assert(sub.push(parts.deep_view()[t as int]) =~~= parts.deep_view().subrange(
                        i as int,
                        t + 1,
                    ));
                    assert(cand@ =~= seq!['*', '.'] + join_with(
                        parts.deep_view().subrange(i as int, t + 1),
                        '.',
                    ));
                }
                t = t + 1;
            }
            proof {
                assert(parts.deep_view().subrange(i as int, parts@.len() as int) =~~= split_on(
                    lc,
                    '.',
                ).skip(i as int));
                assert(cand@ =~= wildcard_candidate(lc, i as int));
            }
            if self.contains(cand.as_str()) {
                proof {
                    assert(self@.contains(hash_hex(wildcard_candidate(lc, i as int))));
                    assert(0 <= i < split_on(lc, '.').len());
                }
                return true;
            }
            i = i + 1;
        }
        proof {
            assert(!(exists|t: int|
                0 <= t < split_on(lc, '.').len() && self@.contains(
                    #[trigger] hash_hex(wildcard_candidate(lc, t)),
                )));
        }
        false
    }

    /// Whether a four-octet address is blocked: its exact spelling, or
    /// one of the three wildcard prefixes covering it.
    pub fn is_addr_blocked(&self, addr: [u8; 4]) -> (r: bool)
        ensures
            r == spec_addr_blocked(self@, addr[0], addr[1], addr[2], addr[3]),
    {
        let sa = u8_to_string(addr[0]);
        let sb = u8_to_string(addr[1]);
        let sc = u8_to_string(addr[2]);
        let sd = u8_to_string(addr[3]);
        proof {
            reveal_strlit(".");
            reveal_strlit(".*");
        }
        let mut full = String::from_str(sa.as_str());
        full.append(".");
        full.append(sb.as_str());
        full.append(".");
        full.append(sc.as_str());
        full.append(".");
        full.append(sd.as_str());
        proof {
            assert(full@ =~= addr_chars(addr[0], addr[1], addr[2], addr[3]));
        }
        if self.contains(full.as_str()) {
            return true;
        }
        let mut c3 = String::from_str(sa.as_str());
        c3.append(".");
        c3.append(sb.as_str());
        c3.append(".");
        c3.append(sc.as_str());
        c3.append(".*");
        proof {
            assert(c3@ =~= dec_str(addr[0] as int) + seq!['.'] + dec_str(addr[1] as int)
                + seq!['.'] + dec_str(addr[2] as int) + seq!['.', '*']);
        }
        if self.contains(c3.as_str()) {
            return true;
        }
        let mut c2 = String::from_str(sa.as_str());
        c2.append(".");
        c2.append(sb.as_str());
        c2.append(".*");
        proof {
            assert(c2@ =~= dec_str(addr[0] as int) + seq!['.'] + dec_str(addr[1] as int)
                + seq!['.', '*']);
        }
        if self.contains(c2.as_str()) {
            return true;
        }
        let mut c1 = String::from_str(sa.as_str());
        c1.append(".*");
        proof {
            assert(c1@ =~= dec_str(addr[0] as int) + seq!['.', '*']);
        }
        self.contains(c1.as_str())
    }

    /// Whether a name is blocked: a dotted-quad address is checked by
    /// its address patterns, anything else by its domain patterns.
    pub fn is_blocked(&self, s: &str) -> (r: bool)
        ensures
            r == match parse_ipv4_spec(s@) {
                Some((a, b, c, d)) => spec_addr_blocked(self@, a, b, c, d),
                None => spec_domain_blocked(self@, s@),
            },
    {
        match parse_ipv4(s) {
            Some(octets) => self.is_addr_blocked(octets),
            None => self.is_domain_blocked(s),
        }
    }
}

} // verus!
