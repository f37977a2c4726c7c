//! Character-level string utilities: a string's characters as a vector,
//! a string built back from characters, and splitting a `host:port`
//! locator.

use vstd::prelude::*;
use vstd::std_specs::iter::IteratorSpec;

verus! {

broadcast use vstd::string::group_string_axioms;

/// Relies on String::push: appends exactly the one character.
#[verifier::external_body]
pub fn push_char(s: &mut String, c: char)
    ensures
        final(s)@ == old(s)@ + seq![c],
{
    s.push(c);
}

/// The characters of a string, in order, as a vector.
pub fn chars_of(s: &str) -> (out: Vec<char>)
    ensures
        out@ == s@,
{
    let mut it = s.chars();
    let ghost total = s@;
    let mut out: Vec<char> = Vec::new();
    loop
        invariant
            out@ + it.remaining() == total,
            it.decrease() is Some,
        ensures
            out@ == total,
        decreases it.decrease()->0,
    {
        match it.next() {
            Some(c) => {
                out.push(c);
                proof {
                    assert(out@ + it.remaining() =~= total);
                }
            },
            None => {
                proof {
                    assert(out@ =~= total);
                }
                break ;
            },
        }
    }
    out
}

/// A string holding exactly the given characters, in order.
pub fn string_from_chars(cs: &Vec<char>) -> (out: String)
    ensures
        out@ == cs@,
{
    let mut out = String::new();
    let mut i: usize = 0;
    while i < cs.len()
        invariant
            i <= cs.len(),
            out@ == cs@.take(i as int),
        decreases cs.len() - i,
    {
        push_char(&mut out, cs[i]);
        proof {
            assert(cs@.take(i + 1) =~= cs@.take(i as int) + seq![cs@[i as int]]);
        }
        i = i + 1;
    }
    proof {
        assert(cs@.take(cs.len() as int) =~= cs@);
    }
    out
}

/// The index of the first `sep` in `s` at or after `from`, or `s.len()`
/// when there is none.
pub open spec fn index_of_from(s: Seq<char>, sep: char, from: int) -> int
    decreases s.len() - from when 0 <= from <= s.len()
{
    if from >= s.len() {
        s.len() as int
    } else if s[from] == sep {
        from
    } else {
        index_of_from(s, sep, from + 1)
    }
}

proof fn lemma_index_of_from_bounds(s: Seq<char>, sep: char, from: int)
    requires
        0 <= from <= s.len(),
    ensures
        from <= index_of_from(s, sep, from) <= s.len(),
        index_of_from(s, sep, from) < s.len() ==> s[index_of_from(s, sep, from)] == sep,
    decreases s.len() - from,
{
    if from < s.len() && s[from] != sep {
        lemma_index_of_from_bounds(s, sep, from + 1);
    }
}

/// Split a `host:port` locator at its colons, as the sweep's probe setup
/// does: the host is everything before the first colon, the port what
/// stands between the first colon and the second one (or the end).  A
/// locator without a colon has no port and is rejected.
pub open spec fn spec_host_port(s: Seq<char>) -> Option<(Seq<char>, Seq<char>)> {
    let i = index_of_from(s, ':', 0);
    if i == s.len() {
        None
    } else {
        Some((s.take(i), s.subrange(i + 1, index_of_from(s, ':', i + 1))))
    }
}

/// Split a `host:port` locator into host and port.
pub fn split_host_port(addr: &str) -> (r: Option<(String, String)>)
    ensures
        match r {
            Some(hp) => spec_host_port(addr@) == Some((hp.0@, hp.1@)),
            None => spec_host_port(addr@) is None,
        },
{
    let cs = chars_of(addr);
    let n = cs.len();
    let mut i: usize = 0;
    while i < n && cs[i] != ':'
        invariant
            0 <= i <= n,
            n == cs.len(),
            cs@ == addr@,
            index_of_from(cs@, ':', 0) == index_of_from(cs@, ':', i as int),
        decreases n - i,
    {
        i = i + 1;
    }
    proof {
        lemma_index_of_from_bounds(cs@, ':', i as int);
        assert(index_of_from(cs@, ':', 0) == i as int);
    }
    if i == n {
        return None;
    }
    let mut host: Vec<char> = Vec::new();
    let mut k: usize = 0;
    while k < i
        invariant
            0 <= k <= i < n,
            n == cs.len(),
            host@ == cs@.take(i as int).take(k as int),
        decreases i - k,
    {
        host.push(cs[k]);
        proof {
            assert(cs@.take(i as int).take(k + 1) =~= cs@.take(i as int).take(k as int) + seq![
                cs@[k as int],
            ]);
        }
        k = k + 1;
    }
    proof {
        assert(cs@.take(i as int).take(i as int) =~= cs@.take(i as int));
    }
    let mut j: usize = i + 1;
    while j < n && cs[j] != ':'
        invariant
            i + 1 <= j <= n,
            n == cs.len(),
            cs@ == addr@,
            index_of_from(cs@, ':', i + 1) == index_of_from(cs@, ':', j as int),
        decreases n - j,
    {
        j = j + 1;
    }
    proof {
        lemma_index_of_from_bounds(cs@, ':', j as int);
        assert(index_of_from(cs@, ':', i + 1) == j as int);
    }
    let mut port: Vec<char> = Vec::new();
    let mut k2: usize = i + 1;
    while k2 < j
        invariant
            i + 1 <= k2 <= j <= n,
            n == cs.len(),
            port@ == cs@.subrange(i + 1, k2 as int),
        decreases j - k2,
    {
        port.push(cs[k2]);
        proof {
            assert(cs@.subrange(i + 1, k2 + 1) =~= cs@.subrange(i + 1, k2 as int) + seq![
                cs@[k2 as int],
            ]);
        }
        k2 = k2 + 1;
    }
    let host_s = string_from_chars(&host);
    let port_s = string_from_chars(&port);
    Some((host_s, port_s))
}

} // verus!
