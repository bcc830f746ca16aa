//! Turning the server address of a handshake into the key that the routing
//! table is asked for. Client mods rewrite the address: a multiplexer puts
//! `///` and the client's address behind it, Forge appends `FML` or `FML2`,
//! and some clients leave a NUL at the end.

use crate::text::{chars_of, string_of};
use vstd::prelude::*;

verus! {

/// The separator that a multiplexer puts before the client's address.
pub open spec fn shield_separator() -> Seq<char> {
    seq!['/', '/', '/']
}

/// The marker of Forge clients.
pub open spec fn forge_marker() -> Seq<char> {
    seq!['F', 'M', 'L']
}

/// The marker of Forge clients of the second generation.
pub open spec fn forge2_marker() -> Seq<char> {
    seq!['F', 'M', 'L', '2']
}

/// `pat` stands in `s` at index `i`.
pub open spec fn occurs_at(s: Seq<char>, pat: Seq<char>, i: int) -> bool {
    0 <= i && i + pat.len() <= s.len() && s.subrange(i, i + pat.len()) == pat
}

/// `pat` stands somewhere in `s`.
pub open spec fn contains_pattern(s: Seq<char>, pat: Seq<char>) -> bool {
    exists|i: int| occurs_at(s, pat, i)
}

/// `i` is the least index at which `pat` stands in `s`.
pub open spec fn is_first_occurrence(s: Seq<char>, pat: Seq<char>, i: int) -> bool {
    occurs_at(s, pat, i) && forall|j: int| 0 <= j < i ==> !occurs_at(s, pat, j)
}

/// The least index at which `pat` stands in `s`, where it stands at all.
pub open spec fn first_occurrence(s: Seq<char>, pat: Seq<char>) -> int {
    choose|i: int| is_first_occurrence(s, pat, i)
}

/// `s` with the first occurrence of `pat` taken out.
pub open spec fn without_first(s: Seq<char>, pat: Seq<char>) -> Seq<char> {
    let i = first_occurrence(s, pat);
    s.take(i) + s.skip(i + pat.len())
}

/// What precedes the first `///`, or all of `s` where there is none.
pub open spec fn without_shield_tail(s: Seq<char>) -> Seq<char> {
    if contains_pattern(s, shield_separator()) {
        s.take(first_occurrence(s, shield_separator()))
    } else {
        s
    }
}

/// `s` without its first `FML2`; where there is none, without its first `FML`.
pub open spec fn without_forge_marker(s: Seq<char>) -> Seq<char> {
    if contains_pattern(s, forge2_marker()) {
        without_first(s, forge2_marker())
    } else if contains_pattern(s, forge_marker()) {
        without_first(s, forge_marker())
    } else {
        s
    }
}

/// `s` without one NUL at its end.
pub open spec fn without_trailing_nul(s: Seq<char>) -> Seq<char> {
    if s.len() > 0 && s.last() == '\0' {
        s.drop_last()
    } else {
        s
    }
}

/// The routing key of a server address: the three rewrites, in this order,
/// each applied once.
pub open spec fn routing_key(address: Seq<char>) -> Seq<char> {
    without_trailing_nul(without_forge_marker(without_shield_tail(address)))
}

/// A string that none of the rewrites changes.
pub open spec fn is_plain(s: Seq<char>) -> bool {
    &&& !contains_pattern(s, shield_separator())
    &&& !contains_pattern(s, forge_marker())
    &&& !(s.len() > 0 && s.last() == '\0')
}

proof fn lemma_least_occurrence(s: Seq<char>, pat: Seq<char>, i: int)
    requires
        occurs_at(s, pat, i),
    ensures
        exists|k: int| is_first_occurrence(s, pat, k),
    decreases i,
{
    if exists|j: int| 0 <= j < i && occurs_at(s, pat, j) {
        let j = choose|j: int| 0 <= j < i && occurs_at(s, pat, j);
        lemma_least_occurrence(s, pat, j);
    } else {
        assert(is_first_occurrence(s, pat, i));
    }
}

/// Where `pat` stands in `s`, its first occurrence is an occurrence and no
/// occurrence precedes it.
pub proof fn lemma_first_occurrence(s: Seq<char>, pat: Seq<char>)
    requires
        contains_pattern(s, pat),
    ensures
        is_first_occurrence(s, pat, first_occurrence(s, pat)),
{
    let i = choose|i: int| occurs_at(s, pat, i);
    lemma_least_occurrence(s, pat, i);
}

/// The least occurrence is unique.
pub proof fn lemma_first_occurrence_is(s: Seq<char>, pat: Seq<char>, i: int)
    requires
        is_first_occurrence(s, pat, i),
    ensures
        contains_pattern(s, pat),
        first_occurrence(s, pat) == i,
{
    let k = first_occurrence(s, pat);
    assert(is_first_occurrence(s, pat, k));
    if k < i {
        assert(!occurs_at(s, pat, k));
    } else if i < k {
        assert(!occurs_at(s, pat, i));
    }
}

/// A string that holds `FML2` holds `FML`.
proof fn lemma_forge2_holds_forge(s: Seq<char>)
    requires
        contains_pattern(s, forge2_marker()),
    ensures
        contains_pattern(s, forge_marker()),
{
    let i = choose|i: int| occurs_at(s, forge2_marker(), i);
    let long = s.subrange(i, i + 4);
    let short = s.subrange(i, i + 3);
    assert(long == forge2_marker());
    assert(short =~= forge_marker()) by {
        assert(short[0] == long[0]);
        assert(short[1] == long[1]);
        assert(short[2] == long[2]);
    }
    assert(occurs_at(s, forge_marker(), i));
}

/// No rewrite lengthens a string, and one that applies shortens it.
proof fn lemma_rewrites_shorten(s: Seq<char>)
    ensures
        without_shield_tail(s).len() <= s.len(),
        contains_pattern(s, shield_separator()) ==> without_shield_tail(s).len() < s.len(),
        without_forge_marker(s).len() <= s.len(),
        contains_pattern(s, forge_marker()) ==> without_forge_marker(s).len() < s.len(),
        without_trailing_nul(s).len() <= s.len(),
        s.len() > 0 && s.last() == '\0' ==> without_trailing_nul(s).len() < s.len(),
{
    if contains_pattern(s, shield_separator()) {
        lemma_first_occurrence(s, shield_separator());
    }
    if contains_pattern(s, forge2_marker()) {
        lemma_first_occurrence(s, forge2_marker());
        lemma_forge2_holds_forge(s);
    } else if contains_pattern(s, forge_marker()) {
        lemma_first_occurrence(s, forge_marker());
    }
}

/// The strings that normalization leaves as they are: those without `///`,
/// without `FML` and without a NUL at the end.
pub proof fn lemma_routing_key_fixed_points(s: Seq<char>)
    ensures
        routing_key(s) == s <==> is_plain(s),
{
    let a = without_shield_tail(s);
    let b = without_forge_marker(a);
    lemma_rewrites_shorten(s);
    lemma_rewrites_shorten(a);
    lemma_rewrites_shorten(b);
    if is_plain(s) {
        if contains_pattern(s, forge2_marker()) {
            lemma_forge2_holds_forge(s);
        }
    }
}

/// Normalizing twice gives what normalizing once gives, for every address
/// whose routing key holds no further marker.
pub proof fn lemma_routing_key_idempotent(address: Seq<char>)
    requires
        is_plain(routing_key(address)),
    ensures
        routing_key(routing_key(address)) == routing_key(address),
{
    lemma_routing_key_fixed_points(routing_key(address));
}

fn stands_at(s: &Vec<char>, pat: &Vec<char>, at: usize) -> (yes: bool)
    requires
        at + pat.len() <= s.len(),
    ensures
        yes == occurs_at(s@, pat@, at as int),
{
    let mut k: usize = 0;
    while k < pat.len()
        invariant
            k <= pat.len(),
            at + pat.len() <= s.len(),
            forall|m: int| 0 <= m < k ==> s@[at + m] == pat@[m],
        decreases pat.len() - k,
    {
        if s[at + k] != pat[k] {
            assert(s@.subrange(at as int, at + pat.len())[k as int] != pat@[k as int]);
            return false;
        }
        k = k + 1;
    }
    assert(s@.subrange(at as int, at + pat.len()) =~= pat@);
    true
}

/// The least index at which `pat` stands in `s`.
pub fn find_first(s: &Vec<char>, pat: &Vec<char>) -> (found: Option<usize>)
    ensures
        match found {
            Some(i) => is_first_occurrence(s@, pat@, i as int) && first_occurrence(s@, pat@) == i,
            None => !contains_pattern(s@, pat@),
        },
{
    if pat.len() > s.len() {
        return None;
    }
    if pat.len() == 0 {
        proof {
            assert(s@.subrange(0, 0) =~= pat@);
            lemma_first_occurrence_is(s@, pat@, 0);
        }
        return Some(0);
    }
    let last: usize = s.len() - pat.len();
    let mut i: usize = 0;
    while i <= last
        invariant
            i <= last + 1,
            pat.len() >= 1,
            last + pat.len() == s.len(),
            forall|j: int| 0 <= j < i ==> !occurs_at(s@, pat@, j),
        decreases last + 1 - i,
    {
        if stands_at(s, pat, i) {
            proof {
                lemma_first_occurrence_is(s@, pat@, i as int);
            }
            return Some(i);
        }
        i = i + 1;
    }
    None
}

fn remove_range(s: &Vec<char>, from: usize, len: usize) -> (out: Vec<char>)
    requires
        from + len <= s.len(),
    ensures
        out@ == s@.take(from as int) + s@.skip(from + len),
{
    let mut out: Vec<char> = Vec::new();
    let mut i: usize = 0;
    while i < from
        invariant
            i <= from,
            from + len <= s.len(),
            out@ == s@.take(i as int),
        decreases from - i,
    {
        out.push(s[i]);
        i = i + 1;
    }
    let mut j: usize = from + len;
    while j < s.len()
        invariant
            from + len <= j <= s.len(),
            out@ == s@.take(from as int) + s@.subrange(from + len, j as int),
        decreases s.len() - j,
    {
        out.push(s[j]);
        j = j + 1;
        assert(s@.subrange(from + len, j as int) =~= s@.subrange(from + len, j - 1).push(
            s@[j - 1],
        ));
    }
    assert(s@.subrange(from + len, s@.len() as int) =~= s@.skip(from + len));
    out
}

/// The routing key of the server address that a client sent.
pub fn normalize(address: &str) -> (key: String)
    ensures
        key@ == routing_key(address@),
{
    let mut chars = chars_of(address);
    let slashes: Vec<char> = vec!['/', '/', '/'];
    let forge2: Vec<char> = vec!['F', 'M', 'L', '2'];
    let forge: Vec<char> = vec!['F', 'M', 'L'];
    assert(slashes@ =~= shield_separator());
    assert(forge2@ =~= forge2_marker());
    assert(forge@ =~= forge_marker());
    match find_first(&chars, &slashes) {
        Some(i) => {
            chars.truncate(i);
            assert(chars@ =~= without_shield_tail(address@));
        },
        None => {},
    }
    let ghost cut = chars@;
    match find_first(&chars, &forge2) {
        Some(i) => {
            chars = remove_range(&chars, i, 4);
        },
        None => {
            match find_first(&chars, &forge) {
                Some(i) => {
                    chars = remove_range(&chars, i, 3);
                },
                None => {},
            }
        },
    }
    assert(chars@ == without_forge_marker(cut));
    let n = chars.len();
    if n > 0 && chars[n - 1] == '\0' {
        chars.truncate(n - 1);
        assert(chars@ =~= without_trailing_nul(without_forge_marker(cut)));
    }
    string_of(&chars)
}

} // verus!
