//! Outside DNS lookups that bypass `/etc/hosts`.
//!
//! Every managed domain maps to `127.0.0.1` in the hosts file; a proxy rule
//! whose target is that same domain would loop back into Caddy. The app asks
//! public resolvers through `dig` instead. This module decides which resolver
//! to ask next and reads `dig +short` output; the caller runs `dig`.

use vstd::prelude::*;
use vstd::string::*;
use crate::text::{
    all_digits, chars_of, digits_value, extend_str, is_digit, lines, parse_uint_chars, pieces, split_chars,
    split_lines, string_of, trim, trim_chars, views,
};

verus! {

/// Public resolvers, asked in this order.
pub const RESOLVER_PRIMARY: &'static str = "8.8.8.8";

pub const RESOLVER_SECONDARY: &'static str = "1.1.1.1";

pub const RESOLVER_COUNT: usize = 2;

/// Per-query timeout in seconds, as passed to `dig +time=`.
pub const QUERY_TIMEOUT_OPTION: &'static str = "+time=2";

pub open spec fn resolver(i: int) -> Seq<char> {
    if i == 0 {
        RESOLVER_PRIMARY@
    } else {
        RESOLVER_SECONDARY@
    }
}

/// One part of a dotted quad: one or more decimal digits whose value is at
/// most 255.
pub open spec fn octet_text(p: Seq<char>) -> bool {
    p.len() > 0 && all_digits(p) && digits_value(p) <= 255
}

/// A dotted quad: four `'.'`-separated parts, each made of decimal digits
/// only and at most 255.
pub open spec fn ipv4_text(s: Seq<char>) -> bool {
    let ps = pieces(s, '.');
    &&& s.len() > 0
    &&& ps.len() == 4
    &&& forall|i: int| 0 <= i < 4 ==> #[trigger] octet_text(ps[i])
}

/// Whether a part is an octet.
fn is_octet(p: &Vec<char>) -> (r: bool)
    ensures
        r == octet_text(p@),
{
    if p.len() == 0 {
        return false;
    }
    if p[0] == '+' {
        assert(!is_digit(p@[0]));
        return false;
    }
    parse_uint_chars(p, 255).is_some()
}

/// Whether `s` looks like a dotted-quad IPv4 address.
pub fn is_ipv4(s: &str) -> (r: bool)
    ensures
        r == ipv4_text(s@),
{
    let v = chars_of(s);
    if v.len() == 0 {
        return false;
    }
    let ps = split_chars(&v, '.');
    if ps.len() != 4 {
        return false;
    }
    let mut i: usize = 0;
    while i < 4
        invariant
            i <= 4,
            ps.len() == 4,
            v@ == s@,
            v@.len() > 0,
            views(ps@) == pieces(v@, '.'),
            forall|k: int| 0 <= k < i ==> #[trigger] octet_text(pieces(v@, '.')[k]),
        decreases 4 - i,
    {
        assert(ps@[i as int]@ == pieces(v@, '.')[i as int]);
        if !is_octet(&ps[i]) {
            return false;
        }
        i = i + 1;
    }
    true
}

/// The first line that is an IPv4 address after trimming, trimmed.
pub open spec fn first_ipv4_line(ls: Seq<Seq<char>>) -> Option<Seq<char>>
    decreases ls.len(),
{
    if ls.len() == 0 {
        None
    } else if ipv4_text(trim(ls[0])) {
        Some(trim(ls[0]))
    } else {
        first_ipv4_line(ls.drop_first())
    }
}

/// Picks the first line of `dig +short` output that looks like a dotted-quad
/// IPv4 address; CNAME lines before the A records are skipped.
pub fn first_ipv4(output: &str) -> (r: Option<String>)
    ensures
        match first_ipv4_line(lines(output@)) {
            Some(l) => r matches Some(s) && s@ == l,
            None => r.is_none(),
        },
{
    let v = chars_of(output);
    let ls = split_lines(&v);
    let mut i: usize = 0;
    assert(views(ls@).skip(0) =~= views(ls@));
    while i < ls.len()
        invariant
            i <= ls.len(),
            views(ls@) == lines(output@),
            first_ipv4_line(lines(output@)) == first_ipv4_line(views(ls@).skip(i as int)),
        decreases ls.len() - i,
    {
        let ghost rest = views(ls@).skip(i as int);
        assert(rest[0] == ls@[i as int]@);
        assert(rest.drop_first() =~= views(ls@).skip(i + 1));
        let t = trim_chars(&ls[i]);
        let ts = string_of(&t);
        if is_ipv4(ts.as_str()) {
            return Some(ts);
        }
        i = i + 1;
    }
    assert(views(ls@).skip(ls.len() as int) =~= Seq::<Seq<char>>::empty());
    None
}

/// The arguments of the `dig` call that asks `resolver` for the A records of
/// `host`.
pub fn dig_args(host: &str, resolver: &str) -> (r: Vec<String>)
    ensures
        r@.map_values(|a: String| a@) == seq![
            "+short"@,
            "+tries=1"@,
            QUERY_TIMEOUT_OPTION@,
            seq!['@'] + resolver@,
            host@,
            "A"@,
        ],
{
    let mut at: Vec<char> = Vec::new();
    at.push('@');
    extend_str(&mut at, resolver);
    let mut r: Vec<String> = Vec::new();
    r.push(String::from_str("+short"));
    r.push(String::from_str("+tries=1"));
    r.push(String::from_str(QUERY_TIMEOUT_OPTION));
    r.push(string_of(&at));
    r.push(String::from_str(host));
    r.push(String::from_str("A"));
    assert(r@.map_values(|a: String| a@) =~= seq![
        "+short"@,
        "+tries=1"@,
        QUERY_TIMEOUT_OPTION@,
        seq!['@'] + resolver@,
        host@,
        "A"@,
    ]);
    r
}

/// What one `dig` call yields: the first IPv4 address of its output, or an
/// error when `dig` failed or printed no A record.
pub open spec fn query_result(
    host: Seq<char>,
    success: bool,
    status: Seq<char>,
    stdout: Seq<char>,
    stderr: Seq<char>,
) -> Result<Seq<char>, Seq<char>> {
    if !success {
        Err("dig exited "@ + status + ": "@ + stderr)
    } else {
        match first_ipv4_line(lines(stdout)) {
            Some(ip) => Ok(ip),
            None => Err("no A record returned for "@ + host),
        }
    }
}

/// Reads the outcome of one `dig` call: its exit success, its exit status as
/// text, and its standard output and error.
pub fn query_outcome(host: &str, success: bool, status: &str, stdout: &str, stderr: &str) -> (r:
    Result<String, String>)
    ensures
        match query_result(host@, success, status@, stdout@, stderr@) {
            Ok(ip) => r matches Ok(s) && s@ == ip,
            Err(e) => r matches Err(s) && s@ == e,
        },
{
    if !success {
        let mut m: Vec<char> = Vec::new();
        extend_str(&mut m, "dig exited ");
        extend_str(&mut m, status);
        extend_str(&mut m, ": ");
        extend_str(&mut m, stderr);
        return Err(string_of(&m));
    }
    match first_ipv4(stdout) {
        Some(ip) => Ok(ip),
        None => {
            let mut m: Vec<char> = Vec::new();
            extend_str(&mut m, "no A record returned for ");
            extend_str(&mut m, host);
            Err(string_of(&m))
        },
    }
}

/// What to do next while resolving a host: ask a resolver, or stop with the
/// address or the error.
pub enum ResolveStep {
    Query { resolver: String },
    Done(Result<String, String>),
}

/// The view of a step: `Ok(resolver)` to ask it; `Err(result)` when done.
pub open spec fn step_view(s: ResolveStep) -> Result<Seq<char>, Result<Seq<char>, Seq<char>>> {
    match s {
        ResolveStep::Query { resolver } => Ok(resolver@),
        ResolveStep::Done(Ok(ip)) => Err(Ok(ip@)),
        ResolveStep::Done(Err(e)) => Err(Err(e@)),
    }
}

/// The first step for `host`: an empty host is an error; otherwise the
/// first resolver is asked.
pub open spec fn first_step(host: Seq<char>) -> Result<Seq<char>, Result<Seq<char>, Seq<char>>> {
    if host.len() == 0 {
        Err(Err("empty host"@))
    } else {
        Ok(resolver(0))
    }
}

/// The step after resolver number `attempt` answered `outcome`: an address
/// ends the search; an error moves on to the next resolver, and after the
/// last one it is the final result.
pub open spec fn next_step(attempt: int, outcome: Result<Seq<char>, Seq<char>>) -> Result<
    Seq<char>,
    Result<Seq<char>, Seq<char>>,
> {
    match outcome {
        Ok(ip) => Err(Ok(ip)),
        Err(e) => if attempt + 1 < RESOLVER_COUNT {
            Ok(resolver(attempt + 1))
        } else {
            Err(Err(e))
        },
    }
}

/// Starts resolving `host` through public DNS (see `first_step`).
pub fn resolve_external(host: &str) -> (r: ResolveStep)
    ensures
        step_view(r) == first_step(host@),
{
    if host.unicode_len() == 0 {
        ResolveStep::Done(Err(String::from_str("empty host")))
    } else {
        ResolveStep::Query { resolver: String::from_str(RESOLVER_PRIMARY) }
    }
}

/// The step after resolver number `attempt` gave `outcome` (see `next_step`).
pub fn resolve_next(attempt: usize, outcome: Result<String, String>) -> (r: ResolveStep)
    ensures
        step_view(r) == next_step(
            attempt as int,
            match outcome {
                Ok(ip) => Ok(ip@),
                Err(e) => Err(e@),
            },
        ),
{
    match outcome {
        Ok(ip) => ResolveStep::Done(Ok(ip)),
        Err(e) => {
            if attempt < RESOLVER_COUNT - 1 {
                ResolveStep::Query { resolver: String::from_str(RESOLVER_SECONDARY) }
            } else {
                ResolveStep::Done(Err(e))
            }
        },
    }
}

/// Runs the search from `step`, the resolver asked at `attempt` answering
/// `outcomes[0]`, the next `outcomes[1]`, and so on: the resolvers asked, in
/// order, and the result once the search is done (`None` when the outcomes
/// run out first).
pub open spec fn run_from(
    step: Result<Seq<char>, Result<Seq<char>, Seq<char>>>,
    attempt: int,
    outcomes: Seq<Result<Seq<char>, Seq<char>>>,
) -> (Seq<Seq<char>>, Option<Result<Seq<char>, Seq<char>>>)
    decreases outcomes.len(),
{
    match step {
        Err(result) => (Seq::empty(), Some(result)),
        Ok(r) => if outcomes.len() == 0 {
            (seq![r], None)
        } else {
            let (asked, result) = run_from(
                next_step(attempt, outcomes[0]),
                attempt + 1,
                outcomes.drop_first(),
            );
            (seq![r] + asked, result)
        },
    }
}

/// The search asks the public resolvers in order, at most once each, and
/// ends with the first address found, or else with the last resolver's
/// error; an empty host asks nothing. Whatever the resolvers answer, two
/// answers are enough to end it.
pub proof fn lemma_resolvers_in_order(host: Seq<char>, outcomes: Seq<Result<Seq<char>, Seq<char>>>)
    requires
        outcomes.len() >= RESOLVER_COUNT,
    ensures
        host.len() == 0 ==> run_from(first_step(host), 0, outcomes) == (
            Seq::<Seq<char>>::empty(),
            Some(Err::<Seq<char>, Seq<char>>("empty host"@)),
        ),
        host.len() > 0 && outcomes[0] is Ok ==> run_from(first_step(host), 0, outcomes) == (
            seq![RESOLVER_PRIMARY@],
            Some(outcomes[0]),
        ),
        host.len() > 0 && outcomes[0] is Err ==> run_from(first_step(host), 0, outcomes) == (
            seq![RESOLVER_PRIMARY@, RESOLVER_SECONDARY@],
            Some(outcomes[1]),
        ),
{
    if host.len() > 0 {
        let rest = outcomes.drop_first();
        let rest2 = rest.drop_first();
        assert(rest[0] == outcomes[1]);
        let s1 = next_step(0, outcomes[0]);
        match outcomes[0] {
            Ok(ip) => {
                assert(s1 == Err::<Seq<char>, Result<Seq<char>, Seq<char>>>(Ok(ip)));
                assert(run_from(s1, 1, rest) == (Seq::<Seq<char>>::empty(), Some(outcomes[0])));
                assert(seq![resolver(0)] + Seq::<Seq<char>>::empty() =~= seq![RESOLVER_PRIMARY@]);
            },
            Err(e) => {
                assert(s1 == Ok::<Seq<char>, Result<Seq<char>, Seq<char>>>(resolver(1)));
                let s2 = next_step(1, rest[0]);
                match outcomes[1] {
                    Ok(ip) => {
                        assert(s2 == Err::<Seq<char>, Result<Seq<char>, Seq<char>>>(Ok(ip)));
                    },
                    Err(e2) => {
                        assert(s2 == Err::<Seq<char>, Result<Seq<char>, Seq<char>>>(Err(e2)));
                    },
                }
                assert(run_from(s2, 2, rest2) == (Seq::<Seq<char>>::empty(), Some(outcomes[1])));
                assert(run_from(s1, 1, rest) == (
                    seq![resolver(1)] + Seq::<Seq<char>>::empty(),
                    Some(outcomes[1]),
                ));
                assert(seq![resolver(0)] + (seq![resolver(1)] + Seq::<Seq<char>>::empty())
                    =~= seq![RESOLVER_PRIMARY@, RESOLVER_SECONDARY@]);
            },
        }
    }
}

} // verus!
