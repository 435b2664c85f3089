//! The port-pair parser: validates forwarding specifications of the form
//! `digits:digits` and decomposes each into its local and remote port text,
//! in input order, stopping at the first invalid element.

use vstd::prelude::*;
use vstd::string::StrSliceExecFns;
use vstd::string::StringExecFns;

use crate::decimal::all_digits;
use crate::decimal::is_digit;
use crate::decimal::is_digit_char;

verus! {

/// A local/remote port forwarding request; both sides are kept as the digit
/// text they were written with.
#[derive(Debug)]
pub struct PortPairs {
    pub local: String,
    pub remote: String,
}

/// A forwarding specification was not of the form `digits:digits`; carries
/// the first offending text for user display.
#[derive(Debug)]
pub struct ParsePortPairError(pub String);

/// The colon of a `digits:digits` pair stands exactly at `i`, with non-empty
/// digit text on both sides.
pub open spec fn port_split_at(s: Seq<char>, i: int) -> bool {
    &&& 0 < i
    &&& i + 1 < s.len()
    &&& s[i] == ':'
    &&& all_digits(s.subrange(0, i))
    &&& all_digits(s.subrange(i + 1, s.len() as int))
}

/// `s` matches the anchored `digits:digits` pattern.
pub open spec fn is_port_pair(s: Seq<char>) -> bool {
    exists|i: int| port_split_at(s, i)
}

/// `p` holds exactly the two digit substrings of `s` around its separator.
pub open spec fn pair_of(s: Seq<char>, p: PortPairs) -> bool {
    forall|i: int| #[trigger]
        port_split_at(s, i) ==> p.local@ == s.subrange(0, i) && p.remote@ == s.subrange(
            i + 1,
            s.len() as int,
        )
}

/// In a split pair every character off the colon is a digit.
pub proof fn lemma_port_split_chars(s: Seq<char>, i: int)
    requires
        port_split_at(s, i),
    ensures
        forall|p: int| 0 <= p < s.len() && p != i ==> is_digit(#[trigger] s[p]),
{
    assert forall|p: int| 0 <= p < s.len() && p != i implies is_digit(#[trigger] s[p]) by {
        if p < i {
            assert(s[p] == s.subrange(0, i)[p]);
        } else {
            assert(s[p] == s.subrange(i + 1, s.len() as int)[p - (i + 1)]);
        }
    }
}

/// Parses one forwarding specification into its two port texts.
pub fn parse_port_pair(s: &str) -> (r: Option<PortPairs>)
    ensures
        r is Some <==> is_port_pair(s@),
        r matches Some(p) ==> pair_of(s@, p),
{
    let ghost sv = s@;
    let n = s.unicode_len();
    let mut count: usize = 0;
    let mut c0: usize = 0;
    let mut idx: usize = 0;
    while idx < n
        invariant
            idx <= n,
            n == sv.len(),
            sv == s@,
            count <= 1,
            count == 1 ==> c0 < idx && sv[c0 as int] == ':',
            forall|p: int| 0 <= p < idx && #[trigger] sv[p] == ':' ==> count == 1 && p == c0,
            forall|p: int| 0 <= p < idx && #[trigger] sv[p] != ':' ==> is_digit(sv[p]),
        decreases n - idx,
    {
        let c = s.get_char(idx);
        if c == ':' {
            if count == 0 {
                c0 = idx;
                count = 1;
            } else {
                proof {
                    assert forall|i: int| !#[trigger] port_split_at(sv, i) by {
                        if port_split_at(sv, i) {
                            lemma_port_split_chars(sv, i);
                            assert(!is_digit(':'));
                            assert(c0 as int == i);
                            assert(idx as int == i);
                            assert(false);
                        }
                    }
                }
                return None;
            }
        } else if !is_digit_char(c) {
            proof {
                assert forall|i: int| !#[trigger] port_split_at(sv, i) by {
                    if port_split_at(sv, i) {
                        lemma_port_split_chars(sv, i);
                        assert(false);
                    }
                }
            }
            return None;
        }
        idx += 1;
    }
    if count == 0 {
        proof {
            assert forall|i: int| !#[trigger] port_split_at(sv, i) by {
                if port_split_at(sv, i) {
                    assert(sv[i] == ':');
                    assert(false);
                }
            }
        }
        return None;
    }
    if c0 == 0 || n <= c0 + 1 {
        proof {
            assert forall|i: int| !#[trigger] port_split_at(sv, i) by {
                if port_split_at(sv, i) {
                    assert(sv[i] == ':');
                    assert(i == c0);
                    assert(false);
                }
            }
        }
        return None;
    }
    proof {
        assert(all_digits(sv.subrange(0, c0 as int))) by {
            assert forall|q: int| 0 <= q < c0 implies is_digit(
                #[trigger] sv.subrange(0, c0 as int)[q],
            ) by {
                assert(sv.subrange(0, c0 as int)[q] == sv[q]);
                assert(sv[q] != ':');
            }
        }
        assert(all_digits(sv.subrange(c0 as int + 1, sv.len() as int))) by {
            assert forall|q: int| 0 <= q < sv.len() - c0 - 1 implies is_digit(
                #[trigger] sv.subrange(c0 as int + 1, sv.len() as int)[q],
            ) by {
                assert(sv.subrange(c0 as int + 1, sv.len() as int)[q] == sv[q + c0 + 1]);
                assert(sv[q + c0 + 1] != ':');
            }
        }
        assert(port_split_at(sv, c0 as int));
        assert forall|i: int| #[trigger] port_split_at(sv, i) implies i == c0 as int by {
            assert(sv[i] == ':');
        }
    }
    let local = String::from_str(s.substring_char(0, c0));
    let remote = String::from_str(s.substring_char(c0 + 1, n));
    Some(PortPairs { local, remote })
}

/// Parses a sequence of forwarding specifications in input order.
///
/// Succeeds exactly when every element matches `digits:digits`, returning
/// the pairs in input order; an empty input yields an empty list. On the
/// first non-matching element it stops and fails, carrying that element's
/// text; later elements are never examined.
pub fn get_port_pairs(args: &Vec<String>) -> (r: Result<Vec<PortPairs>, ParsePortPairError>)
    ensures
        r is Ok <==> forall|q: int| 0 <= q < args@.len() ==> is_port_pair(#[trigger] args@[q]@),
        r matches Ok(ps) ==> ps@.len() == args@.len() && forall|q: int|
            0 <= q < args@.len() ==> pair_of(args@[q]@, #[trigger] ps@[q]),
        r matches Err(e) ==> exists|q: int|
            {
                &&& 0 <= q < args@.len()
                &&& !is_port_pair(#[trigger] args@[q]@)
                &&& e.0@ == args@[q]@
                &&& forall|t: int| 0 <= t < q ==> is_port_pair(#[trigger] args@[t]@)
            },
{
    let mut result: Vec<PortPairs> = Vec::new();
    let mut q: usize = 0;
    while q < args.len()
        invariant
            q <= args@.len(),
            result@.len() == q,
            forall|t: int| 0 <= t < q ==> is_port_pair(#[trigger] args@[t]@),
            forall|t: int| 0 <= t < q ==> pair_of(args@[t]@, #[trigger] result@[t]),
        decreases args@.len() - q,
    {
        let parsed = parse_port_pair(args[q].as_str());
        match parsed {
            Some(pair) => {
                result.push(pair);
            },
            None => {
                return Err(ParsePortPairError(args[q].clone()));
            },
        }
        q += 1;
    }
    Ok(result)
}

} // verus!
