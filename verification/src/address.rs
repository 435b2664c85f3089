//! The address parser: validates dotted-decimal text of the form
//! `digits.digits.digits.digits` and decomposes it into its four numeric
//! components.

use vstd::prelude::*;
use vstd::string::StrSliceExecFns;
use vstd::string::StringExecFns;

use crate::decimal::all_digits;
use crate::decimal::digit_val;
use crate::decimal::digit_value;
use crate::decimal::digits_val;
use crate::decimal::is_digit;
use crate::decimal::is_digit_char;
use crate::decimal::lemma_digits_val_take_le;

verus! {

/// The four numeric components of a dotted-decimal address, in textual order.
pub type IPv4 = Vec<u64>;

/// The raw text was not four dot-separated digit groups (or a group does not
/// fit in a 64-bit component); carries the offending text for user display.
#[derive(Debug)]
pub struct ParseIpError(pub String);

/// The dots of a four-group dotted numeral stand exactly at `i`, `j` and `k`,
/// every other character is a decimal digit, and all four groups are
/// non-empty.
pub open spec fn ipv4_split(s: Seq<char>, i: int, j: int, k: int) -> bool {
    &&& 0 < i
    &&& i + 1 < j
    &&& j + 1 < k
    &&& k + 1 < s.len()
    &&& s[i] == '.'
    &&& s[j] == '.'
    &&& s[k] == '.'
    &&& all_digits(s.subrange(0, i))
    &&& all_digits(s.subrange(i + 1, j))
    &&& all_digits(s.subrange(j + 1, k))
    &&& all_digits(s.subrange(k + 1, s.len() as int))
}

/// `s` matches the anchored four-group dotted-digit pattern.
pub open spec fn is_ipv4_str(s: Seq<char>) -> bool {
    exists|i: int, j: int, k: int| ipv4_split(s, i, j, k)
}

/// Every group's numeric value fits in a 64-bit component.
pub open spec fn groups_fit(s: Seq<char>, i: int, j: int, k: int) -> bool {
    &&& digits_val(s.subrange(0, i)) <= u64::MAX
    &&& digits_val(s.subrange(i + 1, j)) <= u64::MAX
    &&& digits_val(s.subrange(j + 1, k)) <= u64::MAX
    &&& digits_val(s.subrange(k + 1, s.len() as int)) <= u64::MAX
}

/// `a` holds the numeric values of the four groups of `s`, in textual order.
pub open spec fn octets_of_split(s: Seq<char>, i: int, j: int, k: int, a: Seq<u64>) -> bool {
    &&& a.len() == 4
    &&& a[0] as nat == digits_val(s.subrange(0, i))
    &&& a[1] as nat == digits_val(s.subrange(i + 1, j))
    &&& a[2] as nat == digits_val(s.subrange(j + 1, k))
    &&& a[3] as nat == digits_val(s.subrange(k + 1, s.len() as int))
}

/// In a split string every character off the three dots is a digit.
pub proof fn lemma_ipv4_split_chars(s: Seq<char>, i: int, j: int, k: int)
    requires
        ipv4_split(s, i, j, k),
    ensures
        forall|p: int|
            0 <= p < s.len() && p != i && p != j && p != k ==> is_digit(#[trigger] s[p]),
{
    assert forall|p: int|
        0 <= p < s.len() && p != i && p != j && p != k implies is_digit(#[trigger] s[p]) by {
        if p < i {
            assert(s[p] == s.subrange(0, i)[p]);
        } else if p < j {
            assert(s[p] == s.subrange(i + 1, j)[p - (i + 1)]);
        } else if p < k {
            assert(s[p] == s.subrange(j + 1, k)[p - (j + 1)]);
        } else {
            assert(s[p] == s.subrange(k + 1, s.len() as int)[p - (k + 1)]);
        }
    }
}

/// A string splits into four dotted digit groups in at most one way.
pub proof fn lemma_ipv4_split_unique(
    s: Seq<char>,
    i: int,
    j: int,
    k: int,
    i2: int,
    j2: int,
    k2: int,
)
    requires
        ipv4_split(s, i, j, k),
        ipv4_split(s, i2, j2, k2),
    ensures
        i == i2,
        j == j2,
        k == k2,
{
    lemma_ipv4_split_chars(s, i, j, k);
    lemma_ipv4_split_chars(s, i2, j2, k2);
    assert(!is_digit('.'));
    assert(i2 == i || i2 == j || i2 == k);
    assert(j2 == i || j2 == j || j2 == k);
    assert(k2 == i || k2 == j || k2 == k);
    assert(i == i2 || i == j2 || i == k2);
    assert(j == i2 || j == j2 || j == k2);
    assert(k == i2 || k == j2 || k == k2);
}

/// Reads the digit group of `s` lying in `start..end` as a decimal value.
fn parse_group(s: &str, start: usize, end: usize) -> (r: Option<u64>)
    requires
        start < end,
        end <= s@.len(),
        all_digits(s@.subrange(start as int, end as int)),
    ensures
        r is Some <==> digits_val(s@.subrange(start as int, end as int)) <= u64::MAX,
        r matches Some(v) ==> v as nat == digits_val(s@.subrange(start as int, end as int)),
{
    let ghost g = s@.subrange(start as int, end as int);
    let mut val: u64 = 0;
    let mut i = start;
    while i < end
        invariant
            start <= i <= end,
            end <= s@.len(),
            g == s@.subrange(start as int, end as int),
            all_digits(g),
            val as nat == digits_val(g.take(i - start)),
        decreases end - i,
    {
        let c = s.get_char(i);
        proof {
            assert(c == g[i - start]);
        }
        let d = digit_value(c);
        proof {
            assert(g.take(i - start + 1).drop_last() =~= g.take(i - start));
            assert(g.take(i - start + 1).last() == c);
            assert(digits_val(g.take(i - start + 1)) == (val as nat) * 10 + digit_val(c));
        }
        if val > (u64::MAX - d) / 10 {
            proof {
                assert((u64::MAX - d) as int == 10 * (((u64::MAX - d) as int) / 10) + (((u64::MAX
                    - d) as int) % 10));
                assert((val as int) * 10 + (d as int) > u64::MAX);
                lemma_digits_val_take_le(g, i - start + 1);
            }
            return None;
        }
        proof {
            assert(10 * ((u64::MAX - d) as int / 10) <= (u64::MAX - d) as int);
            assert((val as int) * 10 + (d as int) <= u64::MAX);
        }
        val = val * 10 + d;
        i += 1;
    }
    proof {
        assert(g.take(i - start) =~= g);
    }
    Some(val)
}

/// Parses dotted-decimal address text into its four numeric components.
///
/// Succeeds exactly on text that matches the anchored pattern of four
/// dot-separated digit groups whose values fit in a 64-bit component; no
/// upper bound such as 255 is enforced, and leading zeros are accepted.
/// On any other input it fails, carrying the raw text.
pub fn parse_ip(raw: &str) -> (r: Result<IPv4, ParseIpError>)
    ensures
        r is Ok <==> exists|i: int, j: int, k: int|
            #[trigger] ipv4_split(raw@, i, j, k) && groups_fit(raw@, i, j, k),
        r matches Ok(a) ==> is_ipv4_str(raw@) && a@.len() == 4 && forall|i: int, j: int, k: int|
            #[trigger] ipv4_split(raw@, i, j, k) ==> octets_of_split(raw@, i, j, k, a@),
        r matches Err(e) ==> e.0@ == raw@,
{
    let ghost s = raw@;
    let n = raw.unicode_len();
    let mut count: usize = 0;
    let mut d0: usize = 0;
    let mut d1: usize = 0;
    let mut d2: usize = 0;
    let mut idx: usize = 0;
    while idx < n
        invariant
            idx <= n,
            n == s.len(),
            s == raw@,
            count <= 3,
            count >= 1 ==> d0 < idx && s[d0 as int] == '.',
            count >= 2 ==> d0 < d1 < idx && s[d1 as int] == '.',
            count >= 3 ==> d1 < d2 < idx && s[d2 as int] == '.',
            forall|p: int|
                0 <= p < idx && #[trigger] s[p] == '.' ==> (count >= 1 && p == d0) || (count >= 2
                    && p == d1) || (count >= 3 && p == d2),
            forall|p: int| 0 <= p < idx && #[trigger] s[p] != '.' ==> is_digit(s[p]),
        decreases n - idx,
    {
        let c = raw.get_char(idx);
        if c == '.' {
            if count == 0 {
                d0 = idx;
            } else if count == 1 {
                d1 = idx;
            } else if count == 2 {
                d2 = idx;
            } else {
                proof {
                    assert forall|i: int, j: int, k: int| !#[trigger] ipv4_split(s, i, j, k) by {
                        if ipv4_split(s, i, j, k) {
                            lemma_ipv4_split_chars(s, i, j, k);
                            assert(!is_digit('.'));
                            assert(d0 as int == i || d0 as int == j || d0 as int == k);
                            assert(d1 as int == i || d1 as int == j || d1 as int == k);
                            assert(d2 as int == i || d2 as int == j || d2 as int == k);
                            assert(idx as int == i || idx as int == j || idx as int == k);
                            assert(false);
                        }
                    }
                }
                return Err(ParseIpError(String::from_str(raw)));
            }
            count = count + 1;
        } else if !is_digit_char(c) {
            proof {
                assert forall|i: int, j: int, k: int| !#[trigger] ipv4_split(s, i, j, k) by {
                    if ipv4_split(s, i, j, k) {
                        lemma_ipv4_split_chars(s, i, j, k);
                        assert(false);
                    }
                }
            }
            return Err(ParseIpError(String::from_str(raw)));
        }
        idx += 1;
    }
    if count != 3 {
        proof {
            assert forall|i: int, j: int, k: int| !#[trigger] ipv4_split(s, i, j, k) by {
                if ipv4_split(s, i, j, k) {
                    assert(s[i] == '.');
                    assert(s[j] == '.');
                    assert(s[k] == '.');
                    assert(false);
                }
            }
        }
        return Err(ParseIpError(String::from_str(raw)));
    }
    if d0 == 0 || d1 <= d0 + 1 || d2 <= d1 + 1 || n <= d2 + 1 {
        proof {
            assert forall|i: int, j: int, k: int| !#[trigger] ipv4_split(s, i, j, k) by {
                if ipv4_split(s, i, j, k) {
                    assert(s[i] == '.');
                    assert(s[j] == '.');
                    assert(s[k] == '.');
                    assert(i == d0 && j == d1 && k == d2);
                    assert(false);
                }
            }
        }
        return Err(ParseIpError(String::from_str(raw)));
    }
    proof {
        assert(all_digits(s.subrange(0, d0 as int))) by {
            assert forall|q: int| 0 <= q < d0 implies is_digit(
                #[trigger] s.subrange(0, d0 as int)[q],
            ) by {
                assert(s.subrange(0, d0 as int)[q] == s[q]);
                assert(s[q] != '.');
            }
        }
        assert(all_digits(s.subrange(d0 as int + 1, d1 as int))) by {
            assert forall|q: int| 0 <= q < d1 - d0 - 1 implies is_digit(
                #[trigger] s.subrange(d0 as int + 1, d1 as int)[q],
            ) by {
                assert(s.subrange(d0 as int + 1, d1 as int)[q] == s[q + d0 + 1]);
                assert(s[q + d0 + 1] != '.');
            }
        }
        assert(all_digits(s.subrange(d1 as int + 1, d2 as int))) by {
            assert forall|q: int| 0 <= q < d2 - d1 - 1 implies is_digit(
                #[trigger] s.subrange(d1 as int + 1, d2 as int)[q],
            ) by {
                assert(s.subrange(d1 as int + 1, d2 as int)[q] == s[q + d1 + 1]);
                assert(s[q + d1 + 1] != '.');
            }
        }
        assert(all_digits(s.subrange(d2 as int + 1, s.len() as int))) by {
            assert forall|q: int| 0 <= q < s.len() - d2 - 1 implies is_digit(
                #[trigger] s.subrange(d2 as int + 1, s.len() as int)[q],
            ) by {
                assert(s.subrange(d2 as int + 1, s.len() as int)[q] == s[q + d2 + 1]);
                assert(s[q + d2 + 1] != '.');
            }
        }
        assert(ipv4_split(s, d0 as int, d1 as int, d2 as int));
    }
    let o0 = parse_group(raw, 0, d0);
    let o1 = parse_group(raw, d0 + 1, d1);
    let o2 = parse_group(raw, d1 + 1, d2);
    let o3 = parse_group(raw, d2 + 1, n);
    proof {
        assert forall|i: int, j: int, k: int| #[trigger]
            ipv4_split(s, i, j, k) implies i == d0 as int && j == d1 as int && k == d2 as int by {
            lemma_ipv4_split_unique(s, i, j, k, d0 as int, d1 as int, d2 as int);
        }
    }
    match (o0, o1, o2, o3) {
        (Some(v0), Some(v1), Some(v2), Some(v3)) => {
            let mut a: Vec<u64> = Vec::new();
            a.push(v0);
            a.push(v1);
            a.push(v2);
            a.push(v3);
            proof {
                assert(octets_of_split(s, d0 as int, d1 as int, d2 as int, a@));
                assert(groups_fit(s, d0 as int, d1 as int, d2 as int));
            }
            Ok(a)
        },
        _ => {
            proof {
                assert(!groups_fit(s, d0 as int, d1 as int, d2 as int));
            }
            Err(ParseIpError(String::from_str(raw)))
        },
    }
}

} // verus!
