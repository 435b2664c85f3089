//! The host name deriver: maps the four address components to the
//! provider's canonical public DNS name.

use vstd::prelude::*;
use vstd::string::StringExecFns;

use crate::address::IPv4;
use crate::decimal::dec_str;
use crate::decimal::is_digit;
use crate::decimal::lemma_dec_str_digits;
use crate::decimal::lemma_dec_str_injective;
use crate::decimal::lemma_digits_prefix_unique;
use crate::decimal::u64_to_string;

verus! {

/// The address did not have exactly four components; carries a description
/// for user display.
#[derive(Debug)]
pub struct GetEc2IpError(pub String);

/// The provider's canonical DNS name for the four address components: their
/// decimal texts joined by `-` inside the fixed region/domain template.
pub open spec fn ec2_host_name(o1: u64, o2: u64, o3: u64, o4: u64) -> Seq<char> {
    "ec2-"@ + (dec_str(o1 as nat) + ("-"@ + (dec_str(o2 as nat) + ("-"@ + (dec_str(o3 as nat) + (
    "-"@ + (dec_str(o4 as nat) + ".ap-southeast-2.compute.amazonaws.com"@)))))))
}

/// Derives the canonical host name of an address.
///
/// Fails exactly when the address does not have four components; the
/// address parser always hands over four, so the failure is defensive.
pub fn get_ec2_ip(ip: &IPv4) -> (r: Result<String, GetEc2IpError>)
    ensures
        ip@.len() == 4 ==> (r matches Ok(h) && h@ == ec2_host_name(ip@[0], ip@[1], ip@[2], ip@[3])),
        ip@.len() != 4 ==> r is Err,
{
    if ip.len() != 4 {
        return Err(GetEc2IpError(String::from_str("expected exactly four components")));
    }
    let mut h = String::from_str("ec2-");
    let one = u64_to_string(ip[0]);
    h.append(one.as_str());
    h.append("-");
    let two = u64_to_string(ip[1]);
    h.append(two.as_str());
    h.append("-");
    let three = u64_to_string(ip[2]);
    h.append(three.as_str());
    h.append("-");
    let four = u64_to_string(ip[3]);
    h.append(four.as_str());
    h.append(".ap-southeast-2.compute.amazonaws.com");
    proof {
        assert(h@ =~= ec2_host_name(ip@[0], ip@[1], ip@[2], ip@[3]));
    }
    Ok(h)
}

/// Equal concatenations with the same head have the same tail.
proof fn lemma_concat_cancel_left(p: Seq<char>, t1: Seq<char>, t2: Seq<char>)
    requires
        p + t1 == p + t2,
    ensures
        t1 == t2,
{
    assert((p + t1).len() == p.len() + t1.len());
    assert((p + t2).len() == p.len() + t2.len());
    assert(t1 =~= t2) by {
        assert(forall|i: int| 0 <= i < t1.len() ==> #[trigger] t1[i] == (p + t1)[p.len() + i]);
        assert(forall|i: int| 0 <= i < t2.len() ==> #[trigger] t2[i] == (p + t2)[p.len() + i]);
    }
}

/// Equal strings that each start with a decimal numeral followed by a
/// non-digit carry the same number and the same tail.
proof fn lemma_strip_dec(n1: nat, t1: Seq<char>, n2: nat, t2: Seq<char>)
    requires
        dec_str(n1) + t1 == dec_str(n2) + t2,
        t1.len() > 0,
        !is_digit(t1[0]),
        t2.len() > 0,
        !is_digit(t2[0]),
    ensures
        n1 == n2,
        t1 == t2,
{
    lemma_dec_str_digits(n1);
    lemma_dec_str_digits(n2);
    lemma_digits_prefix_unique(dec_str(n1) + t1, dec_str(n1), t1, dec_str(n2), t2);
    lemma_dec_str_injective(n1, n2);
}

/// The host name deriver is injective: distinct addresses always derive
/// distinct host names.
pub proof fn lemma_ec2_host_name_injective(
    a1: u64,
    b1: u64,
    c1: u64,
    d1: u64,
    a2: u64,
    b2: u64,
    c2: u64,
    d2: u64,
)
    requires
        ec2_host_name(a1, b1, c1, d1) == ec2_host_name(a2, b2, c2, d2),
    ensures
        a1 == a2,
        b1 == b2,
        c1 == c2,
        d1 == d2,
{
    reveal_strlit("-");
    reveal_strlit(".ap-southeast-2.compute.amazonaws.com");
    let m = "-"@;
    let suf = ".ap-southeast-2.compute.amazonaws.com"@;
    assert(m.len() == 1 && m[0] == '-');
    assert(suf.len() > 0 && suf[0] == '.');

    let u1 = m + (dec_str(b1 as nat) + (m + (dec_str(c1 as nat) + (m + (dec_str(d1 as nat)
        + suf)))));
    let u2 = m + (dec_str(b2 as nat) + (m + (dec_str(c2 as nat) + (m + (dec_str(d2 as nat)
        + suf)))));
    lemma_concat_cancel_left("ec2-"@, dec_str(a1 as nat) + u1, dec_str(a2 as nat) + u2);
    assert(u1[0] == '-' && u2[0] == '-');
    lemma_strip_dec(a1 as nat, u1, a2 as nat, u2);

    let v1 = m + (dec_str(c1 as nat) + (m + (dec_str(d1 as nat) + suf)));
    let v2 = m + (dec_str(c2 as nat) + (m + (dec_str(d2 as nat) + suf)));
    lemma_concat_cancel_left(m, dec_str(b1 as nat) + v1, dec_str(b2 as nat) + v2);
    assert(v1[0] == '-' && v2[0] == '-');
    lemma_strip_dec(b1 as nat, v1, b2 as nat, v2);

    let w1 = m + (dec_str(d1 as nat) + suf);
    let w2 = m + (dec_str(d2 as nat) + suf);
    lemma_concat_cancel_left(m, dec_str(c1 as nat) + w1, dec_str(c2 as nat) + w2);
    assert(w1[0] == '-' && w2[0] == '-');
    lemma_strip_dec(c1 as nat, w1, c2 as nat, w2);

    lemma_concat_cancel_left(m, dec_str(d1 as nat) + suf, dec_str(d2 as nat) + suf);
    lemma_strip_dec(d1 as nat, suf, d2 as nat, suf);
}

} // verus!
