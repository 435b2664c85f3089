//! The command builder: assembles the ordered argument vector for the
//! remote-shell invocation from the derived host name and the port pairs.

use vstd::prelude::*;
use vstd::pervasive::unreached;
use vstd::string::StringExecFns;

use crate::address::IPv4;
use crate::host::ec2_host_name;
use crate::host::get_ec2_ip;
use crate::ports::PortPairs;

verus! {

/// The fixed program name and the ordered argument list that are handed to
/// the process-spawn collaborator.
#[derive(Debug)]
pub struct CommandDescriptor {
    pub program: String,
    pub args: Vec<String>,
}

/// The forwarding token `<local>:<host>:<remote>` for one port pair.
pub open spec fn forward_arg(p: PortPairs, host: Seq<char>) -> Seq<char> {
    p.local@ + ":"@ + host + ":"@ + p.remote@
}

/// The final positional token `ubuntu@<host>`.
pub open spec fn user_at_host(host: Seq<char>) -> Seq<char> {
    "ubuntu@"@ + host
}

/// The forwarding arguments, in pair order: a `-L` flag directly followed by
/// the pair's forwarding token.
pub open spec fn forwarding_args(pairs: Seq<PortPairs>, host: Seq<char>) -> Seq<Seq<char>>
    decreases pairs.len(),
{
    if pairs.len() == 0 {
        Seq::empty()
    } else {
        forwarding_args(pairs.drop_last(), host) + seq!["-L"@, forward_arg(pairs.last(), host)]
    }
}

/// The whole argument list: the forwarding arguments, then the one final
/// positional token.
pub open spec fn command_args(pairs: Seq<PortPairs>, host: Seq<char>) -> Seq<Seq<char>> {
    forwarding_args(pairs, host).push(user_at_host(host))
}

/// The argument list has two entries per pair and the final token.
pub proof fn lemma_command_args_len(pairs: Seq<PortPairs>, host: Seq<char>)
    ensures
        command_args(pairs, host).len() == 2 * pairs.len() + 1,
    decreases pairs.len(),
{
    if pairs.len() > 0 {
        lemma_command_args_len(pairs.drop_last(), host);
    }
}

/// Entries `2q` and `2q + 1` of the argument list `c` are the `-L` flag and
/// the forwarding token of pair `q`: the two stay adjacent.
pub open spec fn flag_pair_at(c: Seq<Seq<char>>, q: int, p: PortPairs, host: Seq<char>) -> bool {
    c[2 * q] == "-L"@ && c[2 * q + 1] == forward_arg(p, host)
}

/// Argument ordering: pair `q` owns entries `2q` (the `-L` flag) and
/// `2q + 1` (its forwarding token), in input order, and the last entry is
/// the positional token; with no pairs only the positional token remains.
pub proof fn lemma_command_args_index(pairs: Seq<PortPairs>, host: Seq<char>)
    ensures
        command_args(pairs, host).len() == 2 * pairs.len() + 1,
        forall|q: int|
            0 <= q < pairs.len() ==> #[trigger] flag_pair_at(
                command_args(pairs, host),
                q,
                pairs[q],
                host,
            ),
        command_args(pairs, host)[2 * pairs.len() as int] == user_at_host(host),
    decreases pairs.len(),
{
    lemma_command_args_len(pairs, host);
    if pairs.len() > 0 {
        lemma_command_args_index(pairs.drop_last(), host);
        assert forall|q: int| 0 <= q < pairs.len() implies #[trigger] flag_pair_at(
            command_args(pairs, host),
            q,
            pairs[q],
            host,
        ) by {
            if q < pairs.len() - 1 {
                assert(pairs.drop_last()[q] == pairs[q]);
                assert(flag_pair_at(command_args(pairs.drop_last(), host), q, pairs[q], host));
                assert(command_args(pairs, host)[2 * q] == command_args(pairs.drop_last(), host)[2
                    * q]);
                assert(command_args(pairs, host)[2 * q + 1] == command_args(
                    pairs.drop_last(),
                    host,
                )[2 * q + 1]);
            } else {
                assert(command_args(pairs, host)[2 * q] == "-L"@);
                assert(command_args(pairs, host)[2 * q + 1] == forward_arg(pairs[q], host));
            }
        }
    }
}

/// Assembles the `ssh` invocation: for each pair, in input order, a `-L`
/// flag followed by its forwarding token, and one final positional token
/// naming the remote user at the derived host. Building never fails.
pub fn get_command(ip: &IPv4, port_pairs: &Vec<PortPairs>) -> (r: CommandDescriptor)
    requires
        ip@.len() == 4,
    ensures
        r.program@ == "ssh"@,
        r.args@.map_values(|a: String| a@) == command_args(
            port_pairs@,
            ec2_host_name(ip@[0], ip@[1], ip@[2], ip@[3]),
        ),
{
    let ghost host = ec2_host_name(ip@[0], ip@[1], ip@[2], ip@[3]);
    let ec2_ip = match get_ec2_ip(ip) {
        Ok(h) => h,
        Err(_) => unreached(),
    };
    let mut args: Vec<String> = Vec::new();
    let mut q: usize = 0;
    while q < port_pairs.len()
        invariant
            q <= port_pairs@.len(),
            ec2_ip@ == host,
            args@.map_values(|a: String| a@) == forwarding_args(port_pairs@.take(q as int), host),
        decreases port_pairs@.len() - q,
    {
        let ghost args0 = args@;
        let flag = String::from_str("-L");
        let ghost flagv = flag;
        args.push(flag);
        let pair = &port_pairs[q];
        let mut farg = pair.local.clone();
        farg.append(":");
        farg.append(ec2_ip.as_str());
        farg.append(":");
        farg.append(pair.remote.as_str());
        proof {
            assert(farg@ =~= forward_arg(port_pairs@[q as int], host));
        }
        let ghost fargv = farg;
        args.push(farg);
        q += 1;
        proof {
            let taken = port_pairs@.take(q as int);
            assert(taken.drop_last() =~= port_pairs@.take(q as int - 1));
            assert(taken.last() == port_pairs@[q as int - 1]);
            assert(args@ == args0.push(flagv).push(fargv));
            assert(args@.map_values(|a: String| a@) =~= forwarding_args(taken, host));
        }
    }
    proof {
        assert(port_pairs@.take(port_pairs@.len() as int) =~= port_pairs@);
    }
    let ghost args1 = args@;
    let mut last = String::from_str("ubuntu@");
    last.append(ec2_ip.as_str());
    let ghost lastv = last;
    args.push(last);
    proof {
        assert(lastv@ =~= user_at_host(host));
        assert(args@ == args1.push(lastv));
        assert(args@.map_values(|a: String| a@) =~= command_args(port_pairs@, host));
    }
    CommandDescriptor { program: String::from_str("ssh"), args }
}

} // verus!
