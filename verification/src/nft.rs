//! The NAT controller's decisions: whether each address family needs
//! masquerading at all, the firewall rule scripts that install it, the
//! teardown commands, and the parsing of the host's default-route device.
//!
//! The firewall tool and the route query run outside; this module only
//! decides and renders.

use vstd::prelude::*;
use vstd::string::StrSliceExecFns;
use vstd::string::StringExecFns;

use crate::addr::{SubnetV4, SubnetV6};
use crate::errors::Error;
use crate::ip_alloc::{spec_subnet_v4_text, spec_subnet_v6_text, subnet_v4_text, subnet_v6_text};
use crate::text::{
    contains_str, contains_substring, norm_ws, spec_clean_list, spec_norm_ws, spec_split,
    split_char, split_items, views_of,
};

verus! {

/// The runtime handle apply passes to teardown: which families got NAT rules.
#[derive(Debug, Clone, Copy, PartialEq, Eq, Structural)]
pub struct NftHandles {
    pub v4: bool,
    pub v6: bool,
}

/// A family needs NAT exactly when the allowed-IP list routes the whole
/// family through the tunnel.
pub open spec fn spec_nat_required(allowed: Seq<String>, full_range: Seq<char>) -> bool {
    exists|i: int| 0 <= i < allowed.len() && (#[trigger] allowed[i])@ == full_range
}

/// Decides which families need NAT: IPv4 when the allowed-IP list holds the
/// IPv4 default route, IPv6 when it holds the IPv6 one.
pub fn nat_required(allowed_ips: &Vec<String>) -> (r: (bool, bool))
    ensures
        r.0 == spec_nat_required(allowed_ips@, "0.0.0.0/0"@),
        r.1 == spec_nat_required(allowed_ips@, "::/0"@),
{
    let v4 = contains_str(allowed_ips, "0.0.0.0/0");
    let v6 = contains_str(allowed_ips, "::/0");
    (v4, v6)
}

/// Whether the firewall tool is needed at all: only when some family needs
/// NAT. Without a default route in the allowed-IP list nothing depends on the
/// tool being present.
pub fn needs_nat_tool(allowed_ips: &Vec<String>) -> (r: bool)
    ensures
        r == (spec_nat_required(allowed_ips@, "0.0.0.0/0"@) || spec_nat_required(
            allowed_ips@,
            "::/0"@,
        )),
{
    let (v4, v6) = nat_required(allowed_ips);
    v4 || v6
}

/// Gates NAT on its prerequisites: when NAT is required the firewall tool
/// must be there, and IPv6 NAT needs a configured IPv6 subnet. Either absence
/// fails fast rather than running without masquerading; with no NAT required
/// nothing is demanded.
pub fn nat_gate(enable_v4: bool, enable_v6: bool, tool_present: bool, have_subnet_v6: bool) -> (r:
    Result<(), Error>)
    ensures
        r is Ok <==> ((!(enable_v4 || enable_v6) || tool_present) && (!enable_v6
            || have_subnet_v6)),
        match r {
            Ok(u) => true,
            Err(e) => match e {
                Error::MissingDependency(t) => t@ == "nft"@ && (enable_v4 || enable_v6)
                    && !tool_present,
                Error::MissingIpv6Subnet => enable_v6 && !have_subnet_v6 && tool_present,
                _ => false,
            },
        },
{
    if (enable_v4 || enable_v6) && !tool_present {
        Err(Error::MissingDependency("nft".to_owned()))
    } else if enable_v6 && !have_subnet_v6 {
        Err(Error::MissingIpv6Subnet)
    } else {
        Ok(())
    }
}

/// The arguments that delete one named table, by family.
pub open spec fn spec_delete_table_cmd(family: Seq<char>, table: Seq<char>) -> Seq<Seq<char>> {
    seq!["delete"@, "table"@, family, table]
}

fn delete_table_cmd(family: &str, table: &str) -> (r: Vec<String>)
    ensures
        views_of(r@) =~= spec_delete_table_cmd(family@, table@),
{
    let mut cmd: Vec<String> = Vec::new();
    cmd.push("delete".to_owned());
    cmd.push("table".to_owned());
    cmd.push(family.to_owned());
    cmd.push(table.to_owned());
    cmd
}

/// The IPv4 NAT rule script: a fresh table whose postrouting chain
/// masquerades the VPN subnet out of the egress device.
pub open spec fn spec_nat_script_v4(dev: Seq<char>, subnet: SubnetV4) -> Seq<char> {
    "add table ip wg_nat_v4\nadd chain ip wg_nat_v4 postrouting { type nat hook postrouting priority 100 ; }\nadd rule ip wg_nat_v4 postrouting oifname \""@
        + dev + "\" ip saddr "@ + spec_subnet_v4_text(subnet) + " masquerade\n"@
}

/// Renders the IPv4 NAT apply: the delete of any same-named table, then the
/// rule script that replaces it.
pub fn apply_nat_v4(dev: &str, subnet: &SubnetV4) -> (r: (Vec<String>, String))
    ensures
        views_of(r.0@) =~= spec_delete_table_cmd("ip"@, "wg_nat_v4"@),
        r.1@ == spec_nat_script_v4(dev@, *subnet),
{
    let del = delete_table_cmd("ip", "wg_nat_v4");
    let mut script: String =
        "add table ip wg_nat_v4\nadd chain ip wg_nat_v4 postrouting { type nat hook postrouting priority 100 ; }\nadd rule ip wg_nat_v4 postrouting oifname \"".to_owned();
    script.append(dev);
    script.append("\" ip saddr ");
    let st = subnet_v4_text(subnet);
    script.append(st.as_str());
    script.append(" masquerade\n");
    proof {
        assert(script@ =~= spec_nat_script_v4(dev@, *subnet));
    }
    (del, script)
}

/// The IPv6 NAT rule script.
pub open spec fn spec_nat_script_v6(dev: Seq<char>, subnet: SubnetV6) -> Seq<char> {
    "add table ip6 wg_nat_v6\nadd chain ip6 wg_nat_v6 postrouting { type nat hook postrouting priority 100 ; }\nadd rule ip6 wg_nat_v6 postrouting oifname \""@
        + dev + "\" ip6 saddr "@ + spec_subnet_v6_text(subnet) + " masquerade\n"@
}

/// Renders the IPv6 NAT apply: the delete of any same-named table, then the
/// rule script that replaces it.
pub fn apply_nat_v6(dev: &str, subnet: &SubnetV6) -> (r: (Vec<String>, String))
    ensures
        views_of(r.0@) =~= spec_delete_table_cmd("ip6"@, "wg_nat_v6"@),
        r.1@ == spec_nat_script_v6(dev@, *subnet),
{
    let del = delete_table_cmd("ip6", "wg_nat_v6");
    let mut script: String =
        "add table ip6 wg_nat_v6\nadd chain ip6 wg_nat_v6 postrouting { type nat hook postrouting priority 100 ; }\nadd rule ip6 wg_nat_v6 postrouting oifname \"".to_owned();
    script.append(dev);
    script.append("\" ip6 saddr ");
    let st = subnet_v6_text(subnet);
    script.append(st.as_str());
    script.append(" masquerade\n");
    proof {
        assert(script@ =~= spec_nat_script_v6(dev@, *subnet));
    }
    (del, script)
}

/// The IPv4 forward-filter script: accept both directions on the tunnel.
pub open spec fn spec_forward_script_v4() -> Seq<char> {
    "add table ip wg_filter_v4\nadd chain ip wg_filter_v4 forward { type filter hook forward priority 0 ; }\nadd rule ip wg_filter_v4 forward iifname \"wg0\" accept\nadd rule ip wg_filter_v4 forward oifname \"wg0\" accept\n"@
}

/// Renders the IPv4 forward-filter apply: delete, then the replacing script.
pub fn apply_forward_v4() -> (r: (Vec<String>, String))
    ensures
        views_of(r.0@) =~= spec_delete_table_cmd("ip"@, "wg_filter_v4"@),
        r.1@ == spec_forward_script_v4(),
{
    let del = delete_table_cmd("ip", "wg_filter_v4");
    let script: String =
        "add table ip wg_filter_v4\nadd chain ip wg_filter_v4 forward { type filter hook forward priority 0 ; }\nadd rule ip wg_filter_v4 forward iifname \"wg0\" accept\nadd rule ip wg_filter_v4 forward oifname \"wg0\" accept\n".to_owned();
    (del, script)
}

/// The IPv6 forward-filter script: accept both directions on the tunnel.
pub open spec fn spec_forward_script_v6() -> Seq<char> {
    "add table ip6 wg_filter_v6\nadd chain ip6 wg_filter_v6 forward { type filter hook forward priority 0 ; }\nadd rule ip6 wg_filter_v6 forward iifname \"wg0\" accept\nadd rule ip6 wg_filter_v6 forward oifname \"wg0\" accept\n"@
}

/// Renders the IPv6 forward-filter apply: delete, then the replacing script.
pub fn apply_forward_v6() -> (r: (Vec<String>, String))
    ensures
        views_of(r.0@) =~= spec_delete_table_cmd("ip6"@, "wg_filter_v6"@),
        r.1@ == spec_forward_script_v6(),
{
    let del = delete_table_cmd("ip6", "wg_filter_v6");
    let script: String =
        "add table ip6 wg_filter_v6\nadd chain ip6 wg_filter_v6 forward { type filter hook forward priority 0 ; }\nadd rule ip6 wg_filter_v6 forward iifname \"wg0\" accept\nadd rule ip6 wg_filter_v6 forward oifname \"wg0\" accept\n".to_owned();
    (del, script)
}

/// The table deletions teardown issues, one per family that was enabled, NAT
/// table first.
pub open spec fn spec_teardown_cmds(handles: NftHandles) -> Seq<Seq<Seq<char>>> {
    (if handles.v4 {
        seq![
            spec_delete_table_cmd("ip"@, "wg_nat_v4"@),
            spec_delete_table_cmd("ip"@, "wg_filter_v4"@),
        ]
    } else {
        Seq::<Seq<Seq<char>>>::empty()
    }) + (if handles.v6 {
        seq![
            spec_delete_table_cmd("ip6"@, "wg_nat_v6"@),
            spec_delete_table_cmd("ip6"@, "wg_filter_v6"@),
        ]
    } else {
        Seq::<Seq<Seq<char>>>::empty()
    })
}

/// Builds the teardown deletions for the families apply enabled; each runs
/// with a missing table counted as success.
pub fn teardown(handles: &NftHandles) -> (r: Vec<Vec<String>>)
    ensures
        crate::iface::spec_cmd_views(r@) =~= spec_teardown_cmds(*handles),
{
    let mut cmds: Vec<Vec<String>> = Vec::new();
    if handles.v4 {
        cmds.push(delete_table_cmd("ip", "wg_nat_v4"));
        cmds.push(delete_table_cmd("ip", "wg_filter_v4"));
    }
    if handles.v6 {
        cmds.push(delete_table_cmd("ip6", "wg_nat_v6"));
        cmds.push(delete_table_cmd("ip6", "wg_filter_v6"));
    }
    cmds
}

/// How a table deletion's outcome is read: success, or a missing-table
/// complaint, counts as done; anything else is a real failure carrying the
/// tool's words.
pub fn nft_delete_outcome(success: bool, stderr: &str) -> (r: Result<(), Error>)
    ensures
        match r {
            Ok(u) => success || (exists|k: int|
                0 <= k && k + "No such file or directory"@.len() <= stderr@.len()
                    && #[trigger] stderr@.subrange(k, k + "No such file or directory"@.len())
                    == "No such file or directory"@),
            Err(e) => !success && (e matches Error::CommandFailed(t) && t@ == stderr@),
        },
{
    if success {
        return Ok(());
    }
    if contains_substring(stderr, "No such file or directory") {
        return Ok(());
    }
    Err(Error::CommandFailed(stderr.to_owned()))
}

/// The device named after the first `dev` token of a routing-table line.
pub open spec fn spec_dev_of_tokens(tokens: Seq<Seq<char>>) -> Option<Seq<char>>
    decreases tokens.len(),
{
    if tokens.len() == 0 {
        None
    } else if tokens.first() == "dev"@ && tokens.len() >= 2 {
        Some(tokens[1])
    } else {
        spec_dev_of_tokens(tokens.drop_first())
    }
}

/// The egress device the route listing names: the token after `dev` on the
/// first line that has one, tokens being the line's whitespace-separated
/// words.
pub open spec fn spec_dev_of_lines(lines: Seq<Seq<char>>) -> Option<Seq<char>>
    decreases lines.len(),
{
    if lines.len() == 0 {
        None
    } else {
        match spec_dev_of_tokens(
            spec_clean_list(spec_split(spec_norm_ws(lines.first()), ' ')),
        ) {
            Some(d) => Some(d),
            None => spec_dev_of_lines(lines.drop_first()),
        }
    }
}

/// Picks the egress device out of `ip route show default` output, exactly as
/// `spec_dev_of_lines` says over the output's lines.
pub fn parse_dev_from_route(text: &str) -> (r: Option<String>)
    ensures
        match r {
            Some(d) => spec_dev_of_lines(spec_split(text@, '\n')) == Some(d@),
            None => spec_dev_of_lines(spec_split(text@, '\n')) is None,
        },
{
    let lines = split_char(text, '\n');
    let ghost lv = views_of(lines@);
    let n: usize = lines.len();
    assert(lv.skip(0) =~= lv);
    for i in 0..n
        invariant
            n == lines@.len(),
            lv == views_of(lines@),
            lv == spec_split(text@, '\n'),
            spec_dev_of_lines(lv) == spec_dev_of_lines(lv.skip(i as int)),
    {
        proof {
            assert(lv.skip(i as int).first() == lv[i as int]);
            assert(lv.skip(i as int).drop_first() =~= lv.skip(i + 1));
            assert(lv[i as int] == lines@[i as int]@);
        }
        let normed = norm_ws(lines[i].as_str());
        let tokens = split_items(normed.as_str(), ' ');
        let ghost tv = views_of(tokens@);
        let m: usize = tokens.len();
        assert(tv.skip(0) =~= tv);
        let mut found: Option<String> = None;
        let mut j: usize = 0;
        while j < m
            invariant_except_break
                m == tokens@.len(),
                tv == views_of(tokens@),
                j <= m,
                found is None,
                spec_dev_of_tokens(tv) == spec_dev_of_tokens(tv.skip(j as int)),
            ensures
                tv == views_of(tokens@),
                match found {
                    Some(d) => spec_dev_of_tokens(tv) == Some(d@),
                    None => spec_dev_of_tokens(tv) is None,
                },
            decreases m - j,
        {
            proof {
                assert(tv.skip(j as int).first() == tv[j as int]);
                assert(tv.skip(j as int).drop_first() =~= tv.skip(j + 1));
                assert(tv[j as int] == tokens@[j as int]@);
                reveal_strlit("dev");
            }
            if crate::text::str_eq(tokens[j].as_str(), "dev") {
                if j + 1 < m {
                    proof {
                        assert(tv.skip(j as int)[1] == tv[j + 1]);
                        assert(tv[j + 1] == tokens@[j + 1]@);
                    }
                    found = Some(tokens[j + 1].clone());
                    break;
                } else {
                    assert(tv.skip(j as int).len() == 1);
                    assert(spec_dev_of_tokens(tv.skip(j + 1)) is None) by {
                        assert(tv.skip(j + 1) =~= Seq::<Seq<char>>::empty());
                    }
                    break;
                }
            }
            j += 1;
            if j == m {
                assert(tv.skip(j as int) =~= Seq::<Seq<char>>::empty());
            }
        }
        match found {
            Some(d) => {
                return Some(d);
            },
            None => {},
        }
    }
    proof {
        assert(lv.skip(n as int) =~= Seq::<Seq<char>>::empty());
    }
    None
}

} // verus!
